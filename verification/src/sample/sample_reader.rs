//! [`SampleReader`], the samples gathered out of the bytes their extents name

use std::ops::Range;

use vstd::prelude::*;

use crate::sample::error::SampleError;
use crate::sample::sample::{Sample, SampleExtent, SampleExtentView, SampleView};

verus! {

/// A sample an extent names, gathered as far as its bytes have arrived
pub struct PendingView {
    pub extent: SampleExtentView,
    pub data: Seq<u8>,
}

/// The bytes an extent names
pub open spec fn declared_len(e: SampleExtentView) -> nat {
    if e.end >= e.start {
        (e.end - e.start) as nat
    } else {
        0
    }
}

/// Every byte the extent names has arrived
pub open spec fn is_whole(p: PendingView) -> bool {
    p.data.len() >= declared_len(p.extent)
}

/// The first byte of the file the sample still lacks
pub open spec fn lacking_start(p: PendingView) -> int {
    if p.extent.start + p.data.len() > u64::MAX {
        u64::MAX as int
    } else {
        p.extent.start + p.data.len()
    }
}

/// The end of the bytes of the file `data` from `offset` on covers
pub open spec fn arriving_end(offset: u64, data: Seq<u8>) -> int {
    if offset + data.len() > u64::MAX {
        u64::MAX as int
    } else {
        offset + data.len()
    }
}

/// The sample once the bytes of `data`, from `offset` on, reach it: it takes
/// from the byte it lacks next up to the end of the input or of itself
pub open spec fn take_from(p: PendingView, offset: u64, data: Seq<u8>) -> PendingView {
    let start = lacking_start(p);
    let end = arriving_end(offset, data);
    if is_whole(p) || !(offset <= start < end) {
        p
    } else {
        let to = if end < p.extent.end { end } else { p.extent.end as int };
        let taken_from = start - offset;
        let taken_to = if to >= offset { to - offset } else { 0 };
        if taken_from <= taken_to <= data.len() {
            PendingView { extent: p.extent, data: p.data + data.subrange(taken_from, taken_to) }
        } else {
            p
        }
    }
}

/// Every sample held once the bytes of `data`, from `offset` on, reach them
pub open spec fn fill(pending: Seq<PendingView>, offset: u64, data: Seq<u8>) -> Seq<PendingView> {
    pending.map_values(|p: PendingView| take_from(p, offset, data))
}

/// Some sample held was short and is whole now
pub open spec fn made_whole(before: Seq<PendingView>, after: Seq<PendingView>) -> bool {
    exists|i: int| 0 <= i < before.len() && !is_whole(before[i]) && #[trigger] is_whole(after[i])
}

/// The sample a pending one is, now that every byte of it has arrived
pub open spec fn sample_of(p: PendingView) -> SampleView {
    SampleView {
        track_id: p.extent.track_id,
        decode_time: p.extent.decode_time,
        sample_duration: p.extent.sample_duration,
        sample_composition_time_offset: p.extent.sample_composition_time_offset,
        sample_flags: p.extent.sample_flags,
        sample_description_index: p.extent.sample_description_index,
        data: p.data,
    }
}

/// Hands the whole samples at the front of those held over to those ready, in the order they were held
pub open spec fn report_front(pending: Seq<PendingView>, ready: Seq<SampleView>) -> (Seq<PendingView>, Seq<SampleView>)
    decreases pending.len(),
{
    if pending.len() > 0 && is_whole(pending[0]) {
        report_front(pending.drop_first(), ready.push(sample_of(pending[0])))
    } else {
        (pending, ready)
    }
}

/// Hands every whole sample held that carries bytes over to those ready, in
/// the order they were held, keeping the others behind those in `kept`
pub open spec fn sweep(pending: Seq<PendingView>, kept: Seq<PendingView>, ready: Seq<SampleView>) -> (Seq<PendingView>, Seq<SampleView>)
    decreases pending.len(),
{
    if pending.len() == 0 {
        (kept, ready)
    } else {
        let p = pending[0];
        if is_whole(p) && declared_len(p.extent) > 0 {
            sweep(pending.drop_first(), kept, ready.push(sample_of(p)))
        } else {
            sweep(pending.drop_first(), kept.push(p), ready)
        }
    }
}

/// Where the reader stands between calls
#[derive(Clone, Copy, PartialEq, Eq, Debug, Structural)]
pub enum ReaderState {
    /// Taking extents and bytes
    Reading,
    /// Told the samples are over, and taking no more
    Finished,
    /// Failed, and reporting that same failure for every call after it
    Failed(SampleError),
}

/// The failure a reader that is no longer reading reports
pub open spec fn refusal(state: ReaderState) -> SampleError {
    match state {
        ReaderState::Failed(failure) => failure,
        _ => SampleError::AlreadyFinished,
    }
}

/// The position at which `x` joins `pending`, after every extent held from
/// `first` on that starts at or before it
pub open spec fn insertion_point(pending: Seq<PendingView>, first: int, x: PendingView, k: int) -> int
    decreases k,
{
    if k <= first || k <= 0 || pending[k - 1].extent.start <= x.extent.start {
        k
    } else {
        insertion_point(pending, first, x, k - 1)
    }
}

/// `pending` with `x` held among the extents from `first` on, in the order of their bytes
pub open spec fn insert_in_order(pending: Seq<PendingView>, first: int, x: PendingView) -> Seq<PendingView> {
    pending.insert(insertion_point(pending, first, x, pending.len() as int), x)
}

/// Sample an extent names, gathered as far as its bytes have arrived
#[derive(Debug)]
struct PendingSample {
    extent: SampleExtent,
    data: Vec<u8>,
}

impl View for PendingSample {
    type V = PendingView;

    closed spec fn view(&self) -> PendingView {
        PendingView { extent: self.extent@, data: self.data@ }
    }
}

impl PendingSample {
    /// Returns the bytes the extent names
    fn declared_len(&self) -> (length: u64)
        ensures
            length == declared_len(self@.extent),
    {
        let named = self.extent.extent();
        named.end.saturating_sub(named.start)
    }

    /// Returns whether every byte the extent names has arrived
    fn is_whole(&self) -> (whole: bool)
        ensures
            whole == is_whole(self@),
    {
        self.data.len() as u64 >= self.declared_len()
    }

    /// Returns the bytes the extent names that have yet to arrive
    fn lacking(&self) -> (lacking: Range<u64>)
        ensures
            lacking.start == lacking_start(self@),
            lacking.end == self@.extent.end,
    {
        let named = self.extent.extent();
        Range { start: named.start.saturating_add(self.data.len() as u64), end: named.end }
    }

    /// Takes off `data`, the bytes of the file from `offset` on, the bytes of this sample that come next
    fn take_from(&mut self, offset: u64, data: &[u8])
        ensures
            final(self)@ == take_from(old(self)@, offset, data@),
    {
        if self.is_whole() {
            return;
        }
        let lacking = self.lacking();
        let arriving_end = offset.saturating_add(data.len() as u64);
        if !(offset <= lacking.start && lacking.start < arriving_end) {
            return;
        }
        let to = if arriving_end < lacking.end { arriving_end } else { lacking.end };
        let taken_from = lacking.start - offset;
        let taken_to = to.saturating_sub(offset);
        if taken_from <= taken_to && taken_to <= data.len() as u64 {
            if self.data.len() == 0 {
                self.data.reserve(self.declared_len() as usize);
            }
            let mut i = taken_from as usize;
            let ghost start = self.data@;
            while i < taken_to as usize
                invariant
                    taken_from <= i <= taken_to <= data@.len(),
                    self.extent == old(self).extent,
                    self.data@ == start + data@.subrange(taken_from as int, i as int),
                decreases taken_to - i,
            {
                self.data.push(data[i]);
                i = i + 1;
                assert(data@.subrange(taken_from as int, i as int) =~= data@.subrange(taken_from as int, i - 1).push(
                    data@[i - 1],
                ));
            }
        }
    }

    /// Returns the sample, now that every byte of it has arrived
    fn into_sample(self) -> (sample: Sample)
        ensures
            sample@ == sample_of(self@),
    {
        Sample::new(
            self.extent.track_id(),
            self.extent.decode_time(),
            self.extent.sample_duration(),
            self.extent.sample_composition_time_offset(),
            self.extent.sample_flags(),
            self.extent.sample_description_index(),
            self.data,
        )
    }
}

/// The views of the samples held
spec fn pending_views(pending: Seq<PendingSample>) -> Seq<PendingView> {
    pending.map_values(|p: PendingSample| p@)
}

/// The views of the samples ready to take
pub open spec fn sample_views(ready: Seq<Sample>) -> Seq<SampleView> {
    ready.map_values(|s: Sample| s@)
}

/// The memory a sample held takes: the bytes its extent names once any of them has arrived
pub open spec fn memory_of(p: PendingView) -> nat {
    if p.data.len() > 0 {
        declared_len(p.extent)
    } else {
        0
    }
}

/// The memory the samples `pending` take
pub open spec fn pending_memory(pending: Seq<PendingView>) -> nat
    decreases pending.len(),
{
    if pending.len() == 0 {
        0
    } else {
        pending_memory(pending.drop_last()) + memory_of(pending.last())
    }
}

/// The bytes the samples `ready` carry
pub open spec fn ready_memory(ready: Seq<SampleView>) -> nat
    decreases ready.len(),
{
    if ready.len() == 0 {
        0
    } else {
        ready_memory(ready.drop_last()) + ready.last().data.len()
    }
}

/// What a [`SampleReader`] holds
pub struct ReaderView {
    pub pending: Seq<PendingView>,
    pub ready: Seq<SampleView>,
    pub limit: u64,
    pub state: ReaderState,
}

/// The reader once its whole samples at the front of those held are handed over
pub open spec fn reported(v: ReaderView) -> ReaderView {
    let (pending, ready) = report_front(v.pending, v.ready);
    ReaderView { pending, ready, limit: v.limit, state: v.state }
}

/// The failure of an extent naming more bytes than the limit
pub open spec fn over_limit(e: SampleExtentView, limit: u64) -> SampleError {
    SampleError::SampleSizeLimitExceeded { track_id: e.track_id, declared: declared_len(e) as u64, limit }
}

/// The reader once the extents of `items` are held in the order of their
/// bytes among those held from `first` on, up to the first failure
pub open spec fn spec_hold_all(v: ReaderView, items: Seq<Result<SampleExtent, SampleError>>, first: int) -> (ReaderView, Result<(), SampleError>)
    decreases items.len(),
{
    if items.len() == 0 {
        (v, Ok(()))
    } else {
        match items[0] {
            Err(failure) => (ReaderView { state: ReaderState::Failed(failure), ..v }, Err(failure)),
            Ok(e) => if declared_len(e@) > v.limit {
                (ReaderView { state: ReaderState::Failed(over_limit(e@, v.limit)), ..v }, Err(over_limit(e@, v.limit)))
            } else {
                spec_hold_all(
                    ReaderView {
                        pending: insert_in_order(v.pending, first, PendingView { extent: e@, data: Seq::empty() }),
                        ..v
                    },
                    items.drop_first(),
                    first,
                )
            },
        }
    }
}

/// The reader once the bytes of `data`, from `offset` on, have reached the samples held
pub open spec fn spec_handle_data(v: ReaderView, offset: u64, data: Seq<u8>) -> ReaderView {
    let filled = fill(v.pending, offset, data);
    if made_whole(v.pending, filled) {
        let (front, ready) = report_front(filled, v.ready);
        let (pending, ready) = sweep(front, Seq::empty(), ready);
        ReaderView { pending, ready, limit: v.limit, state: v.state }
    } else {
        ReaderView { pending: filled, ready: v.ready, limit: v.limit, state: v.state }
    }
}

/// Reads samples out of the bytes of a file, given where each of them lies
///
/// The reader is handed [`SampleExtent`]s, each naming the bytes of a sample,
/// and the input as it arrives, each piece with the offset it starts at, in
/// any order and cut anywhere. It reports a [`Sample`] once every byte of its
/// extent has arrived, and names the extent it still lacks so a caller that
/// can seek fetches it.
///
/// * Extents handed over one at a time are held behind those held before
///   them; extents handed over together are held behind those, in the order
///   of their bytes, those starting at the same byte in the order they came.
/// * Input fills every held extent it reaches, each from the byte it lacks
///   next; bytes no held extent names are dropped.
/// * Input that makes a sample whole hands over every whole sample held that
///   carries bytes, in the order they were held; an extent naming no bytes is
///   handed over once nothing short is held before it.
/// * A failure leaves the reader failed for good: every later call that can
///   fail reports it again. The samples made before it are still there to take.
#[derive(Debug)]
pub struct SampleReader {
    pending: Vec<PendingSample>,
    ready: Vec<Sample>,
    sample_size_limit: u64,
    state: ReaderState,
}

impl View for SampleReader {
    type V = ReaderView;

    closed spec fn view(&self) -> ReaderView {
        ReaderView {
            pending: pending_views(self.pending@),
            ready: sample_views(self.ready@),
            limit: self.sample_size_limit,
            state: self.state,
        }
    }
}

impl SampleReader {
    /// Bytes one sample may declare, where the caller names no limit: sixteen mebibytes
    pub const DEFAULT_SAMPLE_SIZE_LIMIT: u64 = 16777216;

    /// Creates a reader holding no sample yet, bounded by [`DEFAULT_SAMPLE_SIZE_LIMIT`](Self::DEFAULT_SAMPLE_SIZE_LIMIT)
    pub fn new() -> (reader: Self)
        ensures
            reader@ == (ReaderView {
                pending: Seq::empty(),
                ready: Seq::empty(),
                limit: Self::DEFAULT_SAMPLE_SIZE_LIMIT,
                state: ReaderState::Reading,
            }),
    {
        Self::with_sample_size_limit(Self::DEFAULT_SAMPLE_SIZE_LIMIT)
    }

    /// Creates a reader gathering no more than `sample_size_limit` bytes for one sample
    pub fn with_sample_size_limit(sample_size_limit: u64) -> (reader: Self)
        ensures
            reader@ == (ReaderView {
                pending: Seq::empty(),
                ready: Seq::empty(),
                limit: sample_size_limit,
                state: ReaderState::Reading,
            }),
    {
        let reader = SampleReader {
            pending: Vec::new(),
            ready: Vec::new(),
            sample_size_limit,
            state: ReaderState::Reading,
        };
        assert(pending_views(reader.pending@) =~= Seq::<PendingView>::empty());
        assert(sample_views(reader.ready@) =~= Seq::<SampleView>::empty());
        reader
    }

    /// Returns the state the reader stands in
    pub fn state(&self) -> (state: ReaderState)
        ensures
            state == self@.state,
    {
        self.state
    }

    /// Returns `Ok` while the reader still takes extents and bytes
    fn reading(&self) -> (result: Result<(), SampleError>)
        ensures
            result is Ok <==> self@.state == ReaderState::Reading,
            result is Err ==> result == Err::<(), SampleError>(refusal(self@.state)),
    {
        match self.state {
            ReaderState::Reading => Ok(()),
            ReaderState::Finished => Err(SampleError::AlreadyFinished),
            ReaderState::Failed(failure) => Err(failure),
        }
    }

    /// Hands the whole samples at the front of those held over, in the order they were held
    fn report_front(&mut self)
        ensures
            final(self)@ == reported(old(self)@),
    {
        let ghost goal = report_front(self@.pending, self@.ready);
        while self.pending.len() > 0 && self.pending[0].is_whole()
            invariant
                report_front(self@.pending, self@.ready) == goal,
                self@.limit == old(self)@.limit,
                self@.state == old(self)@.state,
            decreases self.pending@.len(),
        {
            let ghost before = self@;
            let front = self.pending.remove(0);
            let sample = front.into_sample();
            self.ready.push(sample);
            proof {
                assert(self@.pending =~= before.pending.drop_first());
                assert(self@.ready =~= before.ready.push(sample_of(before.pending[0])));
            }
        }
    }

    /// Hands every whole sample held that carries bytes over, in the order they were held
    fn sweep(&mut self)
        ensures
            final(self)@.pending == sweep(old(self)@.pending, Seq::empty(), old(self)@.ready).0,
            final(self)@.ready == sweep(old(self)@.pending, Seq::empty(), old(self)@.ready).1,
            final(self)@.limit == old(self)@.limit,
            final(self)@.state == old(self)@.state,
    {
        let ghost goal = sweep(self@.pending, Seq::empty(), self@.ready);
        let mut rest: Vec<PendingSample> = Vec::new();
        std::mem::swap(&mut rest, &mut self.pending);
        assert(pending_views(self.pending@) =~= Seq::<PendingView>::empty());
        while rest.len() > 0
            invariant
                sweep(pending_views(rest@), self@.pending, self@.ready) == goal,
                self@.limit == old(self)@.limit,
                self@.state == old(self)@.state,
            decreases rest@.len(),
        {
            let ghost before_rest = pending_views(rest@);
            let ghost before = self@;
            let p = rest.remove(0);
            assert(pending_views(rest@) =~= before_rest.drop_first());
            if p.is_whole() && p.declared_len() > 0 {
                let sample = p.into_sample();
                self.ready.push(sample);
                assert(self@.ready =~= before.ready.push(sample_of(before_rest[0])));
            } else {
                self.pending.push(p);
                assert(self@.pending =~= before.pending.push(before_rest[0]));
            }
        }
    }

    /// Fails the reader for good, and hands the failure back to report
    fn fail(&mut self, failure: SampleError) -> (reported: SampleError)
        ensures
            reported == failure,
            final(self)@ == (ReaderView { state: ReaderState::Failed(failure), ..old(self)@ }),
    {
        self.state = ReaderState::Failed(failure);
        failure
    }

    /// Holds `extent`, and reports the sample it names once its bytes have arrived
    ///
    /// Fails with [`SampleSizeLimitExceeded`](SampleError::SampleSizeLimitExceeded)
    /// when the extent names more bytes than the limit, with
    /// [`AlreadyFinished`](SampleError::AlreadyFinished) once the samples were
    /// declared over, and with the failure of a previous call.
    pub fn handle_sample_extent(&mut self, extent: SampleExtent) -> (result: Result<(), SampleError>)
        ensures
            old(self)@.state != ReaderState::Reading ==> result == Err::<(), SampleError>(refusal(old(self)@.state))
                && final(self)@ == old(self)@,
            old(self)@.state == ReaderState::Reading ==> {
                let (held, outcome) = spec_hold_all(old(self)@, seq![Ok::<SampleExtent, SampleError>(extent)], old(self)@.pending.len() as int);
                &&& result == outcome
                &&& final(self)@ == reported(held)
            },
    {
        self.reading()?;
        let ghost items = seq![Ok::<SampleExtent, SampleError>(extent)];
        let pending = PendingSample { extent, data: Vec::new() };
        let declared = pending.declared_len();
        if declared > self.sample_size_limit {
            let failure = SampleError::SampleSizeLimitExceeded {
                track_id: extent.track_id(),
                declared,
                limit: self.sample_size_limit,
            };
            let reported = self.fail(failure);
            self.report_front();
            return Err(reported);
        }
        let ghost before = self@;
        self.pending.push(pending);
        proof {
            let x = PendingView { extent: extent@, data: Seq::empty() };
            assert(insertion_point(before.pending, before.pending.len() as int, x, before.pending.len() as int) == before.pending.len());
            assert(self@.pending =~= insert_in_order(before.pending, before.pending.len() as int, x));
            assert(items.drop_first() =~= Seq::<Result<SampleExtent, SampleError>>::empty());
            let v1 = ReaderView { pending: insert_in_order(before.pending, before.pending.len() as int, x), ..before };
            assert(items[0] == Ok::<SampleExtent, SampleError>(extent));
            assert(spec_hold_all(before, items, before.pending.len() as int) == spec_hold_all(
                v1,
                items.drop_first(),
                before.pending.len() as int,
            ));
            assert(self@ == v1);
        }
        self.report_front();
        Ok(())
    }
    /// Holds `x` among the extents held from `first` on, in the order of their bytes
    fn hold_in_order(&mut self, first: usize, x: PendingSample)
        requires
            first <= old(self).pending.len(),
        ensures
            final(self)@ == (ReaderView { pending: insert_in_order(old(self)@.pending, first as int, x@), ..old(self)@ }),
            final(self).pending.len() == old(self).pending.len() + 1,
    {
        let ghost pv = self@.pending;
        let start = x.extent.extent().start;
        let mut k = self.pending.len();
        while k > first && self.pending[k - 1].extent.extent().start > start
            invariant
                first <= k <= self.pending.len(),
                self@ == old(self)@,
                pv == self@.pending,
                start == x@.extent.start,
                insertion_point(pv, first as int, x@, k as int) == insertion_point(pv, first as int, x@, pv.len() as int),
            decreases k,
        {
            assert(self@.pending[k - 1] == self.pending@[k - 1]@);
            k = k - 1;
        }
        proof {
            if k > first {
                assert(self@.pending[k - 1] == self.pending@[k - 1]@);
            }
            assert(insertion_point(pv, first as int, x@, k as int) == k);
        }
        let ghost xv = x@;
        self.pending.insert(k, x);
        assert(self@.pending =~= pv.insert(k as int, xv));
    }

    /// Holds the extents of `extents` together, in the order of their bytes
    ///
    /// The extents are held behind those held before them, ordered by the
    /// byte each starts at, those starting at the same byte in the order they
    /// came, up to the first the reader refuses or the first that is a
    /// failure, which fails the reader as one of its own would; the extents
    /// before it stay held.
    pub fn handle_sample_extents(&mut self, extents: Vec<Result<SampleExtent, SampleError>>) -> (result: Result<(), SampleError>)
        ensures
            old(self)@.state != ReaderState::Reading ==> result == Err::<(), SampleError>(refusal(old(self)@.state))
                && final(self)@ == old(self)@,
            old(self)@.state == ReaderState::Reading ==> {
                let (held, outcome) = spec_hold_all(old(self)@, extents@, old(self)@.pending.len() as int);
                &&& result == outcome
                &&& final(self)@ == reported(held)
            },
    {
        self.reading()?;
        let first = self.pending.len();
        let ghost goal = spec_hold_all(self@, extents@, first as int);
        let mut i: usize = 0;
        let mut outcome: Result<(), SampleError> = Ok(());
        assert(extents@.skip(0) =~= extents@);
        loop
            invariant_except_break
                0 <= i <= extents.len(),
                self@.state == ReaderState::Reading,
                first <= self.pending.len(),
                outcome == Ok::<(), SampleError>(()),
                spec_hold_all(self@, extents@.skip(i as int), first as int) == goal,
            ensures
                outcome == goal.1,
                self@ == goal.0,
            decreases extents.len() - i,
        {
            if i >= extents.len() {
                assert(extents@.skip(i as int) =~= Seq::<Result<SampleExtent, SampleError>>::empty());
                assert(spec_hold_all(self@, extents@.skip(i as int), first as int) == (self@, Ok::<(), SampleError>(())));
                break;
            }
            let ghost rest = extents@.skip(i as int);
            assert(rest[0] == extents@[i as int]);
            assert(rest.drop_first() =~= extents@.skip(i + 1));
            match &extents[i] {
                Err(failure) => {
                    let failure = *failure;
                    self.fail(failure);
                    outcome = Err(failure);
                    break;
                }
                Ok(extent) => {
                    let extent = *extent;
                    let pending = PendingSample { extent, data: Vec::new() };
                    let declared = pending.declared_len();
                    if declared > self.sample_size_limit {
                        let failure = SampleError::SampleSizeLimitExceeded {
                            track_id: extent.track_id(),
                            declared,
                            limit: self.sample_size_limit,
                        };
                        self.fail(failure);
                        outcome = Err(failure);
                        break;
                    }
                    self.hold_in_order(first, pending);
                }
            }
            i = i + 1;
        }
        self.report_front();
        outcome
    }

    /// Fills the samples whose extents reach into `data`, the bytes of the file from `offset` on
    ///
    /// Fails with [`AlreadyFinished`](SampleError::AlreadyFinished) once the
    /// samples were declared over, and with the failure of a previous call.
    pub fn handle_data(&mut self, offset: u64, data: &[u8]) -> (result: Result<(), SampleError>)
        ensures
            old(self)@.state != ReaderState::Reading ==> result == Err::<(), SampleError>(refusal(old(self)@.state))
                && final(self)@ == old(self)@,
            old(self)@.state == ReaderState::Reading ==> result is Ok && final(self)@ == spec_handle_data(
                old(self)@,
                offset,
                data@,
            ),
    {
        self.reading()?;
        let ghost before = self@;
        let ghost filled = fill(before.pending, offset, data@);
        let mut any_whole = false;
        let mut i: usize = 0;
        assert(filled.len() == before.pending.len());
        assert(before.pending.len() == self.pending@.len());
        while i < self.pending.len()
            invariant
                0 <= i <= self.pending.len(),
                self.pending.len() == before.pending.len(),
                filled == fill(before.pending, offset, data@),
                filled.len() == before.pending.len(),
                self@.ready == before.ready,
                self@.limit == before.limit,
                self@.state == before.state,
                forall|j: int| 0 <= j < i ==> #[trigger] self@.pending[j] == filled[j],
                forall|j: int| i <= j < self.pending.len() ==> #[trigger] self@.pending[j] == before.pending[j],
                any_whole == exists|j: int| 0 <= j < i && !is_whole(before.pending[j]) && #[trigger] is_whole(filled[j]),
            decreases self.pending.len() - i,
        {
            let ghost at_i = self@.pending[i as int];
            let ghost prev = self@.pending;
            assert(filled[i as int] == take_from(before.pending[i as int], offset, data@));
            let was_whole = self.pending[i].is_whole();
            self.pending[i].take_from(offset, data);
            let now_whole = self.pending[i].is_whole();
            proof {
                assert(self@.pending[i as int] == take_from(at_i, offset, data@));
                assert forall|j: int| 0 <= j < self.pending.len() && j != i implies #[trigger] self@.pending[j] == prev[j] by {
                    assert(self@.pending[j] == self.pending@[j]@);
                }
            }
            if !was_whole && now_whole {
                any_whole = true;
            }
            i = i + 1;
        }
        assert(self@.pending =~= filled);
        if any_whole {
            self.report_front();
            self.sweep();
        }
        Ok(())
    }

    /// Takes the next sample whose bytes have all arrived
    ///
    /// This never fails: a failed reader hands over the samples it made
    /// before failing, and then reports `None`.
    pub fn poll_sample(&mut self) -> (sample: Option<Sample>)
        ensures
            old(self)@.ready.len() == 0 ==> sample is None && final(self)@ == old(self)@,
            old(self)@.ready.len() > 0 ==> sample is Some && sample->0@ == old(self)@.ready[0] && final(self)@ == (
            ReaderView { ready: old(self)@.ready.drop_first(), ..old(self)@ }),
    {
        if self.ready.len() == 0 {
            return None;
        }
        let ghost before = self@;
        let sample = self.ready.remove(0);
        assert(self@.ready =~= before.ready.drop_first());
        Some(sample)
    }

    /// Returns the bytes the reader takes memory for: the whole of each sample
    /// held that any byte has arrived for, and each sample ready to take; the
    /// largest count 64 bits carry where they run past it
    ///
    /// A sample takes memory for the bytes its extent names once its first
    /// byte arrives, and none before: bytes no extent names are never held.
    pub fn held_bytes(&self) -> (held: u64)
        ensures
            held == if pending_memory(self@.pending) + ready_memory(self@.ready) <= u64::MAX {
                pending_memory(self@.pending) + ready_memory(self@.ready)
            } else {
                u64::MAX as nat
            },
    {
        let ghost pending = self@.pending;
        let ghost ready = self@.ready;
        let mut held: u64 = 0;
        let mut i: usize = 0;
        while i < self.pending.len()
            invariant
                0 <= i <= self.pending.len(),
                pending == pending_views(self.pending@),
                held == if pending_memory(pending.take(i as int)) <= u64::MAX {
                    pending_memory(pending.take(i as int))
                } else {
                    u64::MAX as nat
                },
            decreases self.pending.len() - i,
        {
            let p = &self.pending[i];
            assert(pending[i as int] == p@);
            assert(pending.take(i + 1).drop_last() =~= pending.take(i as int));
            let memory: u64 = if p.data.len() > 0 { p.declared_len() } else { 0 };
            held = held.saturating_add(memory);
            i = i + 1;
        }
        assert(pending.take(i as int) =~= pending);
        let ghost after_pending = pending_memory(pending);
        let mut k: usize = 0;
        while k < self.ready.len()
            invariant
                0 <= k <= self.ready.len(),
                ready == sample_views(self.ready@),
                after_pending == pending_memory(pending),
                held == if after_pending + ready_memory(ready.take(k as int)) <= u64::MAX {
                    after_pending + ready_memory(ready.take(k as int))
                } else {
                    u64::MAX as nat
                },
            decreases self.ready.len() - k,
        {
            let sample = &self.ready[k];
            assert(ready[k as int] == sample@);
            assert(ready.take(k + 1).drop_last() =~= ready.take(k as int));
            let length = sample.data().len();
            held = held.saturating_add(length as u64);
            k = k + 1;
        }
        assert(ready.take(k as int) =~= ready);
        held
    }

    /// Returns the bytes the extent at the front of those held still lacks, if any extent is held
    pub fn wanted_extent(&self) -> (wanted: Option<Range<u64>>)
        ensures
            self@.pending.len() == 0 ==> wanted is None,
            self@.pending.len() > 0 ==> wanted is Some && wanted->0.start == lacking_start(self@.pending[0])
                && wanted->0.end == self@.pending[0].extent.end,
    {
        if self.pending.len() == 0 {
            None
        } else {
            Some(self.pending[0].lacking())
        }
    }

    /// Declares the samples over, which every extent held must have been met by
    ///
    /// Fails with [`UnfinishedSample`](SampleError::UnfinishedSample), naming
    /// the first extent held, when any is held short of its bytes; with
    /// [`AlreadyFinished`](SampleError::AlreadyFinished) once the samples were
    /// already declared over; and with the failure of a previous call.
    pub fn finish(&mut self) -> (result: Result<(), SampleError>)
        ensures
            old(self)@.state != ReaderState::Reading ==> result == Err::<(), SampleError>(refusal(old(self)@.state))
                && final(self)@ == old(self)@,
            old(self)@.state == ReaderState::Reading && old(self)@.pending.len() == 0 ==> result is Ok && final(self)@
                == (ReaderView { state: ReaderState::Finished, ..old(self)@ }),
            old(self)@.state == ReaderState::Reading && old(self)@.pending.len() > 0 ==> {
                let short = old(self)@.pending[0];
                let failure = SampleError::UnfinishedSample {
                    track_id: short.extent.track_id,
                    needed: declared_len(short.extent) as u64,
                    available: short.data.len() as u64,
                };
                &&& result == Err::<(), SampleError>(failure)
                &&& final(self)@ == (ReaderView { state: ReaderState::Failed(failure), ..old(self)@ })
            },
    {
        self.reading()?;
        if self.pending.len() == 0 {
            self.state = ReaderState::Finished;
            return Ok(());
        }
        let short = &self.pending[0];
        let failure = SampleError::UnfinishedSample {
            track_id: short.extent.track_id(),
            needed: short.declared_len(),
            available: short.data.len() as u64,
        };
        Err(self.fail(failure))
    }

    /// Drops every extent held and every sample not yet taken, to be handed the samples of another stretch of the file
    ///
    /// The limit stays as the reader was given it, and a reader whose samples
    /// were declared over takes extents and bytes again. A reader that failed
    /// stays failed.
    pub fn clear(&mut self)
        ensures
            final(self)@ == (ReaderView {
                pending: Seq::empty(),
                ready: Seq::empty(),
                limit: old(self)@.limit,
                state: if old(self)@.state == ReaderState::Finished {
                    ReaderState::Reading
                } else {
                    old(self)@.state
                },
            }),
    {
        self.pending.clear();
        self.ready.clear();
        if self.state == ReaderState::Finished {
            self.state = ReaderState::Reading;
        }
        assert(self@.pending =~= Seq::<PendingView>::empty());
        assert(self@.ready =~= Seq::<SampleView>::empty());
    }
}

impl Default for SampleReader {
    fn default() -> (reader: Self)
        ensures
            reader@ == (ReaderView {
                pending: Seq::empty(),
                ready: Seq::empty(),
                limit: Self::DEFAULT_SAMPLE_SIZE_LIMIT,
                state: ReaderState::Reading,
            }),
    {
        Self::new()
    }
}

/// A reader holding no extent, handed one extent naming bytes and then input
/// covering every one of them, hands over the sample that extent names,
/// carrying exactly the bytes of the input the extent names, and holds nothing
pub proof fn lemma_sample_carries_the_bytes_its_extent_names(
    v: ReaderView,
    extent: SampleExtent,
    offset: u64,
    data: Seq<u8>,
)
    requires
        v.pending.len() == 0,
        v.state == ReaderState::Reading,
        0 < declared_len(extent@) <= v.limit,
        offset <= extent@.start,
        extent@.end <= offset + data.len(),
    ensures
        ({
            let (held, outcome) = spec_hold_all(v, seq![Ok::<SampleExtent, SampleError>(extent)], 0);
            let filled = spec_handle_data(reported(held), offset, data);
            &&& outcome is Ok
            &&& filled.pending.len() == 0
            &&& filled.ready == v.ready.push(
                sample_of(
                    PendingView {
                        extent: extent@,
                        data: data.subrange(extent@.start - offset, extent@.end - offset),
                    },
                ),
            )
        }),
{
    let items = seq![Ok::<SampleExtent, SampleError>(extent)];
    let x = PendingView { extent: extent@, data: Seq::empty() };
    assert(insertion_point(v.pending, 0, x, 0) == 0);
    assert(insert_in_order(v.pending, 0, x) =~= seq![x]);
    let v1 = ReaderView { pending: seq![x], ..v };
    assert(items.drop_first() =~= Seq::<Result<SampleExtent, SampleError>>::empty());
    assert(spec_hold_all(v, items, 0) == spec_hold_all(v1, items.drop_first(), 0));
    assert(spec_hold_all(v1, items.drop_first(), 0) == (v1, Ok::<(), SampleError>(())));
    assert(!is_whole(x));
    assert(report_front(v1.pending, v1.ready) == (v1.pending, v1.ready));
    assert(reported(v1) == v1);
    let taken = data.subrange(extent@.start - offset, extent@.end - offset);
    let y = PendingView { extent: extent@, data: x.data + taken };
    assert(take_from(x, offset, data) == y);
    assert(x.data + taken =~= taken);
    let filled = fill(v1.pending, offset, data);
    assert(filled =~= seq![y]);
    assert(is_whole(y));
    assert(made_whole(v1.pending, filled)) by {
        assert(!is_whole(v1.pending[0]) && is_whole(filled[0]));
    }
    let (front, ready) = report_front(filled, v.ready);
    assert(filled.drop_first() =~= Seq::<PendingView>::empty());
    assert(report_front(filled, v.ready) == report_front(filled.drop_first(), v.ready.push(sample_of(y))));
    assert(front =~= Seq::<PendingView>::empty());
    assert(sweep(front, Seq::empty(), ready) == (Seq::<PendingView>::empty(), ready));
}

} // verus!

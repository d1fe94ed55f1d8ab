//! [`subsegments`], the subsegments a segment index points at resolved to the file, ISO/IEC 14496-12 §8.16.3

use std::ops::Range;

use vstd::prelude::*;

use crate::sample::error::SampleError;

verus! {

/// Whether a reference points at media or at another index
#[derive(Clone, Copy, PartialEq, Eq, Debug, Structural)]
pub enum ReferenceType {
    /// The subsegment holds media
    MediaContent,
    /// The subsegment holds another segment index
    Index,
}

/// One reference of a segment index, as the `sidx` states it
#[derive(Clone, Copy, PartialEq, Eq, Debug, Structural)]
pub struct SegmentIndexReference {
    pub reference_type: ReferenceType,
    pub referenced_size: u32,
    pub subsegment_duration: u32,
    pub starts_with_sap: bool,
    pub sap_type: u8,
    pub sap_delta_time: u32,
}

/// The fields of a segment index box the subsegments are placed from
#[derive(Clone, Debug, PartialEq, Eq)]
pub struct SegmentIndexBox {
    pub reference_id: u32,
    pub timescale: u32,
    pub earliest_presentation_time: u64,
    pub first_offset: u64,
    pub references: Vec<SegmentIndexReference>,
}

/// The bytes the first `k` references span together
pub open spec fn size_sum(refs: Seq<SegmentIndexReference>, k: int) -> int
    decreases k,
{
    if k <= 0 {
        0
    } else {
        size_sum(refs, k - 1) + refs[k - 1].referenced_size
    }
}

/// The time the first `k` references span together
pub open spec fn duration_sum(refs: Seq<SegmentIndexReference>, k: int) -> int
    decreases k,
{
    if k <= 0 {
        0
    } else {
        duration_sum(refs, k - 1) + refs[k - 1].subsegment_duration
    }
}

/// Where subsegment `i` starts in the file
pub open spec fn offset_at(sidx: SegmentIndexBox, anchor: u64, i: int) -> int {
    anchor + sidx.first_offset + size_sum(sidx.references@, i)
}

/// When subsegment `i` starts in presentation time
pub open spec fn time_at(sidx: SegmentIndexBox, i: int) -> int {
    sidx.earliest_presentation_time + duration_sum(sidx.references@, i)
}

/// An offset runs past what 64 bits carry before any time does
pub open spec fn offset_overflows_first(sidx: SegmentIndexBox, anchor: u64) -> bool {
    exists|i: int|
        0 <= i <= sidx.references@.len() && offset_at(sidx, anchor, i) > u64::MAX && (forall|j: int|
            1 <= j < i ==> #[trigger] time_at(sidx, j) <= u64::MAX)
}

/// Subsegment pointed at by a segment index, placed in the file and in presentation time
#[derive(Clone, Copy, PartialEq, Eq, Debug, Structural)]
pub struct Subsegment {
    start: u64,
    end: u64,
    earliest_presentation_time: u64,
    reference: SegmentIndexReference,
}

/// What a [`Subsegment`] holds
pub struct SubsegmentView {
    pub start: u64,
    pub end: u64,
    pub earliest_presentation_time: u64,
    pub reference: SegmentIndexReference,
}

impl View for Subsegment {
    type V = SubsegmentView;

    closed spec fn view(&self) -> SubsegmentView {
        SubsegmentView {
            start: self.start,
            end: self.end,
            earliest_presentation_time: self.earliest_presentation_time,
            reference: self.reference,
        }
    }
}

impl Subsegment {
    /// Returns the extent of the file the subsegment lies in
    pub fn extent(&self) -> (extent: Range<u64>)
        ensures
            extent.start == self@.start,
            extent.end == self@.end,
    {
        Range { start: self.start, end: self.end }
    }

    /// Returns the earliest presentation time of the subsegment
    pub fn earliest_presentation_time(&self) -> (time: u64)
        ensures
            time == self@.earliest_presentation_time,
    {
        self.earliest_presentation_time
    }

    /// Returns the reference of the index the subsegment was placed from
    pub fn reference(&self) -> (reference: &SegmentIndexReference)
        ensures
            *reference == self@.reference,
    {
        &self.reference
    }
}

/// The views of a run of subsegments
pub open spec fn subsegment_views(subsegments: Seq<Subsegment>) -> Seq<SubsegmentView> {
    subsegments.map_values(|s: Subsegment| s@)
}

/// Subsegment `i` as a segment index places it
pub open spec fn placed(sidx: SegmentIndexBox, anchor: u64, i: int) -> SubsegmentView {
    SubsegmentView {
        start: offset_at(sidx, anchor, i) as u64,
        end: offset_at(sidx, anchor, i + 1) as u64,
        earliest_presentation_time: time_at(sidx, i) as u64,
        reference: sidx.references@[i],
    }
}

/// Subsegments whose presentation times never go back, and none of which ends past 64 bits
pub closed spec fn subsegments_in_order(subsegments: Seq<Subsegment>) -> bool {
    &&& forall|i: int|
        0 <= i < subsegments.len() ==> #[trigger] subsegments[i].earliest_presentation_time
            + subsegments[i].reference.subsegment_duration <= u64::MAX
    &&& forall|i: int, j: int|
        0 <= i <= j < subsegments.len() ==> #[trigger] subsegments[i].earliest_presentation_time
            <= #[trigger] subsegments[j].earliest_presentation_time
}

/// The first `k` subsegments start at or before `time`, and the rest after it
pub open spec fn starts_by(views: Seq<SubsegmentView>, time: u64, k: int) -> bool {
    &&& 0 <= k <= views.len()
    &&& forall|j: int| 0 <= j < k ==> #[trigger] views[j].earliest_presentation_time <= time
    &&& forall|j: int| k <= j < views.len() ==> time < #[trigger] views[j].earliest_presentation_time
}

/// Whether the subsegment `s` covers presentation `time`: it starts at or before it, and ends after it
pub open spec fn covers(s: SubsegmentView, time: u64) -> bool {
    s.earliest_presentation_time <= time < s.earliest_presentation_time + s.reference.subsegment_duration
}

/// Whether each subsegment of `views` starts in presentation time where the one before it ends
pub open spec fn contiguous(views: Seq<SubsegmentView>) -> bool {
    forall|i: int|
        0 <= i < views.len() - 1 ==> #[trigger] views[i].earliest_presentation_time + views[i].reference.subsegment_duration
            == views[i + 1].earliest_presentation_time
}

/// The subsegments a segment index places start each where the one before it ends
pub proof fn lemma_placed_contiguous(sidx: SegmentIndexBox, anchor: u64)
    requires
        time_at(sidx, sidx.references@.len() as int) <= u64::MAX,
    ensures
        contiguous(Seq::new(sidx.references@.len(), |i: int| placed(sidx, anchor, i))),
{
    let n = sidx.references@.len() as int;
    let views = Seq::new(sidx.references@.len(), |i: int| placed(sidx, anchor, i));
    assert forall|i: int| 0 <= i < views.len() - 1 implies #[trigger] views[i].earliest_presentation_time
        + views[i].reference.subsegment_duration == views[i + 1].earliest_presentation_time by {
        lemma_durations_rise(sidx.references@, i + 1, n);
        lemma_durations_rise(sidx.references@, i, i + 1);
        lemma_durations_rise(sidx.references@, 0, i);
    }
}

/// The time the first references span grows with them
proof fn lemma_durations_rise(refs: Seq<SegmentIndexReference>, j: int, k: int)
    requires
        0 <= j <= k,
    ensures
        0 <= duration_sum(refs, j) <= duration_sum(refs, k),
    decreases k,
{
    if k > j {
        lemma_durations_rise(refs, j, k - 1);
    } else if k > 0 {
        lemma_durations_rise(refs, 0, k - 1);
    }
}

/// Of subsegments laid end to end in presentation time, the first `k` of
/// which start at or before `time`, none but the `k`-th covers it: the one
/// [`SegmentIndex::subsegment_at`] looks at is the only one that can
pub proof fn lemma_only_the_last_started_covers(views: Seq<SubsegmentView>, time: u64, k: int)
    requires
        contiguous(views),
        starts_by(views, time, k),
    ensures
        forall|i: int| 0 <= i < views.len() && i != k - 1 ==> !covers(#[trigger] views[i], time),
{
    assert forall|i: int| 0 <= i < views.len() && i != k - 1 implies !covers(#[trigger] views[i], time) by {
        if i < k - 1 {
            assert(views[i + 1].earliest_presentation_time <= time);
        }
    }
}

/// The subsegments of a segment index, placed in the file and in presentation time
#[derive(Debug)]
pub struct SegmentIndex {
    reference_id: u32,
    timescale: u32,
    earliest_presentation_time: u64,
    subsegments: Vec<Subsegment>,
}

impl SegmentIndex {
    /// Each subsegment starts in time where the one before it ends, and no end runs past 64 bits
    #[verifier::type_invariant]
    closed spec fn inv(self) -> bool {
        subsegments_in_order(self.subsegments@)
    }

    /// The subsegments, placed
    pub closed spec fn spec_subsegments(self) -> Seq<SubsegmentView> {
        subsegment_views(self.subsegments@)
    }

    /// The `reference_ID` of the index
    pub closed spec fn spec_reference_id(self) -> u32 {
        self.reference_id
    }

    /// The time scale of the index
    pub closed spec fn spec_timescale(self) -> u32 {
        self.timescale
    }

    /// The earliest presentation time the index states
    pub closed spec fn spec_earliest_presentation_time(self) -> u64 {
        self.earliest_presentation_time
    }

    /// Returns the stream the index points into
    pub fn reference_id(&self) -> (v: u32)
        ensures
            v == self.spec_reference_id(),
    {
        self.reference_id
    }

    /// Returns the time scale presentation times are counted in
    pub fn timescale(&self) -> (v: u32)
        ensures
            v == self.spec_timescale(),
    {
        self.timescale
    }

    /// Returns the presentation time the first subsegment starts at
    pub fn earliest_presentation_time(&self) -> (v: u64)
        ensures
            v == self.spec_earliest_presentation_time(),
    {
        self.earliest_presentation_time
    }

    /// Returns the subsegments, in the order the index lists them
    pub fn subsegments(&self) -> (v: &[Subsegment])
        ensures
            subsegment_views(v@) == self.spec_subsegments(),
    {
        self.subsegments.as_slice()
    }

    /// Returns the subsegment `time` falls in: the last one starting at or
    /// before it, where `time` lies before its end
    pub fn subsegment_at(&self, time: u64) -> (found: Option<&Subsegment>)
        ensures
            exists|k: int|
                #![trigger starts_by(self.spec_subsegments(), time, k)]
                starts_by(self.spec_subsegments(), time, k) && (match found {
                    Some(s) => k > 0 && s@ == self.spec_subsegments()[k - 1] && time
                        < s@.earliest_presentation_time + s@.reference.subsegment_duration,
                    None => k == 0 || time >= self.spec_subsegments()[k - 1].earliest_presentation_time
                        + self.spec_subsegments()[k - 1].reference.subsegment_duration,
                }),
            found matches Some(s) ==> covers(s@, time),
            found is None && contiguous(self.spec_subsegments()) ==> forall|i: int|
                0 <= i < self.spec_subsegments().len() ==> !covers(#[trigger] self.spec_subsegments()[i], time),
    {
        proof {
            use_type_invariant(self);
        }
        let ghost views = self.spec_subsegments();
        let mut after = self.subsegments.len();
        while after > 0 && self.subsegments[after - 1].earliest_presentation_time > time
            invariant
                0 <= after <= self.subsegments@.len(),
                views == subsegment_views(self.subsegments@),
                forall|j: int| after <= j < views.len() ==> time < #[trigger] views[j].earliest_presentation_time,
            decreases after,
        {
            after = after - 1;
        }
        proof {
            if after > 0 {
                assert forall|j: int| 0 <= j < after implies #[trigger] views[j].earliest_presentation_time <= time by {
                    assert(self.subsegments@[j].earliest_presentation_time <= self.subsegments@[after - 1].earliest_presentation_time);
                }
            }
            assert(starts_by(views, time, after as int));
            if contiguous(views) {
                lemma_only_the_last_started_covers(views, time, after as int);
            }
        }
        if after == 0 {
            return None;
        }
        let candidate = &self.subsegments[after - 1];
        assert(views[after - 1] == candidate@);
        if time < candidate.earliest_presentation_time + candidate.reference.subsegment_duration as u64 {
            Some(candidate)
        } else {
            None
        }
    }
}

impl Clone for SegmentIndex {
    fn clone(&self) -> (copy: Self)
        ensures
            copy.spec_subsegments() == self.spec_subsegments(),
            copy.spec_reference_id() == self.spec_reference_id(),
            copy.spec_timescale() == self.spec_timescale(),
            copy.spec_earliest_presentation_time() == self.spec_earliest_presentation_time(),
    {
        proof {
            use_type_invariant(self);
        }
        let mut subsegments: Vec<Subsegment> = Vec::new();
        let mut i: usize = 0;
        while i < self.subsegments.len()
            invariant
                0 <= i <= self.subsegments@.len(),
                subsegments@ == self.subsegments@.take(i as int),
                subsegments_in_order(self.subsegments@),
            decreases self.subsegments@.len() - i,
        {
            subsegments.push(self.subsegments[i]);
            assert(self.subsegments@.take(i + 1) =~= self.subsegments@.take(i as int).push(self.subsegments@[i as int]));
            i = i + 1;
        }
        assert(self.subsegments@.take(i as int) =~= self.subsegments@);
        SegmentIndex {
            reference_id: self.reference_id,
            timescale: self.timescale,
            earliest_presentation_time: self.earliest_presentation_time,
            subsegments,
        }
    }
}

impl PartialEq for SegmentIndex {
    fn eq(&self, other: &Self) -> (same: bool) {
        if self.reference_id != other.reference_id || self.timescale != other.timescale
            || self.earliest_presentation_time != other.earliest_presentation_time
            || self.subsegments.len() != other.subsegments.len() {
            assert(self.spec_subsegments().len() == self.subsegments@.len());
            assert(other.spec_subsegments().len() == other.subsegments@.len());
            return false;
        }
        let mut i: usize = 0;
        while i < self.subsegments.len()
            invariant
                0 <= i <= self.subsegments@.len(),
                self.subsegments@.len() == other.subsegments@.len(),
                forall|j: int| 0 <= j < i ==> self.subsegments@[j] == other.subsegments@[j],
            decreases self.subsegments@.len() - i,
        {
            if self.subsegments[i] != other.subsegments[i] {
                assert(self.spec_subsegments()[i as int] == self.subsegments@[i as int]@);
                assert(other.spec_subsegments()[i as int] == other.subsegments@[i as int]@);
                return false;
            }
            i = i + 1;
        }
        assert(self.subsegments@ =~= other.subsegments@);
        assert(self.spec_subsegments() =~= other.spec_subsegments());
        true
    }
}

impl vstd::std_specs::cmp::PartialEqSpecImpl for SegmentIndex {
    open spec fn obeys_eq_spec() -> bool {
        true
    }

    open spec fn eq_spec(&self, other: &Self) -> bool {
        &&& self.spec_reference_id() == other.spec_reference_id()
        &&& self.spec_timescale() == other.spec_timescale()
        &&& self.spec_earliest_presentation_time() == other.spec_earliest_presentation_time()
        &&& self.spec_subsegments() == other.spec_subsegments()
    }
}

/// Places the subsegments `sidx` indexes, in the file and in presentation time
///
/// `anchor` is the offset of the first byte after the `sidx`, which its
/// `first_offset` counts from. Fails with
/// [`DataOffsetOverflow`](SampleError::DataOffsetOverflow) when an extent
/// runs past what 64 bits carry, and with
/// [`PresentationTimeOverflow`](SampleError::PresentationTimeOverflow) when a
/// presentation time does, whichever comes first.
pub fn subsegments(sidx: &SegmentIndexBox, anchor: u64) -> (result: Result<SegmentIndex, SampleError>)
    ensures
        match result {
            Ok(index) => {
                &&& offset_at(*sidx, anchor, sidx.references@.len() as int) <= u64::MAX
                &&& time_at(*sidx, sidx.references@.len() as int) <= u64::MAX
                &&& index.spec_reference_id() == sidx.reference_id
                &&& index.spec_timescale() == sidx.timescale
                &&& index.spec_earliest_presentation_time() == sidx.earliest_presentation_time
                &&& index.spec_subsegments().len() == sidx.references@.len()
                &&& forall|i: int|
                    0 <= i < sidx.references@.len() ==> #[trigger] index.spec_subsegments()[i] == placed(*sidx, anchor, i)
                &&& contiguous(index.spec_subsegments())
            },
            Err(failure) => {
                &&& offset_at(*sidx, anchor, sidx.references@.len() as int) > u64::MAX || time_at(
                    *sidx,
                    sidx.references@.len() as int,
                ) > u64::MAX
                &&& failure == (if offset_overflows_first(*sidx, anchor) {
                    SampleError::DataOffsetOverflow { track_id: sidx.reference_id }
                } else {
                    SampleError::PresentationTimeOverflow { reference_id: sidx.reference_id }
                })
            },
        },
{
    let reference_id = sidx.reference_id;
    let refs = &sidx.references;
    let ghost n = refs@.len() as int;
    proof {
        lemma_sums_grow(*sidx, anchor, n);
    }
    let mut start = match anchor.checked_add(sidx.first_offset) {
        Some(start) => start,
        None => {
            assert(offset_at(*sidx, anchor, 0) > u64::MAX);
            return Err(SampleError::DataOffsetOverflow { track_id: reference_id });
        },
    };
    let mut earliest_presentation_time = sidx.earliest_presentation_time;
    let mut placed_so_far: Vec<Subsegment> = Vec::new();
    let mut i: usize = 0;
    while i < refs.len()
        invariant
            0 <= i <= n,
            n == sidx.references@.len(),
            refs == &sidx.references,
            reference_id == sidx.reference_id,
            start == offset_at(*sidx, anchor, i as int),
            earliest_presentation_time == time_at(*sidx, i as int),
            forall|j: int| 0 <= j <= n ==> offset_at(*sidx, anchor, j) >= anchor + sidx.first_offset,
            forall|j: int, k: int| 0 <= j <= k <= n ==> #[trigger] offset_at(*sidx, anchor, j) <= #[trigger] offset_at(*sidx, anchor, k),
            forall|j: int, k: int| 0 <= j <= k <= n ==> #[trigger] time_at(*sidx, j) <= #[trigger] time_at(*sidx, k),
            placed_so_far@.len() == i,
            forall|j: int| 0 <= j < i ==> #[trigger] placed_so_far@[j]@ == placed(*sidx, anchor, j),
            subsegments_in_order(placed_so_far@),
        decreases n - i,
    {
        let reference = refs[i];
        let end = match start.checked_add(reference.referenced_size as u64) {
            Some(end) => end,
            None => {
                proof {
                    assert(offset_at(*sidx, anchor, i + 1) > u64::MAX);
                    assert(offset_overflows_first(*sidx, anchor)) by {
                        assert forall|j: int| 1 <= j < i + 1 implies #[trigger] time_at(*sidx, j) <= u64::MAX by {
                            assert(time_at(*sidx, j) <= time_at(*sidx, i as int));
                        }
                    }
                }
                return Err(SampleError::DataOffsetOverflow { track_id: reference_id });
            },
        };
        let presentation_end = match earliest_presentation_time.checked_add(reference.subsegment_duration as u64) {
            Some(t) => t,
            None => {
                proof {
                    assert(time_at(*sidx, i + 1) > u64::MAX);
                    assert(!offset_overflows_first(*sidx, anchor)) by {
                        if offset_overflows_first(*sidx, anchor) {
                            let w = choose|w: int|
                                0 <= w <= n && offset_at(*sidx, anchor, w) > u64::MAX && (forall|j: int|
                                    1 <= j < w ==> #[trigger] time_at(*sidx, j) <= u64::MAX);
                            if w <= i + 1 {
                                assert(offset_at(*sidx, anchor, w) <= offset_at(*sidx, anchor, i + 1));
                            } else {
                                assert(time_at(*sidx, i + 1) <= u64::MAX);
                            }
                        }
                    }
                }
                return Err(SampleError::PresentationTimeOverflow { reference_id });
            },
        };
        let sub = Subsegment { start, end, earliest_presentation_time, reference };
        let ghost before = placed_so_far@;
        placed_so_far.push(sub);
        proof {
            assert(placed_so_far@[i as int] == sub);
            assert forall|j: int| 0 <= j < i + 1 implies #[trigger] placed_so_far@[j]@ == placed(*sidx, anchor, j) by {
                if j < i {
                    assert(placed_so_far@[j] == before[j]);
                }
            }
            assert forall|j: int, k: int| 0 <= j <= k < i + 1 implies #[trigger] placed_so_far@[j].earliest_presentation_time
                <= #[trigger] placed_so_far@[k].earliest_presentation_time by {
                assert(placed_so_far@[j]@ == placed(*sidx, anchor, j));
                assert(placed_so_far@[k]@ == placed(*sidx, anchor, k));
                assert(time_at(*sidx, j) <= time_at(*sidx, k));
                assert(time_at(*sidx, k) <= time_at(*sidx, i as int));
                assert(time_at(*sidx, 0) <= time_at(*sidx, j));
                assert(time_at(*sidx, 0) == sidx.earliest_presentation_time);
            }
            assert forall|j: int| 0 <= j < i + 1 implies #[trigger] placed_so_far@[j].earliest_presentation_time
                + placed_so_far@[j].reference.subsegment_duration <= u64::MAX by {
                if j < i {
                    assert(placed_so_far@[j] == before[j]);
                }
            }
        }
        start = end;
        earliest_presentation_time = presentation_end;
        i = i + 1;
    }
    let index = SegmentIndex {
        reference_id,
        timescale: sidx.timescale,
        earliest_presentation_time: sidx.earliest_presentation_time,
        subsegments: placed_so_far,
    };
    proof {
        assert forall|j: int| 0 <= j < n implies #[trigger] index.spec_subsegments()[j] == placed(*sidx, anchor, j) by {
            assert(index.spec_subsegments()[j] == placed_so_far@[j]@);
        }
        lemma_placed_contiguous(*sidx, anchor);
        assert(index.spec_subsegments() =~= Seq::new(sidx.references@.len(), |i: int| placed(*sidx, anchor, i)));
    }
    Ok(index)
}

/// The sums of sizes and durations grow with the references they span
proof fn lemma_sums_grow(sidx: SegmentIndexBox, anchor: u64, n: int)
    requires
        n == sidx.references@.len(),
    ensures
        forall|j: int| 0 <= j <= n ==> offset_at(sidx, anchor, j) >= anchor + sidx.first_offset,
        forall|j: int, k: int| 0 <= j <= k <= n ==> #[trigger] offset_at(sidx, anchor, j) <= #[trigger] offset_at(sidx, anchor, k),
        forall|j: int, k: int| 0 <= j <= k <= n ==> #[trigger] time_at(sidx, j) <= #[trigger] time_at(sidx, k),
{
    assert forall|j: int, k: int| 0 <= j <= k <= n implies size_sum(sidx.references@, j) <= size_sum(sidx.references@, k)
        && duration_sum(sidx.references@, j) <= duration_sum(sidx.references@, k) by {
        lemma_prefix_sums_grow(sidx.references@, j, k);
    }
    assert forall|j: int| 0 <= j <= n implies offset_at(sidx, anchor, j) >= anchor + sidx.first_offset by {
        lemma_prefix_sums_grow(sidx.references@, 0, j);
    }
    assert forall|j: int, k: int| 0 <= j <= k <= n implies #[trigger] offset_at(sidx, anchor, j) <= #[trigger] offset_at(sidx, anchor, k) by {
        lemma_prefix_sums_grow(sidx.references@, j, k);
    }
    assert forall|j: int, k: int| 0 <= j <= k <= n implies #[trigger] time_at(sidx, j) <= #[trigger] time_at(sidx, k) by {
        lemma_prefix_sums_grow(sidx.references@, j, k);
    }
}

/// A prefix sum over more references is at least the one over fewer
proof fn lemma_prefix_sums_grow(refs: Seq<SegmentIndexReference>, j: int, k: int)
    requires
        0 <= j <= k,
    ensures
        size_sum(refs, j) <= size_sum(refs, k),
        duration_sum(refs, j) <= duration_sum(refs, k),
        size_sum(refs, j) >= 0,
    decreases k - j,
{
    if j < k {
        lemma_prefix_sums_grow(refs, j, k - 1);
    } else {
        lemma_prefix_sums_nonnegative(refs, j);
    }
}

/// A prefix sum is never below zero
proof fn lemma_prefix_sums_nonnegative(refs: Seq<SegmentIndexReference>, j: int)
    ensures
        size_sum(refs, j) >= 0,
        duration_sum(refs, j) >= 0,
    decreases j,
{
    if j > 0 {
        lemma_prefix_sums_nonnegative(refs, j - 1);
    }
}

} // verus!

//! [`FragmentedReader`], a fragmented movie file read as it arrives, ISO/IEC 14496-12 Annex A.8

use std::ops::Range;

use vstd::prelude::*;

use crate::bytes::BoxError;
use crate::sample::boxes::{MovieBox, MovieFragmentBox};
use crate::sample::sample::Sample;
use crate::sample::sample_reader::{lacking_start, spec_handle_data, ReaderState, ReaderView as SampleView, SampleReader};
use crate::sample::track_decode_times::TrackDecodeTimes;
use crate::sequence::event::{BoxEvent, EventView};
use crate::sequence::reader::{BoxReader, ReaderPhase, ReaderView as FramingView};
use crate::sample::random_access::MovieFragmentRandomAccessBox;
use crate::sample::segment_index::{placed, subsegments, SegmentIndex};
use crate::structure::error::{StructureError, MFRA, MOOF, MOOV, SIDX};
use crate::structure::segment_reader::{anchor, index_view, indexed, IndexView};
use crate::structure::fragmented::{
    spec_place, structure_resumed, FragmentedDisposition, FragmentedPosition, FragmentedState, FragmentedStructure,
};
use crate::structure::stack::{
    begin_gathering, declares_past, fourcc_of, framing_failure, framing_finished, from_structure, gather,
    fragment_resolved_known, header_fourcc, known_view, lemma_resolved_keeps_state, limit_failure, open_view, reports,
    resolve_fragment_known, samples_fed, samples_finished,
    stack_refusal, taken_to, untaken, value_of_kind, BoxValue, BrandsBox, GatheredBox, OpenBox, OpenView, StackError,
    StackState, Step, ValueKind,
};
use crate::sequence::header::BoxHeader;

verus! {

/// What a [`FragmentedReader`] holds above the framing of the file
pub struct FragmentedStack {
    /// Where the structure of the file stands
    pub structure: FragmentedState,
    /// The samples gathered out of the media data
    pub samples: SampleView,
    /// Where each track stands on its timeline
    pub decode_times: Map<u32, u64>,
    /// The top-level box that started, as the reader holds it
    pub open: Option<OpenView>,
    /// The box handed over to be read, and where it starts, while its value is awaited
    pub awaiting: Option<(ValueKind, u64)>,
    /// The failure of the framing, reported once the events it made before it are read
    pub pending: Option<StackError>,
    /// Whether the file was declared over, and the reader declares its layers over once the events are read
    pub finishing: bool,
    /// The brands of the file, once read
    pub file_type: Option<BrandsBox>,
    /// The movie, once read
    pub movie: Option<MovieBox>,
    /// The subsegments of every `sidx` read, each held once, in the order read
    pub segment_indexes: Seq<IndexView>,
    /// The random access tables of the file, once its `mfra` is read
    pub random_access: Option<MovieFragmentRandomAccessBox>,
    /// The payload a box read into a value may carry
    pub payload_limit: u64,
    /// Where in the file the framing took its first byte
    pub base: u64,
    /// The tracks whose timelines are known since the reading resumed, none where it never did
    pub known_tracks: Option<Seq<u32>>,
    /// Where the reader stands between calls
    pub state: StackState,
}

/// What a [`FragmentedReader`] holds
pub struct FragmentedReaderView {
    /// The framing of the file into boxes
    pub boxes: FramingView,
    /// What is held above it
    pub stack: FragmentedStack,
}

/// The stack failed with `failure`
pub open spec fn fail_stack(s: FragmentedStack, failure: StackError) -> (FragmentedStack, Step) {
    (FragmentedStack { state: StackState::Failed(failure), ..s }, Step::Failed(failure))
}

/// The stack once a box of `header`, starting at `start`, begins to be gathered to be read into `kind`
pub open spec fn open_for(s: FragmentedStack, kind: ValueKind, header: BoxHeader, start: u64) -> (FragmentedStack, Step) {
    if declares_past(header, s.payload_limit) {
        fail_stack(s, limit_failure(header, s.payload_limit))
    } else {
        (FragmentedStack { open: Some(OpenView::Gathering { kind, header, payload: Seq::empty(), start }), ..s }, Step::Next)
    }
}

/// The stack once a top-level box of `header` starts at `start`
pub open spec fn on_header(s: FragmentedStack, header: BoxHeader, start: u64) -> (FragmentedStack, Step) {
    match s.structure {
        FragmentedState::Reading(position) => match spec_place(position, fourcc_of(header)) {
            Err(failure) => fail_stack(FragmentedStack { structure: FragmentedState::Failed(failure), ..s }, from_structure(failure)),
            Ok((reached, disposition)) => {
                let placed = FragmentedStack { structure: FragmentedState::Reading(reached), ..s };
                match disposition {
                    FragmentedDisposition::FileType => open_for(placed, ValueKind::FileType, header, start),
                    FragmentedDisposition::Movie => open_for(placed, ValueKind::Movie, header, start),
                    FragmentedDisposition::MovieFragment => open_for(placed, ValueKind::MovieFragment, header, start),
                    FragmentedDisposition::MediaData => (FragmentedStack { open: Some(OpenView::MediaData), ..placed }, Step::Next),
                    FragmentedDisposition::Skip => if fourcc_of(header) == SIDX {
                        open_for(placed, ValueKind::SegmentIndex, header, start)
                    } else if fourcc_of(header) == MFRA {
                        open_for(placed, ValueKind::MovieFragmentRandomAccess, header, start)
                    } else {
                        (FragmentedStack { open: None, ..placed }, Step::Next)
                    },
                }
            },
        },
        FragmentedState::Finished => fail_stack(s, StackError::AlreadyFinished),
        FragmentedState::Failed(failure) => fail_stack(s, from_structure(failure)),
    }
}

/// Whether a top-level box of `header`, placed as `disposition`, is read into a value
pub open spec fn read_into_value(disposition: FragmentedDisposition, header: BoxHeader) -> bool {
    ||| disposition is FileType
    ||| disposition is Movie
    ||| disposition is MovieFragment
    ||| disposition is Skip && (fourcc_of(header) == SIDX || fourcc_of(header) == MFRA)
}

/// A box read into a value whose header declares more payload than the limit
/// is refused as its header arrives, before any byte of it is gathered; any
/// other box the structure places is taken, whatever it declares
pub proof fn lemma_limit_bounds_only_values(s: FragmentedStack, header: BoxHeader, start: u64)
    requires
        s.structure matches FragmentedState::Reading(position) && spec_place(position, fourcc_of(header)) is Ok,
    ensures
        ({
            let (after, step) = on_header(s, header, start);
            let disposition = spec_place(s.structure->Reading_0, fourcc_of(header))->Ok_0.1;
            &&& read_into_value(disposition, header) && declares_past(header, s.payload_limit) ==> {
                &&& step == Step::Failed(limit_failure(header, s.payload_limit))
                &&& after.state == StackState::Failed(limit_failure(header, s.payload_limit))
                &&& after.open == s.open
            }
            &&& read_into_value(disposition, header) && !declares_past(header, s.payload_limit) ==> step is Next
                && (after.open matches Some(OpenView::Gathering { payload, .. }) && payload.len() == 0)
            &&& !read_into_value(disposition, header) ==> step is Next
        }),
{
}

/// The stack once `bytes` of the payload of the box that started arrive, the first at `start`
pub open spec fn on_payload(s: FragmentedStack, bytes: Seq<u8>, start: u64) -> (FragmentedStack, Step) {
    match s.open {
        Some(OpenView::Gathering { kind, header, payload, start: at }) => if payload.len() + bytes.len() > s.payload_limit {
            fail_stack(s, limit_failure(header, s.payload_limit))
        } else {
            (FragmentedStack { open: Some(OpenView::Gathering { kind, header, payload: payload + bytes, start: at }), ..s }, Step::Next)
        },
        Some(OpenView::MediaData) => {
            let (fed, outcome) = samples_fed(s.samples, start, bytes);
            match outcome {
                Ok(_) => (FragmentedStack { samples: fed, ..s }, Step::Next),
                Err(failure) => fail_stack(FragmentedStack { samples: fed, ..s }, StackError::Sample(failure)),
            }
        },
        None => (s, Step::Next),
    }
}

/// The stack once the box that started ends, at `end`
pub open spec fn on_end(s: FragmentedStack, end: u64) -> (FragmentedStack, Step) {
    match s.open {
        Some(OpenView::Gathering { kind, header, payload, start }) => (
            FragmentedStack { open: None, awaiting: Some((kind, anchor(kind, start, end))), ..s },
            Step::Gathered(kind, header, payload),
        ),
        _ => (FragmentedStack { open: None, ..s }, Step::Next),
    }
}

/// The stack once `event`, read from the bytes starting at `start`, is read
pub open spec fn on_event(s: FragmentedStack, event: EventView, start: u64) -> (FragmentedStack, Step) {
    match event {
        EventView::Header(header) => on_header(s, header, start),
        EventView::Payload(bytes) => on_payload(s, bytes, start),
        EventView::End => on_end(s, start),
    }
}

/// The offset in the file of the byte `at` bytes past where the framing took its first, `base`
pub open spec fn file_offset(base: u64, at: int) -> u64 {
    if base + at > u64::MAX {
        u64::MAX
    } else {
        (base + at) as u64
    }
}

/// The stack once the events of `made` from `taken` on are read in turn, up
/// to the first box gathered whole or the first failure; how many events
/// were then taken, and what the last read came to
pub open spec fn read_events(s: FragmentedStack, made: Seq<(int, int, EventView)>, taken: nat) -> (FragmentedStack, nat, Step)
    decreases made.len() - taken,
{
    if taken >= made.len() {
        (s, taken, Step::Next)
    } else {
        let (after, step) = on_event(s, made[taken as int].2, file_offset(s.base, made[taken as int].0));
        match step {
            Step::Next => read_events(after, made, taken + 1),
            _ => (after, taken + 1, step),
        }
    }
}

/// Where the structure stands once the file is declared over, and what it reports
pub open spec fn structure_finished(state: FragmentedState) -> (FragmentedState, Result<(), StructureError>) {
    match state {
        FragmentedState::Reading(FragmentedPosition::Declared) | FragmentedState::Reading(FragmentedPosition::Fragmenting) => (
            FragmentedState::Finished,
            Ok(()),
        ),
        FragmentedState::Reading(_) => (
            FragmentedState::Failed(StructureError::MissingMandatoryBox { box_type: MOOV }),
            Err(StructureError::MissingMandatoryBox { box_type: MOOV }),
        ),
        FragmentedState::Finished => (state, Err(StructureError::AlreadyFinished)),
        FragmentedState::Failed(failure) => (state, Err(failure)),
    }
}

/// The stack once the structure and the samples are declared over, the events of the file read
pub open spec fn finish_layers(s: FragmentedStack) -> (FragmentedStack, Step) {
    let s = FragmentedStack { finishing: false, ..s };
    let (structure, placed) = structure_finished(s.structure);
    let s = FragmentedStack { structure, ..s };
    match placed {
        Err(failure) => fail_stack(s, from_structure(failure)),
        Ok(_) => {
            let (samples, outcome) = samples_finished(s.samples);
            let s = FragmentedStack { samples, ..s };
            match outcome {
                Err(failure) => fail_stack(s, StackError::Sample(failure)),
                Ok(_) => (FragmentedStack { state: StackState::Finished, ..s }, Step::Next),
            }
        },
    }
}

/// The stack once the events read came to `step`: a failure of the framing
/// kept for after them is reported, and a file declared over has its layers
/// declared over
pub open spec fn after_events(s: FragmentedStack, step: Step) -> (FragmentedStack, Step) {
    match step {
        Step::Next => match s.pending {
            Some(failure) => fail_stack(FragmentedStack { pending: None, ..s }, failure),
            None => if s.finishing {
                finish_layers(s)
            } else {
                (s, Step::Next)
            },
        },
        _ => (s, step),
    }
}

/// The reader once the events its framing made and it has not read yet are
/// read, up to the first box gathered whole or the first failure, and what
/// that came to
pub open spec fn read_framed(v: FragmentedReaderView) -> (FragmentedReaderView, Step) {
    let (s, taken, step) = read_events(v.stack, v.boxes.made, v.boxes.taken);
    let (s, step) = after_events(s, step);
    (FragmentedReaderView { boxes: taken_to(v.boxes, taken), stack: s }, step)
}

/// The stack once `value`, read out of the box awaited, is handed back
pub open spec fn value_taken(s: FragmentedStack, value: Result<BoxValue, BoxError>) -> (FragmentedStack, Step) {
    let start = match s.awaiting {
        Some((_, start)) => start,
        None => 0,
    };
    let s = FragmentedStack { awaiting: None, ..s };
    match value {
        Err(failure) => fail_stack(s, StackError::Box(failure)),
        Ok(BoxValue::Brands(brands)) => (FragmentedStack { file_type: Some(brands), ..s }, Step::Next),
        Ok(BoxValue::Movie(movie)) => (FragmentedStack { movie: Some(movie), ..s }, Step::Next),
        Ok(BoxValue::SegmentIndex(sidx)) => match indexed(sidx, start) {
            Err(failure) => fail_stack(s, StackError::Sample(failure)),
            Ok(index) => if s.segment_indexes.contains(index) {
                (s, Step::Next)
            } else {
                (FragmentedStack { segment_indexes: s.segment_indexes.push(index), ..s }, Step::Next)
            },
        },
        Ok(BoxValue::MovieFragmentRandomAccess(mfra)) => (FragmentedStack { random_access: Some(mfra), ..s }, Step::Next),
        Ok(BoxValue::MovieFragment(movie_fragment)) => match s.movie {
            None => fail_stack(s, StackError::BoxOutOfOrder { box_type: MOOF }),
            Some(movie) => {
                let (samples, decode_times, known_tracks, outcome) = fragment_resolved_known(
                    s.samples,
                    s.decode_times,
                    s.known_tracks,
                    movie_fragment,
                    movie,
                    start,
                );
                let s = FragmentedStack { samples, decode_times, known_tracks, ..s };
                match outcome {
                    Err(failure) => fail_stack(s, StackError::Sample(failure)),
                    Ok(_) => (s, Step::Next),
                }
            },
        },
    }
}

/// Handing a value back keeps the indexes held before, in order, and holds
/// each at most once: a `sidx` placed as one already held is not held again
pub proof fn lemma_indexes_held_once(s: FragmentedStack, value: Result<BoxValue, BoxError>)
    requires
        s.segment_indexes.no_duplicates(),
    ensures
        ({
            let after = value_taken(s, value).0.segment_indexes;
            &&& after.no_duplicates()
            &&& after.len() >= s.segment_indexes.len()
            &&& after.subrange(0, s.segment_indexes.len() as int) == s.segment_indexes
            &&& after.len() <= s.segment_indexes.len() + 1
        }),
{
    let after = value_taken(s, value).0.segment_indexes;
    assert(after.subrange(0, s.segment_indexes.len() as int) =~= s.segment_indexes) by {
        if after.len() > s.segment_indexes.len() {
            assert(after.subrange(0, s.segment_indexes.len() as int) =~= after.drop_last());
        }
    }
}


/// Reads the samples a fragmented movie file carries, taking it as it arrives
///
/// The file is framed into boxes, each top-level box is placed as a
/// [`FragmentedStructure`] has it, the media data is offered to the samples,
/// and the `ftyp`, the `moov`, each `moof`, and each `sidx` and `mfra` among
/// the boxes the structure passes over, are gathered whole. A box
/// gathered whole is handed over as a [`GatheredBox`], to be read into its
/// value and handed back through [`handle_value`](Self::handle_value); the
/// reader reads no further until it is. Each fragment is resolved against
/// the movie into the extents of its samples, which are read out of the media
/// data that follows it; a sample comes out of
/// [`poll_sample`](Self::poll_sample) once its bytes have arrived.
///
/// [`resume_at`](Self::resume_at) restarts the reading at a file offset an
/// index points at, from where the file is then handed over: the movie and
/// the indexes read so far stand, the extents and samples held are dropped,
/// and a track's timeline is not known until a track fragment states it.
///
/// A box read into a value that declares, or carries, more payload than the
/// limit the reader was made with is refused. An `Err` leaves the reader
/// failed for good: every later call reports that same failure again. The
/// samples completed before it are still there to take.
pub struct FragmentedReader {
    boxes: BoxReader,
    structure: FragmentedStructure,
    samples: SampleReader,
    decode_times: TrackDecodeTimes,
    open: Option<OpenBox>,
    awaiting: Option<(ValueKind, u64)>,
    pending: Option<StackError>,
    finishing: bool,
    file_type: Option<BrandsBox>,
    movie: Option<MovieBox>,
    segment_indexes: Vec<SegmentIndex>,
    random_access: Option<MovieFragmentRandomAccessBox>,
    payload_limit: u64,
    base: u64,
    known_tracks: Option<Vec<u32>>,
    state: StackState,
}

impl View for FragmentedReader {
    type V = FragmentedReaderView;

    closed spec fn view(&self) -> FragmentedReaderView {
        FragmentedReaderView {
            boxes: self.boxes@,
            stack: FragmentedStack {
                structure: self.structure@,
                samples: self.samples@,
                decode_times: self.decode_times@,
                open: open_view(self.open),
                awaiting: self.awaiting,
                pending: self.pending,
                finishing: self.finishing,
                file_type: self.file_type,
                movie: self.movie,
                segment_indexes: self.segment_indexes@.map_values(|index: SegmentIndex| index_view(index)),
                random_access: self.random_access,
                payload_limit: self.payload_limit,
                base: self.base,
                known_tracks: known_view(self.known_tracks),
                state: self.state,
            },
        }
    }
}

/// A reader at the start of a file, holding a box read into a value to
/// `payload_limit` bytes of payload and a sample to `sample_size_limit` bytes
pub open spec fn fresh_reader(payload_limit: u64, sample_size_limit: u64) -> FragmentedReaderView {
    FragmentedReaderView {
        boxes: FramingView {
            input: Seq::empty(),
            made: Seq::empty(),
            taken: 0,
            phase: ReaderPhase::Gathering(Seq::empty()),
            event_extent: None,
        },
        stack: FragmentedStack {
            structure: FragmentedState::Reading(FragmentedPosition::Start),
            samples: SampleView { pending: Seq::empty(), ready: Seq::empty(), limit: sample_size_limit, state: ReaderState::Reading },
            decode_times: Map::empty(),
            open: None,
            awaiting: None,
            pending: None,
            finishing: false,
            file_type: None,
            movie: None,
            segment_indexes: Seq::empty(),
            random_access: None,
            payload_limit,
            base: 0,
            known_tracks: None,
            state: StackState::Reading,
        },
    }
}

/// The reader taken up again at `offset`, the offset in the file of the
/// input handed over next: the framing starts afresh there, the structure
/// stands just past the movie, the extents and samples held are dropped, and
/// no track's timeline is known until a track fragment states it; the brands,
/// the movie, the indexes and the random access tables read so far stand
pub open spec fn resumed(v: FragmentedReaderView, offset: u64) -> FragmentedReaderView {
    FragmentedReaderView {
        boxes: FramingView {
            input: Seq::empty(),
            made: Seq::empty(),
            taken: 0,
            phase: ReaderPhase::Gathering(Seq::empty()),
            event_extent: None,
        },
        stack: FragmentedStack {
            structure: structure_resumed(v.stack.structure),
            samples: SampleView {
                pending: Seq::empty(),
                ready: Seq::empty(),
                limit: v.stack.samples.limit,
                state: ReaderState::Reading,
            },
            open: None,
            awaiting: None,
            pending: None,
            finishing: false,
            base: offset,
            known_tracks: Some(Seq::empty()),
            state: StackState::Reading,
            ..v.stack
        },
    }
}

/// Whether the layers of a reader stand as its calls leave them: a reader
/// waiting for a value takes input; one taking input and not waiting has read
/// every event its framing made and keeps no failure of the framing nor the
/// end of the file for later; its framing takes input unless it failed or was
/// declared over with the failure or the end kept; and its samples take
/// input while it does
pub open spec fn stands(v: FragmentedReaderView) -> bool {
    &&& v.stack.awaiting is Some ==> v.stack.state == StackState::Reading
    &&& (v.stack.state == StackState::Reading && v.stack.awaiting is None) ==> {
        &&& v.stack.pending is None
        &&& !v.stack.finishing
        &&& v.boxes.taken == v.boxes.made.len()
    }
    &&& (v.stack.state == StackState::Reading && v.stack.pending is None && !v.stack.finishing) ==> (
    v.boxes.phase is Gathering || v.boxes.phase is Passing)
    &&& v.stack.state == StackState::Reading ==> v.stack.samples.state == ReaderState::Reading
    &&& v.stack.state == StackState::Finished ==> v.stack.samples.state == ReaderState::Finished
}

/// Reading events from a reader taking input leaves it taking input, with
/// its samples, until a box is gathered whole, which it then waits for, or it
/// fails; reading them to the last takes every one
proof fn lemma_read_events(s: FragmentedStack, made: Seq<(int, int, EventView)>, taken: nat)
    requires
        s.state == StackState::Reading,
        s.awaiting is None,
        s.samples.state == ReaderState::Reading,
        taken <= made.len(),
    ensures
        ({
            let (after, reached, step) = read_events(s, made, taken);
            &&& taken <= reached <= made.len()
            &&& after.pending == s.pending
            &&& after.finishing == s.finishing
            &&& step is Next ==> reached == made.len() && after.state == StackState::Reading && after.awaiting is None
                && after.samples.state == ReaderState::Reading
            &&& step is Gathered ==> after.state == StackState::Reading && after.awaiting is Some
                && after.samples.state == ReaderState::Reading
            &&& step matches Step::Failed(failure) ==> after.state == StackState::Failed(failure) && after.awaiting is None
        }),
    decreases made.len() - taken,
{
    if taken < made.len() {
        let (after, step) = on_event(s, made[taken as int].2, file_offset(s.base, made[taken as int].0));
        if step is Next {
            lemma_read_events(after, made, taken + 1);
        }
    }
}

impl FragmentedReader {
    /// Whether the reader is whole: its framing holds together, and its layers stand as its calls leave them
    pub closed spec fn wf(&self) -> bool {
        &&& self.boxes.wf()
        &&& stands(self@)
    }

    /// Payload a box read into a value may carry, where the caller names no limit: sixteen mebibytes
    pub const DEFAULT_PAYLOAD_LIMIT: u64 = 16777216;

    /// Creates a reader waiting at the start of a fragmented movie file
    ///
    /// A box read into a value may carry [`DEFAULT_PAYLOAD_LIMIT`](Self::DEFAULT_PAYLOAD_LIMIT)
    /// bytes of payload, and a sample the limit of [`SampleReader::new`].
    pub fn new() -> (reader: Self)
        ensures
            reader.wf(),
            reader@ == fresh_reader(Self::DEFAULT_PAYLOAD_LIMIT, SampleReader::DEFAULT_SAMPLE_SIZE_LIMIT),
    {
        Self::with_limits(Self::DEFAULT_PAYLOAD_LIMIT, SampleReader::DEFAULT_SAMPLE_SIZE_LIMIT)
    }

    /// Creates a reader holding a box read into a value to `payload_limit`
    /// bytes of payload, and a sample to `sample_size_limit` bytes
    pub fn with_limits(payload_limit: u64, sample_size_limit: u64) -> (reader: Self)
        ensures
            reader.wf(),
            reader@ == fresh_reader(payload_limit, sample_size_limit),
    {
        let reader = FragmentedReader {
            boxes: BoxReader::new(),
            structure: FragmentedStructure::new(),
            samples: SampleReader::with_sample_size_limit(sample_size_limit),
            decode_times: TrackDecodeTimes::new(),
            open: None,
            awaiting: None,
            pending: None,
            finishing: false,
            file_type: None,
            movie: None,
            segment_indexes: Vec::new(),
            random_access: None,
            payload_limit,
            base: 0,
            known_tracks: None,
            state: StackState::Reading,
        };
        assert(reader@.stack.segment_indexes =~= Seq::<IndexView>::empty());
        reader
    }

    /// Returns the failure the reader reports for a call, if it takes none
    fn refused(&self) -> (refused: Option<StackError>)
        ensures
            refused == stack_refusal(self@.stack.state),
    {
        match self.state {
            StackState::Reading => None,
            StackState::Finished => Some(StackError::AlreadyFinished),
            StackState::Failed(failure) => Some(failure),
        }
    }

    /// Fails the reader for good, and hands the failure back
    fn fail(&mut self, failure: StackError) -> (failed: StackError)
        ensures
            failed == failure,
            final(self).boxes == old(self).boxes,
            final(self)@ == (FragmentedReaderView {
                stack: FragmentedStack { state: StackState::Failed(failure), ..old(self)@.stack },
                ..old(self)@
            }),
    {
        self.state = StackState::Failed(failure);
        failure
    }
}


impl FragmentedReader {
    /// Holds `index` after the indexes read before it, unless one of them is the same
    fn hold_index(&mut self, index: SegmentIndex)
        ensures
            final(self).boxes == old(self).boxes,
            final(self)@ == (FragmentedReaderView {
                stack: FragmentedStack {
                    segment_indexes: if old(self)@.stack.segment_indexes.contains(index_view(index)) {
                        old(self)@.stack.segment_indexes
                    } else {
                        old(self)@.stack.segment_indexes.push(index_view(index))
                    },
                    ..old(self)@.stack
                },
                ..old(self)@
            }),
    {
        let ghost held = self@.stack.segment_indexes;
        let mut i: usize = 0;
        while i < self.segment_indexes.len()
            invariant
                0 <= i <= self.segment_indexes.len(),
                self == old(self),
                held == self@.stack.segment_indexes,
                held.len() == self.segment_indexes@.len(),
                forall|j: int| 0 <= j < i ==> held[j] != index_view(index),
            decreases self.segment_indexes.len() - i,
        {
            assert(held[i as int] == index_view(self.segment_indexes@[i as int]));
            if self.segment_indexes[i] == index {
                assert(held.contains(index_view(index)));
                return;
            }
            i = i + 1;
        }
        assert(!held.contains(index_view(index)));
        self.segment_indexes.push(index);
        assert(self@.stack.segment_indexes =~= held.push(index_view(index)));
    }

    /// Starts gathering a box of `header`, starting at `start`, to be read into `kind`
    fn begin(&mut self, kind: ValueKind, header: BoxHeader, start: u64) -> (result: Result<(), StackError>)
        ensures
            final(self).boxes == old(self).boxes,
            ({
                let (s, step) = open_for(old(self)@.stack, kind, header, start);
                &&& final(self)@.stack == s
                &&& step is Next ==> result is Ok
                &&& step matches Step::Failed(failure) ==> result == Err::<(), StackError>(failure)
                &&& !(step is Gathered)
            }),
    {
        match begin_gathering(kind, header, start, self.payload_limit) {
            Ok(open) => {
                self.open = Some(open);
                Ok(())
            },
            Err(failure) => Err(self.fail(failure)),
        }
    }

    /// Reads the header of a top-level box starting at `start`
    fn read_header(&mut self, header: BoxHeader, start: u64) -> (result: Result<(), StackError>)
        ensures
            final(self).boxes == old(self).boxes,
            ({
                let (s, step) = on_header(old(self)@.stack, header, start);
                &&& final(self)@.stack == s
                &&& step is Next ==> result is Ok
                &&& step matches Step::Failed(failure) ==> result == Err::<(), StackError>(failure)
                &&& !(step is Gathered)
            }),
    {
        match self.structure.handle_box_type(header_fourcc(&header)) {
            Err(failure) => Err(self.fail(StackError::structure(failure))),
            Ok(FragmentedDisposition::FileType) => self.begin(ValueKind::FileType, header, start),
            Ok(FragmentedDisposition::Movie) => self.begin(ValueKind::Movie, header, start),
            Ok(FragmentedDisposition::MovieFragment) => self.begin(ValueKind::MovieFragment, header, start),
            Ok(FragmentedDisposition::MediaData) => {
                self.open = Some(OpenBox::MediaData);
                Ok(())
            },
            Ok(FragmentedDisposition::Skip) => {
                let fourcc = header_fourcc(&header);
                if fourcc == SIDX {
                    self.begin(ValueKind::SegmentIndex, header, start)
                } else if fourcc == MFRA {
                    self.begin(ValueKind::MovieFragmentRandomAccess, header, start)
                } else {
                    self.open = None;
                    Ok(())
                }
            },
        }
    }

    /// Reads `bytes` of the payload of the box that started, the first at `start`
    fn read_payload(&mut self, bytes: Vec<u8>, start: u64) -> (result: Result<(), StackError>)
        ensures
            final(self).boxes == old(self).boxes,
            ({
                let (s, step) = on_payload(old(self)@.stack, bytes@, start);
                &&& final(self)@.stack == s
                &&& step is Next ==> result is Ok
                &&& step matches Step::Failed(failure) ==> result == Err::<(), StackError>(failure)
                &&& !(step is Gathered)
            }),
    {
        match self.open.take() {
            Some(OpenBox::Gathering(gathering)) => {
                let mut gathering = gathering;
                let gathered = gather(&mut gathering, bytes, self.payload_limit);
                self.open = Some(OpenBox::Gathering(gathering));
                match gathered {
                    Ok(()) => Ok(()),
                    Err(failure) => Err(self.fail(failure)),
                }
            },
            Some(OpenBox::MediaData) => {
                self.open = Some(OpenBox::MediaData);
                match self.samples.handle_data(start, bytes.as_slice()) {
                    Ok(()) => Ok(()),
                    Err(failure) => Err(self.fail(StackError::Sample(failure))),
                }
            },
            None => Ok(()),
        }
    }

    /// Reads the end of the box that started, at `end`, handing a box gathered whole over
    fn read_end(&mut self, end: u64) -> (gathered: Option<GatheredBox>)
        ensures
            final(self).boxes == old(self).boxes,
            ({
                let (s, step) = on_end(old(self)@.stack, end);
                &&& final(self)@.stack == s
                &&& reports(Ok::<Option<GatheredBox>, StackError>(gathered), step)
            }),
    {
        match self.open.take() {
            Some(OpenBox::Gathering(gathering)) => {
                let at = match gathering.kind {
                    ValueKind::SegmentIndex => end,
                    _ => gathering.start,
                };
                self.awaiting = Some((gathering.kind, at));
                Some(GatheredBox { kind: gathering.kind, header: gathering.header, payload: gathering.payload })
            },
            _ => None,
        }
    }

    /// Reads `event`, read from the bytes starting at `start`
    fn read_event(&mut self, event: BoxEvent, start: u64) -> (result: Result<Option<GatheredBox>, StackError>)
        ensures
            final(self).boxes == old(self).boxes,
            ({
                let (s, step) = on_event(old(self)@.stack, crate::sequence::event::event_view(event), start);
                &&& final(self)@.stack == s
                &&& reports(result, step)
            }),
    {
        match event {
            BoxEvent::Header(header) => match self.read_header(header, start) {
                Ok(()) => Ok(None),
                Err(failure) => Err(failure),
            },
            BoxEvent::Payload(bytes) => match self.read_payload(bytes, start) {
                Ok(()) => Ok(None),
                Err(failure) => Err(failure),
            },
            BoxEvent::End => Ok(self.read_end(start)),
        }
    }

    /// Declares the structure and the samples over, the events of the file read
    fn finish_layers(&mut self) -> (result: Result<Option<GatheredBox>, StackError>)
        ensures
            final(self).boxes == old(self).boxes,
            ({
                let (s, step) = finish_layers(old(self)@.stack);
                &&& final(self)@.stack == s
                &&& reports(result, step)
            }),
    {
        self.finishing = false;
        match self.structure.finish() {
            Err(failure) => return Err(self.fail(StackError::structure(failure))),
            Ok(()) => {},
        }
        match self.samples.finish() {
            Err(failure) => return Err(self.fail(StackError::Sample(failure))),
            Ok(()) => {},
        }
        self.state = StackState::Finished;
        Ok(None)
    }

    /// Reports what the events read came to, once they are read to the last
    fn settle(&mut self) -> (result: Result<Option<GatheredBox>, StackError>)
        ensures
            final(self).boxes == old(self).boxes,
            ({
                let (s, step) = after_events(old(self)@.stack, Step::Next);
                &&& final(self)@.stack == s
                &&& reports(result, step)
            }),
    {
        match self.pending {
            Some(failure) => {
                self.pending = None;
                Err(self.fail(failure))
            },
            None => if self.finishing {
                self.finish_layers()
            } else {
                Ok(None)
            },
        }
    }

    /// Reads every event the framing made and the reader has not read yet, up
    /// to the first box gathered whole or the first failure
    fn read_framed(&mut self) -> (result: Result<Option<GatheredBox>, StackError>)
        requires
            old(self).boxes.wf(),
        ensures
            final(self).boxes.wf(),
            ({
                let (v, step) = read_framed(old(self)@);
                &&& final(self)@ == v
                &&& reports(result, step)
            }),
    {
        let ghost boxes = self@.boxes;
        proof {
            self.boxes.lemma_taken_within();
        }
        let ghost goal = read_events(self@.stack, boxes.made, boxes.taken);
        let mut outcome: Result<Option<GatheredBox>, StackError> = Ok(None);
        loop
            invariant_except_break
                self.boxes.wf(),
                boxes.taken <= self@.boxes.taken <= boxes.made.len(),
                self@.boxes == taken_to(boxes, self@.boxes.taken),
                read_events(self@.stack, boxes.made, self@.boxes.taken) == goal,
                outcome == Ok::<Option<GatheredBox>, StackError>(None),
            ensures
                self.boxes.wf(),
                self@.stack == goal.0,
                self@.boxes == taken_to(boxes, goal.1),
                reports(outcome, goal.2),
            decreases boxes.made.len() - self@.boxes.taken,
        {
            let ghost taken = self@.boxes.taken;
            match self.boxes.poll_event() {
                None => {
                    break;
                },
                Some(event) => {
                    let start = match self.boxes.event_extent() {
                        Some(extent) => extent.start.saturating_add(self.base),
                        None => 0,
                    };
                    assert(crate::sequence::event::event_view(event) == boxes.made[taken as int].2);
                    assert(start == file_offset(self@.stack.base, boxes.made[taken as int].0));
                    let read = self.read_event(event, start);
                    match read {
                        Ok(None) => {},
                        _ => {
                            outcome = read;
                            break;
                        },
                    }
                },
            }
        }
        match outcome {
            Ok(None) => self.settle(),
            _ => outcome,
        }
    }
}


impl FragmentedReader {
    /// Takes the next cut of the file, and reads the events the framing makes of it
    ///
    /// The input is taken whole, as the continuation of what was handed over
    /// before it, the first cut starting at the first byte of the file. Its
    /// events are read in turn until a box read into a value is
    /// gathered whole: it is returned to be read into its value, handed back
    /// through [`handle_value`](Self::handle_value), after which the events
    /// left are read. What the input completed is then taken from
    /// [`poll_sample`](Self::poll_sample).
    ///
    /// Fails with what the structure makes of a top-level box arriving where
    /// it does; with [`PayloadLimitExceeded`](StackError::PayloadLimitExceeded)
    /// when a box read into a value reaches past the limit; with what the
    /// samples make of the media data; with the failure of the framing, once
    /// the events it made before failing are read; with
    /// [`AlreadyFinished`](StackError::AlreadyFinished) once the file was
    /// declared over; and with the failure of a previous call.
    pub fn handle_input(&mut self, input: &[u8]) -> (result: Result<Option<GatheredBox>, StackError>)
        requires
            old(self).wf(),
            old(self)@.stack.awaiting is None,
            old(self)@.boxes.input.len() + input@.len() <= u64::MAX,
        ensures
            final(self).wf(),
            match stack_refusal(old(self)@.stack.state) {
                Some(failure) => result == Err::<Option<GatheredBox>, StackError>(failure) && final(self)@ == old(self)@,
                None => {
                    let framed = untaken(final(self)@.boxes, old(self)@.boxes);
                    let (v, step) = read_framed(
                        FragmentedReaderView {
                            boxes: framed,
                            stack: FragmentedStack { pending: framing_failure(framed), ..old(self)@.stack },
                        },
                    );
                    &&& old(self)@.boxes.made.len() <= framed.made.len()
                    &&& framed.made.subrange(0, old(self)@.boxes.made.len() as int) == old(self)@.boxes.made
                    &&& !(framed.phase is Failed) ==> framed.input == old(self)@.boxes.input + input@
                    &&& framed.phase is Failed ==> exists|k: int|
                        0 <= k <= input@.len() && framed.input == old(self)@.boxes.input + input@.subrange(0, k)
                    &&& final(self)@ == v
                    &&& reports(result, step)
                },
            },
    {
        if let Some(failure) = self.refused() {
            return Err(failure);
        }
        match self.boxes.handle_input(input) {
            Ok(()) => {},
            Err(failure) => {
                self.pending = Some(StackError::Sequence(failure));
            },
        }
        let ghost before = self@;
        let result = self.read_framed();
        proof {
            self.boxes.lemma_taken_within();
            lemma_read_events(before.stack, before.boxes.made, before.boxes.taken);
        }
        result
    }

    /// Takes the value the box last gathered whole was read into, or the failure to read it, and reads on
    ///
    /// The brands, the movie and the random access tables are held, and the
    /// subsegments of a `sidx`, placed from the byte after it, are held unless
    /// the same are held already; a fragment is resolved against the
    /// movie into the extents of its samples, which are held to be read out
    /// of the media data. The events the framing made and the reader has not
    /// read yet are then read, as [`handle_input`](Self::handle_input) reads them.
    ///
    /// Fails with the failure to read the box, carried on
    /// [`Box`](StackError::Box); with what the samples make of the fragment;
    /// and with the failures of reading on.
    pub fn handle_value(&mut self, value: Result<BoxValue, BoxError>) -> (result: Result<Option<GatheredBox>, StackError>)
        requires
            old(self).wf(),
            old(self)@.stack.awaiting matches Some((kind, _)) && (value matches Ok(read) ==> value_of_kind(read, kind)),
        ensures
            final(self).wf(),
            ({
                let (s, step) = value_taken(old(self)@.stack, value);
                if step is Next {
                    let (v, read) = read_framed(FragmentedReaderView { boxes: old(self)@.boxes, stack: s });
                    final(self)@ == v && reports(result, read)
                } else {
                    final(self)@ == (FragmentedReaderView { boxes: old(self)@.boxes, stack: s }) && reports(result, step)
                }
            }),
    {
        let start = match self.awaiting {
            Some((_, start)) => start,
            None => 0,
        };
        self.awaiting = None;
        match value {
            Err(failure) => {
                return Err(self.fail(StackError::Box(failure)));
            },
            Ok(BoxValue::Brands(brands)) => {
                self.file_type = Some(brands);
            },
            Ok(BoxValue::Movie(movie)) => {
                self.movie = Some(movie);
            },
            Ok(BoxValue::SegmentIndex(sidx)) => {
                match subsegments(&sidx, start) {
                    Err(failure) => {
                        return Err(self.fail(StackError::Sample(failure)));
                    },
                    Ok(index) => {
                        proof {
                            assert(index_view(index).subsegments =~= Seq::new(
                                sidx.references@.len(),
                                |i: int| placed(sidx, start, i),
                            ));
                        }
                        self.hold_index(index);
                    },
                }
            },
            Ok(BoxValue::MovieFragmentRandomAccess(mfra)) => {
                self.random_access = Some(mfra);
            },
            Ok(BoxValue::MovieFragment(movie_fragment)) => {
                let resolved = match &self.movie {
                    None => Err(StackError::box_out_of_order(MOOF)),
                    Some(movie) => match resolve_fragment_known(
                        &mut self.samples,
                        &mut self.decode_times,
                        &mut self.known_tracks,
                        &movie_fragment,
                        movie,
                        start,
                    ) {
                        Ok(()) => Ok(()),
                        Err(failure) => Err(StackError::Sample(failure)),
                    },
                };
                proof {
                    if let Some(movie) = old(self)@.stack.movie {
                        lemma_resolved_keeps_state(old(self)@.stack.samples, old(self)@.stack.decode_times, movie_fragment, movie, start);
                    }
                }
                match resolved {
                    Ok(()) => {},
                    Err(failure) => {
                        return Err(self.fail(failure));
                    },
                }
            },
        }
        let ghost before = self@;
        let result = self.read_framed();
        proof {
            self.boxes.lemma_taken_within();
            lemma_read_events(before.stack, before.boxes.made, before.boxes.taken);
        }
        result
    }

    /// Takes bytes of the file fetched for what [`wanted_extent`](Self::wanted_extent)
    /// named, the first lying at `offset`, and offers them to the samples alone
    ///
    /// Fails with [`AlreadyFinished`](StackError::AlreadyFinished) once the
    /// file was declared over, and with the failure of a previous call.
    pub fn handle_data(&mut self, offset: u64, data: &[u8]) -> (result: Result<(), StackError>)
        requires
            old(self).wf(),
        ensures
            final(self).wf(),
            match stack_refusal(old(self)@.stack.state) {
                Some(failure) => result == Err::<(), StackError>(failure) && final(self)@ == old(self)@,
                None => result is Ok && final(self)@ == (FragmentedReaderView {
                    stack: FragmentedStack { samples: spec_handle_data(old(self)@.stack.samples, offset, data@), ..old(self)@.stack },
                    ..old(self)@
                }),
            },
    {
        if let Some(failure) = self.refused() {
            return Err(failure);
        }
        match self.samples.handle_data(offset, data) {
            Ok(()) => Ok(()),
            Err(failure) => Err(self.fail(StackError::Sample(failure))),
        }
    }

    /// Takes the next sample the file handed over so far completed
    ///
    /// This never fails: a failed reader hands over the samples it had
    /// completed, then `None`.
    pub fn poll_sample(&mut self) -> (sample: Option<Sample>)
        requires
            old(self).wf(),
        ensures
            final(self).wf(),
            old(self)@.stack.samples.ready.len() == 0 ==> sample is None && final(self)@ == old(self)@,
            old(self)@.stack.samples.ready.len() > 0 ==> sample is Some && sample->0@ == old(self)@.stack.samples.ready[0]
                && final(self)@ == (FragmentedReaderView {
                stack: FragmentedStack {
                    samples: SampleView { ready: old(self)@.stack.samples.ready.drop_first(), ..old(self)@.stack.samples },
                    ..old(self)@.stack
                },
                ..old(self)@
            }),
    {
        self.samples.poll_sample()
    }

    /// Returns the bytes the extent at the front of those held still lacks, if any is held
    pub fn wanted_extent(&self) -> (wanted: Option<Range<u64>>)
        ensures
            self@.stack.samples.pending.len() == 0 ==> wanted is None,
            self@.stack.samples.pending.len() > 0 ==> wanted is Some && wanted->0.start == lacking_start(
                self@.stack.samples.pending[0],
            ) && wanted->0.end == self@.stack.samples.pending[0].extent.end,
    {
        self.samples.wanted_extent()
    }

    /// Returns the brands the file declares itself readable as, once read
    pub fn file_type(&self) -> (file_type: Option<&BrandsBox>)
        ensures
            match file_type {
                Some(brands) => self@.stack.file_type == Some(*brands),
                None => self@.stack.file_type is None,
            },
    {
        self.file_type.as_ref()
    }

    /// Returns the movie the fragments of the file continue, once read
    pub fn movie(&self) -> (movie: Option<&MovieBox>)
        ensures
            match movie {
                Some(movie) => self@.stack.movie == Some(*movie),
                None => self@.stack.movie is None,
            },
    {
        self.movie.as_ref()
    }

    /// Returns the subsegments of every `sidx` read so far, in the order they were read
    ///
    /// A `sidx` read again is held once. Each is placed in the file from the
    /// first byte after its `sidx`, as [`subsegments`] places them.
    pub fn segment_indexes(&self) -> (indexes: &[SegmentIndex])
        ensures
            indexes@.map_values(|index: SegmentIndex| index_view(index)) == self@.stack.segment_indexes,
    {
        self.segment_indexes.as_slice()
    }

    /// Returns the random access tables of the file, once its `mfra` has been read
    ///
    /// An `mfra` read again takes the place of the one read before it.
    pub fn movie_fragment_random_access(&self) -> (random_access: Option<&MovieFragmentRandomAccessBox>)
        ensures
            match random_access {
                Some(mfra) => self@.stack.random_access == Some(*mfra),
                None => self@.stack.random_access is None,
            },
    {
        self.random_access.as_ref()
    }

    /// Returns what the box handed over to be read is to be read into, while its value is awaited
    pub fn awaited(&self) -> (kind: Option<ValueKind>)
        ensures
            match self@.stack.awaiting {
                Some((awaited, _)) => kind == Some(awaited),
                None => kind is None,
            },
    {
        match self.awaiting {
            Some((kind, _)) => Some(kind),
            None => None,
        }
    }

    /// Restarts the reading at `offset`, the offset in the file of the input handed over next
    ///
    /// The next box is to be one an index points at: a `moof`, a `sidx` or an
    /// `mfra`. The reader resumes from reading and from the file declared over
    /// alike, and takes the file again from there, as [`resumed`] has it: a
    /// box handed over to be read and not handed back is dropped with the
    /// rest. Fails with the failure of a previous call, which the reader keeps.
    pub fn resume_at(&mut self, offset: u64) -> (result: Result<(), StackError>)
        requires
            old(self).wf(),
        ensures
            final(self).wf(),
            old(self)@.stack.state matches StackState::Failed(failure) ==> result == Err::<(), StackError>(failure)
                && final(self)@ == old(self)@,
            !(old(self)@.stack.state is Failed) ==> result is Ok && final(self)@ == resumed(old(self)@, offset),
    {
        if let StackState::Failed(failure) = self.state {
            return Err(failure);
        }
        self.boxes = BoxReader::new();
        self.base = offset;
        self.structure.resume();
        self.samples.clear();
        self.known_tracks = Some(Vec::new());
        self.open = None;
        self.awaiting = None;
        self.pending = None;
        self.finishing = false;
        self.state = StackState::Reading;
        proof {
            assert(known_view(self.known_tracks) == Some(Seq::<u32>::empty()));
        }
        Ok(())
    }

    /// Declares the file over, and reads the events its end completes
    ///
    /// A box running to the end of the file ends here, and is gathered whole
    /// and returned to be read if it is one read into a value. Once every
    /// event is read, the structure and the samples are declared over.
    ///
    /// Fails with the failure of the framing when the file ended inside a box;
    /// with [`MissingMandatoryBox`](StackError::MissingMandatoryBox) naming
    /// the `moov` when the file carried none; with what the samples make of a
    /// sample short of its bytes; with the failures of reading the events; with
    /// [`AlreadyFinished`](StackError::AlreadyFinished) once already declared
    /// over; and with the failure of a previous call.
    pub fn finish(&mut self) -> (result: Result<Option<GatheredBox>, StackError>)
        requires
            old(self).wf(),
            old(self)@.stack.awaiting is None,
        ensures
            final(self).wf(),
            match stack_refusal(old(self)@.stack.state) {
                Some(failure) => result == Err::<Option<GatheredBox>, StackError>(failure) && final(self)@ == old(self)@,
                None => {
                    let (boxes, framed) = framing_finished(old(self)@.boxes);
                    match framed {
                        Err(failure) => result == Err::<Option<GatheredBox>, StackError>(StackError::Sequence(failure))
                            && final(self)@ == (FragmentedReaderView {
                            boxes,
                            stack: FragmentedStack { state: StackState::Failed(StackError::Sequence(failure)), ..old(self)@.stack },
                        }),
                        Ok(_) => {
                            let (v, step) = read_framed(
                                FragmentedReaderView { boxes, stack: FragmentedStack { finishing: true, ..old(self)@.stack } },
                            );
                            final(self)@ == v && reports(result, step)
                        },
                    }
                },
            },
    {
        if let Some(failure) = self.refused() {
            return Err(failure);
        }
        match self.boxes.finish() {
            Ok(()) => {},
            Err(failure) => {
                return Err(self.fail(StackError::Sequence(failure)));
            },
        }
        self.finishing = true;
        let ghost before = self@;
        let result = self.read_framed();
        proof {
            self.boxes.lemma_taken_within();
            lemma_read_events(before.stack, before.boxes.made, before.boxes.taken);
        }
        result
    }
}


impl Default for FragmentedReader {
    /// Creates one waiting at the start of a fragmented movie file, as [`new`](FragmentedReader::new) does
    fn default() -> (reader: Self)
        ensures
            reader.wf(),
            reader@ == fresh_reader(FragmentedReader::DEFAULT_PAYLOAD_LIMIT, SampleReader::DEFAULT_SAMPLE_SIZE_LIMIT),
    {
        FragmentedReader::new()
    }
}

} // verus!

//! What the readers and the writers of a file hold in common: the failure
//! they report, the top-level boxes a reader gathers whole to have read into
//! values, those values, and the boxes a writer lays down whole
//!
//! A reader frames the file into boxes, places each top-level box as the
//! structure of the file has it, offers the media data to the samples, and
//! gathers a box it reads into a value whole. Reading the bytes of a box into
//! its value is the caller's: the reader hands the box over as a
//! [`GatheredBox`] and goes on once its [`BoxValue`] is handed back. A writer
//! lays each box down whole, its header, its payload and its end, where the
//! structure of the file places it.

use vstd::prelude::*;
use vstd::string::StringExecFns;
use crate::bytes::box_error_text;
use crate::sample::error::sample_error_text;
use crate::sequence::error::sequence_error_text;
use crate::text::{decimal, fourcc_text, push_decimal, push_fourcc};

use crate::bytes::{BoxError, BoxErrorKind, Category};
use crate::sample::boxes::{MovieBox, MovieFragmentBox, TrackFragmentBox};
use crate::sample::error::{SampleError, SampleErrorKind};
use crate::sample::movie_fragment::{fragments_extents, sample_extents, settle, settle_all};
use crate::sample::sample::{SampleExtent, SampleExtentView};
use crate::sample::random_access::MovieFragmentRandomAccessBox;
use crate::sample::segment_index::SegmentIndexBox;
use crate::sample::sample_reader::{
    declared_len, insert_in_order, over_limit, refusal, reported, spec_handle_data, spec_hold_all, PendingView, ReaderState,
    ReaderView, SampleReader,
};
use crate::sample::track_decode_times::TrackDecodeTimes;
use crate::sample::sample_table::items_are;
use crate::sequence::error::{Error as SequenceError, ErrorKind as SequenceErrorKind};
use crate::sequence::event::EventView;
use crate::sequence::event::{event_bytes, BoxEvent};
use crate::sequence::header::{lemma_header_is_its_fields, lemma_size_for_header, lemma_type_of_encoding, size_for, type_field, BoxHeader, BoxType, UUID_TYPE};
use crate::sequence::writer::{outcome, unfinished_failure, BoxWriter, WriterPhase, WriterView};
use crate::sequence::reader::{header_reach, ReaderPhase, ReaderView as FramingView};
use crate::structure::error::{FourCC, StructureError};

verus! {

/// Failure of a reader of a file: of the order of its top-level boxes, of a
/// box gathered whole, of its framing, or of its samples
#[derive(Clone, Copy, PartialEq, Eq, Debug)]
pub enum StackError {
    /// A box arrived where the file may not hold it
    BoxOutOfOrder { box_type: FourCC },
    /// A box the file holds once arrived a second time
    DuplicateBox { box_type: FourCC },
    /// The file was declared over without a box it has to hold
    MissingMandatoryBox { box_type: FourCC },
    /// A box read into a value declares, or carries, more payload than the `limit` the reader gathers
    PayloadLimitExceeded { box_type: FourCC, limit: u64 },
    /// Failure of the framing of the file into boxes
    Sequence(SequenceError),
    /// A box gathered whole did not read into its value
    Box(BoxError),
    /// Failure of the samples: of a fragment, or of the media data beside it
    Sample(SampleError),
    /// A call made after the file was declared over
    AlreadyFinished,
}

/// Kind of a [`StackError`], the situation without the values
#[derive(Clone, Copy, PartialEq, Eq, Debug)]
pub enum StackErrorKind {
    BoxOutOfOrder,
    DuplicateBox,
    MissingMandatoryBox,
    PayloadLimitExceeded,
    Sequence(SequenceErrorKind),
    Box(BoxErrorKind),
    Sample(SampleErrorKind),
    AlreadyFinished,
}

/// The failure a reader reports for what the structure of the file makes of it
pub open spec fn from_structure(failure: StructureError) -> StackError {
    match failure {
        StructureError::BoxOutOfOrder { box_type } => StackError::BoxOutOfOrder { box_type },
        StructureError::DuplicateBox { box_type } => StackError::DuplicateBox { box_type },
        StructureError::MissingMandatoryBox { box_type } => StackError::MissingMandatoryBox { box_type },
        StructureError::AlreadyFinished => StackError::AlreadyFinished,
    }
}

impl StackError {
    /// Returns the failure: `box_type` arrived where the file may not hold it
    pub fn box_out_of_order(box_type: FourCC) -> (error: Self)
        ensures
            error == (StackError::BoxOutOfOrder { box_type }),
    {
        StackError::BoxOutOfOrder { box_type }
    }

    /// Returns the failure: the file was declared over without a `box_type`
    pub fn missing_mandatory_box(box_type: FourCC) -> (error: Self)
        ensures
            error == (StackError::MissingMandatoryBox { box_type }),
    {
        StackError::MissingMandatoryBox { box_type }
    }

    /// Returns the failure: a call made after the file was declared over
    pub fn already_finished() -> (error: Self)
        ensures
            error == StackError::AlreadyFinished,
    {
        StackError::AlreadyFinished
    }

    /// Returns the failure a reader reports for what the structure of the file makes of it
    pub fn structure(failure: StructureError) -> (error: Self)
        ensures
            error == from_structure(failure),
    {
        match failure {
            StructureError::BoxOutOfOrder { box_type } => StackError::BoxOutOfOrder { box_type },
            StructureError::DuplicateBox { box_type } => StackError::DuplicateBox { box_type },
            StructureError::MissingMandatoryBox { box_type } => StackError::MissingMandatoryBox { box_type },
            StructureError::AlreadyFinished => StackError::AlreadyFinished,
        }
    }

    /// The kind of the failure
    pub open spec fn spec_kind(self) -> StackErrorKind {
        match self {
            StackError::BoxOutOfOrder { .. } => StackErrorKind::BoxOutOfOrder,
            StackError::DuplicateBox { .. } => StackErrorKind::DuplicateBox,
            StackError::MissingMandatoryBox { .. } => StackErrorKind::MissingMandatoryBox,
            StackError::PayloadLimitExceeded { .. } => StackErrorKind::PayloadLimitExceeded,
            StackError::Sequence(failure) => StackErrorKind::Sequence(failure.spec_kind()),
            StackError::Box(failure) => StackErrorKind::Box(failure.spec_kind()),
            StackError::Sample(failure) => StackErrorKind::Sample(failure.spec_kind()),
            StackError::AlreadyFinished => StackErrorKind::AlreadyFinished,
        }
    }

    /// Returns the kind of the failure
    pub fn kind(self) -> (kind: StackErrorKind)
        ensures
            kind == self.spec_kind(),
    {
        match self {
            StackError::BoxOutOfOrder { .. } => StackErrorKind::BoxOutOfOrder,
            StackError::DuplicateBox { .. } => StackErrorKind::DuplicateBox,
            StackError::MissingMandatoryBox { .. } => StackErrorKind::MissingMandatoryBox,
            StackError::PayloadLimitExceeded { .. } => StackErrorKind::PayloadLimitExceeded,
            StackError::Sequence(failure) => StackErrorKind::Sequence(failure.kind()),
            StackError::Box(failure) => StackErrorKind::Box(failure.kind()),
            StackError::Sample(failure) => StackErrorKind::Sample(failure.kind()),
            StackError::AlreadyFinished => StackErrorKind::AlreadyFinished,
        }
    }

    /// What a caller does about the failure
    pub open spec fn spec_category(self) -> Category {
        match self {
            StackError::Sequence(failure) => failure.spec_category(),
            StackError::Box(failure) => failure.spec_category(),
            StackError::Sample(failure) => failure.spec_category(),
            StackError::PayloadLimitExceeded { .. } => Category::Unsupported,
            StackError::AlreadyFinished => Category::Usage,
            _ => Category::Malformed,
        }
    }

    /// Returns what a caller does about the failure: the file out of order is
    /// malformed, a box past the limit is not read here, a call after the end
    /// is a misuse, and a failure of a layer is what that layer has it as
    pub fn category(self) -> (category: Category)
        ensures
            category == self.spec_category(),
    {
        match self {
            StackError::Sequence(failure) => failure.category(),
            StackError::Box(failure) => failure.category(),
            StackError::Sample(failure) => failure.category(),
            StackError::PayloadLimitExceeded { .. } => Category::Unsupported,
            StackError::AlreadyFinished => Category::Usage,
            _ => Category::Malformed,
        }
    }
}

/// The brands a file or a segment declares itself readable as: an `ftyp`
/// (ISO/IEC 14496-12 §4.3) or an `styp` (§8.16.2)
#[derive(Clone, Debug, PartialEq, Eq)]
pub struct BrandsBox {
    pub major_brand: FourCC,
    pub minor_version: u32,
    pub compatible_brands: Vec<FourCC>,
}

/// What a top-level box gathered whole is to be read into
#[derive(Clone, Copy, PartialEq, Eq, Debug, Structural)]
pub enum ValueKind {
    /// The brands of a file, an `ftyp`
    FileType,
    /// The brands of a segment, an `styp`
    SegmentType,
    /// The movie, a `moov`
    Movie,
    /// A movie fragment, a `moof`
    MovieFragment,
    /// A segment index, a `sidx`
    SegmentIndex,
    /// The random access tables of a file, an `mfra`
    MovieFragmentRandomAccess,
}

/// A top-level box gathered whole: its header and its payload, to be read into
/// the value `kind` names and handed back to the reader
#[derive(Clone, Debug)]
pub struct GatheredBox {
    pub kind: ValueKind,
    pub header: BoxHeader,
    pub payload: Vec<u8>,
}

/// The value a gathered box was read into
#[derive(Clone, Debug, PartialEq, Eq)]
pub enum BoxValue {
    /// The brands of an `ftyp` or an `styp`
    Brands(BrandsBox),
    /// What a `moov` declares
    Movie(MovieBox),
    /// What a `moof` declares
    MovieFragment(MovieFragmentBox),
    /// What a `sidx` declares
    SegmentIndex(SegmentIndexBox),
    /// What an `mfra` declares
    MovieFragmentRandomAccess(MovieFragmentRandomAccessBox),
}

/// Whether `value` is what a box gathered to be read into `kind` reads into
pub open spec fn value_of_kind(value: BoxValue, kind: ValueKind) -> bool {
    match kind {
        ValueKind::FileType | ValueKind::SegmentType => value is Brands,
        ValueKind::Movie => value is Movie,
        ValueKind::MovieFragment => value is MovieFragment,
        ValueKind::SegmentIndex => value is SegmentIndex,
        ValueKind::MovieFragmentRandomAccess => value is MovieFragmentRandomAccess,
    }
}

/// Whether `value` is what a box gathered to be read into `kind` reads into
pub fn is_value_of_kind(value: &BoxValue, kind: ValueKind) -> (fits: bool)
    ensures
        fits == value_of_kind(*value, kind),
{
    match (kind, value) {
        (ValueKind::FileType, BoxValue::Brands(_)) | (ValueKind::SegmentType, BoxValue::Brands(_)) => true,
        (ValueKind::Movie, BoxValue::Movie(_)) => true,
        (ValueKind::MovieFragment, BoxValue::MovieFragment(_)) => true,
        (ValueKind::SegmentIndex, BoxValue::SegmentIndex(_)) => true,
        (ValueKind::MovieFragmentRandomAccess, BoxValue::MovieFragmentRandomAccess(_)) => true,
        _ => false,
    }
}

/// Where a reader stands between calls
#[derive(Clone, Copy, PartialEq, Eq, Debug)]
pub enum StackState {
    /// Taking the file as it arrives
    Reading,
    /// Told the file is over, and taking no more input
    Finished,
    /// Failed, and reporting that same failure for every call after it
    Failed(StackError),
}

/// The failure a reader in `state` reports for a call, if it takes none
pub open spec fn stack_refusal(state: StackState) -> Option<StackError> {
    match state {
        StackState::Reading => None,
        StackState::Finished => Some(StackError::AlreadyFinished),
        StackState::Failed(failure) => Some(failure),
    }
}

/// The top-level box that started, as the reader holds it until it ends
pub enum OpenView {
    /// Gathered whole, to be read into the value `kind` names; the box starts at `start`
    Gathering { kind: ValueKind, header: BoxHeader, payload: Seq<u8>, start: u64 },
    /// Media data, offered to the samples as it arrives
    MediaData,
}

/// The four characters a box of `header` is placed by
pub open spec fn fourcc_of(header: BoxHeader) -> FourCC {
    type_field(header.spec_box_type())
}

/// The failure of gathering a box of `header` past `limit`
pub open spec fn limit_failure(header: BoxHeader, limit: u64) -> StackError {
    StackError::PayloadLimitExceeded { box_type: fourcc_of(header), limit }
}

/// Whether a box of `header` declares more payload than `limit`
pub open spec fn declares_past(header: BoxHeader, limit: u64) -> bool {
    header.spec_payload_len() matches Some(declared) && declared > limit
}

/// Returns the four characters a box of `header` is placed by
pub fn header_fourcc(header: &BoxHeader) -> (fourcc: FourCC)
    ensures
        fourcc == fourcc_of(*header),
{
    match header.box_type() {
        BoxType::Compact(fourcc) => fourcc,
        BoxType::Extended(_) => UUID_TYPE,
    }
}

/// A box being gathered whole
pub struct Gathering {
    pub kind: ValueKind,
    pub header: BoxHeader,
    pub payload: Vec<u8>,
    pub start: u64,
}

/// What the reader holds of the top-level box that started
pub enum OpenBox {
    Gathering(Gathering),
    MediaData,
}

/// The view of what the reader holds of the box that started
pub open spec fn open_view(open: Option<OpenBox>) -> Option<OpenView> {
    match open {
        Some(OpenBox::Gathering(g)) => Some(OpenView::Gathering { kind: g.kind, header: g.header, payload: g.payload@, start: g.start }),
        Some(OpenBox::MediaData) => Some(OpenView::MediaData),
        None => None,
    }
}

/// Starts gathering a box of `header`, to be read into `kind`, which starts at `start`
///
/// Fails with [`PayloadLimitExceeded`](StackError::PayloadLimitExceeded)
/// when the box declares more payload than `limit`, before a byte of it is gathered.
pub fn begin_gathering(kind: ValueKind, header: BoxHeader, start: u64, limit: u64) -> (result: Result<OpenBox, StackError>)
    ensures
        declares_past(header, limit) ==> result == Err::<OpenBox, StackError>(limit_failure(header, limit)),
        !declares_past(header, limit) ==> result is Ok && open_view(Some(result->Ok_0)) == Some(
            OpenView::Gathering { kind, header, payload: Seq::empty(), start },
        ),
{
    match header.payload_len() {
        Some(declared) => if declared > limit {
            return Err(StackError::PayloadLimitExceeded { box_type: header_fourcc(&header), limit });
        },
        None => {},
    }
    Ok(OpenBox::Gathering(Gathering { kind, header, payload: Vec::new(), start }))
}

/// Adds `bytes` to the payload of the box being gathered
///
/// Fails with [`PayloadLimitExceeded`](StackError::PayloadLimitExceeded)
/// when the payload would run past `limit`, which a box declaring no total
/// reaches as its bytes arrive; nothing is added then.
pub fn gather(gathering: &mut Gathering, bytes: Vec<u8>, limit: u64) -> (result: Result<(), StackError>)
    ensures
        old(gathering).payload@.len() + bytes@.len() > limit ==> result == Err::<(), StackError>(
            limit_failure(old(gathering).header, limit),
        ) && *final(gathering) == *old(gathering),
        old(gathering).payload@.len() + bytes@.len() <= limit ==> result is Ok && final(gathering).kind == old(
            gathering,
        ).kind && final(gathering).header == old(gathering).header && final(gathering).start == old(gathering).start
            && final(gathering).payload@ == old(gathering).payload@ + bytes@,
{
    let held = gathering.payload.len() as u64;
    if bytes.len() as u64 > limit || held > limit - bytes.len() as u64 {
        return Err(StackError::PayloadLimitExceeded { box_type: header_fourcc(&gathering.header), limit });
    }
    let mut bytes = bytes;
    gathering.payload.append(&mut bytes);
    Ok(())
}

/// The reader of the samples once the extents of `extents` are held
/// together, then the failure that stopped them, if any, as
/// [`handle_sample_extents`](crate::sample::sample_reader::SampleReader::handle_sample_extents) has it
pub open spec fn hold_extents(v: ReaderView, extents: Seq<SampleExtentView>, failure: Option<SampleError>, first: int) -> (ReaderView, Result<(), SampleError>)
    decreases extents.len(),
{
    if extents.len() == 0 {
        match failure {
            Some(failure) => (ReaderView { state: ReaderState::Failed(failure), ..v }, Err(failure)),
            None => (v, Ok(())),
        }
    } else {
        let e = extents[0];
        if declared_len(e) > v.limit {
            (ReaderView { state: ReaderState::Failed(over_limit(e, v.limit)), ..v }, Err(over_limit(e, v.limit)))
        } else {
            hold_extents(
                ReaderView { pending: insert_in_order(v.pending, first, PendingView { extent: e, data: Seq::empty() }), ..v },
                extents.drop_first(),
                failure,
                first,
            )
        }
    }
}

/// Items that are `extents` then `failure` are held as those extents and that failure
pub proof fn lemma_hold_items(v: ReaderView, items: Seq<Result<SampleExtent, SampleError>>, extents: Seq<SampleExtentView>, failure: Option<SampleError>, first: int)
    requires
        items_are(items, extents, failure),
    ensures
        spec_hold_all(v, items, first) == hold_extents(v, extents, failure, first),
    decreases extents.len(),
{
    if extents.len() > 0 {
        assert(items[0] matches Ok(e) && e@ == extents[0]);
        let e = extents[0];
        if declared_len(e) <= v.limit {
            let rest = items.drop_first();
            assert(items_are(rest, extents.drop_first(), failure)) by {
                assert forall|i: int| 0 <= i < extents.drop_first().len() implies (#[trigger] rest[i] matches Ok(x) && x@
                    == extents.drop_first()[i]) by {
                    assert(rest[i] == items[i + 1]);
                    assert(items[i + 1] matches Ok(x) && x@ == extents[i + 1]);
                }
                if failure is Some {
                    assert(rest[extents.drop_first().len() as int] == items[extents.len() as int]);
                }
            }
            lemma_hold_items(
                ReaderView { pending: insert_in_order(v.pending, first, PendingView { extent: e, data: Seq::empty() }), ..v },
                rest,
                extents.drop_first(),
                failure,
                first,
            );
        }
    } else if failure is Some {
        assert(items.len() == 1);
    } else {
        assert(items.len() == 0);
    }
}


/// The reader of the samples once the bytes of `data`, from `offset` on,
/// reach it, and what it reports, as
/// [`handle_data`](SampleReader::handle_data) has it
pub open spec fn samples_fed(v: ReaderView, offset: u64, data: Seq<u8>) -> (ReaderView, Result<(), SampleError>) {
    if v.state != ReaderState::Reading {
        (v, Err(refusal(v.state)))
    } else {
        (spec_handle_data(v, offset, data), Ok(()))
    }
}

/// The reader of the samples once the extents of `extents` then `failure`
/// are handed over together, and what it reports, as
/// [`handle_sample_extents`](SampleReader::handle_sample_extents) has it
pub open spec fn samples_held(v: ReaderView, extents: Seq<SampleExtentView>, failure: Option<SampleError>) -> (ReaderView, Result<(), SampleError>) {
    if v.state != ReaderState::Reading {
        (v, Err(refusal(v.state)))
    } else {
        let (held, outcome) = hold_extents(v, extents, failure, v.pending.len() as int);
        (reported(held), outcome)
    }
}

/// The reader of the samples once declared over, and what it reports, as
/// [`finish`](SampleReader::finish) has it
pub open spec fn samples_finished(v: ReaderView) -> (ReaderView, Result<(), SampleError>) {
    if v.state != ReaderState::Reading {
        (v, Err(refusal(v.state)))
    } else if v.pending.len() == 0 {
        (ReaderView { state: ReaderState::Finished, ..v }, Ok(()))
    } else {
        let short = v.pending[0];
        let failure = SampleError::UnfinishedSample {
            track_id: short.extent.track_id,
            needed: declared_len(short.extent) as u64,
            available: short.data.len() as u64,
        };
        (ReaderView { state: ReaderState::Failed(failure), ..v }, Err(failure))
    }
}

/// The samples and the timelines of the tracks once the fragment
/// `movie_fragment`, starting at `moof_start`, is resolved against `movie` and
/// its extents handed to the samples, and what comes of it
pub open spec fn fragment_resolved(
    samples: ReaderView,
    decode_times: Map<u32, u64>,
    movie_fragment: MovieFragmentBox,
    movie: MovieBox,
    moof_start: u64,
) -> (ReaderView, Map<u32, u64>, Result<(), SampleError>) {
    match settle_all(movie_fragment.track_fragments@, movie, decode_times) {
        Err(failure) => (samples, decode_times, Err(failure)),
        Ok((settled, reached)) => {
            let (extents, failure) = fragments_extents(movie_fragment.track_fragments@, settled, moof_start, None);
            let (held, outcome) = samples_held(samples, extents, failure);
            (held, reached, outcome)
        },
    }
}

/// Resolves the fragment `movie_fragment`, starting at `moof_start`, against
/// `movie`, and hands the extents of its samples to `samples`
pub fn resolve_fragment(
    samples: &mut SampleReader,
    decode_times: &mut TrackDecodeTimes,
    movie_fragment: &MovieFragmentBox,
    movie: &MovieBox,
    moof_start: u64,
) -> (result: Result<(), SampleError>)
    ensures
        (final(samples)@, final(decode_times)@, result) == fragment_resolved(
            old(samples)@,
            old(decode_times)@,
            *movie_fragment,
            *movie,
            moof_start,
        ),
{
    let extents = sample_extents(movie_fragment, movie, moof_start, decode_times)?;
    proof {
        let (settled, reached) = settle_all(movie_fragment.track_fragments@, *movie, old(decode_times)@)->Ok_0;
        let (views, failure) = fragments_extents(movie_fragment.track_fragments@, settled, moof_start, None);
        lemma_hold_items(samples@, extents@, views, failure, samples@.pending.len() as int);
    }
    samples.handle_sample_extents(extents)
}


/// Where among `trafs` the first track fragment stands that states no decode
/// time for a track whose timeline is not known, the timelines of the tracks
/// of `known` being known and those of the track fragments before it becoming so
pub open spec fn first_unknown(trafs: Seq<TrackFragmentBox>, known: Seq<u32>) -> Option<int>
    decreases trafs.len(),
{
    if trafs.len() == 0 {
        None
    } else if trafs[0].base_media_decode_time is None && !known.contains(trafs[0].tfhd.track_id) {
        Some(0)
    } else {
        match first_unknown(trafs.drop_first(), known.push(trafs[0].tfhd.track_id)) {
            Some(i) => Some(i + 1),
            None => None,
        }
    }
}

/// The tracks `trafs` belong to, in order
pub open spec fn traf_tracks(trafs: Seq<TrackFragmentBox>) -> Seq<u32> {
    trafs.map_values(|traf: TrackFragmentBox| traf.tfhd.track_id)
}

/// The failure settling `trafs` stops at, if any
pub open spec fn settle_failure(trafs: Seq<TrackFragmentBox>, movie: MovieBox, reached: Map<u32, u64>) -> Option<SampleError> {
    match settle_all(trafs, movie, reached) {
        Err(failure) => Some(failure),
        Ok(_) => None,
    }
}

/// The fragment `movie_fragment` resolved as [`fragment_resolved`] has it,
/// where the timelines of only the tracks of `known` are known, if `known` is
/// given: a track fragment stating no decode time for a track whose timeline
/// is not known is refused with
/// [`MissingDecodeTime`](SampleError::MissingDecodeTime) at its turn, the
/// failures of the track fragments before it coming first; otherwise the
/// tracks of the fragment become known
pub open spec fn fragment_resolved_known(
    samples: ReaderView,
    decode_times: Map<u32, u64>,
    known: Option<Seq<u32>>,
    movie_fragment: MovieFragmentBox,
    movie: MovieBox,
    moof_start: u64,
) -> (ReaderView, Map<u32, u64>, Option<Seq<u32>>, Result<(), SampleError>) {
    let trafs = movie_fragment.track_fragments@;
    match known {
        None => {
            let (held, reached, outcome) = fragment_resolved(samples, decode_times, movie_fragment, movie, moof_start);
            (held, reached, None, outcome)
        },
        Some(known) => match first_unknown(trafs, known) {
            Some(i) => (samples, decode_times, Some(known), Err(match settle_failure(trafs.take(i), movie, decode_times) {
                Some(failure) => failure,
                None => SampleError::MissingDecodeTime { track_id: trafs[i].tfhd.track_id },
            })),
            None => {
                let (held, reached, outcome) = fragment_resolved(samples, decode_times, movie_fragment, movie, moof_start);
                (held, reached, Some(known + traf_tracks(trafs)), outcome)
            },
        },
    }
}

/// Returns whether `track_id` is among `tracks`
fn holds_track(tracks: &Vec<u32>, track_id: u32) -> (held: bool)
    ensures
        held == tracks@.contains(track_id),
{
    let mut i: usize = 0;
    while i < tracks.len()
        invariant
            0 <= i <= tracks.len(),
            forall|j: int| 0 <= j < i ==> tracks@[j] != track_id,
        decreases tracks.len() - i,
    {
        if tracks[i] == track_id {
            assert(tracks@[i as int] == track_id);
            return true;
        }
        i = i + 1;
    }
    false
}

/// Returns where among the track fragments of `trafs` the first stands that
/// states no decode time for a track neither `known` nor a track fragment
/// before it holds, if one does
fn find_unknown(trafs: &Vec<TrackFragmentBox>, known: &Vec<u32>) -> (found: Option<usize>)
    ensures
        match first_unknown(trafs@, known@) {
            Some(i) => found == Some(i as usize),
            None => found is None,
        },
        found matches Some(i) ==> i < trafs@.len() && first_unknown(trafs@, known@) == Some(i as int),
{
    let mut seen: Vec<u32> = Vec::new();
    let mut k: usize = 0;
    while k < known.len()
        invariant
            0 <= k <= known.len(),
            seen@ == known@.take(k as int),
        decreases known.len() - k,
    {
        seen.push(known[k]);
        k = k + 1;
        assert(seen@ =~= known@.take(k as int));
    }
    assert(known@.take(k as int) =~= known@);
    let mut i: usize = 0;
    assert(trafs@.skip(0) =~= trafs@);
    while i < trafs.len()
        invariant
            0 <= i <= trafs.len(),
            first_unknown(trafs@, known@) == match first_unknown(trafs@.skip(i as int), seen@) {
                Some(j) => Some(j + i),
                None => None::<int>,
            },
        decreases trafs.len() - i,
    {
        let traf = &trafs[i];
        let track_id = traf.tfhd.track_id;
        let ghost rest = trafs@.skip(i as int);
        assert(rest[0] == trafs@[i as int]);
        assert(rest.drop_first() =~= trafs@.skip(i + 1));
        if traf.base_media_decode_time.is_none() && !holds_track(&seen, track_id) {
            return Some(i);
        }
        seen.push(track_id);
        i = i + 1;
    }
    None
}

/// Returns the failure settling the first `count` track fragments of `trafs` against `movie` stops at, if any, `decode_times` left as it was
fn settle_prefix(trafs: &Vec<TrackFragmentBox>, count: usize, movie: &MovieBox, decode_times: &TrackDecodeTimes) -> (failure: Option<SampleError>)
    requires
        count <= trafs@.len(),
    ensures
        failure == settle_failure(trafs@.take(count as int), *movie, decode_times@),
{
    let ghost prefix = trafs@.take(count as int);
    let mut times = decode_times.clone();
    let mut j: usize = 0;
    assert(prefix.skip(0) =~= prefix);
    while j < count
        invariant
            0 <= j <= count <= trafs@.len(),
            prefix == trafs@.take(count as int),
            settle_failure(prefix, *movie, decode_times@) == settle_failure(prefix.skip(j as int), *movie, times@),
        decreases count - j,
    {
        let ghost rest = prefix.skip(j as int);
        assert(rest[0] == trafs@[j as int]);
        assert(rest.drop_first() =~= prefix.skip(j + 1));
        match settle(&trafs[j], movie, &mut times) {
            Err(failure) => {
                return Some(failure);
            },
            Ok(_) => {},
        }
        j = j + 1;
    }
    assert(prefix.skip(j as int) =~= Seq::<TrackFragmentBox>::empty());
    None
}

/// Resolves the fragment `movie_fragment` as [`resolve_fragment`] does, the
/// timelines of only the tracks of `known` known where it is given, and adds
/// the tracks of the fragment to them
pub fn resolve_fragment_known(
    samples: &mut SampleReader,
    decode_times: &mut TrackDecodeTimes,
    known: &mut Option<Vec<u32>>,
    movie_fragment: &MovieFragmentBox,
    movie: &MovieBox,
    moof_start: u64,
) -> (result: Result<(), SampleError>)
    ensures
        (final(samples)@, final(decode_times)@, known_view(*final(known)), result) == fragment_resolved_known(
            old(samples)@,
            old(decode_times)@,
            known_view(*old(known)),
            *movie_fragment,
            *movie,
            moof_start,
        ),
{
    let trafs = &movie_fragment.track_fragments;
    let found = match &*known {
        None => {
            return resolve_fragment(samples, decode_times, movie_fragment, movie, moof_start);
        },
        Some(list) => find_unknown(trafs, list),
    };
    if let Some(i) = found {
        let failure = settle_prefix(trafs, i, movie, decode_times);
        let track_id = trafs[i].tfhd.track_id;
        proof {
            let held = known_view(*known)->0;
            assert(first_unknown(movie_fragment.track_fragments@, held) == Some(i as int));
            assert(movie_fragment.track_fragments@[i as int].tfhd.track_id == track_id);
        }
        return match failure {
            Some(failure) => Err(failure),
            None => Err(SampleError::MissingDecodeTime { track_id }),
        };
    }
    let resolved = resolve_fragment(samples, decode_times, movie_fragment, movie, moof_start);
    match known {
        Some(list) => {
            let ghost before = list@;
            let mut t: usize = 0;
            while t < trafs.len()
                invariant
                    0 <= t <= trafs.len(),
                    list@ == before + traf_tracks(trafs@).take(t as int),
                decreases trafs.len() - t,
            {
                list.push(trafs[t].tfhd.track_id);
                t = t + 1;
                assert(list@ =~= before + traf_tracks(trafs@).take(t as int));
            }
            assert(traf_tracks(trafs@).take(t as int) =~= traf_tracks(trafs@));
        },
        None => {},
    }
    resolved
}

/// The tracks whose timelines are known, as the list of them is held
pub open spec fn known_view(known: Option<Vec<u32>>) -> Option<Seq<u32>> {
    match known {
        Some(list) => Some(list@),
        None => None,
    }
}

/// Extents held without a failure leave the reader of the samples standing as it stood
pub proof fn lemma_held_keeps_state(v: ReaderView, extents: Seq<SampleExtentView>, failure: Option<SampleError>, first: int)
    ensures
        hold_extents(v, extents, failure, first).1 is Ok ==> hold_extents(v, extents, failure, first).0.state == v.state,
    decreases extents.len(),
{
    if extents.len() > 0 {
        let e = extents[0];
        if declared_len(e) <= v.limit {
            lemma_held_keeps_state(
                ReaderView { pending: insert_in_order(v.pending, first, PendingView { extent: e, data: Seq::empty() }), ..v },
                extents.drop_first(),
                failure,
                first,
            );
        }
    }
}

/// Resolving a fragment without a failure leaves the samples taking input as they did
pub proof fn lemma_resolved_keeps_state(samples: ReaderView, decode_times: Map<u32, u64>, movie_fragment: MovieFragmentBox, movie: MovieBox, start: u64)
    requires
        samples.state == ReaderState::Reading,
    ensures
        fragment_resolved(samples, decode_times, movie_fragment, movie, start).2 is Ok ==> fragment_resolved(
            samples,
            decode_times,
            movie_fragment,
            movie,
            start,
        ).0.state == ReaderState::Reading,
{
    match settle_all(movie_fragment.track_fragments@, movie, decode_times) {
        Err(_) => {},
        Ok((settled, _)) => {
            let (extents, failure) = fragments_extents(movie_fragment.track_fragments@, settled, start, None);
            lemma_held_keeps_state(samples, extents, failure, samples.pending.len() as int);
        },
    }
}

/// What reading one event comes to
pub enum Step {
    /// Read; the next event is to be read
    Next,
    /// A box was gathered whole: its kind, header and payload, to be read into a value
    Gathered(ValueKind, BoxHeader, Seq<u8>),
    /// The reader failed
    Failed(StackError),
}


/// The framing once events up to `taken` were taken from it
pub open spec fn taken_to(boxes: FramingView, taken: nat) -> FramingView {
    if taken == boxes.taken {
        boxes
    } else {
        FramingView {
            taken,
            event_extent: Some((boxes.made[taken - 1].0, boxes.made[taken - 1].1)),
            ..boxes
        }
    }
}


/// Whether `result` is what reading came to in `step`
pub open spec fn reports(result: Result<Option<GatheredBox>, StackError>, step: Step) -> bool {
    match step {
        Step::Next => result == Ok::<Option<GatheredBox>, StackError>(None),
        Step::Gathered(kind, header, payload) => result matches Ok(Some(gathered)) && gathered.kind == kind
            && gathered.header == header && gathered.payload@ == payload,
        Step::Failed(failure) => result == Err::<Option<GatheredBox>, StackError>(failure),
    }
}


/// The framing of the file once declared over, and what it reports, as
/// [`BoxReader::finish`] has it
pub open spec fn framing_finished(b: FramingView) -> (FramingView, Result<(), crate::sequence::error::Error>) {
    match b.phase {
        ReaderPhase::Failed(failure) => (b, Err(failure)),
        ReaderPhase::Finished => (b, Err(crate::sequence::error::Error::AlreadyFinished)),
        ReaderPhase::Gathering(gathered) => if gathered.len() == 0 {
            (FramingView { phase: ReaderPhase::Finished, ..b }, Ok(()))
        } else {
            let failure = crate::sequence::error::Error::UnfinishedHeader {
                needed: header_reach(gathered),
                available: gathered.len() as u64,
            };
            (FramingView { phase: ReaderPhase::Failed(failure), ..b }, Err(failure))
        },
        ReaderPhase::Passing { header, remaining } => if remaining is Some && remaining->0 != 0 {
            let total = header.spec_size().spec_total_bytes()->0;
            let failure = crate::sequence::error::Error::UnfinishedBox { needed: total, available: (total - remaining->0) as u64 };
            (FramingView { phase: ReaderPhase::Failed(failure), ..b }, Err(failure))
        } else {
            let end = b.input.len() as int;
            (FramingView { phase: ReaderPhase::Finished, made: b.made.push((end, end, EventView::End)), ..b }, Ok(()))
        },
    }
}

/// The framing as it stood before the reader took events from it since `before`
pub open spec fn untaken(after: FramingView, before: FramingView) -> FramingView {
    FramingView { taken: before.taken, event_extent: before.event_extent, ..after }
}

/// The failure of the framing kept for after the events it made, if it failed
pub open spec fn framing_failure(b: FramingView) -> Option<StackError> {
    match b.phase {
        ReaderPhase::Failed(failure) => Some(StackError::Sequence(failure)),
        _ => None,
    }
}



/// The framing of the output once `event` is handed to it, and what it
/// reports, as [`BoxWriter::handle_event`] has it
pub open spec fn framed_event(b: WriterView, event: EventView) -> (WriterView, Result<(), SequenceError>) {
    if b.phase is Failed || b.phase is Finished {
        (b, Err(outcome(b.phase, event)->Err_0))
    } else {
        match outcome(b.phase, event) {
            Ok(next) => {
                let at = b.output.len() as int;
                let bytes = event_bytes(event);
                (
                    WriterView {
                        phase: next,
                        output: b.output + bytes,
                        made: b.made.push((at, at + bytes.len(), event)),
                        event_extent: Some((at, at + bytes.len())),
                        ..b
                    },
                    Ok(()),
                )
            },
            Err(failure) => (WriterView { phase: WriterPhase::Failed(failure), ..b }, Err(failure)),
        }
    }
}

/// The header a box of type `box_type` carrying `len` bytes of payload is laid down with
pub open spec fn header_of(box_type: FourCC, len: nat) -> BoxHeader {
    choose|header: BoxHeader|
        header.spec_box_type() == BoxType::Compact(box_type) && header.spec_size() == size_for(BoxType::Compact(box_type), len)->0
}

/// The length of the header a box of a four-character type carrying
/// `payload_len` bytes is laid down with: eight bytes where its total fits the
/// compact size field, sixteen where it takes the extended one
pub open spec fn box_header_len(payload_len: nat) -> nat {
    if 8 + payload_len <= u32::MAX {
        8
    } else {
        16
    }
}

/// Where the media data of a fragment starts, counted from the first byte of
/// its `moof`: past the `moof`, carrying `moof_payload_len` bytes, and past the
/// header of the `mdat` carrying the `media_data_len` bytes of the media data
/// right after it — the anchor `default-base-is-moof` sets, §8.8.7.1
pub open spec fn media_data_offset(moof_payload_len: nat, media_data_len: nat) -> nat {
    box_header_len(moof_payload_len) + moof_payload_len + box_header_len(media_data_len)
}

/// The header a box is laid down with is as long as [`box_header_len`] says
pub proof fn lemma_header_of_len(box_type: FourCC, len: nat)
    requires
        size_for(BoxType::Compact(box_type), len) is Some,
    ensures
        header_of(box_type, len).spec_len() == box_header_len(len),
{
    lemma_size_for_header(BoxType::Compact(box_type), len);
}

/// Returns where the media data of a fragment starts, counted from the first
/// byte of its `moof`, the payload of the `moof` being `moof_payload_len`
/// bytes long and the media data `media_data_len`; the largest offset 64 bits
/// carry where it lies past them
///
/// A `moof` is as long whatever offsets its runs state, so its payload written
/// with every offset zero measures where the media data of the fragment starts.
pub fn media_data_base(moof_payload_len: u64, media_data_len: u64) -> (base: u64)
    ensures
        base == if media_data_offset(moof_payload_len as nat, media_data_len as nat) <= u64::MAX {
            media_data_offset(moof_payload_len as nat, media_data_len as nat)
        } else {
            u64::MAX as nat
        },
{
    let moof_header: u64 = if moof_payload_len <= 0xFFFF_FFFF - 8 { 8 } else { 16 };
    let mdat_header: u64 = if media_data_len <= 0xFFFF_FFFF - 8 { 8 } else { 16 };
    moof_header.saturating_add(moof_payload_len).saturating_add(mdat_header)
}

/// The framing of the output once a box of type `box_type` carrying `payload`
/// is laid down whole: its header, its payload where it has any, and its end
pub open spec fn framed_box(b: WriterView, box_type: FourCC, payload: Seq<u8>) -> (WriterView, Result<(), SequenceError>) {
    let (opened, begun) = framed_event(b, EventView::Header(header_of(box_type, payload.len())));
    if begun is Err {
        (opened, begun)
    } else {
        let (carried, passed) = if payload.len() > 0 {
            framed_event(opened, EventView::Payload(payload))
        } else {
            (opened, Ok(()))
        };
        if passed is Err {
            (carried, passed)
        } else {
            framed_event(carried, EventView::End)
        }
    }
}

/// Lays a box of type `box_type` carrying `payload` down whole through `boxes`
pub fn write_box(boxes: &mut BoxWriter, box_type: FourCC, payload: Vec<u8>) -> (result: Result<(), SequenceError>)
    requires
        old(boxes).wf(),
        old(boxes)@.output.len() + payload@.len() + 32 <= u64::MAX,
    ensures
        final(boxes).wf(),
        (final(boxes)@, result) == framed_box(old(boxes)@, box_type, payload@),
{
    let len = payload.len() as u64;
    let header = match BoxHeader::with_payload_len(BoxType::Compact(box_type), len) {
        Some(header) => header,
        None => {
            proof {
                assert(false);
            }
            return Err(SequenceError::AlreadyFinished);
        },
    };
    proof {
        let chosen = header_of(box_type, payload@.len());
        assert(exists|h: BoxHeader|
            h.spec_box_type() == BoxType::Compact(box_type) && h.spec_size() == size_for(BoxType::Compact(box_type), payload@.len())->0);
        lemma_header_is_its_fields(header, chosen);
        lemma_type_of_encoding(header, Seq::empty());
        assert(header.spec_len() <= 32);
    }
    let ghost b0 = boxes@;
    let ghost bytes = payload@;
    let ghost opening = framed_event(b0, EventView::Header(header));
    match boxes.handle_event(BoxEvent::Header(header)) {
        Ok(()) => {},
        Err(failure) => {
            return Err(failure);
        },
    }
    assert(boxes@ == opening.0);
    let ghost b1 = boxes@;
    if payload.len() > 0 {
        match boxes.handle_event(BoxEvent::Payload(payload)) {
            Ok(()) => {},
            Err(failure) => {
                return Err(failure);
            },
        }
        assert(boxes@ == framed_event(b1, EventView::Payload(bytes)).0);
    }
    let ghost b2 = boxes@;
    match boxes.handle_event(BoxEvent::End) {
        Ok(()) => Ok(()),
        Err(failure) => Err(failure),
    }
}


/// Laying a box down adds no more than its payload and its header to the output
pub proof fn lemma_framed_box_grows(b: WriterView, box_type: FourCC, payload: Seq<u8>)
    ensures
        framed_box(b, box_type, payload).0.output.len() <= b.output.len() + payload.len() + 32,
{
    let header = header_of(box_type, payload.len());
    lemma_type_of_encoding(header, Seq::empty());
}


/// The framing once the file is declared over, and what it reports, as [`BoxWriter::finish`] has it
pub open spec fn framing_closed(b: WriterView) -> (WriterView, Result<(), SequenceError>) {
    match b.phase {
        WriterPhase::Failed(failure) => (b, Err(failure)),
        WriterPhase::Finished => (b, Err(SequenceError::AlreadyFinished)),
        WriterPhase::Writing { header, written } => if header.spec_payload_len() is Some && written < header.spec_payload_len()->0 {
            (WriterView { phase: WriterPhase::Failed(unfinished_failure(header, written)), ..b }, Err(unfinished_failure(header, written)))
        } else {
            (WriterView { phase: WriterPhase::Finished, ..b }, Ok(()))
        },
        _ => (WriterView { phase: WriterPhase::Finished, ..b }, Ok(())),
    }
}

/// What a failure of a reader or a writer of a file says, written out
pub open spec fn stack_error_text(failure: StackError) -> Seq<char> {
    match failure {
        StackError::BoxOutOfOrder { box_type } => fourcc_text(box_type) + " box arrived where the file may not hold it"@,
        StackError::DuplicateBox { box_type } => fourcc_text(box_type) + " box arrived a second time"@,
        StackError::MissingMandatoryBox { box_type } => "file was declared over without a "@ + fourcc_text(box_type) + " box"@,
        StackError::PayloadLimitExceeded { box_type, limit } => fourcc_text(box_type) + " box carries more than the "@ + decimal(limit as nat) + " bytes of payload a box read into a value may"@,
        StackError::Sequence(inner) => "framing: "@ + sequence_error_text(inner),
        StackError::Box(inner) => "box: "@ + box_error_text(inner),
        StackError::Sample(inner) => "samples: "@ + sample_error_text(inner),
        StackError::AlreadyFinished => "file was declared over and takes nothing more"@,
    }
}

impl StackError {
    /// Returns the failure written out as a reader takes it in
    pub fn message(&self) -> (text: String)
        ensures
            text@ == stack_error_text(*self),
    {
        match *self {
            StackError::BoxOutOfOrder { box_type } => {
                let mut text = String::new();
                push_fourcc(&mut text, box_type);
                proof {
                    assert(Seq::<char>::empty() + fourcc_text(box_type) =~= fourcc_text(box_type));
                }
                text.append(" box arrived where the file may not hold it");
                text
            },
            StackError::DuplicateBox { box_type } => {
                let mut text = String::new();
                push_fourcc(&mut text, box_type);
                proof {
                    assert(Seq::<char>::empty() + fourcc_text(box_type) =~= fourcc_text(box_type));
                }
                text.append(" box arrived a second time");
                text
            },
            StackError::MissingMandatoryBox { box_type } => {
                let mut text = String::from_str("file was declared over without a ");
                push_fourcc(&mut text, box_type);
                text.append(" box");
                text
            },
            StackError::PayloadLimitExceeded { box_type, limit } => {
                let mut text = String::new();
                push_fourcc(&mut text, box_type);
                proof {
                    assert(Seq::<char>::empty() + fourcc_text(box_type) =~= fourcc_text(box_type));
                }
                text.append(" box carries more than the ");
                push_decimal(&mut text, limit as u64);
                text.append(" bytes of payload a box read into a value may");
                text
            },
            StackError::Sequence(inner) => {
                let mut text = String::from_str("framing: ");
                let inner = inner.message();
                text.append(inner.as_str());
                text
            },
            StackError::Box(inner) => {
                let mut text = String::from_str("box: ");
                let inner = inner.message();
                text.append(inner.as_str());
                text
            },
            StackError::Sample(inner) => {
                let mut text = String::from_str("samples: ");
                let inner = inner.message();
                text.append(inner.as_str());
                text
            },
            StackError::AlreadyFinished => {
                let mut text = String::from_str("file was declared over and takes nothing more");
                text
            },
        }
    }
}

} // verus!

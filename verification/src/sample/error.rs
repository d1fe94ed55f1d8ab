//! [`SampleError`], the reason the samples of a presentation do not resolve, gather or lay down

use vstd::prelude::*;
use vstd::string::StringExecFns;
use crate::bytes::box_error_text;
use crate::bytes::{box_debug_text, box_kind_name, category_name, push_box_kind_name, push_category_name};
use crate::text::{decimal, hex, push_decimal, push_hex, push_signed, signed_decimal};

use crate::bytes::{BoxError, BoxErrorKind, Category};

verus! {

/// Failure of resolving, gathering or laying down the samples of a presentation
///
/// What went wrong is one [`kind`](Self::kind): a failure of the samples
/// themselves, or a failure of one box, carried through whole as
/// [`Box`](Self::Box). What a caller does about either is one
/// [`category`](Self::category), and the values each failure carries are
/// read one at a time by the accessors, `None` where its kind carries no such
/// value.
#[derive(Clone, Copy, PartialEq, Eq, Debug, Structural)]
pub enum SampleError {
    /// A box does not read or write as the format has it, carried through whole
    Box(BoxError),
    /// A decode time runs past what 64 bits carry
    DecodeTimeOverflow { track_id: u32 },
    /// A data offset runs past what 64 bits carry
    DataOffsetOverflow { track_id: u32 },
    /// A presentation time of an index runs past what 64 bits carry
    PresentationTimeOverflow { reference_id: u32 },
    /// A fragment names a track the movie does not declare
    UnknownTrackId { track_id: u32 },
    /// A sample names a description its track has none of
    UnknownSampleDescriptionIndex { track_id: u32, sample_description_index: u32 },
    /// A movie carrying no extends box is not fragmented at all
    MissingMovieExtends,
    /// A description names a data reference its track has none of
    UnknownDataReferenceIndex { track_id: u32, data_reference_index: u16 },
    /// A description reads its samples from another file
    ExternalDataReference { track_id: u32, data_reference_index: u16 },
    /// The tables of a track count their samples apart
    SampleCountMismatch { track_id: u32 },
    /// A run of chunks starts where no chunk of the track is
    FirstChunkOutOfRange { track_id: u32, first_chunk: u32 },
    /// A sync sample is numbered past the samples of its track
    SyncSampleOutOfRange { track_id: u32, sample_number: u32 },
    /// A sample names more bytes than the limit allows
    SampleSizeLimitExceeded { track_id: u32, declared: u64, limit: u64 },
    /// The samples were declared over with one short of its bytes
    UnfinishedSample { track_id: u32, needed: u64, available: u64 },
    /// Something was handed over after the samples were declared over
    AlreadyFinished,
    /// A sample or a close came while no fragment is open
    NoFragmentOpen,
    /// A fragment was begun or the samples declared over while one is open
    FragmentStillOpen,
    /// A sample holds more bytes than its size field carries
    SampleSizeOutOfRange { track_id: u32, declared: u64 },
    /// A data offset lies past what its field carries
    DataOffsetOutOfRange { track_id: u32, offset: u64 },
    /// A composition time offset lies past what its field carries
    CompositionTimeOffsetOutOfRange { track_id: u32, offset: i64 },
    /// A sample does not start where the one before it ends
    DecodeTimeMismatch { track_id: u32, stated: u64, reached: u64 },
    /// A track goes back to a decode time it passed
    BackwardDecodeTime { track_id: u32, stated: u64, reached: u64 },
    /// Samples of one fragment or one chunk are described by two entries
    SampleDescriptionIndexMismatch { track_id: u32, stated: u32, established: u32 },
    /// A sample came while no chunk is open
    NoChunkOpen,
    /// A sample belongs to another track than the open chunk holds
    TrackIdMismatch { stated: u32, established: u32 },
    /// A sample states a composition time offset no sample table written here carries
    UnsupportedCompositionTimeOffset { track_id: u32, offset: i64 },
    /// A sample states flags no sample table written here carries
    UnsupportedSampleFlags { track_id: u32, sample_flags: u32 },
    /// A fragment runs past what the boxes it is written as carry
    FragmentNotRepresentable,
    /// A track fragment of `track_id` states no decode time where the timeline of its track is not known
    MissingDecodeTime { track_id: u32 },
}

/// Kind of a [`SampleError`], the situation without the values
#[derive(Clone, Copy, PartialEq, Eq, Debug, Structural)]
pub enum SampleErrorKind {
    /// A box does not read or write as the format has it, carried through whole
    Box(BoxErrorKind),
    /// A decode time runs past what 64 bits carry
    DecodeTimeOverflow,
    /// A data offset runs past what 64 bits carry
    DataOffsetOverflow,
    /// A presentation time of an index runs past what 64 bits carry
    PresentationTimeOverflow,
    /// A fragment names a track the movie does not declare
    UnknownTrackId,
    /// A sample names a description its track has none of
    UnknownSampleDescriptionIndex,
    /// A movie carrying no extends box is not fragmented at all
    MissingMovieExtends,
    /// A description names a data reference its track has none of
    UnknownDataReferenceIndex,
    /// A description reads its samples from another file
    ExternalDataReference,
    /// The tables of a track count their samples apart
    SampleCountMismatch,
    /// A run of chunks starts where no chunk of the track is
    FirstChunkOutOfRange,
    /// A sync sample is numbered past the samples of its track
    SyncSampleOutOfRange,
    /// A sample names more bytes than the limit allows
    SampleSizeLimitExceeded,
    /// The samples were declared over with one short of its bytes
    UnfinishedSample,
    /// Something was handed over after the samples were declared over
    AlreadyFinished,
    /// A sample or a close came while no fragment is open
    NoFragmentOpen,
    /// A fragment was begun or the samples declared over while one is open
    FragmentStillOpen,
    /// A sample holds more bytes than its size field carries
    SampleSizeOutOfRange,
    /// A data offset lies past what its field carries
    DataOffsetOutOfRange,
    /// A composition time offset lies past what its field carries
    CompositionTimeOffsetOutOfRange,
    /// A sample does not start where the one before it ends
    DecodeTimeMismatch,
    /// A track goes back to a decode time it passed
    BackwardDecodeTime,
    /// Samples of one fragment or one chunk are described by two entries
    SampleDescriptionIndexMismatch,
    /// A sample came while no chunk is open
    NoChunkOpen,
    /// A sample belongs to another track than the open chunk holds
    TrackIdMismatch,
    /// A sample states a composition time offset no sample table written here carries
    UnsupportedCompositionTimeOffset,
    /// A sample states flags no sample table written here carries
    UnsupportedSampleFlags,
    /// A fragment runs past what the boxes it is written as carry
    FragmentNotRepresentable,
    /// A track fragment states no decode time where the timeline of its track is not known
    MissingDecodeTime,
}

/// The values a [`SampleError`] carries, laid flat, with `None` where its kind carries no such value
#[derive(Clone, Copy, PartialEq, Eq, Debug, Structural)]
pub struct ErrorFields {
    /// The failure of one box, carried through whole
    pub box_error: Option<BoxError>,
    /// The track the failure concerns
    pub track_id: Option<u32>,
    /// The track the open chunk holds
    pub established_track_id: Option<u32>,
    /// The sample description a sample names
    pub sample_description_index: Option<u32>,
    /// The sample description established before
    pub established_sample_description_index: Option<u32>,
    /// The data reference a description names
    pub data_reference_index: Option<u16>,
    /// The chunk a run of chunks starts at
    pub first_chunk: Option<u32>,
    /// The sample numbered
    pub sample_number: Option<u32>,
    /// The bytes needed or declared
    pub needed_bytes: Option<u64>,
    /// The bytes available, or the limit
    pub available_bytes: Option<u64>,
    /// The decode time stated
    pub stated_decode_time: Option<u64>,
    /// The decode time reached
    pub reached_decode_time: Option<u64>,
    /// The data offset
    pub data_offset: Option<u64>,
    /// The composition time offset
    pub composition_time_offset: Option<i64>,
    /// The sample flags
    pub sample_flags: Option<u32>,
}

/// The values of a failure that carries none
pub open spec fn no_fields() -> ErrorFields {
    ErrorFields { box_error: None, track_id: None, established_track_id: None, sample_description_index: None, established_sample_description_index: None, data_reference_index: None, first_chunk: None, sample_number: None, needed_bytes: None, available_bytes: None, stated_decode_time: None, reached_decode_time: None, data_offset: None, composition_time_offset: None, sample_flags: None }
}

impl SampleError {
    /// Returns the failure: a decode time runs past what 64 bits carry
    pub fn decode_time_overflow(track_id: u32) -> (error: Self)
        ensures
            error == (SampleError::DecodeTimeOverflow { track_id }),
    {
        SampleError::DecodeTimeOverflow { track_id }
    }

    /// Returns the failure: a data offset runs past what 64 bits carry
    pub fn data_offset_overflow(track_id: u32) -> (error: Self)
        ensures
            error == (SampleError::DataOffsetOverflow { track_id }),
    {
        SampleError::DataOffsetOverflow { track_id }
    }

    /// Returns the failure: a presentation time of an index runs past what 64 bits carry
    pub fn presentation_time_overflow(reference_id: u32) -> (error: Self)
        ensures
            error == (SampleError::PresentationTimeOverflow { reference_id }),
    {
        SampleError::PresentationTimeOverflow { reference_id }
    }

    /// Returns the failure: a fragment names a track the movie does not declare
    pub fn unknown_track_id(track_id: u32) -> (error: Self)
        ensures
            error == (SampleError::UnknownTrackId { track_id }),
    {
        SampleError::UnknownTrackId { track_id }
    }

    /// Returns the failure: a sample names a description its track has none of
    pub fn unknown_sample_description_index(track_id: u32, sample_description_index: u32) -> (error: Self)
        ensures
            error == (SampleError::UnknownSampleDescriptionIndex { track_id, sample_description_index }),
    {
        SampleError::UnknownSampleDescriptionIndex { track_id, sample_description_index }
    }

    /// Returns the failure: a movie carrying no extends box is not fragmented at all
    pub fn missing_movie_extends() -> (error: Self)
        ensures
            error == (SampleError::MissingMovieExtends),
    {
        SampleError::MissingMovieExtends
    }

    /// Returns the failure: a description names a data reference its track has none of
    pub fn unknown_data_reference_index(track_id: u32, data_reference_index: u16) -> (error: Self)
        ensures
            error == (SampleError::UnknownDataReferenceIndex { track_id, data_reference_index }),
    {
        SampleError::UnknownDataReferenceIndex { track_id, data_reference_index }
    }

    /// Returns the failure: a description reads its samples from another file
    pub fn external_data_reference(track_id: u32, data_reference_index: u16) -> (error: Self)
        ensures
            error == (SampleError::ExternalDataReference { track_id, data_reference_index }),
    {
        SampleError::ExternalDataReference { track_id, data_reference_index }
    }

    /// Returns the failure: the tables of a track count their samples apart
    pub fn sample_count_mismatch(track_id: u32) -> (error: Self)
        ensures
            error == (SampleError::SampleCountMismatch { track_id }),
    {
        SampleError::SampleCountMismatch { track_id }
    }

    /// Returns the failure: a run of chunks starts where no chunk of the track is
    pub fn first_chunk_out_of_range(track_id: u32, first_chunk: u32) -> (error: Self)
        ensures
            error == (SampleError::FirstChunkOutOfRange { track_id, first_chunk }),
    {
        SampleError::FirstChunkOutOfRange { track_id, first_chunk }
    }

    /// Returns the failure: a sync sample is numbered past the samples of its track
    pub fn sync_sample_out_of_range(track_id: u32, sample_number: u32) -> (error: Self)
        ensures
            error == (SampleError::SyncSampleOutOfRange { track_id, sample_number }),
    {
        SampleError::SyncSampleOutOfRange { track_id, sample_number }
    }

    /// Returns the failure: a sample names more bytes than the limit allows
    pub fn sample_size_limit_exceeded(track_id: u32, declared: u64, limit: u64) -> (error: Self)
        ensures
            error == (SampleError::SampleSizeLimitExceeded { track_id, declared, limit }),
    {
        SampleError::SampleSizeLimitExceeded { track_id, declared, limit }
    }

    /// Returns the failure: the samples were declared over with one short of its bytes
    pub fn unfinished_sample(track_id: u32, needed: u64, available: u64) -> (error: Self)
        ensures
            error == (SampleError::UnfinishedSample { track_id, needed, available }),
    {
        SampleError::UnfinishedSample { track_id, needed, available }
    }

    /// Returns the failure: something was handed over after the samples were declared over
    pub fn already_finished() -> (error: Self)
        ensures
            error == (SampleError::AlreadyFinished),
    {
        SampleError::AlreadyFinished
    }

    /// Returns the failure: a sample or a close came while no fragment is open
    pub fn no_fragment_open() -> (error: Self)
        ensures
            error == (SampleError::NoFragmentOpen),
    {
        SampleError::NoFragmentOpen
    }

    /// Returns the failure: a fragment was begun or the samples declared over while one is open
    pub fn fragment_still_open() -> (error: Self)
        ensures
            error == (SampleError::FragmentStillOpen),
    {
        SampleError::FragmentStillOpen
    }

    /// Returns the failure: a sample holds more bytes than its size field carries
    pub fn sample_size_out_of_range(track_id: u32, declared: u64) -> (error: Self)
        ensures
            error == (SampleError::SampleSizeOutOfRange { track_id, declared }),
    {
        SampleError::SampleSizeOutOfRange { track_id, declared }
    }

    /// Returns the failure: a data offset lies past what its field carries
    pub fn data_offset_out_of_range(track_id: u32, offset: u64) -> (error: Self)
        ensures
            error == (SampleError::DataOffsetOutOfRange { track_id, offset }),
    {
        SampleError::DataOffsetOutOfRange { track_id, offset }
    }

    /// Returns the failure: a composition time offset lies past what its field carries
    pub fn composition_time_offset_out_of_range(track_id: u32, offset: i64) -> (error: Self)
        ensures
            error == (SampleError::CompositionTimeOffsetOutOfRange { track_id, offset }),
    {
        SampleError::CompositionTimeOffsetOutOfRange { track_id, offset }
    }

    /// Returns the failure: a sample does not start where the one before it ends
    pub fn decode_time_mismatch(track_id: u32, stated: u64, reached: u64) -> (error: Self)
        ensures
            error == (SampleError::DecodeTimeMismatch { track_id, stated, reached }),
    {
        SampleError::DecodeTimeMismatch { track_id, stated, reached }
    }

    /// Returns the failure: a track goes back to a decode time it passed
    pub fn backward_decode_time(track_id: u32, stated: u64, reached: u64) -> (error: Self)
        ensures
            error == (SampleError::BackwardDecodeTime { track_id, stated, reached }),
    {
        SampleError::BackwardDecodeTime { track_id, stated, reached }
    }

    /// Returns the failure: samples of one fragment or one chunk are described by two entries
    pub fn sample_description_index_mismatch(track_id: u32, stated: u32, established: u32) -> (error: Self)
        ensures
            error == (SampleError::SampleDescriptionIndexMismatch { track_id, stated, established }),
    {
        SampleError::SampleDescriptionIndexMismatch { track_id, stated, established }
    }

    /// Returns the failure: a sample came while no chunk is open
    pub fn no_chunk_open() -> (error: Self)
        ensures
            error == (SampleError::NoChunkOpen),
    {
        SampleError::NoChunkOpen
    }

    /// Returns the failure: a sample belongs to another track than the open chunk holds
    pub fn track_id_mismatch(stated: u32, established: u32) -> (error: Self)
        ensures
            error == (SampleError::TrackIdMismatch { stated, established }),
    {
        SampleError::TrackIdMismatch { stated, established }
    }

    /// Returns the failure: a sample states a composition time offset no sample table written here carries
    pub fn unsupported_composition_time_offset(track_id: u32, offset: i64) -> (error: Self)
        ensures
            error == (SampleError::UnsupportedCompositionTimeOffset { track_id, offset }),
    {
        SampleError::UnsupportedCompositionTimeOffset { track_id, offset }
    }

    /// Returns the failure: a sample states flags no sample table written here carries
    pub fn unsupported_sample_flags(track_id: u32, sample_flags: u32) -> (error: Self)
        ensures
            error == (SampleError::UnsupportedSampleFlags { track_id, sample_flags }),
    {
        SampleError::UnsupportedSampleFlags { track_id, sample_flags }
    }

    /// Returns the failure: a fragment runs past what the boxes it is written as carry
    pub fn fragment_not_representable() -> (error: Self)
        ensures
            error == (SampleError::FragmentNotRepresentable),
    {
        SampleError::FragmentNotRepresentable
    }

    /// Returns the failure: a track fragment of `track_id` states no decode time where the timeline of its track is not known
    pub fn missing_decode_time(track_id: u32) -> (error: Self)
        ensures
            error == (SampleError::MissingDecodeTime { track_id }),
    {
        SampleError::MissingDecodeTime { track_id }
    }

    /// The kind of the failure
    pub open spec fn spec_kind(self) -> SampleErrorKind {
        match self {
            SampleError::Box(box_error) => SampleErrorKind::Box(box_error.spec_kind()),
            SampleError::DecodeTimeOverflow { .. } => SampleErrorKind::DecodeTimeOverflow,
            SampleError::DataOffsetOverflow { .. } => SampleErrorKind::DataOffsetOverflow,
            SampleError::PresentationTimeOverflow { .. } => SampleErrorKind::PresentationTimeOverflow,
            SampleError::UnknownTrackId { .. } => SampleErrorKind::UnknownTrackId,
            SampleError::UnknownSampleDescriptionIndex { .. } => SampleErrorKind::UnknownSampleDescriptionIndex,
            SampleError::MissingMovieExtends => SampleErrorKind::MissingMovieExtends,
            SampleError::UnknownDataReferenceIndex { .. } => SampleErrorKind::UnknownDataReferenceIndex,
            SampleError::ExternalDataReference { .. } => SampleErrorKind::ExternalDataReference,
            SampleError::SampleCountMismatch { .. } => SampleErrorKind::SampleCountMismatch,
            SampleError::FirstChunkOutOfRange { .. } => SampleErrorKind::FirstChunkOutOfRange,
            SampleError::SyncSampleOutOfRange { .. } => SampleErrorKind::SyncSampleOutOfRange,
            SampleError::SampleSizeLimitExceeded { .. } => SampleErrorKind::SampleSizeLimitExceeded,
            SampleError::UnfinishedSample { .. } => SampleErrorKind::UnfinishedSample,
            SampleError::AlreadyFinished => SampleErrorKind::AlreadyFinished,
            SampleError::NoFragmentOpen => SampleErrorKind::NoFragmentOpen,
            SampleError::FragmentStillOpen => SampleErrorKind::FragmentStillOpen,
            SampleError::SampleSizeOutOfRange { .. } => SampleErrorKind::SampleSizeOutOfRange,
            SampleError::DataOffsetOutOfRange { .. } => SampleErrorKind::DataOffsetOutOfRange,
            SampleError::CompositionTimeOffsetOutOfRange { .. } => SampleErrorKind::CompositionTimeOffsetOutOfRange,
            SampleError::DecodeTimeMismatch { .. } => SampleErrorKind::DecodeTimeMismatch,
            SampleError::BackwardDecodeTime { .. } => SampleErrorKind::BackwardDecodeTime,
            SampleError::SampleDescriptionIndexMismatch { .. } => SampleErrorKind::SampleDescriptionIndexMismatch,
            SampleError::NoChunkOpen => SampleErrorKind::NoChunkOpen,
            SampleError::TrackIdMismatch { .. } => SampleErrorKind::TrackIdMismatch,
            SampleError::UnsupportedCompositionTimeOffset { .. } => SampleErrorKind::UnsupportedCompositionTimeOffset,
            SampleError::UnsupportedSampleFlags { .. } => SampleErrorKind::UnsupportedSampleFlags,
            SampleError::FragmentNotRepresentable => SampleErrorKind::FragmentNotRepresentable,
            SampleError::MissingDecodeTime { .. } => SampleErrorKind::MissingDecodeTime,
        }
    }

    /// Returns the kind of the failure
    pub fn kind(self) -> (kind: SampleErrorKind)
        ensures
            kind == self.spec_kind(),
    {
        match self {
            SampleError::Box(box_error) => SampleErrorKind::Box(box_error.kind()),
            SampleError::DecodeTimeOverflow { .. } => SampleErrorKind::DecodeTimeOverflow,
            SampleError::DataOffsetOverflow { .. } => SampleErrorKind::DataOffsetOverflow,
            SampleError::PresentationTimeOverflow { .. } => SampleErrorKind::PresentationTimeOverflow,
            SampleError::UnknownTrackId { .. } => SampleErrorKind::UnknownTrackId,
            SampleError::UnknownSampleDescriptionIndex { .. } => SampleErrorKind::UnknownSampleDescriptionIndex,
            SampleError::MissingMovieExtends => SampleErrorKind::MissingMovieExtends,
            SampleError::UnknownDataReferenceIndex { .. } => SampleErrorKind::UnknownDataReferenceIndex,
            SampleError::ExternalDataReference { .. } => SampleErrorKind::ExternalDataReference,
            SampleError::SampleCountMismatch { .. } => SampleErrorKind::SampleCountMismatch,
            SampleError::FirstChunkOutOfRange { .. } => SampleErrorKind::FirstChunkOutOfRange,
            SampleError::SyncSampleOutOfRange { .. } => SampleErrorKind::SyncSampleOutOfRange,
            SampleError::SampleSizeLimitExceeded { .. } => SampleErrorKind::SampleSizeLimitExceeded,
            SampleError::UnfinishedSample { .. } => SampleErrorKind::UnfinishedSample,
            SampleError::AlreadyFinished => SampleErrorKind::AlreadyFinished,
            SampleError::NoFragmentOpen => SampleErrorKind::NoFragmentOpen,
            SampleError::FragmentStillOpen => SampleErrorKind::FragmentStillOpen,
            SampleError::SampleSizeOutOfRange { .. } => SampleErrorKind::SampleSizeOutOfRange,
            SampleError::DataOffsetOutOfRange { .. } => SampleErrorKind::DataOffsetOutOfRange,
            SampleError::CompositionTimeOffsetOutOfRange { .. } => SampleErrorKind::CompositionTimeOffsetOutOfRange,
            SampleError::DecodeTimeMismatch { .. } => SampleErrorKind::DecodeTimeMismatch,
            SampleError::BackwardDecodeTime { .. } => SampleErrorKind::BackwardDecodeTime,
            SampleError::SampleDescriptionIndexMismatch { .. } => SampleErrorKind::SampleDescriptionIndexMismatch,
            SampleError::NoChunkOpen => SampleErrorKind::NoChunkOpen,
            SampleError::TrackIdMismatch { .. } => SampleErrorKind::TrackIdMismatch,
            SampleError::UnsupportedCompositionTimeOffset { .. } => SampleErrorKind::UnsupportedCompositionTimeOffset,
            SampleError::UnsupportedSampleFlags { .. } => SampleErrorKind::UnsupportedSampleFlags,
            SampleError::FragmentNotRepresentable => SampleErrorKind::FragmentNotRepresentable,
            SampleError::MissingDecodeTime { .. } => SampleErrorKind::MissingDecodeTime,
        }
    }

    /// What a caller does about the failure
    pub open spec fn spec_category(self) -> Category {
        match self {
            SampleError::Box(box_error) => box_error.spec_category(),
            SampleError::DecodeTimeOverflow { .. } => Category::Malformed,
            SampleError::DataOffsetOverflow { .. } => Category::Malformed,
            SampleError::PresentationTimeOverflow { .. } => Category::Malformed,
            SampleError::UnknownTrackId { .. } => Category::Malformed,
            SampleError::UnknownSampleDescriptionIndex { .. } => Category::Malformed,
            SampleError::MissingMovieExtends => Category::Malformed,
            SampleError::UnknownDataReferenceIndex { .. } => Category::Malformed,
            SampleError::ExternalDataReference { .. } => Category::Unsupported,
            SampleError::SampleCountMismatch { .. } => Category::Malformed,
            SampleError::FirstChunkOutOfRange { .. } => Category::Malformed,
            SampleError::SyncSampleOutOfRange { .. } => Category::Malformed,
            SampleError::SampleSizeLimitExceeded { .. } => Category::Unsupported,
            SampleError::UnfinishedSample { .. } => Category::Malformed,
            SampleError::AlreadyFinished => Category::Usage,
            SampleError::NoFragmentOpen => Category::Usage,
            SampleError::FragmentStillOpen => Category::Usage,
            SampleError::SampleSizeOutOfRange { .. } => Category::Unsupported,
            SampleError::DataOffsetOutOfRange { .. } => Category::Unsupported,
            SampleError::CompositionTimeOffsetOutOfRange { .. } => Category::Unsupported,
            SampleError::DecodeTimeMismatch { .. } => Category::Malformed,
            SampleError::BackwardDecodeTime { .. } => Category::Malformed,
            SampleError::SampleDescriptionIndexMismatch { .. } => Category::Malformed,
            SampleError::NoChunkOpen => Category::Usage,
            SampleError::TrackIdMismatch { .. } => Category::Malformed,
            SampleError::UnsupportedCompositionTimeOffset { .. } => Category::Unsupported,
            SampleError::UnsupportedSampleFlags { .. } => Category::Unsupported,
            SampleError::FragmentNotRepresentable => Category::Unsupported,
            SampleError::MissingDecodeTime { .. } => Category::Malformed,
        }
    }

    /// Returns what a caller does about the failure
    pub fn category(self) -> (category: Category)
        ensures
            category == self.spec_category(),
    {
        match self {
            SampleError::Box(box_error) => box_error.category(),
            SampleError::DecodeTimeOverflow { .. } => Category::Malformed,
            SampleError::DataOffsetOverflow { .. } => Category::Malformed,
            SampleError::PresentationTimeOverflow { .. } => Category::Malformed,
            SampleError::UnknownTrackId { .. } => Category::Malformed,
            SampleError::UnknownSampleDescriptionIndex { .. } => Category::Malformed,
            SampleError::MissingMovieExtends => Category::Malformed,
            SampleError::UnknownDataReferenceIndex { .. } => Category::Malformed,
            SampleError::ExternalDataReference { .. } => Category::Unsupported,
            SampleError::SampleCountMismatch { .. } => Category::Malformed,
            SampleError::FirstChunkOutOfRange { .. } => Category::Malformed,
            SampleError::SyncSampleOutOfRange { .. } => Category::Malformed,
            SampleError::SampleSizeLimitExceeded { .. } => Category::Unsupported,
            SampleError::UnfinishedSample { .. } => Category::Malformed,
            SampleError::AlreadyFinished => Category::Usage,
            SampleError::NoFragmentOpen => Category::Usage,
            SampleError::FragmentStillOpen => Category::Usage,
            SampleError::SampleSizeOutOfRange { .. } => Category::Unsupported,
            SampleError::DataOffsetOutOfRange { .. } => Category::Unsupported,
            SampleError::CompositionTimeOffsetOutOfRange { .. } => Category::Unsupported,
            SampleError::DecodeTimeMismatch { .. } => Category::Malformed,
            SampleError::BackwardDecodeTime { .. } => Category::Malformed,
            SampleError::SampleDescriptionIndexMismatch { .. } => Category::Malformed,
            SampleError::NoChunkOpen => Category::Usage,
            SampleError::TrackIdMismatch { .. } => Category::Malformed,
            SampleError::UnsupportedCompositionTimeOffset { .. } => Category::Unsupported,
            SampleError::UnsupportedSampleFlags { .. } => Category::Unsupported,
            SampleError::FragmentNotRepresentable => Category::Unsupported,
            SampleError::MissingDecodeTime { .. } => Category::Malformed,
        }
    }

    /// The values the failure carries, laid flat
    pub open spec fn spec_fields(self) -> ErrorFields {
        match self {
            SampleError::Box(box_error) => ErrorFields { box_error: Some(box_error), track_id: None, established_track_id: None, sample_description_index: None, established_sample_description_index: None, data_reference_index: None, first_chunk: None, sample_number: None, needed_bytes: None, available_bytes: None, stated_decode_time: None, reached_decode_time: None, data_offset: None, composition_time_offset: None, sample_flags: None },
            SampleError::DecodeTimeOverflow { track_id } => ErrorFields { box_error: None, track_id: Some(track_id), established_track_id: None, sample_description_index: None, established_sample_description_index: None, data_reference_index: None, first_chunk: None, sample_number: None, needed_bytes: None, available_bytes: None, stated_decode_time: None, reached_decode_time: None, data_offset: None, composition_time_offset: None, sample_flags: None },
            SampleError::DataOffsetOverflow { track_id } => ErrorFields { box_error: None, track_id: Some(track_id), established_track_id: None, sample_description_index: None, established_sample_description_index: None, data_reference_index: None, first_chunk: None, sample_number: None, needed_bytes: None, available_bytes: None, stated_decode_time: None, reached_decode_time: None, data_offset: None, composition_time_offset: None, sample_flags: None },
            SampleError::PresentationTimeOverflow { reference_id } => ErrorFields { box_error: None, track_id: Some(reference_id), established_track_id: None, sample_description_index: None, established_sample_description_index: None, data_reference_index: None, first_chunk: None, sample_number: None, needed_bytes: None, available_bytes: None, stated_decode_time: None, reached_decode_time: None, data_offset: None, composition_time_offset: None, sample_flags: None },
            SampleError::UnknownTrackId { track_id } => ErrorFields { box_error: None, track_id: Some(track_id), established_track_id: None, sample_description_index: None, established_sample_description_index: None, data_reference_index: None, first_chunk: None, sample_number: None, needed_bytes: None, available_bytes: None, stated_decode_time: None, reached_decode_time: None, data_offset: None, composition_time_offset: None, sample_flags: None },
            SampleError::UnknownSampleDescriptionIndex { track_id, sample_description_index } => ErrorFields { box_error: None, track_id: Some(track_id), established_track_id: None, sample_description_index: Some(sample_description_index), established_sample_description_index: None, data_reference_index: None, first_chunk: None, sample_number: None, needed_bytes: None, available_bytes: None, stated_decode_time: None, reached_decode_time: None, data_offset: None, composition_time_offset: None, sample_flags: None },
            SampleError::MissingMovieExtends => ErrorFields { box_error: None, track_id: None, established_track_id: None, sample_description_index: None, established_sample_description_index: None, data_reference_index: None, first_chunk: None, sample_number: None, needed_bytes: None, available_bytes: None, stated_decode_time: None, reached_decode_time: None, data_offset: None, composition_time_offset: None, sample_flags: None },
            SampleError::UnknownDataReferenceIndex { track_id, data_reference_index } => ErrorFields { box_error: None, track_id: Some(track_id), established_track_id: None, sample_description_index: None, established_sample_description_index: None, data_reference_index: Some(data_reference_index), first_chunk: None, sample_number: None, needed_bytes: None, available_bytes: None, stated_decode_time: None, reached_decode_time: None, data_offset: None, composition_time_offset: None, sample_flags: None },
            SampleError::ExternalDataReference { track_id, data_reference_index } => ErrorFields { box_error: None, track_id: Some(track_id), established_track_id: None, sample_description_index: None, established_sample_description_index: None, data_reference_index: Some(data_reference_index), first_chunk: None, sample_number: None, needed_bytes: None, available_bytes: None, stated_decode_time: None, reached_decode_time: None, data_offset: None, composition_time_offset: None, sample_flags: None },
            SampleError::SampleCountMismatch { track_id } => ErrorFields { box_error: None, track_id: Some(track_id), established_track_id: None, sample_description_index: None, established_sample_description_index: None, data_reference_index: None, first_chunk: None, sample_number: None, needed_bytes: None, available_bytes: None, stated_decode_time: None, reached_decode_time: None, data_offset: None, composition_time_offset: None, sample_flags: None },
            SampleError::FirstChunkOutOfRange { track_id, first_chunk } => ErrorFields { box_error: None, track_id: Some(track_id), established_track_id: None, sample_description_index: None, established_sample_description_index: None, data_reference_index: None, first_chunk: Some(first_chunk), sample_number: None, needed_bytes: None, available_bytes: None, stated_decode_time: None, reached_decode_time: None, data_offset: None, composition_time_offset: None, sample_flags: None },
            SampleError::SyncSampleOutOfRange { track_id, sample_number } => ErrorFields { box_error: None, track_id: Some(track_id), established_track_id: None, sample_description_index: None, established_sample_description_index: None, data_reference_index: None, first_chunk: None, sample_number: Some(sample_number), needed_bytes: None, available_bytes: None, stated_decode_time: None, reached_decode_time: None, data_offset: None, composition_time_offset: None, sample_flags: None },
            SampleError::SampleSizeLimitExceeded { track_id, declared, limit } => ErrorFields { box_error: None, track_id: Some(track_id), established_track_id: None, sample_description_index: None, established_sample_description_index: None, data_reference_index: None, first_chunk: None, sample_number: None, needed_bytes: Some(declared), available_bytes: Some(limit), stated_decode_time: None, reached_decode_time: None, data_offset: None, composition_time_offset: None, sample_flags: None },
            SampleError::UnfinishedSample { track_id, needed, available } => ErrorFields { box_error: None, track_id: Some(track_id), established_track_id: None, sample_description_index: None, established_sample_description_index: None, data_reference_index: None, first_chunk: None, sample_number: None, needed_bytes: Some(needed), available_bytes: Some(available), stated_decode_time: None, reached_decode_time: None, data_offset: None, composition_time_offset: None, sample_flags: None },
            SampleError::AlreadyFinished => ErrorFields { box_error: None, track_id: None, established_track_id: None, sample_description_index: None, established_sample_description_index: None, data_reference_index: None, first_chunk: None, sample_number: None, needed_bytes: None, available_bytes: None, stated_decode_time: None, reached_decode_time: None, data_offset: None, composition_time_offset: None, sample_flags: None },
            SampleError::NoFragmentOpen => ErrorFields { box_error: None, track_id: None, established_track_id: None, sample_description_index: None, established_sample_description_index: None, data_reference_index: None, first_chunk: None, sample_number: None, needed_bytes: None, available_bytes: None, stated_decode_time: None, reached_decode_time: None, data_offset: None, composition_time_offset: None, sample_flags: None },
            SampleError::FragmentStillOpen => ErrorFields { box_error: None, track_id: None, established_track_id: None, sample_description_index: None, established_sample_description_index: None, data_reference_index: None, first_chunk: None, sample_number: None, needed_bytes: None, available_bytes: None, stated_decode_time: None, reached_decode_time: None, data_offset: None, composition_time_offset: None, sample_flags: None },
            SampleError::SampleSizeOutOfRange { track_id, declared } => ErrorFields { box_error: None, track_id: Some(track_id), established_track_id: None, sample_description_index: None, established_sample_description_index: None, data_reference_index: None, first_chunk: None, sample_number: None, needed_bytes: Some(declared), available_bytes: None, stated_decode_time: None, reached_decode_time: None, data_offset: None, composition_time_offset: None, sample_flags: None },
            SampleError::DataOffsetOutOfRange { track_id, offset } => ErrorFields { box_error: None, track_id: Some(track_id), established_track_id: None, sample_description_index: None, established_sample_description_index: None, data_reference_index: None, first_chunk: None, sample_number: None, needed_bytes: None, available_bytes: None, stated_decode_time: None, reached_decode_time: None, data_offset: Some(offset), composition_time_offset: None, sample_flags: None },
            SampleError::CompositionTimeOffsetOutOfRange { track_id, offset } => ErrorFields { box_error: None, track_id: Some(track_id), established_track_id: None, sample_description_index: None, established_sample_description_index: None, data_reference_index: None, first_chunk: None, sample_number: None, needed_bytes: None, available_bytes: None, stated_decode_time: None, reached_decode_time: None, data_offset: None, composition_time_offset: Some(offset), sample_flags: None },
            SampleError::DecodeTimeMismatch { track_id, stated, reached } => ErrorFields { box_error: None, track_id: Some(track_id), established_track_id: None, sample_description_index: None, established_sample_description_index: None, data_reference_index: None, first_chunk: None, sample_number: None, needed_bytes: None, available_bytes: None, stated_decode_time: Some(stated), reached_decode_time: Some(reached), data_offset: None, composition_time_offset: None, sample_flags: None },
            SampleError::BackwardDecodeTime { track_id, stated, reached } => ErrorFields { box_error: None, track_id: Some(track_id), established_track_id: None, sample_description_index: None, established_sample_description_index: None, data_reference_index: None, first_chunk: None, sample_number: None, needed_bytes: None, available_bytes: None, stated_decode_time: Some(stated), reached_decode_time: Some(reached), data_offset: None, composition_time_offset: None, sample_flags: None },
            SampleError::SampleDescriptionIndexMismatch { track_id, stated, established } => ErrorFields { box_error: None, track_id: Some(track_id), established_track_id: None, sample_description_index: Some(stated), established_sample_description_index: Some(established), data_reference_index: None, first_chunk: None, sample_number: None, needed_bytes: None, available_bytes: None, stated_decode_time: None, reached_decode_time: None, data_offset: None, composition_time_offset: None, sample_flags: None },
            SampleError::NoChunkOpen => ErrorFields { box_error: None, track_id: None, established_track_id: None, sample_description_index: None, established_sample_description_index: None, data_reference_index: None, first_chunk: None, sample_number: None, needed_bytes: None, available_bytes: None, stated_decode_time: None, reached_decode_time: None, data_offset: None, composition_time_offset: None, sample_flags: None },
            SampleError::TrackIdMismatch { stated, established } => ErrorFields { box_error: None, track_id: Some(stated), established_track_id: Some(established), sample_description_index: None, established_sample_description_index: None, data_reference_index: None, first_chunk: None, sample_number: None, needed_bytes: None, available_bytes: None, stated_decode_time: None, reached_decode_time: None, data_offset: None, composition_time_offset: None, sample_flags: None },
            SampleError::UnsupportedCompositionTimeOffset { track_id, offset } => ErrorFields { box_error: None, track_id: Some(track_id), established_track_id: None, sample_description_index: None, established_sample_description_index: None, data_reference_index: None, first_chunk: None, sample_number: None, needed_bytes: None, available_bytes: None, stated_decode_time: None, reached_decode_time: None, data_offset: None, composition_time_offset: Some(offset), sample_flags: None },
            SampleError::UnsupportedSampleFlags { track_id, sample_flags } => ErrorFields { box_error: None, track_id: Some(track_id), established_track_id: None, sample_description_index: None, established_sample_description_index: None, data_reference_index: None, first_chunk: None, sample_number: None, needed_bytes: None, available_bytes: None, stated_decode_time: None, reached_decode_time: None, data_offset: None, composition_time_offset: None, sample_flags: Some(sample_flags) },
            SampleError::FragmentNotRepresentable => ErrorFields { box_error: None, track_id: None, established_track_id: None, sample_description_index: None, established_sample_description_index: None, data_reference_index: None, first_chunk: None, sample_number: None, needed_bytes: None, available_bytes: None, stated_decode_time: None, reached_decode_time: None, data_offset: None, composition_time_offset: None, sample_flags: None },
            SampleError::MissingDecodeTime { track_id } => ErrorFields { box_error: None, track_id: Some(track_id), established_track_id: None, sample_description_index: None, established_sample_description_index: None, data_reference_index: None, first_chunk: None, sample_number: None, needed_bytes: None, available_bytes: None, stated_decode_time: None, reached_decode_time: None, data_offset: None, composition_time_offset: None, sample_flags: None },
        }
    }

    /// Returns the values the failure carries, laid flat
    pub fn fields(self) -> (fields: ErrorFields)
        ensures
            fields == self.spec_fields(),
    {
        match self {
            SampleError::Box(box_error) => ErrorFields { box_error: Some(box_error), track_id: None, established_track_id: None, sample_description_index: None, established_sample_description_index: None, data_reference_index: None, first_chunk: None, sample_number: None, needed_bytes: None, available_bytes: None, stated_decode_time: None, reached_decode_time: None, data_offset: None, composition_time_offset: None, sample_flags: None },
            SampleError::DecodeTimeOverflow { track_id } => ErrorFields { box_error: None, track_id: Some(track_id), established_track_id: None, sample_description_index: None, established_sample_description_index: None, data_reference_index: None, first_chunk: None, sample_number: None, needed_bytes: None, available_bytes: None, stated_decode_time: None, reached_decode_time: None, data_offset: None, composition_time_offset: None, sample_flags: None },
            SampleError::DataOffsetOverflow { track_id } => ErrorFields { box_error: None, track_id: Some(track_id), established_track_id: None, sample_description_index: None, established_sample_description_index: None, data_reference_index: None, first_chunk: None, sample_number: None, needed_bytes: None, available_bytes: None, stated_decode_time: None, reached_decode_time: None, data_offset: None, composition_time_offset: None, sample_flags: None },
            SampleError::PresentationTimeOverflow { reference_id } => ErrorFields { box_error: None, track_id: Some(reference_id), established_track_id: None, sample_description_index: None, established_sample_description_index: None, data_reference_index: None, first_chunk: None, sample_number: None, needed_bytes: None, available_bytes: None, stated_decode_time: None, reached_decode_time: None, data_offset: None, composition_time_offset: None, sample_flags: None },
            SampleError::UnknownTrackId { track_id } => ErrorFields { box_error: None, track_id: Some(track_id), established_track_id: None, sample_description_index: None, established_sample_description_index: None, data_reference_index: None, first_chunk: None, sample_number: None, needed_bytes: None, available_bytes: None, stated_decode_time: None, reached_decode_time: None, data_offset: None, composition_time_offset: None, sample_flags: None },
            SampleError::UnknownSampleDescriptionIndex { track_id, sample_description_index } => ErrorFields { box_error: None, track_id: Some(track_id), established_track_id: None, sample_description_index: Some(sample_description_index), established_sample_description_index: None, data_reference_index: None, first_chunk: None, sample_number: None, needed_bytes: None, available_bytes: None, stated_decode_time: None, reached_decode_time: None, data_offset: None, composition_time_offset: None, sample_flags: None },
            SampleError::MissingMovieExtends => ErrorFields { box_error: None, track_id: None, established_track_id: None, sample_description_index: None, established_sample_description_index: None, data_reference_index: None, first_chunk: None, sample_number: None, needed_bytes: None, available_bytes: None, stated_decode_time: None, reached_decode_time: None, data_offset: None, composition_time_offset: None, sample_flags: None },
            SampleError::UnknownDataReferenceIndex { track_id, data_reference_index } => ErrorFields { box_error: None, track_id: Some(track_id), established_track_id: None, sample_description_index: None, established_sample_description_index: None, data_reference_index: Some(data_reference_index), first_chunk: None, sample_number: None, needed_bytes: None, available_bytes: None, stated_decode_time: None, reached_decode_time: None, data_offset: None, composition_time_offset: None, sample_flags: None },
            SampleError::ExternalDataReference { track_id, data_reference_index } => ErrorFields { box_error: None, track_id: Some(track_id), established_track_id: None, sample_description_index: None, established_sample_description_index: None, data_reference_index: Some(data_reference_index), first_chunk: None, sample_number: None, needed_bytes: None, available_bytes: None, stated_decode_time: None, reached_decode_time: None, data_offset: None, composition_time_offset: None, sample_flags: None },
            SampleError::SampleCountMismatch { track_id } => ErrorFields { box_error: None, track_id: Some(track_id), established_track_id: None, sample_description_index: None, established_sample_description_index: None, data_reference_index: None, first_chunk: None, sample_number: None, needed_bytes: None, available_bytes: None, stated_decode_time: None, reached_decode_time: None, data_offset: None, composition_time_offset: None, sample_flags: None },
            SampleError::FirstChunkOutOfRange { track_id, first_chunk } => ErrorFields { box_error: None, track_id: Some(track_id), established_track_id: None, sample_description_index: None, established_sample_description_index: None, data_reference_index: None, first_chunk: Some(first_chunk), sample_number: None, needed_bytes: None, available_bytes: None, stated_decode_time: None, reached_decode_time: None, data_offset: None, composition_time_offset: None, sample_flags: None },
            SampleError::SyncSampleOutOfRange { track_id, sample_number } => ErrorFields { box_error: None, track_id: Some(track_id), established_track_id: None, sample_description_index: None, established_sample_description_index: None, data_reference_index: None, first_chunk: None, sample_number: Some(sample_number), needed_bytes: None, available_bytes: None, stated_decode_time: None, reached_decode_time: None, data_offset: None, composition_time_offset: None, sample_flags: None },
            SampleError::SampleSizeLimitExceeded { track_id, declared, limit } => ErrorFields { box_error: None, track_id: Some(track_id), established_track_id: None, sample_description_index: None, established_sample_description_index: None, data_reference_index: None, first_chunk: None, sample_number: None, needed_bytes: Some(declared), available_bytes: Some(limit), stated_decode_time: None, reached_decode_time: None, data_offset: None, composition_time_offset: None, sample_flags: None },
            SampleError::UnfinishedSample { track_id, needed, available } => ErrorFields { box_error: None, track_id: Some(track_id), established_track_id: None, sample_description_index: None, established_sample_description_index: None, data_reference_index: None, first_chunk: None, sample_number: None, needed_bytes: Some(needed), available_bytes: Some(available), stated_decode_time: None, reached_decode_time: None, data_offset: None, composition_time_offset: None, sample_flags: None },
            SampleError::AlreadyFinished => ErrorFields { box_error: None, track_id: None, established_track_id: None, sample_description_index: None, established_sample_description_index: None, data_reference_index: None, first_chunk: None, sample_number: None, needed_bytes: None, available_bytes: None, stated_decode_time: None, reached_decode_time: None, data_offset: None, composition_time_offset: None, sample_flags: None },
            SampleError::NoFragmentOpen => ErrorFields { box_error: None, track_id: None, established_track_id: None, sample_description_index: None, established_sample_description_index: None, data_reference_index: None, first_chunk: None, sample_number: None, needed_bytes: None, available_bytes: None, stated_decode_time: None, reached_decode_time: None, data_offset: None, composition_time_offset: None, sample_flags: None },
            SampleError::FragmentStillOpen => ErrorFields { box_error: None, track_id: None, established_track_id: None, sample_description_index: None, established_sample_description_index: None, data_reference_index: None, first_chunk: None, sample_number: None, needed_bytes: None, available_bytes: None, stated_decode_time: None, reached_decode_time: None, data_offset: None, composition_time_offset: None, sample_flags: None },
            SampleError::SampleSizeOutOfRange { track_id, declared } => ErrorFields { box_error: None, track_id: Some(track_id), established_track_id: None, sample_description_index: None, established_sample_description_index: None, data_reference_index: None, first_chunk: None, sample_number: None, needed_bytes: Some(declared), available_bytes: None, stated_decode_time: None, reached_decode_time: None, data_offset: None, composition_time_offset: None, sample_flags: None },
            SampleError::DataOffsetOutOfRange { track_id, offset } => ErrorFields { box_error: None, track_id: Some(track_id), established_track_id: None, sample_description_index: None, established_sample_description_index: None, data_reference_index: None, first_chunk: None, sample_number: None, needed_bytes: None, available_bytes: None, stated_decode_time: None, reached_decode_time: None, data_offset: Some(offset), composition_time_offset: None, sample_flags: None },
            SampleError::CompositionTimeOffsetOutOfRange { track_id, offset } => ErrorFields { box_error: None, track_id: Some(track_id), established_track_id: None, sample_description_index: None, established_sample_description_index: None, data_reference_index: None, first_chunk: None, sample_number: None, needed_bytes: None, available_bytes: None, stated_decode_time: None, reached_decode_time: None, data_offset: None, composition_time_offset: Some(offset), sample_flags: None },
            SampleError::DecodeTimeMismatch { track_id, stated, reached } => ErrorFields { box_error: None, track_id: Some(track_id), established_track_id: None, sample_description_index: None, established_sample_description_index: None, data_reference_index: None, first_chunk: None, sample_number: None, needed_bytes: None, available_bytes: None, stated_decode_time: Some(stated), reached_decode_time: Some(reached), data_offset: None, composition_time_offset: None, sample_flags: None },
            SampleError::BackwardDecodeTime { track_id, stated, reached } => ErrorFields { box_error: None, track_id: Some(track_id), established_track_id: None, sample_description_index: None, established_sample_description_index: None, data_reference_index: None, first_chunk: None, sample_number: None, needed_bytes: None, available_bytes: None, stated_decode_time: Some(stated), reached_decode_time: Some(reached), data_offset: None, composition_time_offset: None, sample_flags: None },
            SampleError::SampleDescriptionIndexMismatch { track_id, stated, established } => ErrorFields { box_error: None, track_id: Some(track_id), established_track_id: None, sample_description_index: Some(stated), established_sample_description_index: Some(established), data_reference_index: None, first_chunk: None, sample_number: None, needed_bytes: None, available_bytes: None, stated_decode_time: None, reached_decode_time: None, data_offset: None, composition_time_offset: None, sample_flags: None },
            SampleError::NoChunkOpen => ErrorFields { box_error: None, track_id: None, established_track_id: None, sample_description_index: None, established_sample_description_index: None, data_reference_index: None, first_chunk: None, sample_number: None, needed_bytes: None, available_bytes: None, stated_decode_time: None, reached_decode_time: None, data_offset: None, composition_time_offset: None, sample_flags: None },
            SampleError::TrackIdMismatch { stated, established } => ErrorFields { box_error: None, track_id: Some(stated), established_track_id: Some(established), sample_description_index: None, established_sample_description_index: None, data_reference_index: None, first_chunk: None, sample_number: None, needed_bytes: None, available_bytes: None, stated_decode_time: None, reached_decode_time: None, data_offset: None, composition_time_offset: None, sample_flags: None },
            SampleError::UnsupportedCompositionTimeOffset { track_id, offset } => ErrorFields { box_error: None, track_id: Some(track_id), established_track_id: None, sample_description_index: None, established_sample_description_index: None, data_reference_index: None, first_chunk: None, sample_number: None, needed_bytes: None, available_bytes: None, stated_decode_time: None, reached_decode_time: None, data_offset: None, composition_time_offset: Some(offset), sample_flags: None },
            SampleError::UnsupportedSampleFlags { track_id, sample_flags } => ErrorFields { box_error: None, track_id: Some(track_id), established_track_id: None, sample_description_index: None, established_sample_description_index: None, data_reference_index: None, first_chunk: None, sample_number: None, needed_bytes: None, available_bytes: None, stated_decode_time: None, reached_decode_time: None, data_offset: None, composition_time_offset: None, sample_flags: Some(sample_flags) },
            SampleError::FragmentNotRepresentable => ErrorFields { box_error: None, track_id: None, established_track_id: None, sample_description_index: None, established_sample_description_index: None, data_reference_index: None, first_chunk: None, sample_number: None, needed_bytes: None, available_bytes: None, stated_decode_time: None, reached_decode_time: None, data_offset: None, composition_time_offset: None, sample_flags: None },
            SampleError::MissingDecodeTime { track_id } => ErrorFields { box_error: None, track_id: Some(track_id), established_track_id: None, sample_description_index: None, established_sample_description_index: None, data_reference_index: None, first_chunk: None, sample_number: None, needed_bytes: None, available_bytes: None, stated_decode_time: None, reached_decode_time: None, data_offset: None, composition_time_offset: None, sample_flags: None },
        }
    }

    /// Returns the failure of one box the failure carries through, if it is one
    pub fn box_error(self) -> (box_error: Option<BoxError>)
        ensures
            box_error == self.spec_fields().box_error,
    {
        self.fields().box_error
    }

    /// Returns the track the failure concerns, where the failure carries it
    pub fn track_id(self) -> (track_id: Option<u32>)
        ensures
            track_id == self.spec_fields().track_id,
    {
        self.fields().track_id
    }

    /// Returns the track the open chunk holds, where the failure carries it
    pub fn established_track_id(self) -> (established_track_id: Option<u32>)
        ensures
            established_track_id == self.spec_fields().established_track_id,
    {
        self.fields().established_track_id
    }

    /// Returns the sample description a sample names, where the failure carries it
    pub fn sample_description_index(self) -> (sample_description_index: Option<u32>)
        ensures
            sample_description_index == self.spec_fields().sample_description_index,
    {
        self.fields().sample_description_index
    }

    /// Returns the sample description established before, where the failure carries it
    pub fn established_sample_description_index(self) -> (established_sample_description_index: Option<u32>)
        ensures
            established_sample_description_index == self.spec_fields().established_sample_description_index,
    {
        self.fields().established_sample_description_index
    }

    /// Returns the data reference a description names, where the failure carries it
    pub fn data_reference_index(self) -> (data_reference_index: Option<u16>)
        ensures
            data_reference_index == self.spec_fields().data_reference_index,
    {
        self.fields().data_reference_index
    }

    /// Returns the chunk a run of chunks starts at, where the failure carries it
    pub fn first_chunk(self) -> (first_chunk: Option<u32>)
        ensures
            first_chunk == self.spec_fields().first_chunk,
    {
        self.fields().first_chunk
    }

    /// Returns the sample numbered, where the failure carries it
    pub fn sample_number(self) -> (sample_number: Option<u32>)
        ensures
            sample_number == self.spec_fields().sample_number,
    {
        self.fields().sample_number
    }

    /// Returns the bytes needed or declared, where the failure carries it
    pub fn needed_bytes(self) -> (needed_bytes: Option<u64>)
        ensures
            needed_bytes == self.spec_fields().needed_bytes,
    {
        self.fields().needed_bytes
    }

    /// Returns the bytes available, or the limit, where the failure carries it
    pub fn available_bytes(self) -> (available_bytes: Option<u64>)
        ensures
            available_bytes == self.spec_fields().available_bytes,
    {
        self.fields().available_bytes
    }

    /// Returns the decode time stated, where the failure carries it
    pub fn stated_decode_time(self) -> (stated_decode_time: Option<u64>)
        ensures
            stated_decode_time == self.spec_fields().stated_decode_time,
    {
        self.fields().stated_decode_time
    }

    /// Returns the decode time reached, where the failure carries it
    pub fn reached_decode_time(self) -> (reached_decode_time: Option<u64>)
        ensures
            reached_decode_time == self.spec_fields().reached_decode_time,
    {
        self.fields().reached_decode_time
    }

    /// Returns the data offset, where the failure carries it
    pub fn data_offset(self) -> (data_offset: Option<u64>)
        ensures
            data_offset == self.spec_fields().data_offset,
    {
        self.fields().data_offset
    }

    /// Returns the composition time offset, where the failure carries it
    pub fn composition_time_offset(self) -> (composition_time_offset: Option<i64>)
        ensures
            composition_time_offset == self.spec_fields().composition_time_offset,
    {
        self.fields().composition_time_offset
    }

    /// Returns the sample flags, where the failure carries it
    pub fn sample_flags(self) -> (sample_flags: Option<u32>)
        ensures
            sample_flags == self.spec_fields().sample_flags,
    {
        self.fields().sample_flags
    }

}

impl From<BoxError> for SampleError {
    /// Carries the failure of one box through as it stands
    fn from(box_error: BoxError) -> (error: Self)
        ensures
            error == SampleError::Box(box_error),
    {
        SampleError::Box(box_error)
    }
}

impl vstd::std_specs::convert::FromSpecImpl<BoxError> for SampleError {
    open spec fn obeys_from_spec() -> bool {
        true
    }

    open spec fn from_spec(box_error: BoxError) -> Self {
        SampleError::Box(box_error)
    }
}

/// What a failure of the sample layer says, written out
pub open spec fn sample_error_text(failure: SampleError) -> Seq<char> {
    match failure {
        SampleError::Box(inner) => box_error_text(inner),
        SampleError::DecodeTimeOverflow { track_id } => "decode time of track "@ + decimal(track_id as nat) + " runs past what 64 bits carry"@,
        SampleError::DataOffsetOverflow { track_id } => "data offset of track "@ + decimal(track_id as nat) + " runs past what 64 bits carry"@,
        SampleError::PresentationTimeOverflow { reference_id } => "presentation time of the index of stream "@ + decimal(reference_id as nat) + " runs past what 64 bits carry"@,
        SampleError::UnknownTrackId { track_id } => "movie declares no track "@ + decimal(track_id as nat),
        SampleError::UnknownSampleDescriptionIndex { track_id, sample_description_index } => "track "@ + decimal(track_id as nat) + " has no stsd entry "@ + decimal(sample_description_index as nat),
        SampleError::MissingMovieExtends => "the movie carries no mvex"@,
        SampleError::UnknownDataReferenceIndex { track_id, data_reference_index } => "track "@ + decimal(track_id as nat) + " has no dref entry "@ + decimal(data_reference_index as nat),
        SampleError::ExternalDataReference { track_id, data_reference_index } => "dref entry "@ + decimal(data_reference_index as nat) + " of track "@ + decimal(track_id as nat) + " names an external file"@,
        SampleError::SampleCountMismatch { track_id } => "sample tables of track "@ + decimal(track_id as nat) + " count different numbers of samples"@,
        SampleError::FirstChunkOutOfRange { track_id, first_chunk } => "run of chunks of track "@ + decimal(track_id as nat) + " starts at chunk "@ + decimal(first_chunk as nat) + ", out of the range open to it"@,
        SampleError::SyncSampleOutOfRange { track_id, sample_number } => "sync sample "@ + decimal(sample_number as nat) + " of track "@ + decimal(track_id as nat) + " is listed out of order or past its samples"@,
        SampleError::SampleSizeLimitExceeded { track_id, declared, limit } => "track "@ + decimal(track_id as nat) + " declares a sample of "@ + decimal(declared as nat) + " bytes, past the "@ + decimal(limit as nat) + "-byte limit"@,
        SampleError::UnfinishedSample { track_id, needed, available } => "sample of track "@ + decimal(track_id as nat) + " takes "@ + decimal(needed as nat) + " bytes, and "@ + decimal(available as nat) + " arrived"@,
        SampleError::AlreadyFinished => "samples were declared over and take nothing more"@,
        SampleError::NoFragmentOpen => "no fragment is open to carry a sample or be closed"@,
        SampleError::FragmentStillOpen => "fragment is still open"@,
        SampleError::SampleSizeOutOfRange { track_id, declared } => "track "@ + decimal(track_id as nat) + " states a sample of "@ + decimal(declared as nat) + " bytes, past the 4294967295 a trun row or an stsz entry carries"@,
        SampleError::DataOffsetOutOfRange { track_id, offset } => "sample data of track "@ + decimal(track_id as nat) + " lies "@ + decimal(offset as nat) + " bytes into the fragment, past the 2147483647 a trun carries"@,
        SampleError::CompositionTimeOffsetOutOfRange { track_id, offset } => "track "@ + decimal(track_id as nat) + " states a composition time offset of "@ + signed_decimal(offset as int) + ", which neither version of a trun writes"@,
        SampleError::DecodeTimeMismatch { track_id, stated, reached } => "track "@ + decimal(track_id as nat) + " states decode time "@ + decimal(stated as nat) + " where the samples before it reach "@ + decimal(reached as nat),
        SampleError::BackwardDecodeTime { track_id, stated, reached } => "track "@ + decimal(track_id as nat) + " goes back to decode time "@ + decimal(stated as nat) + " after reaching "@ + decimal(reached as nat),
        SampleError::SampleDescriptionIndexMismatch { track_id, stated, established } => "track "@ + decimal(track_id as nat) + " describes a sample by stsd entry "@ + decimal(stated as nat) + " in a fragment or a chunk describing it by "@ + decimal(established as nat),
        SampleError::NoChunkOpen => "no chunk is open to carry a sample"@,
        SampleError::TrackIdMismatch { stated, established } => "sample of track "@ + decimal(stated as nat) + " handed over to a chunk of track "@ + decimal(established as nat),
        SampleError::UnsupportedCompositionTimeOffset { track_id, offset } => "track "@ + decimal(track_id as nat) + " states a composition time offset of "@ + signed_decimal(offset as int) + ", which no sample table written here carries"@,
        SampleError::UnsupportedSampleFlags { track_id, sample_flags } => "track "@ + decimal(track_id as nat) + " states sample flags 0x"@ + hex(sample_flags as nat, 8) + ", which no sample table written here carries"@,
        SampleError::FragmentNotRepresentable => "fragment runs past what the boxes it is written as carry"@,
        SampleError::MissingDecodeTime { track_id } => "track "@ + decimal(track_id as nat) + " states no decode time where its timeline is not known"@,
    }
}

impl SampleError {
    /// Returns the failure written out as a reader takes it in
    pub fn message(&self) -> (text: String)
        ensures
            text@ == sample_error_text(*self),
    {
        match *self {
            SampleError::Box(inner) => inner.message(),
            SampleError::DecodeTimeOverflow { track_id } => {
                let mut text = String::from_str("decode time of track ");
                push_decimal(&mut text, track_id as u64);
                text.append(" runs past what 64 bits carry");
                text
            },
            SampleError::DataOffsetOverflow { track_id } => {
                let mut text = String::from_str("data offset of track ");
                push_decimal(&mut text, track_id as u64);
                text.append(" runs past what 64 bits carry");
                text
            },
            SampleError::PresentationTimeOverflow { reference_id } => {
                let mut text = String::from_str("presentation time of the index of stream ");
                push_decimal(&mut text, reference_id as u64);
                text.append(" runs past what 64 bits carry");
                text
            },
            SampleError::UnknownTrackId { track_id } => {
                let mut text = String::from_str("movie declares no track ");
                push_decimal(&mut text, track_id as u64);
                text
            },
            SampleError::UnknownSampleDescriptionIndex { track_id, sample_description_index } => {
                let mut text = String::from_str("track ");
                push_decimal(&mut text, track_id as u64);
                text.append(" has no stsd entry ");
                push_decimal(&mut text, sample_description_index as u64);
                text
            },
            SampleError::MissingMovieExtends => {
                let mut text = String::from_str("the movie carries no mvex");
                text
            },
            SampleError::UnknownDataReferenceIndex { track_id, data_reference_index } => {
                let mut text = String::from_str("track ");
                push_decimal(&mut text, track_id as u64);
                text.append(" has no dref entry ");
                push_decimal(&mut text, data_reference_index as u64);
                text
            },
            SampleError::ExternalDataReference { track_id, data_reference_index } => {
                let mut text = String::from_str("dref entry ");
                push_decimal(&mut text, data_reference_index as u64);
                text.append(" of track ");
                push_decimal(&mut text, track_id as u64);
                text.append(" names an external file");
                text
            },
            SampleError::SampleCountMismatch { track_id } => {
                let mut text = String::from_str("sample tables of track ");
                push_decimal(&mut text, track_id as u64);
                text.append(" count different numbers of samples");
                text
            },
            SampleError::FirstChunkOutOfRange { track_id, first_chunk } => {
                let mut text = String::from_str("run of chunks of track ");
                push_decimal(&mut text, track_id as u64);
                text.append(" starts at chunk ");
                push_decimal(&mut text, first_chunk as u64);
                text.append(", out of the range open to it");
                text
            },
            SampleError::SyncSampleOutOfRange { track_id, sample_number } => {
                let mut text = String::from_str("sync sample ");
                push_decimal(&mut text, sample_number as u64);
                text.append(" of track ");
                push_decimal(&mut text, track_id as u64);
                text.append(" is listed out of order or past its samples");
                text
            },
            SampleError::SampleSizeLimitExceeded { track_id, declared, limit } => {
                let mut text = String::from_str("track ");
                push_decimal(&mut text, track_id as u64);
                text.append(" declares a sample of ");
                push_decimal(&mut text, declared as u64);
                text.append(" bytes, past the ");
                push_decimal(&mut text, limit as u64);
                text.append("-byte limit");
                text
            },
            SampleError::UnfinishedSample { track_id, needed, available } => {
                let mut text = String::from_str("sample of track ");
                push_decimal(&mut text, track_id as u64);
                text.append(" takes ");
                push_decimal(&mut text, needed as u64);
                text.append(" bytes, and ");
                push_decimal(&mut text, available as u64);
                text.append(" arrived");
                text
            },
            SampleError::AlreadyFinished => {
                let mut text = String::from_str("samples were declared over and take nothing more");
                text
            },
            SampleError::NoFragmentOpen => {
                let mut text = String::from_str("no fragment is open to carry a sample or be closed");
                text
            },
            SampleError::FragmentStillOpen => {
                let mut text = String::from_str("fragment is still open");
                text
            },
            SampleError::SampleSizeOutOfRange { track_id, declared } => {
                let mut text = String::from_str("track ");
                push_decimal(&mut text, track_id as u64);
                text.append(" states a sample of ");
                push_decimal(&mut text, declared as u64);
                text.append(" bytes, past the 4294967295 a trun row or an stsz entry carries");
                text
            },
            SampleError::DataOffsetOutOfRange { track_id, offset } => {
                let mut text = String::from_str("sample data of track ");
                push_decimal(&mut text, track_id as u64);
                text.append(" lies ");
                push_decimal(&mut text, offset as u64);
                text.append(" bytes into the fragment, past the 2147483647 a trun carries");
                text
            },
            SampleError::CompositionTimeOffsetOutOfRange { track_id, offset } => {
                let mut text = String::from_str("track ");
                push_decimal(&mut text, track_id as u64);
                text.append(" states a composition time offset of ");
                push_signed(&mut text, offset);
                text.append(", which neither version of a trun writes");
                text
            },
            SampleError::DecodeTimeMismatch { track_id, stated, reached } => {
                let mut text = String::from_str("track ");
                push_decimal(&mut text, track_id as u64);
                text.append(" states decode time ");
                push_decimal(&mut text, stated as u64);
                text.append(" where the samples before it reach ");
                push_decimal(&mut text, reached as u64);
                text
            },
            SampleError::BackwardDecodeTime { track_id, stated, reached } => {
                let mut text = String::from_str("track ");
                push_decimal(&mut text, track_id as u64);
                text.append(" goes back to decode time ");
                push_decimal(&mut text, stated as u64);
                text.append(" after reaching ");
                push_decimal(&mut text, reached as u64);
                text
            },
            SampleError::SampleDescriptionIndexMismatch { track_id, stated, established } => {
                let mut text = String::from_str("track ");
                push_decimal(&mut text, track_id as u64);
                text.append(" describes a sample by stsd entry ");
                push_decimal(&mut text, stated as u64);
                text.append(" in a fragment or a chunk describing it by ");
                push_decimal(&mut text, established as u64);
                text
            },
            SampleError::NoChunkOpen => {
                let mut text = String::from_str("no chunk is open to carry a sample");
                text
            },
            SampleError::TrackIdMismatch { stated, established } => {
                let mut text = String::from_str("sample of track ");
                push_decimal(&mut text, stated as u64);
                text.append(" handed over to a chunk of track ");
                push_decimal(&mut text, established as u64);
                text
            },
            SampleError::UnsupportedCompositionTimeOffset { track_id, offset } => {
                let mut text = String::from_str("track ");
                push_decimal(&mut text, track_id as u64);
                text.append(" states a composition time offset of ");
                push_signed(&mut text, offset);
                text.append(", which no sample table written here carries");
                text
            },
            SampleError::UnsupportedSampleFlags { track_id, sample_flags } => {
                let mut text = String::from_str("track ");
                push_decimal(&mut text, track_id as u64);
                text.append(" states sample flags 0x");
                push_hex(&mut text, sample_flags as u64, 8);
                text.append(", which no sample table written here carries");
                text
            },
            SampleError::FragmentNotRepresentable => {
                let mut text = String::from_str("fragment runs past what the boxes it is written as carry");
                text
            },
            SampleError::MissingDecodeTime { track_id } => {
                let mut text = String::from_str("track ");
                push_decimal(&mut text, track_id as u64);
                text.append(" states no decode time where its timeline is not known");
                text
            },
        }
    }
}

/// `value`, where there is one, written as `label` and its value in decimal
pub open spec fn field_text(label: Seq<char>, value: Option<u64>) -> Seq<char> {
    match value {
        Some(v) => label + decimal(v as nat),
        None => Seq::empty(),
    }
}

/// `value`, where there is one, written as `label` and its value in decimal with its sign
pub open spec fn signed_field_text(label: Seq<char>, value: Option<i64>) -> Seq<char> {
    match value {
        Some(v) => label + signed_decimal(v as int),
        None => Seq::empty(),
    }
}

/// The failure of one box carried through, where there is one, written out field by field
pub open spec fn box_field_text(value: Option<BoxError>) -> Seq<char> {
    match value {
        Some(inner) => ", box_error: "@ + box_debug_text(inner),
        None => Seq::empty(),
    }
}

/// `value` taken as 64 bits
pub open spec fn wide32(value: Option<u32>) -> Option<u64> {
    match value {
        Some(v) => Some(v as u64),
        None => None,
    }
}

/// `value` taken as 64 bits
pub open spec fn wide16(value: Option<u16>) -> Option<u64> {
    match value {
        Some(v) => Some(v as u64),
        None => None,
    }
}

/// Returns `value` taken as 64 bits
fn widen32(value: Option<u32>) -> (wide: Option<u64>)
    ensures
        wide == wide32(value),
{
    match value {
        Some(v) => Some(v as u64),
        None => None,
    }
}

/// Returns `value` taken as 64 bits
fn widen16(value: Option<u16>) -> (wide: Option<u64>)
    ensures
        wide == wide16(value),
{
    match value {
        Some(v) => Some(v as u64),
        None => None,
    }
}

/// Appends `value`, where there is one, to `out`, as [`field_text`] has it
fn push_field(out: &mut String, label: &str, value: Option<u64>)
    ensures
        final(out)@ == old(out)@ + field_text(label@, value),
{
    match value {
        Some(v) => {
            let ghost before = out@;
            out.append(label);
            push_decimal(out, v);
            proof {
                assert(before + label@ + decimal(v as nat) =~= before + (label@ + decimal(v as nat)));
            }
        },
        None => {
            assert(old(out)@ + Seq::<char>::empty() =~= old(out)@);
        },
    }
}

/// Appends `value`, where there is one, to `out`, as [`signed_field_text`] has it
fn push_signed_field(out: &mut String, label: &str, value: Option<i64>)
    ensures
        final(out)@ == old(out)@ + signed_field_text(label@, value),
{
    match value {
        Some(v) => {
            let ghost before = out@;
            out.append(label);
            push_signed(out, v);
            proof {
                assert(before + label@ + signed_decimal(v as int) =~= before + (label@ + signed_decimal(v as int)));
            }
        },
        None => {
            assert(old(out)@ + Seq::<char>::empty() =~= old(out)@);
        },
    }
}

/// Appends the failure of one box carried through, where there is one, to `out`, as [`box_field_text`] has it
fn push_box_field(out: &mut String, value: Option<BoxError>)
    ensures
        final(out)@ == old(out)@ + box_field_text(value),
{
    match value {
        Some(inner) => {
            let ghost before = out@;
            out.append(", box_error: ");
            let text = inner.debug_text();
            out.append(text.as_str());
            proof {
                assert(before + ", box_error: "@ + box_debug_text(inner) =~= before + (", box_error: "@ + box_debug_text(inner)));
            }
        },
        None => {
            assert(old(out)@ + Seq::<char>::empty() =~= old(out)@);
        },
    }
}

/// The name of a kind of failure of the sample layer
pub open spec fn sample_kind_name(value: SampleErrorKind) -> Seq<char> {
    match value {
        SampleErrorKind::Box(inner) => "Box("@ + box_kind_name(inner) + ")"@,
        SampleErrorKind::DecodeTimeOverflow => "DecodeTimeOverflow"@,
        SampleErrorKind::DataOffsetOverflow => "DataOffsetOverflow"@,
        SampleErrorKind::PresentationTimeOverflow => "PresentationTimeOverflow"@,
        SampleErrorKind::UnknownTrackId => "UnknownTrackId"@,
        SampleErrorKind::UnknownSampleDescriptionIndex => "UnknownSampleDescriptionIndex"@,
        SampleErrorKind::MissingMovieExtends => "MissingMovieExtends"@,
        SampleErrorKind::UnknownDataReferenceIndex => "UnknownDataReferenceIndex"@,
        SampleErrorKind::ExternalDataReference => "ExternalDataReference"@,
        SampleErrorKind::SampleCountMismatch => "SampleCountMismatch"@,
        SampleErrorKind::FirstChunkOutOfRange => "FirstChunkOutOfRange"@,
        SampleErrorKind::SyncSampleOutOfRange => "SyncSampleOutOfRange"@,
        SampleErrorKind::SampleSizeLimitExceeded => "SampleSizeLimitExceeded"@,
        SampleErrorKind::UnfinishedSample => "UnfinishedSample"@,
        SampleErrorKind::AlreadyFinished => "AlreadyFinished"@,
        SampleErrorKind::NoFragmentOpen => "NoFragmentOpen"@,
        SampleErrorKind::FragmentStillOpen => "FragmentStillOpen"@,
        SampleErrorKind::SampleSizeOutOfRange => "SampleSizeOutOfRange"@,
        SampleErrorKind::DataOffsetOutOfRange => "DataOffsetOutOfRange"@,
        SampleErrorKind::CompositionTimeOffsetOutOfRange => "CompositionTimeOffsetOutOfRange"@,
        SampleErrorKind::DecodeTimeMismatch => "DecodeTimeMismatch"@,
        SampleErrorKind::BackwardDecodeTime => "BackwardDecodeTime"@,
        SampleErrorKind::SampleDescriptionIndexMismatch => "SampleDescriptionIndexMismatch"@,
        SampleErrorKind::NoChunkOpen => "NoChunkOpen"@,
        SampleErrorKind::TrackIdMismatch => "TrackIdMismatch"@,
        SampleErrorKind::UnsupportedCompositionTimeOffset => "UnsupportedCompositionTimeOffset"@,
        SampleErrorKind::UnsupportedSampleFlags => "UnsupportedSampleFlags"@,
        SampleErrorKind::FragmentNotRepresentable => "FragmentNotRepresentable"@,
        SampleErrorKind::MissingDecodeTime => "MissingDecodeTime"@,
    }
}

/// Appends the name of `value` to `out`, as [`sample_kind_name`] has it
pub fn push_sample_kind_name(out: &mut String, value: SampleErrorKind)
    ensures
        final(out)@ == old(out)@ + sample_kind_name(value),
{
    match value {
        SampleErrorKind::Box(inner) => {
            let ghost before = out@;
            out.append("Box(");
            push_box_kind_name(out, inner);
            out.append(")");
            proof {
                assert(before + ("Box("@ + box_kind_name(inner) + ")"@) =~= before + "Box("@ + box_kind_name(inner) + ")"@);
            }
        },
        SampleErrorKind::DecodeTimeOverflow => out.append("DecodeTimeOverflow"),
        SampleErrorKind::DataOffsetOverflow => out.append("DataOffsetOverflow"),
        SampleErrorKind::PresentationTimeOverflow => out.append("PresentationTimeOverflow"),
        SampleErrorKind::UnknownTrackId => out.append("UnknownTrackId"),
        SampleErrorKind::UnknownSampleDescriptionIndex => out.append("UnknownSampleDescriptionIndex"),
        SampleErrorKind::MissingMovieExtends => out.append("MissingMovieExtends"),
        SampleErrorKind::UnknownDataReferenceIndex => out.append("UnknownDataReferenceIndex"),
        SampleErrorKind::ExternalDataReference => out.append("ExternalDataReference"),
        SampleErrorKind::SampleCountMismatch => out.append("SampleCountMismatch"),
        SampleErrorKind::FirstChunkOutOfRange => out.append("FirstChunkOutOfRange"),
        SampleErrorKind::SyncSampleOutOfRange => out.append("SyncSampleOutOfRange"),
        SampleErrorKind::SampleSizeLimitExceeded => out.append("SampleSizeLimitExceeded"),
        SampleErrorKind::UnfinishedSample => out.append("UnfinishedSample"),
        SampleErrorKind::AlreadyFinished => out.append("AlreadyFinished"),
        SampleErrorKind::NoFragmentOpen => out.append("NoFragmentOpen"),
        SampleErrorKind::FragmentStillOpen => out.append("FragmentStillOpen"),
        SampleErrorKind::SampleSizeOutOfRange => out.append("SampleSizeOutOfRange"),
        SampleErrorKind::DataOffsetOutOfRange => out.append("DataOffsetOutOfRange"),
        SampleErrorKind::CompositionTimeOffsetOutOfRange => out.append("CompositionTimeOffsetOutOfRange"),
        SampleErrorKind::DecodeTimeMismatch => out.append("DecodeTimeMismatch"),
        SampleErrorKind::BackwardDecodeTime => out.append("BackwardDecodeTime"),
        SampleErrorKind::SampleDescriptionIndexMismatch => out.append("SampleDescriptionIndexMismatch"),
        SampleErrorKind::NoChunkOpen => out.append("NoChunkOpen"),
        SampleErrorKind::TrackIdMismatch => out.append("TrackIdMismatch"),
        SampleErrorKind::UnsupportedCompositionTimeOffset => out.append("UnsupportedCompositionTimeOffset"),
        SampleErrorKind::UnsupportedSampleFlags => out.append("UnsupportedSampleFlags"),
        SampleErrorKind::FragmentNotRepresentable => out.append("FragmentNotRepresentable"),
        SampleErrorKind::MissingDecodeTime => out.append("MissingDecodeTime"),
    }
}

/// What a failure of the sample layer holds, written out: its kind, its category, then, each as a comma,
/// its name and its value, the values it carries, those it does not carry left out
pub open spec fn sample_debug_text(failure: SampleError) -> Seq<char> {
    "Error { kind: "@ + sample_kind_name(failure.spec_kind()) + ", category: "@ + category_name(failure.spec_category())
        + box_field_text(failure.spec_fields().box_error)
        + field_text(", track_id: "@, wide32(failure.spec_fields().track_id))
        + field_text(", established_track_id: "@, wide32(failure.spec_fields().established_track_id))
        + field_text(", sample_description_index: "@, wide32(failure.spec_fields().sample_description_index))
        + field_text(", established_sample_description_index: "@, wide32(failure.spec_fields().established_sample_description_index))
        + field_text(", data_reference_index: "@, wide16(failure.spec_fields().data_reference_index))
        + field_text(", first_chunk: "@, wide32(failure.spec_fields().first_chunk))
        + field_text(", sample_number: "@, wide32(failure.spec_fields().sample_number))
        + field_text(", needed_bytes: "@, failure.spec_fields().needed_bytes)
        + field_text(", available_bytes: "@, failure.spec_fields().available_bytes)
        + field_text(", stated_decode_time: "@, failure.spec_fields().stated_decode_time)
        + field_text(", reached_decode_time: "@, failure.spec_fields().reached_decode_time)
        + field_text(", data_offset: "@, failure.spec_fields().data_offset)
        + signed_field_text(", composition_time_offset: "@, failure.spec_fields().composition_time_offset)
        + field_text(", sample_flags: "@, wide32(failure.spec_fields().sample_flags))
        + " }"@
}

impl SampleError {
    /// Returns the failure written out field by field: its kind, its category, and the values it carries
    pub fn debug_text(&self) -> (text: String)
        ensures
            text@ == sample_debug_text(*self),
    {
        let mut text = String::from_str("Error { kind: ");
        push_sample_kind_name(&mut text, self.kind());
        text.append(", category: ");
        push_category_name(&mut text, self.category());
        let fields = self.fields();
        push_box_field(&mut text, fields.box_error);
        push_field(&mut text, ", track_id: ", widen32(fields.track_id));
        push_field(&mut text, ", established_track_id: ", widen32(fields.established_track_id));
        push_field(&mut text, ", sample_description_index: ", widen32(fields.sample_description_index));
        push_field(&mut text, ", established_sample_description_index: ", widen32(fields.established_sample_description_index));
        push_field(&mut text, ", data_reference_index: ", widen16(fields.data_reference_index));
        push_field(&mut text, ", first_chunk: ", widen32(fields.first_chunk));
        push_field(&mut text, ", sample_number: ", widen32(fields.sample_number));
        push_field(&mut text, ", needed_bytes: ", fields.needed_bytes);
        push_field(&mut text, ", available_bytes: ", fields.available_bytes);
        push_field(&mut text, ", stated_decode_time: ", fields.stated_decode_time);
        push_field(&mut text, ", reached_decode_time: ", fields.reached_decode_time);
        push_field(&mut text, ", data_offset: ", fields.data_offset);
        push_signed_field(&mut text, ", composition_time_offset: ", fields.composition_time_offset);
        push_field(&mut text, ", sample_flags: ", widen32(fields.sample_flags));
        text.append(" }");
        text
    }
}

} // verus!

//! The fields of the boxes samples are declared in, as plain values: the
//! tables of a `trak` (ISO/IEC 14496-12 §8.5, §8.6, §8.7), the defaults of a
//! `trex` (§8.8.3) and the track fragments of a `moof` (§8.8)
//!
//! Each type holds what resolving the samples reads of its box and nothing
//! more; framing a box and reading its fields off the file is the caller's.

use vstd::prelude::*;

verus! {

/// A run of samples lasting the same time, one entry of an `stts` (§8.6.1.2)
#[derive(Clone, Copy, PartialEq, Eq, Debug, Structural)]
pub struct TimeToSampleEntry {
    pub sample_count: u32,
    pub sample_delta: u32,
}

/// A run of chunks holding the same number of samples, one entry of an `stsc` (§8.7.4)
#[derive(Clone, Copy, PartialEq, Eq, Debug, Structural)]
pub struct SampleToChunkEntry {
    /// The chunk the run starts at, counted from one
    pub first_chunk: u32,
    pub samples_per_chunk: u32,
    /// The `stsd` entry describing the samples of the run, counted from one
    pub sample_description_index: u32,
}

/// How an `stsz` states the bytes its samples occupy (§8.7.3.2)
#[derive(Clone, Debug, PartialEq, Eq)]
pub enum SampleSizes {
    /// Every one of `sample_count` samples occupies `sample_size` bytes
    Uniform { sample_size: u32, sample_count: u32 },
    /// The bytes of each sample, in sample order
    PerSample(Vec<u32>),
}

/// One entry of a `dref` (§8.7.2): where the bytes of the samples lie
#[derive(Clone, Debug, PartialEq, Eq)]
pub enum DataEntry {
    /// A `url `, naming the file itself where it states no location
    Url { location: Option<String> },
    /// A `urn `, which always names another resource
    Urn { name: String, location: Option<String> },
}

/// One entry of an `stsd` (§8.5.2): the type of its sample entry and the payload after the header
#[derive(Clone, Debug, PartialEq, Eq)]
pub struct SampleDescriptionEntry {
    pub box_type: [u8; 4],
    pub payload: Vec<u8>,
}

/// What resolving the samples of a track reads of its `trak`
#[derive(Clone, Debug, PartialEq, Eq)]
pub struct TrackBox {
    /// The `track_ID` of the `tkhd`
    pub track_id: u32,
    /// The entries of the `stsd`
    pub sample_descriptions: Vec<SampleDescriptionEntry>,
    /// The entries of the `dref`
    pub data_entries: Vec<DataEntry>,
    /// The entries of the `stts`
    pub time_to_sample: Vec<TimeToSampleEntry>,
    /// The entries of the `stsc`
    pub sample_to_chunk: Vec<SampleToChunkEntry>,
    /// The sizes the `stsz` states
    pub sample_sizes: SampleSizes,
    /// The offsets the `stco` or `co64` states, one per chunk
    pub chunk_offsets: Vec<u64>,
}

/// The defaults a `trex` states for the fragments of one track (§8.8.3)
#[derive(Clone, Copy, PartialEq, Eq, Debug, Structural)]
pub struct TrackExtendsBox {
    pub track_id: u32,
    pub default_sample_description_index: u32,
    pub default_sample_duration: u32,
    pub default_sample_size: u32,
    pub default_sample_flags: u32,
}

/// What resolving samples reads of a `moov`: its tracks, and the `trex` of its `mvex` where it carries one
#[derive(Clone, Debug, PartialEq, Eq)]
pub struct MovieBox {
    pub tracks: Vec<TrackBox>,
    pub track_extends: Option<Vec<TrackExtendsBox>>,
}

/// What a `tfhd` states (§8.8.7): the track, where its data is anchored, and the defaults of the fragment
#[derive(Clone, Copy, PartialEq, Eq, Debug, Structural)]
pub struct TrackFragmentHeaderBox {
    pub track_id: u32,
    pub base_data_offset: Option<u64>,
    pub sample_description_index: Option<u32>,
    pub default_sample_duration: Option<u32>,
    pub default_sample_size: Option<u32>,
    pub default_sample_flags: Option<u32>,
    /// The `duration-is-empty` flag: the fragment lasts its default duration and carries no sample
    pub duration_is_empty: bool,
    /// The `default-base-is-moof` flag: the data is anchored at the `moof`
    pub default_base_is_moof: bool,
}

/// One row of a `trun` (§8.8.8): what it states of one sample, `None` where it takes the default
#[derive(Clone, Copy, PartialEq, Eq, Debug, Structural)]
pub struct TrackRunSample {
    pub sample_duration: Option<u32>,
    pub sample_size: Option<u32>,
    pub sample_flags: Option<u32>,
    pub sample_composition_time_offset: Option<i64>,
}

/// A `trun` (§8.8.8): where its data starts, the flags of its first sample, and its rows
#[derive(Clone, Debug, PartialEq, Eq)]
pub struct TrackRunBox {
    pub data_offset: Option<i32>,
    pub first_sample_flags: Option<u32>,
    pub samples: Vec<TrackRunSample>,
}

/// A `traf` (§8.8.6): its header, the decode time its `tfdt` states where it carries one, and its runs
#[derive(Clone, Debug, PartialEq, Eq)]
pub struct TrackFragmentBox {
    pub tfhd: TrackFragmentHeaderBox,
    pub base_media_decode_time: Option<u64>,
    pub runs: Vec<TrackRunBox>,
}

/// A `moof` (§8.8.4): its sequence number and its track fragments
#[derive(Clone, Debug, PartialEq, Eq)]
pub struct MovieFragmentBox {
    pub sequence_number: u32,
    pub track_fragments: Vec<TrackFragmentBox>,
}

} // verus!

//! [`Sample`], the unit a presentation carries its media in, and [`SampleExtent`], where one lies

use std::ops::Range;

use vstd::prelude::*;

use crate::bytes::bytes_equal;

verus! {

/// What a [`Sample`] holds
pub struct SampleView {
    pub track_id: u32,
    pub decode_time: u64,
    pub sample_duration: u32,
    pub sample_composition_time_offset: i64,
    pub sample_flags: u32,
    pub sample_description_index: u32,
    pub data: Seq<u8>,
}

/// Media of a single timestamp, with what is true of it
///
/// ISO/IEC 14496-12 §3.1.14 has a sample as all the data associated with a
/// single timestamp; this holds those bytes with the properties the file
/// states for them.
#[derive(Debug)]
pub struct Sample {
    track_id: u32,
    decode_time: u64,
    sample_duration: u32,
    sample_composition_time_offset: i64,
    sample_flags: u32,
    sample_description_index: u32,
    data: Vec<u8>,
}

impl View for Sample {
    type V = SampleView;

    closed spec fn view(&self) -> SampleView {
        SampleView {
            track_id: self.track_id,
            decode_time: self.decode_time,
            sample_duration: self.sample_duration,
            sample_composition_time_offset: self.sample_composition_time_offset,
            sample_flags: self.sample_flags,
            sample_description_index: self.sample_description_index,
            data: self.data@,
        }
    }
}

impl Clone for Sample {
    fn clone(&self) -> (copy: Self)
        ensures
            copy@ == self@,
    {
        Sample {
            track_id: self.track_id,
            decode_time: self.decode_time,
            sample_duration: self.sample_duration,
            sample_composition_time_offset: self.sample_composition_time_offset,
            sample_flags: self.sample_flags,
            sample_description_index: self.sample_description_index,
            data: vstd::slice::slice_to_vec(self.data.as_slice()),
        }
    }
}

impl PartialEq for Sample {
    fn eq(&self, other: &Self) -> (same: bool) {
        self.track_id == other.track_id && self.decode_time == other.decode_time && self.sample_duration == other.sample_duration && self.sample_composition_time_offset == other.sample_composition_time_offset && self.sample_flags == other.sample_flags && self.sample_description_index == other.sample_description_index && bytes_equal(self.data.as_slice(), other.data.as_slice())
    }
}

impl vstd::std_specs::cmp::PartialEqSpecImpl for Sample {
    open spec fn obeys_eq_spec() -> bool {
        true
    }

    open spec fn eq_spec(&self, other: &Self) -> bool {
        self@ == other@
    }
}

impl Eq for Sample {}

impl Sample {
    /// Creates a sample from what is true of it and the bytes it carries
    pub fn new(
        track_id: u32,
        decode_time: u64,
        sample_duration: u32,
        sample_composition_time_offset: i64,
        sample_flags: u32,
        sample_description_index: u32,
        data: Vec<u8>,
    ) -> (sample: Self)
        ensures
            sample@ == (SampleView { track_id, decode_time, sample_duration, sample_composition_time_offset, sample_flags, sample_description_index, data: data@ }),
    {
        Sample { track_id, decode_time, sample_duration, sample_composition_time_offset, sample_flags, sample_description_index, data }
    }

    /// Returns the track the sample belongs to
    pub fn track_id(&self) -> (v: u32)
        ensures
            v == self@.track_id,
    {
        self.track_id
    }

    /// Returns when the sample is decoded, in the time scale of its track
    pub fn decode_time(&self) -> (v: u64)
        ensures
            v == self@.decode_time,
    {
        self.decode_time
    }

    /// Returns how long the sample lasts, in the time scale of its track
    pub fn sample_duration(&self) -> (v: u32)
        ensures
            v == self@.sample_duration,
    {
        self.sample_duration
    }

    /// Returns how far its composition time lies past its decode time
    pub fn sample_composition_time_offset(&self) -> (v: i64)
        ensures
            v == self@.sample_composition_time_offset,
    {
        self.sample_composition_time_offset
    }

    /// Returns the `sample_flags` of the sample
    pub fn sample_flags(&self) -> (v: u32)
        ensures
            v == self@.sample_flags,
    {
        self.sample_flags
    }

    /// Returns the sample entry that describes it, counted from 1
    pub fn sample_description_index(&self) -> (v: u32)
        ensures
            v == self@.sample_description_index,
    {
        self.sample_description_index
    }

    /// Returns the bytes the sample carries
    pub fn data(&self) -> (data: &[u8])
        ensures
            data@ == self@.data,
    {
        self.data.as_slice()
    }

    /// Returns the bytes the sample carries, giving the sample up
    pub fn into_data(self) -> (data: Vec<u8>)
        ensures
            data@ == self@.data,
    {
        self.data
    }
}

/// What a [`SampleExtent`] holds
pub struct SampleExtentView {
    pub track_id: u32,
    pub decode_time: u64,
    pub sample_duration: u32,
    pub sample_composition_time_offset: i64,
    pub sample_flags: u32,
    pub sample_description_index: u32,
    pub data_reference_index: u16,
    pub start: u64,
    pub end: u64,
}

/// What is true of a sample and the extent of the file its bytes lie in
///
/// What a declaration of either form resolves to: the sample tables of a
/// movie, or the track runs of a movie fragment.
#[derive(Clone, Copy, PartialEq, Eq, Debug, Structural)]
pub struct SampleExtent {
    track_id: u32,
    decode_time: u64,
    sample_duration: u32,
    sample_composition_time_offset: i64,
    sample_flags: u32,
    sample_description_index: u32,
    data_reference_index: u16,
    start: u64,
    end: u64,
}

impl View for SampleExtent {
    type V = SampleExtentView;

    closed spec fn view(&self) -> SampleExtentView {
        SampleExtentView {
            track_id: self.track_id,
            decode_time: self.decode_time,
            sample_duration: self.sample_duration,
            sample_composition_time_offset: self.sample_composition_time_offset,
            sample_flags: self.sample_flags,
            sample_description_index: self.sample_description_index,
            data_reference_index: self.data_reference_index,
            start: self.start,
            end: self.end,
        }
    }
}

impl SampleExtent {
    /// Creates the extent of a sample from every settled fact of it
    pub fn new(
        track_id: u32,
        decode_time: u64,
        sample_duration: u32,
        sample_composition_time_offset: i64,
        sample_flags: u32,
        sample_description_index: u32,
        data_reference_index: u16,
        extent: Range<u64>,
    ) -> (e: Self)
        ensures
            e@ == (SampleExtentView { track_id, decode_time, sample_duration, sample_composition_time_offset, sample_flags, sample_description_index, data_reference_index, start: extent.start, end: extent.end }),
    {
        SampleExtent { track_id, decode_time, sample_duration, sample_composition_time_offset, sample_flags, sample_description_index, data_reference_index, start: extent.start, end: extent.end }
    }

    /// Returns the track the sample belongs to
    pub fn track_id(&self) -> (v: u32)
        ensures
            v == self@.track_id,
    {
        self.track_id
    }

    /// Returns when the sample is decoded, in the time scale of its track
    pub fn decode_time(&self) -> (v: u64)
        ensures
            v == self@.decode_time,
    {
        self.decode_time
    }

    /// Returns how long the sample lasts, in the time scale of its track
    pub fn sample_duration(&self) -> (v: u32)
        ensures
            v == self@.sample_duration,
    {
        self.sample_duration
    }

    /// Returns how far its composition time lies past its decode time
    pub fn sample_composition_time_offset(&self) -> (v: i64)
        ensures
            v == self@.sample_composition_time_offset,
    {
        self.sample_composition_time_offset
    }

    /// Returns the `sample_flags` of the sample
    pub fn sample_flags(&self) -> (v: u32)
        ensures
            v == self@.sample_flags,
    {
        self.sample_flags
    }

    /// Returns the sample entry that describes it, counted from 1
    pub fn sample_description_index(&self) -> (v: u32)
        ensures
            v == self@.sample_description_index,
    {
        self.sample_description_index
    }

    /// Returns the data reference the bytes are read through
    pub fn data_reference_index(&self) -> (v: u16)
        ensures
            v == self@.data_reference_index,
    {
        self.data_reference_index
    }

    /// Returns the extent of the file the bytes of the sample lie in
    pub fn extent(&self) -> (extent: Range<u64>)
        ensures
            extent.start == self@.start,
            extent.end == self@.end,
    {
        Range { start: self.start, end: self.end }
    }
}

} // verus!

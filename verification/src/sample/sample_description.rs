//! The `stsd` entries of a track and the resource each has its samples lie in
//!
//! A sample is described by one entry of the `stsd` of its track (ISO/IEC
//! 14496-12 §8.5.2), counted from one, and every entry carries the
//! `data_reference_index` naming the entry of the `dref` (§8.7.2) the bytes of
//! those samples lie in. Both declaration forms name their samples' entry and
//! resolve it here to the data reference, which has to be the file itself.

use vstd::prelude::*;

use crate::bytes::{be16, BoxError};
use crate::sample::boxes::{DataEntry, TrackBox};
use crate::sample::error::SampleError;

verus! {

/// Bytes a sample entry holds before and including its `data_reference_index` (§8.5.2.2)
pub const SAMPLE_ENTRY_FIELDS_LEN: u64 = 8;

/// The `data_reference_index` a sample entry whose payload is `payload` carries,
/// after its six reserved bytes, or the failure of reading it
pub open spec fn entry_data_reference_index(payload: Seq<u8>) -> Result<u16, BoxError> {
    if payload.len() < SAMPLE_ENTRY_FIELDS_LEN {
        Err(BoxError::TruncatedPayload { needed: SAMPLE_ENTRY_FIELDS_LEN, available: payload.len() as u64 })
    } else {
        Ok(be16(payload[6], payload[7]))
    }
}

/// Whether a `dref` entry names the file itself: a `url ` stating no location
pub open spec fn names_this_file(entry: DataEntry) -> bool {
    match entry {
        DataEntry::Url { location } => location is None,
        DataEntry::Urn { .. } => false,
    }
}

/// The `data_reference_index` of entry `sample_description_index` of the `stsd`
/// of `trak`, which names the file itself, or why it does not resolve
pub open spec fn spec_data_reference_index(trak: TrackBox, sample_description_index: u32) -> Result<u16, SampleError> {
    let stsd = trak.sample_descriptions@;
    let dref = trak.data_entries@;
    if sample_description_index == 0 || sample_description_index > stsd.len() {
        Err(SampleError::UnknownSampleDescriptionIndex { track_id: trak.track_id, sample_description_index })
    } else {
        match entry_data_reference_index(stsd[sample_description_index - 1].payload@) {
            Err(box_error) => Err(SampleError::Box(box_error)),
            Ok(data_reference_index) => if data_reference_index == 0 || data_reference_index > dref.len() {
                Err(SampleError::UnknownDataReferenceIndex { track_id: trak.track_id, data_reference_index })
            } else if names_this_file(dref[data_reference_index - 1]) {
                Ok(data_reference_index)
            } else {
                Err(SampleError::ExternalDataReference { track_id: trak.track_id, data_reference_index })
            },
        }
    }
}

/// Reads the `data_reference_index` a sample entry whose payload is `payload` carries
fn read_data_reference_index(payload: &[u8]) -> (result: Result<u16, BoxError>)
    ensures
        result == entry_data_reference_index(payload@),
{
    if (payload.len() as u64) < SAMPLE_ENTRY_FIELDS_LEN {
        return Err(BoxError::TruncatedPayload { needed: SAMPLE_ENTRY_FIELDS_LEN, available: payload.len() as u64 });
    }
    Ok(payload[6] as u16 * 256 + payload[7] as u16)
}

/// Returns the `data_reference_index` of entry `sample_description_index` of
/// the `stsd` of `trak`, which names the file itself
///
/// Fails with [`UnknownSampleDescriptionIndex`](SampleError::UnknownSampleDescriptionIndex)
/// when the track has no such entry, with [`Box`](SampleError::Box) when the
/// entry ends before its `data_reference_index`, with
/// [`UnknownDataReferenceIndex`](SampleError::UnknownDataReferenceIndex) when
/// it names a `dref` entry the track has none of, and with
/// [`ExternalDataReference`](SampleError::ExternalDataReference) when that
/// entry names a resource other than the file itself.
pub fn data_reference_index(trak: &TrackBox, sample_description_index: u32) -> (result: Result<u16, SampleError>)
    ensures
        result == spec_data_reference_index(*trak, sample_description_index),
{
    let stsd = &trak.sample_descriptions;
    let dref = &trak.data_entries;
    if sample_description_index == 0 || sample_description_index as usize > stsd.len() {
        return Err(SampleError::UnknownSampleDescriptionIndex { track_id: trak.track_id, sample_description_index });
    }
    let entry = &stsd[sample_description_index as usize - 1];
    let data_reference_index = match read_data_reference_index(entry.payload.as_slice()) {
        Ok(data_reference_index) => data_reference_index,
        Err(box_error) => return Err(SampleError::Box(box_error)),
    };
    if data_reference_index == 0 || data_reference_index as usize > dref.len() {
        return Err(SampleError::UnknownDataReferenceIndex { track_id: trak.track_id, data_reference_index });
    }
    let names_file = match &dref[data_reference_index as usize - 1] {
        DataEntry::Url { location } => location.is_none(),
        DataEntry::Urn { .. } => false,
    };
    if names_file {
        Ok(data_reference_index)
    } else {
        Err(SampleError::ExternalDataReference { track_id: trak.track_id, data_reference_index })
    }
}

} // verus!

//! [`TrackDecodeTimes`], where the media timeline of every track stands between fragments

use std::collections::BTreeMap;

use vstd::prelude::*;

use crate::sample::error::SampleError;
use crate::sample::sample::SampleExtent;

verus! {

broadcast use vstd::laws_cmp::group_laws_cmp, vstd::std_specs::btree::group_btree_axioms;

/// Where the media timeline of every track stands, carried from one fragment to the next
///
/// A movie fragment states when its first sample is decoded only where it
/// carries a `tfdt`; where it carries none, the samples of the track carry on
/// from where the samples before them left it — the sum of their durations,
/// ISO/IEC 14496-12 §8.8.12. This holds that sum per track, and a caller
/// resolving fragments one after another [`advance`](Self::advance)s it past
/// each sample resolved.
///
/// A track no sample has been resolved for stands at zero, where its timeline
/// begins.
#[derive(Debug)]
pub struct TrackDecodeTimes {
    decode_times: BTreeMap<u32, u64>,
}

impl View for TrackDecodeTimes {
    type V = Map<u32, u64>;

    closed spec fn view(&self) -> Map<u32, u64> {
        self.decode_times@
    }
}

/// Where the next sample of `track_id` starts, as `times` holds it
pub open spec fn spec_decode_time(times: Map<u32, u64>, track_id: u32) -> u64 {
    if times.contains_key(track_id) {
        times[track_id]
    } else {
        0
    }
}

impl Clone for TrackDecodeTimes {
    fn clone(&self) -> (copy: Self)
        ensures
            copy@ == self@,
    {
        TrackDecodeTimes { decode_times: self.decode_times.clone() }
    }
}

impl Default for TrackDecodeTimes {
    /// Creates the times of a movie no fragment of which has been resolved, as [`new`](TrackDecodeTimes::new) does
    fn default() -> (times: Self)
        ensures
            times@ == Map::<u32, u64>::empty(),
    {
        Self::new()
    }
}

impl TrackDecodeTimes {
    /// Creates the times of a movie no fragment of which has been resolved
    pub fn new() -> (times: Self)
        ensures
            times@ == Map::<u32, u64>::empty(),
    {
        TrackDecodeTimes { decode_times: BTreeMap::new() }
    }

    /// Returns where the next sample of `track_id` starts, in the time scale of the track
    pub fn decode_time(&self, track_id: u32) -> (time: u64)
        ensures
            time == spec_decode_time(self@, track_id),
    {
        match self.decode_times.get(&track_id) {
            Some(time) => *time,
            None => 0,
        }
    }

    /// Moves the track of `last` to where that sample ends
    ///
    /// Fails with [`DecodeTimeOverflow`](SampleError::DecodeTimeOverflow),
    /// moving nothing, when the end of the sample runs past what 64 bits carry.
    pub fn advance(&mut self, last: &SampleExtent) -> (result: Result<(), SampleError>)
        ensures
            last@.decode_time + last@.sample_duration <= u64::MAX ==> {
                &&& result is Ok
                &&& final(self)@ == old(self)@.insert(
                    last@.track_id,
                    (last@.decode_time + last@.sample_duration) as u64,
                )
            },
            last@.decode_time + last@.sample_duration > u64::MAX ==> {
                &&& result == Err::<(), SampleError>(SampleError::DecodeTimeOverflow { track_id: last@.track_id })
                &&& final(self)@ == old(self)@
            },
    {
        match last.decode_time().checked_add(last.sample_duration() as u64) {
            Some(end) => {
                self.reach(last.track_id(), end);
                Ok(())
            },
            None => Err(SampleError::decode_time_overflow(last.track_id())),
        }
    }

    /// Moves `track_id` to `end`, where its next sample starts
    pub fn reach(&mut self, track_id: u32, end: u64)
        ensures
            final(self)@ == old(self)@.insert(track_id, end),
    {
        self.decode_times.insert(track_id, end);
    }
}

/// Moving a track past a sample leaves it where that sample ends, and every other track where it stood
pub proof fn lemma_advance_moves_one_track(times: Map<u32, u64>, track_id: u32, end: u64, other: u32)
    ensures
        spec_decode_time(times.insert(track_id, end), track_id) == end,
        other != track_id ==> spec_decode_time(times.insert(track_id, end), other) == spec_decode_time(times, other),
{
}

} // verus!

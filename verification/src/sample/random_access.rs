//! [`sync_sample_at`], a time looked up in the random access table of a track, ISO/IEC 14496-12 §8.8.10

use vstd::prelude::*;

verus! {

/// One sync sample a track fragment random access box lists
#[derive(Clone, Copy, PartialEq, Eq, Debug, Structural)]
pub struct TrackFragmentRandomAccessEntry {
    pub time: u64,
    pub moof_offset: u64,
    pub traf_number: u32,
    pub trun_number: u32,
    pub sample_number: u32,
}

/// The sync samples of one track, as its `tfra` lists them
#[derive(Clone, Debug, PartialEq, Eq)]
pub struct TrackFragmentRandomAccessBox {
    pub track_id: u32,
    pub entries: Vec<TrackFragmentRandomAccessEntry>,
}

/// The random access tables of a file, as its `mfra` carries them, one `tfra` per track
#[derive(Clone, Debug, PartialEq, Eq)]
pub struct MovieFragmentRandomAccessBox {
    pub tfra: Vec<TrackFragmentRandomAccessBox>,
}

/// Entry `i` is the latest at or before `time`, the last of those listed at that time
pub open spec fn latest_at_or_before(entries: Seq<TrackFragmentRandomAccessEntry>, time: u64, i: int) -> bool {
    &&& 0 <= i < entries.len()
    &&& entries[i].time <= time
    &&& forall|j: int| 0 <= j < entries.len() && #[trigger] entries[j].time <= time ==> entries[j].time <= entries[i].time
    &&& forall|j: int| i < j < entries.len() && #[trigger] entries[j].time <= time ==> entries[j].time < entries[i].time
}

/// Returns the sync sample `tfra` lists latest at or before `time`, if it lists one
///
/// Where several are listed at that latest time, the last of them is taken.
pub fn sync_sample_at(tfra: &TrackFragmentRandomAccessBox, time: u64) -> (found: Option<
    &TrackFragmentRandomAccessEntry,
>)
    ensures
        found matches Some(e) ==> exists|i: int|
            latest_at_or_before(tfra.entries@, time, i) && #[trigger] tfra.entries@[i] == *e,
        found is None ==> forall|j: int| 0 <= j < tfra.entries@.len() ==> #[trigger] tfra.entries@[j].time > time,
{
    let entries = &tfra.entries;
    let mut best: Option<usize> = None;
    let mut i: usize = 0;
    while i < entries.len()
        invariant
            0 <= i <= entries@.len(),
            entries == &tfra.entries,
            best matches Some(b) ==> b < i && latest_at_or_before(entries@.take(i as int), time, b as int),
            best is None ==> forall|j: int| 0 <= j < i ==> #[trigger] entries@[j].time > time,
        decreases entries@.len() - i,
    {
        let entry_time = entries[i].time;
        let ghost before = best;
        if entry_time <= time {
            match best {
                Some(b) => {
                    if entry_time >= entries[b].time {
                        best = Some(i);
                    }
                },
                None => {
                    best = Some(i);
                },
            }
        }
        proof {
            let next = entries@.take(i + 1);
            assert forall|j: int| 0 <= j < i implies #[trigger] next[j] == entries@.take(i as int)[j] by {}
            assert(next[i as int] == entries@[i as int]);
        }
        i = i + 1;
    }
    assert(entries@.take(i as int) =~= entries@);
    match best {
        Some(b) => Some(&entries[b]),
        None => None,
    }
}

} // verus!

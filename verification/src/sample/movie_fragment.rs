//! [`sample_extents`], the samples a movie fragment declares resolved against the movie, ISO/IEC 14496-12 §8.8
//!
//! Each track fragment of a `moof` is resolved by the three-step fallback of
//! §8.8.7 and §8.8.8: what a `trun` row states, then what the `tfhd` of the
//! fragment states, then what the `trex` of the track states. Where the data
//! of a run lies follows §8.8.7.1: a `tfhd` stating a `base_data_offset`
//! anchors its runs there, one setting `default-base-is-moof` anchors them at
//! the start of the `moof`, and one stating neither anchors them at the `moof`
//! for the first track fragment and at the end of the data of the track
//! fragment before it for those that follow. A run stating no `data_offset`
//! starts where the run before it ended, and the first run of a track
//! fragment at its anchor. When the samples are decoded follows §8.8.12: a
//! track fragment carrying a `tfdt` starts its samples there, and one carrying
//! none carries on from where its track stands.

use vstd::prelude::*;

use crate::sample::boxes::{
    MovieBox, MovieFragmentBox, TrackBox, TrackExtendsBox, TrackFragmentBox, TrackRunBox, TrackRunSample,
};
use crate::sample::error::SampleError;
use crate::sample::sample::{SampleExtent, SampleExtentView};
use crate::sample::sample_description::{data_reference_index, spec_data_reference_index};
use crate::sample::sample_table::{extent_views, items_are};
use crate::sample::track_decode_times::{spec_decode_time, TrackDecodeTimes};

verus! {

/// What one track fragment settles for its samples before their data is placed
///
/// The defaults are what the `tfhd` states for the fragment where it states
/// them and the `trex` of the track states where it does not; `decode_time`
/// is when the first sample of the fragment is decoded.
#[derive(Clone, Copy, PartialEq, Eq, Debug, Structural)]
pub struct SettledFragment {
    pub track_id: u32,
    pub sample_description_index: u32,
    pub sample_duration: u32,
    pub sample_size: u32,
    pub sample_flags: u32,
    pub data_reference_index: u16,
    pub decode_time: u64,
}

/// The first track of `tracks` whose `track_ID` is `track_id`
pub open spec fn track_named(tracks: Seq<TrackBox>, track_id: u32) -> Option<TrackBox>
    decreases tracks.len(),
{
    if tracks.len() == 0 {
        None
    } else if tracks[0].track_id == track_id {
        Some(tracks[0])
    } else {
        track_named(tracks.drop_first(), track_id)
    }
}

/// The first `trex` of `trex` for the track `track_id`
pub open spec fn extends_for(trex: Seq<TrackExtendsBox>, track_id: u32) -> Option<TrackExtendsBox>
    decreases trex.len(),
{
    if trex.len() == 0 {
        None
    } else if trex[0].track_id == track_id {
        Some(trex[0])
    } else {
        extends_for(trex.drop_first(), track_id)
    }
}

/// How long a row lasts, where `default` is what it lasts when it states nothing
pub open spec fn row_duration(row: TrackRunSample, default: u32) -> u32 {
    match row.sample_duration {
        Some(duration) => duration,
        None => default,
    }
}

/// How long the rows of `rows` last together
pub open spec fn rows_duration(rows: Seq<TrackRunSample>, default: u32) -> int
    decreases rows.len(),
{
    if rows.len() == 0 {
        0
    } else {
        row_duration(rows[0], default) + rows_duration(rows.drop_first(), default)
    }
}

/// How long the rows of the runs of `runs` last together
pub open spec fn runs_duration(runs: Seq<TrackRunBox>, default: u32) -> int
    decreases runs.len(),
{
    if runs.len() == 0 {
        0
    } else {
        rows_duration(runs[0].samples@, default) + runs_duration(runs.drop_first(), default)
    }
}

/// Where a track fragment settled as `settled` leaves its track: the end of
/// its last sample, or its default duration on from its start where it
/// declares an empty duration
pub open spec fn settled_end(traf: TrackFragmentBox, settled: SettledFragment) -> int {
    settled.decode_time + (if traf.tfhd.duration_is_empty { settled.sample_duration as int } else { 0 }) + runs_duration(
        traf.runs@,
        settled.sample_duration,
    )
}

/// What `traf` settles against `movie`, its track standing where `reached` has it
pub open spec fn spec_settle(traf: TrackFragmentBox, movie: MovieBox, reached: Map<u32, u64>) -> Result<SettledFragment, SampleError> {
    let tfhd = traf.tfhd;
    let track_id = tfhd.track_id;
    match movie.track_extends {
        None => Err(SampleError::MissingMovieExtends),
        Some(trex) => match (track_named(movie.tracks@, track_id), extends_for(trex@, track_id)) {
            (Some(trak), Some(defaults)) => {
                let sample_description_index = match tfhd.sample_description_index {
                    Some(index) => index,
                    None => defaults.default_sample_description_index,
                };
                let sample_duration = match tfhd.default_sample_duration {
                    Some(duration) => duration,
                    None => defaults.default_sample_duration,
                };
                match spec_data_reference_index(trak, sample_description_index) {
                    Err(failure) => Err(failure),
                    Ok(dri) => {
                        let decode_time = match traf.base_media_decode_time {
                            Some(time) => time,
                            None => spec_decode_time(reached, track_id),
                        };
                        let settled = SettledFragment {
                            track_id,
                            sample_description_index,
                            sample_duration,
                            sample_size: match tfhd.default_sample_size {
                                Some(size) => size,
                                None => defaults.default_sample_size,
                            },
                            sample_flags: match tfhd.default_sample_flags {
                                Some(flags) => flags,
                                None => defaults.default_sample_flags,
                            },
                            data_reference_index: dri,
                            decode_time,
                        };
                        if settled_end(traf, settled) > u64::MAX {
                            Err(SampleError::DecodeTimeOverflow { track_id })
                        } else {
                            Ok(settled)
                        }
                    },
                }
            },
            _ => Err(SampleError::UnknownTrackId { track_id }),
        },
    }
}

/// What every track fragment of `trafs` settles, in order, each moving its
/// track to where it leaves it, and where the tracks stand after them; or the
/// first failure
pub open spec fn settle_all(trafs: Seq<TrackFragmentBox>, movie: MovieBox, reached: Map<u32, u64>) -> Result<(Seq<SettledFragment>, Map<u32, u64>), SampleError>
    decreases trafs.len(),
{
    if trafs.len() == 0 {
        Ok((Seq::empty(), reached))
    } else {
        match spec_settle(trafs[0], movie, reached) {
            Err(failure) => Err(failure),
            Ok(settled) => match settle_all(
                trafs.drop_first(),
                movie,
                reached.insert(settled.track_id, settled_end(trafs[0], settled) as u64),
            ) {
                Err(failure) => Err(failure),
                Ok((rest, after)) => Ok((seq![settled] + rest, after)),
            },
        }
    }
}

/// Settling track fragments moves only the tracks they belong to: a track no
/// track fragment of `trafs` names stands where it stood
pub proof fn lemma_settling_moves_only_its_tracks(trafs: Seq<TrackFragmentBox>, movie: MovieBox, reached: Map<u32, u64>, track_id: u32)
    requires
        settle_all(trafs, movie, reached) is Ok,
        forall|i: int| 0 <= i < trafs.len() ==> #[trigger] trafs[i].tfhd.track_id != track_id,
    ensures
        ({
            let after = settle_all(trafs, movie, reached)->Ok_0.1;
            &&& after.contains_key(track_id) == reached.contains_key(track_id)
            &&& reached.contains_key(track_id) ==> after[track_id] == reached[track_id]
            &&& spec_decode_time(after, track_id) == spec_decode_time(reached, track_id)
        }),
    decreases trafs.len(),
{
    if trafs.len() > 0 {
        let settled = spec_settle(trafs[0], movie, reached)->Ok_0;
        let moved = reached.insert(settled.track_id, settled_end(trafs[0], settled) as u64);
        assert(trafs[0].tfhd.track_id != track_id);
        assert forall|i: int| 0 <= i < trafs.drop_first().len() implies #[trigger] trafs.drop_first()[i].tfhd.track_id != track_id by {
            assert(trafs.drop_first()[i] == trafs[i + 1]);
        }
        lemma_settling_moves_only_its_tracks(trafs.drop_first(), movie, moved, track_id);
    }
}

/// The extent of the sample `row` declares, lying from `data_offset` to `end`
pub open spec fn row_extent(row: TrackRunSample, flags: Option<u32>, settled: SettledFragment, data_offset: int, end: int, decode_time: int) -> SampleExtentView {
    SampleExtentView {
        track_id: settled.track_id,
        decode_time: decode_time as u64,
        sample_duration: row_duration(row, settled.sample_duration),
        sample_composition_time_offset: match row.sample_composition_time_offset {
            Some(offset) => offset,
            None => 0,
        },
        sample_flags: match flags {
            Some(flags) => flags,
            None => match row.sample_flags {
                Some(flags) => flags,
                None => settled.sample_flags,
            },
        },
        sample_description_index: settled.sample_description_index,
        data_reference_index: settled.data_reference_index,
        start: data_offset as u64,
        end: end as u64,
    }
}

/// The extents of the samples `rows` declare, the first starting at
/// `data_offset` and decoded at `decode_time`, `first_flags` the flags the
/// first of them takes over its own; up to the first failure, which comes
/// with them, and where the last of them ends
pub open spec fn rows_extents(rows: Seq<TrackRunSample>, first_flags: Option<u32>, settled: SettledFragment, data_offset: int, decode_time: int) -> (Seq<SampleExtentView>, Option<SampleError>, int)
    decreases rows.len(),
{
    if rows.len() == 0 {
        (Seq::empty(), None, data_offset)
    } else {
        let row = rows[0];
        let declared = match row.sample_size {
            Some(size) => size,
            None => settled.sample_size,
        };
        let end = data_offset + declared;
        if end > u64::MAX {
            (Seq::empty(), Some(SampleError::DataOffsetOverflow { track_id: settled.track_id }), data_offset)
        } else {
            let extent = row_extent(row, first_flags, settled, data_offset, end, decode_time);
            let (rest, failure, last_end) = rows_extents(
                rows.drop_first(),
                None,
                settled,
                end,
                decode_time + row_duration(row, settled.sample_duration),
            );
            (seq![extent] + rest, failure, last_end)
        }
    }
}

/// The flags a run states for its first sample stand in for whatever that
/// sample states and for the defaults; every later sample takes the flags it
/// states, or else the defaults the track fragment settled
pub proof fn lemma_first_flags_stand_in(
    rows: Seq<TrackRunSample>,
    first_flags: Option<u32>,
    settled: SettledFragment,
    data_offset: int,
    decode_time: int,
)
    ensures
        ({
            let extents = rows_extents(rows, first_flags, settled, data_offset, decode_time).0;
            &&& extents.len() <= rows.len()
            &&& forall|j: int| 0 <= j < extents.len() ==> #[trigger] extents[j].sample_flags == if j == 0 && first_flags is Some {
                first_flags->0
            } else {
                match rows[j].sample_flags {
                    Some(flags) => flags,
                    None => settled.sample_flags,
                }
            }
        }),
    decreases rows.len(),
{
    if rows.len() > 0 {
        let row = rows[0];
        let declared = match row.sample_size {
            Some(size) => size,
            None => settled.sample_size,
        };
        let end = data_offset + declared;
        if end <= u64::MAX {
            let next = decode_time + row_duration(row, settled.sample_duration);
            lemma_first_flags_stand_in(rows.drop_first(), None, settled, end, next);
            let rest = rows_extents(rows.drop_first(), None, settled, end, next).0;
            let extents = rows_extents(rows, first_flags, settled, data_offset, decode_time).0;
            assert forall|j: int| 0 < j < extents.len() implies #[trigger] extents[j].sample_flags == match rows[j].sample_flags {
                Some(flags) => flags,
                None => settled.sample_flags,
            } by {
                assert(extents[j] == rest[j - 1]);
                assert(rows.drop_first()[j - 1] == rows[j]);
            }
        }
    }
}

/// The extents of the samples the runs of `runs` declare, their offsets
/// counted from `base`, the first starting at `data_offset` unless it states
/// its own and decoded at `decode_time`; up to the first failure, which comes
/// with them, and where the last of them ends
pub open spec fn runs_extents(runs: Seq<TrackRunBox>, settled: SettledFragment, base: u64, data_offset: int, decode_time: int) -> (Seq<SampleExtentView>, Option<SampleError>, int)
    decreases runs.len(),
{
    if runs.len() == 0 {
        (Seq::empty(), None, data_offset)
    } else {
        let run = runs[0];
        let start = match run.data_offset {
            Some(stated) => base + stated,
            None => data_offset,
        };
        if start < 0 || start > u64::MAX {
            (Seq::empty(), Some(SampleError::DataOffsetOverflow { track_id: settled.track_id }), data_offset)
        } else {
            let (these, failure, end) = rows_extents(run.samples@, run.first_sample_flags, settled, start, decode_time);
            if failure is Some {
                (these, failure, end)
            } else {
                let (rest, later, last_end) = runs_extents(
                    runs.drop_first(),
                    settled,
                    base,
                    end,
                    decode_time + rows_duration(run.samples@, settled.sample_duration),
                );
                (these + rest, later, last_end)
            }
        }
    }
}

/// Where the data of a track fragment is anchored: the `base_data_offset` its
/// `tfhd` states, else the `moof` where it sets `default-base-is-moof` or is
/// the first, else where the data of the track fragment before it ends
pub open spec fn fragment_base(traf: TrackFragmentBox, moof_start: u64, data_before: Option<u64>) -> u64 {
    match traf.tfhd.base_data_offset {
        Some(base) => base,
        None => if traf.tfhd.default_base_is_moof {
            moof_start
        } else {
            match data_before {
                Some(end) => end,
                None => moof_start,
            }
        },
    }
}

/// The extents of the samples of the track fragments of `trafs`, settled as
/// `settled`, up to the first failure, which comes with them
pub open spec fn fragments_extents(trafs: Seq<TrackFragmentBox>, settled: Seq<SettledFragment>, moof_start: u64, data_before: Option<u64>) -> (Seq<SampleExtentView>, Option<SampleError>)
    decreases trafs.len(),
{
    if trafs.len() == 0 || settled.len() == 0 {
        (Seq::empty(), None)
    } else {
        let base = fragment_base(trafs[0], moof_start, data_before);
        let (these, failure, end) = runs_extents(trafs[0].runs@, settled[0], base, base as int, settled[0].decode_time as int);
        if failure is Some {
            (these, failure)
        } else {
            let (rest, later) = fragments_extents(trafs.drop_first(), settled.drop_first(), moof_start, Some(end as u64));
            (these + rest, later)
        }
    }
}

/// Returns the first track of `tracks` whose `track_ID` is `track_id`
fn find_track(tracks: &Vec<TrackBox>, track_id: u32) -> (found: Option<&TrackBox>)
    ensures
        match found {
            Some(trak) => track_named(tracks@, track_id) == Some(*trak),
            None => track_named(tracks@, track_id) is None,
        },
{
    let mut i: usize = 0;
    assert(tracks@.skip(0) =~= tracks@);
    while i < tracks.len()
        invariant
            0 <= i <= tracks.len(),
            track_named(tracks@, track_id) == track_named(tracks@.skip(i as int), track_id),
        decreases tracks.len() - i,
    {
        let ghost rest = tracks@.skip(i as int);
        assert(rest[0] == tracks@[i as int]);
        assert(rest.drop_first() =~= tracks@.skip(i + 1));
        if tracks[i].track_id == track_id {
            return Some(&tracks[i]);
        }
        i = i + 1;
    }
    assert(tracks@.skip(i as int) =~= Seq::<TrackBox>::empty());
    None
}

/// Returns the first `trex` of `trex` for the track `track_id`
fn find_extends(trex: &Vec<TrackExtendsBox>, track_id: u32) -> (found: Option<TrackExtendsBox>)
    ensures
        found == extends_for(trex@, track_id),
{
    let mut i: usize = 0;
    assert(trex@.skip(0) =~= trex@);
    while i < trex.len()
        invariant
            0 <= i <= trex.len(),
            extends_for(trex@, track_id) == extends_for(trex@.skip(i as int), track_id),
        decreases trex.len() - i,
    {
        let ghost rest = trex@.skip(i as int);
        assert(rest[0] == trex@[i as int]);
        assert(rest.drop_first() =~= trex@.skip(i + 1));
        if trex[i].track_id == track_id {
            return Some(trex[i]);
        }
        i = i + 1;
    }
    assert(trex@.skip(i as int) =~= Seq::<TrackExtendsBox>::empty());
    None
}

/// Returns `start` moved on by how long the rows of every run of `runs` last,
/// or `None` where that runs past what 64 bits carry
fn end_of_runs(runs: &Vec<TrackRunBox>, default: u32, start: u64) -> (end: Option<u64>)
    ensures
        start + runs_duration(runs@, default) <= u64::MAX ==> end == Some((start + runs_duration(runs@, default)) as u64),
        start + runs_duration(runs@, default) > u64::MAX ==> end is None,
{
    let mut end = start;
    let mut r: usize = 0;
    assert(runs@.skip(0) =~= runs@);
    while r < runs.len()
        invariant
            0 <= r <= runs.len(),
            start + runs_duration(runs@, default) == end + runs_duration(runs@.skip(r as int), default),
        decreases runs.len() - r,
    {
        let rows = &runs[r].samples;
        let ghost rest = runs@.skip(r as int);
        assert(rest[0] == runs@[r as int]);
        assert(rest.drop_first() =~= runs@.skip(r + 1));
        let mut i: usize = 0;
        assert(rows@.skip(0) =~= rows@);
        while i < rows.len()
            invariant
                0 <= i <= rows.len(),
                rows == &runs@[r as int].samples,
                rest == runs@.skip(r as int),
                rest.drop_first() == runs@.skip(r + 1),
                start + runs_duration(runs@, default) == end + rows_duration(rows@.skip(i as int), default)
                    + runs_duration(rest.drop_first(), default),
            decreases rows.len() - i,
        {
            let ghost left = rows@.skip(i as int);
            assert(left[0] == rows@[i as int]);
            assert(left.drop_first() =~= rows@.skip(i + 1));
            let lasts = match rows[i].sample_duration {
                Some(duration) => duration,
                None => default,
            };
            proof {
                lemma_rows_duration_nonnegative(rows@.skip(i + 1), default);
                lemma_runs_duration_nonnegative(rest.drop_first(), default);
            }
            end = match end.checked_add(lasts as u64) {
                Some(next) => next,
                None => return None,
            };
            i = i + 1;
        }
        assert(rows@.skip(i as int) =~= Seq::<TrackRunSample>::empty());
        r = r + 1;
    }
    assert(runs@.skip(r as int) =~= Seq::<TrackRunBox>::empty());
    Some(end)
}

/// How long rows last together is never negative
proof fn lemma_rows_duration_nonnegative(rows: Seq<TrackRunSample>, default: u32)
    ensures
        rows_duration(rows, default) >= 0,
    decreases rows.len(),
{
    if rows.len() > 0 {
        lemma_rows_duration_nonnegative(rows.drop_first(), default);
    }
}

/// How long the rows of runs last together is never negative
proof fn lemma_runs_duration_nonnegative(runs: Seq<TrackRunBox>, default: u32)
    ensures
        runs_duration(runs, default) >= 0,
    decreases runs.len(),
{
    if runs.len() > 0 {
        lemma_rows_duration_nonnegative(runs[0].samples@, default);
        lemma_runs_duration_nonnegative(runs.drop_first(), default);
    }
}

/// Settles `traf` against `movie`, and moves `reached` past its samples, ISO/IEC 14496-12 §8.8.12
///
/// A failure leaves `reached` as it was.
pub fn settle(traf: &TrackFragmentBox, movie: &MovieBox, reached: &mut TrackDecodeTimes) -> (result: Result<SettledFragment, SampleError>)
    ensures
        match spec_settle(*traf, *movie, old(reached)@) {
            Err(failure) => result == Err::<SettledFragment, SampleError>(failure) && final(reached)@ == old(reached)@,
            Ok(settled) => result == Ok::<SettledFragment, SampleError>(settled) && final(reached)@ == old(reached)@.insert(
                settled.track_id,
                settled_end(*traf, settled) as u64,
            ),
        },
{
    let trex = match &movie.track_extends {
        None => return Err(SampleError::MissingMovieExtends),
        Some(trex) => trex,
    };
    let tfhd = traf.tfhd;
    let track_id = tfhd.track_id;
    let (trak, defaults) = match (find_track(&movie.tracks, track_id), find_extends(trex, track_id)) {
        (Some(trak), Some(defaults)) => (trak, defaults),
        _ => return Err(SampleError::UnknownTrackId { track_id }),
    };
    let sample_description_index = match tfhd.sample_description_index {
        Some(index) => index,
        None => defaults.default_sample_description_index,
    };
    let sample_duration = match tfhd.default_sample_duration {
        Some(duration) => duration,
        None => defaults.default_sample_duration,
    };
    let dri = data_reference_index(trak, sample_description_index)?;
    let decode_time = match traf.base_media_decode_time {
        Some(time) => time,
        None => reached.decode_time(track_id),
    };
    let settled = SettledFragment {
        track_id,
        sample_description_index,
        sample_duration,
        sample_size: match tfhd.default_sample_size {
            Some(size) => size,
            None => defaults.default_sample_size,
        },
        sample_flags: match tfhd.default_sample_flags {
            Some(flags) => flags,
            None => defaults.default_sample_flags,
        },
        data_reference_index: dri,
        decode_time,
    };
    let mut end = decode_time;
    if tfhd.duration_is_empty {
        end = match end.checked_add(sample_duration as u64) {
            Some(next) => next,
            None => {
                proof {
                    lemma_runs_duration_nonnegative(traf.runs@, sample_duration);
                }
                return Err(SampleError::DecodeTimeOverflow { track_id });
            },
        };
    }
    let end = match end_of_runs(&traf.runs, sample_duration, end) {
        Some(end) => end,
        None => return Err(SampleError::DecodeTimeOverflow { track_id }),
    };
    reached.reach(track_id, end);
    Ok(settled)
}

/// Resolves the samples `rows` declare into `extents`, and moves `data_offset` and `decode_time` past them
fn resolve_rows(
    rows: &Vec<TrackRunSample>,
    first_flags: Option<u32>,
    settled: &SettledFragment,
    data_offset: &mut u64,
    decode_time: &mut u64,
    extents: &mut Vec<SampleExtent>,
) -> (result: Result<(), SampleError>)
    requires
        *old(decode_time) + rows_duration(rows@, settled.sample_duration) <= u64::MAX,
    ensures
        ({
            let (these, failure, end) = rows_extents(rows@, first_flags, *settled, *old(data_offset) as int, *old(decode_time) as int);
            &&& extent_views(final(extents)@) == extent_views(old(extents)@) + these
            &&& result == match failure {
                None => Ok(()),
                Some(f) => Err::<(), SampleError>(f),
            }
            &&& failure is None ==> *final(data_offset) == end && *final(decode_time) == *old(decode_time)
                + rows_duration(rows@, settled.sample_duration)
        }),
{
    let ghost goal = rows_extents(rows@, first_flags, *settled, *data_offset as int, *decode_time as int);
    let ghost start = extent_views(extents@);
    let ghost total = *decode_time + rows_duration(rows@, settled.sample_duration);
    let mut flags = first_flags;
    let mut i: usize = 0;
    let ghost mut done: Seq<SampleExtentView> = Seq::empty();
    assert(rows@.skip(0) =~= rows@);
    assert(done + goal.0 =~= goal.0);
    while i < rows.len()
        invariant
            0 <= i <= rows.len(),
            start == extent_views(old(extents)@),
            extent_views(extents@) == start + done,
            total == *old(decode_time) + rows_duration(rows@, settled.sample_duration),
            total == *decode_time + rows_duration(rows@.skip(i as int), settled.sample_duration),
            total <= u64::MAX,
            goal == rows_extents(rows@, first_flags, *settled, *old(data_offset) as int, *old(decode_time) as int),
            goal == ({
                let rest = rows_extents(rows@.skip(i as int), flags, *settled, *data_offset as int, *decode_time as int);
                (done + rest.0, rest.1, rest.2)
            }),
        decreases rows.len() - i,
    {
        let ghost left = rows@.skip(i as int);
        assert(left[0] == rows@[i as int]);
        assert(left.drop_first() =~= rows@.skip(i + 1));
        let row = rows[i];
        let declared = match row.sample_size {
            Some(size) => size,
            None => settled.sample_size,
        };
        let data_end = match data_offset.checked_add(declared as u64) {
            Some(end) => end,
            None => {
                assert(done + Seq::<SampleExtentView>::empty() =~= done);
                return Err(SampleError::DataOffsetOverflow { track_id: settled.track_id });
            },
        };
        let sample_duration = match row.sample_duration {
            Some(duration) => duration,
            None => settled.sample_duration,
        };
        let sample_flags = match flags {
            Some(flags) => flags,
            None => match row.sample_flags {
                Some(flags) => flags,
                None => settled.sample_flags,
            },
        };
        let extent = SampleExtent::new(
            settled.track_id,
            *decode_time,
            sample_duration,
            match row.sample_composition_time_offset {
                Some(offset) => offset,
                None => 0,
            },
            sample_flags,
            settled.sample_description_index,
            settled.data_reference_index,
            *data_offset..data_end,
        );
        let ghost before = extent_views(extents@);
        extents.push(extent);
        proof {
            lemma_rows_duration_nonnegative(rows@.skip(i + 1), settled.sample_duration);
            assert(extent_views(extents@) =~= before.push(extent@));
            assert(extent@ == row_extent(row, flags, *settled, *data_offset as int, data_end as int, *decode_time as int));
            let next = rows_extents(rows@.skip(i + 1), None, *settled, data_end as int, *decode_time + sample_duration);
            assert(done + (seq![extent@] + next.0) =~= done.push(extent@) + next.0);
            done = done.push(extent@);
        }
        *decode_time = *decode_time + sample_duration as u64;
        *data_offset = data_end;
        flags = None;
        i = i + 1;
    }
    assert(rows@.skip(i as int) =~= Seq::<TrackRunSample>::empty());
    assert(done + Seq::<SampleExtentView>::empty() =~= done);
    Ok(())
}

/// Resolves the samples the runs of `runs` declare into `extents`, their
/// offsets counted from `base`, and moves `data_offset` past them
fn resolve_runs(
    runs: &Vec<TrackRunBox>,
    settled: &SettledFragment,
    base: u64,
    data_offset: &mut u64,
    extents: &mut Vec<SampleExtent>,
) -> (result: Result<(), SampleError>)
    requires
        settled.decode_time + runs_duration(runs@, settled.sample_duration) <= u64::MAX,
    ensures
        ({
            let (these, failure, end) = runs_extents(runs@, *settled, base, *old(data_offset) as int, settled.decode_time as int);
            &&& extent_views(final(extents)@) == extent_views(old(extents)@) + these
            &&& result == match failure {
                None => Ok(()),
                Some(f) => Err::<(), SampleError>(f),
            }
            &&& failure is None ==> *final(data_offset) == end
        }),
{
    let ghost goal = runs_extents(runs@, *settled, base, *data_offset as int, settled.decode_time as int);
    let ghost start = extent_views(extents@);
    let ghost total = settled.decode_time + runs_duration(runs@, settled.sample_duration);
    let mut decode_time = settled.decode_time;
    let mut r: usize = 0;
    let ghost mut done: Seq<SampleExtentView> = Seq::empty();
    assert(runs@.skip(0) =~= runs@);
    assert(done + goal.0 =~= goal.0);
    while r < runs.len()
        invariant
            0 <= r <= runs.len(),
            start == extent_views(old(extents)@),
            extent_views(extents@) == start + done,
            total == settled.decode_time + runs_duration(runs@, settled.sample_duration),
            total == decode_time + runs_duration(runs@.skip(r as int), settled.sample_duration),
            total <= u64::MAX,
            goal == runs_extents(runs@, *settled, base, *old(data_offset) as int, settled.decode_time as int),
            goal == ({
                let rest = runs_extents(runs@.skip(r as int), *settled, base, *data_offset as int, decode_time as int);
                (done + rest.0, rest.1, rest.2)
            }),
        decreases runs.len() - r,
    {
        let ghost left = runs@.skip(r as int);
        assert(left[0] == runs@[r as int]);
        assert(left.drop_first() =~= runs@.skip(r + 1));
        let run = &runs[r];
        if let Some(stated) = run.data_offset {
            *data_offset = match base.checked_add_signed(stated as i64) {
                Some(start) => start,
                None => {
                    assert(done + Seq::<SampleExtentView>::empty() =~= done);
                    return Err(SampleError::DataOffsetOverflow { track_id: settled.track_id });
                },
            };
        }
        proof {
            lemma_runs_duration_nonnegative(runs@.skip(r + 1), settled.sample_duration);
        }
        let ghost at = *data_offset;
        let ghost decoded = decode_time;
        let ghost before = extent_views(extents@);
        let outcome = resolve_rows(&run.samples, run.first_sample_flags, settled, data_offset, &mut decode_time, extents);
        let ghost these = rows_extents(run.samples@, run.first_sample_flags, *settled, at as int, decoded as int);
        match outcome {
            Err(failure) => {
                assert(extent_views(extents@) =~= start + (done + these.0));
                return Err(failure);
            },
            Ok(()) => {
                proof {
                    let next = runs_extents(runs@.skip(r + 1), *settled, base, these.2, decode_time as int);
                    assert(done + (these.0 + next.0) =~= (done + these.0) + next.0);
                    done = done + these.0;
                }
            },
        }
        r = r + 1;
    }
    assert(runs@.skip(r as int) =~= Seq::<TrackRunBox>::empty());
    assert(done + Seq::<SampleExtentView>::empty() =~= done);
    Ok(())
}

/// Whether the fragments of `trafs`, settled as `settled`, fit the decode times of their tracks
pub open spec fn fit(trafs: Seq<TrackFragmentBox>, settled: Seq<SettledFragment>) -> bool {
    &&& trafs.len() == settled.len()
    &&& forall|i: int| 0 <= i < trafs.len() ==> settled[i].decode_time + runs_duration(#[trigger] trafs[i].runs@, settled[i].sample_duration) <= u64::MAX
}

/// Places the data of every track fragment of `movie_fragment`, settled as
/// `settled`, into `extents`, stopping at the first failure
fn resolve_data(
    movie_fragment: &MovieFragmentBox,
    settled: &Vec<SettledFragment>,
    moof_start: u64,
    extents: &mut Vec<SampleExtent>,
) -> (result: Result<(), SampleError>)
    requires
        fit(movie_fragment.track_fragments@, settled@),
    ensures
        ({
            let (these, failure) = fragments_extents(movie_fragment.track_fragments@, settled@, moof_start, None);
            &&& extent_views(final(extents)@) == extent_views(old(extents)@) + these
            &&& result == match failure {
                None => Ok(()),
                Some(f) => Err::<(), SampleError>(f),
            }
        }),
{
    let trafs = &movie_fragment.track_fragments;
    let ghost goal = fragments_extents(trafs@, settled@, moof_start, None);
    let ghost start = extent_views(extents@);
    let mut data_before: Option<u64> = None;
    let mut t: usize = 0;
    let ghost mut done: Seq<SampleExtentView> = Seq::empty();
    assert(trafs@.skip(0) =~= trafs@);
    assert(settled@.skip(0) =~= settled@);
    assert(done + goal.0 =~= goal.0);
    while t < trafs.len()
        invariant
            0 <= t <= trafs.len(),
            trafs == &movie_fragment.track_fragments,
            fit(trafs@, settled@),
            start == extent_views(old(extents)@),
            extent_views(extents@) == start + done,
            goal == fragments_extents(trafs@, settled@, moof_start, None),
            goal == ({
                let rest = fragments_extents(trafs@.skip(t as int), settled@.skip(t as int), moof_start, data_before);
                (done + rest.0, rest.1)
            }),
        decreases trafs.len() - t,
    {
        let ghost left = trafs@.skip(t as int);
        let ghost left_settled = settled@.skip(t as int);
        assert(left[0] == trafs@[t as int]);
        assert(left_settled[0] == settled@[t as int]);
        assert(left.drop_first() =~= trafs@.skip(t + 1));
        assert(left_settled.drop_first() =~= settled@.skip(t + 1));
        let traf = &trafs[t];
        let tfhd = traf.tfhd;
        let base = match tfhd.base_data_offset {
            Some(base) => base,
            None => if tfhd.default_base_is_moof {
                moof_start
            } else {
                match data_before {
                    Some(end) => end,
                    None => moof_start,
                }
            },
        };
        let mut data_offset = base;
        let ghost before = extent_views(extents@);
        let outcome = resolve_runs(&traf.runs, &settled[t], base, &mut data_offset, extents);
        let ghost these = runs_extents(traf.runs@, settled@[t as int], base, base as int, settled@[t as int].decode_time as int);
        match outcome {
            Err(failure) => {
                assert(extent_views(extents@) =~= start + (done + these.0));
                return Err(failure);
            },
            Ok(()) => {
                proof {
                    let next = fragments_extents(trafs@.skip(t + 1), settled@.skip(t + 1), moof_start, Some(data_offset));
                    assert(done + (these.0 + next.0) =~= (done + these.0) + next.0);
                    done = done + these.0;
                }
            },
        }
        data_before = Some(data_offset);
        t = t + 1;
    }
    assert(trafs@.skip(t as int) =~= Seq::<TrackFragmentBox>::empty());
    assert(done + Seq::<SampleExtentView>::empty() =~= done);
    Ok(())
}

/// Resolves the samples `movie_fragment` declares against `movie`, in the order it declares them
///
/// `moof_start` is where the `moof` begins in the file. Before the extents
/// are returned, `decode_times` is moved to where every track fragment leaves
/// its track, so the fragment resolved next carries on from there whether or
/// not the extents are taken; a failure returned outright leaves it as it was.
/// A row stating no composition time offset has one of zero.
///
/// Fails outright, before `decode_times` moves, with the failure of
/// [`settle`] for the first track fragment that does not settle:
/// [`MissingMovieExtends`](SampleError::MissingMovieExtends),
/// [`UnknownTrackId`](SampleError::UnknownTrackId), the failures of
/// [`data_reference_index`], or
/// [`DecodeTimeOverflow`](SampleError::DecodeTimeOverflow). The extents come
/// out in the order the fragment declares them and stop at the first
/// [`DataOffsetOverflow`](SampleError::DataOffsetOverflow), which is the last
/// item.
pub fn sample_extents(
    movie_fragment: &MovieFragmentBox,
    movie: &MovieBox,
    moof_start: u64,
    decode_times: &mut TrackDecodeTimes,
) -> (result: Result<Vec<Result<SampleExtent, SampleError>>, SampleError>)
    ensures
        match settle_all(movie_fragment.track_fragments@, *movie, old(decode_times)@) {
            Err(failure) => result == Err::<Vec<Result<SampleExtent, SampleError>>, SampleError>(failure)
                && final(decode_times)@ == old(decode_times)@,
            Ok((settled, reached)) => {
                let (extents, failure) = fragments_extents(movie_fragment.track_fragments@, settled, moof_start, None);
                &&& final(decode_times)@ == reached
                &&& result matches Ok(items) && items_are(items@, extents, failure)
            },
        },
{
    let trafs = &movie_fragment.track_fragments;
    let mut reached = decode_times.clone();
    let mut settled: Vec<SettledFragment> = Vec::new();
    let mut t: usize = 0;
    let ghost goal = settle_all(trafs@, *movie, decode_times@);
    assert(trafs@.skip(0) =~= trafs@);
    while t < trafs.len()
        invariant
            0 <= t <= trafs.len(),
            trafs == &movie_fragment.track_fragments,
            settled@.len() == t,
            fit(trafs@.take(t as int), settled@),
            goal == settle_all(trafs@, *movie, old(decode_times)@),
            decode_times@ == old(decode_times)@,
            goal == match settle_all(trafs@.skip(t as int), *movie, reached@) {
                Err(failure) => Err(failure),
                Ok((rest, after)) => Ok((settled@ + rest, after)),
            },
        decreases trafs.len() - t,
    {
        let ghost left = trafs@.skip(t as int);
        assert(left[0] == trafs@[t as int]);
        assert(left.drop_first() =~= trafs@.skip(t + 1));
        let ghost at = reached@;
        match settle(&trafs[t], movie, &mut reached) {
            Err(failure) => {
                return Err(failure);
            },
            Ok(one) => {
                proof {
                    lemma_runs_duration_nonnegative(trafs@[t as int].runs@, one.sample_duration);
                    assert(trafs@.take(t + 1) =~= trafs@.take(t as int).push(trafs@[t as int]));
                    match settle_all(trafs@.skip(t + 1), *movie, reached@) {
                        Err(_) => {},
                        Ok((rest, after)) => {
                            assert(settled@ + (seq![one] + rest) =~= settled@.push(one) + rest);
                        },
                    }
                }
                settled.push(one);
                proof {
                    assert forall|i: int| 0 <= i < t + 1 implies settled@[i].decode_time + runs_duration(
                        #[trigger] trafs@.take(t + 1)[i].runs@,
                        settled@[i].sample_duration,
                    ) <= u64::MAX by {
                        if i < t {
                            assert(trafs@.take(t + 1)[i] == trafs@.take(t as int)[i]);
                        }
                    }
                }
            },
        }
        t = t + 1;
    }
    assert(trafs@.skip(t as int) =~= Seq::<TrackFragmentBox>::empty());
    assert(trafs@.take(t as int) =~= trafs@);
    assert(settled@ + Seq::<SettledFragment>::empty() =~= settled@);
    *decode_times = reached;
    let mut extents: Vec<SampleExtent> = Vec::new();
    let outcome = resolve_data(movie_fragment, &settled, moof_start, &mut extents);
    assert(extent_views(extents@) =~= Seq::<SampleExtentView>::empty() + fragments_extents(trafs@, settled@, moof_start, None).0);
    let mut items: Vec<Result<SampleExtent, SampleError>> = Vec::new();
    let mut i: usize = 0;
    while i < extents.len()
        invariant
            0 <= i <= extents.len(),
            items@.len() == i,
            forall|j: int| 0 <= j < i ==> (#[trigger] items@[j] matches Ok(e) && e@ == extent_views(extents@)[j]),
        decreases extents.len() - i,
    {
        items.push(Ok(extents[i]));
        i = i + 1;
    }
    if let Err(failure) = outcome {
        items.push(Err(failure));
    }
    Ok(items)
}

} // verus!

//! [`sample_extents`], the samples the sample tables of a movie declare resolved to where they lie, ISO/IEC 14496-12 §8.5.1 and §8.7
//!
//! The `stbl` of each track spreads what it declares about a sample over four
//! tables, and a sample is read across them: the `stts` states when it is
//! decoded, as a delta from the sample before it summed from zero (§8.6.1.2);
//! the `stsc` states which chunk it lies in and which `stsd` entry describes
//! it, by runs of chunks holding the same number of samples (§8.7.4); the
//! `stsz` states how many bytes it occupies (§8.7.3.2); and the `stco` states
//! where its chunk starts in the file, the samples of a chunk lying one after
//! another from there (§8.7.5).

use vstd::prelude::*;

use crate::sample::boxes::{MovieBox, SampleSizes, SampleToChunkEntry, TimeToSampleEntry, TrackBox};
use crate::sample::error::SampleError;
use crate::sample::sample::{SampleExtent, SampleExtentView};
use crate::sample::sample_description::{data_reference_index, spec_data_reference_index};

verus! {

/// How long sample `k` lasts, counting the samples of the `stts` entries from `e` on; `None` past the last
pub open spec fn delta_from(stts: Seq<TimeToSampleEntry>, e: int, k: int) -> Option<u32>
    decreases stts.len() - e,
{
    if e < 0 || e >= stts.len() || k < 0 {
        None
    } else if k < stts[e].sample_count {
        Some(stts[e].sample_delta)
    } else {
        delta_from(stts, e + 1, k - stts[e].sample_count)
    }
}

/// How long sample `k` of a track lasts, by its `stts`; `None` past the last sample it counts
pub open spec fn delta_at(stts: Seq<TimeToSampleEntry>, k: int) -> Option<u32> {
    delta_from(stts, 0, k)
}

/// When sample `k` of a track is decoded: how long the samples before it last, summed from zero
pub open spec fn decode_time_at(stts: Seq<TimeToSampleEntry>, k: nat) -> int
    decreases k,
{
    if k == 0 {
        0
    } else {
        decode_time_at(stts, (k - 1) as nat) + match delta_at(stts, k - 1) {
            Some(delta) => delta as int,
            None => 0,
        }
    }
}

/// The bytes sample `k` of a track occupies, by its `stsz`; `None` past the last sample it counts
pub open spec fn size_at(sizes: SampleSizes, k: int) -> Option<u32> {
    match sizes {
        SampleSizes::Uniform { sample_size, sample_count } => if 0 <= k < sample_count {
            Some(sample_size)
        } else {
            None
        },
        SampleSizes::PerSample(entries) => if 0 <= k < entries@.len() {
            Some(entries@[k])
        } else {
            None
        },
    }
}

/// How many samples the `stsz` of a track counts
pub open spec fn size_count(sizes: SampleSizes) -> nat {
    match sizes {
        SampleSizes::Uniform { sample_count, .. } => sample_count as nat,
        SampleSizes::PerSample(entries) => entries@.len(),
    }
}

/// The extent of sample `k` of `trak`, lying from `data_offset` to `end` in a chunk of `run`
pub open spec fn table_extent(trak: TrackBox, run: SampleToChunkEntry, data_reference_index: u16, data_offset: int, end: int, k: nat, delta: u32) -> SampleExtentView {
    SampleExtentView {
        track_id: trak.track_id,
        decode_time: decode_time_at(trak.time_to_sample@, k) as u64,
        sample_duration: delta,
        sample_composition_time_offset: 0,
        sample_flags: 0,
        sample_description_index: run.sample_description_index,
        data_reference_index,
        start: data_offset as u64,
        end: end as u64,
    }
}

/// The extents of the `left` samples of a chunk of `run` that remain, the
/// first being sample `k` of `trak` starting at `data_offset`, up to the
/// first failure, which comes with them
pub open spec fn chunk_extents(
    trak: TrackBox,
    run: SampleToChunkEntry,
    data_reference_index: u16,
    left: nat,
    data_offset: int,
    k: nat,
) -> (Seq<SampleExtentView>, Option<SampleError>)
    decreases left,
{
    if left == 0 {
        (Seq::empty(), None)
    } else {
        match (size_at(trak.sample_sizes, k as int), delta_at(trak.time_to_sample@, k as int)) {
            (Some(size), Some(delta)) => {
                let end = data_offset + size;
                if end > u64::MAX {
                    (Seq::empty(), Some(SampleError::DataOffsetOverflow { track_id: trak.track_id }))
                } else {
                    let extent = table_extent(trak, run, data_reference_index, data_offset, end, k, delta);
                    if decode_time_at(trak.time_to_sample@, k + 1) > u64::MAX {
                        (seq![extent], Some(SampleError::DecodeTimeOverflow { track_id: trak.track_id }))
                    } else {
                        let (rest, failure) = chunk_extents(trak, run, data_reference_index, (left - 1) as nat, end, k + 1);
                        (seq![extent] + rest, failure)
                    }
                }
            },
            _ => (Seq::empty(), Some(SampleError::SampleCountMismatch { track_id: trak.track_id })),
        }
    }
}

/// The extents of the samples of `trak` from chunk `c` on, counted from zero,
/// the runs from `r` on not reached yet, `active` the run and data reference
/// the chunk before lay in, and `k` the samples already resolved; up to the
/// first failure, which comes with them
pub open spec fn track_extents_from(
    trak: TrackBox,
    c: nat,
    r: nat,
    active: Option<(SampleToChunkEntry, u16)>,
    k: nat,
) -> (Seq<SampleExtentView>, Option<SampleError>)
    decreases trak.chunk_offsets@.len() - c,
{
    let stsc = trak.sample_to_chunk@;
    let chunks = trak.chunk_offsets@;
    if c >= chunks.len() {
        if r < stsc.len() {
            (Seq::empty(), Some(SampleError::FirstChunkOutOfRange { track_id: trak.track_id, first_chunk: stsc[r as int].first_chunk }))
        } else if size_at(trak.sample_sizes, k as int) is Some || delta_at(trak.time_to_sample@, k as int) is Some {
            (Seq::empty(), Some(SampleError::SampleCountMismatch { track_id: trak.track_id }))
        } else {
            (Seq::empty(), None)
        }
    } else {
        let starts_run = r < stsc.len() && stsc[r as int].first_chunk == c + 1;
        let described = if starts_run {
            spec_data_reference_index(trak, stsc[r as int].sample_description_index)
        } else {
            Ok(0)
        };
        match described {
            Err(failure) => (Seq::empty(), Some(failure)),
            Ok(dri) => {
                let r2: nat = if starts_run { r + 1 } else { r };
                let active2 = if starts_run { Some((stsc[r as int], dri)) } else { active };
                match active2 {
                    None => track_extents_from(trak, c + 1, r2, None, k),
                    Some((run, run_dri)) => {
                        let (these, failure) = chunk_extents(trak, run, run_dri, run.samples_per_chunk as nat, chunks[c as int] as int, k);
                        if failure is Some {
                            (these, failure)
                        } else {
                            let (rest, later) = track_extents_from(trak, c + 1, r2, active2, (k + run.samples_per_chunk) as nat);
                            (these + rest, later)
                        }
                    },
                }
            },
        }
    }
}

/// The extents of the samples the tables of `trak` declare, in sample order,
/// up to the first failure, which comes with them
pub open spec fn track_extents(trak: TrackBox) -> (Seq<SampleExtentView>, Option<SampleError>) {
    let stsc = trak.sample_to_chunk@;
    if stsc.len() > 0 && stsc[0].first_chunk != 1 {
        (Seq::empty(), Some(SampleError::FirstChunkOutOfRange { track_id: trak.track_id, first_chunk: stsc[0].first_chunk }))
    } else {
        track_extents_from(trak, 0, 0, None, 0)
    }
}

/// How many samples the entries of an `stts` count from entry `e` on
pub open spec fn stts_count_from(stts: Seq<TimeToSampleEntry>, e: int) -> nat
    decreases stts.len() - e,
{
    if e < 0 || e >= stts.len() {
        0
    } else {
        (stts[e].sample_count + stts_count_from(stts, e + 1)) as nat
    }
}

/// A sample lasts what the `stts` gives it exactly while it is among those the entries count
proof fn lemma_delta_counted(stts: Seq<TimeToSampleEntry>, e: int, k: int)
    requires
        0 <= e,
    ensures
        delta_from(stts, e, k) is Some <==> 0 <= k < stts_count_from(stts, e),
    decreases stts.len() - e,
{
    if e < stts.len() && k >= stts[e].sample_count {
        lemma_delta_counted(stts, e + 1, k - stts[e].sample_count);
    }
}

/// Whether extent `j` of `extents` lies where the tables of `trak` lay the
/// samples of a chunk: at the first byte of a chunk, or, within a chunk,
/// where the extent before it ends
pub open spec fn lies_after(trak: TrackBox, extents: Seq<SampleExtentView>, j: int) -> bool {
    ||| (exists|c: int| 0 <= c < trak.chunk_offsets@.len() && #[trigger] trak.chunk_offsets@[c] == extents[j].start)
    ||| (j > 0 && extents[j].start == extents[j - 1].end)
}

/// Whether `extent` is sample `k` of `trak` as its tables declare it: of its
/// track, decoded once the samples before it have lasted, lasting what the
/// `stts` gives it, and occupying as many bytes as the `stsz` gives it
pub open spec fn declared_sample(trak: TrackBox, extent: SampleExtentView, k: nat) -> bool {
    &&& extent.track_id == trak.track_id
    &&& extent.decode_time == decode_time_at(trak.time_to_sample@, k)
    &&& delta_at(trak.time_to_sample@, k as int) == Some(extent.sample_duration)
    &&& size_at(trak.sample_sizes, k as int) matches Some(size) && extent.end - extent.start == size
}

/// No sample is decoded before zero
proof fn lemma_decode_time_from_zero(stts: Seq<TimeToSampleEntry>, k: nat)
    ensures
        decode_time_at(stts, k) >= 0,
    decreases k,
{
    if k > 0 {
        lemma_decode_time_from_zero(stts, (k - 1) as nat);
    }
}

/// The extents of the samples of a chunk are the samples the tables declare,
/// and, where nothing failed, as many as the chunk holds
proof fn lemma_chunk_samples_declared(
    trak: TrackBox,
    run: SampleToChunkEntry,
    data_reference_index: u16,
    left: nat,
    data_offset: int,
    k: nat,
)
    requires
        0 <= data_offset <= u64::MAX,
        decode_time_at(trak.time_to_sample@, k) <= u64::MAX,
    ensures
        ({
            let (these, failure) = chunk_extents(trak, run, data_reference_index, left, data_offset, k);
            &&& forall|j: int| 0 <= j < these.len() ==> declared_sample(trak, #[trigger] these[j], (k + j) as nat)
            &&& failure is None ==> these.len() == left && decode_time_at(trak.time_to_sample@, k + left) <= u64::MAX
            &&& these.len() > 0 ==> these[0].start == data_offset
            &&& forall|j: int| 0 < j < these.len() ==> #[trigger] these[j].start == these[j - 1].end
        }),
    decreases left,
{
    if left > 0 {
        if let (Some(size), Some(delta)) = (size_at(trak.sample_sizes, k as int), delta_at(trak.time_to_sample@, k as int)) {
            let end = data_offset + size;
            if end <= u64::MAX {
                lemma_decode_time_from_zero(trak.time_to_sample@, k);
                let extent = table_extent(trak, run, data_reference_index, data_offset, end, k, delta);
                assert(declared_sample(trak, extent, k));
                if decode_time_at(trak.time_to_sample@, k + 1) <= u64::MAX {
                    lemma_chunk_samples_declared(trak, run, data_reference_index, (left - 1) as nat, end, k + 1);
                    let (rest, failure) = chunk_extents(trak, run, data_reference_index, (left - 1) as nat, end, k + 1);
                    let these = seq![extent] + rest;
                    assert forall|j: int| 0 <= j < these.len() implies declared_sample(trak, #[trigger] these[j], (k + j) as nat) by {
                        if j > 0 {
                            assert(these[j] == rest[j - 1]);
                            assert(declared_sample(trak, rest[j - 1], (k + 1 + (j - 1)) as nat));
                        }
                    }
                    assert forall|j: int| 0 < j < these.len() implies #[trigger] these[j].start == these[j - 1].end by {
                        assert(these[j] == rest[j - 1]);
                        if j > 1 {
                            assert(these[j - 1] == rest[j - 2]);
                            assert(rest[j - 1].start == rest[j - 1 - 1].end);
                        }
                    }
                    if failure is None {
                        assert((k + 1 + (left - 1)) as nat == k + left);
                    }
                }
            }
        }
    }
}

/// The extents of the samples of `trak` from chunk `c` on are the samples the
/// tables declare, counted from `k`
proof fn lemma_track_samples_declared_from(
    trak: TrackBox,
    c: nat,
    r: nat,
    active: Option<(SampleToChunkEntry, u16)>,
    k: nat,
)
    requires
        decode_time_at(trak.time_to_sample@, k) <= u64::MAX,
    ensures
        ({
            let (these, failure) = track_extents_from(trak, c, r, active, k);
            &&& forall|j: int| 0 <= j < these.len() ==> declared_sample(trak, #[trigger] these[j], (k + j) as nat)
            &&& failure is None ==> size_at(trak.sample_sizes, (k + these.len()) as int) is None
                && delta_at(trak.time_to_sample@, (k + these.len()) as int) is None
            &&& forall|j: int| 0 <= j < these.len() ==> #[trigger] lies_after(trak, these, j)
        }),
    decreases trak.chunk_offsets@.len() - c,
{
    let stsc = trak.sample_to_chunk@;
    let chunks = trak.chunk_offsets@;
    if c >= chunks.len() {
        assert(track_extents_from(trak, c, r, active, k).0.len() == 0);
    } else {
        let starts_run = r < stsc.len() && stsc[r as int].first_chunk == c + 1;
        let described = if starts_run {
            spec_data_reference_index(trak, stsc[r as int].sample_description_index)
        } else {
            Ok(0)
        };
        if described is Err {
            assert(track_extents_from(trak, c, r, active, k).0.len() == 0);
        }
        if let Ok(dri) = described {
            let r2: nat = if starts_run { r + 1 } else { r };
            let active2 = if starts_run { Some((stsc[r as int], dri)) } else { active };
            match active2 {
                None => {
                    lemma_track_samples_declared_from(trak, c + 1, r2, None, k);
                    assert(track_extents_from(trak, c, r, active, k) == track_extents_from(trak, c + 1, r2, None, k));
                },
                Some((run, run_dri)) => {
                    let spc = run.samples_per_chunk as nat;
                    lemma_chunk_samples_declared(trak, run, run_dri, spc, chunks[c as int] as int, k);
                    let (these, failure) = chunk_extents(trak, run, run_dri, spc, chunks[c as int] as int, k);
                    if failure is Some {
                        assert(track_extents_from(trak, c, r, active, k).0 == these);
                        assert forall|j: int| 0 <= j < these.len() implies #[trigger] lies_after(trak, these, j) by {
                            if j == 0 {
                                assert(trak.chunk_offsets@[c as int] == these[0].start);
                            }
                        }
                    } else {
                        lemma_track_samples_declared_from(trak, c + 1, r2, active2, k + spc);
                        let rest = track_extents_from(trak, c + 1, r2, active2, k + spc).0;
                        let all = these + rest;
                        assert forall|j: int| 0 <= j < all.len() implies declared_sample(trak, #[trigger] all[j], (k + j) as nat) by {
                            if j >= these.len() {
                                assert(all[j] == rest[j - spc]);
                                assert(declared_sample(trak, rest[j - spc], (k + spc + (j - spc)) as nat));
                            } else {
                                assert(all[j] == these[j]);
                            }
                        }
                        assert(track_extents_from(trak, c, r, active, k).0 == all);
                        assert((k + spc + rest.len()) as nat == k + all.len());
                        assert forall|j: int| 0 <= j < all.len() implies #[trigger] lies_after(trak, all, j) by {
                            if j == 0 {
                                if these.len() > 0 {
                                    assert(all[0] == these[0]);
                                    assert(trak.chunk_offsets@[c as int] == all[0].start);
                                } else {
                                    assert(all[0] == rest[0]);
                                    assert(lies_after(trak, rest, 0));
                                }
                            } else if j < these.len() {
                                assert(all[j] == these[j] && all[j - 1] == these[j - 1]);
                            } else if j == these.len() {
                                assert(all[j] == rest[0]);
                                assert(lies_after(trak, rest, 0));
                            } else {
                                assert(all[j] == rest[j - these.len()] && all[j - 1] == rest[j - these.len() - 1]);
                                assert(lies_after(trak, rest, j - these.len()));
                            }
                        }
                    }
                },
            }
        }
    }
}

/// The extents the tables of a track resolve to are its samples as the tables
/// declare them, in sample order: sample `i` is of the track, lasts what the
/// `stts` gives it and occupies as many bytes as the `stsz` gives it; the first
/// is decoded at zero, and each after it once the one before it has lasted.
/// Each lies at the first byte of a chunk or where the one before it ends, and
/// where nothing failed there are as many as the `stts` and the `stsz` count
pub proof fn lemma_track_samples_as_declared(trak: TrackBox)
    ensures
        ({
            let extents = track_extents(trak).0;
            &&& forall|i: int| 0 <= i < extents.len() ==> declared_sample(trak, #[trigger] extents[i], i as nat)
            &&& extents.len() > 0 ==> extents[0].decode_time == 0
            &&& forall|i: int| 0 <= i < extents.len() - 1 ==> #[trigger] extents[i + 1].decode_time
                == extents[i].decode_time + extents[i].sample_duration
            &&& forall|j: int| 0 <= j < extents.len() ==> #[trigger] lies_after(trak, extents, j)
            &&& track_extents(trak).1 is None ==> extents.len() == size_count(trak.sample_sizes)
                && extents.len() == stts_count_from(trak.time_to_sample@, 0)
        }),
{
    let stsc = trak.sample_to_chunk@;
    if !(stsc.len() > 0 && stsc[0].first_chunk != 1) {
        lemma_track_samples_declared_from(trak, 0, 0, None, 0);
    }
    let extents = track_extents(trak).0;
    if extents.len() > 0 {
        assert(declared_sample(trak, extents[0], 0));
    }
    if track_extents(trak).1 is None {
        let n = extents.len() as int;
        lemma_delta_counted(trak.time_to_sample@, 0, n);
        if n > 0 {
            assert(declared_sample(trak, extents[n - 1], (n - 1) as nat));
            lemma_delta_counted(trak.time_to_sample@, 0, n - 1);
        }
    }
    assert forall|i: int| 0 <= i < extents.len() - 1 implies #[trigger] extents[i + 1].decode_time
        == extents[i].decode_time + extents[i].sample_duration by {
        assert(declared_sample(trak, extents[i], i as nat));
        assert(declared_sample(trak, extents[i + 1], (i + 1) as nat));
    }
}

/// The extents of the samples of every track of `tracks`, track after track, up to the first failure
pub open spec fn tracks_extents(tracks: Seq<TrackBox>) -> (Seq<SampleExtentView>, Option<SampleError>)
    decreases tracks.len(),
{
    if tracks.len() == 0 {
        (Seq::empty(), None)
    } else {
        let (these, failure) = track_extents(tracks[0]);
        if failure is Some {
            (these, failure)
        } else {
            let (rest, later) = tracks_extents(tracks.drop_first());
            (these + rest, later)
        }
    }
}

/// Where `x` joins `s`, sorted by start: after every one of the first `k` starting at or before it
pub open spec fn start_position(s: Seq<SampleExtentView>, x: SampleExtentView, k: int) -> int
    decreases k,
{
    if k <= 0 || s[k - 1].start <= x.start {
        k
    } else {
        start_position(s, x, k - 1)
    }
}

/// `s` ordered by the byte each extent starts at, those starting at the same byte in the order they came
pub open spec fn sorted_by_start(s: Seq<SampleExtentView>) -> Seq<SampleExtentView>
    decreases s.len(),
{
    if s.len() == 0 {
        s
    } else {
        let sorted = sorted_by_start(s.drop_last());
        sorted.insert(start_position(sorted, s.last(), sorted.len() as int), s.last())
    }
}

/// Whether the extents of `s` are ordered by the byte each starts at
pub open spec fn starts_in_order(s: Seq<SampleExtentView>) -> bool {
    forall|i: int, j: int| 0 <= i < j < s.len() ==> #[trigger] s[i].start <= #[trigger] s[j].start
}

/// Where `x` joins the first `k` of `s`, every one before it starts at or
/// before it, and every one after it, among the first `k`, past it
proof fn lemma_start_position(s: Seq<SampleExtentView>, x: SampleExtentView, k: int)
    requires
        0 <= k <= s.len(),
    ensures
        0 <= start_position(s, x, k) <= k,
        start_position(s, x, k) > 0 ==> s[start_position(s, x, k) - 1].start <= x.start,
        forall|i: int| start_position(s, x, k) <= i < k ==> #[trigger] s[i].start > x.start,
    decreases k,
{
    if k > 0 && s[k - 1].start > x.start {
        lemma_start_position(s, x, k - 1);
    }
}

/// The extents `s` sorted by start are ordered by the byte each starts at,
/// and are the extents of `s`, each as often as in `s`
pub proof fn lemma_sorted_by_start(s: Seq<SampleExtentView>)
    ensures
        starts_in_order(sorted_by_start(s)),
        sorted_by_start(s).to_multiset() == s.to_multiset(),
    decreases s.len(),
{
    broadcast use vstd::seq_lib::group_to_multiset_ensures;

    if s.len() > 0 {
        let sorted = sorted_by_start(s.drop_last());
        lemma_sorted_by_start(s.drop_last());
        let x = s.last();
        let p = start_position(sorted, x, sorted.len() as int);
        lemma_start_position(sorted, x, sorted.len() as int);
        let inserted = sorted.insert(p, x);
        assert forall|i: int, j: int| 0 <= i < j < inserted.len() implies #[trigger] inserted[i].start <= #[trigger] inserted[j].start by {
            if j < p {
                assert(inserted[i] == sorted[i] && inserted[j] == sorted[j]);
            } else if j == p {
                assert(inserted[i] == sorted[i]);
                assert(sorted[i].start <= sorted[p - 1].start);
            } else if i == p {
                assert(inserted[j] == sorted[j - 1]);
            } else if i < p {
                assert(inserted[i] == sorted[i] && inserted[j] == sorted[j - 1]);
            } else {
                assert(inserted[i] == sorted[i - 1] && inserted[j] == sorted[j - 1]);
            }
        }
        vstd::seq_lib::to_multiset_insert(sorted, p, x);
        assert(s =~= s.drop_last().push(x));
    }
}

/// The views of a sequence of extents
pub open spec fn extent_views(s: Seq<SampleExtent>) -> Seq<SampleExtentView> {
    s.map_values(|e: SampleExtent| e@)
}

/// The items `sample_extents` hands out for `movie`: the extents of every
/// track ordered by where their bytes start, then the failure the tracks
/// stopped at, if any
pub open spec fn spec_sample_extents(movie: MovieBox) -> (Seq<SampleExtentView>, Option<SampleError>) {
    let (extents, failure) = tracks_extents(movie.tracks@);
    (sorted_by_start(extents), failure)
}

/// The extents of `s` starting at byte `start`, in the order they come in `s`
pub open spec fn starting_at(s: Seq<SampleExtentView>, start: u64) -> Seq<SampleExtentView>
    decreases s.len(),
{
    if s.len() == 0 {
        s
    } else if s.last().start == start {
        starting_at(s.drop_last(), start).push(s.last())
    } else {
        starting_at(s.drop_last(), start)
    }
}

/// Putting `x` into `t` at `p` adds it, to the end, to those starting where it does,
/// where none from `p` on starts there, and changes those starting anywhere else not at all
proof fn lemma_starting_at_insert(t: Seq<SampleExtentView>, p: int, x: SampleExtentView, start: u64)
    requires
        0 <= p <= t.len(),
        x.start == start ==> forall|i: int| p <= i < t.len() ==> #[trigger] t[i].start != start,
    ensures
        starting_at(t.insert(p, x), start) == if x.start == start {
            starting_at(t, start).push(x)
        } else {
            starting_at(t, start)
        },
    decreases t.len() - p,
{
    let inserted = t.insert(p, x);
    if p == t.len() {
        assert(inserted.drop_last() =~= t);
    } else {
        let shorter = t.drop_last();
        lemma_starting_at_insert(shorter, p, x, start);
        assert(inserted.drop_last() =~= shorter.insert(p, x));
        assert(inserted.last() == t.last());
        if x.start == start {
            assert(t[t.len() - 1].start != start);
        }
    }
}

/// Sorting by start keeps the extents starting at any one byte in the order they came
pub proof fn lemma_sorted_by_start_is_stable(s: Seq<SampleExtentView>, start: u64)
    ensures
        starting_at(sorted_by_start(s), start) == starting_at(s, start),
    decreases s.len(),
{
    if s.len() > 0 {
        let sorted = sorted_by_start(s.drop_last());
        lemma_sorted_by_start_is_stable(s.drop_last(), start);
        let x = s.last();
        lemma_start_position(sorted, x, sorted.len() as int);
        let p = start_position(sorted, x, sorted.len() as int);
        lemma_starting_at_insert(sorted, p, x, start);
    }
}

/// The extents `sample_extents` hands out for a movie are ordered by the byte
/// each starts at, and are those the tracks resolve to, each as often; those
/// starting at the same byte come in the order the tracks resolve them, track
/// after track and sample after sample
pub proof fn lemma_movie_extents_in_order(movie: MovieBox)
    ensures
        starts_in_order(spec_sample_extents(movie).0),
        spec_sample_extents(movie).0.to_multiset() == tracks_extents(movie.tracks@).0.to_multiset(),
        forall|start: u64| #[trigger] starting_at(spec_sample_extents(movie).0, start) == starting_at(tracks_extents(movie.tracks@).0, start),
{
    lemma_sorted_by_start(tracks_extents(movie.tracks@).0);
    assert forall|start: u64| #[trigger] starting_at(spec_sample_extents(movie).0, start) == starting_at(tracks_extents(movie.tracks@).0, start) by {
        lemma_sorted_by_start_is_stable(tracks_extents(movie.tracks@).0, start);
    }
}

/// Whether `items` are the extents `extents` then the failure, if any
pub open spec fn items_are(items: Seq<Result<SampleExtent, SampleError>>, extents: Seq<SampleExtentView>, failure: Option<SampleError>) -> bool {
    &&& items.len() == extents.len() + if failure is Some { 1int } else { 0 }
    &&& forall|i: int| 0 <= i < extents.len() ==> (#[trigger] items[i] matches Ok(e) && e@ == extents[i])
    &&& failure matches Some(f) ==> items[extents.len() as int] == Err::<SampleExtent, SampleError>(f)
}

/// The bytes sample `k` of a track occupies, or `None` past the last
fn size_of(sizes: &SampleSizes, k: u64) -> (size: Option<u32>)
    ensures
        size == size_at(*sizes, k as int),
{
    match sizes {
        SampleSizes::Uniform { sample_size, sample_count } => if k < *sample_count as u64 {
            Some(*sample_size)
        } else {
            None
        },
        SampleSizes::PerSample(entries) => if k < entries.len() as u64 {
            Some(entries[k as usize])
        } else {
            None
        },
    }
}

/// How many samples the `stsz` of a track counts
fn count_of(sizes: &SampleSizes) -> (count: u64)
    ensures
        count == size_count(*sizes),
{
    match sizes {
        SampleSizes::Uniform { sample_count, .. } => *sample_count as u64,
        SampleSizes::PerSample(entries) => entries.len() as u64,
    }
}

/// Where the durations of a track stand: entry `entry` of its `stts`, of
/// which `into` samples are resolved
struct DeltaCursor {
    entry: usize,
    into: u64,
}

impl DeltaCursor {
    /// Whether the cursor stands at sample `k` of `stts`
    spec fn at(&self, stts: Seq<TimeToSampleEntry>, k: nat) -> bool {
        &&& self.entry <= stts.len()
        &&& forall|j: int| j >= 0 ==> #[trigger] delta_from(stts, self.entry as int, self.into + j) == delta_at(stts, k + j)
    }

    /// Takes how long the next sample lasts, `None` past the last
    fn next(&mut self, stts: &Vec<TimeToSampleEntry>, Ghost(k): Ghost<nat>) -> (delta: Option<u32>)
        requires
            old(self).at(stts@, k),
        ensures
            delta == delta_at(stts@, k as int),
            delta is Some ==> final(self).at(stts@, k + 1),
    {
        while self.entry < stts.len() && self.into >= stts[self.entry].sample_count as u64
            invariant
                self.at(stts@, k),
            decreases stts.len() - self.entry,
        {
            let ghost before = *self;
            let count = stts[self.entry].sample_count as u64;
            self.into = self.into - count;
            self.entry = self.entry + 1;
            assert forall|j: int| j >= 0 implies #[trigger] delta_from(stts@, self.entry as int, self.into + j) == delta_at(stts@, k + j) by {
                assert(delta_from(stts@, before.entry as int, before.into + j) == delta_at(stts@, k + j));
            }
        }
        assert(delta_from(stts@, self.entry as int, self.into + 0) == delta_at(stts@, k + 0int));
        if self.entry < stts.len() {
            let delta = stts[self.entry].sample_delta;
            let ghost before = *self;
            self.into = self.into + 1;
            assert forall|j: int| j >= 0 implies #[trigger] delta_from(stts@, self.entry as int, self.into + j) == delta_at(stts@, (k + 1) + j) by {
                assert(delta_from(stts@, before.entry as int, before.into + (j + 1)) == delta_at(stts@, k + (j + 1)));
            }
            Some(delta)
        } else {
            None
        }
    }
}

/// Resolves the samples the sample table of `trak` declares into `extents`, in sample order
///
/// Fails with [`FirstChunkOutOfRange`](SampleError::FirstChunkOutOfRange)
/// when a run of chunks starts at a chunk outside the range open to it, with
/// [`SampleCountMismatch`](SampleError::SampleCountMismatch) when the tables
/// count different numbers of samples, with the failures of
/// [`data_reference_index`] for the description a run names, and with
/// [`DecodeTimeOverflow`](SampleError::DecodeTimeOverflow) or
/// [`DataOffsetOverflow`](SampleError::DataOffsetOverflow) when the decode
/// times or the offsets run past what 64 bits carry; the extents resolved
/// before the failure stay in `extents`.
#[verifier::rlimit(40)]
pub fn resolve_track(trak: &TrackBox, extents: &mut Vec<SampleExtent>) -> (result: Result<(), SampleError>)
    ensures
        extent_views(final(extents)@) == extent_views(old(extents)@) + track_extents(*trak).0,
        result == match track_extents(*trak).1 {
            None => Ok(()),
            Some(failure) => Err::<(), SampleError>(failure),
        },
{
    let ghost start = extent_views(extents@);
    let ghost goal = track_extents(*trak);
    let track_id = trak.track_id;
    let stsc = &trak.sample_to_chunk;
    let stts = &trak.time_to_sample;
    let chunks = &trak.chunk_offsets;
    if stsc.len() > 0 && stsc[0].first_chunk != 1 {
        assert(extent_views(extents@) =~= start + goal.0);
        return Err(SampleError::FirstChunkOutOfRange { track_id, first_chunk: stsc[0].first_chunk });
    }
    let counted = count_of(&trak.sample_sizes);
    let mut deltas = DeltaCursor { entry: 0, into: 0 };
    let mut k: u64 = 0;
    let mut decode_time: u64 = 0;
    let mut r: usize = 0;
    let mut active: Option<(SampleToChunkEntry, u16)> = None;
    let mut c: usize = 0;
    let ghost mut done: Seq<SampleExtentView> = Seq::empty();
    assert(extent_views(extents@) =~= start + done);
    assert(done + goal.0 =~= goal.0);
    while c < chunks.len()
        invariant
            0 <= c <= chunks.len(),
            chunks == &trak.chunk_offsets,
            stsc == &trak.sample_to_chunk,
            stts == &trak.time_to_sample,
            track_id == trak.track_id,
            r <= stsc.len(),
            counted == size_count(trak.sample_sizes),
            k <= size_count(trak.sample_sizes),
            deltas.at(stts@, k as nat),
            decode_time == decode_time_at(stts@, k as nat),
            goal == track_extents(*trak),
            start == extent_views(old(extents)@),
            extent_views(extents@) == start + done,
            goal == ({
                let rest = track_extents_from(*trak, c as nat, r as nat, active, k as nat);
                (done + rest.0, rest.1)
            }),
        decreases chunks.len() - c,
    {
        let ghost rest = track_extents_from(*trak, c as nat, r as nat, active, k as nat);
        let starts_run = r < stsc.len() && stsc[r].first_chunk as usize == c + 1;
        if starts_run {
            let run = stsc[r];
            match data_reference_index(trak, run.sample_description_index) {
                Ok(dri) => {
                    active = Some((run, dri));
                    r = r + 1;
                },
                Err(failure) => {
                    assert(rest == (Seq::<SampleExtentView>::empty(), Some(failure)));
                    assert(done + rest.0 =~= done);
                    return Err(failure);
                },
            }
        }
        match active {
            None => {},
            Some((run, dri)) => {
                let ghost k0 = k as nat;
                let ghost whole = chunk_extents(*trak, run, dri, run.samples_per_chunk as nat, chunks@[c as int] as int, k0);
                let mut data_offset: u64 = chunks[c];
                let mut j: u32 = 0;
                let ghost mut in_chunk: Seq<SampleExtentView> = Seq::empty();
                assert(in_chunk + whole.0 =~= whole.0);
                let ghost after = track_extents_from(*trak, (c + 1) as nat, r as nat, active, (k0 + run.samples_per_chunk) as nat);
                assert(rest == (if whole.1 is Some { whole } else { (whole.0 + after.0, after.1) }));
                while j < run.samples_per_chunk
                    invariant
                        j <= run.samples_per_chunk,
                        stts == &trak.time_to_sample,
                        track_id == trak.track_id,
                        k == k0 + j,
                        counted == size_count(trak.sample_sizes),
                        k <= size_count(trak.sample_sizes),
                        goal == track_extents(*trak),
                        start == extent_views(old(extents)@),
                        goal == (done + rest.0, rest.1),
                        rest == (if whole.1 is Some { whole } else { (whole.0 + after.0, after.1) }),
                        deltas.at(stts@, k as nat),
                        decode_time == decode_time_at(stts@, k as nat),
                        extent_views(extents@) == start + done + in_chunk,
                        whole == ({
                            let left = chunk_extents(*trak, run, dri, (run.samples_per_chunk - j) as nat, data_offset as int, k as nat);
                            (in_chunk + left.0, left.1)
                        }),
                    decreases run.samples_per_chunk - j,
                {
                    let ghost left = chunk_extents(*trak, run, dri, (run.samples_per_chunk - j) as nat, data_offset as int, k as nat);
                    let size = size_of(&trak.sample_sizes, k);
                    let delta = deltas.next(stts, Ghost(k as nat));
                    let (size, delta) = match (size, delta) {
                        (Some(size), Some(delta)) => (size, delta),
                        _ => {
                            assert(in_chunk + left.0 =~= in_chunk);
                            proof {
                                assert(extent_views(extents@) =~= start + (done + whole.0));
                            }
                            return Err(SampleError::SampleCountMismatch { track_id });
                        },
                    };
                    let data_end = match data_offset.checked_add(size as u64) {
                        Some(data_end) => data_end,
                        None => {
                            assert(in_chunk + left.0 =~= in_chunk);
                            proof {
                                assert(extent_views(extents@) =~= start + (done + whole.0));
                            }
                            return Err(SampleError::DataOffsetOverflow { track_id });
                        },
                    };
                    let extent = SampleExtent::new(
                        track_id,
                        decode_time,
                        delta,
                        0,
                        0,
                        run.sample_description_index,
                        dri,
                        data_offset..data_end,
                    );
                    let ghost before = extent_views(extents@);
                    extents.push(extent);
                    proof {
                        assert(extent_views(extents@) =~= before.push(extent@));
                        assert(extent@ == table_extent(*trak, run, dri, data_offset as int, data_end as int, k as nat, delta));
                    }
                    decode_time = match decode_time.checked_add(delta as u64) {
                        Some(next) => next,
                        None => {
                            proof {
                                assert(decode_time_at(stts@, (k + 1) as nat) == decode_time_at(stts@, k as nat) + delta);
                                assert(in_chunk + left.0 =~= in_chunk.push(extent@));
                                assert(extent_views(extents@) =~= start + (done + whole.0));
                            }
                            return Err(SampleError::DecodeTimeOverflow { track_id });
                        },
                    };
                    proof {
                        assert(decode_time_at(stts@, (k + 1) as nat) == decode_time_at(stts@, k as nat) + delta);
                        let next = chunk_extents(*trak, run, dri, (run.samples_per_chunk - (j + 1)) as nat, data_end as int, (k + 1) as nat);
                        assert(left.0 == seq![extent@] + next.0);
                        assert(in_chunk + left.0 =~= in_chunk.push(extent@) + next.0);
                        in_chunk = in_chunk.push(extent@);
                        assert(extent_views(extents@) =~= start + done + in_chunk);
                    }
                    assert(k < counted);
                    k = k + 1;
                    j = j + 1;
                    data_offset = data_end;
                }
                proof {
                    assert(in_chunk + Seq::<SampleExtentView>::empty() =~= in_chunk);
                    let next = track_extents_from(*trak, (c + 1) as nat, r as nat, active, k as nat);
                    assert(rest == (in_chunk + next.0, next.1));
                    assert(done + rest.0 =~= (done + in_chunk) + next.0);
                    done = done + in_chunk;
                    assert(extent_views(extents@) =~= start + done);
                }
            },
        }
        c = c + 1;
    }
    if r < stsc.len() {
        assert(done + Seq::<SampleExtentView>::empty() =~= done);
        return Err(SampleError::FirstChunkOutOfRange { track_id, first_chunk: stsc[r].first_chunk });
    }
    let more_sizes = size_of(&trak.sample_sizes, k);
    let more_deltas = deltas.next(stts, Ghost(k as nat));
    assert(done + Seq::<SampleExtentView>::empty() =~= done);
    if more_sizes.is_some() || more_deltas.is_some() {
        return Err(SampleError::SampleCountMismatch { track_id });
    }
    Ok(())
}

/// Orders `extents` by the byte each starts at, those starting at the same byte in the order they came
pub fn sort_by_start(extents: Vec<SampleExtent>) -> (sorted: Vec<SampleExtent>)
    ensures
        extent_views(sorted@) == sorted_by_start(extent_views(extents@)),
{
    let mut sorted: Vec<SampleExtent> = Vec::new();
    let mut i: usize = 0;
    assert(extent_views(extents@).take(0) =~= Seq::<SampleExtentView>::empty());
    assert(extent_views(sorted@) =~= Seq::<SampleExtentView>::empty());
    while i < extents.len()
        invariant
            0 <= i <= extents.len(),
            extent_views(sorted@) == sorted_by_start(extent_views(extents@).take(i as int)),
        decreases extents.len() - i,
    {
        let ghost sv = extent_views(sorted@);
        let x = extents[i];
        let start = x.extent().start;
        let mut p = sorted.len();
        while p > 0 && sorted[p - 1].extent().start > start
            invariant
                0 <= p <= sorted.len(),
                sv == extent_views(sorted@),
                start == x@.start,
                start_position(sv, x@, p as int) == start_position(sv, x@, sv.len() as int),
            decreases p,
        {
            assert(sv[p - 1] == sorted@[p - 1]@);
            p = p - 1;
        }
        proof {
            if p > 0 {
                assert(sv[p - 1] == sorted@[p - 1]@);
            }
            assert(start_position(sv, x@, p as int) == p);
            let taken = extent_views(extents@).take(i + 1);
            assert(taken.drop_last() =~= extent_views(extents@).take(i as int));
            assert(taken.last() == x@);
        }
        sorted.insert(p, x);
        assert(extent_views(sorted@) =~= sv.insert(p as int, x@));
        i = i + 1;
    }
    assert(extent_views(extents@).take(i as int) =~= extent_views(extents@));
    sorted
}

/// Resolves the samples the sample tables of `movie` declare, in the order their bytes lie in the file
///
/// A sample comes out a sync sample with a composition time offset of zero,
/// which is what §8.6.2 and §8.6.1.3 have for a track stating no `stss` and
/// no `ctts`. A track declaring no sample contributes nothing, and a chunk its
/// `stsc` lays no run over holds none. The extents of every track come out
/// together ordered by the byte each starts at, those starting at the same
/// byte in the order the tracks declare them, and stop at the first failure of
/// [`resolve_track`], which is the last item.
pub fn sample_extents(movie: &MovieBox) -> (items: Vec<Result<SampleExtent, SampleError>>)
    ensures
        items_are(items@, spec_sample_extents(*movie).0, spec_sample_extents(*movie).1),
{
    let mut extents: Vec<SampleExtent> = Vec::new();
    let mut failure: Option<SampleError> = None;
    let ghost goal = tracks_extents(movie.tracks@);
    let mut t: usize = 0;
    let ghost mut done: Seq<SampleExtentView> = Seq::empty();
    assert(extent_views(extents@) =~= done);
    assert(movie.tracks@.skip(0) =~= movie.tracks@);
    loop
        invariant_except_break
            0 <= t <= movie.tracks.len(),
            failure is None,
            extent_views(extents@) == done,
            goal == ({
                let rest = tracks_extents(movie.tracks@.skip(t as int));
                (done + rest.0, rest.1)
            }),
        ensures
            extent_views(extents@) == goal.0,
            failure == goal.1,
        decreases movie.tracks.len() - t,
    {
        if t >= movie.tracks.len() {
            assert(movie.tracks@.skip(t as int) =~= Seq::<TrackBox>::empty());
            assert(done + Seq::<SampleExtentView>::empty() =~= done);
            break;
        }
        let ghost tracks = movie.tracks@.skip(t as int);
        assert(tracks[0] == movie.tracks@[t as int]);
        assert(tracks.drop_first() =~= movie.tracks@.skip(t + 1));
        let outcome = resolve_track(&movie.tracks[t], &mut extents);
        let ghost these = track_extents(movie.tracks@[t as int]).0;
        match outcome {
            Err(f) => {
                failure = Some(f);
                assert(extent_views(extents@) =~= done + these);
                break;
            },
            Ok(()) => {
                proof {
                    assert(done + tracks_extents(tracks).0 =~= (done + these) + tracks_extents(tracks.drop_first()).0);
                    done = done + these;
                }
            },
        }
        t = t + 1;
    }
    let sorted = sort_by_start(extents);
    let mut items: Vec<Result<SampleExtent, SampleError>> = Vec::new();
    let mut i: usize = 0;
    while i < sorted.len()
        invariant
            0 <= i <= sorted.len(),
            items@.len() == i,
            forall|j: int| 0 <= j < i ==> (#[trigger] items@[j] matches Ok(e) && e@ == extent_views(sorted@)[j]),
        decreases sorted.len() - i,
    {
        items.push(Ok(sorted[i]));
        i = i + 1;
    }
    if let Some(f) = failure {
        items.push(Err(f));
    }
    items
}

} // verus!

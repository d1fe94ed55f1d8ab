//! The samples a movie fragment is laid out from, resolved back out of the `moof` written for them

use vstd::prelude::*;

use crate::sample::boxes::{MovieBox, TrackRunBox, TrackRunSample};
use crate::sample::error::SampleError;
use crate::sample::movie_fragment::{row_duration, rows_duration, rows_extents, runs_duration, runs_extents, SettledFragment};
use crate::sample::movie_fragment_writer::{
    default_flags, first_flags_of, header_of, offsets_stated, plan_rows, run_written, shared, spec_run_data_offset,
    stated_row, track_written, RunPlan, TrackPlan, TrackRunRow,
};
use crate::sample::boxes::{TrackFragmentBox, TrackFragmentHeaderBox};
use crate::sample::sample::SampleExtentView;

verus! {

/// How long the rows of `rows` last together
pub open spec fn rows_last(rows: Seq<TrackRunRow>) -> int
    decreases rows.len(),
{
    if rows.len() == 0 {
        0
    } else {
        rows[0].sample_duration + rows_last(rows.drop_first())
    }
}

/// How many bytes the samples of `rows` occupy together
pub open spec fn rows_bytes(rows: Seq<TrackRunRow>) -> int
    decreases rows.len(),
{
    if rows.len() == 0 {
        0
    } else {
        rows[0].sample_size + rows_bytes(rows.drop_first())
    }
}

/// The extents of the samples of `track` that `rows` state, laid one after
/// another from `start` and decoded one after another from `decode_time`
pub open spec fn laid_rows(track: TrackPlan, data_reference_index: u16, rows: Seq<TrackRunRow>, start: int, decode_time: int) -> Seq<SampleExtentView>
    decreases rows.len(),
{
    if rows.len() == 0 {
        Seq::empty()
    } else {
        let row = rows[0];
        seq![SampleExtentView {
            track_id: track.track_id,
            decode_time: decode_time as u64,
            sample_duration: row.sample_duration,
            sample_composition_time_offset: row.sample_composition_time_offset,
            sample_flags: row.sample_flags,
            sample_description_index: track.sample_description_index,
            data_reference_index,
            start: start as u64,
            end: (start + row.sample_size) as u64,
        }] + laid_rows(
            track,
            data_reference_index,
            rows.drop_first(),
            start + row.sample_size,
            decode_time + row.sample_duration,
        )
    }
}

/// How many bytes a written row declares, where `settled` holds the default
pub open spec fn row_size(row: TrackRunSample, settled: SettledFragment) -> u32 {
    match row.sample_size {
        Some(size) => size,
        None => settled.sample_size,
    }
}

/// The flags a written row takes, where `settled` holds the default
pub open spec fn row_flags(row: TrackRunSample, settled: SettledFragment) -> u32 {
    match row.sample_flags {
        Some(flags) => flags,
        None => settled.sample_flags,
    }
}

/// The composition time offset a written row takes
pub open spec fn row_offset(row: TrackRunSample) -> i64 {
    match row.sample_composition_time_offset {
        Some(offset) => offset,
        None => 0,
    }
}

/// Whether the written row `written` resolves, under `settled`, to what `row` states
pub open spec fn resolves_to(written: TrackRunSample, row: TrackRunRow, settled: SettledFragment) -> bool {
    &&& row_duration(written, settled.sample_duration) == row.sample_duration
    &&& row_size(written, settled) == row.sample_size
    &&& row_offset(written) == row.sample_composition_time_offset
}

/// Written rows that each resolve to their row, the first taking
/// `first_flags` over its own, resolve to the extents the rows are laid at
proof fn lemma_rows_read_back(
    rows: Seq<TrackRunRow>,
    written: Seq<TrackRunSample>,
    first_flags: Option<u32>,
    settled: SettledFragment,
    track: TrackPlan,
    data_reference_index: u16,
    start: int,
    decode_time: int,
)
    requires
        written.len() == rows.len(),
        settled.track_id == track.track_id,
        settled.sample_description_index == track.sample_description_index,
        settled.data_reference_index == data_reference_index,
        forall|k: int| 0 <= k < rows.len() ==> resolves_to(#[trigger] written[k], rows[k], settled),
        forall|k: int| 0 < k < rows.len() ==> row_flags(#[trigger] written[k], settled) == rows[k].sample_flags,
        rows.len() > 0 ==> match first_flags {
            Some(flags) => flags == rows[0].sample_flags,
            None => row_flags(written[0], settled) == rows[0].sample_flags,
        },
        0 <= start,
        start + rows_bytes(rows) <= u64::MAX,
    ensures
        rows_extents(written, first_flags, settled, start, decode_time) == (
            laid_rows(track, data_reference_index, rows, start, decode_time),
            None::<SampleError>,
            start + rows_bytes(rows),
        ),
        rows_duration(written, settled.sample_duration) == rows_last(rows),
    decreases rows.len(),
{
    if rows.len() > 0 {
        assert(resolves_to(written[0], rows[0], settled));
        let rest = rows.drop_first();
        let written_rest = written.drop_first();
        assert forall|k: int| 0 <= k < rest.len() implies resolves_to(#[trigger] written_rest[k], rest[k], settled) by {
            assert(written_rest[k] == written[k + 1]);
            assert(resolves_to(written[k + 1], rows[k + 1], settled));
        }
        assert forall|k: int| 0 < k < rest.len() implies row_flags(#[trigger] written_rest[k], settled) == rest[k].sample_flags by {
            assert(written_rest[k] == written[k + 1]);
            assert(row_flags(written[k + 1], settled) == rows[k + 1].sample_flags);
        }
        if rest.len() > 0 {
            assert(written_rest[0] == written[1]);
            assert(row_flags(written[1], settled) == rows[1].sample_flags);
        }
        lemma_rows_read_back(
            rest,
            written_rest,
            None,
            settled,
            track,
            data_reference_index,
            start + rows[0].sample_size,
            decode_time + rows[0].sample_duration,
        );
    }
}


/// How long the rows of the runs of `runs` last together
pub open spec fn runs_last(runs: Seq<RunPlan>) -> int
    decreases runs.len(),
{
    if runs.len() == 0 {
        0
    } else {
        rows_last(runs[0].rows) + runs_last(runs.drop_first())
    }
}

/// The extents of the samples of `track` the runs of `runs` state, the data
/// of each lying from `anchor` on as far as the run has it, and decoded one
/// after another from `decode_time`
pub open spec fn laid_runs(track: TrackPlan, data_reference_index: u16, runs: Seq<RunPlan>, anchor: int, decode_time: int) -> Seq<SampleExtentView>
    decreases runs.len(),
{
    if runs.len() == 0 {
        Seq::empty()
    } else {
        laid_rows(track, data_reference_index, runs[0].rows, anchor + runs[0].data_offset, decode_time) + laid_runs(
            track,
            data_reference_index,
            runs.drop_first(),
            anchor,
            decode_time + rows_last(runs[0].rows),
        )
    }
}

/// Whether the rows of the written run `written` each resolve, under
/// `settled`, to the rows of `run`, the first taking the flags the run
/// states for it where it states any
pub open spec fn run_resolves(written: TrackRunBox, run: RunPlan, settled: SettledFragment) -> bool {
    &&& written.samples@.len() == run.rows.len()
    &&& forall|k: int| 0 <= k < run.rows.len() ==> resolves_to(#[trigger] written.samples@[k], run.rows[k], settled)
    &&& forall|k: int| 0 < k < run.rows.len() ==> row_flags(#[trigger] written.samples@[k], settled) == run.rows[k].sample_flags
    &&& run.rows.len() > 0 ==> match written.first_sample_flags {
        Some(flags) => flags == run.rows[0].sample_flags,
        None => row_flags(written.samples@[0], settled) == run.rows[0].sample_flags,
    }
}

/// Written runs that each resolve to their run, and state where its data
/// lies counted from `moof_start`, resolve to the extents the runs are laid at
proof fn lemma_runs_read_back(
    runs: Seq<RunPlan>,
    written: Seq<TrackRunBox>,
    settled: SettledFragment,
    track: TrackPlan,
    data_reference_index: u16,
    moof_start: u64,
    base: u64,
    data_offset: int,
    decode_time: int,
)
    requires
        written.len() == runs.len(),
        settled.track_id == track.track_id,
        settled.sample_description_index == track.sample_description_index,
        settled.data_reference_index == data_reference_index,
        forall|j: int| 0 <= j < runs.len() ==> run_resolves(#[trigger] written[j], runs[j], settled),
        forall|j: int| 0 <= j < runs.len() ==> base + runs[j].data_offset <= i32::MAX && #[trigger] written[j].data_offset
            == Some((base + runs[j].data_offset) as i32),
        forall|j: int| 0 <= j < runs.len() ==> moof_start + base + runs[j].data_offset + rows_bytes(#[trigger] runs[j].rows)
            <= u64::MAX,
    ensures
        runs_extents(written, settled, moof_start, data_offset, decode_time).0 == laid_runs(
            track,
            data_reference_index,
            runs,
            moof_start + base,
            decode_time,
        ),
        runs_extents(written, settled, moof_start, data_offset, decode_time).1 == None::<SampleError>,
        runs_duration(written, settled.sample_duration) == runs_last(runs),
    decreases runs.len(),
{
    if runs.len() > 0 {
        let run = runs[0];
        let w = written[0];
        assert(run_resolves(w, run, settled));
        let start = moof_start + base + run.data_offset;
        assert(w.data_offset == Some((base + run.data_offset) as i32));
        lemma_rows_read_back(run.rows, w.samples@, w.first_sample_flags, settled, track, data_reference_index, start, decode_time);
        let rest = runs.drop_first();
        let written_rest = written.drop_first();
        assert forall|j: int| 0 <= j < rest.len() implies run_resolves(#[trigger] written_rest[j], rest[j], settled) by {
            assert(written_rest[j] == written[j + 1]);
            assert(run_resolves(written[j + 1], runs[j + 1], settled));
        }
        assert forall|j: int| 0 <= j < rest.len() implies base + rest[j].data_offset <= i32::MAX && #[trigger] written_rest[j].data_offset
            == Some((base + rest[j].data_offset) as i32) by {
            assert(written_rest[j] == written[j + 1]);
            assert(written[j + 1].data_offset == Some((base + runs[j + 1].data_offset) as i32));
        }
        assert forall|j: int| 0 <= j < rest.len() implies moof_start + base + rest[j].data_offset + rows_bytes(#[trigger] rest[j].rows)
            <= u64::MAX by {
            assert(rest[j] == runs[j + 1]);
            assert(moof_start + base + runs[j + 1].data_offset + rows_bytes(runs[j + 1].rows) <= u64::MAX);
        }
        lemma_runs_read_back(
            rest,
            written_rest,
            settled,
            track,
            data_reference_index,
            moof_start,
            base,
            start + rows_bytes(run.rows),
            decode_time + rows_last(run.rows),
        );
    }
}


/// Every run of `runs` carries a sample
pub open spec fn runs_carry_samples(runs: Seq<RunPlan>) -> bool {
    forall|j: int| 0 <= j < runs.len() ==> (#[trigger] runs[j]).rows.len() > 0
}

/// The rows of run `j` of `runs` stand in the rows of all of them, after those of the runs before it
proof fn lemma_plan_rows_at(runs: Seq<RunPlan>, j: int)
    requires
        0 <= j < runs.len(),
    ensures
        plan_rows(runs.take(j)).len() + runs[j].rows.len() <= plan_rows(runs).len(),
        forall|k: int| 0 <= k < runs[j].rows.len() ==> plan_rows(runs)[plan_rows(runs.take(j)).len() + k] == #[trigger] runs[j].rows[k],
    decreases runs.len(),
{
    let shorter = runs.drop_last();
    if j == runs.len() - 1 {
        assert(runs.take(j) =~= shorter);
    } else {
        lemma_plan_rows_at(shorter, j);
        assert(shorter.take(j) =~= runs.take(j));
        assert(shorter[j] == runs[j]);
        assert forall|k: int| 0 <= k < runs[j].rows.len() implies plan_rows(runs)[plan_rows(runs.take(j)).len() + k] == #[trigger] runs[j].rows[k] by {
            assert(plan_rows(shorter)[plan_rows(shorter.take(j)).len() + k] == shorter[j].rows[k]);
        }
    }
}

/// Where every run carries a sample, a row other than the first of the first
/// run stands past the first of all the rows
proof fn lemma_plan_rows_past_first(runs: Seq<RunPlan>, j: int, k: int)
    requires
        runs_carry_samples(runs),
        0 <= j < runs.len(),
        0 <= k < runs[j].rows.len(),
        j > 0 || k > 0,
    ensures
        plan_rows(runs.take(j)).len() + k >= 1,
{
    if j > 0 && k == 0 {
        let front = runs.take(j);
        lemma_plan_rows_at(front, 0);
        assert(front.take(0) =~= Seq::<RunPlan>::empty());
        assert(front[0] == runs[0]);
        assert(runs[0].rows.len() > 0);
    }
}

/// Of values all sharing one, each is that one
proof fn lemma_shared_each(values: Seq<u32>, i: int)
    requires
        shared(values) is Some,
        0 <= i < values.len(),
    ensures
        values[i] == shared(values)->0,
{
}

/// The rows of the runs of a track, written under the header its track
/// fragment is written with, each resolve to the row of the track, under
/// defaults the header states where it states them
proof fn lemma_track_runs_resolve(track: TrackPlan, written: TrackFragmentBox, base: u64, settled: SettledFragment)
    requires
        track_written(written, track, base),
        runs_carry_samples(track.runs),
        header_of(track).default_sample_duration matches Some(duration) ==> settled.sample_duration == duration,
        header_of(track).default_sample_size matches Some(size) ==> settled.sample_size == size,
        header_of(track).default_sample_flags matches Some(flags) ==> settled.sample_flags == flags,
    ensures
        forall|j: int| 0 <= j < track.runs.len() ==> run_resolves(#[trigger] written.runs@[j], track.runs[j], settled),
{
    let header = header_of(track);
    let rows = plan_rows(track.runs);
    let durations = rows.map_values(|row: TrackRunRow| row.sample_duration);
    let sizes = rows.map_values(|row: TrackRunRow| row.sample_size);
    let flags = rows.map_values(|row: TrackRunRow| row.sample_flags);
    assert forall|j: int| 0 <= j < track.runs.len() implies run_resolves(#[trigger] written.runs@[j], track.runs[j], settled) by {
        let run = track.runs[j];
        let w = written.runs@[j];
        assert(run_written(w, run, header, spec_run_data_offset(base, run.data_offset, track.track_id)->Ok_0));
        let with_offsets = offsets_stated(run.rows);
        lemma_plan_rows_at(track.runs, j);
        let before = plan_rows(track.runs.take(j)).len() as int;
        assert forall|k: int| 0 <= k < run.rows.len() implies resolves_to(#[trigger] w.samples@[k], run.rows[k], settled) by {
            let row = run.rows[k];
            assert(w.samples@[k] == stated_row(row, header, with_offsets));
            assert(rows[before + k] == row);
            if header.default_sample_duration is Some {
                lemma_shared_each(durations, before + k);
            }
            if header.default_sample_size is Some {
                lemma_shared_each(sizes, before + k);
            }
            if !with_offsets {
                assert(row.sample_composition_time_offset == 0) by {
                    if row.sample_composition_time_offset != 0 {
                        assert(offsets_stated(run.rows));
                    }
                }
            }
        }
        assert forall|k: int| 0 < k < run.rows.len() implies row_flags(#[trigger] w.samples@[k], settled) == run.rows[k].sample_flags by {
            let row = run.rows[k];
            assert(w.samples@[k] == stated_row(row, header, with_offsets));
            assert(rows[before + k] == row);
            if header.default_sample_flags is Some {
                if shared(flags) is Some {
                    lemma_shared_each(flags, before + k);
                } else {
                    lemma_plan_rows_past_first(track.runs, j, k);
                    lemma_shared_each(flags.drop_first(), before + k - 1);
                }
            }
        }
        if run.rows.len() > 0 {
            let row = run.rows[0];
            assert(w.samples@[0] == stated_row(row, header, with_offsets));
            assert(rows[before] == row);
            assert(w.first_sample_flags == first_flags_of(run, header));
            if header.default_sample_flags is Some && w.first_sample_flags is None {
                assert(row.sample_flags == header.default_sample_flags->0);
            }
        }
    }
}

} // verus!

//! The samples a track's tables are written from, resolved back out of those tables

use vstd::prelude::*;

use crate::bytes::BoxError;
use crate::sample::error::SampleError;
use crate::sample::boxes::{SampleSizes, SampleToChunkEntry, TrackBox};
use crate::sample::sample::SampleExtentView;
use crate::sample::sample_description::spec_data_reference_index;
use crate::sample::sample_table::{
    chunk_extents, decode_time_at, delta_at, size_at, track_extents, track_extents_from,
};
use crate::sample::sample_table_writer::{
    accounts_for, chunks_before, entry_covering, offsets_stated, tables_of, SampleTables, lemma_stsc_reads_back, lemma_stsz_reads_back, lemma_stts_reads_back, runs_rise, stsc_of,
    stts_of, uniform_sizes, TrackLog,
};

verus! {

/// How long the first `k` samples last, one after another
pub open spec fn deltas_before(deltas: Seq<u32>, k: int) -> nat
    decreases k,
{
    if k <= 0 {
        0
    } else {
        (deltas_before(deltas, k - 1) + deltas[k - 1]) as nat
    }
}

/// The bytes samples `from` to `to` occupy, end to end
pub open spec fn sizes_between(sizes: Seq<u32>, from: int, to: int) -> nat
    decreases to - from,
{
    if from >= to {
        0
    } else {
        (sizes[from] + sizes_between(sizes, from + 1, to)) as nat
    }
}

/// Whether the tables of `trak` are the ones written for the track `log` gathered
pub open spec fn written_from(trak: TrackBox, log: TrackLog) -> bool {
    &&& trak.track_id == log.track_id
    &&& trak.time_to_sample@ == stts_of(log.deltas)
    &&& stsc_of(log.chunks) == Ok::<Seq<SampleToChunkEntry>, BoxError>(trak.sample_to_chunk@)
    &&& match trak.sample_sizes {
        SampleSizes::Uniform { sample_size, sample_count } => uniform_sizes(log.sizes) && sample_size == log.sizes[0]
            && sample_count == log.sizes.len(),
        SampleSizes::PerSample(entries) => !uniform_sizes(log.sizes) && entries@ == log.sizes,
    }
    &&& trak.chunk_offsets@ == log.chunk_offsets
}

/// Whether the track `log` gathered lies within what its tables carry: every
/// sample decoded and every chunk ending within 64 bits, and each chunk
/// described by an entry of `trak` reading from the file itself
pub open spec fn within_reach(trak: TrackBox, log: TrackLog) -> bool {
    &&& deltas_before(log.deltas, log.deltas.len() as int) <= u64::MAX
    &&& forall|c: int| 0 <= c < log.chunks.len() ==> log.chunk_offsets[c] + sizes_between(
        log.sizes,
        chunks_before(log.chunks, c) as int,
        chunks_before(log.chunks, c + 1) as int,
    ) <= u64::MAX
    &&& forall|c: int| 0 <= c < log.chunks.len() ==> (#[trigger] spec_data_reference_index(trak, log.chunks[c].1)) is Ok
}

/// Whether the track `log` gathered is whole: each sample in one chunk, and
/// within what the tables of `trak` carry
pub open spec fn whole_track(trak: TrackBox, log: TrackLog) -> bool {
    &&& accounts_for(log, 0)
    &&& within_reach(trak, log)
}

/// The extents of the `n` samples of a chunk from sample `k` on, laid one after another from `offset`
pub open spec fn chunk_samples(track_id: u32, log: TrackLog, sample_description_index: u32, data_reference_index: u16, n: nat, offset: int, k: nat) -> Seq<SampleExtentView>
    decreases n,
{
    if n == 0 {
        Seq::empty()
    } else {
        let end = offset + log.sizes[k as int];
        seq![SampleExtentView {
            track_id,
            decode_time: deltas_before(log.deltas, k as int) as u64,
            sample_duration: log.deltas[k as int],
            sample_composition_time_offset: 0,
            sample_flags: 0,
            sample_description_index,
            data_reference_index,
            start: offset as u64,
            end: end as u64,
        }] + chunk_samples(track_id, log, sample_description_index, data_reference_index, (n - 1) as nat, end, k + 1)
    }
}

/// The extents of the samples of the chunks of `log` from chunk `c` on, the first being sample `k`
pub open spec fn logged_from(trak: TrackBox, log: TrackLog, c: nat, k: nat) -> Seq<SampleExtentView>
    decreases log.chunks.len() - c,
{
    if c >= log.chunks.len() {
        Seq::empty()
    } else {
        let (count, index) = log.chunks[c as int];
        let data_reference_index = spec_data_reference_index(trak, index)->Ok_0;
        chunk_samples(log.track_id, log, index, data_reference_index, count as nat, log.chunk_offsets[c as int] as int, k)
            + logged_from(trak, log, c + 1, k + count as nat)
    }
}

/// The samples are decoded one after another from zero
proof fn lemma_decode_times(deltas: Seq<u32>, k: nat)
    requires
        k <= deltas.len(),
    ensures
        decode_time_at(stts_of(deltas), k) == deltas_before(deltas, k as int),
    decreases k,
{
    if k > 0 {
        lemma_decode_times(deltas, (k - 1) as nat);
        lemma_stts_reads_back(deltas);
        assert(delta_at(stts_of(deltas), k - 1) == Some(deltas[k - 1]));
    }
}

/// Samples decoded later are decoded no earlier
proof fn lemma_deltas_rise(deltas: Seq<u32>, j: int, k: int)
    requires
        0 <= j <= k,
    ensures
        deltas_before(deltas, j) <= deltas_before(deltas, k),
    decreases k - j,
{
    if j < k {
        lemma_deltas_rise(deltas, j, k - 1);
    }
}

/// The samples of a chunk resolve to where they were laid one after another
proof fn lemma_chunk_read_back(
    trak: TrackBox,
    log: TrackLog,
    run: SampleToChunkEntry,
    data_reference_index: u16,
    n: nat,
    offset: int,
    k: nat,
)
    requires
        written_from(trak, log),
        log.deltas.len() == log.sizes.len(),
        deltas_before(log.deltas, log.deltas.len() as int) <= u64::MAX,
        k + n <= log.sizes.len(),
        0 <= offset,
        offset + sizes_between(log.sizes, k as int, (k + n) as int) <= u64::MAX,
    ensures
        chunk_extents(trak, run, data_reference_index, n, offset, k) == (
            chunk_samples(trak.track_id, log, run.sample_description_index, data_reference_index, n, offset, k),
            None::<SampleError>,
        ),
    decreases n,
{
    if n > 0 {
        lemma_stts_reads_back(log.deltas);
        lemma_stsz_reads_back(trak.sample_sizes, log.sizes);
        assert(size_at(trak.sample_sizes, k as int) == Some(log.sizes[k as int]));
        assert(delta_at(trak.time_to_sample@, k as int) == Some(log.deltas[k as int]));
        lemma_decode_times(log.deltas, k);
        lemma_decode_times(log.deltas, k + 1);
        lemma_deltas_rise(log.deltas, (k + 1) as int, log.deltas.len() as int);
        let end = offset + log.sizes[k as int];
        lemma_chunk_read_back(trak, log, run, data_reference_index, (n - 1) as nat, end, k + 1);
    }
}


/// Chunks further on hold at least the samples of those before
proof fn lemma_chunks_rise(chunks: Seq<(u64, u32)>, j: int, k: int)
    requires
        0 <= j <= k,
    ensures
        chunks_before(chunks, j) <= chunks_before(chunks, k),
    decreases k - j,
{
    if j < k {
        lemma_chunks_rise(chunks, j, k - 1);
    }
}

/// Of entries starting their runs one after another, chunk `c` lies in the
/// run of the last of the first `r`, when the entry after them starts past it
proof fn lemma_covering_entry(stsc: Seq<SampleToChunkEntry>, c: int, r: int)
    requires
        runs_rise(stsc),
        1 <= r <= stsc.len(),
        stsc[r - 1].first_chunk <= c,
        r == stsc.len() || stsc[r].first_chunk > c,
    ensures
        entry_covering(stsc, c) == Some(stsc[r - 1]),
    decreases stsc.len(),
{
    if r < stsc.len() {
        let shorter = stsc.drop_last();
        assert(stsc.last().first_chunk >= stsc[r].first_chunk);
        assert(shorter[r - 1] == stsc[r - 1]);
        if r < shorter.len() {
            assert(shorter[r] == stsc[r]);
        }
        assert(runs_rise(shorter)) by {
            assert forall|i: int, j: int| 0 <= i < j < shorter.len() implies shorter[i].first_chunk < shorter[j].first_chunk by {
                assert(shorter[i] == stsc[i] && shorter[j] == stsc[j]);
            }
        }
        lemma_covering_entry(shorter, c, r);
    }
}

/// The samples of the chunks from `c` on resolve to where they were laid, the
/// runs from `r` on starting past chunk `c`
proof fn lemma_track_read_back_from(
    trak: TrackBox,
    log: TrackLog,
    c: nat,
    r: nat,
    active: Option<(SampleToChunkEntry, u16)>,
    k: nat,
)
    requires
        written_from(trak, log),
        whole_track(trak, log),
        c <= log.chunks.len(),
        k == chunks_before(log.chunks, c as int),
        r <= trak.sample_to_chunk@.len(),
        r == 0 || trak.sample_to_chunk@[r - 1].first_chunk <= c,
        r == trak.sample_to_chunk@.len() || trak.sample_to_chunk@[r as int].first_chunk > c,
        c == 0 ==> r == 0 && active is None,
        c > 0 ==> r > 0 && active == Some((
            trak.sample_to_chunk@[r - 1],
            spec_data_reference_index(trak, trak.sample_to_chunk@[r - 1].sample_description_index)->Ok_0,
        )),
    ensures
        track_extents_from(trak, c, r, active, k) == (logged_from(trak, log, c, k), None::<SampleError>),
    decreases log.chunks.len() - c,
{
    let stsc = trak.sample_to_chunk@;
    let chunks = log.chunks;
    lemma_stsc_reads_back(chunks);
    lemma_stts_reads_back(log.deltas);
    lemma_stsz_reads_back(trak.sample_sizes, log.sizes);
    if c == chunks.len() {
        assert(r == stsc.len()) by {
            if r < stsc.len() {
                assert(stsc[stsc.len() - 1].first_chunk >= stsc[r as int].first_chunk);
            }
        }
        assert(size_at(trak.sample_sizes, k as int) is None);
        assert(delta_at(trak.time_to_sample@, k as int) is None);
    } else {
        let (count, index) = chunks[c as int];
        let starts_run = r < stsc.len() && stsc[r as int].first_chunk == c + 1;
        let r2: nat = if starts_run { r + 1 } else { r };
        assert(r2 >= 1) by {
            if c == 0 && !starts_run {
                assert(stsc[0].first_chunk == 1);
            }
        }
        assert(r2 == stsc.len() || stsc[r2 as int].first_chunk > c + 1) by {
            if starts_run && r2 < stsc.len() {
                assert(stsc[r2 as int].first_chunk > stsc[r as int].first_chunk);
            }
        }
        lemma_covering_entry(stsc, (c + 1) as int, r2 as int);
        assert(entry_covering(stsc, (c + 1) as int) == Some(stsc[r2 - 1]));
        let run = stsc[r2 - 1];
        assert(run.samples_per_chunk == count && run.sample_description_index == index);
        let dri = spec_data_reference_index(trak, index)->Ok_0;
        assert(spec_data_reference_index(trak, chunks[c as int].1) is Ok);
        let active2 = Some((run, dri));
        let n = count as nat;
        lemma_chunks_rise(chunks, (c + 1) as int, chunks.len() as int);
        let offset = log.chunk_offsets[c as int] as int;
        lemma_chunk_read_back(trak, log, run, dri, n, offset, k);
        lemma_track_read_back_from(trak, log, c + 1, r2, active2, k + n);
        assert(trak.chunk_offsets@[c as int] == log.chunk_offsets[c as int]);
    }
}

/// The tables written for a track resolve back to the samples written, each
/// decoded one after another from zero and laid one after another in its
/// chunk, when every sample lies in a chunk (as every one a
/// [`SampleTableWriter`](crate::sample::sample_table_writer::SampleTableWriter)
/// writes tables for does), the decode times and chunk ends fit 64 bits, and
/// the entries the chunks name read from the file itself
pub proof fn lemma_tables_read_back(trak: TrackBox, log: TrackLog)
    requires
        written_from(trak, log),
        accounts_for(log, 0),
        within_reach(trak, log),
    ensures
        track_extents(trak) == (logged_from(trak, log, 0, 0), None::<SampleError>),
{
    lemma_stsc_reads_back(log.chunks);
    if log.chunks.len() == 0 {
        assert(trak.sample_to_chunk@.len() == 0);
    }
    lemma_track_read_back_from(trak, log, 0, 0, None, 0);
}


/// The track made of the tables a writer wrote for a track it accounted every
/// sample of resolves back to the samples written, as
/// [`lemma_tables_read_back`] has it: `tables` as
/// [`finish`](crate::sample::sample_table_writer::SampleTableWriter::finish)
/// hands them back, and `trak` as
/// [`into_track`](crate::sample::sample_table_writer::SampleTables::into_track) makes it
pub proof fn lemma_written_track_reads_back(tables: SampleTables, log: TrackLog, trak: TrackBox)
    requires
        tables_of(tables, log),
        accounts_for(log, 0),
        trak.track_id == log.track_id,
        trak.time_to_sample@ == tables.spec_stts(),
        trak.sample_to_chunk@ == tables.spec_stsc(),
        trak.sample_sizes == tables.spec_stsz(),
        trak.chunk_offsets@ == offsets_stated(tables.spec_chunk_offsets()),
        within_reach(trak, log),
    ensures
        track_extents(trak) == (logged_from(trak, log, 0, 0), None::<SampleError>),
{
    lemma_tables_read_back(trak, log);
}

} // verus!

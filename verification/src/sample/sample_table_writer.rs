//! [`SampleTableWriter`], the samples of a presentation laid out as the sample tables of a movie
//!
//! The writer takes the samples chunk by chunk and hands the bytes of each
//! straight back, for the caller to lay down where the chunk it opened
//! starts; once the samples are over it hands back the tables of every
//! track: the `stts` (ISO/IEC 14496-12 §8.6.1.2), the `stsc` (§8.7.4), the
//! `stsz` (§8.7.3.2) and the chunk offsets (§8.7.5).

use std::collections::BTreeMap;

use vstd::prelude::*;

use crate::bytes::BoxError;
use crate::sample::boxes::{DataEntry, SampleDescriptionEntry, SampleSizes, SampleToChunkEntry, TimeToSampleEntry, TrackBox};
use crate::sample::error::SampleError;
use crate::sample::sample::{Sample, SampleView};
use crate::sample::sample_table::delta_at;
use crate::sample::sample_table::delta_from;
use crate::sample::sample_table::{size_at, size_count};

verus! {

broadcast use vstd::laws_cmp::group_laws_cmp, vstd::std_specs::btree::group_btree_axioms;

/// What the tables of one track gather as its samples are laid out
pub struct TrackLog {
    pub track_id: u32,
    /// Where the next sample of the track has to start
    pub reached: u64,
    /// How long each sample lasts, in sample order
    pub deltas: Seq<u32>,
    /// The bytes each sample occupies, in sample order
    pub sizes: Seq<u32>,
    /// Each chunk closed: the samples it holds and the entry describing them
    pub chunks: Seq<(u64, u32)>,
    /// Where each chunk closed starts in the file
    pub chunk_offsets: Seq<u64>,
}

/// The log of a track no sample has been laid out for
pub open spec fn new_log(track_id: u32) -> TrackLog {
    TrackLog {
        track_id,
        reached: 0,
        deltas: Seq::empty(),
        sizes: Seq::empty(),
        chunks: Seq::empty(),
        chunk_offsets: Seq::empty(),
    }
}

/// The first position from `k` on of the log of `track_id` among `tracks`, or their count
pub open spec fn index_from(tracks: Seq<TrackLog>, track_id: u32, k: int) -> int
    decreases tracks.len() - k,
{
    if k < 0 || k >= tracks.len() {
        tracks.len() as int
    } else if tracks[k].track_id == track_id {
        k
    } else {
        index_from(tracks, track_id, k + 1)
    }
}

/// The first position from `k` on of a log of a track numbered past `track_id`, or their count
pub open spec fn insertion_from(tracks: Seq<TrackLog>, track_id: u32, k: int) -> int
    decreases tracks.len() - k,
{
    if k < 0 || k >= tracks.len() {
        tracks.len() as int
    } else if tracks[k].track_id > track_id {
        k
    } else {
        insertion_from(tracks, track_id, k + 1)
    }
}

/// The log of `track_id` among `tracks`, or that of a track no sample was laid out for
pub open spec fn log_of(tracks: Seq<TrackLog>, track_id: u32) -> TrackLog {
    let i = index_from(tracks, track_id, 0);
    if i < tracks.len() {
        tracks[i]
    } else {
        new_log(track_id)
    }
}

/// `tracks` holding `log` for its track: in place of the one it had, or
/// before the first track numbered past it
pub open spec fn with_log(tracks: Seq<TrackLog>, log: TrackLog) -> Seq<TrackLog> {
    let i = index_from(tracks, log.track_id, 0);
    if i < tracks.len() {
        tracks.update(i, log)
    } else {
        tracks.insert(insertion_from(tracks, log.track_id, 0), log)
    }
}

/// The log of a track once `sample` is laid out after its samples, or why it is refused
pub open spec fn place_in(log: TrackLog, sample: SampleView) -> Result<TrackLog, SampleError> {
    let track_id = sample.track_id;
    if sample.sample_composition_time_offset != 0 {
        Err(SampleError::UnsupportedCompositionTimeOffset { track_id, offset: sample.sample_composition_time_offset })
    } else if sample.sample_flags != 0 {
        Err(SampleError::UnsupportedSampleFlags { track_id, sample_flags: sample.sample_flags })
    } else if sample.data.len() > u32::MAX {
        Err(SampleError::SampleSizeOutOfRange { track_id, declared: sample.data.len() as u64 })
    } else if sample.decode_time != log.reached {
        Err(SampleError::DecodeTimeMismatch { track_id, stated: sample.decode_time, reached: log.reached })
    } else if log.reached + sample.sample_duration > u64::MAX {
        Err(SampleError::DecodeTimeOverflow { track_id })
    } else {
        Ok(TrackLog {
            reached: (log.reached + sample.sample_duration) as u64,
            deltas: log.deltas.push(sample.sample_duration),
            sizes: log.sizes.push(sample.data.len() as u32),
            ..log
        })
    }
}

/// The samples the chunk that is open holds so far, all of one track and one description
#[derive(Clone, Copy, PartialEq, Eq, Debug, Structural)]
pub struct HeldSamples {
    pub track_id: u32,
    pub sample_description_index: u32,
    pub sample_count: u64,
}

/// Where a [`SampleTableWriter`] stands between calls
#[derive(Clone, Copy, PartialEq, Eq, Debug, Structural)]
pub enum TableWriterState {
    /// No chunk opened yet
    Between,
    /// A chunk starting at `chunk_offset` is open, holding the samples of `held`
    Chunk { chunk_offset: u64, held: Option<HeldSamples> },
    /// Told the samples are over, and taking no more
    Finished,
    /// Failed, and reporting that same failure for every call after it
    Failed(SampleError),
}

/// What a [`SampleTableWriter`] holds
pub struct TableWriterView {
    pub tracks: Seq<TrackLog>,
    pub state: TableWriterState,
}

/// The tracks once the chunk open in `state`, if it holds any sample, is put on the tables of its track
pub open spec fn closed(tracks: Seq<TrackLog>, state: TableWriterState) -> Seq<TrackLog> {
    match state {
        TableWriterState::Chunk { chunk_offset, held: Some(held) } => {
            let log = log_of(tracks, held.track_id);
            with_log(
                tracks,
                TrackLog {
                    chunks: log.chunks.push((held.sample_count, held.sample_description_index)),
                    chunk_offsets: log.chunk_offsets.push(chunk_offset),
                    ..log
                },
            )
        },
        _ => tracks,
    }
}

/// The failure a writer that no longer takes samples reports, if it is one
pub open spec fn table_refusal(state: TableWriterState) -> Option<SampleError> {
    match state {
        TableWriterState::Finished => Some(SampleError::AlreadyFinished),
        TableWriterState::Failed(failure) => Some(failure),
        _ => None,
    }
}

/// The `stts` of samples lasting `deltas`: one entry per run of samples lasting the same
pub open spec fn stts_of(deltas: Seq<u32>) -> Seq<TimeToSampleEntry>
    decreases deltas.len(),
{
    if deltas.len() == 0 {
        Seq::empty()
    } else {
        let before = stts_of(deltas.drop_last());
        let delta = deltas.last();
        if before.len() > 0 && before.last().sample_delta == delta && before.last().sample_count < u32::MAX {
            before.update(
                before.len() - 1,
                TimeToSampleEntry { sample_count: (before.last().sample_count + 1) as u32, sample_delta: delta },
            )
        } else {
            before.push(TimeToSampleEntry { sample_count: 1, sample_delta: delta })
        }
    }
}

/// The `stsc` of the chunks of `chunks`, each the samples it holds and the
/// entry describing them: one entry per run of chunks alike, numbered by the
/// chunk it starts at; or the first count or number past what an entry carries
pub open spec fn stsc_of(chunks: Seq<(u64, u32)>) -> Result<Seq<SampleToChunkEntry>, BoxError>
    decreases chunks.len(),
{
    if chunks.len() == 0 {
        Ok(Seq::empty())
    } else {
        match stsc_of(chunks.drop_last()) {
            Err(failure) => Err(failure),
            Ok(before) => {
                let (count, index) = chunks.last();
                if count > u32::MAX {
                    Err(BoxError::OutOfRange { value: count })
                } else if before.len() > 0 && before.last().samples_per_chunk == count
                    && before.last().sample_description_index == index {
                    Ok(before)
                } else if chunks.len() > u32::MAX {
                    Err(BoxError::OutOfRange { value: chunks.len() as u64 })
                } else {
                    Ok(before.push(SampleToChunkEntry { first_chunk: chunks.len() as u32, samples_per_chunk: count as u32, sample_description_index: index }))
                }
            },
        }
    }
}

/// Whether the samples of `sizes` all occupy the same bytes, which one field of an `stsz` states
pub open spec fn uniform_sizes(sizes: Seq<u32>) -> bool {
    &&& 0 < sizes.len() <= u32::MAX
    &&& sizes[0] != 0
    &&& forall|i: int| 0 <= i < sizes.len() ==> #[trigger] sizes[i] == sizes[0]
}

/// How the offsets of the chunks of a track are stated (§8.7.5)
#[derive(Clone, Debug, PartialEq, Eq)]
pub enum ChunkOffsets {
    /// An `stco`, where every offset fits 32 bits
    Stco(Vec<u32>),
    /// A `co64`, where one does not
    Co64(Vec<u64>),
}

/// The offsets `offsets` states, widened to 64 bits
pub open spec fn offsets_stated(offsets: ChunkOffsets) -> Seq<u64> {
    match offsets {
        ChunkOffsets::Stco(entries) => entries@.map_values(|offset: u32| offset as u64),
        ChunkOffsets::Co64(entries) => entries@,
    }
}

/// Whether every offset of `offsets` fits 32 bits
pub open spec fn fit_32(offsets: Seq<u64>) -> bool {
    forall|i: int| 0 <= i < offsets.len() ==> offsets[i] <= u32::MAX
}

/// The sample tables of one track
#[derive(Clone, Debug, PartialEq, Eq)]
pub struct SampleTables {
    stts: Vec<TimeToSampleEntry>,
    stsc: Vec<SampleToChunkEntry>,
    stsz: SampleSizes,
    chunk_offsets: ChunkOffsets,
}

/// Whether `tables` are the tables of the track `log` gathered
pub open spec fn tables_of(tables: SampleTables, log: TrackLog) -> bool {
    &&& tables.spec_stts() == stts_of(log.deltas)
    &&& stsc_of(log.chunks) == Ok::<Seq<SampleToChunkEntry>, BoxError>(tables.spec_stsc())
    &&& match tables.spec_stsz() {
        SampleSizes::Uniform { sample_size, sample_count } => uniform_sizes(log.sizes) && sample_size == log.sizes[0]
            && sample_count == log.sizes.len(),
        SampleSizes::PerSample(entries) => !uniform_sizes(log.sizes) && entries@ == log.sizes,
    }
    &&& offsets_stated(tables.spec_chunk_offsets()) == log.chunk_offsets
    &&& (tables.spec_chunk_offsets() is Stco <==> fit_32(log.chunk_offsets))
}

impl SampleTables {
    /// The `stts` entries
    pub closed spec fn spec_stts(&self) -> Seq<TimeToSampleEntry> {
        self.stts@
    }

    /// The `stsc` entries
    pub closed spec fn spec_stsc(&self) -> Seq<SampleToChunkEntry> {
        self.stsc@
    }

    /// How the `stsz` states the sizes
    pub closed spec fn spec_stsz(&self) -> SampleSizes {
        self.stsz
    }

    /// How the offsets of the chunks are stated
    pub closed spec fn spec_chunk_offsets(&self) -> ChunkOffsets {
        self.chunk_offsets
    }

    /// Returns the entries of the `stts`, one per run of samples lasting the same
    pub fn stts(&self) -> (stts: &Vec<TimeToSampleEntry>)
        ensures
            stts@ == self.spec_stts(),
    {
        &self.stts
    }

    /// Returns the entries of the `stsc`, one per run of chunks alike
    pub fn stsc(&self) -> (stsc: &Vec<SampleToChunkEntry>)
        ensures
            stsc@ == self.spec_stsc(),
    {
        &self.stsc
    }

    /// Returns how the `stsz` states the bytes of each sample
    pub fn stsz(&self) -> (stsz: &SampleSizes)
        ensures
            *stsz == self.spec_stsz(),
    {
        &self.stsz
    }

    /// Returns how the offsets of the chunks are stated
    pub fn chunk_offsets(&self) -> (offsets: &ChunkOffsets)
        ensures
            *offsets == self.spec_chunk_offsets(),
    {
        &self.chunk_offsets
    }

    /// Returns the track `track_id` these tables are the sample table of,
    /// described by `sample_descriptions` and reading through `data_entries`
    pub fn into_track(
        self,
        track_id: u32,
        sample_descriptions: Vec<SampleDescriptionEntry>,
        data_entries: Vec<DataEntry>,
    ) -> (trak: TrackBox)
        ensures
            trak.track_id == track_id,
            trak.sample_descriptions@ == sample_descriptions@,
            trak.data_entries@ == data_entries@,
            trak.time_to_sample@ == self.spec_stts(),
            trak.sample_to_chunk@ == self.spec_stsc(),
            trak.sample_sizes == self.spec_stsz(),
            trak.chunk_offsets@ == offsets_stated(self.spec_chunk_offsets()),
    {
        let chunk_offsets = match self.chunk_offsets {
            ChunkOffsets::Stco(entries) => {
                let mut wide: Vec<u64> = Vec::new();
                let mut i: usize = 0;
                while i < entries.len()
                    invariant
                        0 <= i <= entries.len(),
                        wide@ == entries@.take(i as int).map_values(|offset: u32| offset as u64),
                    decreases entries.len() - i,
                {
                    wide.push(entries[i] as u64);
                    i = i + 1;
                    assert(wide@ =~= entries@.take(i as int).map_values(|offset: u32| offset as u64));
                }
                assert(entries@.take(i as int) =~= entries@);
                wide
            },
            ChunkOffsets::Co64(entries) => entries,
        };
        TrackBox {
            track_id,
            sample_descriptions,
            data_entries,
            time_to_sample: self.stts,
            sample_to_chunk: self.stsc,
            sample_sizes: self.stsz,
            chunk_offsets,
        }
    }
}

/// Builds the `stts` of samples lasting `deltas`
fn build_stts(deltas: &Vec<u32>) -> (stts: Vec<TimeToSampleEntry>)
    ensures
        stts@ == stts_of(deltas@),
{
    let mut stts: Vec<TimeToSampleEntry> = Vec::new();
    let mut i: usize = 0;
    assert(deltas@.take(0) =~= Seq::<u32>::empty());
    while i < deltas.len()
        invariant
            0 <= i <= deltas.len(),
            stts@ == stts_of(deltas@.take(i as int)),
        decreases deltas.len() - i,
    {
        let delta = deltas[i];
        let ghost taken = deltas@.take(i + 1);
        assert(taken.drop_last() =~= deltas@.take(i as int));
        assert(taken.last() == delta);
        let n = stts.len();
        if n > 0 && stts[n - 1].sample_delta == delta && stts[n - 1].sample_count < u32::MAX {
            let count = stts[n - 1].sample_count + 1;
            stts.set(n - 1, TimeToSampleEntry { sample_count: count, sample_delta: delta });
        } else {
            stts.push(TimeToSampleEntry { sample_count: 1, sample_delta: delta });
        }
        i = i + 1;
    }
    assert(deltas@.take(i as int) =~= deltas@);
    stts
}

/// Builds the `stsc` of the chunks of `chunks`
fn build_stsc(chunks: &Vec<(u64, u32)>) -> (stsc: Result<Vec<SampleToChunkEntry>, BoxError>)
    ensures
        match stsc {
            Ok(entries) => stsc_of(chunks@) == Ok::<Seq<SampleToChunkEntry>, BoxError>(entries@),
            Err(failure) => stsc_of(chunks@) == Err::<Seq<SampleToChunkEntry>, BoxError>(failure),
        },
{
    let mut stsc: Vec<SampleToChunkEntry> = Vec::new();
    let mut i: usize = 0;
    assert(chunks@.take(0) =~= Seq::<(u64, u32)>::empty());
    while i < chunks.len()
        invariant
            0 <= i <= chunks.len(),
            stsc_of(chunks@.take(i as int)) == Ok::<Seq<SampleToChunkEntry>, BoxError>(stsc@),
        decreases chunks.len() - i,
    {
        let (count, index) = chunks[i];
        let ghost taken = chunks@.take(i + 1);
        assert(taken.drop_last() =~= chunks@.take(i as int));
        assert(taken.last() == (count, index));
        if count > u32::MAX as u64 {
            proof {
                lemma_stsc_failure_stays(chunks@, i + 1);
            }
            return Err(BoxError::OutOfRange { value: count });
        }
        let n = stsc.len();
        if n > 0 && stsc[n - 1].samples_per_chunk as u64 == count && stsc[n - 1].sample_description_index == index {
        } else {
            if i >= u32::MAX as usize {
                proof {
                    lemma_stsc_failure_stays(chunks@, i + 1);
                }
                return Err(BoxError::OutOfRange { value: (i + 1) as u64 });
            }
            stsc.push(SampleToChunkEntry { first_chunk: (i + 1) as u32, samples_per_chunk: count as u32, sample_description_index: index });
        }
        i = i + 1;
    }
    assert(chunks@.take(i as int) =~= chunks@);
    Ok(stsc)
}

/// A failure of the `stsc` of the first `k` chunks is the failure of the `stsc` of them all
proof fn lemma_stsc_failure_stays(chunks: Seq<(u64, u32)>, k: int)
    requires
        0 <= k <= chunks.len(),
        stsc_of(chunks.take(k)) is Err,
    ensures
        stsc_of(chunks) == stsc_of(chunks.take(k)),
    decreases chunks.len() - k,
{
    if k < chunks.len() {
        let next = chunks.take(k + 1);
        assert(next.drop_last() =~= chunks.take(k));
        lemma_stsc_failure_stays(chunks, k + 1);
    } else {
        assert(chunks.take(k) =~= chunks);
    }
}

/// Builds the `stsz` of samples occupying `sizes`
fn build_stsz(sizes: Vec<u32>) -> (stsz: SampleSizes)
    ensures
        match stsz {
            SampleSizes::Uniform { sample_size, sample_count } => uniform_sizes(sizes@) && sample_size == sizes@[0]
                && sample_count == sizes@.len(),
            SampleSizes::PerSample(entries) => !uniform_sizes(sizes@) && entries@ == sizes@,
        },
{
    if sizes.len() == 0 || sizes.len() > u32::MAX as usize || sizes[0] == 0 {
        return SampleSizes::PerSample(sizes);
    }
    let first = sizes[0];
    let mut i: usize = 1;
    while i < sizes.len()
        invariant
            1 <= i <= sizes.len(),
            first == sizes@[0],
            forall|j: int| 0 <= j < i ==> sizes@[j] == first,
        decreases sizes.len() - i,
    {
        if sizes[i] != first {
            return SampleSizes::PerSample(sizes);
        }
        i = i + 1;
    }
    SampleSizes::Uniform { sample_size: first, sample_count: sizes.len() as u32 }
}

/// Builds the offsets of chunks starting at `offsets`, in an `stco` where they all fit 32 bits
fn build_offsets(offsets: Vec<u64>) -> (stated: ChunkOffsets)
    ensures
        offsets_stated(stated) == offsets@,
        stated is Stco <==> fit_32(offsets@),
{
    let mut narrow: Vec<u32> = Vec::new();
    let mut i: usize = 0;
    while i < offsets.len()
        invariant
            0 <= i <= offsets.len(),
            narrow@.len() == i,
            forall|j: int| 0 <= j < i ==> #[trigger] offsets@[j] <= u32::MAX,
            forall|j: int| 0 <= j < i ==> #[trigger] narrow@[j] as u64 == offsets@[j],
        decreases offsets.len() - i,
    {
        let offset = offsets[i];
        if offset > u32::MAX as u64 {
            return ChunkOffsets::Co64(offsets);
        }
        let narrowed = offset as u32;
        assert(narrowed as u64 == offset);
        let ghost before = narrow@;
        narrow.push(narrowed);
        assert forall|j: int| 0 <= j < i + 1 implies #[trigger] narrow@[j] as u64 == offsets@[j] by {
            if j < i {
                assert(narrow@[j] == before[j]);
            }
        }
        i = i + 1;
    }
    assert(narrow@.map_values(|offset: u32| offset as u64) =~= offsets@);
    assert(fit_32(offsets@));
    ChunkOffsets::Stco(narrow)
}

/// The tables of one track as its samples are laid out
///
/// `reached` is where the next sample of the track is decoded; `deltas` and
/// `sizes` are those of its samples so far, `chunks` each chunk as its sample
/// count and `stsd` entry, and `chunk_offsets` where each chunk starts.
pub struct OpenTrack {
    pub track_id: u32,
    pub reached: u64,
    pub deltas: Vec<u32>,
    pub sizes: Vec<u32>,
    pub chunks: Vec<(u64, u32)>,
    pub chunk_offsets: Vec<u64>,
}

impl View for OpenTrack {
    type V = TrackLog;

    closed spec fn view(&self) -> TrackLog {
        TrackLog {
            track_id: self.track_id,
            reached: self.reached,
            deltas: self.deltas@,
            sizes: self.sizes@,
            chunks: self.chunks@,
            chunk_offsets: self.chunk_offsets@,
        }
    }
}

impl Default for OpenTrack {
    /// Opens the tables of track 0, no sample laid out for it
    fn default() -> (track: Self)
        ensures
            track@ == new_log(0),
    {
        OpenTrack::new(0)
    }
}

impl OpenTrack {
    /// Opens the tables of a track no sample has been laid out for
    pub fn new(track_id: u32) -> (track: Self)
        ensures
            track@ == new_log(track_id),
    {
        OpenTrack { track_id, reached: 0, deltas: Vec::new(), sizes: Vec::new(), chunks: Vec::new(), chunk_offsets: Vec::new() }
    }

    /// Lays `sample` out after the samples of the track, and hands its bytes back
    ///
    /// Fails, laying nothing out, with
    /// [`UnsupportedCompositionTimeOffset`](SampleError::UnsupportedCompositionTimeOffset)
    /// or [`UnsupportedSampleFlags`](SampleError::UnsupportedSampleFlags) for a
    /// sample stating either, with
    /// [`SampleSizeOutOfRange`](SampleError::SampleSizeOutOfRange) for one past
    /// what an `stsz` entry carries, with
    /// [`DecodeTimeMismatch`](SampleError::DecodeTimeMismatch) for one not
    /// decoded where the track reached, and with
    /// [`DecodeTimeOverflow`](SampleError::DecodeTimeOverflow) where its end
    /// runs past what 64 bits carry.
    pub fn place(&mut self, sample: Sample) -> (result: Result<Vec<u8>, SampleError>)
        ensures
            match place_in(old(self)@, sample@) {
                Ok(log) => final(self)@ == log && log.sizes.len() <= usize::MAX && (result matches Ok(data) && data@
                    == sample@.data),
                Err(failure) => result == Err::<Vec<u8>, SampleError>(failure) && final(self)@ == old(self)@,
            },
    {
        let track_id = sample.track_id();
        if sample.sample_composition_time_offset() != 0 {
            return Err(SampleError::UnsupportedCompositionTimeOffset { track_id, offset: sample.sample_composition_time_offset() });
        }
        if sample.sample_flags() != 0 {
            return Err(SampleError::UnsupportedSampleFlags { track_id, sample_flags: sample.sample_flags() });
        }
        let offered = sample.data().len();
        if offered > u32::MAX as usize {
            return Err(SampleError::SampleSizeOutOfRange { track_id, declared: offered as u64 });
        }
        if sample.decode_time() != self.reached {
            return Err(SampleError::DecodeTimeMismatch { track_id, stated: sample.decode_time(), reached: self.reached });
        }
        self.reached = match self.reached.checked_add(sample.sample_duration() as u64) {
            Some(reached) => reached,
            None => return Err(SampleError::DecodeTimeOverflow { track_id }),
        };
        self.deltas.push(sample.sample_duration());
        self.sizes.push(offered as u32);
        assert(self.sizes@.len() == self.sizes.len());
        Ok(sample.into_data())
    }

    /// Builds the tables of the track, now that its samples are over
    pub fn into_tables(self) -> (result: Result<SampleTables, SampleError>)
        ensures
            match stsc_of(self@.chunks) {
                Ok(_) => result matches Ok(tables) && tables_of(tables, self@),
                Err(failure) => result == Err::<SampleTables, SampleError>(SampleError::Box(failure)),
            },
    {
        let ghost log = self@;
        let stsc = match build_stsc(&self.chunks) {
            Ok(stsc) => stsc,
            Err(failure) => return Err(SampleError::Box(failure)),
        };
        let stts = build_stts(&self.deltas);
        let stsz = build_stsz(self.sizes);
        let chunk_offsets = build_offsets(self.chunk_offsets);
        Ok(SampleTables { stts, stsc, stsz, chunk_offsets })
    }
}

/// The views of the tracks of a writer
spec fn track_logs(tracks: Seq<OpenTrack>) -> Seq<TrackLog> {
    tracks.map_values(|track: OpenTrack| track@)
}

/// Returns the position of the tables of `track_id` among `tracks`, or where they would go
fn find(tracks: &Vec<OpenTrack>, track_id: u32) -> (found: (usize, bool))
    ensures
        found.1 <==> index_from(track_logs(tracks@), track_id, 0) < tracks@.len(),
        found.1 ==> found.0 == index_from(track_logs(tracks@), track_id, 0),
        !found.1 ==> found.0 == insertion_from(track_logs(tracks@), track_id, 0),
{
    let ghost logs = track_logs(tracks@);
    let mut i: usize = 0;
    while i < tracks.len() && tracks[i].track_id != track_id
        invariant
            0 <= i <= tracks.len(),
            logs == track_logs(tracks@),
            logs.len() == tracks.len(),
            index_from(logs, track_id, 0) == index_from(logs, track_id, i as int),
        decreases tracks.len() - i,
    {
        assert(logs[i as int] == tracks@[i as int]@);
        i = i + 1;
    }
    if i < tracks.len() {
        assert(logs[i as int] == tracks@[i as int]@);
        return (i, true);
    }
    let mut k: usize = 0;
    while k < tracks.len() && tracks[k].track_id <= track_id
        invariant
            0 <= k <= tracks.len(),
            logs == track_logs(tracks@),
            logs.len() == tracks.len(),
            index_from(logs, track_id, 0) == logs.len(),
            insertion_from(logs, track_id, 0) == insertion_from(logs, track_id, k as int),
        decreases tracks.len() - k,
    {
        assert(logs[k as int] == tracks@[k as int]@);
        k = k + 1;
    }
    if k < tracks.len() {
        assert(logs[k as int] == tracks@[k as int]@);
    }
    (k, false)
}

/// Lays the samples of a presentation out as the sample tables of a movie
///
/// A chunk is opened by [`begin_chunk`](Self::begin_chunk), which closes the
/// one open before it; every sample it is handed lies after the one before it
/// in the chunk, and its bytes are handed straight back. A chunk holds the
/// samples of one track described by one `stsd` entry, and a chunk handed no
/// sample is not recorded. [`finish`](Self::finish) closes the chunk open and
/// hands back the tables of every track.
///
/// A track starts at decode time zero, and each of its samples starts where
/// the one before it ends. The tables written state no composition time
/// offset and no flag, so a sample stating either is refused. An `Err`
/// leaves the writer failed for good: every later call reports that same
/// failure again.
pub struct SampleTableWriter {
    tracks: Vec<OpenTrack>,
    state: TableWriterState,
}

impl View for SampleTableWriter {
    type V = TableWriterView;

    closed spec fn view(&self) -> TableWriterView {
        TableWriterView { tracks: track_logs(self.tracks@), state: self.state }
    }
}

impl SampleTableWriter {
    /// The tables of no two tracks are held apart
    #[verifier::type_invariant]
    spec fn inv(&self) -> bool {
        unique_ids(track_logs(self.tracks@))
    }

    /// Creates a writer waiting for the first chunk
    pub fn new() -> (writer: Self)
        ensures
            writer@ == (TableWriterView { tracks: Seq::empty(), state: TableWriterState::Between }),
            every_sample_chunked(writer@),
    {
        let writer = SampleTableWriter { tracks: Vec::new(), state: TableWriterState::Between };
        assert(track_logs(writer.tracks@) =~= Seq::<TrackLog>::empty());
        writer
    }

    /// Puts the chunk open, if it holds any sample, on the tables of its track
    fn close_chunk(&mut self)
        ensures
            final(self)@.tracks == closed(old(self)@.tracks, old(self)@.state),
            final(self)@.state == old(self)@.state,
    {
        proof {
            use_type_invariant(&*self);
        }
        if let TableWriterState::Chunk { chunk_offset, held: Some(held) } = self.state {
            let ghost logs = self@.tracks;
            let mut tracks: Vec<OpenTrack> = Vec::new();
            std::mem::swap(&mut tracks, &mut self.tracks);
            assert(track_logs(tracks@) == logs);
            let (i, found) = find(&tracks, held.track_id);
            if found {
                proof {
                    lemma_index_found(logs, held.track_id, 0);
                }
                tracks[i].chunks.push((held.sample_count, held.sample_description_index));
                tracks[i].chunk_offsets.push(chunk_offset);
                assert(track_logs(tracks@) =~= logs.update(i as int, tracks@[i as int]@));
            } else {
                let mut track = OpenTrack::new(held.track_id);
                track.chunks.push((held.sample_count, held.sample_description_index));
                track.chunk_offsets.push(chunk_offset);
                proof {
                    lemma_insertion_in_range(logs, held.track_id, 0);
                }
                tracks.insert(i, track);
                assert(track_logs(tracks@) =~= logs.insert(i as int, track@));
            }
            proof {
                let log = log_of(logs, held.track_id);
                lemma_with_log_unique(
                    logs,
                    TrackLog {
                        chunks: log.chunks.push((held.sample_count, held.sample_description_index)),
                        chunk_offsets: log.chunk_offsets.push(chunk_offset),
                        ..log
                    },
                );
            }
            self.tracks = tracks;
        }
    }

    /// Returns why the writer no longer takes samples, if it does not
    fn writing(&self) -> (refused: Option<SampleError>)
        ensures
            refused == table_refusal(self@.state),
    {
        match self.state {
            TableWriterState::Finished => Some(SampleError::AlreadyFinished),
            TableWriterState::Failed(failure) => Some(failure),
            _ => None,
        }
    }

    /// Opens a chunk starting at `chunk_offset` in the file, which the samples handed over next lie in
    ///
    /// The chunk open before it, if any, is closed. Fails with
    /// [`AlreadyFinished`](SampleError::AlreadyFinished) once the samples were
    /// declared over, and with the failure of a previous call.
    pub fn begin_chunk(&mut self, chunk_offset: u64) -> (result: Result<(), SampleError>)
        ensures
            match table_refusal(old(self)@.state) {
                Some(failure) => result == Err::<(), SampleError>(failure) && final(self)@ == old(self)@,
                None => result is Ok && final(self)@ == (TableWriterView {
                    tracks: closed(old(self)@.tracks, old(self)@.state),
                    state: TableWriterState::Chunk { chunk_offset, held: None },
                }),
            },
            every_sample_chunked(old(self)@) ==> every_sample_chunked(final(self)@),
    {
        proof {
            use_type_invariant(&*self);
        }
        if let Some(failure) = self.writing() {
            return Err(failure);
        }
        let ghost before = self@;
        self.close_chunk();
        proof {
            use_type_invariant(&*self);
            if every_sample_chunked(before) {
                lemma_closing_keeps_samples_chunked(before, TableWriterState::Chunk { chunk_offset, held: None });
            }
        }
        self.state = TableWriterState::Chunk { chunk_offset, held: None };
        Ok(())
    }

    /// Takes a sample, places it at the end of the chunk that is open, and hands its bytes back
    ///
    /// Fails with [`NoChunkOpen`](SampleError::NoChunkOpen) when no chunk was
    /// opened to carry it, with [`TrackIdMismatch`](SampleError::TrackIdMismatch)
    /// when it belongs to another track than the chunk holds, with
    /// [`SampleDescriptionIndexMismatch`](SampleError::SampleDescriptionIndexMismatch)
    /// when another `stsd` entry describes it, with the failures of laying it
    /// out after the samples of its track, with
    /// [`AlreadyFinished`](SampleError::AlreadyFinished) once the samples were
    /// declared over, and with the failure of a previous call.
    pub fn handle_sample(&mut self, sample: Sample) -> (result: Result<Vec<u8>, SampleError>)
        ensures
            match table_refusal(old(self)@.state) {
                Some(failure) => result == Err::<Vec<u8>, SampleError>(failure) && final(self)@ == old(self)@,
                None => match old(self)@.state {
                    TableWriterState::Chunk { chunk_offset, held } => {
                        let h = match held {
                            Some(h) => h,
                            None => HeldSamples {
                                track_id: sample@.track_id,
                                sample_description_index: sample@.sample_description_index,
                                sample_count: 0,
                            },
                        };
                        let outcome = if h.track_id != sample@.track_id {
                            Err(SampleError::TrackIdMismatch { stated: sample@.track_id, established: h.track_id })
                        } else if h.sample_description_index != sample@.sample_description_index {
                            Err(
                                SampleError::SampleDescriptionIndexMismatch {
                                    track_id: sample@.track_id,
                                    stated: sample@.sample_description_index,
                                    established: h.sample_description_index,
                                },
                            )
                        } else {
                            place_in(log_of(old(self)@.tracks, sample@.track_id), sample@)
                        };
                        match outcome {
                            Err(failure) => result == Err::<Vec<u8>, SampleError>(failure) && final(self)@ == (
                            TableWriterView { state: TableWriterState::Failed(failure), ..old(self)@ }),
                            Ok(log) => {
                                &&& result matches Ok(data) && data@ == sample@.data
                                &&& final(self)@ == (TableWriterView {
                                    tracks: with_log(old(self)@.tracks, log),
                                    state: TableWriterState::Chunk {
                                        chunk_offset,
                                        held: Some(
                                            HeldSamples {
                                                sample_count: if h.sample_count == u64::MAX {
                                                    u64::MAX
                                                } else {
                                                    (h.sample_count + 1) as u64
                                                },
                                                ..h
                                            },
                                        ),
                                    },
                                })
                            },
                        }
                    },
                    _ => result == Err::<Vec<u8>, SampleError>(SampleError::NoChunkOpen) && final(self)@ == (
                    TableWriterView { state: TableWriterState::Failed(SampleError::NoChunkOpen), ..old(self)@ }),
                },
            },
            every_sample_chunked(old(self)@) ==> every_sample_chunked(final(self)@),
    {
        proof {
            use_type_invariant(&*self);
        }
        if let Some(failure) = self.writing() {
            return Err(failure);
        }
        let (chunk_offset, held) = match self.state {
            TableWriterState::Chunk { chunk_offset, held } => (chunk_offset, held),
            _ => {
                self.state = TableWriterState::Failed(SampleError::NoChunkOpen);
                return Err(SampleError::NoChunkOpen);
            },
        };
        let track_id = sample.track_id();
        let h = match held {
            Some(h) => h,
            None => HeldSamples { track_id, sample_description_index: sample.sample_description_index(), sample_count: 0 },
        };
        if h.track_id != track_id {
            let failure = SampleError::TrackIdMismatch { stated: track_id, established: h.track_id };
            self.state = TableWriterState::Failed(failure);
            return Err(failure);
        }
        if h.sample_description_index != sample.sample_description_index() {
            let failure = SampleError::SampleDescriptionIndexMismatch {
                track_id,
                stated: sample.sample_description_index(),
                established: h.sample_description_index,
            };
            self.state = TableWriterState::Failed(failure);
            return Err(failure);
        }
        let ghost logs = self@.tracks;
        let mut tracks: Vec<OpenTrack> = Vec::new();
        std::mem::swap(&mut tracks, &mut self.tracks);
        assert(track_logs(tracks@) == logs);
        let (i, found) = find(&tracks, track_id);
        let placed = if found {
            proof {
                lemma_index_found(logs, track_id, 0);
            }
            assert(tracks@[i as int]@ == log_of(logs, track_id));
            let placed = tracks[i].place(sample);
            proof {
                assert(track_logs(tracks@) =~= logs.update(i as int, tracks@[i as int]@));
                if placed is Err {
                    assert(track_logs(tracks@) =~= logs);
                }
            }
            placed
        } else {
            let mut track = OpenTrack::new(track_id);
            let placed = track.place(sample);
            if placed.is_ok() {
                proof {
                    lemma_insertion_in_range(logs, track_id, 0);
                }
                tracks.insert(i, track);
                assert(track_logs(tracks@) =~= logs.insert(i as int, track@));
            }
            placed
        };
        proof {
            if let Ok(log) = place_in(log_of(logs, track_id), sample@) {
                lemma_with_log_unique(logs, log);
            }
        }
        self.tracks = tracks;
        match placed {
            Err(failure) => {
                self.state = TableWriterState::Failed(failure);
                Err(failure)
            },
            Ok(data) => {
                let count = if h.sample_count == u64::MAX { u64::MAX } else { h.sample_count + 1 };
                proof {
                    if every_sample_chunked(old(self)@) {
                        let log = place_in(log_of(logs, track_id), sample@)->Ok_0;
                        lemma_placing_keeps_samples_chunked(old(self)@, sample@, h, log);
                    }
                }
                self.state = TableWriterState::Chunk { chunk_offset, held: Some(HeldSamples { sample_count: count, ..h }) };
                Ok(data)
            },
        }
    }

    /// Declares the samples over, and hands back the sample tables of every track
    ///
    /// The chunk that is open, if any, is closed first. Fails with
    /// [`Box`](SampleError::Box) carrying [`OutOfRange`](BoxError::OutOfRange)
    /// when a chunk holds more samples than an `stsc` entry counts or is
    /// numbered past what one reaches, for the first track in the order of
    /// their numbers; with [`AlreadyFinished`](SampleError::AlreadyFinished)
    /// once the samples were already declared over; and with the failure of a
    /// previous call.
    pub fn finish(&mut self) -> (result: Result<BTreeMap<u32, SampleTables>, SampleError>)
        ensures
            match table_refusal(old(self)@.state) {
                Some(failure) => result == Err::<BTreeMap<u32, SampleTables>, SampleError>(failure) && final(self)@
                    == old(self)@,
                None => {
                    let logs = closed(old(self)@.tracks, old(self)@.state);
                    &&& final(self)@.tracks == Seq::<TrackLog>::empty()
                    &&& match first_table_failure(logs) {
                        Some(failure) => result == Err::<BTreeMap<u32, SampleTables>, SampleError>(SampleError::Box(failure))
                            && final(self)@.state == TableWriterState::Failed(SampleError::Box(failure)),
                        None => {
                            &&& final(self)@.state == TableWriterState::Finished
                            &&& result matches Ok(tables) && {
                                &&& forall|id: u32| #[trigger] tables@.contains_key(id) <==> index_from(logs, id, 0) < logs.len()
                                &&& forall|id: u32| #[trigger] tables@.contains_key(id) ==> tables_of(tables@[id], log_of(logs, id))
                            }
                        },
                    }
                },
            },
            every_sample_chunked(old(self)@) ==> (result matches Ok(tables) ==> forall|id: u32| #[trigger]
                tables@.contains_key(id) ==> accounts_for(log_of(closed(old(self)@.tracks, old(self)@.state), id), 0)),
    {
        proof {
            use_type_invariant(&*self);
        }
        if let Some(failure) = self.writing() {
            return Err(failure);
        }
        let ghost opened = self@;
        self.close_chunk();
        proof {
            use_type_invariant(&*self);
            if every_sample_chunked(opened) {
                lemma_closing_keeps_samples_chunked(opened, TableWriterState::Finished);
            }
        }
        self.state = TableWriterState::Finished;
        let ghost logs = self@.tracks;
        let mut tracks: Vec<OpenTrack> = Vec::new();
        std::mem::swap(&mut tracks, &mut self.tracks);
        assert(track_logs(self.tracks@) =~= Seq::<TrackLog>::empty());
        let mut tables: BTreeMap<u32, SampleTables> = BTreeMap::new();
        let ghost mut seen: Seq<TrackLog> = Seq::empty();
        assert(track_logs(tracks@) == logs);
        while tracks.len() > 0
            invariant
                logs == seen + track_logs(tracks@),
                logs == closed(old(self)@.tracks, old(self)@.state),
                table_refusal(old(self)@.state) is None,
                unique_ids(logs),
                first_table_failure(seen) is None,
                self@.tracks == Seq::<TrackLog>::empty(),
                self@.state == TableWriterState::Finished,
                forall|id: u32| #[trigger] tables@.contains_key(id) <==> index_from(seen, id, 0) < seen.len(),
                forall|id: u32| #[trigger] tables@.contains_key(id) ==> tables_of(tables@[id], log_of(seen, id)),
            decreases tracks.len(),
        {
            let ghost rest = track_logs(tracks@);
            let track = tracks.remove(0);
            let ghost log = track@;
            assert(rest[0] == log);
            assert(track_logs(tracks@) =~= rest.drop_first());
            let track_id = track.track_id;
            match track.into_tables() {
                Err(failure) => {
                    proof {
                        lemma_first_failure_after(seen, rest);
                        assert(stsc_of(log.chunks) is Err);
                        assert(first_table_failure(rest) == Some(stsc_of(log.chunks)->Err_0));
                    }
                    self.state = TableWriterState::Failed(failure);
                    return Err(failure);
                },
                Ok(built) => {
                    proof {
                        assert(stsc_of(log.chunks) is Ok);
                        assert(first_table_failure(Seq::<TrackLog>::empty()) is None);
                        assert(first_table_failure(seq![log]) is None) by {
                            assert(seq![log][0] == log);
                            assert(seq![log].drop_first() =~= Seq::<TrackLog>::empty());
                        }
                        lemma_first_failure_after(seen, seq![log]);
                        assert(seen + seq![log] =~= seen.push(log));
                        lemma_index_in_range(seen, track_id, 0);
                        assert(index_from(seen, track_id, 0) == seen.len()) by {
                            if index_from(seen, track_id, 0) < seen.len() {
                                lemma_index_found(seen, track_id, 0);
                                let j = index_from(seen, track_id, 0);
                                assert(logs[j] == seen[j]);
                                assert(logs[seen.len() as int] == log);
                            }
                        }
                    }
                    let ghost before = tables@;
                    tables.insert(track_id, built);
                    proof {
                        assert(tables@ == before.insert(track_id, built));
                        assert(seen + rest =~= seen.push(log) + rest.drop_first());
                        assert forall|id: u32| #[trigger] tables@.contains_key(id) implies tables_of(
                            tables@[id],
                            log_of(seen.push(log), id),
                        ) by {
                            lemma_index_after_push(seen, log, id, 0);
                            lemma_index_in_range(seen, id, 0);
                            if id != track_id {
                                assert(before.contains_key(id));
                                assert(index_from(seen, id, 0) < seen.len());
                                lemma_index_found(seen, id, 0);
                                assert(seen.push(log)[index_from(seen, id, 0)] == seen[index_from(seen, id, 0)]);
                            } else {
                                assert(seen.push(log)[seen.len() as int] == log);
                            }
                        }
                        assert forall|id: u32| #[trigger] tables@.contains_key(id) <==> index_from(seen.push(log), id, 0) < seen.len() + 1 by {
                            lemma_index_after_push(seen, log, id, 0);
                            lemma_index_in_range(seen, id, 0);
                        }
                        seen = seen.push(log);
                    }
                },
            }
        }
        assert(seen + Seq::<TrackLog>::empty() =~= seen);
        proof {
            if every_sample_chunked(opened) {
                assert forall|id: u32| #[trigger] tables@.contains_key(id) implies accounts_for(log_of(logs, id), 0) by {
                    lemma_index_found(logs, id, 0);
                    let at = index_from(logs, id, 0);
                    assert(accounts_for(logs[at], held_of(TableWriterState::Finished, logs[at].track_id)));
                }
            }
        }
        Ok(tables)
    }
}

/// How many samples the first `c` chunks of `chunks` hold
pub open spec fn chunks_before(chunks: Seq<(u64, u32)>, c: int) -> nat
    decreases c,
{
    if c <= 0 {
        0
    } else {
        (chunks_before(chunks, c - 1) + chunks[c - 1].0) as nat
    }
}

/// How many samples of track `track_id` the chunk open in `state` holds
pub open spec fn held_of(state: TableWriterState, track_id: u32) -> nat {
    match state {
        TableWriterState::Chunk { held: Some(held), .. } => if held.track_id == track_id {
            held.sample_count as nat
        } else {
            0
        },
        _ => 0,
    }
}

/// Whether the log of a track accounts for each of its samples, `held` of
/// them in the chunk open and every other in a chunk closed, and states one
/// duration for each sample and one offset for each chunk
pub open spec fn accounts_for(log: TrackLog, held: nat) -> bool {
    &&& log.deltas.len() == log.sizes.len()
    &&& log.chunk_offsets.len() == log.chunks.len()
    &&& chunks_before(log.chunks, log.chunks.len() as int) + held == log.sizes.len()
}

/// Whether every sample a writer took lies in a chunk of its track, closed or
/// open; a writer that failed takes no more and writes no tables
pub open spec fn every_sample_chunked(v: TableWriterView) -> bool {
    ||| v.state is Failed
    ||| {
        &&& forall|i: int| 0 <= i < v.tracks.len() ==> accounts_for(#[trigger] v.tracks[i], held_of(v.state, v.tracks[i].track_id))
        &&& v.state matches TableWriterState::Chunk { held: Some(held), .. } ==> index_from(v.tracks, held.track_id, 0) < v.tracks.len()
    }
}

/// The chunks before a chunk pushed hold what they held
proof fn lemma_chunks_before_push(chunks: Seq<(u64, u32)>, chunk: (u64, u32), k: int)
    requires
        0 <= k <= chunks.len(),
    ensures
        chunks_before(chunks.push(chunk), k) == chunks_before(chunks, k),
    decreases k,
{
    if k > 0 {
        lemma_chunks_before_push(chunks, chunk, k - 1);
    }
}

/// The search for a track from `k` finds the first log of it, no log between being of it
proof fn lemma_index_at(logs: Seq<TrackLog>, track_id: u32, k: int, at: int)
    requires
        0 <= k <= at < logs.len(),
        forall|j: int| k <= j < at ==> logs[j].track_id != track_id,
        logs[at].track_id == track_id,
    ensures
        index_from(logs, track_id, k) == at,
    decreases at - k,
{
    if k < at {
        lemma_index_at(logs, track_id, k + 1, at);
    }
}

/// Closing the chunk open leaves every sample a writer took in a chunk of its track
proof fn lemma_closing_keeps_samples_chunked(v: TableWriterView, next: TableWriterState)
    requires
        every_sample_chunked(v),
        !(v.state is Failed),
        unique_ids(v.tracks),
        !(next matches TableWriterState::Chunk { held: Some(_), .. }),
        !(next is Failed),
    ensures
        every_sample_chunked(TableWriterView { tracks: closed(v.tracks, v.state), state: next }),
{
    let after = closed(v.tracks, v.state);
    if let TableWriterState::Chunk { chunk_offset, held: Some(held) } = v.state {
        let i = index_from(v.tracks, held.track_id, 0);
        lemma_index_found(v.tracks, held.track_id, 0);
        let log = v.tracks[i];
        let chunk = (held.sample_count, held.sample_description_index);
        let grown = TrackLog { chunks: log.chunks.push(chunk), chunk_offsets: log.chunk_offsets.push(chunk_offset), ..log };
        assert(log_of(v.tracks, held.track_id) == log);
        assert(after == v.tracks.update(i, grown));
        lemma_chunks_before_push(log.chunks, chunk, log.chunks.len() as int);
        assert(accounts_for(log, held_of(v.state, log.track_id)));
        assert forall|j: int| 0 <= j < after.len() implies accounts_for(#[trigger] after[j], held_of(next, after[j].track_id)) by {
            if j != i {
                assert(after[j] == v.tracks[j]);
                assert(v.tracks[j].track_id != v.tracks[i].track_id);
                assert(accounts_for(v.tracks[j], held_of(v.state, v.tracks[j].track_id)));
            }
        }
    } else {
        assert(after == v.tracks);
        assert forall|j: int| 0 <= j < after.len() implies accounts_for(#[trigger] after[j], held_of(next, after[j].track_id)) by {
            assert(accounts_for(v.tracks[j], held_of(v.state, v.tracks[j].track_id)));
        }
    }
}

/// Placing a sample in the chunk open leaves every sample a writer took in a chunk of its track
proof fn lemma_placing_keeps_samples_chunked(v: TableWriterView, sample: SampleView, held: HeldSamples, log: TrackLog)
    requires
        every_sample_chunked(v),
        unique_ids(v.tracks),
        v.state matches TableWriterState::Chunk { held: open, .. } && (match open {
            Some(h) => h == held,
            None => held.sample_count == 0,
        }),
        held.track_id == sample.track_id,
        place_in(log_of(v.tracks, sample.track_id), sample) == Ok::<TrackLog, SampleError>(log),
        log.sizes.len() <= u64::MAX,
    ensures
        held.sample_count < u64::MAX,
        every_sample_chunked(
            TableWriterView {
                tracks: with_log(v.tracks, log),
                state: TableWriterState::Chunk {
                    chunk_offset: v.state->chunk_offset,
                    held: Some(HeldSamples { sample_count: (held.sample_count + 1) as u64, ..held }),
                },
            },
        ),
{
    let id = sample.track_id;
    let next = TableWriterState::Chunk {
        chunk_offset: v.state->chunk_offset,
        held: Some(HeldSamples { sample_count: (held.sample_count + 1) as u64, ..held }),
    };
    let i = index_from(v.tracks, id, 0);
    lemma_index_in_range(v.tracks, id, 0);
    let before = log_of(v.tracks, id);
    if i < v.tracks.len() {
        lemma_index_found(v.tracks, id, 0);
        assert(before == v.tracks[i]);
        assert(accounts_for(before, held_of(v.state, id)));
        assert(held_of(v.state, id) == held.sample_count);
        let after = v.tracks.update(i, log);
        assert(with_log(v.tracks, log) == after);
        assert(index_from(after, id, 0) == i) by {
            lemma_index_absent_before(v.tracks, id, i);
            lemma_index_at(after, id, 0, i);
        }
        assert forall|j: int| 0 <= j < after.len() implies accounts_for(#[trigger] after[j], held_of(next, after[j].track_id)) by {
            if j != i {
                assert(after[j] == v.tracks[j]);
                assert(v.tracks[j].track_id != v.tracks[i].track_id);
                assert(accounts_for(v.tracks[j], held_of(v.state, v.tracks[j].track_id)));
            }
        }
    } else {
        assert(held.sample_count == 0) by {
            if v.state->held is Some {
                assert(index_from(v.tracks, held.track_id, 0) < v.tracks.len());
            }
        }
        assert(before == new_log(id));
        lemma_index_absent(v.tracks, id, 0);
        lemma_insertion_in_range(v.tracks, id, 0);
        let at = insertion_from(v.tracks, id, 0);
        let after = v.tracks.insert(at, log);
        assert(with_log(v.tracks, log) == after);
        assert(log.chunks == Seq::<(u64, u32)>::empty());
        assert(index_from(after, id, 0) == at) by {
            assert forall|j: int| 0 <= j < at implies after[j].track_id != id by {
                assert(after[j] == v.tracks[j]);
            }
            lemma_index_at(after, id, 0, at);
        }
        assert forall|j: int| 0 <= j < after.len() implies accounts_for(#[trigger] after[j], held_of(next, after[j].track_id)) by {
            if j < at {
                assert(after[j] == v.tracks[j]);
                assert(accounts_for(v.tracks[j], held_of(v.state, v.tracks[j].track_id)));
            } else if j > at {
                assert(after[j] == v.tracks[j - 1]);
                assert(accounts_for(v.tracks[j - 1], held_of(v.state, v.tracks[j - 1].track_id)));
            }
        }
    }
}

/// The search for a track that finds its log at `at` passes no log of it before
proof fn lemma_index_absent_before(logs: Seq<TrackLog>, track_id: u32, at: int)
    requires
        0 <= at < logs.len(),
        index_from(logs, track_id, 0) == at,
    ensures
        forall|j: int| 0 <= j < at ==> logs[j].track_id != track_id,
{
    assert forall|j: int| 0 <= j < at implies logs[j].track_id != track_id by {
        lemma_index_skips(logs, track_id, 0, j);
    }
}

/// The search for a track from `k` goes past a log of another track, and stops at one of it
proof fn lemma_index_skips(logs: Seq<TrackLog>, track_id: u32, k: int, j: int)
    requires
        0 <= k <= j < logs.len(),
        index_from(logs, track_id, k) > j,
    ensures
        logs[j].track_id != track_id,
    decreases j - k,
{
    if k < j {
        assert(logs[k].track_id != track_id);
        lemma_index_skips(logs, track_id, k + 1, j);
    }
}

/// The failure of the tables of the first track of `logs` whose tables fail
pub open spec fn first_table_failure(logs: Seq<TrackLog>) -> Option<BoxError>
    decreases logs.len(),
{
    if logs.len() == 0 {
        None
    } else {
        match stsc_of(logs[0].chunks) {
            Err(failure) => Some(failure),
            Ok(_) => first_table_failure(logs.drop_first()),
        }
    }
}

/// The first failure of logs put one after the other is that of the first
/// part, or that of the second where the first has none
proof fn lemma_first_failure_after(seen: Seq<TrackLog>, rest: Seq<TrackLog>)
    requires
        first_table_failure(seen) is None,
    ensures
        first_table_failure(seen + rest) == first_table_failure(rest),
    decreases seen.len(),
{
    if seen.len() > 0 {
        assert((seen + rest).drop_first() =~= seen.drop_first() + rest);
        lemma_first_failure_after(seen.drop_first(), rest);
    } else {
        assert(seen + rest =~= rest);
    }
}

/// No two logs of `logs` are of the same track
pub open spec fn unique_ids(logs: Seq<TrackLog>) -> bool {
    forall|i: int, j: int| 0 <= i < j < logs.len() ==> logs[i].track_id != logs[j].track_id
}

/// The search for a track ends among the logs or just after them
proof fn lemma_index_in_range(logs: Seq<TrackLog>, track_id: u32, k: int)
    requires
        0 <= k,
    ensures
        index_from(logs, track_id, k) <= logs.len(),
    decreases logs.len() - k,
{
    if k < logs.len() && logs[k].track_id != track_id {
        lemma_index_in_range(logs, track_id, k + 1);
    }
}

/// Where the search for `track_id` from `k` finds nothing, no log from `k` on is of that track
proof fn lemma_index_absent(logs: Seq<TrackLog>, track_id: u32, k: int)
    requires
        0 <= k <= logs.len(),
        index_from(logs, track_id, k) == logs.len(),
    ensures
        forall|i: int| k <= i < logs.len() ==> logs[i].track_id != track_id,
    decreases logs.len() - k,
{
    if k < logs.len() {
        lemma_index_absent(logs, track_id, k + 1);
    }
}

/// Where the search for `track_id` from `k` finds a log, it is of that track
proof fn lemma_index_found(logs: Seq<TrackLog>, track_id: u32, k: int)
    requires
        0 <= k,
        index_from(logs, track_id, k) < logs.len(),
    ensures
        k <= index_from(logs, track_id, k),
        logs[index_from(logs, track_id, k)].track_id == track_id,
    decreases logs.len() - k,
{
    if k < logs.len() && logs[k].track_id != track_id {
        lemma_index_found(logs, track_id, k + 1);
    }
}

/// The search for a track among logs with a log pushed after them finds
/// what it found among them, and a track they lack at the log pushed
proof fn lemma_index_after_push(seen: Seq<TrackLog>, log: TrackLog, track_id: u32, k: int)
    requires
        0 <= k <= seen.len(),
    ensures
        index_from(seen, track_id, k) < seen.len() ==> index_from(seen.push(log), track_id, k) == index_from(seen, track_id, k),
        index_from(seen, track_id, k) == seen.len() && log.track_id == track_id ==> index_from(seen.push(log), track_id, k)
            == seen.len(),
        index_from(seen, track_id, k) == seen.len() && log.track_id != track_id ==> index_from(seen.push(log), track_id, k)
            == seen.len() + 1,
    decreases seen.len() - k,
{
    if k < seen.len() {
        assert(seen.push(log)[k] == seen[k]);
        lemma_index_after_push(seen, log, track_id, k + 1);
    } else {
        assert(seen.push(log)[k] == log);
        assert(index_from(seen.push(log), track_id, k + 1) == seen.len() + 1);
    }
}

/// Holding a log for a track keeps the logs of distinct tracks
proof fn lemma_with_log_unique(logs: Seq<TrackLog>, log: TrackLog)
    requires
        unique_ids(logs),
    ensures
        unique_ids(with_log(logs, log)),
{
    let i = index_from(logs, log.track_id, 0);
    if i < logs.len() {
        lemma_index_found(logs, log.track_id, 0);
        let after = logs.update(i, log);
        assert forall|a: int, b: int| 0 <= a < b < after.len() implies after[a].track_id != after[b].track_id by {
            assert(after[a].track_id == logs[a].track_id);
            assert(after[b].track_id == logs[b].track_id);
        }
    } else {
        lemma_index_in_range(logs, log.track_id, 0);
        lemma_index_absent(logs, log.track_id, 0);
        let at = insertion_from(logs, log.track_id, 0);
        lemma_insertion_in_range(logs, log.track_id, 0);
        let after = logs.insert(at, log);
        assert forall|a: int, b: int| 0 <= a < b < after.len() implies after[a].track_id != after[b].track_id by {
            if a < at && b < at {
            } else if a < at && b == at {
            } else if a < at {
                assert(after[b] == logs[b - 1]);
            } else if a == at {
                assert(after[b] == logs[b - 1]);
            } else {
                assert(after[a] == logs[a - 1]);
                assert(after[b] == logs[b - 1]);
            }
        }
    }
}

/// Where a log is put lies among the logs or just after them
proof fn lemma_insertion_in_range(logs: Seq<TrackLog>, track_id: u32, k: int)
    requires
        0 <= k <= logs.len(),
    ensures
        k <= insertion_from(logs, track_id, k) <= logs.len(),
    decreases logs.len() - k,
{
    if k < logs.len() && logs[k].track_id <= track_id {
        lemma_insertion_in_range(logs, track_id, k + 1);
    }
}

/// How many samples the `stts` entries from `e` on count
pub open spec fn stts_count_from(stts: Seq<TimeToSampleEntry>, e: int) -> int
    decreases stts.len() - e,
{
    if e < 0 || e >= stts.len() {
        0
    } else {
        stts[e].sample_count + stts_count_from(stts, e + 1)
    }
}

/// The samples entries count are never fewer than none
proof fn lemma_stts_count_nonnegative(stts: Seq<TimeToSampleEntry>, e: int)
    ensures
        stts_count_from(stts, e) >= 0,
    decreases stts.len() - e,
{
    if 0 <= e < stts.len() {
        lemma_stts_count_nonnegative(stts, e + 1);
    }
}

/// Reading an entry pushed after `stts` reads the entries before it first, then its own samples
proof fn lemma_delta_after_push(stts: Seq<TimeToSampleEntry>, x: TimeToSampleEntry, e: int, k: int)
    requires
        0 <= e <= stts.len(),
        k >= 0,
    ensures
        delta_from(stts.push(x), e, k) == if k < stts_count_from(stts, e) {
            delta_from(stts, e, k)
        } else if k - stts_count_from(stts, e) < x.sample_count {
            Some(x.sample_delta)
        } else {
            None
        },
        stts_count_from(stts.push(x), e) == stts_count_from(stts, e) + x.sample_count,
    decreases stts.len() - e,
{
    lemma_stts_count_nonnegative(stts, e + 1);
    if e < stts.len() {
        assert(stts.push(x)[e] == stts[e]);
        if k >= stts[e].sample_count {
            lemma_delta_after_push(stts, x, e + 1, k - stts[e].sample_count);
        }
        lemma_delta_after_push(stts, x, e + 1, 0);
    } else {
        assert(stts.push(x)[e] == x);
        assert(stts_count_from(stts.push(x), e + 1) == 0);
        if k >= x.sample_count {
            assert(delta_from(stts.push(x), e + 1, k - x.sample_count) is None);
        }
    }
}

/// How long sample `k` lasts by the `stts` written for samples lasting `deltas`
proof fn lemma_stts_reads_back_at(deltas: Seq<u32>, k: int)
    requires
        deltas.len() > 0,
        stts_count_from(stts_of(deltas.drop_last()), 0) == deltas.len() - 1,
        forall|j: int| 0 <= j < deltas.len() - 1 ==> #[trigger] delta_at(stts_of(deltas.drop_last()), j) == Some(deltas[j]),
        k >= 0,
    ensures
        stts_count_from(stts_of(deltas), 0) == deltas.len(),
        delta_at(stts_of(deltas), k) == if k < deltas.len() { Some(deltas[k]) } else { None::<u32> },
{
    let before = stts_of(deltas.drop_last());
    let delta = deltas.last();
    let n = deltas.len() - 1;
    lemma_stts_count_nonnegative(before, 0);
    if before.len() > 0 && before.last().sample_delta == delta && before.last().sample_count < u32::MAX {
        let last = before.last();
        let front = before.drop_last();
        assert(front.push(last) =~= before);
        let grown = TimeToSampleEntry { sample_count: (last.sample_count + 1) as u32, sample_delta: delta };
        assert(before.update(before.len() - 1, grown) =~= front.push(grown));
        assert(stts_of(deltas) == front.push(grown));
        lemma_delta_after_push(front, last, 0, k);
        lemma_delta_after_push(front, grown, 0, k);
        lemma_stts_count_nonnegative(front, 0);
        if k < n {
            assert(delta_at(before, k) == Some(deltas[k]));
        }
    } else {
        let one = TimeToSampleEntry { sample_count: 1, sample_delta: delta };
        assert(stts_of(deltas) == before.push(one));
        lemma_delta_after_push(before, one, 0, k);
        if k < n {
            assert(delta_at(before, k) == Some(deltas[k]));
        }
    }
}

/// The `stts` written for samples lasting `deltas` reads back how long each of them lasts, and no more samples
pub proof fn lemma_stts_reads_back(deltas: Seq<u32>)
    ensures
        stts_count_from(stts_of(deltas), 0) == deltas.len(),
        forall|k: int| 0 <= k < deltas.len() ==> #[trigger] delta_at(stts_of(deltas), k) == Some(deltas[k]),
        forall|k: int| k >= deltas.len() ==> #[trigger] delta_at(stts_of(deltas), k) is None,
    decreases deltas.len(),
{
    if deltas.len() > 0 {
        let before_deltas = deltas.drop_last();
        lemma_stts_reads_back(before_deltas);
        assert forall|j: int| 0 <= j < deltas.len() - 1 implies #[trigger] delta_at(stts_of(deltas.drop_last()), j) == Some(deltas[j]) by {
            assert(before_deltas[j] == deltas[j]);
        }
        lemma_stts_reads_back_at(deltas, 0);
        assert forall|k: int| 0 <= k < deltas.len() implies #[trigger] delta_at(stts_of(deltas), k) == Some(deltas[k]) by {
            lemma_stts_reads_back_at(deltas, k);
        }
        assert forall|k: int| k >= deltas.len() implies #[trigger] delta_at(stts_of(deltas), k) is None by {
            lemma_stts_reads_back_at(deltas, k);
        }
    } else {
        assert forall|k: int| k >= deltas.len() implies #[trigger] delta_at(stts_of(deltas), k) is None by {
            assert(stts_of(deltas) =~= Seq::<TimeToSampleEntry>::empty());
        }
    }
}

/// The entry of `stsc` whose run of chunks holds chunk `c`, counted from one:
/// the last to start at or before it
pub open spec fn entry_covering(stsc: Seq<SampleToChunkEntry>, c: int) -> Option<SampleToChunkEntry>
    decreases stsc.len(),
{
    if stsc.len() == 0 {
        None
    } else if stsc.last().first_chunk <= c {
        Some(stsc.last())
    } else {
        entry_covering(stsc.drop_last(), c)
    }
}

/// Whether each entry of `stsc` starts its run at a later chunk than the one before
pub open spec fn runs_rise(stsc: Seq<SampleToChunkEntry>) -> bool {
    forall|i: int, j: int| 0 <= i < j < stsc.len() ==> stsc[i].first_chunk < stsc[j].first_chunk
}

/// The `stsc` written for chunks `chunks` reads back, for each of them, the
/// samples it holds and the entry describing them
///
/// Its runs start at chunk 1, each at a later chunk than the one before, and
/// at no chunk past the last.
pub proof fn lemma_stsc_reads_back(chunks: Seq<(u64, u32)>)
    requires
        stsc_of(chunks) is Ok,
    ensures
        runs_rise(stsc_of(chunks)->Ok_0),
        chunks.len() > 0 ==> stsc_of(chunks)->Ok_0.len() > 0 && stsc_of(chunks)->Ok_0[0].first_chunk == 1,
        stsc_of(chunks)->Ok_0.len() > 0 ==> stsc_of(chunks)->Ok_0.last().first_chunk <= chunks.len(),
        forall|c: int| 1 <= c <= chunks.len() ==> {
            let entry = #[trigger] entry_covering(stsc_of(chunks)->Ok_0, c);
            &&& entry is Some
            &&& entry->0.samples_per_chunk == chunks[c - 1].0
            &&& entry->0.sample_description_index == chunks[c - 1].1
        },
    decreases chunks.len(),
{
    if chunks.len() > 0 {
        let prefix = chunks.drop_last();
        let n = chunks.len() as int;
        assert(stsc_of(prefix) is Ok);
        lemma_stsc_reads_back(prefix);
        let before = stsc_of(prefix)->Ok_0;
        let entries = stsc_of(chunks)->Ok_0;
        let (count, index) = chunks.last();
        if before.len() > 0 && before.last().samples_per_chunk == count && before.last().sample_description_index == index {
            assert(entries == before);
            assert forall|c: int| 1 <= c <= chunks.len() implies {
                let entry = #[trigger] entry_covering(entries, c);
                &&& entry is Some
                &&& entry->0.samples_per_chunk == chunks[c - 1].0
                &&& entry->0.sample_description_index == chunks[c - 1].1
            } by {
                if c < n {
                    assert(prefix[c - 1] == chunks[c - 1]);
                    let _ = entry_covering(before, c);
                } else {
                    assert(entry_covering(entries, c) == Some(before.last()));
                }
            }
        } else {
            let new = SampleToChunkEntry { first_chunk: n as u32, samples_per_chunk: count as u32, sample_description_index: index };
            assert(entries == before.push(new));
            assert(entries.drop_last() =~= before);
            assert forall|i: int, j: int| 0 <= i < j < entries.len() implies entries[i].first_chunk < entries[j].first_chunk by {
                if j == entries.len() - 1 {
                    assert(before[i].first_chunk <= before.last().first_chunk);
                }
            }
            if before.len() > 0 {
                assert(entries[0] == before[0]);
            }
            assert forall|c: int| 1 <= c <= chunks.len() implies {
                let entry = #[trigger] entry_covering(entries, c);
                &&& entry is Some
                &&& entry->0.samples_per_chunk == chunks[c - 1].0
                &&& entry->0.sample_description_index == chunks[c - 1].1
            } by {
                if c < n {
                    assert(prefix[c - 1] == chunks[c - 1]);
                    assert(entry_covering(entries, c) == entry_covering(before, c));
                }
            }
        }
    }
}

/// The `stsz` written for samples occupying `sizes` reads back the bytes each occupies, and no more samples
pub proof fn lemma_stsz_reads_back(stsz: SampleSizes, sizes: Seq<u32>)
    requires
        match stsz {
            SampleSizes::Uniform { sample_size, sample_count } => uniform_sizes(sizes) && sample_size == sizes[0]
                && sample_count == sizes.len(),
            SampleSizes::PerSample(entries) => !uniform_sizes(sizes) && entries@ == sizes,
        },
    ensures
        size_count(stsz) == sizes.len(),
        forall|k: int| 0 <= k < sizes.len() ==> #[trigger] size_at(stsz, k) == Some(sizes[k]),
        forall|k: int| k >= sizes.len() ==> #[trigger] size_at(stsz, k) is None,
{
}

} // verus!

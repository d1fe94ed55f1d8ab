//! [`MovieFragmentWriter`], the samples of a presentation laid out as movie fragments
//!
//! The order the samples arrive in is the only order the writer has, so it is
//! the one it lays them out in: the media data holds the samples in the order
//! they were handed over, there is one track fragment per track in the order
//! the tracks first appear, and a run of samples of one track handed over
//! together is one track run, cut where the two versions of a `trun` would
//! disagree on how to write their composition time offsets (ISO/IEC 14496-12
//! §8.8.8). What the samples of a track fragment share is stated once, as a
//! default of its header.

use vstd::prelude::*;

use crate::sample::boxes::{MovieFragmentBox, TrackFragmentBox, TrackFragmentHeaderBox, TrackRunBox, TrackRunSample};
use crate::sample::error::SampleError;
use crate::sample::sample::{Sample, SampleView};
use crate::sample::track_decode_times::{spec_decode_time, TrackDecodeTimes};

verus! {

/// What a track run states of one sample
#[derive(Clone, Copy, PartialEq, Eq, Debug, Structural)]
pub struct TrackRunRow {
    pub sample_duration: u32,
    pub sample_size: u32,
    pub sample_flags: u32,
    pub sample_composition_time_offset: i64,
}

/// A composition time offset one of the two versions of a `trun` writes
pub open spec fn offset_written(offset: i64) -> bool {
    i32::MIN <= offset <= u32::MAX
}

/// Whether `row` joins a run of `rows` without the run needing both versions
/// of a `trun`: one for an offset before zero, the other for one past what
/// 31 bits carry
pub open spec fn joins(rows: Seq<TrackRunRow>, row: TrackRunRow) -> bool {
    &&& row.sample_composition_time_offset < 0 ==> forall|i: int|
        0 <= i < rows.len() ==> #[trigger] rows[i].sample_composition_time_offset <= i32::MAX
    &&& row.sample_composition_time_offset > i32::MAX ==> forall|i: int|
        0 <= i < rows.len() ==> #[trigger] rows[i].sample_composition_time_offset >= 0
}

/// A run of samples of one track laid next to each other
pub struct RunPlan {
    /// Where the data of its first sample lies, counted from the start of the media data
    pub data_offset: u64,
    pub rows: Seq<TrackRunRow>,
}

/// What one track of the fragment holds
pub struct TrackPlan {
    pub track_id: u32,
    /// When its first sample in the fragment is decoded
    pub decode_time: u64,
    /// Where its next sample has to start
    pub reached: u64,
    pub sample_description_index: u32,
    pub runs: Seq<RunPlan>,
}

/// What an open fragment holds
pub struct FragmentPlan {
    pub sequence_number: u32,
    /// The tracks in the order they first appeared
    pub tracks: Seq<TrackPlan>,
    pub media_data: Seq<u8>,
    /// The track the sample handed over last belongs to
    pub last_track_id: Option<u32>,
}

/// The position of the first track of `tracks` from `k` on numbered `track_id`, or their count
pub open spec fn plan_index(tracks: Seq<TrackPlan>, track_id: u32, k: int) -> int
    decreases tracks.len() - k,
{
    if k < 0 || k >= tracks.len() {
        tracks.len() as int
    } else if tracks[k].track_id == track_id {
        k
    } else {
        plan_index(tracks, track_id, k + 1)
    }
}

/// The track once `row` is laid out after its samples, its data at
/// `data_offset`, in the run of the sample before it where `carries_on`
pub open spec fn track_placed(track: TrackPlan, row: TrackRunRow, data_offset: u64, carries_on: bool) -> Result<TrackPlan, SampleError> {
    if track.reached + row.sample_duration > u64::MAX {
        Err(SampleError::DecodeTimeOverflow { track_id: track.track_id })
    } else {
        let runs = track.runs;
        let runs2 = if carries_on && runs.len() > 0 && joins(runs.last().rows, row) {
            runs.update(runs.len() - 1, RunPlan { data_offset: runs.last().data_offset, rows: runs.last().rows.push(row) })
        } else {
            runs.push(RunPlan { data_offset, rows: seq![row] })
        };
        Ok(TrackPlan { reached: (track.reached + row.sample_duration) as u64, runs: runs2, ..track })
    }
}

/// The row a sample is stated by, once its size and offset are known to fit
pub open spec fn row_of(sample: SampleView) -> TrackRunRow {
    TrackRunRow {
        sample_duration: sample.sample_duration,
        sample_size: sample.data.len() as u32,
        sample_flags: sample.sample_flags,
        sample_composition_time_offset: sample.sample_composition_time_offset,
    }
}

/// The fragment once `sample` is placed in it, the tracks standing where
/// `times` has them for those reaching it for the first time; or why it is refused
pub open spec fn fragment_placed(fragment: FragmentPlan, sample: SampleView, times: Map<u32, u64>) -> Result<FragmentPlan, SampleError> {
    let track_id = sample.track_id;
    if sample.data.len() > u32::MAX {
        Err(SampleError::SampleSizeOutOfRange { track_id, declared: sample.data.len() as u64 })
    } else if !offset_written(sample.sample_composition_time_offset) {
        Err(SampleError::CompositionTimeOffsetOutOfRange { track_id, offset: sample.sample_composition_time_offset })
    } else {
        let row = row_of(sample);
        let data_offset = fragment.media_data.len() as u64;
        let carries_on = fragment.last_track_id == Some(track_id);
        let i = plan_index(fragment.tracks, track_id, 0);
        let placed = if i < fragment.tracks.len() {
            let track = fragment.tracks[i];
            if track.sample_description_index != sample.sample_description_index {
                Err(SampleError::SampleDescriptionIndexMismatch { track_id, stated: sample.sample_description_index, established: track.sample_description_index })
            } else if track.reached != sample.decode_time {
                Err(SampleError::DecodeTimeMismatch { track_id, stated: sample.decode_time, reached: track.reached })
            } else {
                match track_placed(track, row, data_offset, carries_on) {
                    Err(failure) => Err(failure),
                    Ok(placed) => Ok(fragment.tracks.update(i, placed)),
                }
            }
        } else {
            let reached = spec_decode_time(times, track_id);
            if sample.decode_time < reached {
                Err(SampleError::BackwardDecodeTime { track_id, stated: sample.decode_time, reached })
            } else {
                let track = TrackPlan {
                    track_id,
                    decode_time: sample.decode_time,
                    reached: sample.decode_time,
                    sample_description_index: sample.sample_description_index,
                    runs: Seq::empty(),
                };
                match track_placed(track, row, data_offset, false) {
                    Err(failure) => Err(failure),
                    Ok(placed) => Ok(fragment.tracks.push(placed)),
                }
            }
        };
        match placed {
            Err(failure) => Err(failure),
            Ok(tracks) => Ok(FragmentPlan { tracks, media_data: fragment.media_data + sample.data, last_track_id: Some(track_id), ..fragment }),
        }
    }
}

/// The position `plan_index` finds lies between `k` and the end, and holds the track it looks for where it is not the end
proof fn lemma_plan_index(tracks: Seq<TrackPlan>, track_id: u32, k: int)
    requires
        0 <= k,
    ensures
        k <= plan_index(tracks, track_id, k) <= tracks.len() || (k > tracks.len() && plan_index(tracks, track_id, k) == tracks.len()),
        plan_index(tracks, track_id, k) < tracks.len() ==> tracks[plan_index(tracks, track_id, k)].track_id == track_id,
    decreases tracks.len() - k,
{
    if k < tracks.len() && tracks[k].track_id != track_id {
        lemma_plan_index(tracks, track_id, k + 1);
    }
}

/// A sample placed in a fragment lands at the decode time it states: a
/// track the fragment carries takes it only where its samples so far reach,
/// and a track new to the fragment starts its track fragment there; either
/// way the track then reaches the end of the sample
pub proof fn lemma_sample_lands_where_it_states(fragment: FragmentPlan, sample: SampleView, times: Map<u32, u64>)
    requires
        fragment_placed(fragment, sample, times) is Ok,
    ensures
        ({
            let i = plan_index(fragment.tracks, sample.track_id, 0);
            let after = fragment_placed(fragment, sample, times)->Ok_0;
            &&& 0 <= i < after.tracks.len()
            &&& after.tracks[i].track_id == sample.track_id
            &&& after.tracks[i].reached == sample.decode_time + sample.sample_duration
            &&& i < fragment.tracks.len() ==> sample.decode_time == fragment.tracks[i].reached
                && after.tracks[i].decode_time == fragment.tracks[i].decode_time
            &&& i == fragment.tracks.len() ==> after.tracks[i].decode_time == sample.decode_time
                && sample.decode_time >= spec_decode_time(times, sample.track_id)
        }),
{
    lemma_plan_index(fragment.tracks, sample.track_id, 0);
}

/// A run of samples of one track, as laid out
#[derive(Clone, Debug, PartialEq, Eq)]
pub struct RunLayout {
    pub data_offset: u64,
    pub rows: Vec<TrackRunRow>,
}

impl View for RunLayout {
    type V = RunPlan;

    open spec fn view(&self) -> RunPlan {
        RunPlan { data_offset: self.data_offset, rows: self.rows@ }
    }
}

/// The samples of one track in a fragment, as laid out
#[derive(Clone, Debug, PartialEq, Eq)]
pub struct TrackLayout {
    pub track_id: u32,
    pub decode_time: u64,
    pub reached: u64,
    pub sample_description_index: u32,
    pub runs: Vec<RunLayout>,
}

/// The views of runs
pub open spec fn run_plans(runs: Seq<RunLayout>) -> Seq<RunPlan> {
    runs.map_values(|run: RunLayout| run@)
}

impl View for TrackLayout {
    type V = TrackPlan;

    open spec fn view(&self) -> TrackPlan {
        TrackPlan {
            track_id: self.track_id,
            decode_time: self.decode_time,
            reached: self.reached,
            sample_description_index: self.sample_description_index,
            runs: run_plans(self.runs@),
        }
    }
}

/// The views of tracks
pub open spec fn track_plans(tracks: Seq<TrackLayout>) -> Seq<TrackPlan> {
    tracks.map_values(|track: TrackLayout| track@)
}

/// A movie fragment being written, or written: its tracks and the payload of its `mdat`
#[derive(Clone, Debug, PartialEq, Eq)]
pub struct FragmentLayout {
    pub sequence_number: u32,
    pub tracks: Vec<TrackLayout>,
    pub media_data: Vec<u8>,
    pub last_track_id: Option<u32>,
}

impl View for FragmentLayout {
    type V = FragmentPlan;

    open spec fn view(&self) -> FragmentPlan {
        FragmentPlan {
            sequence_number: self.sequence_number,
            tracks: track_plans(self.tracks@),
            media_data: self.media_data@,
            last_track_id: self.last_track_id,
        }
    }
}

/// Whether `row` joins a run of `rows`, as [`joins`] has it
fn row_joins(rows: &Vec<TrackRunRow>, row: TrackRunRow) -> (fits: bool)
    ensures
        fits == joins(rows@, row),
{
    let offset = row.sample_composition_time_offset;
    let mut i: usize = 0;
    while i < rows.len()
        invariant
            0 <= i <= rows.len(),
            offset == row.sample_composition_time_offset,
            offset < 0 ==> forall|j: int| 0 <= j < i ==> #[trigger] rows@[j].sample_composition_time_offset <= i32::MAX,
            offset > i32::MAX ==> forall|j: int| 0 <= j < i ==> #[trigger] rows@[j].sample_composition_time_offset >= 0,
        decreases rows.len() - i,
    {
        let other = rows[i].sample_composition_time_offset;
        if offset < 0 && other > i32::MAX as i64 {
            return false;
        }
        if offset > i32::MAX as i64 && other < 0 {
            return false;
        }
        i = i + 1;
    }
    true
}

impl TrackLayout {
    /// Lays `row` out after the samples of the track
    fn place(&mut self, row: TrackRunRow, data_offset: u64, carries_on: bool) -> (result: Result<(), SampleError>)
        ensures
            match track_placed(old(self)@, row, data_offset, carries_on) {
                Ok(placed) => result is Ok && final(self)@ == placed,
                Err(failure) => result == Err::<(), SampleError>(failure) && final(self)@ == old(self)@,
            },
    {
        self.reached = match self.reached.checked_add(row.sample_duration as u64) {
            Some(reached) => reached,
            None => return Err(SampleError::DecodeTimeOverflow { track_id: self.track_id }),
        };
        let ghost runs = run_plans(self.runs@);
        let n = self.runs.len();
        if carries_on && n > 0 && row_joins(&self.runs[n - 1].rows, row) {
            self.runs[n - 1].rows.push(row);
            assert(run_plans(self.runs@) =~= runs.update(n - 1, RunPlan { data_offset: runs.last().data_offset, rows: runs.last().rows.push(row) }));
        } else {
            let mut rows: Vec<TrackRunRow> = Vec::new();
            rows.push(row);
            assert(rows@ =~= seq![row]);
            self.runs.push(RunLayout { data_offset, rows });
            assert(run_plans(self.runs@) =~= runs.push(RunPlan { data_offset, rows: seq![row] }));
        }
        Ok(())
    }
}

/// Returns the position of the first track of `tracks` numbered `track_id`, or their count
fn position_of(tracks: &Vec<TrackLayout>, track_id: u32) -> (i: usize)
    ensures
        i == plan_index(track_plans(tracks@), track_id, 0),
        i <= tracks.len(),
{
    let ghost plans = track_plans(tracks@);
    let mut i: usize = 0;
    while i < tracks.len() && tracks[i].track_id != track_id
        invariant
            0 <= i <= tracks.len(),
            plans == track_plans(tracks@),
            plan_index(plans, track_id, 0) == plan_index(plans, track_id, i as int),
        decreases tracks.len() - i,
    {
        assert(plans[i as int] == tracks@[i as int]@);
        i = i + 1;
    }
    if i < tracks.len() {
        assert(plans[i as int] == tracks@[i as int]@);
    }
    i
}

impl FragmentLayout {
    /// Opens a fragment carrying no samples yet, which its `mfhd` numbers `sequence_number`
    pub fn new(sequence_number: u32) -> (fragment: Self)
        ensures
            fragment@ == (FragmentPlan { sequence_number, tracks: Seq::empty(), media_data: Seq::empty(), last_track_id: None }),
    {
        let fragment = FragmentLayout { sequence_number, tracks: Vec::new(), media_data: Vec::new(), last_track_id: None };
        assert(track_plans(fragment.tracks@) =~= Seq::<TrackPlan>::empty());
        fragment
    }

    /// Places `sample` in the fragment, its bytes on the end of the media data
    ///
    /// `decode_times` is where the fragments closed before this one leave each
    /// track, which a track reaching this fragment for the first time is
    /// checked against. A failure leaves the fragment as it was.
    #[verifier::rlimit(40)]
    pub fn place(&mut self, sample: Sample, decode_times: &TrackDecodeTimes) -> (result: Result<(), SampleError>)
        ensures
            match fragment_placed(old(self)@, sample@, decode_times@) {
                Ok(placed) => result is Ok && final(self)@ == placed,
                Err(failure) => result == Err::<(), SampleError>(failure) && final(self)@ == old(self)@,
            },
    {
        let track_id = sample.track_id();
        let offered = sample.data().len();
        if offered > u32::MAX as usize {
            return Err(SampleError::SampleSizeOutOfRange { track_id, declared: offered as u64 });
        }
        let offset = sample.sample_composition_time_offset();
        if offset < i32::MIN as i64 || offset > u32::MAX as i64 {
            return Err(SampleError::CompositionTimeOffsetOutOfRange { track_id, offset });
        }
        let row = TrackRunRow {
            sample_duration: sample.sample_duration(),
            sample_size: offered as u32,
            sample_flags: sample.sample_flags(),
            sample_composition_time_offset: offset,
        };
        assert(row == row_of(sample@));
        let decode_time = sample.decode_time();
        let sample_description_index = sample.sample_description_index();
        let data_offset = self.media_data.len() as u64;
        let carries_on = match self.last_track_id {
            Some(last) => last == track_id,
            None => false,
        };
        let ghost plans = self@.tracks;
        let i = position_of(&self.tracks, track_id);
        if i < self.tracks.len() {
            assert(plans[i as int] == self.tracks@[i as int]@);
            if self.tracks[i].sample_description_index != sample_description_index {
                return Err(SampleError::SampleDescriptionIndexMismatch {
                    track_id,
                    stated: sample_description_index,
                    established: self.tracks[i].sample_description_index,
                });
            }
            if self.tracks[i].reached != decode_time {
                return Err(SampleError::DecodeTimeMismatch { track_id, stated: decode_time, reached: self.tracks[i].reached });
            }
            let placed = self.tracks[i].place(row, data_offset, carries_on);
            if let Err(failure) = placed {
                assert(track_plans(self.tracks@) =~= plans);
                return Err(failure);
            }
            assert(track_plans(self.tracks@) =~= plans.update(i as int, self.tracks@[i as int]@));
        } else {
            let reached = decode_times.decode_time(track_id);
            if decode_time < reached {
                return Err(SampleError::BackwardDecodeTime { track_id, stated: decode_time, reached });
            }
            let mut track = TrackLayout { track_id, decode_time, reached: decode_time, sample_description_index, runs: Vec::new() };
            assert(run_plans(track.runs@) =~= Seq::<RunPlan>::empty());
            track.place(row, data_offset, false)?;
            self.tracks.push(track);
            assert(track_plans(self.tracks@) =~= plans.push(track@));
        }
        let ghost before = self.media_data@;
        let ghost tracks_now = self.tracks@;
        let mut j: usize = 0;
        let data = sample.data();
        while j < data.len()
            invariant
                0 <= j <= data.len(),
                self.tracks@ == tracks_now,
                self.sequence_number == old(self).sequence_number,
                self.last_track_id == old(self).last_track_id,
                self.media_data@ == before + data@.take(j as int),
            decreases data.len() - j,
        {
            self.media_data.push(data[j]);
            j = j + 1;
            assert(self.media_data@ =~= before + data@.take(j as int));
        }
        assert(data@.take(j as int) =~= data@);
        self.last_track_id = Some(track_id);
        Ok(())
    }
}

/// Where a [`MovieFragmentWriter`] stands between calls
pub enum FragmentWriterState {
    /// No fragment open
    Between,
    /// A fragment open, holding the samples placed so far
    Fragment(FragmentLayout),
    /// Failed, and reporting that same failure for every call after it
    Failed(SampleError),
}

/// What a [`MovieFragmentWriter`] holds: where every track stands, and whether a fragment is open
pub struct FragmentWriterView {
    pub decode_times: Map<u32, u64>,
    pub open: Option<FragmentPlan>,
    pub failed: Option<SampleError>,
}

/// Lays the samples of a presentation out as movie fragments
///
/// The writer takes the samples of a fragment between
/// [`begin_fragment`](Self::begin_fragment) and
/// [`finish_fragment`](Self::finish_fragment), which hands back how the
/// fragment is laid out: its tracks, their runs, and the payload of its
/// `mdat`. Within one fragment a sample of a track starts where the one
/// before it ends; between fragments a gap is written as it stands, but a
/// track never goes back. The samples of one track fragment are all
/// described by one `stsd` entry. An `Err` leaves the writer failed for good:
/// every later call reports that same failure again.
pub struct MovieFragmentWriter {
    decode_times: TrackDecodeTimes,
    state: FragmentWriterState,
}

impl View for MovieFragmentWriter {
    type V = FragmentWriterView;

    closed spec fn view(&self) -> FragmentWriterView {
        FragmentWriterView {
            decode_times: self.decode_times@,
            open: match self.state {
                FragmentWriterState::Fragment(open) => Some(open@),
                _ => None,
            },
            failed: match self.state {
                FragmentWriterState::Failed(failure) => Some(failure),
                _ => None,
            },
        }
    }
}

impl MovieFragmentWriter {
    /// Creates a writer no fragment was written by, every track standing at zero
    pub fn new() -> (writer: Self)
        ensures
            writer@ == (FragmentWriterView { decode_times: Map::empty(), open: None, failed: None }),
    {
        MovieFragmentWriter { decode_times: TrackDecodeTimes::new(), state: FragmentWriterState::Between }
    }

    /// Opens a fragment, which its `mfhd` numbers `sequence_number`
    ///
    /// Fails with [`FragmentStillOpen`](SampleError::FragmentStillOpen) when
    /// one is open, and with the failure of a previous call.
    pub fn begin_fragment(&mut self, sequence_number: u32) -> (result: Result<(), SampleError>)
        ensures
            old(self)@.failed is Some ==> result == Err::<(), SampleError>(old(self)@.failed->0) && final(self)@ == old(self)@,
            old(self)@.failed is None && old(self)@.open is Some ==> result == Err::<(), SampleError>(SampleError::FragmentStillOpen)
                && final(self)@ == (FragmentWriterView { open: None, failed: Some(SampleError::FragmentStillOpen), ..old(self)@ }),
            old(self)@.failed is None && old(self)@.open is None ==> result is Ok && final(self)@ == (FragmentWriterView {
                open: Some(FragmentPlan { sequence_number, tracks: Seq::empty(), media_data: Seq::empty(), last_track_id: None }),
                ..old(self)@
            }),
    {
        match self.state {
            FragmentWriterState::Between => {},
            FragmentWriterState::Fragment(_) => {
                self.state = FragmentWriterState::Failed(SampleError::FragmentStillOpen);
                return Err(SampleError::FragmentStillOpen);
            },
            FragmentWriterState::Failed(failure) => return Err(failure),
        }
        self.state = FragmentWriterState::Fragment(FragmentLayout::new(sequence_number));
        Ok(())
    }

    /// Places `sample` in the fragment that is open
    ///
    /// Fails with [`NoFragmentOpen`](SampleError::NoFragmentOpen) when none is
    /// open, with the failures of [`FragmentLayout::place`], and with the
    /// failure of a previous call.
    pub fn handle_sample(&mut self, sample: Sample) -> (result: Result<(), SampleError>)
        ensures
            old(self)@.failed is Some ==> result == Err::<(), SampleError>(old(self)@.failed->0) && final(self)@ == old(self)@,
            old(self)@.failed is None && old(self)@.open is None ==> result == Err::<(), SampleError>(SampleError::NoFragmentOpen)
                && final(self)@ == (FragmentWriterView { failed: Some(SampleError::NoFragmentOpen), ..old(self)@ }),
            old(self)@.failed is None && old(self)@.open is Some ==> match fragment_placed(old(self)@.open->0, sample@, old(self)@.decode_times) {
                Ok(placed) => result is Ok && final(self)@ == (FragmentWriterView { open: Some(placed), ..old(self)@ }),
                Err(failure) => result == Err::<(), SampleError>(failure) && final(self)@ == (FragmentWriterView {
                    open: None,
                    failed: Some(failure),
                    ..old(self)@
                }),
            },
    {
        let mut state = FragmentWriterState::Between;
        std::mem::swap(&mut state, &mut self.state);
        match state {
            FragmentWriterState::Between => {
                self.state = FragmentWriterState::Failed(SampleError::NoFragmentOpen);
                Err(SampleError::NoFragmentOpen)
            },
            FragmentWriterState::Failed(failure) => {
                self.state = FragmentWriterState::Failed(failure);
                Err(failure)
            },
            FragmentWriterState::Fragment(mut open) => {
                match open.place(sample, &self.decode_times) {
                    Ok(()) => {
                        self.state = FragmentWriterState::Fragment(open);
                        Ok(())
                    },
                    Err(failure) => {
                        self.state = FragmentWriterState::Failed(failure);
                        Err(failure)
                    },
                }
            },
        }
    }

    /// Returns the failure the writer keeps, if it failed
    pub fn failure(&self) -> (failure: Option<SampleError>)
        ensures
            failure == self@.failed,
    {
        match self.state {
            FragmentWriterState::Failed(failure) => Some(failure),
            _ => None,
        }
    }

    /// Returns whether a fragment is open
    pub fn fragment_open(&self) -> (open: bool)
        ensures
            open == self@.open is Some,
    {
        match self.state {
            FragmentWriterState::Fragment(_) => true,
            _ => false,
        }
    }

    /// Closes the fragment that is open, and hands back how it is laid out
    ///
    /// Every track the fragment carries is moved to where its samples leave
    /// it, which the fragments written after it are checked against. Fails
    /// with [`NoFragmentOpen`](SampleError::NoFragmentOpen) when none is open,
    /// and with the failure of a previous call.
    pub fn finish_fragment(&mut self) -> (result: Result<FragmentLayout, SampleError>)
        ensures
            old(self)@.failed is Some ==> result == Err::<FragmentLayout, SampleError>(old(self)@.failed->0) && final(self)@
                == old(self)@,
            old(self)@.failed is None && old(self)@.open is None ==> result == Err::<FragmentLayout, SampleError>(
                SampleError::NoFragmentOpen,
            ) && final(self)@ == (FragmentWriterView { failed: Some(SampleError::NoFragmentOpen), ..old(self)@ }),
            old(self)@.failed is None && old(self)@.open is Some ==> {
                &&& result matches Ok(fragment) && fragment@ == old(self)@.open->0
                &&& final(self)@ == (FragmentWriterView {
                    decode_times: reached_all(old(self)@.decode_times, old(self)@.open->0.tracks),
                    open: None,
                    failed: None,
                })
            },
    {
        let mut state = FragmentWriterState::Between;
        std::mem::swap(&mut state, &mut self.state);
        match state {
            FragmentWriterState::Between => {
                self.state = FragmentWriterState::Failed(SampleError::NoFragmentOpen);
                Err(SampleError::NoFragmentOpen)
            },
            FragmentWriterState::Failed(failure) => {
                self.state = FragmentWriterState::Failed(failure);
                Err(failure)
            },
            FragmentWriterState::Fragment(open) => {
                let mut i: usize = 0;
                let ghost start = self.decode_times@;
                let ghost plans = open@.tracks;
                assert(plans.take(0) =~= Seq::<TrackPlan>::empty());
                while i < open.tracks.len()
                    invariant
                        0 <= i <= open.tracks.len(),
                        plans == open@.tracks,
                        self@.open is None,
                        self@.failed is None,
                        self.decode_times@ == reached_all(start, plans.take(i as int)),
                    decreases open.tracks.len() - i,
                {
                    let track = &open.tracks[i];
                    assert(plans[i as int] == track@);
                    assert(plans.take(i + 1).drop_last() =~= plans.take(i as int));
                    assert(plans.take(i + 1).last() == plans[i as int]);
                    self.decode_times.reach(track.track_id, track.reached);
                    i = i + 1;
                }
                assert(plans.take(i as int) =~= plans);
                Ok(open)
            },
        }
    }

    /// Builds the `moof` the fragment laid out as `fragment` is written as,
    /// its media data starting `base` bytes after the start of the `moof`, as
    /// [`build_movie_fragment`] does
    ///
    /// A fragment whose offsets do not fit their field fails the writer for
    /// good with that failure, as does every failure of the writer: the
    /// failure of a previous call is reported again, and nothing is built.
    pub fn build_fragment(&mut self, fragment: &FragmentLayout, base: u64) -> (result: Result<MovieFragmentBox, SampleError>)
        ensures
            old(self)@.failed is Some ==> result == Err::<MovieFragmentBox, SampleError>(old(self)@.failed->0)
                && final(self)@ == old(self)@,
            old(self)@.failed is None ==> match first_offset_failure(fragment@.tracks, base) {
                Some(failure) => result == Err::<MovieFragmentBox, SampleError>(failure)
                    && final(self)@ == (FragmentWriterView { open: None, failed: Some(failure), ..old(self)@ }),
                None => final(self)@ == old(self)@ && (result matches Ok(moof) && {
                    &&& moof.sequence_number == fragment.sequence_number
                    &&& moof.track_fragments@.len() == fragment@.tracks.len()
                    &&& forall|i: int| 0 <= i < fragment@.tracks.len() ==> track_written(
                        #[trigger] moof.track_fragments@[i],
                        fragment@.tracks[i],
                        base,
                    )
                }),
            },
    {
        if let FragmentWriterState::Failed(failure) = self.state {
            return Err(failure);
        }
        match build_movie_fragment(fragment, base) {
            Ok(moof) => Ok(moof),
            Err(failure) => {
                self.state = FragmentWriterState::Failed(failure);
                Err(failure)
            },
        }
    }
}

/// Where every track stands once each of `tracks`, in order, is moved to where it reached
pub open spec fn reached_all(times: Map<u32, u64>, tracks: Seq<TrackPlan>) -> Map<u32, u64>
    decreases tracks.len(),
{
    if tracks.len() == 0 {
        times
    } else {
        reached_all(times, tracks.drop_last()).insert(tracks.last().track_id, tracks.last().reached)
    }
}

/// The `data_offset` a track run of `track_id` states for data lying
/// `run_offset` bytes into the media data, the media data starting `base`
/// bytes after the start of the `moof`; or the failure of an offset past
/// what the field carries
pub open spec fn spec_run_data_offset(base: u64, run_offset: u64, track_id: u32) -> Result<i32, SampleError> {
    let offset = if base + run_offset > u64::MAX { u64::MAX } else { (base + run_offset) as u64 };
    if offset > i32::MAX {
        Err(SampleError::DataOffsetOutOfRange { track_id, offset })
    } else {
        Ok(offset as i32)
    }
}

/// Returns the `data_offset` a track run of `track_id` states for data lying
/// `run_offset` bytes into the media data, the media data starting `base`
/// bytes after the start of the `moof`, which is where the offsets of a
/// fragment written here are anchored
///
/// Fails with [`DataOffsetOutOfRange`](SampleError::DataOffsetOutOfRange)
/// when the offset lies past what the 32-bit field carries.
pub fn run_data_offset(base: u64, run_offset: u64, track_id: u32) -> (result: Result<i32, SampleError>)
    ensures
        result == spec_run_data_offset(base, run_offset, track_id),
{
    let offset = base.saturating_add(run_offset);
    if offset > i32::MAX as u64 {
        Err(SampleError::DataOffsetOutOfRange { track_id, offset })
    } else {
        Ok(offset as i32)
    }
}

/// The value every sample of `values` shares, if they share one
pub open spec fn shared(values: Seq<u32>) -> Option<u32> {
    if values.len() > 0 && forall|i: int| 0 <= i < values.len() ==> #[trigger] values[i] == values[0] {
        Some(values[0])
    } else {
        None
    }
}

/// Returns the value every one of `values` shares, if they share one
pub fn shared_value(values: &Vec<u32>) -> (value: Option<u32>)
    ensures
        value == shared(values@),
{
    if values.len() == 0 {
        return None;
    }
    let first = values[0];
    let mut i: usize = 1;
    while i < values.len()
        invariant
            1 <= i <= values.len(),
            first == values@[0],
            forall|j: int| 0 <= j < i ==> #[trigger] values@[j] == first,
        decreases values.len() - i,
    {
        if values[i] != first {
            return None;
        }
        i = i + 1;
    }
    Some(first)
}

/// Every row of the runs of `runs`, run after run
pub open spec fn plan_rows(runs: Seq<RunPlan>) -> Seq<TrackRunRow>
    decreases runs.len(),
{
    if runs.len() == 0 {
        Seq::empty()
    } else {
        plan_rows(runs.drop_last()) + runs.last().rows
    }
}

/// The flags a track fragment header states as the default of rows flagged
/// `flags`: those they all share, else those all but the first share
pub open spec fn default_flags(flags: Seq<u32>) -> Option<u32> {
    match shared(flags) {
        Some(shared_flags) => Some(shared_flags),
        None => if flags.len() > 0 {
            shared(flags.drop_first())
        } else {
            None
        },
    }
}

/// The header the track fragment of `track` is written with: anchored at the
/// `moof`, stating the `stsd` entry of its samples and what they all share
pub open spec fn header_of(track: TrackPlan) -> TrackFragmentHeaderBox {
    let rows = plan_rows(track.runs);
    TrackFragmentHeaderBox {
        track_id: track.track_id,
        base_data_offset: None,
        sample_description_index: Some(track.sample_description_index),
        default_sample_duration: shared(rows.map_values(|row: TrackRunRow| row.sample_duration)),
        default_sample_size: shared(rows.map_values(|row: TrackRunRow| row.sample_size)),
        default_sample_flags: default_flags(rows.map_values(|row: TrackRunRow| row.sample_flags)),
        duration_is_empty: false,
        default_base_is_moof: true,
    }
}

/// Whether a run states composition time offsets: where any of its rows composes apart from when it is decoded
pub open spec fn offsets_stated(rows: Seq<TrackRunRow>) -> bool {
    exists|i: int| 0 <= i < rows.len() && #[trigger] rows[i].sample_composition_time_offset != 0
}

/// What the row of a run states of `row`: what the header leaves to it
pub open spec fn stated_row(row: TrackRunRow, header: TrackFragmentHeaderBox, with_offsets: bool) -> TrackRunSample {
    TrackRunSample {
        sample_duration: if header.default_sample_duration is Some { None } else { Some(row.sample_duration) },
        sample_size: if header.default_sample_size is Some { None } else { Some(row.sample_size) },
        sample_flags: if header.default_sample_flags is Some { None } else { Some(row.sample_flags) },
        sample_composition_time_offset: if with_offsets { Some(row.sample_composition_time_offset) } else { None },
    }
}

/// The flags the first row of `run` states apart from the default of `header`, where it differs
pub open spec fn first_flags_of(run: RunPlan, header: TrackFragmentHeaderBox) -> Option<u32> {
    match header.default_sample_flags {
        Some(flags) => if run.rows.len() > 0 && run.rows[0].sample_flags != flags {
            Some(run.rows[0].sample_flags)
        } else {
            None
        },
        None => None,
    }
}

/// Whether `written` is the track run `run` is written as, under `header`, its data at `data_offset`
pub open spec fn run_written(written: TrackRunBox, run: RunPlan, header: TrackFragmentHeaderBox, data_offset: i32) -> bool {
    &&& written.data_offset == Some(data_offset)
    &&& written.first_sample_flags == first_flags_of(run, header)
    &&& written.samples@ == run.rows.map_values(|row: TrackRunRow| stated_row(row, header, offsets_stated(run.rows)))
}

/// The first failure of placing the data of a run of `runs` of `track_id`, the media data starting `base` bytes into the fragment
pub open spec fn first_run_failure(runs: Seq<RunPlan>, base: u64, track_id: u32) -> Option<SampleError>
    decreases runs.len(),
{
    if runs.len() == 0 {
        None
    } else {
        match spec_run_data_offset(base, runs[0].data_offset, track_id) {
            Err(failure) => Some(failure),
            Ok(_) => first_run_failure(runs.drop_first(), base, track_id),
        }
    }
}

/// The first failure of placing the data of a run of a track of `tracks`
pub open spec fn first_offset_failure(tracks: Seq<TrackPlan>, base: u64) -> Option<SampleError>
    decreases tracks.len(),
{
    if tracks.len() == 0 {
        None
    } else {
        match first_run_failure(tracks[0].runs, base, tracks[0].track_id) {
            Some(failure) => Some(failure),
            None => first_offset_failure(tracks.drop_first(), base),
        }
    }
}

/// Whether `written` is the track fragment `track` is written as, its media data starting `base` bytes into the fragment
pub open spec fn track_written(written: TrackFragmentBox, track: TrackPlan, base: u64) -> bool {
    &&& written.tfhd == header_of(track)
    &&& written.base_media_decode_time == Some(track.decode_time)
    &&& written.runs@.len() == track.runs.len()
    &&& forall|j: int| 0 <= j < track.runs.len() ==> run_written(
        #[trigger] written.runs@[j],
        track.runs[j],
        header_of(track),
        spec_run_data_offset(base, track.runs[j].data_offset, track.track_id)->Ok_0,
    )
}

/// Whether `written` is the track fragment `track` is written as with every
/// run stating offset zero: the fragment as long as it is once placed, its
/// offsets being fields of a fixed width
pub open spec fn track_measured(written: TrackFragmentBox, track: TrackPlan) -> bool {
    &&& written.tfhd == header_of(track)
    &&& written.base_media_decode_time == Some(track.decode_time)
    &&& written.runs@.len() == track.runs.len()
    &&& forall|j: int| 0 <= j < track.runs.len() ==> run_written(#[trigger] written.runs@[j], track.runs[j], header_of(track), 0)
}

/// Returns every row of the runs of `runs`, run after run
fn rows_of(runs: &Vec<RunLayout>) -> (rows: Vec<TrackRunRow>)
    ensures
        rows@ == plan_rows(run_plans(runs@)),
{
    let ghost plans = run_plans(runs@);
    let mut rows: Vec<TrackRunRow> = Vec::new();
    let mut r: usize = 0;
    assert(plans.take(0) =~= Seq::<RunPlan>::empty());
    while r < runs.len()
        invariant
            0 <= r <= runs.len(),
            plans == run_plans(runs@),
            rows@ == plan_rows(plans.take(r as int)),
        decreases runs.len() - r,
    {
        let run = &runs[r];
        assert(plans[r as int] == run@);
        let ghost before = rows@;
        let mut i: usize = 0;
        while i < run.rows.len()
            invariant
                0 <= i <= run.rows.len(),
                rows@ == before + run.rows@.take(i as int),
            decreases run.rows.len() - i,
        {
            rows.push(run.rows[i]);
            i = i + 1;
            assert(rows@ =~= before + run.rows@.take(i as int));
        }
        assert(run.rows@.take(i as int) =~= run.rows@);
        assert(plans.take(r + 1).drop_last() =~= plans.take(r as int));
        assert(plans.take(r + 1).last() == plans[r as int]);
        r = r + 1;
    }
    assert(plans.take(r as int) =~= plans);
    rows
}

/// Returns the header the track fragment of `track` is written with
fn build_header(track: &TrackLayout) -> (header: TrackFragmentHeaderBox)
    ensures
        header == header_of(track@),
{
    let rows = rows_of(&track.runs);
    let mut durations: Vec<u32> = Vec::new();
    let mut sizes: Vec<u32> = Vec::new();
    let mut flags: Vec<u32> = Vec::new();
    let mut i: usize = 0;
    while i < rows.len()
        invariant
            0 <= i <= rows.len(),
            durations@ == rows@.take(i as int).map_values(|row: TrackRunRow| row.sample_duration),
            sizes@ == rows@.take(i as int).map_values(|row: TrackRunRow| row.sample_size),
            flags@ == rows@.take(i as int).map_values(|row: TrackRunRow| row.sample_flags),
        decreases rows.len() - i,
    {
        durations.push(rows[i].sample_duration);
        sizes.push(rows[i].sample_size);
        flags.push(rows[i].sample_flags);
        i = i + 1;
        assert(durations@ =~= rows@.take(i as int).map_values(|row: TrackRunRow| row.sample_duration));
        assert(sizes@ =~= rows@.take(i as int).map_values(|row: TrackRunRow| row.sample_size));
        assert(flags@ =~= rows@.take(i as int).map_values(|row: TrackRunRow| row.sample_flags));
    }
    assert(rows@.take(i as int) =~= rows@);
    let default_flags = match shared_value(&flags) {
        Some(shared_flags) => Some(shared_flags),
        None => if flags.len() > 0 {
            let mut rest: Vec<u32> = Vec::new();
            let mut k: usize = 1;
            while k < flags.len()
                invariant
                    1 <= k <= flags.len(),
                    rest@ == flags@.subrange(1, k as int),
                decreases flags.len() - k,
            {
                rest.push(flags[k]);
                k = k + 1;
                assert(rest@ =~= flags@.subrange(1, k as int));
            }
            assert(rest@ =~= flags@.drop_first());
            shared_value(&rest)
        } else {
            None
        },
    };
    TrackFragmentHeaderBox {
        track_id: track.track_id,
        base_data_offset: None,
        sample_description_index: Some(track.sample_description_index),
        default_sample_duration: shared_value(&durations),
        default_sample_size: shared_value(&sizes),
        default_sample_flags: default_flags,
        duration_is_empty: false,
        default_base_is_moof: true,
    }
}

/// Returns the track run `run` is written as, under `header`, its data at `data_offset`
fn build_run(run: &RunLayout, header: &TrackFragmentHeaderBox, data_offset: i32) -> (written: TrackRunBox)
    ensures
        run_written(written, run@, *header, data_offset),
{
    let mut with_offsets = false;
    let mut i: usize = 0;
    while i < run.rows.len()
        invariant
            0 <= i <= run.rows.len(),
            with_offsets == exists|j: int| 0 <= j < i && #[trigger] run.rows@[j].sample_composition_time_offset != 0,
        decreases run.rows.len() - i,
    {
        if run.rows[i].sample_composition_time_offset != 0 {
            with_offsets = true;
        }
        i = i + 1;
    }
    let mut samples: Vec<TrackRunSample> = Vec::new();
    let mut k: usize = 0;
    while k < run.rows.len()
        invariant
            0 <= k <= run.rows.len(),
            with_offsets == offsets_stated(run.rows@),
            samples@ == run.rows@.take(k as int).map_values(|row: TrackRunRow| stated_row(row, *header, with_offsets)),
        decreases run.rows.len() - k,
    {
        let row = run.rows[k];
        samples.push(TrackRunSample {
            sample_duration: if header.default_sample_duration.is_some() { None } else { Some(row.sample_duration) },
            sample_size: if header.default_sample_size.is_some() { None } else { Some(row.sample_size) },
            sample_flags: if header.default_sample_flags.is_some() { None } else { Some(row.sample_flags) },
            sample_composition_time_offset: if with_offsets { Some(row.sample_composition_time_offset) } else { None },
        });
        k = k + 1;
        assert(samples@ =~= run.rows@.take(k as int).map_values(|row: TrackRunRow| stated_row(row, *header, with_offsets)));
    }
    assert(run.rows@.take(k as int) =~= run.rows@);
    let first_sample_flags = match header.default_sample_flags {
        Some(flags) => if run.rows.len() > 0 && run.rows[0].sample_flags != flags {
            Some(run.rows[0].sample_flags)
        } else {
            None
        },
        None => None,
    };
    TrackRunBox { data_offset: Some(data_offset), first_sample_flags, samples }
}

/// Returns the track fragment `track` is written as, its media data starting
/// `base` bytes into the fragment; with no `base`, every run stating offset zero
fn build_track_fragment(track: &TrackLayout, base: Option<u64>) -> (result: Result<TrackFragmentBox, SampleError>)
    ensures
        match base {
            Some(base) => match first_run_failure(track@.runs, base, track.track_id) {
                Some(failure) => result == Err::<TrackFragmentBox, SampleError>(failure),
                None => result matches Ok(written) && track_written(written, track@, base),
            },
            None => result matches Ok(written) && track_measured(written, track@),
        },
{
    let header = build_header(track);
    let ghost plans = track@.runs;
    let mut runs: Vec<TrackRunBox> = Vec::new();
    let mut r: usize = 0;
    assert(plans.skip(0) =~= plans);
    while r < track.runs.len()
        invariant
            0 <= r <= track.runs.len(),
            plans == track@.runs,
            header == header_of(track@),
            base matches Some(b) ==> first_run_failure(plans, b, track.track_id) == first_run_failure(plans.skip(r as int), b, track.track_id),
            runs@.len() == r,
            forall|j: int| 0 <= j < r ==> run_written(
                #[trigger] runs@[j],
                plans[j],
                header,
                match base {
                    Some(b) => spec_run_data_offset(b, plans[j].data_offset, track.track_id)->Ok_0,
                    None => 0i32,
                },
            ),
        decreases track.runs.len() - r,
    {
        let run = &track.runs[r];
        assert(plans[r as int] == run@);
        let ghost rest = plans.skip(r as int);
        assert(rest[0] == plans[r as int]);
        assert(rest.drop_first() =~= plans.skip(r + 1));
        let data_offset = match base {
            Some(b) => run_data_offset(b, run.data_offset, track.track_id)?,
            None => 0,
        };
        let written = build_run(run, &header, data_offset);
        runs.push(written);
        r = r + 1;
    }
    assert(plans.skip(r as int) =~= Seq::<RunPlan>::empty());
    Ok(TrackFragmentBox { tfhd: header, base_media_decode_time: Some(track.decode_time), runs })
}

/// Returns the `moof` `fragment` is written as, its media data starting
/// `base` bytes after the start of the `moof`: past the `moof` itself and
/// the header of the `mdat` that follows it
///
/// Every track fragment is anchored at the `moof`, states a decode time and
/// the `stsd` entry of its samples, and states once in its header what its
/// samples share. Fails with
/// [`DataOffsetOutOfRange`](SampleError::DataOffsetOutOfRange) for the first
/// run whose data lies past what the `data_offset` of a `trun` carries.
pub fn build_movie_fragment(fragment: &FragmentLayout, base: u64) -> (result: Result<MovieFragmentBox, SampleError>)
    ensures
        match first_offset_failure(fragment@.tracks, base) {
            Some(failure) => result == Err::<MovieFragmentBox, SampleError>(failure),
            None => result matches Ok(moof) && {
                &&& moof.sequence_number == fragment.sequence_number
                &&& moof.track_fragments@.len() == fragment@.tracks.len()
                &&& forall|i: int| 0 <= i < fragment@.tracks.len() ==> track_written(
                    #[trigger] moof.track_fragments@[i],
                    fragment@.tracks[i],
                    base,
                )
            },
        },
{
    let ghost plans = fragment@.tracks;
    let mut trafs: Vec<TrackFragmentBox> = Vec::new();
    let mut t: usize = 0;
    assert(plans.skip(0) =~= plans);
    while t < fragment.tracks.len()
        invariant
            0 <= t <= fragment.tracks.len(),
            plans == fragment@.tracks,
            first_offset_failure(plans, base) == first_offset_failure(plans.skip(t as int), base),
            trafs@.len() == t,
            forall|i: int| 0 <= i < t ==> track_written(#[trigger] trafs@[i], plans[i], base),
        decreases fragment.tracks.len() - t,
    {
        let track = &fragment.tracks[t];
        assert(plans[t as int] == track@);
        let ghost rest = plans.skip(t as int);
        assert(rest[0] == plans[t as int]);
        assert(rest.drop_first() =~= plans.skip(t + 1));
        let written = build_track_fragment(track, Some(base))?;
        trafs.push(written);
        t = t + 1;
    }
    assert(plans.skip(t as int) =~= Seq::<TrackPlan>::empty());
    Ok(MovieFragmentBox { sequence_number: fragment.sequence_number, track_fragments: trafs })
}

/// Returns the `moof` `fragment` is written as with every run stating offset
/// zero, which measures the `moof` the offsets of the media data count past
///
/// Offsets are fields of a fixed width, so the `moof` is as long as the one
/// [`build_movie_fragment`] builds for the same layout, and this one never fails.
pub fn measuring_movie_fragment(fragment: &FragmentLayout) -> (moof: MovieFragmentBox)
    ensures
        moof.sequence_number == fragment.sequence_number,
        moof.track_fragments@.len() == fragment@.tracks.len(),
        forall|i: int| 0 <= i < fragment@.tracks.len() ==> track_measured(#[trigger] moof.track_fragments@[i], fragment@.tracks[i]),
{
    let ghost plans = fragment@.tracks;
    let mut trafs: Vec<TrackFragmentBox> = Vec::new();
    let mut t: usize = 0;
    while t < fragment.tracks.len()
        invariant
            0 <= t <= fragment.tracks.len(),
            plans == fragment@.tracks,
            trafs@.len() == t,
            forall|i: int| 0 <= i < t ==> track_measured(#[trigger] trafs@[i], plans[i]),
        decreases fragment.tracks.len() - t,
    {
        let track = &fragment.tracks[t];
        assert(plans[t as int] == track@);
        let written = match build_track_fragment(track, None) {
            Ok(written) => written,
            Err(_) => {
                proof {
                    assert(false);
                }
                return MovieFragmentBox { sequence_number: fragment.sequence_number, track_fragments: trafs };
            },
        };
        trafs.push(written);
        t = t + 1;
    }
    MovieFragmentBox { sequence_number: fragment.sequence_number, track_fragments: trafs }
}

} // verus!

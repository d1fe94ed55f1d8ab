//! [`MediaSegmentWriter`], a media segment laid down as the samples come, ISO/IEC 14496-12 §8.16

use vstd::prelude::*;

use crate::sample::error::SampleError;
use crate::sample::boxes::MovieFragmentBox;
use crate::sample::movie_fragment_writer::{first_offset_failure, track_written, FragmentLayout, FragmentWriterView, MovieFragmentWriter};
use crate::sample::sample::Sample;
use crate::sequence::writer::{BoxWriter, WriterPhase, WriterView};
use crate::structure::error::{FourCC, StructureError, MDAT, MOOF, STYP};
use crate::structure::media_segment::{
    spec_place, MediaSegmentDisposition, MediaSegmentStructure, SegmentPosition, SegmentState,
};
use crate::structure::segment_reader::structure_finished;
use crate::structure::stack::{framed_box, framing_closed, from_structure, stack_refusal, write_box, StackError, StackState};

verus! {

/// What a [`MediaSegmentWriter`] holds
pub struct SegmentWriterView {
    /// The framing of the segment the boxes are laid down in
    pub boxes: WriterView,
    /// Where the structure of the segment stands
    pub structure: SegmentState,
    /// The samples being laid out as fragments
    pub samples: FragmentWriterView,
    /// Where the writer stands between calls
    pub state: StackState,
}

/// Where the structure stands once a box of `box_type` is placed, and what
/// it makes of it, as [`MediaSegmentStructure::handle_box_type`] has it
pub open spec fn segment_placed(state: SegmentState, box_type: FourCC) -> (SegmentState, Result<MediaSegmentDisposition, StructureError>) {
    let placed = match state {
        SegmentState::Reading(position) => Some(spec_place(position, box_type)),
        SegmentState::Resuming(position) => if box_type == MOOF || box_type == crate::structure::error::SIDX {
            Some(spec_place(position, box_type))
        } else {
            Some(Err(StructureError::BoxOutOfOrder { box_type }))
        },
        _ => None,
    };
    match placed {
        Some(Ok((reached, disposition))) => (SegmentState::Reading(reached), Ok(disposition)),
        Some(Err(failure)) => (SegmentState::Failed(failure), Err(failure)),
        None => match state {
            SegmentState::Failed(failure) => (state, Err(failure)),
            _ => (state, Err(StructureError::AlreadyFinished)),
        },
    }
}

/// The writer failed with `failure`
pub open spec fn writer_failed(w: SegmentWriterView, failure: StackError) -> (SegmentWriterView, Result<(), StackError>) {
    (SegmentWriterView { state: StackState::Failed(failure), ..w }, Err(failure))
}

/// The writer once a box of `box_type` carrying `payload` is laid down where
/// the structure places it; a box the structure passes over is out of order
pub open spec fn laid_down(w: SegmentWriterView, box_type: FourCC, payload: Seq<u8>) -> (SegmentWriterView, Result<(), StackError>) {
    let (structure, placed) = segment_placed(w.structure, box_type);
    let w = SegmentWriterView { structure, ..w };
    match placed {
        Err(failure) => writer_failed(w, from_structure(failure)),
        Ok(MediaSegmentDisposition::Skip) | Ok(MediaSegmentDisposition::SegmentIndex) => writer_failed(
            w,
            StackError::BoxOutOfOrder { box_type },
        ),
        Ok(_) => {
            let (boxes, framed) = framed_box(w.boxes, box_type, payload);
            let w = SegmentWriterView { boxes, ..w };
            match framed {
                Ok(_) => (w, Ok(())),
                Err(failure) => writer_failed(w, StackError::Sequence(failure)),
            }
        },
    }
}

/// The writer once the segment is declared over: the samples, which may hold no
/// fragment open, then the structure, then the framing
pub open spec fn writer_finished(w: SegmentWriterView) -> (SegmentWriterView, Result<(), StackError>) {
    if w.samples.failed is Some {
        writer_failed(w, StackError::Sample(w.samples.failed->0))
    } else if w.samples.open is Some {
        writer_failed(w, StackError::Sample(SampleError::FragmentStillOpen))
    } else {
        let (structure, placed) = structure_finished(w.structure);
        let w = SegmentWriterView { structure, ..w };
        match placed {
            Err(failure) => writer_failed(w, from_structure(failure)),
            Ok(_) => {
                let (boxes, closed) = framing_closed(w.boxes);
                let w = SegmentWriterView { boxes, ..w };
                match closed {
                    Err(failure) => writer_failed(w, StackError::Sequence(failure)),
                    Ok(_) => (SegmentWriterView { state: StackState::Finished, ..w }, Ok(())),
                }
            },
        }
    }
}

/// Lays a media segment down, taking the samples as they come
///
/// The brands are handed over as the payload of the `styp`, and laid down as
/// they stand; a segment may declare none. A fragment is opened by
/// [`begin_fragment`](Self::begin_fragment), carries the samples handed over
/// next, and is closed by [`finish_fragment`](Self::finish_fragment), which
/// hands back how it is laid out; its `moof`, written from that layout, is
/// handed back with the media data through
/// [`lay_down_fragment`](Self::lay_down_fragment). The order of the boxes is a
/// [`MediaSegmentStructure`]'s: a box out of it is refused. The bytes are
/// taken from [`poll_output`](Self::poll_output).
///
/// An `Err` leaves the writer failed for good: every later call reports that
/// same failure again. The bytes laid down before it are still there to take.
pub struct MediaSegmentWriter {
    boxes: BoxWriter,
    structure: MediaSegmentStructure,
    samples: MovieFragmentWriter,
    state: StackState,
}

impl View for MediaSegmentWriter {
    type V = SegmentWriterView;

    closed spec fn view(&self) -> SegmentWriterView {
        SegmentWriterView { boxes: self.boxes@, structure: self.structure@, samples: self.samples@, state: self.state }
    }
}

impl MediaSegmentWriter {
    /// Whether the framing of the writer holds together
    pub closed spec fn wf(&self) -> bool {
        self.boxes.wf()
    }

    /// Creates a writer waiting at the start of a media segment
    pub fn new() -> (writer: Self)
        ensures
            writer.wf(),
            writer@ == (SegmentWriterView {
                boxes: WriterView {
                    output: Seq::empty(),
                    drained: 0,
                    made: Seq::empty(),
                    phase: WriterPhase::Between,
                    event_extent: None,
                },
                structure: SegmentState::Reading(SegmentPosition::Start),
                samples: FragmentWriterView { decode_times: Map::empty(), open: None, failed: None },
                state: StackState::Reading,
            }),
    {
        MediaSegmentWriter {
            boxes: BoxWriter::new(),
            structure: MediaSegmentStructure::new(),
            samples: MovieFragmentWriter::new(),
            state: StackState::Reading,
        }
    }

    /// Returns the failure the writer reports for a call, if it takes none
    fn refused(&self) -> (refused: Option<StackError>)
        ensures
            refused == stack_refusal(self@.state),
    {
        match self.state {
            StackState::Reading => None,
            StackState::Finished => Some(StackError::AlreadyFinished),
            StackState::Failed(failure) => Some(failure),
        }
    }

    /// Fails the writer for good, and hands the failure back
    fn fail(&mut self, failure: StackError) -> (failed: StackError)
        ensures
            failed == failure,
            final(self).boxes == old(self).boxes,
            final(self)@ == (SegmentWriterView { state: StackState::Failed(failure), ..old(self)@ }),
    {
        self.state = StackState::Failed(failure);
        failure
    }

    /// Lays a box of `box_type` carrying `payload` down where the structure places it
    fn lay_down(&mut self, box_type: FourCC, payload: Vec<u8>) -> (result: Result<(), StackError>)
        requires
            old(self).wf(),
            old(self)@.boxes.output.len() + payload@.len() + 32 <= u64::MAX,
        ensures
            final(self).wf(),
            (final(self)@, result) == laid_down(old(self)@, box_type, payload@),
    {
        match self.structure.handle_box_type(box_type) {
            Err(failure) => Err(self.fail(StackError::structure(failure))),
            Ok(MediaSegmentDisposition::Skip) | Ok(MediaSegmentDisposition::SegmentIndex) => Err(
                self.fail(StackError::box_out_of_order(box_type)),
            ),
            Ok(_) => match write_box(&mut self.boxes, box_type, payload) {
                Ok(()) => Ok(()),
                Err(failure) => Err(self.fail(StackError::Sequence(failure))),
            },
        }
    }

    /// Takes the payload of the `styp`, the brands the segment declares itself readable as, and lays it down
    ///
    /// Fails with [`BoxOutOfOrder`](StackError::BoxOutOfOrder) when a box was
    /// laid down before it; with [`AlreadyFinished`](StackError::AlreadyFinished)
    /// once the segment was declared over; and with the failure of a previous call.
    pub fn handle_segment_type(&mut self, payload: Vec<u8>) -> (result: Result<(), StackError>)
        requires
            old(self).wf(),
            old(self)@.boxes.output.len() + payload@.len() + 32 <= u64::MAX,
        ensures
            final(self).wf(),
            match stack_refusal(old(self)@.state) {
                Some(failure) => result == Err::<(), StackError>(failure) && final(self)@ == old(self)@,
                None => (final(self)@, result) == laid_down(old(self)@, STYP, payload@),
            },
    {
        if let Some(failure) = self.refused() {
            return Err(failure);
        }
        self.lay_down(STYP, payload)
    }

    /// Opens a fragment, which its `mfhd` numbers `sequence_number`, to carry the samples handed over next
    ///
    /// Fails with what the samples make of it, carried on
    /// [`Sample`](StackError::Sample); with
    /// [`AlreadyFinished`](StackError::AlreadyFinished) once the segment was
    /// declared over; and with the failure of a previous call.
    pub fn begin_fragment(&mut self, sequence_number: u32) -> (result: Result<(), StackError>)
        requires
            old(self).wf(),
        ensures
            final(self).wf(),
            final(self)@.boxes == old(self)@.boxes,
            final(self)@.structure == old(self)@.structure,
            match stack_refusal(old(self)@.state) {
                Some(failure) => result == Err::<(), StackError>(failure) && final(self)@ == old(self)@,
                None => {
                    &&& old(self)@.samples.failed is Some ==> final(self)@.samples == old(self)@.samples
                        && result == Err::<(), StackError>(StackError::Sample(old(self)@.samples.failed->0))
                        && final(self)@.state == StackState::Failed(StackError::Sample(old(self)@.samples.failed->0))
                    &&& old(self)@.samples.failed is None && old(self)@.samples.open is Some ==> final(self)@.samples == (
                    FragmentWriterView { open: None, failed: Some(SampleError::FragmentStillOpen), ..old(self)@.samples })
                        && result == Err::<(), StackError>(StackError::Sample(SampleError::FragmentStillOpen))
                        && final(self)@.state == StackState::Failed(StackError::Sample(SampleError::FragmentStillOpen))
                    &&& old(self)@.samples.failed is None && old(self)@.samples.open is None ==> result is Ok
                        && final(self)@.state == old(self)@.state && final(self)@.samples == (FragmentWriterView {
                        open: Some(
                            crate::sample::movie_fragment_writer::FragmentPlan {
                                sequence_number,
                                tracks: Seq::empty(),
                                media_data: Seq::empty(),
                                last_track_id: None,
                            },
                        ),
                        ..old(self)@.samples
                    })
                },
            },
    {
        if let Some(failure) = self.refused() {
            return Err(failure);
        }
        match self.samples.begin_fragment(sequence_number) {
            Ok(()) => Ok(()),
            Err(failure) => Err(self.fail(StackError::Sample(failure))),
        }
    }

    /// Takes a sample, and places it in the fragment that is open
    ///
    /// Fails with what the samples make of it, carried on
    /// [`Sample`](StackError::Sample); with
    /// [`AlreadyFinished`](StackError::AlreadyFinished) once the segment was
    /// declared over; and with the failure of a previous call.
    pub fn handle_sample(&mut self, sample: Sample) -> (result: Result<(), StackError>)
        requires
            old(self).wf(),
        ensures
            final(self).wf(),
            final(self)@.boxes == old(self)@.boxes,
            final(self)@.structure == old(self)@.structure,
            match stack_refusal(old(self)@.state) {
                Some(failure) => result == Err::<(), StackError>(failure) && final(self)@ == old(self)@,
                None => {
                    &&& old(self)@.samples.failed is Some ==> final(self)@.samples == old(self)@.samples
                        && result == Err::<(), StackError>(StackError::Sample(old(self)@.samples.failed->0))
                        && final(self)@.state == StackState::Failed(StackError::Sample(old(self)@.samples.failed->0))
                    &&& old(self)@.samples.failed is None && old(self)@.samples.open is None ==> final(self)@.samples == (
                    FragmentWriterView { failed: Some(SampleError::NoFragmentOpen), ..old(self)@.samples })
                        && result == Err::<(), StackError>(StackError::Sample(SampleError::NoFragmentOpen))
                        && final(self)@.state == StackState::Failed(StackError::Sample(SampleError::NoFragmentOpen))
                    &&& old(self)@.samples.failed is None && old(self)@.samples.open is Some ==> match crate::sample::movie_fragment_writer::fragment_placed(
                        old(self)@.samples.open->0,
                        sample@,
                        old(self)@.samples.decode_times,
                    ) {
                        Ok(placed) => result is Ok && final(self)@.state == old(self)@.state && final(self)@.samples == (
                        FragmentWriterView { open: Some(placed), ..old(self)@.samples }),
                        Err(failure) => result == Err::<(), StackError>(StackError::Sample(failure)) && final(self)@.state
                            == StackState::Failed(StackError::Sample(failure)) && final(self)@.samples == (
                        FragmentWriterView { open: None, failed: Some(failure), ..old(self)@.samples }),
                    }
                },
            },
    {
        if let Some(failure) = self.refused() {
            return Err(failure);
        }
        match self.samples.handle_sample(sample) {
            Ok(()) => Ok(()),
            Err(failure) => Err(self.fail(StackError::Sample(failure))),
        }
    }

    /// Closes the fragment that is open, and hands back how it is laid out
    ///
    /// Its `moof` is written from the layout, its media data starting past
    /// the `moof` and the header of the `mdat` (see
    /// [`build_movie_fragment`](crate::sample::movie_fragment_writer::build_movie_fragment)),
    /// and handed back with the media data through
    /// [`lay_down_fragment`](Self::lay_down_fragment). Fails with what the
    /// samples make of it, carried on [`Sample`](StackError::Sample); with
    /// [`AlreadyFinished`](StackError::AlreadyFinished) once the segment was
    /// declared over; and with the failure of a previous call.
    pub fn finish_fragment(&mut self) -> (result: Result<FragmentLayout, StackError>)
        requires
            old(self).wf(),
        ensures
            final(self).wf(),
            final(self)@.boxes == old(self)@.boxes,
            final(self)@.structure == old(self)@.structure,
            match stack_refusal(old(self)@.state) {
                Some(failure) => result == Err::<FragmentLayout, StackError>(failure) && final(self)@ == old(self)@,
                None => {
                    &&& old(self)@.samples.failed is Some ==> final(self)@.samples == old(self)@.samples
                        && result == Err::<FragmentLayout, StackError>(StackError::Sample(old(self)@.samples.failed->0))
                        && final(self)@.state == StackState::Failed(StackError::Sample(old(self)@.samples.failed->0))
                    &&& old(self)@.samples.failed is None && old(self)@.samples.open is None ==> final(self)@.samples == (
                    FragmentWriterView { failed: Some(SampleError::NoFragmentOpen), ..old(self)@.samples })
                        && result == Err::<FragmentLayout, StackError>(StackError::Sample(SampleError::NoFragmentOpen))
                        && final(self)@.state == StackState::Failed(StackError::Sample(SampleError::NoFragmentOpen))
                    &&& old(self)@.samples.failed is None && old(self)@.samples.open is Some ==> {
                        &&& result matches Ok(fragment) && fragment@ == old(self)@.samples.open->0
                        &&& final(self)@.state == old(self)@.state
                        &&& final(self)@.samples == (FragmentWriterView {
                            decode_times: crate::sample::movie_fragment_writer::reached_all(
                                old(self)@.samples.decode_times,
                                old(self)@.samples.open->0.tracks,
                            ),
                            open: None,
                            failed: None,
                        })
                    }
                },
            },
    {
        if let Some(failure) = self.refused() {
            return Err(failure);
        }
        match self.samples.finish_fragment() {
            Ok(fragment) => Ok(fragment),
            Err(failure) => Err(self.fail(StackError::Sample(failure))),
        }
    }

    /// Builds the `moof` of the fragment laid out as `fragment`, its media
    /// data starting `base` bytes after the start of the `moof`, as
    /// [`MovieFragmentWriter::build_fragment`] does
    ///
    /// A fragment whose offsets do not fit their field fails the writer for
    /// good, carried on [`Sample`](StackError::Sample), as does a failure the
    /// samples keep; a writer that failed or was declared over refuses.
    pub fn build_fragment(&mut self, fragment: &FragmentLayout, base: u64) -> (result: Result<MovieFragmentBox, StackError>)
        requires
            old(self).wf(),
        ensures
            final(self).wf(),
            match stack_refusal(old(self)@.state) {
                Some(failure) => result == Err::<MovieFragmentBox, StackError>(failure) && final(self)@ == old(self)@,
                None => match old(self)@.samples.failed {
                    Some(failure) => result == Err::<MovieFragmentBox, StackError>(StackError::Sample(failure))
                        && final(self)@ == (SegmentWriterView { state: StackState::Failed(StackError::Sample(failure)), ..old(self)@ }),
                    None => match first_offset_failure(fragment@.tracks, base) {
                        Some(failure) => result == Err::<MovieFragmentBox, StackError>(StackError::Sample(failure))
                            && final(self)@ == (SegmentWriterView {
                            samples: FragmentWriterView { open: None, failed: Some(failure), ..old(self)@.samples },
                            state: StackState::Failed(StackError::Sample(failure)),
                            ..old(self)@
                        }),
                        None => final(self)@ == old(self)@ && (result matches Ok(moof) && {
                            &&& moof.sequence_number == fragment.sequence_number
                            &&& moof.track_fragments@.len() == fragment@.tracks.len()
                            &&& forall|i: int| 0 <= i < fragment@.tracks.len() ==> track_written(
                                #[trigger] moof.track_fragments@[i],
                                fragment@.tracks[i],
                                base,
                            )
                        }),
                    },
                },
            },
    {
        if let Some(failure) = self.refused() {
            return Err(failure);
        }
        match self.samples.build_fragment(fragment, base) {
            Ok(moof) => Ok(moof),
            Err(failure) => Err(self.fail(StackError::Sample(failure))),
        }
    }

    /// Lays a fragment down: the payload of its `moof`, then its media data as an `mdat`
    ///
    /// Fails with [`BoxOutOfOrder`](StackError::BoxOutOfOrder) when the
    /// structure refuses the `moof` or the `mdat` where they come; with
    /// [`AlreadyFinished`](StackError::AlreadyFinished) once the segment was
    /// declared over; and with the failure of a previous call.
    pub fn lay_down_fragment(&mut self, movie_fragment: Vec<u8>, media_data: Vec<u8>) -> (result: Result<(), StackError>)
        requires
            old(self).wf(),
            old(self)@.boxes.output.len() + movie_fragment@.len() + media_data@.len() + 96 <= u64::MAX,
        ensures
            final(self).wf(),
            match stack_refusal(old(self)@.state) {
                Some(failure) => result == Err::<(), StackError>(failure) && final(self)@ == old(self)@,
                None => {
                    let (w, laid) = laid_down(old(self)@, MOOF, movie_fragment@);
                    match laid {
                        Err(failure) => final(self)@ == w && result == Err::<(), StackError>(failure),
                        Ok(_) => (final(self)@, result) == laid_down(w, MDAT, media_data@),
                    }
                },
            },
    {
        if let Some(failure) = self.refused() {
            return Err(failure);
        }
        let ghost before = self@;
        let ghost moof = movie_fragment@;
        match self.lay_down(MOOF, movie_fragment) {
            Ok(()) => {},
            Err(failure) => {
                return Err(failure);
            },
        }
        proof {
            crate::structure::stack::lemma_framed_box_grows(before.boxes, MOOF, moof);
        }
        self.lay_down(MDAT, media_data)
    }

    /// Fills `buffer` with the bytes laid down and not yet handed out, and reports how many
    ///
    /// Reports `0` once they are all handed out. A failed writer hands out
    /// the bytes it had laid down before failing.
    pub fn poll_output(&mut self, buffer: &mut [u8]) -> (filled: usize)
        requires
            old(self).wf(),
        ensures
            final(self).wf(),
            ({
                let pending = old(self)@.boxes.output.subrange(old(self)@.boxes.drained as int, old(self)@.boxes.output.len() as int);
                &&& filled == (if old(buffer)@.len() < pending.len() { old(buffer)@.len() } else { pending.len() })
                &&& final(buffer)@.len() == old(buffer)@.len()
                &&& final(buffer)@.subrange(0, filled as int) == pending.subrange(0, filled as int)
                &&& final(buffer)@.subrange(filled as int, final(buffer)@.len() as int) == old(buffer)@.subrange(
                    filled as int,
                    old(buffer)@.len() as int,
                )
            }),
            final(self)@ == (SegmentWriterView {
                boxes: WriterView { drained: (old(self)@.boxes.drained + filled) as nat, ..old(self)@.boxes },
                ..old(self)@
            }),
    {
        self.boxes.poll_output(buffer)
    }

    /// Declares the segment over
    ///
    /// Fails with [`FragmentStillOpen`](SampleError::FragmentStillOpen),
    /// carried on [`Sample`](StackError::Sample), when a fragment was left
    /// open; with [`MissingMandatoryBox`](StackError::MissingMandatoryBox)
    /// naming the `moof` when none was laid down; with
    /// [`AlreadyFinished`](StackError::AlreadyFinished) once the segment was
    /// already declared over; and with the failure of a previous call.
    pub fn finish(&mut self) -> (result: Result<(), StackError>)
        requires
            old(self).wf(),
        ensures
            final(self).wf(),
            match stack_refusal(old(self)@.state) {
                Some(failure) => result == Err::<(), StackError>(failure) && final(self)@ == old(self)@,
                None => (final(self)@, result) == writer_finished(old(self)@),
            },
    {
        if let Some(failure) = self.refused() {
            return Err(failure);
        }
        if let Some(failure) = self.samples.failure() {
            return Err(self.fail(StackError::Sample(failure)));
        }
        if self.samples.fragment_open() {
            return Err(self.fail(StackError::Sample(SampleError::FragmentStillOpen)));
        }
        match self.structure.finish() {
            Ok(()) => {},
            Err(failure) => {
                return Err(self.fail(StackError::structure(failure)));
            },
        }
        match self.boxes.finish() {
            Ok(()) => {},
            Err(failure) => {
                return Err(self.fail(StackError::Sequence(failure)));
            },
        }
        self.state = StackState::Finished;
        Ok(())
    }
}


impl Default for MediaSegmentWriter {
    /// Creates one waiting at the start, as [`new`](MediaSegmentWriter::new) does
    fn default() -> (writer: Self)
        ensures
            writer.wf(),
            writer@ == (SegmentWriterView {
                boxes: WriterView {
                    output: Seq::empty(),
                    drained: 0,
                    made: Seq::empty(),
                    phase: WriterPhase::Between,
                    event_extent: None,
                },
                structure: SegmentState::Reading(SegmentPosition::Start),
                samples: FragmentWriterView { decode_times: Map::empty(), open: None, failed: None },
                state: StackState::Reading,
            }),
    {
        MediaSegmentWriter::new()
    }
}

} // verus!

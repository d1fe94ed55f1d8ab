//! [`MediaSegmentStructure`], the order of the top-level boxes of a media segment, ISO/IEC 14496-12 §8.16
//!
//! A media segment declares its brands first, if at all, then any number of
//! movie fragments, each followed by the media data it points into; segment
//! indexes may stand anywhere. Every other box is passed over. A reader that
//! seeks into the segment resumes it, and the box it resumes at has to be one
//! an index points at: a movie fragment or an index.

use vstd::prelude::*;

use crate::structure::error::{FourCC, StructureError, MDAT, MOOF, SIDX, STYP};

verus! {

/// What the reader does with a top-level box of a media segment
#[derive(Clone, Copy, PartialEq, Eq, Debug, Structural)]
pub enum MediaSegmentDisposition {
    /// The `styp`, read for the brands
    SegmentType,
    /// A `moof`, read for the samples it declares
    MovieFragment,
    /// A `sidx`, read for the subsegments it indexes
    SegmentIndex,
    /// An `mdat`, passed on for the samples it carries
    MediaData,
    /// Any other box, passed over
    Skip,
}

/// How far a media segment has come
#[derive(Clone, Copy, PartialEq, Eq, Debug, Structural)]
pub enum SegmentPosition {
    /// No box yet
    Start,
    /// Boxes, but no fragment yet
    Opened,
    /// A fragment
    Fragmenting,
}

/// Where a [`MediaSegmentStructure`] stands
#[derive(Clone, Copy, PartialEq, Eq, Debug, Structural)]
pub enum SegmentState {
    Reading(SegmentPosition),
    /// Seeked into, the next box to be one an index points at
    Resuming(SegmentPosition),
    Finished(SegmentPosition),
    Failed(StructureError),
}

/// Where a box passed over leaves the segment
pub open spec fn passed_over(position: SegmentPosition) -> SegmentPosition {
    match position {
        SegmentPosition::Start => SegmentPosition::Opened,
        _ => position,
    }
}

/// Where a box of `box_type` arriving at `position` takes the segment, and what is done with it; or why it is out of place
pub open spec fn spec_place(position: SegmentPosition, box_type: FourCC) -> Result<(SegmentPosition, MediaSegmentDisposition), StructureError> {
    if box_type == STYP {
        match position {
            SegmentPosition::Start => Ok((SegmentPosition::Opened, MediaSegmentDisposition::SegmentType)),
            _ => Err(StructureError::BoxOutOfOrder { box_type }),
        }
    } else if box_type == MDAT {
        match position {
            SegmentPosition::Fragmenting => Ok((SegmentPosition::Fragmenting, MediaSegmentDisposition::MediaData)),
            _ => Err(StructureError::BoxOutOfOrder { box_type }),
        }
    } else if box_type == MOOF {
        Ok((SegmentPosition::Fragmenting, MediaSegmentDisposition::MovieFragment))
    } else if box_type == SIDX {
        Ok((passed_over(position), MediaSegmentDisposition::SegmentIndex))
    } else {
        Ok((passed_over(position), MediaSegmentDisposition::Skip))
    }
}

/// A `sidx` is read into a value wherever it lies in a segment: before any
/// box, after the brands, or between fragments, daisy-chained; it moves the
/// segment on only from its start, as any box passed over does
pub proof fn lemma_segment_index_read_wherever_it_lies(position: SegmentPosition)
    ensures
        spec_place(position, SIDX) matches Ok((_, disposition)) && disposition == MediaSegmentDisposition::SegmentIndex,
        position == SegmentPosition::Start ==> spec_place(position, SIDX) == Ok::<(SegmentPosition, MediaSegmentDisposition), StructureError>(
            (SegmentPosition::Opened, MediaSegmentDisposition::SegmentIndex),
        ),
        position != SegmentPosition::Start ==> spec_place(position, SIDX) == Ok::<(SegmentPosition, MediaSegmentDisposition), StructureError>(
            (position, MediaSegmentDisposition::SegmentIndex),
        ),
{
    assert(SIDX != STYP && SIDX != MDAT && SIDX != MOOF);
}

/// Returns where a box of `box_type` arriving at `position` takes the segment, and what is done with it
pub fn place(position: SegmentPosition, box_type: FourCC) -> (placed: Result<(SegmentPosition, MediaSegmentDisposition), StructureError>)
    ensures
        placed == spec_place(position, box_type),
{
    let passed = match position {
        SegmentPosition::Start => SegmentPosition::Opened,
        _ => position,
    };
    if box_type == STYP {
        match position {
            SegmentPosition::Start => Ok((SegmentPosition::Opened, MediaSegmentDisposition::SegmentType)),
            _ => Err(StructureError::BoxOutOfOrder { box_type }),
        }
    } else if box_type == MDAT {
        match position {
            SegmentPosition::Fragmenting => Ok((SegmentPosition::Fragmenting, MediaSegmentDisposition::MediaData)),
            _ => Err(StructureError::BoxOutOfOrder { box_type }),
        }
    } else if box_type == MOOF {
        Ok((SegmentPosition::Fragmenting, MediaSegmentDisposition::MovieFragment))
    } else if box_type == SIDX {
        Ok((passed, MediaSegmentDisposition::SegmentIndex))
    } else {
        Ok((passed, MediaSegmentDisposition::Skip))
    }
}

/// The top-level boxes of a media segment, checked in the order they arrive
///
/// Each box type handed over is placed, and the structure says whether it is
/// read, passed on or passed over. A box out of place fails the structure for
/// good: every later call reports that same failure again.
#[derive(Clone, Copy, Debug)]
pub struct MediaSegmentStructure {
    state: SegmentState,
}

impl View for MediaSegmentStructure {
    type V = SegmentState;

    closed spec fn view(&self) -> SegmentState {
        self.state
    }
}

impl MediaSegmentStructure {
    /// Creates a structure no box has arrived at
    pub fn new() -> (structure: Self)
        ensures
            structure@ == SegmentState::Reading(SegmentPosition::Start),
    {
        MediaSegmentStructure { state: SegmentState::Reading(SegmentPosition::Start) }
    }

    /// Places the next top-level box, of `box_type`, and returns what is done with it
    ///
    /// A resumed segment takes only a movie fragment or an index next, and
    /// any other box is [`BoxOutOfOrder`](StructureError::BoxOutOfOrder).
    /// Fails otherwise as [`place`] has it, with
    /// [`AlreadyFinished`](StructureError::AlreadyFinished) once the segment
    /// was declared over, and with the failure of a previous call.
    pub fn handle_box_type(&mut self, box_type: FourCC) -> (result: Result<MediaSegmentDisposition, StructureError>)
        ensures
            match old(self)@ {
                SegmentState::Reading(position) => match spec_place(position, box_type) {
                    Ok((reached, disposition)) => result == Ok::<MediaSegmentDisposition, StructureError>(disposition)
                        && final(self)@ == SegmentState::Reading(reached),
                    Err(failure) => result == Err::<MediaSegmentDisposition, StructureError>(failure) && final(self)@
                        == SegmentState::Failed(failure),
                },
                SegmentState::Resuming(position) => if box_type == MOOF || box_type == SIDX {
                    match spec_place(position, box_type) {
                        Ok((reached, disposition)) => result == Ok::<MediaSegmentDisposition, StructureError>(disposition)
                            && final(self)@ == SegmentState::Reading(reached),
                        Err(failure) => result == Err::<MediaSegmentDisposition, StructureError>(failure)
                            && final(self)@ == SegmentState::Failed(failure),
                    }
                } else {
                    result == Err::<MediaSegmentDisposition, StructureError>(StructureError::BoxOutOfOrder { box_type })
                        && final(self)@ == SegmentState::Failed(StructureError::BoxOutOfOrder { box_type })
                },
                SegmentState::Finished(_) => result == Err::<MediaSegmentDisposition, StructureError>(
                    StructureError::AlreadyFinished,
                ) && final(self)@ == old(self)@,
                SegmentState::Failed(failure) => result == Err::<MediaSegmentDisposition, StructureError>(failure)
                    && final(self)@ == old(self)@,
            },
    {
        let placed = match self.state {
            SegmentState::Reading(position) => place(position, box_type),
            SegmentState::Resuming(position) => if box_type == MOOF || box_type == SIDX {
                place(position, box_type)
            } else {
                Err(StructureError::BoxOutOfOrder { box_type })
            },
            SegmentState::Finished(_) => return Err(StructureError::AlreadyFinished),
            SegmentState::Failed(failure) => return Err(failure),
        };
        match placed {
            Ok((reached, disposition)) => {
                self.state = SegmentState::Reading(reached);
                Ok(disposition)
            },
            Err(failure) => {
                self.state = SegmentState::Failed(failure);
                Err(failure)
            },
        }
    }

    /// Marks the segment seeked into: the next box has to be one an index points at
    ///
    /// A segment declared over takes boxes again; a failed one stays failed.
    pub fn resume(&mut self)
        ensures
            final(self)@ == (match old(self)@ {
                SegmentState::Reading(position) => SegmentState::Resuming(position),
                SegmentState::Resuming(position) => SegmentState::Resuming(position),
                SegmentState::Finished(position) => SegmentState::Resuming(position),
                SegmentState::Failed(failure) => SegmentState::Failed(failure),
            }),
    {
        match self.state {
            SegmentState::Reading(position) | SegmentState::Resuming(position) | SegmentState::Finished(position) => {
                self.state = SegmentState::Resuming(position);
            },
            SegmentState::Failed(_) => {},
        }
    }

    /// Declares the segment over, which has to have held a movie fragment
    ///
    /// Fails with [`MissingMandatoryBox`](StructureError::MissingMandatoryBox)
    /// naming the `moof` when none arrived, with
    /// [`AlreadyFinished`](StructureError::AlreadyFinished) once declared
    /// over, and with the failure of a previous call.
    pub fn finish(&mut self) -> (result: Result<(), StructureError>)
        ensures
            match old(self)@ {
                SegmentState::Reading(SegmentPosition::Fragmenting) | SegmentState::Resuming(SegmentPosition::Fragmenting) => result is Ok
                    && final(self)@ == SegmentState::Finished(SegmentPosition::Fragmenting),
                SegmentState::Reading(_) | SegmentState::Resuming(_) => result == Err::<(), StructureError>(
                    StructureError::MissingMandatoryBox { box_type: MOOF },
                ) && final(self)@ == SegmentState::Failed(StructureError::MissingMandatoryBox { box_type: MOOF }),
                SegmentState::Finished(_) => result == Err::<(), StructureError>(StructureError::AlreadyFinished)
                    && final(self)@ == old(self)@,
                SegmentState::Failed(failure) => result == Err::<(), StructureError>(failure) && final(self)@
                    == old(self)@,
            },
    {
        match self.state {
            SegmentState::Reading(position) | SegmentState::Resuming(position) => match position {
                SegmentPosition::Fragmenting => {
                    self.state = SegmentState::Finished(position);
                    Ok(())
                },
                _ => {
                    let failure = StructureError::MissingMandatoryBox { box_type: MOOF };
                    self.state = SegmentState::Failed(failure);
                    Err(failure)
                },
            },
            SegmentState::Finished(_) => Err(StructureError::AlreadyFinished),
            SegmentState::Failed(failure) => Err(failure),
        }
    }
}

/// Once a fragment has arrived, a segment stays fragmenting whatever box arrives next
pub proof fn lemma_fragmenting_stays(box_type: FourCC)
    ensures
        spec_place(SegmentPosition::Fragmenting, box_type) matches Ok((reached, _)) ==> reached == SegmentPosition::Fragmenting,
        box_type != STYP ==> spec_place(SegmentPosition::Fragmenting, box_type) is Ok,
{
}

} // verus!

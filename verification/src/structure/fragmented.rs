//! [`FragmentedStructure`], the order of the top-level boxes of a fragmented movie file, ISO/IEC 14496-12 §8.8
//!
//! A fragmented movie file declares its brands first, if at all, then its
//! movie, then any number of movie fragments, each followed by the media data
//! it points into. Every other box is passed over.

use vstd::prelude::*;

use crate::structure::error::{FourCC, StructureError, FTYP, MDAT, MOOF, MOOV};

verus! {

/// What the reader does with a top-level box of a fragmented movie file
#[derive(Clone, Copy, PartialEq, Eq, Debug, Structural)]
pub enum FragmentedDisposition {
    /// The `ftyp`, read for the brands
    FileType,
    /// The `moov`, read for the tracks
    Movie,
    /// A `moof`, read for the samples it declares
    MovieFragment,
    /// An `mdat`, passed on for the samples it carries
    MediaData,
    /// Any other box, passed over
    Skip,
}

/// How far a fragmented movie file has come
#[derive(Clone, Copy, PartialEq, Eq, Debug, Structural)]
pub enum FragmentedPosition {
    /// No box yet
    Start,
    /// Boxes, but neither the movie nor a fragment yet
    Opened,
    /// The movie, but no fragment yet
    Declared,
    /// The movie and a fragment
    Fragmenting,
}

/// Where a [`FragmentedStructure`] stands
#[derive(Clone, Copy, PartialEq, Eq, Debug, Structural)]
pub enum FragmentedState {
    Reading(FragmentedPosition),
    Finished,
    Failed(StructureError),
}

/// Where a box of `box_type` arriving at `position` takes the file, and what is done with it; or why it is out of place
pub open spec fn spec_place(position: FragmentedPosition, box_type: FourCC) -> Result<(FragmentedPosition, FragmentedDisposition), StructureError> {
    if box_type == FTYP {
        match position {
            FragmentedPosition::Start => Ok((FragmentedPosition::Opened, FragmentedDisposition::FileType)),
            _ => Err(StructureError::BoxOutOfOrder { box_type }),
        }
    } else if box_type == MOOV {
        match position {
            FragmentedPosition::Start | FragmentedPosition::Opened => Ok((FragmentedPosition::Declared, FragmentedDisposition::Movie)),
            _ => Err(StructureError::DuplicateBox { box_type }),
        }
    } else if box_type == MOOF {
        match position {
            FragmentedPosition::Declared | FragmentedPosition::Fragmenting => Ok((FragmentedPosition::Fragmenting, FragmentedDisposition::MovieFragment)),
            _ => Err(StructureError::BoxOutOfOrder { box_type }),
        }
    } else if box_type == MDAT {
        match position {
            FragmentedPosition::Fragmenting => Ok((FragmentedPosition::Fragmenting, FragmentedDisposition::MediaData)),
            _ => Err(StructureError::BoxOutOfOrder { box_type }),
        }
    } else {
        match position {
            FragmentedPosition::Start => Ok((FragmentedPosition::Opened, FragmentedDisposition::Skip)),
            _ => Ok((position, FragmentedDisposition::Skip)),
        }
    }
}

/// Returns where a box of `box_type` arriving at `position` takes the file, and what is done with it
pub fn place(position: FragmentedPosition, box_type: FourCC) -> (placed: Result<(FragmentedPosition, FragmentedDisposition), StructureError>)
    ensures
        placed == spec_place(position, box_type),
{
    if box_type == FTYP {
        match position {
            FragmentedPosition::Start => Ok((FragmentedPosition::Opened, FragmentedDisposition::FileType)),
            _ => Err(StructureError::BoxOutOfOrder { box_type }),
        }
    } else if box_type == MOOV {
        match position {
            FragmentedPosition::Start | FragmentedPosition::Opened => Ok((FragmentedPosition::Declared, FragmentedDisposition::Movie)),
            _ => Err(StructureError::DuplicateBox { box_type }),
        }
    } else if box_type == MOOF {
        match position {
            FragmentedPosition::Declared | FragmentedPosition::Fragmenting => Ok((FragmentedPosition::Fragmenting, FragmentedDisposition::MovieFragment)),
            _ => Err(StructureError::BoxOutOfOrder { box_type }),
        }
    } else if box_type == MDAT {
        match position {
            FragmentedPosition::Fragmenting => Ok((FragmentedPosition::Fragmenting, FragmentedDisposition::MediaData)),
            _ => Err(StructureError::BoxOutOfOrder { box_type }),
        }
    } else {
        match position {
            FragmentedPosition::Start => Ok((FragmentedPosition::Opened, FragmentedDisposition::Skip)),
            _ => Ok((position, FragmentedDisposition::Skip)),
        }
    }
}

/// Where the structure stands once the file is taken up again after `state`
pub open spec fn structure_resumed(state: FragmentedState) -> FragmentedState {
    match state {
        FragmentedState::Reading(FragmentedPosition::Declared)
        | FragmentedState::Reading(FragmentedPosition::Fragmenting)
        | FragmentedState::Finished => FragmentedState::Reading(FragmentedPosition::Declared),
        _ => state,
    }
}

/// The top-level boxes of a fragmented movie file, checked in the order they arrive
///
/// Each box type handed over is placed, and the structure says whether it is
/// read, passed on or passed over. A box out of place fails the structure for
/// good: every later call reports that same failure again.
#[derive(Clone, Copy, Debug)]
pub struct FragmentedStructure {
    state: FragmentedState,
}

impl View for FragmentedStructure {
    type V = FragmentedState;

    closed spec fn view(&self) -> FragmentedState {
        self.state
    }
}

impl FragmentedStructure {
    /// Creates a structure no box has arrived at
    pub fn new() -> (structure: Self)
        ensures
            structure@ == FragmentedState::Reading(FragmentedPosition::Start),
    {
        FragmentedStructure { state: FragmentedState::Reading(FragmentedPosition::Start) }
    }

    /// Places the next top-level box, of `box_type`, and returns what is done with it
    ///
    /// Fails as [`place`] has it, with
    /// [`AlreadyFinished`](StructureError::AlreadyFinished) once the file was
    /// declared over, and with the failure of a previous call.
    pub fn handle_box_type(&mut self, box_type: FourCC) -> (result: Result<FragmentedDisposition, StructureError>)
        ensures
            match old(self)@ {
                FragmentedState::Reading(position) => match spec_place(position, box_type) {
                    Ok((reached, disposition)) => result == Ok::<FragmentedDisposition, StructureError>(disposition)
                        && final(self)@ == FragmentedState::Reading(reached),
                    Err(failure) => result == Err::<FragmentedDisposition, StructureError>(failure) && final(self)@
                        == FragmentedState::Failed(failure),
                },
                FragmentedState::Finished => result == Err::<FragmentedDisposition, StructureError>(
                    StructureError::AlreadyFinished,
                ) && final(self)@ == old(self)@,
                FragmentedState::Failed(failure) => result == Err::<FragmentedDisposition, StructureError>(failure)
                    && final(self)@ == old(self)@,
            },
    {
        let position = match self.state {
            FragmentedState::Reading(position) => position,
            FragmentedState::Finished => return Err(StructureError::AlreadyFinished),
            FragmentedState::Failed(failure) => return Err(failure),
        };
        match place(position, box_type) {
            Ok((reached, disposition)) => {
                self.state = FragmentedState::Reading(reached);
                Ok(disposition)
            },
            Err(failure) => {
                self.state = FragmentedState::Failed(failure);
                Err(failure)
            },
        }
    }

    /// Returns whether no box has arrived yet
    pub fn at_start(&self) -> (start: bool)
        ensures
            start == (self@ == FragmentedState::Reading(FragmentedPosition::Start)),
    {
        match self.state {
            FragmentedState::Reading(FragmentedPosition::Start) => true,
            _ => false,
        }
    }

    /// Takes the file up again at a fragment or an index an index points at,
    /// with nothing of what came before it but the movie
    ///
    /// A structure past its movie, or declared over after it, stands as though
    /// the movie had just arrived, so a `moof` is taken next and an `mdat` is
    /// refused; one short of its movie, or failed, stands as it was.
    pub fn resume(&mut self)
        ensures
            final(self)@ == structure_resumed(old(self)@),
    {
        match self.state {
            FragmentedState::Reading(FragmentedPosition::Declared)
            | FragmentedState::Reading(FragmentedPosition::Fragmenting)
            | FragmentedState::Finished => {
                self.state = FragmentedState::Reading(FragmentedPosition::Declared);
            },
            _ => {},
        }
    }

    /// Declares the file over, which has to have declared its movie
    ///
    /// Fails with [`MissingMandatoryBox`](StructureError::MissingMandatoryBox)
    /// naming the `moov` when none arrived, with
    /// [`AlreadyFinished`](StructureError::AlreadyFinished) once declared
    /// over, and with the failure of a previous call.
    pub fn finish(&mut self) -> (result: Result<(), StructureError>)
        ensures
            match old(self)@ {
                FragmentedState::Reading(FragmentedPosition::Declared) | FragmentedState::Reading(
                    FragmentedPosition::Fragmenting,
                ) => result is Ok && final(self)@ == FragmentedState::Finished,
                FragmentedState::Reading(_) => result == Err::<(), StructureError>(
                    StructureError::MissingMandatoryBox { box_type: MOOV },
                ) && final(self)@ == FragmentedState::Failed(StructureError::MissingMandatoryBox { box_type: MOOV }),
                FragmentedState::Finished => result == Err::<(), StructureError>(StructureError::AlreadyFinished)
                    && final(self)@ == old(self)@,
                FragmentedState::Failed(failure) => result == Err::<(), StructureError>(failure) && final(self)@
                    == old(self)@,
            },
    {
        match self.state {
            FragmentedState::Reading(FragmentedPosition::Declared) | FragmentedState::Reading(
                FragmentedPosition::Fragmenting,
            ) => {
                self.state = FragmentedState::Finished;
                Ok(())
            },
            FragmentedState::Reading(_) => {
                let failure = StructureError::MissingMandatoryBox { box_type: MOOV };
                self.state = FragmentedState::Failed(failure);
                Err(failure)
            },
            FragmentedState::Finished => Err(StructureError::AlreadyFinished),
            FragmentedState::Failed(failure) => Err(failure),
        }
    }
}

/// Once the movie has arrived, a file holds it for good: no box moves the
/// structure back before it, and a second one is refused
pub proof fn lemma_movie_arrives_once(position: FragmentedPosition, box_type: FourCC)
    requires
        position == FragmentedPosition::Declared || position == FragmentedPosition::Fragmenting,
    ensures
        spec_place(position, box_type) matches Ok((reached, _)) ==> (reached == FragmentedPosition::Declared
            || reached == FragmentedPosition::Fragmenting),
        box_type == MOOV ==> spec_place(position, box_type) == Err::<(FragmentedPosition, FragmentedDisposition), StructureError>(
            StructureError::DuplicateBox { box_type },
        ),
{
}

/// Media data is passed on only once a fragment has arrived
pub proof fn lemma_media_data_follows_a_fragment(position: FragmentedPosition, box_type: FourCC)
    ensures
        spec_place(position, box_type) matches Ok((_, disposition)) && disposition == FragmentedDisposition::MediaData
            ==> position == FragmentedPosition::Fragmenting,
{
}

} // verus!

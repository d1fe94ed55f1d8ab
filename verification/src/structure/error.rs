//! [`StructureError`], the reason the top-level boxes of a file do not form the file they are read as

use vstd::prelude::*;
use vstd::string::StringExecFns;
use crate::text::{fourcc_text, push_fourcc};

use crate::bytes::{be32, Category};

verus! {

/// The four-character type of a box, its characters read as one big-endian number
pub type FourCC = u32;

/// Failure of the top-level boxes of a file to form the file they are read as
#[derive(Clone, Copy, PartialEq, Eq, Debug, Structural)]
pub enum StructureError {
    /// A box arrived where the file may not hold it
    BoxOutOfOrder { box_type: FourCC },
    /// A box the file holds once arrived a second time
    DuplicateBox { box_type: FourCC },
    /// The file was declared over without a box it has to hold
    MissingMandatoryBox { box_type: FourCC },
    /// A box arrived after the file was declared over
    AlreadyFinished,
}

/// Kind of a [`StructureError`], the situation without the values
#[derive(Clone, Copy, PartialEq, Eq, Debug, Structural)]
pub enum StructureErrorKind {
    /// A box arrived where the file may not hold it
    BoxOutOfOrder,
    /// A box the file holds once arrived a second time
    DuplicateBox,
    /// The file was declared over without a box it has to hold
    MissingMandatoryBox,
    /// A box arrived after the file was declared over
    AlreadyFinished,
}

impl StructureError {
    /// Returns the failure: `box_type` arrived where the file may not hold it
    pub fn box_out_of_order(box_type: FourCC) -> (error: Self)
        ensures
            error == (StructureError::BoxOutOfOrder { box_type }),
    {
        StructureError::BoxOutOfOrder { box_type }
    }

    /// Returns the failure: `box_type`, which the file holds once, arrived a second time
    pub fn duplicate_box(box_type: FourCC) -> (error: Self)
        ensures
            error == (StructureError::DuplicateBox { box_type }),
    {
        StructureError::DuplicateBox { box_type }
    }

    /// Returns the failure: the file was declared over without a `box_type`
    pub fn missing_mandatory_box(box_type: FourCC) -> (error: Self)
        ensures
            error == (StructureError::MissingMandatoryBox { box_type }),
    {
        StructureError::MissingMandatoryBox { box_type }
    }

    /// Returns the failure: a box arrived after the file was declared over
    pub fn already_finished() -> (error: Self)
        ensures
            error == StructureError::AlreadyFinished,
    {
        StructureError::AlreadyFinished
    }

    /// The kind of the failure
    pub open spec fn spec_kind(self) -> StructureErrorKind {
        match self {
            StructureError::BoxOutOfOrder { .. } => StructureErrorKind::BoxOutOfOrder,
            StructureError::DuplicateBox { .. } => StructureErrorKind::DuplicateBox,
            StructureError::MissingMandatoryBox { .. } => StructureErrorKind::MissingMandatoryBox,
            StructureError::AlreadyFinished => StructureErrorKind::AlreadyFinished,
        }
    }

    /// Returns the kind of the failure
    pub fn kind(self) -> (kind: StructureErrorKind)
        ensures
            kind == self.spec_kind(),
    {
        match self {
            StructureError::BoxOutOfOrder { .. } => StructureErrorKind::BoxOutOfOrder,
            StructureError::DuplicateBox { .. } => StructureErrorKind::DuplicateBox,
            StructureError::MissingMandatoryBox { .. } => StructureErrorKind::MissingMandatoryBox,
            StructureError::AlreadyFinished => StructureErrorKind::AlreadyFinished,
        }
    }

    /// Returns what a caller does about the failure: a file out of order is
    /// malformed, and a box handed over after the end is a misuse
    pub fn category(self) -> (category: Category)
        ensures
            category == (match self {
                StructureError::AlreadyFinished => Category::Usage,
                _ => Category::Malformed,
            }),
    {
        match self {
            StructureError::AlreadyFinished => Category::Usage,
            _ => Category::Malformed,
        }
    }

    /// Returns the type of the box the failure names, if it names one
    pub fn box_type(self) -> (box_type: Option<FourCC>)
        ensures
            box_type == (match self {
                StructureError::BoxOutOfOrder { box_type } => Some(box_type),
                StructureError::DuplicateBox { box_type } => Some(box_type),
                StructureError::MissingMandatoryBox { box_type } => Some(box_type),
                StructureError::AlreadyFinished => None::<FourCC>,
            }),
    {
        match self {
            StructureError::BoxOutOfOrder { box_type } => Some(box_type),
            StructureError::DuplicateBox { box_type } => Some(box_type),
            StructureError::MissingMandatoryBox { box_type } => Some(box_type),
            StructureError::AlreadyFinished => None,
        }
    }
}

/// The type of the file type box, ISO/IEC 14496-12 §4.3
pub const FTYP: FourCC = 0x6674_7970;

/// The type of the movie box, §8.2.1
pub const MOOV: FourCC = 0x6d6f_6f76;

/// The type of the movie fragment box, §8.8.4
pub const MOOF: FourCC = 0x6d6f_6f66;

/// The type of the media data box, §8.1.1
pub const MDAT: FourCC = 0x6d64_6174;

/// The type of the segment type box, §8.16.2
pub const STYP: FourCC = 0x7374_7970;

/// The type of the segment index box, §8.16.3
pub const SIDX: FourCC = 0x7369_6478;

/// The type of the movie fragment random access box, §8.8.9
pub const MFRA: FourCC = 0x6d66_7261;

/// Returns the type a box of four characters `characters` has
pub fn four_cc(characters: [u8; 4]) -> (box_type: FourCC)
    ensures
        box_type == be32(characters[0], characters[1], characters[2], characters[3]),
{
    characters[0] as u32 * 16777216 + characters[1] as u32 * 65536 + characters[2] as u32 * 256 + characters[3] as u32
}

/// What a failure of the order of the boxes says, written out
pub open spec fn structure_error_text(failure: StructureError) -> Seq<char> {
    match failure {
        StructureError::BoxOutOfOrder { box_type } => fourcc_text(box_type) + " box arrived where the file may not hold it"@,
        StructureError::DuplicateBox { box_type } => fourcc_text(box_type) + " box arrived a second time"@,
        StructureError::MissingMandatoryBox { box_type } => "file was declared over without a "@ + fourcc_text(box_type) + " box"@,
        StructureError::AlreadyFinished => "file was declared over and takes nothing more"@,
    }
}

impl StructureError {
    /// Returns the failure written out as a reader takes it in
    pub fn message(&self) -> (text: String)
        ensures
            text@ == structure_error_text(*self),
    {
        match *self {
            StructureError::BoxOutOfOrder { box_type } => {
                let mut text = String::new();
                push_fourcc(&mut text, box_type);
                proof {
                    assert(Seq::<char>::empty() + fourcc_text(box_type) =~= fourcc_text(box_type));
                }
                text.append(" box arrived where the file may not hold it");
                text
            },
            StructureError::DuplicateBox { box_type } => {
                let mut text = String::new();
                push_fourcc(&mut text, box_type);
                proof {
                    assert(Seq::<char>::empty() + fourcc_text(box_type) =~= fourcc_text(box_type));
                }
                text.append(" box arrived a second time");
                text
            },
            StructureError::MissingMandatoryBox { box_type } => {
                let mut text = String::from_str("file was declared over without a ");
                push_fourcc(&mut text, box_type);
                text.append(" box");
                text
            },
            StructureError::AlreadyFinished => {
                let mut text = String::from_str("file was declared over and takes nothing more");
                text
            },
        }
    }
}

} // verus!

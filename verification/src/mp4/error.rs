//! [`Error`], the reason a descriptor or the entry holding it does not read or write

use vstd::prelude::*;
use vstd::string::StringExecFns;
use crate::bytes::box_error_text;
use crate::text::{hex, push_hex};

use crate::bytes::{BoxError, BoxErrorKind, Category};
use crate::mp4::descriptor::DescriptorTag;

verus! {

/// Failure of reading or writing an MPEG-4 sample entry or a descriptor in it
///
/// A failure of the fields of a box arrives as a [`BoxError`] and is carried
/// through as [`Error::Box`]; the failures the descriptor tree adds are the
/// other variants.
#[derive(Clone, Copy, PartialEq, Eq, Debug, Structural)]
pub enum Error {
    /// The fields of a box failed
    Box(BoxError),
    /// A descriptor was found where one of another tag was expected
    DescriptorTagMismatch { expected: DescriptorTag, found: DescriptorTag },
    /// A descriptor that must be present is not
    MissingDescriptor { tag: DescriptorTag },
    /// A descriptor is present more often than allowed
    DuplicateDescriptor { tag: DescriptorTag },
    /// An expandable size runs past the four bytes it may take
    ExpandableSizeTooLong { tag: DescriptorTag },
}

/// Kind of an [`Error`], the situation without the values
#[derive(Clone, Copy, PartialEq, Eq, Debug, Structural)]
pub enum ErrorKind {
    /// The fields of a box failed, as [`BoxError`] reports it
    Box(BoxErrorKind),
    /// A descriptor was found where one of another tag was expected
    DescriptorTagMismatch,
    /// A descriptor that must be present is not
    MissingDescriptor,
    /// A descriptor is present more often than allowed
    DuplicateDescriptor,
    /// An expandable size runs past the four bytes it may take
    ExpandableSizeTooLong,
}

impl Error {
    /// Returns the failure of a descriptor found where one of another tag was expected
    pub fn descriptor_tag_mismatch(expected: DescriptorTag, found: DescriptorTag) -> (error: Self)
        ensures
            error == (Error::DescriptorTagMismatch { expected, found }),
    {
        Error::DescriptorTagMismatch { expected, found }
    }

    /// Returns the failure of a descriptor that must be present and is not
    pub fn missing_descriptor(tag: DescriptorTag) -> (error: Self)
        ensures
            error == (Error::MissingDescriptor { tag }),
    {
        Error::MissingDescriptor { tag }
    }

    /// Returns the failure of a descriptor present more often than allowed
    pub fn duplicate_descriptor(tag: DescriptorTag) -> (error: Self)
        ensures
            error == (Error::DuplicateDescriptor { tag }),
    {
        Error::DuplicateDescriptor { tag }
    }

    /// Returns the failure of a size that runs past the four bytes an expandable size may take
    pub fn expandable_size_too_long(tag: DescriptorTag) -> (error: Self)
        ensures
            error == (Error::ExpandableSizeTooLong { tag }),
    {
        Error::ExpandableSizeTooLong { tag }
    }

    /// Returns the failure of the fields of a box, carried through
    pub fn from_box(box_error: BoxError) -> (error: Self)
        ensures
            error == Error::Box(box_error),
    {
        Error::Box(box_error)
    }

    /// The kind of the failure
    pub open spec fn spec_kind(self) -> ErrorKind {
        match self {
            Error::Box(box_error) => ErrorKind::Box(box_error.spec_kind()),
            Error::DescriptorTagMismatch { .. } => ErrorKind::DescriptorTagMismatch,
            Error::MissingDescriptor { .. } => ErrorKind::MissingDescriptor,
            Error::DuplicateDescriptor { .. } => ErrorKind::DuplicateDescriptor,
            Error::ExpandableSizeTooLong { .. } => ErrorKind::ExpandableSizeTooLong,
        }
    }

    /// Returns the kind of the failure
    pub fn kind(self) -> (kind: ErrorKind)
        ensures
            kind == self.spec_kind(),
    {
        match self {
            Error::Box(box_error) => ErrorKind::Box(box_error.kind()),
            Error::DescriptorTagMismatch { .. } => ErrorKind::DescriptorTagMismatch,
            Error::MissingDescriptor { .. } => ErrorKind::MissingDescriptor,
            Error::DuplicateDescriptor { .. } => ErrorKind::DuplicateDescriptor,
            Error::ExpandableSizeTooLong { .. } => ErrorKind::ExpandableSizeTooLong,
        }
    }

    /// What a caller does about the failure
    pub open spec fn spec_category(self) -> Category {
        match self {
            Error::Box(box_error) => box_error.spec_category(),
            _ => Category::Malformed,
        }
    }

    /// Returns what a caller does about the failure: a failure of one box
    /// keeps its own, and a descriptor that does not read is malformed
    pub fn category(self) -> (category: Category)
        ensures
            category == self.spec_category(),
    {
        match self {
            Error::Box(box_error) => box_error.category(),
            _ => Category::Malformed,
        }
    }

    /// Returns the failure of the fields of a box carried, for a failure of kind [`ErrorKind::Box`]
    pub fn box_error(self) -> (box_error: Option<BoxError>)
        ensures
            box_error == (match self {
                Error::Box(inner) => Some(inner),
                _ => None::<BoxError>,
            }),
    {
        match self {
            Error::Box(inner) => Some(inner),
            _ => None,
        }
    }

    /// Returns the tag of the descriptor the failure is about: the one found, for a mismatch
    pub fn tag(self) -> (tag: Option<DescriptorTag>)
        ensures
            tag == (match self {
                Error::DescriptorTagMismatch { found, .. } => Some(found),
                Error::MissingDescriptor { tag } => Some(tag),
                Error::DuplicateDescriptor { tag } => Some(tag),
                Error::ExpandableSizeTooLong { tag } => Some(tag),
                Error::Box(_) => None::<DescriptorTag>,
            }),
    {
        match self {
            Error::DescriptorTagMismatch { found, .. } => Some(found),
            Error::MissingDescriptor { tag } => Some(tag),
            Error::DuplicateDescriptor { tag } => Some(tag),
            Error::ExpandableSizeTooLong { tag } => Some(tag),
            Error::Box(_) => None,
        }
    }

    /// Returns the tag that was expected, for a mismatch
    pub fn expected_tag(self) -> (tag: Option<DescriptorTag>)
        ensures
            tag == (match self {
                Error::DescriptorTagMismatch { expected, .. } => Some(expected),
                _ => None::<DescriptorTag>,
            }),
    {
        match self {
            Error::DescriptorTagMismatch { expected, .. } => Some(expected),
            _ => None,
        }
    }
}

/// What a failure of the descriptors says, written out
pub open spec fn descriptor_error_text(failure: Error) -> Seq<char> {
    match failure {
        Error::Box(inner) => box_error_text(inner),
        Error::DescriptorTagMismatch { expected, found } => "descriptor with tag 0x"@ + hex(found.0 as nat, 2) + " found where tag 0x"@ + hex(expected.0 as nat, 2) + " was expected"@,
        Error::MissingDescriptor { tag } => "descriptor with tag 0x"@ + hex(tag.0 as nat, 2) + " is missing"@,
        Error::DuplicateDescriptor { tag } => "descriptor with tag 0x"@ + hex(tag.0 as nat, 2) + " occurs more than once"@,
        Error::ExpandableSizeTooLong { tag } => "descriptor with tag 0x"@ + hex(tag.0 as nat, 2) + " states its size in more than four bytes"@,
    }
}

impl Error {
    /// Returns the failure written out as a reader takes it in
    pub fn message(&self) -> (text: String)
        ensures
            text@ == descriptor_error_text(*self),
    {
        match *self {
            Error::Box(inner) => inner.message(),
            Error::DescriptorTagMismatch { expected, found } => {
                let mut text = String::from_str("descriptor with tag 0x");
                push_hex(&mut text, found.0 as u64, 2);
                text.append(" found where tag 0x");
                push_hex(&mut text, expected.0 as u64, 2);
                text.append(" was expected");
                text
            },
            Error::MissingDescriptor { tag } => {
                let mut text = String::from_str("descriptor with tag 0x");
                push_hex(&mut text, tag.0 as u64, 2);
                text.append(" is missing");
                text
            },
            Error::DuplicateDescriptor { tag } => {
                let mut text = String::from_str("descriptor with tag 0x");
                push_hex(&mut text, tag.0 as u64, 2);
                text.append(" occurs more than once");
                text
            },
            Error::ExpandableSizeTooLong { tag } => {
                let mut text = String::from_str("descriptor with tag 0x");
                push_hex(&mut text, tag.0 as u64, 2);
                text.append(" states its size in more than four bytes");
                text
            },
        }
    }
}

} // verus!

//! [`Error`], the reason the sequence of boxes does not read or write

use vstd::prelude::*;
use vstd::string::StringExecFns;
use crate::bytes::{box_debug_text, box_error_text, box_kind_name, category_name, push_box_kind_name, push_category_name};
use crate::text::{box_type_text, decimal, push_box_type, push_decimal};

use crate::bytes::{BoxError, BoxErrorKind, Category};
use crate::sequence::header::BoxType;

verus! {

/// Reason the sequence of boxes does not read off the input or write into the output
///
/// A failure of the sequence itself — a file cut short, a call made out of
/// order — or the failure of one box, carried through whole on
/// [`Box`](Error::Box).
#[derive(Clone, Copy, PartialEq, Eq, Debug)]
pub enum Error {
    /// Failure of one box, carried through whole
    Box(BoxError),
    /// The file ends `available` bytes into a box header `needed` bytes long
    UnfinishedHeader { needed: u64, available: u64 },
    /// A box of `needed` bytes, header included, is closed off at `available`
    UnfinishedBox { needed: u64, available: u64 },
    /// A box of type `box_type` declares `declared` payload bytes, and `offered` were offered
    PayloadPastDeclared { box_type: BoxType, declared: u64, offered: u64 },
    /// Payload, or the end of a box, came while no box was open
    NoBoxOpen,
    /// A box started while the box of type `box_type` before it was still open
    BoxStillOpen { box_type: BoxType },
    /// Something came after the box running to the end of the file was closed
    PastEndOfFile,
    /// The file was declared over, and takes nothing more
    AlreadyFinished,
}

/// What a failure of the sequence of boxes is, without the values it carries
#[derive(Clone, Copy, PartialEq, Eq, Debug, Structural)]
pub enum ErrorKind {
    /// Failure of one box, of the kind it names
    Box(BoxErrorKind),
    /// The file ends inside the header of a box
    UnfinishedHeader,
    /// A box is closed off before the total it declares is reached
    UnfinishedBox,
    /// More payload is offered for a box than its declared total leaves room for
    PayloadPastDeclared,
    /// Payload, or the end of a box, came while no box was open
    NoBoxOpen,
    /// A box started while the box before it was still open
    BoxStillOpen,
    /// Something came after the box running to the end of the file was closed
    PastEndOfFile,
    /// The file was declared over, and takes nothing more
    AlreadyFinished,
}

impl Error {
    /// Returns the failure of a file that ends `available` bytes into a header of `needed`
    pub fn unfinished_header(needed: u64, available: u64) -> (error: Self)
        ensures
            error == (Error::UnfinishedHeader { needed, available }),
    {
        Error::UnfinishedHeader { needed, available }
    }

    /// Returns the failure of a box of `needed` bytes closed off at `available`
    pub fn unfinished_box(needed: u64, available: u64) -> (error: Self)
        ensures
            error == (Error::UnfinishedBox { needed, available }),
    {
        Error::UnfinishedBox { needed, available }
    }

    /// Returns the failure of `offered` payload bytes for a box declaring `declared`
    pub fn payload_past_declared(box_type: BoxType, declared: u64, offered: u64) -> (error: Self)
        ensures
            error == (Error::PayloadPastDeclared { box_type, declared, offered }),
    {
        Error::PayloadPastDeclared { box_type, declared, offered }
    }

    /// Returns the failure of a payload, or an end, offered while no box is open
    pub fn no_box_open() -> (error: Self)
        ensures
            error == Error::NoBoxOpen,
    {
        Error::NoBoxOpen
    }

    /// Returns the failure of a box started while the box of type `box_type` is still open
    pub fn box_still_open(box_type: BoxType) -> (error: Self)
        ensures
            error == (Error::BoxStillOpen { box_type }),
    {
        Error::BoxStillOpen { box_type }
    }

    /// Returns the failure of something offered after the file was closed off
    pub fn past_end_of_file() -> (error: Self)
        ensures
            error == Error::PastEndOfFile,
    {
        Error::PastEndOfFile
    }

    /// Returns the failure of a call made after the file was declared over
    pub fn already_finished() -> (error: Self)
        ensures
            error == Error::AlreadyFinished,
    {
        Error::AlreadyFinished
    }

    /// What went wrong
    pub open spec fn spec_kind(self) -> ErrorKind {
        match self {
            Error::Box(box_error) => ErrorKind::Box(box_error.spec_kind()),
            Error::UnfinishedHeader { .. } => ErrorKind::UnfinishedHeader,
            Error::UnfinishedBox { .. } => ErrorKind::UnfinishedBox,
            Error::PayloadPastDeclared { .. } => ErrorKind::PayloadPastDeclared,
            Error::NoBoxOpen => ErrorKind::NoBoxOpen,
            Error::BoxStillOpen { .. } => ErrorKind::BoxStillOpen,
            Error::PastEndOfFile => ErrorKind::PastEndOfFile,
            Error::AlreadyFinished => ErrorKind::AlreadyFinished,
        }
    }

    /// Returns what went wrong
    pub fn kind(self) -> (kind: ErrorKind)
        ensures
            kind == self.spec_kind(),
    {
        match self {
            Error::Box(box_error) => ErrorKind::Box(box_error.kind()),
            Error::UnfinishedHeader { .. } => ErrorKind::UnfinishedHeader,
            Error::UnfinishedBox { .. } => ErrorKind::UnfinishedBox,
            Error::PayloadPastDeclared { .. } => ErrorKind::PayloadPastDeclared,
            Error::NoBoxOpen => ErrorKind::NoBoxOpen,
            Error::BoxStillOpen { .. } => ErrorKind::BoxStillOpen,
            Error::PastEndOfFile => ErrorKind::PastEndOfFile,
            Error::AlreadyFinished => ErrorKind::AlreadyFinished,
        }
    }

    /// What a caller does about the failure
    pub open spec fn spec_category(self) -> Category {
        match self {
            Error::Box(box_error) => box_error.spec_category(),
            Error::UnfinishedHeader { .. } | Error::UnfinishedBox { .. } => Category::Malformed,
            _ => Category::Usage,
        }
    }

    /// Returns what a caller does about the failure
    pub fn category(self) -> (category: Category)
        ensures
            category == self.spec_category(),
    {
        match self {
            Error::Box(box_error) => box_error.category(),
            Error::UnfinishedHeader { .. } | Error::UnfinishedBox { .. } => Category::Malformed,
            _ => Category::Usage,
        }
    }

    /// Returns the failure of one box the sequence carried through, when it holds one
    pub fn box_error(self) -> (box_error: Option<BoxError>)
        ensures
            box_error == (match self {
                Error::Box(carried) => Some(carried),
                _ => None,
            }),
    {
        match self {
            Error::Box(carried) => Some(carried),
            _ => None,
        }
    }

    /// Returns the type of the box the failure names, for the kinds that name one
    pub fn box_type(self) -> (box_type: Option<BoxType>)
        ensures
            box_type == (match self {
                Error::PayloadPastDeclared { box_type, .. } => Some(box_type),
                Error::BoxStillOpen { box_type } => Some(box_type),
                _ => None,
            }),
    {
        match self {
            Error::PayloadPastDeclared { box_type, .. } => Some(box_type),
            Error::BoxStillOpen { box_type } => Some(box_type),
            _ => None,
        }
    }

    /// Returns the bytes the failure required, for the kinds that count bytes
    pub fn needed_bytes(self) -> (needed: Option<u64>)
        ensures
            needed == (match self {
                Error::UnfinishedHeader { needed, .. } => Some(needed),
                Error::UnfinishedBox { needed, .. } => Some(needed),
                Error::PayloadPastDeclared { declared, .. } => Some(declared),
                _ => None,
            }),
    {
        match self {
            Error::UnfinishedHeader { needed, .. } => Some(needed),
            Error::UnfinishedBox { needed, .. } => Some(needed),
            Error::PayloadPastDeclared { declared, .. } => Some(declared),
            _ => None,
        }
    }

    /// Returns the bytes the failure had to hand, for the kinds that count bytes
    pub fn available_bytes(self) -> (available: Option<u64>)
        ensures
            available == (match self {
                Error::UnfinishedHeader { available, .. } => Some(available),
                Error::UnfinishedBox { available, .. } => Some(available),
                Error::PayloadPastDeclared { offered, .. } => Some(offered),
                _ => None,
            }),
    {
        match self {
            Error::UnfinishedHeader { available, .. } => Some(available),
            Error::UnfinishedBox { available, .. } => Some(available),
            Error::PayloadPastDeclared { offered, .. } => Some(offered),
            _ => None,
        }
    }
}

impl From<BoxError> for Error {
    /// Carries the failure of one box through as it stands
    fn from(box_error: BoxError) -> (error: Self)
        ensures
            error == Error::Box(box_error),
    {
        Error::Box(box_error)
    }
}

impl vstd::std_specs::convert::FromSpecImpl<BoxError> for Error {
    open spec fn obeys_from_spec() -> bool {
        true
    }

    open spec fn from_spec(box_error: BoxError) -> Self {
        Error::Box(box_error)
    }
}

/// What a failure of the sequence of boxes says, written out
pub open spec fn sequence_error_text(failure: Error) -> Seq<char> {
    match failure {
        Error::Box(inner) => box_error_text(inner),
        Error::UnfinishedHeader { needed, available } => "file ends "@ + decimal(available as nat) + " bytes into a box header of "@ + decimal(needed as nat),
        Error::UnfinishedBox { needed, available } => "box of "@ + decimal(needed as nat) + " bytes closed off at "@ + decimal(available as nat),
        Error::PayloadPastDeclared { box_type, declared, offered } => box_type_text(box_type) + " box declares "@ + decimal(declared as nat) + " payload bytes, and "@ + decimal(offered as nat) + " were offered"@,
        Error::NoBoxOpen => "no box is open to carry a payload or an end"@,
        Error::BoxStillOpen { box_type } => box_type_text(box_type) + " box is still open"@,
        Error::PastEndOfFile => "box running to the end of the file was closed already"@,
        Error::AlreadyFinished => "file was declared over and takes nothing more"@,
    }
}

impl Error {
    /// Returns the failure written out as a reader takes it in
    pub fn message(&self) -> (text: String)
        ensures
            text@ == sequence_error_text(*self),
    {
        match *self {
            Error::Box(inner) => inner.message(),
            Error::UnfinishedHeader { needed, available } => {
                let mut text = String::from_str("file ends ");
                push_decimal(&mut text, available as u64);
                text.append(" bytes into a box header of ");
                push_decimal(&mut text, needed as u64);
                text
            },
            Error::UnfinishedBox { needed, available } => {
                let mut text = String::from_str("box of ");
                push_decimal(&mut text, needed as u64);
                text.append(" bytes closed off at ");
                push_decimal(&mut text, available as u64);
                text
            },
            Error::PayloadPastDeclared { box_type, declared, offered } => {
                let mut text = String::new();
                push_box_type(&mut text, box_type);
                proof {
                    assert(Seq::<char>::empty() + box_type_text(box_type) =~= box_type_text(box_type));
                }
                text.append(" box declares ");
                push_decimal(&mut text, declared as u64);
                text.append(" payload bytes, and ");
                push_decimal(&mut text, offered as u64);
                text.append(" were offered");
                text
            },
            Error::NoBoxOpen => {
                let mut text = String::from_str("no box is open to carry a payload or an end");
                text
            },
            Error::BoxStillOpen { box_type } => {
                let mut text = String::new();
                push_box_type(&mut text, box_type);
                proof {
                    assert(Seq::<char>::empty() + box_type_text(box_type) =~= box_type_text(box_type));
                }
                text.append(" box is still open");
                text
            },
            Error::PastEndOfFile => {
                let mut text = String::from_str("box running to the end of the file was closed already");
                text
            },
            Error::AlreadyFinished => {
                let mut text = String::from_str("file was declared over and takes nothing more");
                text
            },
        }
    }
}

/// What a failure of the sequence of boxes holds, written out: its kind, its
/// category, then, each as a comma, its name and its value, the values it carries
pub open spec fn sequence_debug_text(failure: Error) -> Seq<char> {
    match failure {
        Error::Box(inner) => "Error { kind: Box("@ + box_kind_name(inner.spec_kind()) + "), category: "@
            + category_name(inner.spec_category()) + ", box_error: "@ + box_debug_text(inner) + " }"@,
        Error::UnfinishedHeader { needed, available } => "Error { kind: UnfinishedHeader, category: Malformed, needed_bytes: "@
            + decimal(needed as nat) + ", available_bytes: "@ + decimal(available as nat) + " }"@,
        Error::UnfinishedBox { needed, available } => "Error { kind: UnfinishedBox, category: Malformed, needed_bytes: "@
            + decimal(needed as nat) + ", available_bytes: "@ + decimal(available as nat) + " }"@,
        Error::PayloadPastDeclared { box_type, declared, offered } => "Error { kind: PayloadPastDeclared, category: Usage, box_type: "@
            + box_type_text(box_type) + ", needed_bytes: "@ + decimal(declared as nat) + ", available_bytes: "@
            + decimal(offered as nat) + " }"@,
        Error::NoBoxOpen => "Error { kind: NoBoxOpen, category: Usage }"@,
        Error::BoxStillOpen { box_type } => "Error { kind: BoxStillOpen, category: Usage, box_type: "@ + box_type_text(box_type) + " }"@,
        Error::PastEndOfFile => "Error { kind: PastEndOfFile, category: Usage }"@,
        Error::AlreadyFinished => "Error { kind: AlreadyFinished, category: Usage }"@,
    }
}

impl Error {
    /// Returns the failure written out field by field: its kind, its category, and the values it carries
    pub fn debug_text(&self) -> (text: String)
        ensures
            text@ == sequence_debug_text(*self),
    {
        match *self {
            Error::Box(inner) => {
                let mut text = String::from_str("Error { kind: Box(");
                push_box_kind_name(&mut text, inner.kind());
                text.append("), category: ");
                push_category_name(&mut text, inner.category());
                text.append(", box_error: ");
                let carried = inner.debug_text();
                text.append(carried.as_str());
                text.append(" }");
                text
            },
            Error::UnfinishedHeader { needed, available } => {
                let mut text = String::from_str("Error { kind: UnfinishedHeader, category: Malformed, needed_bytes: ");
                push_decimal(&mut text, needed);
                text.append(", available_bytes: ");
                push_decimal(&mut text, available);
                text.append(" }");
                text
            },
            Error::UnfinishedBox { needed, available } => {
                let mut text = String::from_str("Error { kind: UnfinishedBox, category: Malformed, needed_bytes: ");
                push_decimal(&mut text, needed);
                text.append(", available_bytes: ");
                push_decimal(&mut text, available);
                text.append(" }");
                text
            },
            Error::PayloadPastDeclared { box_type, declared, offered } => {
                let mut text = String::from_str("Error { kind: PayloadPastDeclared, category: Usage, box_type: ");
                push_box_type(&mut text, box_type);
                text.append(", needed_bytes: ");
                push_decimal(&mut text, declared);
                text.append(", available_bytes: ");
                push_decimal(&mut text, offered);
                text.append(" }");
                text
            },
            Error::NoBoxOpen => String::from_str("Error { kind: NoBoxOpen, category: Usage }"),
            Error::BoxStillOpen { box_type } => {
                let mut text = String::from_str("Error { kind: BoxStillOpen, category: Usage, box_type: ");
                push_box_type(&mut text, box_type);
                text.append(" }");
                text
            },
            Error::PastEndOfFile => String::from_str("Error { kind: PastEndOfFile, category: Usage }"),
            Error::AlreadyFinished => String::from_str("Error { kind: AlreadyFinished, category: Usage }"),
        }
    }
}

} // verus!

//! [`FieldReader`], the fields of a payload read front to back, and [`BoxError`], what goes wrong reading or writing one

use vstd::prelude::*;
use vstd::string::StringExecFns;
use crate::text::{decimal, fourcc_text, push_decimal, push_fourcc};

verus! {

/// What a caller does about a failure
#[derive(Clone, Copy, PartialEq, Eq, Debug, Structural)]
pub enum Category {
    /// The input is not what the format allows: the file is at fault
    Malformed,
    /// The input is allowed but not read or written here
    Unsupported,
    /// The calls were made out of the order the reader or writer takes them in
    Usage,
}

/// Kind of a [`BoxError`], the situation without the values
#[derive(Clone, Copy, PartialEq, Eq, Debug, Structural)]
pub enum BoxErrorKind {
    /// The payload ends before a field does
    TruncatedPayload,
    /// Bytes follow the last field a payload holds
    TrailingPayload,
    /// The box declares a version it is not read in
    UnsupportedVersion,
    /// A value is past what its field can carry
    OutOfRange,
    /// The input ends before the header of a box does
    TruncatedHeader,
    /// A box declares a total shorter than the header it opens with
    SizeBelowHeader,
    /// A box that may appear once appears again
    DuplicateBox,
    /// A box that must appear does not
    MissingMandatoryBox,
}

/// Failure of reading or writing the fields of one box
#[derive(Clone, Copy, PartialEq, Eq, Debug, Structural)]
pub enum BoxError {
    /// Reading needed the payload to run to `needed` bytes, and it holds `available`
    TruncatedPayload { needed: u64, available: u64 },
    /// The fields end at `consumed`, and the payload runs on to `available`
    TrailingPayload { consumed: u64, available: u64 },
    /// The box declares `version`, which it is not read in
    UnsupportedVersion { version: u8 },
    /// `value` is past what its field can carry
    OutOfRange { value: u64 },
    /// Reading the header needed `needed` bytes, and the input holds `available`
    TruncatedHeader { needed: u64, available: u64 },
    /// The header is `header` bytes long, and the box declares a total of `declared`
    SizeBelowHeader { header: u64, declared: u64 },
    /// A box of the compact type `box_type`, which may appear once, appears again
    DuplicateBox { box_type: u32 },
    /// No box of the compact type `box_type`, which must appear, is there
    MissingMandatoryBox { box_type: u32 },
}

impl BoxError {
    /// Returns the kind of the failure
    pub fn kind(self) -> (kind: BoxErrorKind)
        ensures
            kind == self.spec_kind(),
    {
        match self {
            BoxError::TruncatedPayload { .. } => BoxErrorKind::TruncatedPayload,
            BoxError::TrailingPayload { .. } => BoxErrorKind::TrailingPayload,
            BoxError::UnsupportedVersion { .. } => BoxErrorKind::UnsupportedVersion,
            BoxError::OutOfRange { .. } => BoxErrorKind::OutOfRange,
            BoxError::TruncatedHeader { .. } => BoxErrorKind::TruncatedHeader,
            BoxError::SizeBelowHeader { .. } => BoxErrorKind::SizeBelowHeader,
            BoxError::DuplicateBox { .. } => BoxErrorKind::DuplicateBox,
            BoxError::MissingMandatoryBox { .. } => BoxErrorKind::MissingMandatoryBox,
        }
    }

    /// What a caller does about the failure
    pub open spec fn spec_category(self) -> Category {
        match self {
            BoxError::TruncatedPayload { .. }
            | BoxError::TrailingPayload { .. }
            | BoxError::TruncatedHeader { .. }
            | BoxError::SizeBelowHeader { .. }
            | BoxError::DuplicateBox { .. }
            | BoxError::MissingMandatoryBox { .. } => Category::Malformed,
            BoxError::UnsupportedVersion { .. } | BoxError::OutOfRange { .. } => Category::Unsupported,
        }
    }

    /// Returns what a caller does about the failure
    pub fn category(self) -> (category: Category)
        ensures
            category == self.spec_category(),
    {
        match self {
            BoxError::TruncatedPayload { .. }
            | BoxError::TrailingPayload { .. }
            | BoxError::TruncatedHeader { .. }
            | BoxError::SizeBelowHeader { .. }
            | BoxError::DuplicateBox { .. }
            | BoxError::MissingMandatoryBox { .. } => Category::Malformed,
            BoxError::UnsupportedVersion { .. } | BoxError::OutOfRange { .. } => Category::Unsupported,
        }
    }

    /// The kind of the failure
    pub open spec fn spec_kind(self) -> BoxErrorKind {
        match self {
            BoxError::TruncatedPayload { .. } => BoxErrorKind::TruncatedPayload,
            BoxError::TrailingPayload { .. } => BoxErrorKind::TrailingPayload,
            BoxError::UnsupportedVersion { .. } => BoxErrorKind::UnsupportedVersion,
            BoxError::OutOfRange { .. } => BoxErrorKind::OutOfRange,
            BoxError::TruncatedHeader { .. } => BoxErrorKind::TruncatedHeader,
            BoxError::SizeBelowHeader { .. } => BoxErrorKind::SizeBelowHeader,
            BoxError::DuplicateBox { .. } => BoxErrorKind::DuplicateBox,
            BoxError::MissingMandatoryBox { .. } => BoxErrorKind::MissingMandatoryBox,
        }
    }
}

/// The failure of reading `n` bytes at `position` of a payload `len` bytes long, when they do not fit
pub open spec fn truncated(position: int, n: int, len: int) -> BoxError {
    BoxError::TruncatedPayload { needed: saturated(position + n), available: saturated(len) }
}

/// `x` as a 64-bit count, held at the largest one where it runs past it
pub open spec fn saturated(x: int) -> u64 {
    if x > u64::MAX { u64::MAX } else if x < 0 { 0 } else { x as u64 }
}

/// The big-endian value of two bytes
pub open spec fn be16(b0: u8, b1: u8) -> u16 {
    (b0 as int * 256 + b1 as int) as u16
}

/// The big-endian value of four bytes
pub open spec fn be32(b0: u8, b1: u8, b2: u8, b3: u8) -> u32 {
    (b0 as int * 16777216 + b1 as int * 65536 + b2 as int * 256 + b3 as int) as u32
}

/// The big-endian bytes of a 16-bit value
pub open spec fn be16_bytes(v: u16) -> Seq<u8> {
    seq![(v / 256) as u8, (v % 256) as u8]
}

/// The big-endian bytes of a 32-bit value
pub open spec fn be32_bytes(v: u32) -> Seq<u8> {
    seq![(v / 16777216) as u8, ((v / 65536) % 256) as u8, ((v / 256) % 256) as u8, (v % 256) as u8]
}

/// Reading the big-endian bytes of a 16-bit value gives the value back
pub proof fn lemma_be16_round_trip(v: u16)
    ensures
        be16(be16_bytes(v)[0], be16_bytes(v)[1]) == v,
{
}

/// Reading the big-endian bytes of a 32-bit value gives the value back
pub proof fn lemma_be32_round_trip(v: u32)
    ensures
        be32(be32_bytes(v)[0], be32_bytes(v)[1], be32_bytes(v)[2], be32_bytes(v)[3]) == v,
{
}

/// Cursor over the fields of a payload, read front to back
pub struct FieldReader<'a> {
    bytes: &'a [u8],
    position: usize,
}

impl<'a> FieldReader<'a> {
    /// The bytes of the whole payload
    pub closed spec fn data(&self) -> Seq<u8> {
        self.bytes@
    }

    /// Where the next field starts
    pub closed spec fn pos(&self) -> int {
        self.position as int
    }

    /// The position lies within the payload
    pub open spec fn wf(&self) -> bool {
        0 <= self.pos() <= self.data().len()
    }

    /// Creates a reader standing at the start of `bytes`
    pub fn new(bytes: &'a [u8]) -> (reader: Self)
        ensures
            reader.data() == bytes@,
            reader.pos() == 0,
            reader.wf(),
    {
        FieldReader { bytes, position: 0 }
    }

    /// Returns the position the next field starts at
    pub fn position(&self) -> (position: usize)
        ensures
            position == self.pos(),
    {
        self.position
    }

    /// Returns how many bytes are left to read
    pub fn remaining(&self) -> (n: usize)
        requires
            self.wf(),
        ensures
            n == self.data().len() - self.pos(),
    {
        self.bytes.len() - self.position
    }

    /// Reads one byte
    pub fn read_u8(&mut self) -> (result: Result<u8, BoxError>)
        requires
            old(self).wf(),
        ensures
            final(self).wf(),
            final(self).data() == old(self).data(),
            old(self).pos() + 1 <= old(self).data().len() ==> {
                &&& result == Ok::<u8, BoxError>(old(self).data()[old(self).pos()])
                &&& final(self).pos() == old(self).pos() + 1
            },
            old(self).pos() + 1 > old(self).data().len() ==> {
                &&& result == Err::<u8, BoxError>(truncated(old(self).pos(), 1, old(self).data().len() as int))
                &&& final(self).pos() == old(self).pos()
            },
    {
        if self.position < self.bytes.len() {
            let byte = self.bytes[self.position];
            self.position = self.position + 1;
            Ok(byte)
        } else {
            Err(BoxError::TruncatedPayload {
                needed: (self.position as u64).saturating_add(1),
                available: self.bytes.len() as u64,
            })
        }
    }

    /// Reads the `n` bytes that come next
    pub fn read_slice(&mut self, n: usize) -> (result: Result<&'a [u8], BoxError>)
        requires
            old(self).wf(),
        ensures
            final(self).wf(),
            final(self).data() == old(self).data(),
            old(self).pos() + n <= old(self).data().len() ==> {
                &&& result is Ok
                &&& result->Ok_0@ == old(self).data().subrange(old(self).pos(), old(self).pos() + n)
                &&& final(self).pos() == old(self).pos() + n
            },
            old(self).pos() + n > old(self).data().len() ==> {
                &&& result is Err
                &&& result->Err_0 == truncated(old(self).pos(), n as int, old(self).data().len() as int)
                &&& final(self).pos() == old(self).pos()
            },
    {
        if n <= self.bytes.len() - self.position {
            let end = self.position + n;
            let taken = vstd::slice::slice_subrange(self.bytes, self.position, end);
            self.position = end;
            Ok(taken)
        } else {
            Err(BoxError::TruncatedPayload {
                needed: (self.position as u64).saturating_add(n as u64),
                available: self.bytes.len() as u64,
            })
        }
    }

    /// Reads a big-endian 16-bit value
    pub fn read_u16(&mut self) -> (result: Result<u16, BoxError>)
        requires
            old(self).wf(),
        ensures
            final(self).wf(),
            final(self).data() == old(self).data(),
            old(self).pos() + 2 <= old(self).data().len() ==> {
                &&& result == Ok::<u16, BoxError>(be16(old(self).data()[old(self).pos()], old(self).data()[old(self).pos() + 1]))
                &&& final(self).pos() == old(self).pos() + 2
            },
            old(self).pos() + 2 > old(self).data().len() ==> {
                &&& result == Err::<u16, BoxError>(truncated(old(self).pos(), 2, old(self).data().len() as int))
                &&& final(self).pos() == old(self).pos()
            },
    {
        let bytes = self.read_slice(2)?;
        Ok((bytes[0] as u16) * 256 + bytes[1] as u16)
    }

    /// Reads a big-endian 32-bit value
    pub fn read_u32(&mut self) -> (result: Result<u32, BoxError>)
        requires
            old(self).wf(),
        ensures
            final(self).wf(),
            final(self).data() == old(self).data(),
            old(self).pos() + 4 <= old(self).data().len() ==> {
                &&& result == Ok::<u32, BoxError>(be32(
                    old(self).data()[old(self).pos()],
                    old(self).data()[old(self).pos() + 1],
                    old(self).data()[old(self).pos() + 2],
                    old(self).data()[old(self).pos() + 3],
                ))
                &&& final(self).pos() == old(self).pos() + 4
            },
            old(self).pos() + 4 > old(self).data().len() ==> {
                &&& result == Err::<u32, BoxError>(truncated(old(self).pos(), 4, old(self).data().len() as int))
                &&& final(self).pos() == old(self).pos()
            },
    {
        let bytes = self.read_slice(4)?;
        Ok((bytes[0] as u32) * 16777216 + (bytes[1] as u32) * 65536 + (bytes[2] as u32) * 256 + bytes[3] as u32)
    }

    /// Reads every byte left
    pub fn take_remainder(&mut self) -> (taken: &'a [u8])
        requires
            old(self).wf(),
        ensures
            final(self).wf(),
            final(self).data() == old(self).data(),
            taken@ == old(self).data().subrange(old(self).pos(), old(self).data().len() as int),
            final(self).pos() == old(self).data().len(),
    {
        let end = self.bytes.len();
        let taken = vstd::slice::slice_subrange(self.bytes, self.position, end);
        self.position = end;
        taken
    }

    /// Declares the fields over, which the payload must end with
    pub fn finish(&self) -> (result: Result<(), BoxError>)
        requires
            self.wf(),
        ensures
            result is Ok <==> self.pos() == self.data().len(),
            result is Err ==> result == Err::<(), BoxError>(BoxError::TrailingPayload {
                consumed: saturated(self.pos()),
                available: saturated(self.data().len() as int),
            }),
    {
        if self.position == self.bytes.len() {
            Ok(())
        } else {
            Err(BoxError::TrailingPayload {
                consumed: self.position as u64,
                available: self.bytes.len() as u64,
            })
        }
    }
}

/// Returns whether two runs of bytes are the same
pub fn bytes_equal(a: &[u8], b: &[u8]) -> (same: bool)
    ensures
        same == (a@ == b@),
{
    if a.len() != b.len() {
        return false;
    }
    let mut i: usize = 0;
    while i < a.len()
        invariant
            a@.len() == b@.len(),
            0 <= i <= a@.len(),
            forall|j: int| 0 <= j < i ==> a@[j] == b@[j],
        decreases a@.len() - i,
    {
        if a[i] != b[i] {
            return false;
        }
        i = i + 1;
    }
    assert(a@ =~= b@);
    true
}

/// Appends the big-endian bytes of a 16-bit value
pub fn write_u16(out: &mut Vec<u8>, v: u16)
    ensures
        final(out)@ == old(out)@ + be16_bytes(v),
{
    out.push((v / 256) as u8);
    out.push((v % 256) as u8);
}

/// Appends the big-endian bytes of a 32-bit value
pub fn write_u32(out: &mut Vec<u8>, v: u32)
    ensures
        final(out)@ == old(out)@ + be32_bytes(v),
{
    out.push((v / 16777216) as u8);
    out.push(((v / 65536) % 256) as u8);
    out.push(((v / 256) % 256) as u8);
    out.push((v % 256) as u8);
}

/// Appends every byte of `bytes`
pub fn write_slice(out: &mut Vec<u8>, bytes: &[u8])
    ensures
        final(out)@ == old(out)@ + bytes@,
{
    let ghost start = out@;
    let mut i: usize = 0;
    while i < bytes.len()
        invariant
            0 <= i <= bytes@.len(),
            out@ == start + bytes@.subrange(0, i as int),
        decreases bytes@.len() - i,
    {
        out.push(bytes[i]);
        i = i + 1;
        assert(bytes@.subrange(0, i as int) == bytes@.subrange(0, i - 1) + seq![bytes@[i - 1]]);
    }
    assert(bytes@.subrange(0, bytes@.len() as int) == bytes@);
}

/// What a failure of one box says, written out
pub open spec fn box_error_text(failure: BoxError) -> Seq<char> {
    match failure {
        BoxError::TruncatedPayload { needed, available } => "payload of "@ + decimal(available as nat) + " bytes ends before the "@ + decimal(needed as nat) + " its fields reach"@,
        BoxError::TrailingPayload { consumed, available } => "fields end at "@ + decimal(consumed as nat) + " bytes, and the payload runs on to "@ + decimal(available as nat),
        BoxError::UnsupportedVersion { version } => "box declares version "@ + decimal(version as nat) + ", which is not read"@,
        BoxError::OutOfRange { value } => decimal(value as nat) + " is past what its field carries"@,
        BoxError::TruncatedHeader { needed, available } => "input ends "@ + decimal(available as nat) + " bytes into a box header of "@ + decimal(needed as nat),
        BoxError::SizeBelowHeader { header, declared } => "box declares a total of "@ + decimal(declared as nat) + " bytes, below its "@ + decimal(header as nat) + "-byte header"@,
        BoxError::DuplicateBox { box_type } => fourcc_text(box_type) + " box occurs more than once"@,
        BoxError::MissingMandatoryBox { box_type } => fourcc_text(box_type) + " box is missing"@,
    }
}

impl BoxError {
    /// Returns the failure written out as a reader takes it in
    pub fn message(&self) -> (text: String)
        ensures
            text@ == box_error_text(*self),
    {
        match *self {
            BoxError::TruncatedPayload { needed, available } => {
                let mut text = String::from_str("payload of ");
                push_decimal(&mut text, available as u64);
                text.append(" bytes ends before the ");
                push_decimal(&mut text, needed as u64);
                text.append(" its fields reach");
                text
            },
            BoxError::TrailingPayload { consumed, available } => {
                let mut text = String::from_str("fields end at ");
                push_decimal(&mut text, consumed as u64);
                text.append(" bytes, and the payload runs on to ");
                push_decimal(&mut text, available as u64);
                text
            },
            BoxError::UnsupportedVersion { version } => {
                let mut text = String::from_str("box declares version ");
                push_decimal(&mut text, version as u64);
                text.append(", which is not read");
                text
            },
            BoxError::OutOfRange { value } => {
                let mut text = String::new();
                push_decimal(&mut text, value as u64);
                proof {
                    assert(Seq::<char>::empty() + decimal(value as nat) =~= decimal(value as nat));
                }
                text.append(" is past what its field carries");
                text
            },
            BoxError::TruncatedHeader { needed, available } => {
                let mut text = String::from_str("input ends ");
                push_decimal(&mut text, available as u64);
                text.append(" bytes into a box header of ");
                push_decimal(&mut text, needed as u64);
                text
            },
            BoxError::SizeBelowHeader { header, declared } => {
                let mut text = String::from_str("box declares a total of ");
                push_decimal(&mut text, declared as u64);
                text.append(" bytes, below its ");
                push_decimal(&mut text, header as u64);
                text.append("-byte header");
                text
            },
            BoxError::DuplicateBox { box_type } => {
                let mut text = String::new();
                push_fourcc(&mut text, box_type);
                proof {
                    assert(Seq::<char>::empty() + fourcc_text(box_type) =~= fourcc_text(box_type));
                }
                text.append(" box occurs more than once");
                text
            },
            BoxError::MissingMandatoryBox { box_type } => {
                let mut text = String::new();
                push_fourcc(&mut text, box_type);
                proof {
                    assert(Seq::<char>::empty() + fourcc_text(box_type) =~= fourcc_text(box_type));
                }
                text.append(" box is missing");
                text
            },
        }
    }
}

/// The name of a kind of failure of one box
pub open spec fn box_kind_name(value: BoxErrorKind) -> Seq<char> {
    match value {
        BoxErrorKind::TruncatedPayload => "TruncatedPayload"@,
        BoxErrorKind::TrailingPayload => "TrailingPayload"@,
        BoxErrorKind::UnsupportedVersion => "UnsupportedVersion"@,
        BoxErrorKind::OutOfRange => "OutOfRange"@,
        BoxErrorKind::TruncatedHeader => "TruncatedHeader"@,
        BoxErrorKind::SizeBelowHeader => "SizeBelowHeader"@,
        BoxErrorKind::DuplicateBox => "DuplicateBox"@,
        BoxErrorKind::MissingMandatoryBox => "MissingMandatoryBox"@,
    }
}

/// The name of a category of failure
pub open spec fn category_name(value: Category) -> Seq<char> {
    match value {
        Category::Malformed => "Malformed"@,
        Category::Unsupported => "Unsupported"@,
        Category::Usage => "Usage"@,
    }
}

/// Appends the name of `value` to `out`, as [`box_kind_name`] has it
pub fn push_box_kind_name(out: &mut String, value: BoxErrorKind)
    ensures
        final(out)@ == old(out)@ + box_kind_name(value),
{
    match value {
        BoxErrorKind::TruncatedPayload => out.append("TruncatedPayload"),
        BoxErrorKind::TrailingPayload => out.append("TrailingPayload"),
        BoxErrorKind::UnsupportedVersion => out.append("UnsupportedVersion"),
        BoxErrorKind::OutOfRange => out.append("OutOfRange"),
        BoxErrorKind::TruncatedHeader => out.append("TruncatedHeader"),
        BoxErrorKind::SizeBelowHeader => out.append("SizeBelowHeader"),
        BoxErrorKind::DuplicateBox => out.append("DuplicateBox"),
        BoxErrorKind::MissingMandatoryBox => out.append("MissingMandatoryBox"),
    }
}

/// Appends the name of `value` to `out`, as [`category_name`] has it
pub fn push_category_name(out: &mut String, value: Category)
    ensures
        final(out)@ == old(out)@ + category_name(value),
{
    match value {
        Category::Malformed => out.append("Malformed"),
        Category::Unsupported => out.append("Unsupported"),
        Category::Usage => out.append("Usage"),
    }
}

/// What a failure of one box holds, written out field by field
pub open spec fn box_debug_text(failure: BoxError) -> Seq<char> {
    match failure {
        BoxError::TruncatedPayload { needed, available } => "TruncatedPayload { needed: "@ + decimal(needed as nat) + ", available: "@ + decimal(available as nat) + " }"@,
        BoxError::TrailingPayload { consumed, available } => "TrailingPayload { consumed: "@ + decimal(consumed as nat) + ", available: "@ + decimal(available as nat) + " }"@,
        BoxError::UnsupportedVersion { version } => "UnsupportedVersion { version: "@ + decimal(version as nat) + " }"@,
        BoxError::OutOfRange { value } => "OutOfRange { value: "@ + decimal(value as nat) + " }"@,
        BoxError::TruncatedHeader { needed, available } => "TruncatedHeader { needed: "@ + decimal(needed as nat) + ", available: "@ + decimal(available as nat) + " }"@,
        BoxError::SizeBelowHeader { header, declared } => "SizeBelowHeader { header: "@ + decimal(header as nat) + ", declared: "@ + decimal(declared as nat) + " }"@,
        BoxError::DuplicateBox { box_type } => "DuplicateBox { box_type: "@ + decimal(box_type as nat) + " }"@,
        BoxError::MissingMandatoryBox { box_type } => "MissingMandatoryBox { box_type: "@ + decimal(box_type as nat) + " }"@,
    }
}

impl BoxError {
    /// Returns the failure written out field by field, its variant and each value it carries
    pub fn debug_text(&self) -> (text: String)
        ensures
            text@ == box_debug_text(*self),
    {
        match *self {
            BoxError::TruncatedPayload { needed, available } => {
                let mut text = String::from_str("TruncatedPayload { needed: ");
                push_decimal(&mut text, needed as u64);
                text.append(", available: ");
                push_decimal(&mut text, available as u64);
                text.append(" }");
                text
            },
            BoxError::TrailingPayload { consumed, available } => {
                let mut text = String::from_str("TrailingPayload { consumed: ");
                push_decimal(&mut text, consumed as u64);
                text.append(", available: ");
                push_decimal(&mut text, available as u64);
                text.append(" }");
                text
            },
            BoxError::UnsupportedVersion { version } => {
                let mut text = String::from_str("UnsupportedVersion { version: ");
                push_decimal(&mut text, version as u64);
                text.append(" }");
                text
            },
            BoxError::OutOfRange { value } => {
                let mut text = String::from_str("OutOfRange { value: ");
                push_decimal(&mut text, value as u64);
                text.append(" }");
                text
            },
            BoxError::TruncatedHeader { needed, available } => {
                let mut text = String::from_str("TruncatedHeader { needed: ");
                push_decimal(&mut text, needed as u64);
                text.append(", available: ");
                push_decimal(&mut text, available as u64);
                text.append(" }");
                text
            },
            BoxError::SizeBelowHeader { header, declared } => {
                let mut text = String::from_str("SizeBelowHeader { header: ");
                push_decimal(&mut text, header as u64);
                text.append(", declared: ");
                push_decimal(&mut text, declared as u64);
                text.append(" }");
                text
            },
            BoxError::DuplicateBox { box_type } => {
                let mut text = String::from_str("DuplicateBox { box_type: ");
                push_decimal(&mut text, box_type as u64);
                text.append(" }");
                text
            },
            BoxError::MissingMandatoryBox { box_type } => {
                let mut text = String::from_str("MissingMandatoryBox { box_type: ");
                push_decimal(&mut text, box_type as u64);
                text.append(" }");
                text
            },
        }
    }
}

} // verus!

//! [`BoxHeader`], the size and the type every box opens with — ISO/IEC 14496-12 §4.2

use vstd::prelude::*;

use crate::bytes::{be32, be32_bytes, lemma_be32_round_trip, write_u32, BoxError};
use crate::structure::error::four_cc;

verus! {

/// The compact type a box declares when an extended type follows it: `uuid`
pub const UUID_TYPE: u32 = 0x7575_6964;

/// The longest header a box opens with, both of its extended fields present
pub const MAX_ENCODED_LEN: usize = 32;

/// The 16-byte `usertype` of a box whose type is extended
#[derive(Clone, Copy, PartialEq, Eq, Debug)]
pub struct Uuid(pub [u8; 16]);

/// The type of a box: four characters, or a `usertype` behind the `uuid` characters
#[derive(Clone, Copy, PartialEq, Eq, Debug)]
pub enum BoxType {
    /// The four characters of the compact `type` field, read as one big-endian number
    Compact(u32),
    /// The extended type that follows a `type` field reading `uuid`
    Extended(Uuid),
}

impl BoxType {
    /// Returns the compact type written as the four characters `characters`
    pub fn compact(characters: [u8; 4]) -> (box_type: BoxType)
        ensures
            box_type == BoxType::Compact(be32(characters[0], characters[1], characters[2], characters[3])),
    {
        BoxType::Compact(four_cc(characters))
    }
}

/// The total a box declares for itself, header included
#[derive(Clone, Copy, PartialEq, Eq, Debug, Structural)]
pub enum BoxSize {
    /// The total, in the 32-bit `size` field
    Compact(u32),
    /// The total, in the 64-bit `largesize` field behind a `size` field reading 1
    Extended(u64),
    /// No total: the box runs to the end of the file, its `size` field reading 0
    ToEndOfFile,
}

impl BoxSize {
    /// The total the size declares, none for a box running to the end of the file
    pub open spec fn spec_total_bytes(self) -> Option<u64> {
        match self {
            BoxSize::Compact(total) => Some(total as u64),
            BoxSize::Extended(total) => Some(total),
            BoxSize::ToEndOfFile => None,
        }
    }

    /// Returns the total the size declares, `None` for a box running to the end of the file
    pub fn total_bytes(self) -> (total: Option<u64>)
        ensures
            total == self.spec_total_bytes(),
    {
        match self {
            BoxSize::Compact(total) => Some(total as u64),
            BoxSize::Extended(total) => Some(total),
            BoxSize::ToEndOfFile => None,
        }
    }
}

/// The length of the header a box of type `box_type` and size `size` opens with
pub open spec fn header_len(box_type: BoxType, size: BoxSize) -> nat {
    8 + (if size is Extended { 8nat } else { 0nat }) + (if box_type is Extended { 16nat } else { 0nat })
}

/// Whether the total `size` declares leaves room for the header it is declared in
pub open spec fn fits(box_type: BoxType, size: BoxSize) -> bool {
    match size.spec_total_bytes() {
        Some(total) => total >= header_len(box_type, size),
        None => true,
    }
}

/// The value of the `size` field
pub open spec fn size_field(size: BoxSize) -> u32 {
    match size {
        BoxSize::Compact(total) => total,
        BoxSize::Extended(_) => 1,
        BoxSize::ToEndOfFile => 0,
    }
}

/// The value of the compact `type` field
pub open spec fn type_field(box_type: BoxType) -> u32 {
    match box_type {
        BoxType::Compact(fourcc) => fourcc,
        BoxType::Extended(_) => UUID_TYPE,
    }
}

/// The big-endian value of eight bytes
pub open spec fn be64(s: Seq<u8>) -> u64 {
    (be32(s[0], s[1], s[2], s[3]) as int * 4294967296 + be32(s[4], s[5], s[6], s[7]) as int) as u64
}

/// The big-endian bytes of a 64-bit value
pub open spec fn be64_bytes(v: u64) -> Seq<u8> {
    be32_bytes((v / 4294967296) as u32) + be32_bytes((v % 4294967296) as u32)
}

/// The bytes a header of type `box_type` and size `size` is written as
pub open spec fn header_bytes(box_type: BoxType, size: BoxSize) -> Seq<u8> {
    be32_bytes(size_field(size)) + be32_bytes(type_field(box_type)) + match size {
        BoxSize::Extended(total) => be64_bytes(total),
        _ => Seq::<u8>::empty(),
    } + match box_type {
        BoxType::Extended(user_type) => user_type.0@,
        BoxType::Compact(_) => Seq::<u8>::empty(),
    }
}

/// The `size` field at the front of `bytes`
pub open spec fn size_field_of(bytes: Seq<u8>) -> u32 {
    be32(bytes[0], bytes[1], bytes[2], bytes[3])
}

/// The `type` field behind it
pub open spec fn type_field_of(bytes: Seq<u8>) -> u32 {
    be32(bytes[4], bytes[5], bytes[6], bytes[7])
}

/// The length of the header whose first eight bytes open `bytes`
pub open spec fn needed_len(bytes: Seq<u8>) -> nat {
    8 + (if size_field_of(bytes) == 1 { 8nat } else { 0nat }) + (if type_field_of(bytes) == UUID_TYPE { 16nat } else { 0nat })
}

/// The size the header opening `bytes` declares
pub open spec fn read_size(bytes: Seq<u8>) -> BoxSize {
    if size_field_of(bytes) == 0 {
        BoxSize::ToEndOfFile
    } else if size_field_of(bytes) == 1 {
        BoxSize::Extended(be64(bytes.subrange(8, 16)))
    } else {
        BoxSize::Compact(size_field_of(bytes))
    }
}

/// Whether `box_type` is the type the header opening `bytes` declares
pub open spec fn type_read_as(box_type: BoxType, bytes: Seq<u8>) -> bool {
    if type_field_of(bytes) == UUID_TYPE {
        let at = if size_field_of(bytes) == 1 { 16int } else { 8int };
        &&& box_type is Extended
        &&& box_type->Extended_0.0@ == bytes.subrange(at, at + 16)
    } else {
        box_type == BoxType::Compact(type_field_of(bytes))
    }
}

/// Why no header can be read off the front of `bytes`, none when one can
pub open spec fn decode_failure(bytes: Seq<u8>) -> Option<BoxError> {
    if bytes.len() < 8 {
        Some(BoxError::TruncatedHeader { needed: 8, available: bytes.len() as u64 })
    } else if bytes.len() < needed_len(bytes) {
        Some(BoxError::TruncatedHeader { needed: needed_len(bytes) as u64, available: bytes.len() as u64 })
    } else {
        match read_size(bytes).spec_total_bytes() {
            Some(total) => if total < needed_len(bytes) {
                Some(BoxError::SizeBelowHeader { header: needed_len(bytes) as u64, declared: total })
            } else {
                None
            },
            None => None,
        }
    }
}

/// The size and the type a box opens with
///
/// The total a header declares always leaves room for the header itself.
#[derive(Clone, Copy, PartialEq, Eq, Debug)]
pub struct BoxHeader {
    box_type: BoxType,
    size: BoxSize,
}

impl BoxHeader {
    #[verifier::type_invariant]
    spec fn total_holds_the_header(self) -> bool {
        fits(self.box_type, self.size)
    }

    /// The type of the box
    pub closed spec fn spec_box_type(self) -> BoxType {
        self.box_type
    }

    /// The total the box declares
    pub closed spec fn spec_size(self) -> BoxSize {
        self.size
    }

    /// The length of the header
    pub open spec fn spec_len(self) -> nat {
        header_len(self.spec_box_type(), self.spec_size())
    }

    /// The payload the box declares, none for a box running to the end of the file
    pub open spec fn spec_payload_len(self) -> Option<u64> {
        match self.spec_size().spec_total_bytes() {
            Some(total) => Some((total - self.spec_len()) as u64),
            None => None,
        }
    }

    /// The bytes the header is written as
    pub open spec fn encoding(self) -> Seq<u8> {
        header_bytes(self.spec_box_type(), self.spec_size())
    }

    /// Returns the header of a box of type `box_type` declaring `size`
    ///
    /// Fails with [`SizeBelowHeader`](BoxError::SizeBelowHeader) when the
    /// total declared leaves no room for the header it is declared in.
    pub fn new(box_type: BoxType, size: BoxSize) -> (result: Result<BoxHeader, BoxError>)
        ensures
            result is Ok <==> fits(box_type, size),
            result is Ok ==> result->Ok_0.spec_box_type() == box_type && result->Ok_0.spec_size() == size,
            result is Err ==> result->Err_0 == (BoxError::SizeBelowHeader {
                header: header_len(box_type, size) as u64,
                declared: size.spec_total_bytes()->0,
            }),
    {
        let len = Self::len_of(box_type, size);
        match size.total_bytes() {
            Some(total) => {
                if total < len as u64 {
                    return Err(BoxError::SizeBelowHeader { header: len as u64, declared: total });
                }
            },
            None => {},
        }
        Ok(BoxHeader { box_type, size })
    }

    /// Returns the length of the header a box of type `box_type` declaring `size` opens with
    fn len_of(box_type: BoxType, size: BoxSize) -> (len: usize)
        ensures
            len == header_len(box_type, size),
            len <= MAX_ENCODED_LEN,
    {
        let mut len: usize = 8;
        if let BoxSize::Extended(_) = size {
            len = len + 8;
        }
        if let BoxType::Extended(_) = box_type {
            len = len + 16;
        }
        len
    }

    /// Returns the type of the box
    pub fn box_type(&self) -> (box_type: BoxType)
        ensures
            box_type == self.spec_box_type(),
    {
        self.box_type
    }

    /// Returns the total the box declares
    pub fn size(&self) -> (size: BoxSize)
        ensures
            size == self.spec_size(),
    {
        self.size
    }

    /// Returns the length of the header, as it is written
    pub fn encoded_len(&self) -> (len: usize)
        ensures
            len == self.spec_len(),
            len <= MAX_ENCODED_LEN,
    {
        Self::len_of(self.box_type, self.size)
    }

    /// Returns the payload the box declares, `None` for a box running to the end of the file
    pub fn payload_len(&self) -> (payload: Option<u64>)
        ensures
            payload == self.spec_payload_len(),
            payload is Some ==> payload->0 + self.spec_len() == self.spec_size().spec_total_bytes()->0,
    {
        proof {
            use_type_invariant(self);
        }
        let len = self.encoded_len();
        match self.size.total_bytes() {
            Some(total) => Some(total - len as u64),
            None => None,
        }
    }

    /// Appends the bytes the header is written as
    pub fn encode(&self, out: &mut Vec<u8>)
        ensures
            final(out)@ == old(out)@ + self.encoding(),
    {
        let ghost start = out@;
        let size_field: u32 = match self.size {
            BoxSize::Compact(total) => total,
            BoxSize::Extended(_) => 1,
            BoxSize::ToEndOfFile => 0,
        };
        let type_field: u32 = match self.box_type {
            BoxType::Compact(fourcc) => fourcc,
            BoxType::Extended(_) => UUID_TYPE,
        };
        write_u32(out, size_field);
        write_u32(out, type_field);
        let ghost fields = out@;
        if let BoxSize::Extended(total) = self.size {
            write_u64(out, total);
        }
        let ghost sized = out@;
        if let BoxType::Extended(user_type) = self.box_type {
            write_user_type(out, &user_type);
        }
        proof {
            let extended_size = match self.size {
                BoxSize::Extended(total) => be64_bytes(total),
                _ => Seq::<u8>::empty(),
            };
            let extended_type = match self.box_type {
                BoxType::Extended(user_type) => user_type.0@,
                BoxType::Compact(_) => Seq::<u8>::empty(),
            };
            assert(sized =~= fields + extended_size);
            assert(out@ =~= sized + extended_type);
            assert(out@ =~= start + self.encoding());
        }
    }

    /// Reads the header opening `bytes`, and the length it was written in
    ///
    /// Fails with [`TruncatedHeader`](BoxError::TruncatedHeader) while `bytes`
    /// ends before the header does, naming the length it reaches once its
    /// first eight bytes are there, and with
    /// [`SizeBelowHeader`](BoxError::SizeBelowHeader) when the total declared
    /// leaves no room for the header.
    pub fn decode(bytes: &[u8]) -> (result: Result<(BoxHeader, usize), BoxError>)
        ensures
            decode_failure(bytes@) is Some ==> result == Err::<(BoxHeader, usize), BoxError>(decode_failure(bytes@)->0),
            decode_failure(bytes@) is None ==> result is Ok,
            result is Ok ==> ({
                let (header, len) = result->Ok_0;
                &&& len == needed_len(bytes@)
                &&& len == header.spec_len()
                &&& header.spec_size() == read_size(bytes@)
                &&& type_read_as(header.spec_box_type(), bytes@)
                &&& header.encoding() == bytes@.subrange(0, len as int)
                &&& plain(header)
            }),
    {
        if bytes.len() < 8 {
            return Err(BoxError::TruncatedHeader { needed: 8, available: bytes.len() as u64 });
        }
        let size_field = read_be32(bytes, 0);
        let type_field = read_be32(bytes, 4);
        let mut needed: usize = 8;
        if size_field == 1 {
            needed = needed + 8;
        }
        if type_field == UUID_TYPE {
            needed = needed + 16;
        }
        if bytes.len() < needed {
            return Err(BoxError::TruncatedHeader { needed: needed as u64, available: bytes.len() as u64 });
        }
        let size = if size_field == 0 {
            BoxSize::ToEndOfFile
        } else if size_field == 1 {
            BoxSize::Extended(read_be64(bytes, 8))
        } else {
            BoxSize::Compact(size_field)
        };
        let type_at: usize = if size_field == 1 { 16 } else { 8 };
        let box_type = if type_field == UUID_TYPE {
            BoxType::Extended(read_user_type(bytes, type_at))
        } else {
            BoxType::Compact(type_field)
        };
        match size.total_bytes() {
            Some(total) => {
                if total < needed as u64 {
                    return Err(BoxError::SizeBelowHeader { header: needed as u64, declared: total });
                }
            },
            None => {},
        }
        proof {
            lemma_read_header_bytes(bytes@, box_type, size);
        }
        Ok((BoxHeader { box_type, size }, needed))
    }
}

/// The bytes a header was read off are the bytes it is written as
proof fn lemma_read_header_bytes(bytes: Seq<u8>, box_type: BoxType, size: BoxSize)
    requires
        bytes.len() >= needed_len(bytes),
        size == read_size(bytes),
        type_read_as(box_type, bytes),
    ensures
        header_bytes(box_type, size) == bytes.subrange(0, needed_len(bytes) as int),
        header_len(box_type, size) == needed_len(bytes),
{
    let s = size_field_of(bytes);
    let t = type_field_of(bytes);
    lemma_be32_bytes_of(bytes, 0);
    lemma_be32_bytes_of(bytes, 4);
    assert(size_field(size) == s);
    assert(type_field(box_type) == t);
    let extended_size = match size {
        BoxSize::Extended(total) => be64_bytes(total),
        _ => Seq::<u8>::empty(),
    };
    if s == 1 {
        lemma_be64_bytes_of(bytes.subrange(8, 16));
        assert(extended_size =~= bytes.subrange(8, 16));
    }
    let at = if s == 1 { 16int } else { 8int };
    let extended_type = match box_type {
        BoxType::Extended(user_type) => user_type.0@,
        BoxType::Compact(_) => Seq::<u8>::empty(),
    };
    assert(bytes.subrange(0, 4) =~= be32_bytes(s));
    assert(bytes.subrange(4, 8) =~= be32_bytes(t));
    assert(bytes.subrange(0, at) =~= be32_bytes(s) + be32_bytes(t) + extended_size);
    assert(bytes.subrange(0, needed_len(bytes) as int) =~= bytes.subrange(0, at) + extended_type);
}

/// Four bytes are the big-endian bytes of the value they read as
proof fn lemma_be32_bytes_of(bytes: Seq<u8>, at: int)
    requires
        0 <= at,
        at + 4 <= bytes.len(),
    ensures
        be32_bytes(be32(bytes[at], bytes[at + 1], bytes[at + 2], bytes[at + 3]))
            =~= bytes.subrange(at, at + 4),
{
    let (b0, b1, b2, b3) = (bytes[at], bytes[at + 1], bytes[at + 2], bytes[at + 3]);
    let v = be32(b0, b1, b2, b3);
    assert(v == b0 as int * 16777216 + b1 as int * 65536 + b2 as int * 256 + b3 as int) by (nonlinear_arith)
        requires
            v == (b0 as int * 16777216 + b1 as int * 65536 + b2 as int * 256 + b3 as int) as u32,
            0 <= b0 < 256,
            0 <= b1 < 256,
            0 <= b2 < 256,
            0 <= b3 < 256,
    ;
    assert(v / 16777216 == b0 && (v / 65536) % 256 == b1 && (v / 256) % 256 == b2 && v % 256 == b3) by (nonlinear_arith)
        requires
            v == b0 as int * 16777216 + b1 as int * 65536 + b2 as int * 256 + b3 as int,
            0 <= b0 < 256,
            0 <= b1 < 256,
            0 <= b2 < 256,
            0 <= b3 < 256,
    ;
}

/// Eight bytes are the big-endian bytes of the value they read as
proof fn lemma_be64_bytes_of(bytes: Seq<u8>)
    requires
        bytes.len() == 8,
    ensures
        be64_bytes(be64(bytes)) =~= bytes,
{
    let hi = be32(bytes[0], bytes[1], bytes[2], bytes[3]);
    let lo = be32(bytes[4], bytes[5], bytes[6], bytes[7]);
    let v = be64(bytes);
    assert(v == hi as int * 4294967296 + lo as int && v / 4294967296 == hi && v % 4294967296 == lo) by (nonlinear_arith)
        requires
            v == (hi as int * 4294967296 + lo as int) as u64,
            0 <= hi < 4294967296,
            0 <= lo < 4294967296,
    ;
    lemma_be32_bytes_of(bytes, 0);
    lemma_be32_bytes_of(bytes, 4);
    assert(bytes =~= bytes.subrange(0, 4) + bytes.subrange(4, 8));
}

/// The eight bytes a 64-bit value is written as read back as that value
pub proof fn lemma_be64_round_trip(v: u64)
    ensures
        be64(be64_bytes(v)) == v,
        be64_bytes(v).len() == 8,
{
    let hi = (v / 4294967296) as u32;
    let lo = (v % 4294967296) as u32;
    lemma_be32_round_trip(hi);
    lemma_be32_round_trip(lo);
    let s = be64_bytes(v);
    assert(be32(s[0], s[1], s[2], s[3]) == hi);
    assert(be32(s[4], s[5], s[6], s[7]) == lo);
    assert(hi as int * 4294967296 + lo as int == v) by (nonlinear_arith)
        requires
            hi == v / 4294967296,
            lo == v % 4294967296,
    ;
}

/// Returns the big-endian value of the four bytes of `bytes` at `at`
fn read_be32(bytes: &[u8], at: usize) -> (v: u32)
    requires
        at + 4 <= bytes@.len(),
    ensures
        v == be32(bytes@[at as int], bytes@[at + 1], bytes@[at + 2], bytes@[at + 3]),
{
    four_cc([bytes[at], bytes[at + 1], bytes[at + 2], bytes[at + 3]])
}

/// Returns the big-endian value of the eight bytes of `bytes` at `at`
fn read_be64(bytes: &[u8], at: usize) -> (v: u64)
    requires
        at + 8 <= bytes.len(),
    ensures
        v == be64(bytes@.subrange(at as int, at + 8)),
{
    let hi = read_be32(bytes, at) as u64;
    let lo = read_be32(bytes, at + 4) as u64;
    assert(hi * 4294967296 + lo <= u64::MAX) by (nonlinear_arith)
        requires
            hi < 4294967296,
            lo < 4294967296,
    ;
    let v = hi * 4294967296 + lo;
    assert(bytes@.subrange(at as int, at + 8)[0] == bytes@[at as int]);
    v
}

/// Returns the 16 bytes of `bytes` at `at`, as the extended type they declare
fn read_user_type(bytes: &[u8], at: usize) -> (user_type: Uuid)
    requires
        at + 16 <= bytes.len(),
    ensures
        user_type.0@ == bytes@.subrange(at as int, at + 16),
{
    let mut characters = [0u8; 16];
    let mut i: usize = 0;
    while i < 16
        invariant
            at + 16 <= bytes.len(),
            0 <= i <= 16,
            characters@.len() == 16,
            forall|j: int| 0 <= j < i ==> characters@[j] == bytes@[at + j],
        decreases 16 - i,
    {
        characters[i] = bytes[at + i];
        i = i + 1;
    }
    assert(characters@ =~= bytes@.subrange(at as int, at + 16));
    Uuid(characters)
}

/// Appends the big-endian bytes of a 64-bit value
fn write_u64(out: &mut Vec<u8>, v: u64)
    ensures
        final(out)@ == old(out)@ + be64_bytes(v),
{
    let ghost start = out@;
    write_u32(out, (v / 4294967296) as u32);
    write_u32(out, (v % 4294967296) as u32);
    assert(out@ =~= start + be64_bytes(v));
}

/// Appends the 16 bytes of an extended type
fn write_user_type(out: &mut Vec<u8>, user_type: &Uuid)
    ensures
        final(out)@ == old(out)@ + user_type.0@,
{
    let ghost start = out@;
    let mut i: usize = 0;
    while i < 16
        invariant
            user_type.0@.len() == 16,
            0 <= i <= 16,
            out@ == start + user_type.0@.subrange(0, i as int),
        decreases 16 - i,
    {
        out.push(user_type.0[i]);
        i = i + 1;
        assert(out@ =~= start + user_type.0@.subrange(0, i as int));
    }
    assert(user_type.0@.subrange(0, 16) =~= user_type.0@);
}

/// A header written out reads back as itself, taking the length it was written in
///
/// A compact type reading `uuid` is left out: the bytes behind it would be read
/// as the extended type it stands for.
pub proof fn lemma_header_round_trip(header: BoxHeader, rest: Seq<u8>)
    requires
        fits(header.spec_box_type(), header.spec_size()),
        header.spec_box_type() != BoxType::Compact(UUID_TYPE),
    ensures
        decode_failure(header.encoding() + rest) is None,
        needed_len(header.encoding() + rest) == header.spec_len(),
        read_size(header.encoding() + rest) == header.spec_size(),
        type_read_as(header.spec_box_type(), header.encoding() + rest),
{
    lemma_header_bytes_read(header.spec_box_type(), header.spec_size(), rest);
}

/// The bytes a header of type `box_type` declaring `size` is written as read
/// back as that type and size, whatever follows them
pub proof fn lemma_header_bytes_read(box_type: BoxType, size: BoxSize, rest: Seq<u8>)
    requires
        fits(box_type, size),
        box_type != BoxType::Compact(UUID_TYPE),
    ensures
        header_bytes(box_type, size).len() == header_len(box_type, size),
        decode_failure(header_bytes(box_type, size) + rest) is None,
        needed_len(header_bytes(box_type, size) + rest) == header_len(box_type, size),
        read_size(header_bytes(box_type, size) + rest) == size,
        type_field_of(header_bytes(box_type, size) + rest) == type_field(box_type),
        type_read_as(box_type, header_bytes(box_type, size) + rest),
{
    let t = box_type;
    let s = size;
    let bytes = header_bytes(t, s) + rest;
    lemma_be32_round_trip(size_field(s));
    lemma_be32_round_trip(type_field(t));
    if let BoxType::Extended(user_type) = t {
        assert(user_type.0@.len() == 16);
    }
    if let BoxSize::Extended(total) = s {
        lemma_be64_round_trip(total);
    }
    assert(size_field_of(bytes) == size_field(s));
    assert(type_field_of(bytes) == type_field(t));
    if let BoxSize::Extended(total) = s {
        assert(bytes.subrange(8, 16) =~= be64_bytes(total));
    }
    if let BoxType::Extended(user_type) = t {
        let at = if s is Extended { 16int } else { 8int };
        assert(bytes.subrange(at, at + 16) =~= user_type.0@);
    }
}

/// A header is the type and the total it declares: two declaring the same are the same
pub proof fn lemma_header_is_its_fields(a: BoxHeader, b: BoxHeader)
    requires
        a.spec_box_type() == b.spec_box_type(),
        a.spec_size() == b.spec_size(),
    ensures
        a == b,
{
}

/// The bytes a header is written as are as long as the header, and their
/// `type` field is the compact type the header declares
pub proof fn lemma_type_of_encoding(header: BoxHeader, rest: Seq<u8>)
    ensures
        header.encoding().len() == header.spec_len(),
        type_field_of(header.encoding() + rest) == type_field(header.spec_box_type()),
{
    let t = header.spec_box_type();
    let s = header.spec_size();
    lemma_be32_round_trip(type_field(t));
    if let BoxSize::Extended(total) = s {
        lemma_be64_round_trip(total);
    }
    if let BoxType::Extended(user_type) = t {
        assert(user_type.0@.len() == 16);
    }
    let bytes = header.encoding() + rest;
    assert(bytes[4] == be32_bytes(type_field(t))[0]);
    assert(bytes[5] == be32_bytes(type_field(t))[1]);
    assert(bytes[6] == be32_bytes(type_field(t))[2]);
    assert(bytes[7] == be32_bytes(type_field(t))[3]);
}

/// The size a header of type `box_type` declares for a payload of `payload_len`
/// bytes: the compact field where the total fits it, else the extended one,
/// none where the total runs past 64 bits
pub open spec fn size_for(box_type: BoxType, payload_len: nat) -> Option<BoxSize> {
    let compact_total = 8 + (if box_type is Extended { 16nat } else { 0nat }) + payload_len;
    if compact_total <= u32::MAX {
        Some(BoxSize::Compact(compact_total as u32))
    } else if compact_total + 8 <= u64::MAX {
        Some(BoxSize::Extended((compact_total + 8) as u64))
    } else {
        None
    }
}

impl BoxHeader {
    /// Returns the header of a box of type `box_type` carrying `payload_len`
    /// bytes of payload, its total in the compact field where it fits, `None`
    /// where the total runs past 64 bits
    pub fn with_payload_len(box_type: BoxType, payload_len: u64) -> (header: Option<BoxHeader>)
        ensures
            header is Some <==> size_for(box_type, payload_len as nat) is Some,
            header is Some ==> {
                &&& header->0.spec_box_type() == box_type
                &&& header->0.spec_size() == size_for(box_type, payload_len as nat)->0
                &&& header->0.spec_payload_len() == Some(payload_len)
            },
    {
        let type_len: u64 = match box_type {
            BoxType::Extended(_) => 16,
            BoxType::Compact(_) => 0,
        };
        if payload_len <= 0xFFFF_FFFF - 8 - type_len {
            let size = BoxSize::Compact((8 + type_len + payload_len) as u32);
            Some(BoxHeader { box_type, size })
        } else if payload_len <= u64::MAX - 16 - type_len {
            let size = BoxSize::Extended(16 + type_len + payload_len);
            Some(BoxHeader { box_type, size })
        } else {
            None
        }
    }
}

/// A header of type `box_type` declaring the size [`size_for`] gives can be had
pub proof fn lemma_size_for_header(box_type: BoxType, payload_len: nat)
    requires
        size_for(box_type, payload_len) is Some,
    ensures
        exists|header: BoxHeader| header.spec_box_type() == box_type && header.spec_size() == size_for(box_type, payload_len)->0,
{
    let header = BoxHeader { box_type, size: size_for(box_type, payload_len)->0 };
    assert(header.spec_box_type() == box_type && header.spec_size() == size_for(box_type, payload_len)->0);
}

/// Whether `header` is one a reader can give back: its total holds it, and a
/// compact type never reads `uuid`, which stands for an extended one
pub open spec fn plain(header: BoxHeader) -> bool {
    &&& fits(header.spec_box_type(), header.spec_size())
    &&& header.spec_box_type() != BoxType::Compact(UUID_TYPE)
}

/// Two headers a reader can give back are the same where the bytes they are
/// written as open the same bytes
pub proof fn lemma_header_written_once(first: BoxHeader, first_rest: Seq<u8>, second: BoxHeader, second_rest: Seq<u8>)
    requires
        plain(first),
        plain(second),
        first.encoding() + first_rest == second.encoding() + second_rest,
    ensures
        first == second,
        first.spec_len() == second.spec_len(),
{
    let bytes = first.encoding() + first_rest;
    lemma_header_round_trip(first, first_rest);
    lemma_header_round_trip(second, second_rest);
    if type_field_of(bytes) == UUID_TYPE {
        let a = first.spec_box_type()->Extended_0.0;
        let b = second.spec_box_type()->Extended_0.0;
        assert(a@ == b@);
        assert(a =~= b);
    }
    assert(first.box_type == second.box_type);
    assert(first.size == second.size);
}

} // verus!

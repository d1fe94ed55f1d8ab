//! [`DescriptorTag`] and [`RawDescriptor`], the `BaseDescriptor` of ISO/IEC 14496-1 §7.2.2.2
//!
//! A descriptor opens with one byte naming its class and an expandable size:
//! seven bits of the size in each byte, most significant first, the top bit
//! set on every byte but the last, in one to four bytes.

use vstd::prelude::*;

use crate::bytes::{BoxError, FieldReader, bytes_equal, truncated, write_slice};
use crate::mp4::error::Error;

verus! {

/// Most bytes an expandable size may take
pub const MAX_SIZE_LEN: usize = 4;

/// Largest size an expandable size of four bytes states, 28 bits of it
pub const MAX_BODY_LEN: u64 = 268435455;

/// Byte of `ES_DescrTag`
pub const ES_TAG: u8 = 3;

/// Byte of `DecoderConfigDescrTag`
pub const DECODER_CONFIG_TAG: u8 = 4;

/// Byte of `DecSpecificInfoTag`
pub const DECODER_SPECIFIC_INFO_TAG: u8 = 5;

/// Byte of `SLConfigDescrTag`
pub const SL_CONFIG_TAG: u8 = 6;

/// Tag that names the class of a descriptor
#[derive(Clone, Copy, PartialEq, Eq, Debug, Structural)]
pub struct DescriptorTag(pub u8);

impl DescriptorTag {
    /// `ES_DescrTag`, an `ES_Descriptor`
    pub fn es() -> (tag: Self)
        ensures
            tag.0 == ES_TAG,
    {
        DescriptorTag(ES_TAG)
    }

    /// `DecoderConfigDescrTag`, a `DecoderConfigDescriptor`
    pub fn decoder_config() -> (tag: Self)
        ensures
            tag.0 == DECODER_CONFIG_TAG,
    {
        DescriptorTag(DECODER_CONFIG_TAG)
    }

    /// `DecSpecificInfoTag`, a `DecoderSpecificInfo`
    pub fn decoder_specific_info() -> (tag: Self)
        ensures
            tag.0 == DECODER_SPECIFIC_INFO_TAG,
    {
        DescriptorTag(DECODER_SPECIFIC_INFO_TAG)
    }

    /// `SLConfigDescrTag`, an `SLConfigDescriptor`
    pub fn sl_config() -> (tag: Self)
        ensures
            tag.0 == SL_CONFIG_TAG,
    {
        DescriptorTag(SL_CONFIG_TAG)
    }

    /// Creates a tag from the byte that carries it
    pub fn new(tag: u8) -> (result: Self)
        ensures
            result.0 == tag,
    {
        DescriptorTag(tag)
    }

    /// Returns the byte that carries the tag
    pub fn byte(self) -> (byte: u8)
        ensures
            byte == self.0,
    {
        self.0
    }
}

/// 128 to the power `i`, for the four places an expandable size has
pub open spec fn place_value(i: nat) -> nat {
    if i == 0 {
        1
    } else if i == 1 {
        128
    } else if i == 2 {
        16384
    } else {
        2097152
    }
}

/// 128 to the power `i`, for a size of up to four groups
pub open spec fn group_bound(i: nat) -> nat {
    if i == 0 {
        1
    } else if i == 1 {
        128
    } else if i == 2 {
        16384
    } else if i == 3 {
        2097152
    } else {
        268435456
    }
}

/// The seven bits of `n` at place `i` of its expandable size
pub open spec fn size_group(n: nat, i: nat) -> nat {
    (n / place_value(i)) % 128
}

/// How many bytes the expandable size of `n` takes, the fewest that state it
pub open spec fn spec_size_len(n: nat) -> nat
    decreases n,
{
    if n < 128 {
        1
    } else {
        1 + spec_size_len(n / 128)
    }
}

/// The expandable size of `n` laid out in `k` bytes, most significant group first
pub open spec fn size_field(n: nat, k: nat) -> Seq<u8> {
    Seq::new(
        k,
        |j: int|
            if j + 1 < k {
                (128 + size_group(n, (k - 1 - j) as nat)) as u8
            } else {
                size_group(n, 0) as u8
            },
    )
}

/// The tag and the size that open a descriptor whose body is `body_len` bytes long
pub open spec fn header_bytes(tag: u8, body_len: nat) -> Seq<u8> {
    seq![tag] + size_field(body_len, spec_size_len(body_len))
}

/// A descriptor laid out whole: its tag, its size and its body
pub open spec fn descriptor_bytes(tag: u8, body: Seq<u8>) -> Seq<u8> {
    header_bytes(tag, body.len()) + body
}

/// The length a descriptor of a body `body_len` long occupies, tag and size included
pub open spec fn spec_encoded_len(body_len: nat) -> nat {
    1 + spec_size_len(body_len) + body_len
}

/// Reads the rest of an expandable size, its byte `i` at `at`, `acc` the value of the bytes before
///
/// Gives the tag, where the body starts and how long it is; the body must lie
/// within `s`.
pub open spec fn spec_size_from(s: Seq<u8>, tag: u8, at: int, i: nat, acc: nat) -> Result<(u8, int, nat), Error>
    decreases 4 - i,
{
    if i >= 4 {
        Err(Error::ExpandableSizeTooLong { tag: DescriptorTag(tag) })
    } else if at < 0 || at + 1 > s.len() {
        Err(Error::Box(truncated(at, 1, s.len() as int)))
    } else {
        let b = s[at];
        let value = acc * 128 + (b % 128) as nat;
        if b < 128 {
            if at + 1 + value > s.len() {
                Err(Error::Box(truncated(at + 1, value as int, s.len() as int)))
            } else {
                Ok((tag, at + 1, value))
            }
        } else {
            spec_size_from(s, tag, at + 1, i + 1, value)
        }
    }
}

/// Reads the tag and the size of the descriptor at `pos` of `s`
pub open spec fn spec_decode_header(s: Seq<u8>, pos: int) -> Result<(u8, int, nat), Error> {
    if pos < 0 || pos + 1 > s.len() {
        Err(Error::Box(truncated(pos, 1, s.len() as int)))
    } else {
        spec_size_from(s, s[pos], pos + 1, 0, 0)
    }
}

/// The result of reading a header stays within the bytes read from
pub proof fn lemma_size_from_bounds(s: Seq<u8>, tag: u8, at: int, i: nat, acc: nat)
    requires
        0 <= at,
        acc < group_bound(i),
        i <= 4,
    ensures
        spec_size_from(s, tag, at, i, acc) matches Ok((t, start, len)) ==> {
            &&& t == tag
            &&& at < start
            &&& start + len <= s.len()
            &&& len <= MAX_BODY_LEN
        },
    decreases 4 - i,
{
    if i < 4 && at + 1 <= s.len() {
        let b = s[at];
        let value = acc * 128 + (b % 128) as nat;
        if b >= 128 {
            lemma_size_from_bounds(s, tag, at + 1, i + 1, value);
        }
    }
}

/// How many bytes an expandable size takes, by the range its value lies in
pub proof fn lemma_size_len_ranges(n: nat)
    requires
        n <= MAX_BODY_LEN,
    ensures
        n < 128 ==> spec_size_len(n) == 1,
        128 <= n < 16384 ==> spec_size_len(n) == 2,
        16384 <= n < 2097152 ==> spec_size_len(n) == 3,
        2097152 <= n ==> spec_size_len(n) == 4,
{
    reveal_with_fuel(spec_size_len, 4);
}

/// The expandable size of any value fits in ten bytes
pub proof fn lemma_size_len_bounded(n: nat, bound: nat, k: nat)
    requires
        1 <= k,
        n < bound,
        bound == group_power(k),
    ensures
        spec_size_len(n) <= k,
    decreases k,
{
    if n >= 128 {
        assert(k > 1) by {
            if k == 1 {
                assert(group_power(1) == 128 * group_power(0));
            }
        }
        assert(group_power(k) == 128 * group_power((k - 1) as nat));
        lemma_size_len_bounded(n / 128, group_power((k - 1) as nat), (k - 1) as nat);
    }
}

/// 128 to the power `k`
pub open spec fn group_power(k: nat) -> nat
    decreases k,
{
    if k == 0 {
        1
    } else {
        128 * group_power((k - 1) as nat)
    }
}

/// Dividing by 128 a value already divided by `d` is dividing it by `128 * d`,
/// and the seven bits in between carry the rest
proof fn lemma_group_step(n: nat, d: nat)
    requires
        d > 0,
    ensures
        (n / (d * 128)) * 128 + (n / d) % 128 == n / d,
{
    vstd::arithmetic::div_mod::lemma_div_denominator(n as int, d as int, 128);
    vstd::arithmetic::div_mod::lemma_fundamental_div_mod((n / d) as int, 128);
}

/// Reading the header laid out for a body of `body_len` bytes gives back its tag and size
pub proof fn lemma_decode_header_bytes(s: Seq<u8>, pos: int, tag: u8, body_len: nat)
    requires
        0 <= pos,
        body_len <= MAX_BODY_LEN,
        pos + header_bytes(tag, body_len).len() + body_len <= s.len(),
        s.subrange(pos, pos + header_bytes(tag, body_len).len()) == header_bytes(tag, body_len),
    ensures
        header_bytes(tag, body_len).len() == 1 + spec_size_len(body_len),
        spec_decode_header(s, pos) == Ok::<(u8, int, nat), Error>(
            (tag, pos + header_bytes(tag, body_len).len(), body_len),
        ),
{
    let n = body_len;
    let h = header_bytes(tag, n);
    lemma_size_len_ranges(n);
    let k = spec_size_len(n);
    assert forall|j: int| 0 <= j < h.len() implies s[pos + j] == h[j] by {
        assert(s.subrange(pos, pos + h.len())[j] == s[pos + j]);
    }
    assert(h[0] == tag);
    assert(s[pos + 0] == h[0]);
    let f = size_field(n, k);
    assert forall|j: int| 0 <= j < k implies s[pos + 1 + j] == f[j] by {
        assert(h[1 + j] == f[j]);
        assert(s[pos + (1 + j)] == h[1 + j]);
    }
    assert(h.len() == 1 + k);
    if k == 1 {
        assert(s[pos + 1 + 0] == f[0]);
        lemma_header_one(s, pos, tag, n);
    } else if k == 2 {
        assert(s[pos + 1 + 0] == f[0]);
        assert(s[pos + 1 + 1] == f[1]);
        lemma_header_two(s, pos, tag, n);
    } else if k == 3 {
        assert(s[pos + 1 + 0] == f[0]);
        assert(s[pos + 1 + 1] == f[1]);
        assert(s[pos + 1 + 2] == f[2]);
        lemma_header_three(s, pos, tag, n);
    } else {
        assert(s[pos + 1 + 0] == f[0]);
        assert(s[pos + 1 + 1] == f[1]);
        assert(s[pos + 1 + 2] == f[2]);
        assert(s[pos + 1 + 3] == f[3]);
        lemma_header_four(s, pos, tag, n);
    }
}

proof fn lemma_header_one(s: Seq<u8>, pos: int, tag: u8, n: nat)
    requires
        0 <= pos,
        n < 128,
        pos + 2 + n <= s.len(),
        s[pos] == tag,
        s[pos + 1] == size_field(n, 1)[0],
    ensures
        spec_decode_header(s, pos) == Ok::<(u8, int, nat), Error>((tag, pos + 2, n)),
{
    assert(s[pos + 1] == n);
    lemma_size_last(s, tag, pos + 1, 0, 0);
}

proof fn lemma_header_two(s: Seq<u8>, pos: int, tag: u8, n: nat)
    requires
        0 <= pos,
        128 <= n < 16384,
        pos + 3 + n <= s.len(),
        s[pos] == tag,
        s[pos + 1] == size_field(n, 2)[0],
        s[pos + 2] == size_field(n, 2)[1],
    ensures
        spec_decode_header(s, pos) == Ok::<(u8, int, nat), Error>((tag, pos + 3, n)),
{
    let a = n / 128;
    assert(a < 128);
    assert(s[pos + 1] == 128 + a);
    assert(s[pos + 2] == n % 128);
    lemma_size_continue(s, tag, pos + 1, 0, 0);
    assert(n == a * 128 + n % 128);
    lemma_size_last(s, tag, pos + 2, 1, a);
}

proof fn lemma_header_three(s: Seq<u8>, pos: int, tag: u8, n: nat)
    requires
        0 <= pos,
        16384 <= n < 2097152,
        pos + 4 + n <= s.len(),
        s[pos] == tag,
        s[pos + 1] == size_field(n, 3)[0],
        s[pos + 2] == size_field(n, 3)[1],
        s[pos + 3] == size_field(n, 3)[2],
    ensures
        spec_decode_header(s, pos) == Ok::<(u8, int, nat), Error>((tag, pos + 4, n)),
{
    let a = n / 16384;
    let b = n / 128;
    lemma_group_step(n, 128);
    assert(a < 128);
    assert(s[pos + 1] == 128 + a);
    assert(s[pos + 2] == 128 + b % 128);
    assert(s[pos + 3] == n % 128);
    lemma_size_continue(s, tag, pos + 1, 0, 0);
    lemma_size_continue(s, tag, pos + 2, 1, a);
    assert(a * 128 + b % 128 == b);
    assert(n == b * 128 + n % 128);
    lemma_size_last(s, tag, pos + 3, 2, b);
}

proof fn lemma_header_four(s: Seq<u8>, pos: int, tag: u8, n: nat)
    requires
        0 <= pos,
        2097152 <= n <= MAX_BODY_LEN,
        pos + 5 + n <= s.len(),
        s[pos] == tag,
        s[pos + 1] == size_field(n, 4)[0],
        s[pos + 2] == size_field(n, 4)[1],
        s[pos + 3] == size_field(n, 4)[2],
        s[pos + 4] == size_field(n, 4)[3],
    ensures
        spec_decode_header(s, pos) == Ok::<(u8, int, nat), Error>((tag, pos + 5, n)),
{
    let a = n / 2097152;
    let b = n / 16384;
    let c = n / 128;
    lemma_group_step(n, 128);
    lemma_group_step(n, 16384);
    assert(a < 128);
    assert(s[pos + 1] == 128 + a);
    assert(s[pos + 2] == 128 + b % 128);
    assert(s[pos + 3] == 128 + c % 128);
    assert(s[pos + 4] == n % 128);
    lemma_size_continue(s, tag, pos + 1, 0, 0);
    lemma_size_continue(s, tag, pos + 2, 1, a);
    assert(a * 128 + b % 128 == b);
    lemma_size_continue(s, tag, pos + 3, 2, b);
    assert(b * 128 + c % 128 == c);
    assert(n == c * 128 + n % 128);
    lemma_size_last(s, tag, pos + 4, 3, c);
}

/// A byte with its top bit set carries the size on into the next
proof fn lemma_size_continue(s: Seq<u8>, tag: u8, at: int, i: nat, acc: nat)
    requires
        0 <= at < s.len(),
        i < 4,
        s[at] >= 128,
    ensures
        spec_size_from(s, tag, at, i, acc) == spec_size_from(s, tag, at + 1, i + 1, acc * 128 + (s[at] % 128) as nat),
{
}

/// A byte with its top bit clear ends the size, and the body follows it
proof fn lemma_size_last(s: Seq<u8>, tag: u8, at: int, i: nat, acc: nat)
    requires
        0 <= at < s.len(),
        i < 4,
        s[at] < 128,
        at + 1 + acc * 128 + s[at] <= s.len(),
    ensures
        spec_size_from(s, tag, at, i, acc) == Ok::<(u8, int, nat), Error>((tag, at + 1, acc * 128 + s[at] as nat)),
{
}

/// Returns how many bytes the expandable size of `body_len` takes, the fewest that state it
pub fn size_len(body_len: u64) -> (length: usize)
    ensures
        length == spec_size_len(body_len as nat),
        length <= 10,
{
    proof {
        reveal_with_fuel(group_power, 11);
        assert(group_power(10) == 1180591620717411303424nat);
        lemma_size_len_bounded(body_len as nat, group_power(10), 10);
    }
    let mut length: usize = 1;
    let mut rest = body_len / 128;
    while rest != 0
        invariant
            rest == 0 ==> length == spec_size_len(body_len as nat),
            rest != 0 ==> length + spec_size_len(rest as nat) == spec_size_len(body_len as nat),
            spec_size_len(body_len as nat) <= 10,
            1 <= length,
        decreases rest,
    {
        assert(spec_size_len(rest as nat) >= 1);
        length = length + 1;
        rest = rest / 128;
    }
    length
}

/// Returns the length a descriptor of `body_len` occupies, tag and size included
pub fn encoded_len(body_len: u64) -> (length: u64)
    ensures
        length == (if spec_encoded_len(body_len as nat) > u64::MAX {
            u64::MAX as nat
        } else {
            spec_encoded_len(body_len as nat)
        }),
{
    (1 + size_len(body_len) as u64).saturating_add(body_len)
}

/// Reads the tag and size that open a descriptor and hands back its body
pub fn decode_header<'a>(reader: &mut FieldReader<'a>) -> (result: Result<(DescriptorTag, &'a [u8]), Error>)
    requires
        old(reader).wf(),
    ensures
        final(reader).wf(),
        final(reader).data() == old(reader).data(),
        match spec_decode_header(old(reader).data(), old(reader).pos()) {
            Ok((tag, start, len)) => {
                &&& result is Ok
                &&& result->Ok_0.0.0 == tag
                &&& result->Ok_0.1@ == old(reader).data().subrange(start, start + len)
                &&& final(reader).pos() == start + len
            },
            Err(failure) => result is Err && result->Err_0 == failure,
        },
{
    let ghost data = reader.data();
    let ghost pos = reader.pos();
    let tag = match reader.read_u8() {
        Ok(byte) => byte,
        Err(failure) => return Err(Error::Box(failure)),
    };
    let mut size: u64 = 0;
    let mut i: usize = 0;
    while i < MAX_SIZE_LEN
        invariant
            reader.wf(),
            reader.data() == data,
            data == old(reader).data(),
            pos == old(reader).pos(),
            0 <= pos,
            pos + 1 <= data.len(),
            tag == data[pos],
            i <= 4,
            reader.pos() == pos + 1 + i,
            size < group_bound(i as nat),
            spec_decode_header(data, pos) == spec_size_from(data, tag, pos + 1 + i, i as nat, size as nat),
        decreases 4 - i,
    {
        let byte = match reader.read_u8() {
            Ok(byte) => byte,
            Err(failure) => return Err(Error::Box(failure)),
        };
        size = size * 128 + (byte % 128) as u64;
        if byte < 128 {
            return match reader.read_slice(size as usize) {
                Ok(body) => Ok((DescriptorTag(tag), body)),
                Err(failure) => Err(Error::Box(failure)),
            };
        }
        i = i + 1;
    }
    Err(Error::ExpandableSizeTooLong { tag: DescriptorTag(tag) })
}

/// Writes the tag and the size of a body `body_len` long, in the fewest bytes
///
/// A body past the 28 bits an expandable size states is
/// [`OutOfRange`](crate::bytes::BoxError::OutOfRange), and nothing is written.
pub fn encode_header(out: &mut Vec<u8>, tag: DescriptorTag, body_len: u64) -> (result: Result<(), BoxError>)
    ensures
        body_len <= MAX_BODY_LEN ==> result is Ok && final(out)@ == old(out)@ + header_bytes(tag.0, body_len as nat),
        body_len > MAX_BODY_LEN ==> result == Err::<(), BoxError>(BoxError::OutOfRange { value: body_len })
            && final(out)@ == old(out)@,
{
    if body_len > MAX_BODY_LEN {
        return Err(BoxError::OutOfRange { value: body_len });
    }
    let ghost start = out@;
    let length = size_len(body_len);
    proof {
        lemma_size_len_ranges(body_len as nat);
    }
    let n = body_len;
    out.push(tag.0);
    if length == 4 {
        out.push((128 + (n / 2097152) % 128) as u8);
    }
    if length >= 3 {
        out.push((128 + (n / 16384) % 128) as u8);
    }
    if length >= 2 {
        out.push((128 + (n / 128) % 128) as u8);
    }
    out.push((n % 128) as u8);
    proof {
        let f = size_field(n as nat, length as nat);
        assert(out@ =~= start + (seq![tag.0] + f));
    }
    Ok(())
}

/// What a [`RawDescriptor`] holds: its tag and the bytes of its body
pub struct RawDescriptorView {
    pub tag: u8,
    pub body: Seq<u8>,
}

/// The bytes a descriptor is laid out as
pub open spec fn raw_bytes(view: RawDescriptorView) -> Seq<u8> {
    descriptor_bytes(view.tag, view.body)
}

/// Reads the descriptor at `pos` of `s`, whatever its tag, and where it ends
pub open spec fn spec_decode_raw(s: Seq<u8>, pos: int) -> Result<(RawDescriptorView, int), Error> {
    match spec_decode_header(s, pos) {
        Ok((tag, start, len)) => Ok((RawDescriptorView { tag, body: s.subrange(start, start + len) }, start + len)),
        Err(failure) => Err(failure),
    }
}

/// A descriptor laid out at `pos` reads back as the descriptor it was laid out from
pub proof fn lemma_raw_round_trip(view: RawDescriptorView, s: Seq<u8>, pos: int)
    requires
        0 <= pos,
        view.body.len() <= MAX_BODY_LEN,
        pos + raw_bytes(view).len() <= s.len(),
        s.subrange(pos, pos + raw_bytes(view).len()) == raw_bytes(view),
    ensures
        raw_bytes(view).len() == spec_encoded_len(view.body.len()),
        spec_decode_raw(s, pos) == Ok::<(RawDescriptorView, int), Error>((view, pos + raw_bytes(view).len())),
{
    let h = header_bytes(view.tag, view.body.len());
    let whole = raw_bytes(view);
    assert(whole == h + view.body);
    assert(s.subrange(pos, pos + h.len()) =~= whole.subrange(0, h.len() as int));
    assert(whole.subrange(0, h.len() as int) =~= h);
    lemma_decode_header_bytes(s, pos, view.tag, view.body.len());
    assert(s.subrange(pos + h.len(), pos + h.len() + view.body.len()) =~= whole.subrange(
        h.len() as int,
        whole.len() as int,
    ));
    assert(whole.subrange(h.len() as int, whole.len() as int) =~= view.body);
}

/// Descriptor this crate has no type for, kept as its tag and the bytes of its body
///
/// A descriptor tree holds classes beyond the ones this crate reads, and each
/// is kept as one of these and written back where it stood.
#[derive(Debug)]
pub struct RawDescriptor {
    tag: DescriptorTag,
    body: Vec<u8>,
}

impl View for RawDescriptor {
    type V = RawDescriptorView;

    closed spec fn view(&self) -> RawDescriptorView {
        RawDescriptorView { tag: self.tag.0, body: self.body@ }
    }
}

impl Clone for RawDescriptor {
    fn clone(&self) -> (copy: Self)
        ensures
            copy@ == self@,
    {
        proof {
            use_type_invariant(self);
        }
        RawDescriptor { tag: self.tag, body: vstd::slice::slice_to_vec(self.body.as_slice()) }
    }
}

impl PartialEq for RawDescriptor {
    fn eq(&self, other: &Self) -> (same: bool) {
        self.tag.0 == other.tag.0 && bytes_equal(self.body.as_slice(), other.body.as_slice())
    }
}

impl vstd::std_specs::cmp::PartialEqSpecImpl for RawDescriptor {
    open spec fn obeys_eq_spec() -> bool {
        true
    }

    open spec fn eq_spec(&self, other: &Self) -> bool {
        self@ == other@
    }
}

impl Eq for RawDescriptor {}

impl RawDescriptor {
    /// Every body held fits the 28 bits an expandable size states
    #[verifier::type_invariant]
    closed spec fn inv(self) -> bool {
        self.body@.len() <= MAX_BODY_LEN
    }

    /// Creates a descriptor from its tag and the bytes of its body
    ///
    /// Returns `None` when `body` is longer than the 28 bits an expandable
    /// size can state.
    pub fn new(tag: DescriptorTag, body: Vec<u8>) -> (result: Option<Self>)
        ensures
            result is Some <==> body@.len() <= MAX_BODY_LEN,
            result matches Some(d) ==> d@ == (RawDescriptorView { tag: tag.0, body: body@ }),
    {
        if body.len() as u64 > MAX_BODY_LEN {
            return None;
        }
        Some(RawDescriptor { tag, body })
    }

    /// Creates a descriptor from a body read out of a payload
    pub fn decoded(tag: DescriptorTag, body: &[u8]) -> (d: Self)
        requires
            body@.len() <= MAX_BODY_LEN,
        ensures
            d@ == (RawDescriptorView { tag: tag.0, body: body@ }),
    {
        RawDescriptor { tag, body: vstd::slice::slice_to_vec(body) }
    }

    /// The body fits the 28 bits an expandable size states
    pub fn bounded(&self)
        ensures
            self@.body.len() <= MAX_BODY_LEN,
    {
        proof {
            use_type_invariant(self);
        }
    }

    /// Returns the tag naming the class of the descriptor
    pub fn tag(&self) -> (tag: DescriptorTag)
        ensures
            tag.0 == self@.tag,
    {
        self.tag
    }

    /// Returns the bytes of the body, tag and size excluded
    pub fn body(&self) -> (body: &[u8])
        ensures
            body@ == self@.body,
    {
        self.body.as_slice()
    }

    /// Returns the length the descriptor occupies, tag and size included
    pub fn encoded_len(&self) -> (length: u64)
        ensures
            length == spec_encoded_len(self@.body.len()),
            self@.body.len() <= MAX_BODY_LEN,
    {
        proof {
            use_type_invariant(self);
            lemma_size_len_ranges(self.body@.len());
        }
        encoded_len(self.body.len() as u64)
    }

    /// Reads the descriptor that opens `reader`, whatever its tag
    ///
    /// Fails with [`ExpandableSizeTooLong`](Error::ExpandableSizeTooLong)
    /// when the size runs past four bytes, and with a
    /// [`TruncatedPayload`](crate::bytes::BoxError::TruncatedPayload) when
    /// the payload ends inside the descriptor.
    pub fn decode(reader: &mut FieldReader<'_>) -> (result: Result<Self, Error>)
        requires
            old(reader).wf(),
        ensures
            final(reader).wf(),
            final(reader).data() == old(reader).data(),
            match spec_decode_raw(old(reader).data(), old(reader).pos()) {
                Ok((view, end)) => result is Ok && result->Ok_0@ == view && final(reader).pos() == end,
                Err(failure) => result == Err::<Self, Error>(failure),
            },
    {
        proof {
            lemma_size_from_bounds(reader.data(), 0, reader.pos() + 1, 0, 0);
            if reader.pos() + 1 <= reader.data().len() {
                lemma_size_from_bounds(reader.data(), reader.data()[reader.pos()], reader.pos() + 1, 0, 0);
            }
        }
        let (tag, body) = decode_header(reader)?;
        Ok(RawDescriptor::decoded(tag, body))
    }

    /// Writes the descriptor behind the bytes of `out`
    pub fn encode(&self, out: &mut Vec<u8>) -> (result: Result<(), Error>)
        ensures
            result is Ok,
            final(out)@ == old(out)@ + raw_bytes(self@),
    {
        proof {
            use_type_invariant(self);
        }
        match encode_header(out, self.tag, self.body.len() as u64) {
            Ok(()) => {},
            Err(failure) => return Err(Error::Box(failure)),
        }
        write_slice(out, self.body.as_slice());
        proof {
            assert(out@ =~= old(out)@ + raw_bytes(self@));
        }
        Ok(())
    }
}

/// The views of a run of descriptors
pub open spec fn raw_views(descriptors: Seq<RawDescriptor>) -> Seq<RawDescriptorView> {
    descriptors.map_values(|d: RawDescriptor| d@)
}

/// A run of descriptors laid out one after another
pub open spec fn list_bytes(views: Seq<RawDescriptorView>) -> Seq<u8>
    decreases views.len(),
{
    if views.len() == 0 {
        Seq::empty()
    } else {
        list_bytes(views.drop_last()) + raw_bytes(views.last())
    }
}

/// The length a run of descriptors occupies together
pub open spec fn list_len(views: Seq<RawDescriptorView>) -> nat
    decreases views.len(),
{
    if views.len() == 0 {
        0
    } else {
        list_len(views.drop_last()) + spec_encoded_len(views.last().body.len())
    }
}

/// Every body of a run fits the 28 bits an expandable size states
pub open spec fn list_bounded(views: Seq<RawDescriptorView>) -> bool {
    forall|i: int| 0 <= i < views.len() ==> #[trigger] views[i].body.len() <= MAX_BODY_LEN
}

/// No descriptor of a run carries `tag`
pub open spec fn list_avoids(views: Seq<RawDescriptorView>, tag: u8) -> bool {
    forall|i: int| 0 <= i < views.len() ==> #[trigger] views[i].tag != tag
}

/// A run of bounded descriptors is laid out in the length it is counted at
pub proof fn lemma_list_len(views: Seq<RawDescriptorView>)
    requires
        list_bounded(views),
    ensures
        list_bytes(views).len() == list_len(views),
    decreases views.len(),
{
    if views.len() > 0 {
        let last = views.last();
        assert(views[views.len() - 1].body.len() <= MAX_BODY_LEN);
        assert(list_bounded(views.drop_last())) by {
            assert forall|i: int| 0 <= i < views.drop_last().len() implies #[trigger] views.drop_last()[i].body.len() <= MAX_BODY_LEN by {
                assert(views.drop_last()[i] == views[i]);
            }
        }
        lemma_list_len(views.drop_last());
        let h = header_bytes(last.tag, last.body.len());
        assert(raw_bytes(last).subrange(0, h.len() as int) =~= h);
        lemma_decode_header_bytes(raw_bytes(last), 0, last.tag, last.body.len());
    }
}

/// A run laid out is its first descriptor laid out, and the rest of the run behind it
pub proof fn lemma_list_front(views: Seq<RawDescriptorView>)
    requires
        views.len() > 0,
    ensures
        list_bytes(views) == raw_bytes(views[0]) + list_bytes(views.drop_first()),
    decreases views.len(),
{
    if views.len() == 1 {
        assert(views.drop_last() =~= Seq::<RawDescriptorView>::empty());
        assert(views.drop_first() =~= Seq::<RawDescriptorView>::empty());
        assert(list_bytes(views) =~= raw_bytes(views[0]) + list_bytes(views.drop_first()));
    } else {
        lemma_list_front(views.drop_last());
        assert(views.drop_last().drop_first() =~= views.drop_first().drop_last());
        assert(views.drop_first().last() == views.last());
        assert(views.drop_last()[0] == views[0]);
        assert(list_bytes(views) =~= raw_bytes(views[0]) + list_bytes(views.drop_first()));
    }
}

/// Returns the length `descriptors` occupy together, held at the largest count where it runs past it
pub fn raw_descriptors_len(descriptors: &Vec<RawDescriptor>) -> (length: u64)
    ensures
        list_bounded(raw_views(descriptors@)),
        length == (if list_len(raw_views(descriptors@)) > u64::MAX {
            u64::MAX as nat
        } else {
            list_len(raw_views(descriptors@))
        }),
{
    let mut total: u64 = 0;
    let mut i: usize = 0;
    let ghost views = raw_views(descriptors@);
    while i < descriptors.len()
        invariant
            0 <= i <= descriptors@.len(),
            views == raw_views(descriptors@),
            list_bounded(views.take(i as int)),
            total == (if list_len(views.take(i as int)) > u64::MAX {
                u64::MAX as nat
            } else {
                list_len(views.take(i as int))
            }),
        decreases descriptors@.len() - i,
    {
        let length = descriptors[i].encoded_len();
        proof {
            let next = views.take(i + 1);
            assert(next.drop_last() =~= views.take(i as int));
            assert(next.last() == descriptors@[i as int]@);
            assert forall|j: int| 0 <= j < next.len() implies #[trigger] next[j].body.len() <= MAX_BODY_LEN by {
                if j < i {
                    assert(next[j] == views.take(i as int)[j]);
                }
            }
        }
        total = total.saturating_add(length);
        i = i + 1;
    }
    assert(views.take(descriptors@.len() as int) =~= views);
    total
}

/// Writes every descriptor of `descriptors` behind the bytes of `out`, in order
pub fn encode_list(descriptors: &Vec<RawDescriptor>, out: &mut Vec<u8>)
    ensures
        final(out)@ == old(out)@ + list_bytes(raw_views(descriptors@)),
{
    let ghost start = out@;
    let ghost views = raw_views(descriptors@);
    let mut i: usize = 0;
    while i < descriptors.len()
        invariant
            0 <= i <= descriptors@.len(),
            views == raw_views(descriptors@),
            out@ == start + list_bytes(views.take(i as int)),
        decreases descriptors@.len() - i,
    {
        let _ = descriptors[i].encode(out);
        proof {
            let next = views.take(i + 1);
            assert(next.drop_last() =~= views.take(i as int));
            assert(next.last() == descriptors@[i as int]@);
        }
        i = i + 1;
    }
    assert(views.take(descriptors@.len() as int) =~= views);
}

/// Returns a copy of every descriptor of `descriptors`, in order
pub fn clone_list(descriptors: &Vec<RawDescriptor>) -> (copy: Vec<RawDescriptor>)
    ensures
        raw_views(copy@) == raw_views(descriptors@),
{
    let mut copy: Vec<RawDescriptor> = Vec::new();
    let mut i: usize = 0;
    while i < descriptors.len()
        invariant
            0 <= i <= descriptors@.len(),
            raw_views(copy@) == raw_views(descriptors@).take(i as int),
        decreases descriptors@.len() - i,
    {
        let d = descriptors[i].clone();
        let ghost before = copy@;
        copy.push(d);
        proof {
            assert(raw_views(copy@) =~= raw_views(before).push(descriptors@[i as int]@));
            assert(raw_views(descriptors@).take(i + 1) =~= raw_views(descriptors@).take(i as int).push(descriptors@[i as int]@));
        }
        i = i + 1;
    }
    assert(raw_views(descriptors@).take(descriptors@.len() as int) =~= raw_views(descriptors@));
    copy
}

/// Returns whether two runs of descriptors hold the same descriptors in the same order
pub fn lists_equal(a: &Vec<RawDescriptor>, b: &Vec<RawDescriptor>) -> (same: bool)
    ensures
        same == (raw_views(a@) == raw_views(b@)),
{
    if a.len() != b.len() {
        assert(raw_views(a@).len() != raw_views(b@).len());
        return false;
    }
    let mut i: usize = 0;
    while i < a.len()
        invariant
            a@.len() == b@.len(),
            0 <= i <= a@.len(),
            forall|j: int| 0 <= j < i ==> raw_views(a@)[j] == raw_views(b@)[j],
        decreases a@.len() - i,
    {
        if !a[i].eq(&b[i]) {
            assert(raw_views(a@)[i as int] != raw_views(b@)[i as int]);
            return false;
        }
        i = i + 1;
    }
    assert(raw_views(a@) =~= raw_views(b@));
    true
}

/// Reads the descriptors from `pos` to the end of `s`, each behind those of `acc`
pub open spec fn spec_decode_list(s: Seq<u8>, pos: int, acc: Seq<RawDescriptorView>) -> Result<Seq<RawDescriptorView>, Error>
    decreases s.len() - pos,
{
    if pos < 0 || pos >= s.len() {
        Ok(acc)
    } else {
        match spec_decode_raw(s, pos) {
            Ok((view, end)) => {
                proof {
                    lemma_decode_raw_bounds(s, pos);
                }
                spec_decode_list(s, end, acc.push(view))
            },
            Err(failure) => Err(failure),
        }
    }
}

/// A descriptor read ends past where it starts, its body bounded
pub proof fn lemma_decode_raw_bounds(s: Seq<u8>, pos: int)
    requires
        0 <= pos,
    ensures
        spec_decode_raw(s, pos) matches Ok((view, end)) ==> pos < end <= s.len() && view.body.len() <= MAX_BODY_LEN
            && view.body == s.subrange(end - view.body.len(), end),
{
    if pos + 1 <= s.len() {
        lemma_size_from_bounds(s, s[pos], pos + 1, 0, 0);
    }
}

/// A run laid out to the end of the bytes reads back as the run
pub proof fn lemma_list_round_trip(views: Seq<RawDescriptorView>, s: Seq<u8>, pos: int, acc: Seq<RawDescriptorView>)
    requires
        0 <= pos <= s.len(),
        list_bounded(views),
        s.subrange(pos, s.len() as int) == list_bytes(views),
    ensures
        spec_decode_list(s, pos, acc) == Ok::<Seq<RawDescriptorView>, Error>(acc + views),
    decreases views.len(),
{
    if views.len() == 0 {
        assert(acc + views =~= acc);
        assert(s.subrange(pos, s.len() as int).len() == 0);
    } else {
        lemma_list_front(views);
        let first = views[0];
        let rest = views.drop_first();
        let n = raw_bytes(first).len();
        assert(first.body.len() <= MAX_BODY_LEN);
        assert(list_bytes(views).len() == n + list_bytes(rest).len());
        assert(s.subrange(pos, s.len() as int).len() == s.len() - pos);
        assert(s.subrange(pos, pos + n) =~= s.subrange(pos, s.len() as int).subrange(0, n as int));
        assert(list_bytes(views).subrange(0, n as int) =~= raw_bytes(first));
        lemma_raw_round_trip(first, s, pos);
        assert(s.subrange(pos + n, s.len() as int) =~= s.subrange(pos, s.len() as int).subrange(n as int, s.len() - pos));
        assert(list_bytes(views).subrange(n as int, list_bytes(views).len() as int) =~= list_bytes(rest));
        assert(list_bounded(rest)) by {
            assert forall|i: int| 0 <= i < rest.len() implies #[trigger] rest[i].body.len() <= MAX_BODY_LEN by {
                assert(rest[i] == views[i + 1]);
            }
        }
        assert(n > 0);
        lemma_list_round_trip(rest, s, pos + n, acc.push(first));
        assert(acc.push(first) + rest =~= acc + views);
    }
}

} // verus!

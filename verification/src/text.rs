//! Failures written out as text a reader takes in

use vstd::prelude::*;
use vstd::string::{StrSliceExecFns, StringExecFns};

use crate::sequence::header::BoxType;

verus! {

/// The digit `d` is written as
pub open spec fn digit(d: nat) -> char {
    if d == 0 { '0' } else if d == 1 { '1' } else if d == 2 { '2' } else if d == 3 { '3' } else if d == 4 { '4' }
    else if d == 5 { '5' } else if d == 6 { '6' } else if d == 7 { '7' } else if d == 8 { '8' } else { '9' }
}

/// `n` written in decimal, with no leading zero
pub open spec fn decimal(n: nat) -> Seq<char>
    decreases n,
{
    if n < 10 {
        seq![digit(n)]
    } else {
        decimal(n / 10).push(digit(n % 10))
    }
}

/// Appends `n`, written in decimal, to `out`
pub fn push_decimal(out: &mut String, n: u64)
    ensures
        final(out)@ == old(out)@ + decimal(n as nat),
    decreases n,
{
    if n >= 10 {
        push_decimal(out, n / 10);
    }
    let d = n % 10;
    let text = if d == 0 { "0" } else if d == 1 { "1" } else if d == 2 { "2" } else if d == 3 { "3" } else if d == 4 { "4" }
        else if d == 5 { "5" } else if d == 6 { "6" } else if d == 7 { "7" } else if d == 8 { "8" } else { "9" };
    proof {
        reveal_strlit("0");
        reveal_strlit("1");
        reveal_strlit("2");
        reveal_strlit("3");
        reveal_strlit("4");
        reveal_strlit("5");
        reveal_strlit("6");
        reveal_strlit("7");
        reveal_strlit("8");
        reveal_strlit("9");
        assert(text@ == seq![digit(d as nat)]);
    }
    let ghost before = out@;
    out.append(text);
    proof {
        if n >= 10 {
            assert(decimal(n as nat) == decimal((n / 10) as nat).push(digit((n % 10) as nat)));
        }
        assert(before + seq![digit(d as nat)] =~= before.push(digit(d as nat)));
    }
}

/// The characters of ASCII that print as themselves, from the space on
pub open spec fn printable() -> Seq<char> {
    " !\"#$%&'()*+,-./0123456789:;<=>?@ABCDEFGHIJKLMNOPQRSTUVWXYZ[\\]^_`abcdefghijklmnopqrstuvwxyz{|}~"@
}

/// The hexadecimal digit `d` is written as
pub open spec fn hex_digit(d: nat) -> char {
    "0123456789abcdef"@[d as int]
}

/// The `width` lowest hexadecimal digits of `n`
pub open spec fn hex(n: nat, width: nat) -> Seq<char>
    decreases width,
{
    if width == 0 {
        Seq::empty()
    } else {
        hex(n / 16, (width - 1) as nat).push(hex_digit(n % 16))
    }
}

/// `n` written in decimal, with a minus sign in front where it is negative
pub open spec fn signed_decimal(n: int) -> Seq<char> {
    if n < 0 {
        "-"@ + decimal((-n) as nat)
    } else {
        decimal(n as nat)
    }
}

/// The byte `b` of a box type written as the character it is, or as an escape where it does not print
pub open spec fn byte_text(b: u8) -> Seq<char> {
    if 0x20 <= b <= 0x7e {
        printable().subrange(b - 0x20, b - 0x1f)
    } else {
        "\\x"@ + hex(b as nat, 2)
    }
}

/// The four characters of the compact box type `box_type`, written as [`byte_text`] has them
pub open spec fn fourcc_text(box_type: u32) -> Seq<char> {
    byte_text((box_type / 0x100_0000) as u8) + byte_text(((box_type / 0x1_0000) % 0x100) as u8)
        + byte_text(((box_type / 0x100) % 0x100) as u8) + byte_text((box_type % 0x100) as u8)
}

/// The bytes `bytes` written as two hexadecimal digits each
pub open spec fn hex_bytes(bytes: Seq<u8>) -> Seq<char>
    decreases bytes.len(),
{
    if bytes.len() == 0 {
        Seq::empty()
    } else {
        hex_bytes(bytes.drop_last()) + hex(bytes.last() as nat, 2)
    }
}

/// A box type written out: its four characters, or `uuid:` and the `usertype` in hexadecimal
pub open spec fn box_type_text(box_type: BoxType) -> Seq<char> {
    match box_type {
        BoxType::Compact(fourcc) => fourcc_text(fourcc),
        BoxType::Extended(user_type) => "uuid:"@ + hex_bytes(user_type.0@),
    }
}

/// Appends the `width` lowest hexadecimal digits of `n` to `out`
pub fn push_hex(out: &mut String, n: u64, width: u64)
    ensures
        final(out)@ == old(out)@ + hex(n as nat, width as nat),
    decreases width,
{
    if width > 0 {
        push_hex(out, n / 16, width - 1);
        let digits = "0123456789abcdef";
        proof {
            reveal_strlit("0123456789abcdef");
        }
        let d = (n % 16) as usize;
        let ghost before = out@;
        out.append(digits.substring_char(d, d + 1));
        proof {
            assert(digits@.subrange(d as int, d + 1) =~= seq![hex_digit(d as nat)]);
            assert(before + seq![hex_digit(d as nat)] =~= before.push(hex_digit(d as nat)));
        }
    }
}

/// Appends `n`, written in decimal with a minus sign where it is negative, to `out`
pub fn push_signed(out: &mut String, n: i64)
    ensures
        final(out)@ == old(out)@ + signed_decimal(n as int),
{
    if n < 0 {
        out.append("-");
        let magnitude: u64 = if n == i64::MIN { 0x8000_0000_0000_0000 } else { (-n) as u64 };
        let ghost before = out@;
        push_decimal(out, magnitude);
        proof {
            assert(old(out)@ + ("-"@ + decimal((-n) as nat)) =~= before + decimal(magnitude as nat));
        }
    } else {
        push_decimal(out, n as u64);
    }
}

/// Appends the byte `b` of a box type to `out`, written as [`byte_text`] has it
pub fn push_byte(out: &mut String, b: u8)
    ensures
        final(out)@ == old(out)@ + byte_text(b),
{
    if 0x20 <= b && b <= 0x7e {
        let table = " !\"#$%&'()*+,-./0123456789:;<=>?@ABCDEFGHIJKLMNOPQRSTUVWXYZ[\\]^_`abcdefghijklmnopqrstuvwxyz{|}~";
        proof {
            reveal_strlit(" !\"#$%&'()*+,-./0123456789:;<=>?@ABCDEFGHIJKLMNOPQRSTUVWXYZ[\\]^_`abcdefghijklmnopqrstuvwxyz{|}~");
        }
        let at = (b - 0x20) as usize;
        out.append(table.substring_char(at, at + 1));
    } else {
        let ghost before = out@;
        out.append("\\x");
        push_hex(out, b as u64, 2);
        proof {
            assert(before + ("\\x"@ + hex(b as nat, 2)) =~= before + "\\x"@ + hex(b as nat, 2));
        }
    }
}

/// Appends the four characters of the compact box type `box_type` to `out`
pub fn push_fourcc(out: &mut String, box_type: u32)
    ensures
        final(out)@ == old(out)@ + fourcc_text(box_type),
{
    let ghost before = out@;
    push_byte(out, (box_type / 0x100_0000) as u8);
    push_byte(out, ((box_type / 0x1_0000) % 0x100) as u8);
    push_byte(out, ((box_type / 0x100) % 0x100) as u8);
    push_byte(out, (box_type % 0x100) as u8);
    proof {
        let a = byte_text((box_type / 0x100_0000) as u8);
        let b = byte_text(((box_type / 0x1_0000) % 0x100) as u8);
        let c = byte_text(((box_type / 0x100) % 0x100) as u8);
        let d = byte_text((box_type % 0x100) as u8);
        assert(before + a + b + c + d =~= before + (a + b + c + d));
    }
}

/// Appends the box type `box_type` to `out`, written as [`box_type_text`] has it
pub fn push_box_type(out: &mut String, box_type: BoxType)
    ensures
        final(out)@ == old(out)@ + box_type_text(box_type),
{
    match box_type {
        BoxType::Compact(fourcc) => push_fourcc(out, fourcc),
        BoxType::Extended(user_type) => {
            let ghost before = out@;
            out.append("uuid:");
            let bytes = user_type.0;
            let mut i: usize = 0;
            while i < 16
                invariant
                    0 <= i <= 16,
                    bytes@.len() == 16,
                    bytes == user_type.0,
                    out@ == before + "uuid:"@ + hex_bytes(bytes@.take(i as int)),
                decreases 16 - i,
            {
                push_hex(out, bytes[i] as u64, 2);
                proof {
                    assert(bytes@.take(i + 1).drop_last() =~= bytes@.take(i as int));
                }
                i = i + 1;
            }
            proof {
                assert(bytes@.take(16) =~= bytes@);
                assert(before + "uuid:"@ + hex_bytes(bytes@) =~= before + ("uuid:"@ + hex_bytes(bytes@)));
            }
        },
    }
}

} // verus!

//! Text as sequences of characters: rendering numbers, comparing and
//! decoding strings.

use vstd::prelude::*;
use vstd::utf8::{decode_utf8, valid_utf8};

verus! {

/// `String::push` appends one character to the end of the string and leaves
/// what was there before untouched.
pub assume_specification[ String::push ](s: &mut String, c: char)
    ensures
        final(s)@ == old(s)@.push(c),
;

/// `std::str::from_utf8` accepts exactly the byte strings that are well-formed
/// UTF-8, and the text it hands back is what those bytes decode to.
#[verifier::external_body]
pub(crate) fn utf8_to_str(bytes: &[u8]) -> (r: Option<&str>)
    ensures
        r is Some <==> valid_utf8(bytes@),
        r matches Some(s) ==> s@ == decode_utf8(bytes@),
{
    std::str::from_utf8(bytes).ok()
}

/// The sixteen digits, in order of their value.
pub open spec fn digit_chars() -> Seq<char> {
    seq!['0', '1', '2', '3', '4', '5', '6', '7', '8', '9', 'a', 'b', 'c', 'd', 'e', 'f']
}

/// The lower-case digit that stands for `d`, for `d` below sixteen.
pub open spec fn digit_char(d: int) -> char
    recommends
        0 <= d < 16,
{
    digit_chars()[d]
}

/// `v` in decimal, without sign or leading zeros.
pub open spec fn decimal(v: nat) -> Seq<char>
    decreases v,
{
    if v < 10 {
        seq![digit_char(v as int)]
    } else {
        decimal(v / 10).push(digit_char((v % 10) as int))
    }
}

/// `v` in lower-case hexadecimal, without prefix or leading zeros.
pub open spec fn lower_hex(v: nat) -> Seq<char>
    decreases v,
{
    if v < 16 {
        seq![digit_char(v as int)]
    } else {
        lower_hex(v / 16).push(digit_char((v % 16) as int))
    }
}

/// `v` as eight lower-case hexadecimal digits, zeros in front where needed.
pub open spec fn hex8(v: u32) -> Seq<char> {
    seq![
        digit_char(v as int / 0x1000_0000 % 16),
        digit_char(v as int / 0x100_0000 % 16),
        digit_char(v as int / 0x10_0000 % 16),
        digit_char(v as int / 0x1_0000 % 16),
        digit_char(v as int / 0x1000 % 16),
        digit_char(v as int / 0x100 % 16),
        digit_char(v as int / 0x10 % 16),
        digit_char(v as int % 16),
    ]
}

/// `v` as `0x` and its hexadecimal digits.
pub open spec fn prefixed_hex(v: nat) -> Seq<char> {
    "0x"@ + lower_hex(v)
}

pub(crate) fn digit_to_char(d: u64) -> (c: char)
    requires
        d < 16,
    ensures
        c == digit_char(d as int),
{
    if d == 0 {
        '0'
    } else if d == 1 {
        '1'
    } else if d == 2 {
        '2'
    } else if d == 3 {
        '3'
    } else if d == 4 {
        '4'
    } else if d == 5 {
        '5'
    } else if d == 6 {
        '6'
    } else if d == 7 {
        '7'
    } else if d == 8 {
        '8'
    } else if d == 9 {
        '9'
    } else if d == 10 {
        'a'
    } else if d == 11 {
        'b'
    } else if d == 12 {
        'c'
    } else if d == 13 {
        'd'
    } else if d == 14 {
        'e'
    } else {
        'f'
    }
}

/// Appends `v` in decimal to `out`.
pub(crate) fn push_decimal(out: &mut String, v: u64)
    ensures
        final(out)@ == old(out)@ + decimal(v as nat),
    decreases v,
{
    if v >= 10 {
        push_decimal(out, v / 10);
    }
    out.push(digit_to_char(v % 10));
    proof {
        assert(final(out)@ =~= old(out)@ + decimal(v as nat));
    }
}

/// Appends `v` in lower-case hexadecimal to `out`.
pub(crate) fn push_lower_hex(out: &mut String, v: u64)
    ensures
        final(out)@ == old(out)@ + lower_hex(v as nat),
    decreases v,
{
    if v >= 16 {
        push_lower_hex(out, v / 16);
    }
    out.push(digit_to_char(v % 16));
    proof {
        assert(final(out)@ =~= old(out)@ + lower_hex(v as nat));
    }
}

/// Appends `v` as eight hexadecimal digits to `out`.
pub(crate) fn push_hex8(out: &mut String, v: u32)
    ensures
        final(out)@ == old(out)@ + hex8(v),
{
    let w: u64 = v as u64;
    out.push(digit_to_char(w / 0x1000_0000 % 16));
    out.push(digit_to_char(w / 0x100_0000 % 16));
    out.push(digit_to_char(w / 0x10_0000 % 16));
    out.push(digit_to_char(w / 0x1_0000 % 16));
    out.push(digit_to_char(w / 0x1000 % 16));
    out.push(digit_to_char(w / 0x100 % 16));
    out.push(digit_to_char(w / 0x10 % 16));
    out.push(digit_to_char(w % 16));
    proof {
        assert(final(out)@ =~= old(out)@ + hex8(v));
    }
}

/// `v` in decimal.
pub fn to_decimal(v: u32) -> (s: String)
    ensures
        s@ == decimal(v as nat),
{
    let mut s = String::new();
    push_decimal(&mut s, v as u64);
    proof {
        assert(Seq::<char>::empty() + decimal(v as nat) =~= decimal(v as nat));
    }
    s
}

/// `v` in lower-case hexadecimal.
pub fn to_lower_hex(v: u32) -> (s: String)
    ensures
        s@ == lower_hex(v as nat),
{
    let mut s = String::new();
    push_lower_hex(&mut s, v as u64);
    proof {
        assert(Seq::<char>::empty() + lower_hex(v as nat) =~= lower_hex(v as nat));
    }
    s
}

/// True when the two strings hold the same characters.
pub fn str_equal(a: &str, b: &str) -> (same: bool)
    ensures
        same == (a@ == b@),
{
    let n = a.unicode_len();
    if n != b.unicode_len() {
        return false;
    }
    let mut i: usize = 0;
    while i < n
        invariant
            i <= n,
            n == a@.len(),
            n == b@.len(),
            forall|k: int| 0 <= k < i ==> a@[k] == b@[k],
        decreases n - i,
    {
        if a.get_char(i) != b.get_char(i) {
            return false;
        }
        i += 1;
    }
    proof {
        assert(a@ =~= b@);
    }
    true
}

} // verus!

//! Character classes and the escape sequences of the emitter.

use vstd::prelude::*;

verus! {

/// Whether `c` has the Unicode property White_Space: the tab, the line
/// feed, the vertical tab, the form feed, the carriage return, the space,
/// U+0085, U+00A0, U+1680, U+2000 to U+200A, U+2028, U+2029, U+202F, U+205F
/// and U+3000.
pub open spec fn unicode_whitespace(c: char) -> bool {
    let v = c as u32;
    (0x09 <= v && v <= 0x0d) || v == 0x20 || v == 0x85 || v == 0xa0 || v == 0x1680 || (0x2000 <= v
        && v <= 0x200a) || v == 0x2028 || v == 0x2029 || v == 0x202f || v == 0x205f || v == 0x3000
}

/// Whether a scalar beyond ASCII has the Unicode property Alphabetic.
pub uninterp spec fn unicode_alphabetic(c: char) -> bool;

/// The letters `A` to `Z` and `a` to `z`.
pub open spec fn ascii_letter(c: char) -> bool {
    ('A' <= c && c <= 'Z') || ('a' <= c && c <= 'z')
}

/// Whether `c` has the Unicode property Alphabetic: an ASCII scalar has
/// it where it is a letter.
pub open spec fn alphabetic(c: char) -> bool {
    if c as u32 <= 0x7f {
        ascii_letter(c)
    } else {
        unicode_alphabetic(c)
    }
}

/// Calls `char::is_whitespace`. Trusted: std documents the result as the
/// property White_Space of the Unicode Character Database, which the code
/// points that `unicode_whitespace` lists have and no others.
#[verifier::external_body]
pub(crate) fn is_whitespace(c: char) -> (b: bool)
    ensures
        b == unicode_whitespace(c),
{
    c.is_whitespace()
}

/// Calls `char::is_alphabetic`. Trusted: std documents the result as the
/// property Alphabetic of the Unicode Character Database. Of the ASCII
/// scalars the letters have it and no others; beyond ASCII the property
/// is only named.
#[verifier::external_body]
pub(crate) fn is_alphabetic(c: char) -> (b: bool)
    ensures
        c as u32 <= 0x7f ==> b == ascii_letter(c),
        c as u32 > 0x7f ==> b == unicode_alphabetic(c),
        b == alphabetic(c),
{
    c.is_alphabetic()
}

/// The characters that end an unquoted token: `,` `}` `]` `:`.
pub open spec fn structural(c: char) -> bool {
    c == ',' || c == '}' || c == ']' || c == ':'
}

pub fn is_structural(c: char) -> (b: bool)
    ensures
        b == structural(c),
{
    c == ',' || c == '}' || c == ']' || c == ':'
}

/// The decimal digits `0` to `9`.
pub open spec fn ascii_digit(c: char) -> bool {
    '0' <= c && c <= '9'
}

pub fn is_ascii_digit(c: char) -> (b: bool)
    ensures
        b == ascii_digit(c),
{
    '0' <= c && c <= '9'
}

/// The scalars up to U+007F.
pub open spec fn ascii(c: char) -> bool {
    c as u32 <= 0x7f
}

pub fn is_ascii(c: char) -> (b: bool)
    ensures
        b == ascii(c),
{
    c as u32 <= 0x7f
}

/// `c` with the letters `A` to `Z` replaced by `a` to `z`.
pub open spec fn ascii_lower(c: char) -> char {
    if 'A' <= c && c <= 'Z' {
        ((c as u8 + 32) as u8) as char
    } else {
        c
    }
}

pub fn lower(c: char) -> (l: char)
    ensures
        l == ascii_lower(c),
{
    if 'A' <= c && c <= 'Z' {
        ((c as u8) + 32) as char
    } else {
        c
    }
}

/// The lower-case hexadecimal digit for `n`, taken modulo 16.
pub open spec fn hex_digit(n: int) -> char {
    let d = n % 16;
    if d == 0 {
        '0'
    } else if d == 1 {
        '1'
    } else if d == 2 {
        '2'
    } else if d == 3 {
        '3'
    } else if d == 4 {
        '4'
    } else if d == 5 {
        '5'
    } else if d == 6 {
        '6'
    } else if d == 7 {
        '7'
    } else if d == 8 {
        '8'
    } else if d == 9 {
        '9'
    } else if d == 10 {
        'a'
    } else if d == 11 {
        'b'
    } else if d == 12 {
        'c'
    } else if d == 13 {
        'd'
    } else if d == 14 {
        'e'
    } else {
        'f'
    }
}

pub fn hex_digit_of(n: u32) -> (c: char)
    ensures
        c == hex_digit(n as int),
        ascii(c),
{
    let d: u32 = n % 16;
    if d == 0 {
        '0'
    } else if d == 1 {
        '1'
    } else if d == 2 {
        '2'
    } else if d == 3 {
        '3'
    } else if d == 4 {
        '4'
    } else if d == 5 {
        '5'
    } else if d == 6 {
        '6'
    } else if d == 7 {
        '7'
    } else if d == 8 {
        '8'
    } else if d == 9 {
        '9'
    } else if d == 10 {
        'a'
    } else if d == 11 {
        'b'
    } else if d == 12 {
        'c'
    } else if d == 13 {
        'd'
    } else if d == 14 {
        'e'
    } else {
        'f'
    }
}

/// The escape `\uXXXX` of one UTF-16 code unit.
pub open spec fn unit_escape(v: int) -> Seq<char> {
    seq!['\\', 'u', hex_digit(v / 4096), hex_digit(v / 256), hex_digit(v / 16), hex_digit(v)]
}

/// The escape of a scalar: one unit for the basic plane, a surrogate pair
/// above it.
pub open spec fn scalar_escape(v: int) -> Seq<char> {
    if v < 0x10000 {
        unit_escape(v)
    } else {
        unit_escape(0xd800 + (v - 0x10000) / 1024) + unit_escape(0xdc00 + (v - 0x10000) % 1024)
    }
}

/// What the emitter writes for a scalar of string content: the scalar
/// itself, or its escape where output is held to ASCII and it is not ASCII.
pub open spec fn emitted_scalar(c: char, ensure_ascii: bool) -> Seq<char> {
    if !ensure_ascii || ascii(c) {
        seq![c]
    } else {
        scalar_escape(c as int)
    }
}

/// Every scalar of `s` is ASCII.
pub open spec fn all_ascii(s: Seq<char>) -> bool {
    forall|i: int| 0 <= i < s.len() ==> ascii(#[trigger] s[i])
}

fn push_unit_escape(out: &mut Vec<char>, v: u32)
    requires
        v < 0x10000,
    ensures
        final(out)@ == old(out)@ + unit_escape(v as int),
{
    out.push('\\');
    out.push('u');
    out.push(hex_digit_of(v / 4096));
    out.push(hex_digit_of(v / 256));
    out.push(hex_digit_of(v / 16));
    out.push(hex_digit_of(v));
    assert(out@ =~= old(out)@ + unit_escape(v as int));
}

/// Appends what the emitter writes for one scalar of string content.
pub fn push_scalar(out: &mut Vec<char>, c: char, ensure_ascii: bool)
    ensures
        final(out)@ == old(out)@ + emitted_scalar(c, ensure_ascii),
{
    if !ensure_ascii || is_ascii(c) {
        out.push(c);
        assert(out@ =~= old(out)@ + emitted_scalar(c, ensure_ascii));
    } else {
        let v: u32 = c as u32;
        if v < 0x10000 {
            push_unit_escape(out, v);
        } else {
            let w: u32 = v - 0x10000;
            push_unit_escape(out, 0xd800 + w / 1024);
            push_unit_escape(out, 0xdc00 + w % 1024);
            assert(out@ =~= old(out)@ + emitted_scalar(c, ensure_ascii));
        }
    }
}

/// Appends the scalars of `tail` to `out`.
pub fn push_all(out: &mut Vec<char>, tail: &Vec<char>)
    ensures
        final(out)@ == old(out)@ + tail@,
{
    let mut i: usize = 0;
    while i < tail.len()
        invariant
            i <= tail.len(),
            out@ == old(out)@ + tail@.take(i as int),
        decreases tail.len() - i,
    {
        out.push(tail[i]);
        i = i + 1;
        assert(out@ =~= old(out)@ + tail@.take(i as int));
    }
    assert(tail@.take(tail.len() as int) =~= tail@);
}

} // verus!

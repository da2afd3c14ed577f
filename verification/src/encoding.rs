//! Little-endian integer layout and UTF-16 code units, as HWP records store them.

use vstd::prelude::*;

verus! {

/// The two bytes of `v`, least significant first.
pub open spec fn le_u16(v: u16) -> Seq<u8> {
    seq![(v % 256) as u8, (v / 256) as u8]
}

/// The four bytes of `v`, least significant first.
pub open spec fn le_u32(v: u32) -> Seq<u8> {
    seq![(v % 256) as u8, ((v / 256) % 256) as u8, ((v / 65536) % 256) as u8, (v / 16777216) as u8]
}

/// Two's-complement bit pattern of an `i8`.
pub open spec fn bits_i8(v: i8) -> u8 {
    if v >= 0 { v as u8 } else { (v + 256) as u8 }
}

/// Two's-complement bit pattern of an `i16`.
pub open spec fn bits_i16(v: i16) -> u16 {
    if v >= 0 { v as u16 } else { (v + 65536) as u16 }
}

/// Two's-complement bit pattern of an `i32`.
pub open spec fn bits_i32(v: i32) -> u32 {
    if v >= 0 { v as u32 } else { (v + 0x1_0000_0000) as u32 }
}

/// UTF-16 code units of one character (a surrogate pair above the BMP).
pub open spec fn utf16_of_char(c: char) -> Seq<u16> {
    let v = c as u32;
    if v < 0x10000 {
        seq![v as u16]
    } else {
        let w = (v - 0x10000) as int;
        seq![(0xD800 + w / 1024) as u16, (0xDC00 + w % 1024) as u16]
    }
}

/// UTF-16 encoding of a character sequence.
pub open spec fn encode_utf16(s: Seq<char>) -> Seq<u16>
    decreases s.len(),
{
    if s.len() == 0 {
        Seq::empty()
    } else {
        encode_utf16(s.drop_last()) + utf16_of_char(s.last())
    }
}

/// Little-endian bytes of a sequence of 16-bit units.
pub open spec fn le_u16_seq(units: Seq<u16>) -> Seq<u8>
    decreases units.len(),
{
    if units.len() == 0 {
        Seq::empty()
    } else {
        le_u16_seq(units.drop_last()) + le_u16(units.last())
    }
}

/// Each 16-bit unit takes two bytes.
pub proof fn lemma_le_u16_seq_len(units: Seq<u16>)
    ensures
        le_u16_seq(units).len() == 2 * units.len(),
    decreases units.len(),
{
    if units.len() > 0 {
        lemma_le_u16_seq_len(units.drop_last());
    }
}

/// Number of UTF-16 code units of a character.
pub fn char_utf16_len(c: char) -> (n: usize)
    ensures
        n == utf16_of_char(c).len(),
        n == 1 || n == 2,
{
    if (c as u32) < 0x10000 {
        1
    } else {
        2
    }
}

/// UTF-16 code units of a character.
pub fn char_to_utf16(c: char) -> (units: Vec<u16>)
    ensures
        units@ == utf16_of_char(c),
{
    let v = c as u32;
    let mut units: Vec<u16> = Vec::new();
    if v < 0x10000 {
        units.push(v as u16);
    } else {
        assert(v <= 0x10FFFF);
        let w: u32 = v - 0x10000;
        units.push((0xD800 + w / 1024) as u16);
        units.push((0xDC00 + w % 1024) as u16);
    }
    assert(units@ =~= utf16_of_char(c));
    units
}

/// Appends a character to a string.
#[verifier::external_body]
pub(crate) fn push_char(s: &mut String, c: char)
    ensures
        final(s)@ == old(s)@.push(c),
{
    s.push(c);
}

/// The characters of a string slice, in order.
pub fn chars_of(s: &str) -> (v: Vec<char>)
    ensures
        v@ == s@,
{
    let mut v: Vec<char> = Vec::new();
    let mut it = s.chars();
    proof {
        broadcast use vstd::string::group_string_axioms;
    }
    loop
        invariant
            v@ + vstd::std_specs::iter::IteratorSpec::remaining(&it) == s@,
        decreases s@.len() - v@.len(),
    {
        match it.next() {
            Some(c) => {
                v.push(c);
            },
            None => {
                assert(v@ =~= s@);
                return v;
            },
        }
    }
}



/// Whether a code unit is a leading (high) surrogate.
pub open spec fn is_high_surrogate(u: u16) -> bool {
    0xD800 <= u <= 0xDBFF
}

/// Whether a code unit is a trailing (low) surrogate.
pub open spec fn is_low_surrogate(u: u16) -> bool {
    0xDC00 <= u <= 0xDFFF
}

/// Lossy UTF-16 decoding: a surrogate pair gives one character, a surrogate
/// that is not part of a pair gives U+FFFD, any other unit gives itself.
pub open spec fn decode_utf16(units: Seq<u16>) -> Seq<char>
    decreases units.len(),
{
    if units.len() == 0 {
        Seq::empty()
    } else if units.len() >= 2 && is_high_surrogate(units[0]) && is_low_surrogate(units[1]) {
        seq![((0x10000 + (units[0] - 0xD800) * 1024 + (units[1] - 0xDC00)) as u32) as char]
            + decode_utf16(units.subrange(2, units.len() as int))
    } else if 0xD800 <= units[0] <= 0xDFFF {
        seq!['\u{FFFD}'] + decode_utf16(units.subrange(1, units.len() as int))
    } else {
        seq![(units[0] as u32) as char] + decode_utf16(units.subrange(1, units.len() as int))
    }
}

/// Encoding a concatenation concatenates the encodings.
pub proof fn lemma_encode_utf16_append(a: Seq<char>, b: Seq<char>)
    ensures
        encode_utf16(a + b) == encode_utf16(a) + encode_utf16(b),
    decreases b.len(),
{
    if b.len() == 0 {
        assert(a + b =~= a);
        assert(encode_utf16(a) + encode_utf16(b) =~= encode_utf16(a));
    } else {
        lemma_encode_utf16_append(a, b.drop_last());
        assert((a + b).drop_last() =~= a + b.drop_last());
        assert((a + b).last() == b.last());
        assert(encode_utf16(a) + encode_utf16(b) =~= encode_utf16(a) + encode_utf16(b.drop_last())
            + utf16_of_char(b.last()));
    }
}

/// Decoding the units of one character, followed by more units, gives the
/// character back first.
pub proof fn lemma_decode_one_char(c: char, rest: Seq<u16>)
    ensures
        decode_utf16(utf16_of_char(c) + rest) == seq![c] + decode_utf16(rest),
{
    let v = c as u32;
    vstd::utf8::char_is_scalar(c);
    let units = utf16_of_char(c) + rest;
    if v < 0x10000 {
        assert(!(0xD800 <= v <= 0xDFFF));
        assert(units[0] == v as u16);
        assert(units.subrange(1, units.len() as int) =~= rest);
        assert(((v as u16) as u32) as char == c) by {
            vstd::utf8::char_u32_cast(c, v);
        }
    } else {
        let w = (v - 0x10000) as int;
        assert(0 <= w <= 0xFFFFF);
        assert(w / 1024 <= 1023) by (nonlinear_arith)
            requires 0 <= w <= 0xFFFFF;
        assert(0 <= w % 1024 < 1024) by (nonlinear_arith)
            requires 0 <= w;
        assert(w == (w / 1024) * 1024 + w % 1024) by (nonlinear_arith);
        let hi = (0xD800 + w / 1024) as u16;
        let lo = (0xDC00 + w % 1024) as u16;
        assert(units[0] == hi && units[1] == lo);
        assert(is_high_surrogate(hi) && is_low_surrogate(lo));
        assert(0x10000 + (hi - 0xD800) * 1024 + (lo - 0xDC00) == v);
        assert(units.subrange(2, units.len() as int) =~= rest);
        assert((v as u32) as char == c) by {
            vstd::utf8::char_u32_cast(c, v);
        }
    }
}

/// Decoding the UTF-16 encoding of a character sequence gives it back.
pub proof fn lemma_decode_encode_utf16(s: Seq<char>)
    ensures
        decode_utf16(encode_utf16(s)) == s,
    decreases s.len(),
{
    if s.len() > 0 {
        let rest = s.subrange(1, s.len() as int);
        assert(s =~= seq![s[0]] + rest);
        lemma_encode_utf16_append(seq![s[0]], rest);
        assert(seq![s[0]].drop_last() =~= Seq::<char>::empty());
        assert(encode_utf16(seq![s[0]].drop_last()) == Seq::<u16>::empty());
        assert(seq![s[0]].last() == s[0]);
        assert(encode_utf16(seq![s[0]]) =~= utf16_of_char(s[0]));
        lemma_decode_one_char(s[0], encode_utf16(rest));
        lemma_decode_encode_utf16(rest);
    } else {
        assert(s =~= Seq::<char>::empty());
    }
}

/// The character with a given scalar value, if there is one.
#[verifier::external_body]
pub(crate) fn char_from_u32(v: u32) -> (r: Option<char>)
    ensures
        r is Some <==> (v <= 0x10FFFF && !(0xD800 <= v <= 0xDFFF)),
        r matches Some(c) ==> c as u32 == v,
{
    char::from_u32(v)
}

} // verus!

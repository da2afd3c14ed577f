//! Sequential reader for the binary fields inside HWP records.
//!
//! Little-endian integers and length-prefixed UTF-16LE strings; the inverse
//! of `ByteWriter`.

use vstd::prelude::*;
use crate::encoding::{
    bits_i16, bits_i32, char_from_u32, decode_utf16, encode_utf16, le_u16, le_u16_seq, le_u32, lemma_decode_encode_utf16,
    lemma_le_u16_seq_len, push_char,
};
use crate::error::HwpError;
use crate::serializer::byte_writer::hwp_string_bytes;

verus! {

/// The `u16` whose little-endian bytes start `b`.
pub open spec fn u16_at(b: Seq<u8>, i: int) -> u16 {
    (b[i] + 256 * b[i + 1]) as u16
}

/// The `u32` whose little-endian bytes start at `b[i]`.
pub open spec fn u32_at(b: Seq<u8>, i: int) -> u32 {
    (b[i] + 256 * b[i + 1] + 65536 * b[i + 2] + 16777216 * b[i + 3]) as u32
}

/// The `i16` with a given two's-complement bit pattern.
pub open spec fn i16_of_bits(u: u16) -> i16 {
    if u < 0x8000 { u as i16 } else { (u - 65536) as i16 }
}

/// The `i32` with a given two's-complement bit pattern.
pub open spec fn i32_of_bits(u: u32) -> i32 {
    if u < 0x8000_0000 { u as i32 } else { (u - 0x1_0000_0000) as i32 }
}

/// The 16-bit units whose little-endian bytes are `b` (of even length).
pub open spec fn units_of_le(b: Seq<u8>) -> Seq<u16> {
    Seq::new(b.len() / 2, |k: int| u16_at(b, 2 * k))
}

/// What `read_hwp_string` reads from the front of `b`: the string and the
/// number of bytes it takes, or `None` where `b` is too short.
pub open spec fn parse_hwp_string(b: Seq<u8>) -> Option<(Seq<char>, nat)> {
    if b.len() < 2 {
        None
    } else {
        let n = u16_at(b, 0) as nat;
        if b.len() < 2 + 2 * n {
            None
        } else {
            Some((decode_utf16(units_of_le(b.subrange(2, (2 + 2 * n) as int))), (2 + 2 * n) as nat))
        }
    }
}

/// The error of a read at byte `offset` that needs `needed` bytes.
pub open spec fn eof_at(offset: nat, needed: nat) -> HwpError {
    HwpError::UnexpectedEof { offset: offset as usize, needed: needed as usize }
}

/// How many bytes `read_hwp_string` needs at the front of `b`: the count,
/// then the code units it announces, where the count is there.
pub open spec fn hwp_string_need(b: Seq<u8>) -> nat {
    if b.len() < 2 {
        2
    } else {
        (2 + 2 * u16_at(b, 0)) as nat
    }
}

/// Sequential reader over a byte slice.
pub struct ByteReader<'a> {
    data: &'a [u8],
    pos: usize,
}

impl<'a> ByteReader<'a> {
    #[verifier::type_invariant]
    spec fn inv(self) -> bool {
        self.pos <= self.data@.len()
    }

    /// The whole input.
    pub closed spec fn data(self) -> Seq<u8> {
        self.data@
    }

    /// Number of bytes consumed so far.
    pub closed spec fn pos(self) -> nat {
        self.pos as nat
    }

    /// The bytes not read yet.
    pub open spec fn rest(self) -> Seq<u8> {
        self.data().subrange(self.pos() as int, self.data().len() as int)
    }

    /// A reader at the start of `data`.
    pub fn new(data: &'a [u8]) -> (r: Self)
        ensures
            r.data() == data@,
            r.pos() == 0,
            r.rest() == data@,
    {
        let r = ByteReader { data, pos: 0 };
        assert(r.rest() =~= data@);
        r
    }

    /// Number of bytes consumed so far.
    pub fn position(&self) -> (p: usize)
        ensures
            p == self.pos(),
    {
        self.pos
    }

    /// Number of bytes not read yet.
    pub fn remaining(&self) -> (n: usize)
        ensures
            n == self.rest().len(),
    {
        proof {
            use_type_invariant(self);
        }
        self.data.len() - self.pos
    }

    /// Whether every byte has been read.
    pub fn is_empty(&self) -> (b: bool)
        ensures
            b == (self.rest().len() == 0),
    {
        proof {
            use_type_invariant(self);
        }
        self.pos >= self.data.len()
    }

    /// Takes `n` bytes, or fails (and consumes nothing) where fewer are left.
    fn take(&mut self, n: usize) -> (r: Result<usize, HwpError>)
        ensures
            final(self).data() == old(self).data(),
            match r {
                Ok(start) => {
                    &&& old(self).rest().len() >= n
                    &&& start == old(self).pos()
                    &&& start + n <= old(self).data().len()
                    &&& final(self).pos() == old(self).pos() + n
                },
                Err(e) => {
                    &&& old(self).rest().len() < n
                    &&& final(self).pos() == old(self).pos()
                    &&& e == eof_at(old(self).pos(), n as nat)
                },
            },
    {
        proof {
            use_type_invariant(&*self);
        }
        if self.data.len() - self.pos < n {
            Err(HwpError::UnexpectedEof { offset: self.pos, needed: n })
        } else {
            let start = self.pos;
            self.pos = self.pos + n;
            Ok(start)
        }
    }

    /// Reads one byte.
    pub fn read_u8(&mut self) -> (r: Result<u8, HwpError>)
        ensures
            final(self).data() == old(self).data(),
            match r {
                Ok(v) => {
                    &&& old(self).rest().len() >= 1
                    &&& v == old(self).rest()[0]
                    &&& final(self).pos() == old(self).pos() + 1
                },
                Err(e) => {
                    &&& old(self).rest().len() < 1
                    &&& final(self).pos() == old(self).pos()
                    &&& e == eof_at(old(self).pos(), 1)
                },
            },
    {
        let start = match self.take(1) {
            Ok(start) => start,
            Err(e) => return Err(e),
        };
        Ok(self.data[start])
    }

    /// Reads a little-endian `u16`.
    pub fn read_u16(&mut self) -> (r: Result<u16, HwpError>)
        ensures
            final(self).data() == old(self).data(),
            match r {
                Ok(v) => {
                    &&& old(self).rest().len() >= 2
                    &&& v == u16_at(old(self).rest(), 0)
                    &&& final(self).pos() == old(self).pos() + 2
                },
                Err(e) => {
                    &&& old(self).rest().len() < 2
                    &&& final(self).pos() == old(self).pos()
                    &&& e == eof_at(old(self).pos(), 2)
                },
            },
    {
        let start = match self.take(2) {
            Ok(start) => start,
            Err(e) => return Err(e),
        };
        let v: u16 = self.data[start] as u16 + 256 * (self.data[start + 1] as u16);
        Ok(v)
    }

    /// Reads a little-endian `u32`.
    pub fn read_u32(&mut self) -> (r: Result<u32, HwpError>)
        ensures
            final(self).data() == old(self).data(),
            match r {
                Ok(v) => {
                    &&& old(self).rest().len() >= 4
                    &&& v == u32_at(old(self).rest(), 0)
                    &&& final(self).pos() == old(self).pos() + 4
                },
                Err(e) => {
                    &&& old(self).rest().len() < 4
                    &&& final(self).pos() == old(self).pos()
                    &&& e == eof_at(old(self).pos(), 4)
                },
            },
    {
        let start = match self.take(4) {
            Ok(start) => start,
            Err(e) => return Err(e),
        };
        let v: u32 = self.data[start] as u32 + 256 * (self.data[start + 1] as u32) + 65536 * (
        self.data[start + 2] as u32) + 16777216 * (self.data[start + 3] as u32);
        Ok(v)
    }

    /// Reads a little-endian two's-complement `i16`.
    pub fn read_i16(&mut self) -> (r: Result<i16, HwpError>)
        ensures
            final(self).data() == old(self).data(),
            match r {
                Ok(v) => {
                    &&& old(self).rest().len() >= 2
                    &&& v == i16_of_bits(u16_at(old(self).rest(), 0))
                    &&& final(self).pos() == old(self).pos() + 2
                },
                Err(e) => {
                    &&& old(self).rest().len() < 2
                    &&& final(self).pos() == old(self).pos()
                    &&& e == eof_at(old(self).pos(), 2)
                },
            },
    {
        let u = match self.read_u16() {
            Ok(u) => u,
            Err(e) => return Err(e),
        };
        let v: i16 = if u < 0x8000 { u as i16 } else { (u as i32 - 65536) as i16 };
        Ok(v)
    }

    /// Reads a little-endian two's-complement `i32`.
    pub fn read_i32(&mut self) -> (r: Result<i32, HwpError>)
        ensures
            final(self).data() == old(self).data(),
            match r {
                Ok(v) => {
                    &&& old(self).rest().len() >= 4
                    &&& v == i32_of_bits(u32_at(old(self).rest(), 0))
                    &&& final(self).pos() == old(self).pos() + 4
                },
                Err(e) => {
                    &&& old(self).rest().len() < 4
                    &&& final(self).pos() == old(self).pos()
                    &&& e == eof_at(old(self).pos(), 4)
                },
            },
    {
        let u = match self.read_u32() {
            Ok(u) => u,
            Err(e) => return Err(e),
        };
        let v: i32 = if u < 0x8000_0000 { u as i32 } else { (u as i64 - 0x1_0000_0000) as i32 };
        Ok(v)
    }

    /// Reads a COLORREF (`0x00BBGGRR`), a little-endian `u32`.
    pub fn read_color_ref(&mut self) -> (r: Result<u32, HwpError>)
        ensures
            final(self).data() == old(self).data(),
            match r {
                Ok(v) => {
                    &&& old(self).rest().len() >= 4
                    &&& v == u32_at(old(self).rest(), 0)
                    &&& final(self).pos() == old(self).pos() + 4
                },
                Err(e) => {
                    &&& old(self).rest().len() < 4
                    &&& final(self).pos() == old(self).pos()
                    &&& e == eof_at(old(self).pos(), 4)
                },
            },
    {
        self.read_u32()
    }

    /// Reads an HWP string: a `u16` count of UTF-16 code units, then the code
    /// units, little-endian; unpaired surrogates become U+FFFD. Fails, and
    /// consumes nothing, where the record ends first.
    pub fn read_hwp_string(&mut self) -> (r: Result<String, HwpError>)
        ensures
            final(self).data() == old(self).data(),
            match r {
                Ok(s) => parse_hwp_string(old(self).rest()) matches Some((chars, n)) && s@
                    == chars && final(self).pos() == old(self).pos() + n,
                Err(e) => {
                    &&& parse_hwp_string(old(self).rest()) is None
                    &&& final(self).pos() == old(self).pos()
                    &&& e == eof_at(old(self).pos(), hwp_string_need(old(self).rest()))
                },
            },
    {
        proof {
            use_type_invariant(&*self);
        }
        let ghost rest = self.rest();
        if self.data.len() - self.pos < 2 {
            return Err(HwpError::UnexpectedEof { offset: self.pos, needed: 2 });
        }
        let p = self.pos;
        let n: usize = (self.data[p] as u16 + 256 * (self.data[p + 1] as u16)) as usize;
        assert(n == u16_at(rest, 0));
        if self.data.len() - p - 2 < 2 * n {
            return Err(HwpError::UnexpectedEof { offset: p, needed: 2 + 2 * n });
        }
        let ghost body = rest.subrange(2, 2 + 2 * n);
        let mut units: Vec<u16> = Vec::new();
        let mut k: usize = 0;
        while k < n
            invariant
                k <= n,
                p + 2 + 2 * n <= self.data@.len(),
                self.data@.len() <= usize::MAX,
                body == self.data@.subrange(p + 2, p + 2 + 2 * n),
                units@ == units_of_le(body).subrange(0, k as int),
            decreases n - k,
        {
            let b0 = self.data[p + 2 + 2 * k];
            let b1 = self.data[p + 2 + 2 * k + 1];
            units.push(b0 as u16 + 256 * (b1 as u16));
            k = k + 1;
            assert(units@ =~= units_of_le(body).subrange(0, k as int));
        }
        assert(units@ =~= units_of_le(body));
        let mut out = String::new();
        let mut i: usize = 0;
        while i < units.len()
            invariant
                i <= units@.len(),
                out@ + decode_utf16(units@.subrange(i as int, units@.len() as int)) == decode_utf16(
                    units@,
                ),
            decreases units@.len() - i,
        {
            let ghost tail = units@.subrange(i as int, units@.len() as int);
            let u0 = units[i];
            if i + 1 < units.len() && 0xD800 <= u0 && u0 <= 0xDBFF && 0xDC00 <= units[i + 1]
                && units[i + 1] <= 0xDFFF {
                let u1 = units[i + 1];
                let v: u32 = 0x10000 + (u0 as u32 - 0xD800) * 1024 + (u1 as u32 - 0xDC00);
                assert(tail.subrange(2, tail.len() as int) =~= units@.subrange(
                    i + 2,
                    units@.len() as int,
                ));
                match char_from_u32(v) {
                    Some(c) => {
                        proof {
                            vstd::utf8::char_u32_cast(c, v);
                        }
                        push_char(&mut out, c);
                    },
                    None => {
                        push_char(&mut out, '\u{FFFD}');
                    },
                }
                i = i + 2;
            } else if 0xD800 <= u0 && u0 <= 0xDFFF {
                assert(tail.subrange(1, tail.len() as int) =~= units@.subrange(
                    i + 1,
                    units@.len() as int,
                ));
                push_char(&mut out, '\u{FFFD}');
                i = i + 1;
            } else {
                assert(tail.subrange(1, tail.len() as int) =~= units@.subrange(
                    i + 1,
                    units@.len() as int,
                ));
                match char_from_u32(u0 as u32) {
                    Some(c) => {
                        proof {
                            vstd::utf8::char_u32_cast(c, u0 as u32);
                        }
                        push_char(&mut out, c);
                    },
                    None => {
                        push_char(&mut out, '\u{FFFD}');
                    },
                }
                i = i + 1;
            }
            assert(out@ + decode_utf16(units@.subrange(i as int, units@.len() as int))
                =~= decode_utf16(units@));
        }
        assert(units@.subrange(units@.len() as int, units@.len() as int) =~= Seq::<u16>::empty());
        assert(out@ =~= decode_utf16(units@));
        self.pos = p + 2 + 2 * n;
        Ok(out)
    }
}

/// Reading a little-endian `u16` gives back the value whose bytes were written.
pub proof fn lemma_u16_roundtrip(v: u16, rest: Seq<u8>)
    ensures
        u16_at(le_u16(v) + rest, 0) == v,
{
}

/// Reading a little-endian `u32` gives back the value whose bytes were written.
pub proof fn lemma_u32_roundtrip(v: u32, rest: Seq<u8>)
    ensures
        u32_at(le_u32(v) + rest, 0) == v,
{
}

/// Two's complement of an `i16` round-trips.
pub proof fn lemma_i16_roundtrip(v: i16, rest: Seq<u8>)
    ensures
        i16_of_bits(u16_at(le_u16(bits_i16(v)) + rest, 0)) == v,
{
    lemma_u16_roundtrip(bits_i16(v), rest);
}

/// Two's complement of an `i32` round-trips.
pub proof fn lemma_i32_roundtrip(v: i32, rest: Seq<u8>)
    ensures
        i32_of_bits(u32_at(le_u32(bits_i32(v)) + rest, 0)) == v,
{
    lemma_u32_roundtrip(bits_i32(v), rest);
}

proof fn lemma_units_of_le_seq(units: Seq<u16>)
    ensures
        units_of_le(le_u16_seq(units)) == units,
    decreases units.len(),
{
    lemma_le_u16_seq_len(units);
    if units.len() > 0 {
        let init = units.drop_last();
        lemma_units_of_le_seq(init);
        lemma_le_u16_seq_len(init);
        let b = le_u16_seq(units);
        assert(b == le_u16_seq(init) + le_u16(units.last()));
        assert forall|k: int| 0 <= k < units.len() implies #[trigger] u16_at(b, 2 * k)
            == units[k] by {
            if k < init.len() {
                assert(u16_at(le_u16_seq(init), 2 * k) == init[k]);
                assert(b[2 * k] == le_u16_seq(init)[2 * k]);
                assert(b[2 * k + 1] == le_u16_seq(init)[2 * k + 1]);
            } else {
                assert(k == init.len());
                assert(b[2 * k] == le_u16(units.last())[0]);
                assert(b[2 * k + 1] == le_u16(units.last())[1]);
            }
        }
        assert(units_of_le(b) =~= units);
    } else {
        assert(units_of_le(le_u16_seq(units)) =~= units);
    }
}

/// An HWP string written by `ByteWriter::write_hwp_string` reads back as the
/// same string, consuming exactly the bytes written, whatever follows it,
/// provided its UTF-16 length fits the `u16` count.
pub proof fn lemma_hwp_string_roundtrip(s: Seq<char>, rest: Seq<u8>)
    requires
        encode_utf16(s).len() < 65536,
    ensures
        parse_hwp_string(hwp_string_bytes(s) + rest) == Some((s, hwp_string_bytes(s).len())),
{
    let units = encode_utf16(s);
    let n = units.len();
    let body = le_u16_seq(units);
    lemma_le_u16_seq_len(units);
    lemma_units_of_le_seq(units);
    lemma_decode_encode_utf16(s);
    let b = hwp_string_bytes(s) + rest;
    assert((n % 65536) as u16 == n);
    lemma_u16_roundtrip(n as u16, body + rest);
    assert(b =~= le_u16(n as u16) + (body + rest));
    assert(b.subrange(2, (2 + 2 * n) as int) =~= body);
}

} // verus!

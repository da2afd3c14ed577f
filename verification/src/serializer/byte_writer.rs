//! Buffer-backed writer for the binary fields inside HWP records.
//!
//! The inverse of `ByteReader`: little-endian integers and UTF-16LE strings.

use vstd::prelude::*;
use crate::encoding::{
    bits_i16, bits_i32, bits_i8, char_to_utf16, chars_of, encode_utf16, le_u16, le_u16_seq, le_u32,
};

verus! {

/// Byte writer over a growing buffer.
pub struct ByteWriter {
    buf: Vec<u8>,
}

impl View for ByteWriter {
    type V = Seq<u8>;

    closed spec fn view(&self) -> Seq<u8> {
        self.buf@
    }
}

/// Bytes of an HWP string: its UTF-16 length (as a `u16`, so modulo 65536),
/// then its UTF-16LE code units.
pub open spec fn hwp_string_bytes(s: Seq<char>) -> Seq<u8> {
    le_u16((encode_utf16(s).len() % 65536) as u16) + le_u16_seq(encode_utf16(s))
}

impl ByteWriter {
    /// A writer with an empty buffer.
    pub fn new() -> (w: Self)
        ensures
            w@ == Seq::<u8>::empty(),
    {
        ByteWriter { buf: Vec::new() }
    }

    /// Current write position: the number of bytes written so far.
    pub fn position(&self) -> (p: usize)
        ensures
            p == self@.len(),
    {
        self.buf.len()
    }

    /// Writes one byte.
    pub fn write_u8(&mut self, v: u8)
        ensures
            final(self)@ == old(self)@.push(v),
    {
        self.buf.push(v);
    }

    /// Writes a `u16`, little-endian.
    pub fn write_u16(&mut self, v: u16)
        ensures
            final(self)@ == old(self)@ + le_u16(v),
    {
        self.buf.push((v % 256) as u8);
        self.buf.push((v / 256) as u8);
        assert(self.buf@ =~= old(self)@ + le_u16(v));
    }

    /// Writes a `u32`, little-endian.
    pub fn write_u32(&mut self, v: u32)
        ensures
            final(self)@ == old(self)@ + le_u32(v),
    {
        self.buf.push((v % 256) as u8);
        self.buf.push(((v / 256) % 256) as u8);
        self.buf.push(((v / 65536) % 256) as u8);
        self.buf.push((v / 16777216) as u8);
        assert(self.buf@ =~= old(self)@ + le_u32(v));
    }

    /// Writes an `i8` as its two's-complement byte.
    pub fn write_i8(&mut self, v: i8)
        ensures
            final(self)@ == old(self)@.push(bits_i8(v)),
    {
        let b: u8 = if v >= 0 { v as u8 } else { (v as i16 + 256) as u8 };
        self.buf.push(b);
    }

    /// Writes an `i16`, two's complement, little-endian.
    pub fn write_i16(&mut self, v: i16)
        ensures
            final(self)@ == old(self)@ + le_u16(bits_i16(v)),
    {
        let u: u16 = if v >= 0 { v as u16 } else { (v as i32 + 65536) as u16 };
        self.write_u16(u);
    }

    /// Writes an `i32`, two's complement, little-endian.
    pub fn write_i32(&mut self, v: i32)
        ensures
            final(self)@ == old(self)@ + le_u32(bits_i32(v)),
    {
        let u: u32 = if v >= 0 { v as u32 } else { (v as i64 + 0x1_0000_0000) as u32 };
        self.write_u32(u);
    }

    /// Writes a byte slice as it is.
    pub fn write_bytes(&mut self, data: &[u8])
        ensures
            final(self)@ == old(self)@ + data@,
    {
        let mut i: usize = 0;
        while i < data.len()
            invariant
                i <= data@.len(),
                self.buf@ == old(self)@ + data@.subrange(0, i as int),
            decreases data@.len() - i,
        {
            self.buf.push(data[i]);
            i = i + 1;
            assert(self.buf@ =~= old(self)@ + data@.subrange(0, i as int));
        }
        assert(data@.subrange(0, data@.len() as int) =~= data@);
    }

    /// Writes an HWP string: the UTF-16 length as a `u16`, then the UTF-16LE
    /// code units (the inverse of `ByteReader::read_hwp_string`).
    pub fn write_hwp_string(&mut self, s: &str)
        ensures
            final(self)@ == old(self)@ + hwp_string_bytes(s@),
    {
        let chars = chars_of(s);
        let mut units: Vec<u16> = Vec::new();
        let mut i: usize = 0;
        while i < chars.len()
            invariant
                i <= chars@.len(),
                chars@ == s@,
                units@ == encode_utf16(chars@.subrange(0, i as int)),
            decreases chars@.len() - i,
        {
            let cu = char_to_utf16(chars[i]);
            let mut k: usize = 0;
            let ghost before = units@;
            while k < cu.len()
                invariant
                    k <= cu@.len(),
                    units@ == before + cu@.subrange(0, k as int),
                decreases cu@.len() - k,
            {
                units.push(cu[k]);
                k = k + 1;
                assert(units@ =~= before + cu@.subrange(0, k as int));
            }
            assert(cu@.subrange(0, cu@.len() as int) =~= cu@);
            assert(chars@.subrange(0, i + 1).drop_last() =~= chars@.subrange(0, i as int));
            i = i + 1;
        }
        assert(chars@.subrange(0, chars@.len() as int) =~= s@);
        let n = units.len();
        let count: u16 = (n % 65536) as u16;
        self.write_u16(count);
        let ghost start = self.buf@;
        let mut j: usize = 0;
        while j < units.len()
            invariant
                j <= units@.len(),
                self.buf@ == start + le_u16_seq(units@.subrange(0, j as int)),
            decreases units@.len() - j,
        {
            self.write_u16(units[j]);
            assert(units@.subrange(0, j + 1).drop_last() =~= units@.subrange(0, j as int));
            j = j + 1;
            assert(self.buf@ =~= start + le_u16_seq(units@.subrange(0, j as int)));
        }
        assert(units@.subrange(0, units@.len() as int) =~= units@);
        assert(self.buf@ =~= old(self)@ + hwp_string_bytes(s@));
    }

    /// Writes a COLORREF (`0x00BBGGRR`) as four bytes.
    pub fn write_color_ref(&mut self, color: u32)
        ensures
            final(self)@ == old(self)@ + le_u32(color),
    {
        self.write_u32(color)
    }

    /// Writes `count` zero bytes of padding.
    pub fn write_zeros(&mut self, count: usize)
        ensures
            final(self)@ == old(self)@ + Seq::new(count as nat, |i: int| 0u8),
    {
        let mut i: usize = 0;
        while i < count
            invariant
                i <= count,
                self.buf@ == old(self)@ + Seq::new(i as nat, |k: int| 0u8),
            decreases count - i,
        {
            self.buf.push(0u8);
            i = i + 1;
            assert(self.buf@ =~= old(self)@ + Seq::new(i as nat, |k: int| 0u8));
        }
    }

    /// Hands over the buffer.
    pub fn into_bytes(self) -> (bytes: Vec<u8>)
        ensures
            bytes@ == self@,
    {
        self.buf
    }

    /// The bytes written so far.
    pub fn as_bytes(&self) -> (bytes: &[u8])
        ensures
            bytes@ == self@,
    {
        self.buf.as_slice()
    }
}

} // verus!

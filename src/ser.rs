//! The encoding backend: hooks that append one construct each to a byte buffer.
use vstd::arithmetic::power::pow;
use vstd::prelude::*;
use vstd::utf8::encode_utf8;

use crate::le::{le_bytes, lemma_pow256, to_twos};
use crate::uleb::{uleb_bytes, write_uleb};

verus! {

/// Writes values into a byte buffer that it owns.
pub struct WriteSerializer {
    writer: Vec<u8>,
}

impl WriteSerializer {
    /// The bytes held so far.
    pub closed spec fn written(&self) -> Seq<u8> {
        self.writer@
    }

    /// A serializer that appends to `writer`.
    pub fn new(writer: Vec<u8>) -> (r: WriteSerializer)
        ensures
            r.written() == writer@,
    {
        WriteSerializer { writer }
    }

    /// Hands the buffer back.
    pub fn into_inner(self) -> (r: Vec<u8>)
        ensures
            r@ == self.written(),
    {
        self.writer
    }

    /// The bytes held so far.
    pub fn as_slice(&self) -> (r: &[u8])
        ensures
            r@ == self.written(),
    {
        self.writer.as_slice()
    }

    /// Appends the `n` low bytes of `v`, least significant first.
    fn write_le(&mut self, v: u64, n: usize)
        requires
            n <= 8,
            v < pow(256, n as nat),
        ensures
            final(self).written() == old(self).written() + le_bytes(v as nat, n as nat),
    {
        let ghost start = self.writer@;
        let mut x: u64 = v;
        let mut i: usize = 0;
        while i < n
            invariant
                i <= n,
                start + le_bytes(v as nat, n as nat) == self.writer@ + le_bytes(
                    x as nat,
                    (n - i) as nat,
                ),
            decreases n - i,
        {
            let ghost before = self.writer@;
            assert(le_bytes(x as nat, (n - i) as nat) == seq![(x % 256) as u8] + le_bytes(
                (x / 256) as nat,
                (n - i - 1) as nat,
            ));
            self.writer.push((x % 256) as u8);
            assert(self.writer@ == before + seq![(x % 256) as u8]);
            x = x / 256;
            i = i + 1;
        }
        assert(self.writer@ + le_bytes(x as nat, 0) =~= self.writer@);
    }

    /// Appends `v` as ULEB128.
    pub fn write_uleb128(&mut self, v: u64)
        ensures
            final(self).written() == old(self).written() + uleb_bytes(v as nat),
    {
        write_uleb(&mut self.writer, v);
    }

    /// Appends one raw byte.
    pub fn write_byte(&mut self, b: u8)
        ensures
            final(self).written() == old(self).written() + seq![b],
    {
        self.writer.push(b);
    }

    /// Appends raw bytes.
    pub fn write_bytes(&mut self, v: &[u8])
        ensures
            final(self).written() == old(self).written() + v@,
    {
        self.writer.extend_from_slice(v);
    }

    /// A `bool` is one byte, 0 or 1.
    pub fn serialize_bool(&mut self, v: bool)
        ensures
            final(self).written() == old(self).written() + seq![if v { 1u8 } else { 0u8 }],
    {
        self.writer.push(if v { 1u8 } else { 0u8 });
    }

    pub fn serialize_u8(&mut self, v: u8)
        ensures
            final(self).written() == old(self).written() + le_bytes(v as nat, 1),
    {
        proof {
            lemma_pow256();
        }
        self.write_le(v as u64, 1);
    }

    pub fn serialize_u16(&mut self, v: u16)
        ensures
            final(self).written() == old(self).written() + le_bytes(v as nat, 2),
    {
        proof {
            lemma_pow256();
        }
        self.write_le(v as u64, 2);
    }

    pub fn serialize_u32(&mut self, v: u32)
        ensures
            final(self).written() == old(self).written() + le_bytes(v as nat, 4),
    {
        proof {
            lemma_pow256();
        }
        self.write_le(v as u64, 4);
    }

    pub fn serialize_u64(&mut self, v: u64)
        ensures
            final(self).written() == old(self).written() + le_bytes(v as nat, 8),
    {
        proof {
            lemma_pow256();
        }
        self.write_le(v, 8);
    }

    pub fn serialize_i8(&mut self, v: i8)
        ensures
            final(self).written() == old(self).written() + le_bytes(to_twos(v as int, 0x100), 1),
    {
        proof {
            lemma_pow256();
        }
        let u: u64 = if v < 0 {
            (v as i64 + 0x100) as u64
        } else {
            v as u64
        };
        self.write_le(u, 1);
    }

    pub fn serialize_i16(&mut self, v: i16)
        ensures
            final(self).written() == old(self).written() + le_bytes(
                to_twos(v as int, 0x1_0000),
                2,
            ),
    {
        proof {
            lemma_pow256();
        }
        let u: u64 = if v < 0 {
            (v as i64 + 0x1_0000) as u64
        } else {
            v as u64
        };
        self.write_le(u, 2);
    }

    pub fn serialize_i32(&mut self, v: i32)
        ensures
            final(self).written() == old(self).written() + le_bytes(
                to_twos(v as int, 0x1_0000_0000),
                4,
            ),
    {
        proof {
            lemma_pow256();
        }
        let u: u64 = if v < 0 {
            (v as i64 + 0x1_0000_0000) as u64
        } else {
            v as u64
        };
        self.write_le(u, 4);
    }

    pub fn serialize_i64(&mut self, v: i64)
        ensures
            final(self).written() == old(self).written() + le_bytes(
                to_twos(v as int, 0x1_0000_0000_0000_0000),
                8,
            ),
    {
        proof {
            lemma_pow256();
        }
        let u: u64 = if v < 0 {
            u64::MAX - ((-(v + 1)) as u64)
        } else {
            v as u64
        };
        self.write_le(u, 8);
    }

    /// A string is its UTF-8 byte length as ULEB128, then those bytes.
    pub fn serialize_str(&mut self, v: &str)
        ensures
            final(self).written() == old(self).written() + uleb_bytes(encode_utf8(v@).len())
                + encode_utf8(v@),
    {
        let bytes = v.as_bytes();
        self.write_uleb128(bytes.len() as u64);
        self.write_bytes(bytes);
        assert(self.written() =~= old(self).written() + uleb_bytes(encode_utf8(v@).len())
            + encode_utf8(v@));
    }
}

} // verus!

//! The decoding backend: a cursor over a byte buffer, with one hook per
//! construct of the format.
use vstd::prelude::*;
use vstd::utf8::{decode_utf8, valid_utf8};

use crate::error::Error;
use crate::error::Result;
use crate::le::{from_twos, le_value, lemma_le_value_bound, lemma_pow256, parse_le};
use crate::uleb::{read_uleb, uleb_parse};

verus! {

/// Reading a `bool` from the front of `s`: one byte, 0 or 1.
pub open spec fn parse_bool(s: Seq<u8>) -> core::result::Result<(bool, nat), Error> {
    if s.len() < 1 {
        Err(Error::IO)
    } else if s[0] == 0 {
        Ok((false, 1))
    } else if s[0] == 1 {
        Ok((true, 1))
    } else {
        Err(Error::Overflow)
    }
}

/// Reading a ULEB128 size: as `uleb_parse`, and `Overflow` where it does not
/// fit a `usize`.
pub open spec fn parse_size(s: Seq<u8>) -> core::result::Result<(nat, nat), Error> {
    match uleb_parse(s) {
        Ok((v, k)) => if v > usize::MAX {
            Err(Error::Overflow)
        } else {
            Ok((v, k))
        },
        Err(e) => Err(e),
    }
}

/// Reading a ULEB128 size and then that many raw bytes.
pub open spec fn parse_sized_bytes(s: Seq<u8>) -> core::result::Result<(Seq<u8>, nat), Error> {
    match parse_size(s) {
        Ok((n, k)) => if s.len() - k < n {
            Err(Error::IO)
        } else {
            Ok((s.subrange(k as int, (k + n) as int), k + n))
        },
        Err(e) => Err(e),
    }
}

/// Reading a string: its bytes as `parse_sized_bytes`, `Overflow` where they
/// are not UTF-8.
pub open spec fn parse_string(s: Seq<u8>) -> core::result::Result<(Seq<char>, nat), Error> {
    match parse_sized_bytes(s) {
        Ok((b, k)) => if valid_utf8(b) {
            Ok((decode_utf8(b), k))
        } else {
            Err(Error::Overflow)
        },
        Err(e) => Err(e),
    }
}

/// Reading an `n`-byte two's complement number whose range has `full` values.
pub open spec fn parse_signed(s: Seq<u8>, n: nat, full: nat) -> core::result::Result<
    (int, nat),
    Error,
> {
    match parse_le(s, n) {
        Ok((u, k)) => Ok((from_twos(u, full), k)),
        Err(e) => Err(e),
    }
}

/// Relies on `String::from_utf8`: it accepts exactly the valid UTF-8 byte
/// sequences and keeps the characters that they encode.
#[verifier::external_body]
fn string_from_utf8(bytes: Vec<u8>) -> (r: Option<String>)
    ensures
        r is Some <==> valid_utf8(bytes@),
        r is Some ==> r->Some_0@ == decode_utf8(bytes@),
{
    String::from_utf8(bytes).ok()
}

/// A read-only cursor over a byte buffer. Each read takes bytes from the
/// front of what is left and never looks back.
pub struct ReadDeserializer {
    bytes: Vec<u8>,
    pos: usize,
}

impl ReadDeserializer {
    /// The whole buffer.
    pub closed spec fn data(&self) -> Seq<u8> {
        self.bytes@
    }

    /// How many bytes have been taken.
    pub closed spec fn pos(&self) -> int {
        self.pos as int
    }

    pub open spec fn wf(&self) -> bool {
        0 <= self.pos() <= self.data().len()
    }

    /// The bytes not taken yet.
    pub open spec fn rest(&self) -> Seq<u8> {
        self.data().subrange(self.pos(), self.data().len() as int)
    }

    /// A cursor at the start of `bytes`.
    pub fn new(bytes: Vec<u8>) -> (r: ReadDeserializer)
        ensures
            r.wf(),
            r.data() == bytes@,
            r.pos() == 0,
    {
        ReadDeserializer { bytes, pos: 0 }
    }

    /// How many bytes have been taken.
    pub fn position(&self) -> (r: usize)
        ensures
            r == self.pos(),
    {
        self.pos
    }

    /// How many bytes are left.
    pub fn remaining(&self) -> (r: usize)
        requires
            self.wf(),
        ensures
            r == self.rest().len(),
    {
        self.bytes.len() - self.pos
    }

    /// Takes the next `n` bytes; `IO` where fewer are left.
    pub fn read_bytes(&mut self, n: usize) -> (r: Result<Vec<u8>>)
        requires
            old(self).wf(),
        ensures
            final(self).wf(),
            final(self).data() == old(self).data(),
            n <= old(self).rest().len() ==> r is Ok && r->Ok_0@ == old(self).rest().take(n as int)
                && final(self).pos() == old(self).pos() + n,
            n > old(self).rest().len() ==> r == Err::<Vec<u8>, Error>(Error::IO),
    {
        if self.bytes.len() - self.pos < n {
            return Err(Error::IO);
        }
        let mut out: Vec<u8> = Vec::new();
        let mut i: usize = 0;
        while i < n
            invariant
                self.wf(),
                i <= n,
                self.pos + n <= self.bytes.len(),
                out@ == self.bytes@.subrange(self.pos as int, self.pos + i),
            decreases n - i,
        {
            out.push(self.bytes[self.pos + i]);
            i = i + 1;
            assert(out@ =~= self.bytes@.subrange(self.pos as int, self.pos + i));
        }
        assert(out@ =~= old(self).rest().take(n as int));
        self.pos = self.pos + n;
        Ok(out)
    }

    /// Takes an `n`-byte little-endian number.
    fn read_le(&mut self, n: usize) -> (r: Result<u64>)
        requires
            old(self).wf(),
            1 <= n <= 8,
        ensures
            final(self).wf(),
            final(self).data() == old(self).data(),
            match parse_le(old(self).rest(), n as nat) {
                Ok((v, k)) => r is Ok && r->Ok_0 == v && final(self).pos() == old(self).pos() + k,
                Err(e) => r == Err::<u64, Error>(e),
            },
    {
        if self.bytes.len() - self.pos < n {
            return Err(Error::IO);
        }
        let ghost s = self.bytes@.subrange(self.pos as int, self.pos + n);
        assert(s =~= old(self).rest().take(n as int));
        let mut acc: u64 = 0;
        let mut i: usize = n;
        assert(s.subrange(n as int, n as int) =~= Seq::<u8>::empty());
        while i > 0
            invariant
                self.wf(),
                self.bytes@ == old(self).data(),
                self.pos == old(self).pos(),
                i <= n <= 8,
                self.pos + n <= self.bytes.len(),
                s == self.bytes@.subrange(self.pos as int, self.pos + n),
                acc == le_value(s.subrange(i as int, n as int)),
            decreases i,
        {
            proof {
                lemma_le_value_bound(s.subrange(i as int, n as int));
                vstd::arithmetic::power::lemma_pow_increases(256, (n - i) as nat, 7);
                lemma_pow256();
            }
            let b = self.bytes[self.pos + i - 1];
            assert(s.subrange(i - 1, n as int).drop_first() =~= s.subrange(i as int, n as int));
            assert(s.subrange(i - 1, n as int)[0] == b);
            acc = b as u64 + 256 * acc;
            i = i - 1;
        }
        assert(s.subrange(0, n as int) =~= s);
        self.pos = self.pos + n;
        Ok(acc)
    }

    /// Takes a ULEB128 number that must fit a `usize`.
    pub fn read_uleb128(&mut self) -> (r: Result<usize>)
        requires
            old(self).wf(),
        ensures
            final(self).wf(),
            final(self).data() == old(self).data(),
            match parse_size(old(self).rest()) {
                Ok((v, k)) => r is Ok && r->Ok_0 == v && final(self).pos() == old(self).pos() + k,
                Err(e) => r == Err::<usize, Error>(e),
            },
    {
        let input = vstd::slice::slice_subrange(self.bytes.as_slice(), self.pos, self.bytes.len());
        let (v, left) = read_uleb(input)?;
        if v > usize::MAX as u64 {
            return Err(Error::Overflow);
        }
        self.pos = self.bytes.len() - left;
        Ok(v as usize)
    }

    /// Takes a ULEB128 size and then that many bytes.
    pub fn read_uleb128_vec(&mut self) -> (r: Result<Vec<u8>>)
        requires
            old(self).wf(),
        ensures
            final(self).wf(),
            final(self).data() == old(self).data(),
            match parse_sized_bytes(old(self).rest()) {
                Ok((b, k)) => r is Ok && r->Ok_0@ == b && final(self).pos() == old(self).pos() + k,
                Err(e) => r == Err::<Vec<u8>, Error>(e),
            },
    {
        let ghost s = old(self).rest();
        let size = self.read_uleb128()?;
        let ghost k = self.pos - old(self).pos();
        assert(self.rest() =~= s.subrange(k, s.len() as int));
        let out = self.read_bytes(size)?;
        assert(out@ =~= s.subrange(k, k + size));
        Ok(out)
    }

    pub fn deserialize_bool(&mut self) -> (r: Result<bool>)
        requires
            old(self).wf(),
        ensures
            final(self).wf(),
            final(self).data() == old(self).data(),
            match parse_bool(old(self).rest()) {
                Ok((v, k)) => r == Ok::<bool, Error>(v) && final(self).pos() == old(self).pos() + k,
                Err(e) => r == Err::<bool, Error>(e),
            },
    {
        if self.pos >= self.bytes.len() {
            return Err(Error::IO);
        }
        let b = self.bytes[self.pos];
        if b == 0 {
            self.pos = self.pos + 1;
            Ok(false)
        } else if b == 1 {
            self.pos = self.pos + 1;
            Ok(true)
        } else {
            Err(Error::Overflow)
        }
    }

    pub fn deserialize_u8(&mut self) -> (r: Result<u8>)
        requires
            old(self).wf(),
        ensures
            final(self).wf(),
            final(self).data() == old(self).data(),
            match parse_le(old(self).rest(), 1) {
                Ok((v, k)) => r is Ok && r->Ok_0 == v && final(self).pos() == old(self).pos() + k,
                Err(e) => r == Err::<u8, Error>(e),
            },
    {
        let ghost s = old(self).rest();
        let v = self.read_le(1)?;
        proof {
            lemma_le_value_bound(s.take(1));
            lemma_pow256();
        }
        Ok(v as u8)
    }

    pub fn deserialize_u16(&mut self) -> (r: Result<u16>)
        requires
            old(self).wf(),
        ensures
            final(self).wf(),
            final(self).data() == old(self).data(),
            match parse_le(old(self).rest(), 2) {
                Ok((v, k)) => r is Ok && r->Ok_0 == v && final(self).pos() == old(self).pos() + k,
                Err(e) => r == Err::<u16, Error>(e),
            },
    {
        let ghost s = old(self).rest();
        let v = self.read_le(2)?;
        proof {
            lemma_le_value_bound(s.take(2));
            lemma_pow256();
        }
        Ok(v as u16)
    }

    pub fn deserialize_u32(&mut self) -> (r: Result<u32>)
        requires
            old(self).wf(),
        ensures
            final(self).wf(),
            final(self).data() == old(self).data(),
            match parse_le(old(self).rest(), 4) {
                Ok((v, k)) => r is Ok && r->Ok_0 == v && final(self).pos() == old(self).pos() + k,
                Err(e) => r == Err::<u32, Error>(e),
            },
    {
        let ghost s = old(self).rest();
        let v = self.read_le(4)?;
        proof {
            lemma_le_value_bound(s.take(4));
            lemma_pow256();
        }
        Ok(v as u32)
    }

    pub fn deserialize_u64(&mut self) -> (r: Result<u64>)
        requires
            old(self).wf(),
        ensures
            final(self).wf(),
            final(self).data() == old(self).data(),
            match parse_le(old(self).rest(), 8) {
                Ok((v, k)) => r is Ok && r->Ok_0 == v && final(self).pos() == old(self).pos() + k,
                Err(e) => r == Err::<u64, Error>(e),
            },
    {
        self.read_le(8)
    }

    pub fn deserialize_i8(&mut self) -> (r: Result<i8>)
        requires
            old(self).wf(),
        ensures
            final(self).wf(),
            final(self).data() == old(self).data(),
            match parse_signed(old(self).rest(), 1, 0x100) {
                Ok((v, k)) => r is Ok && r->Ok_0 == v && final(self).pos() == old(self).pos() + k,
                Err(e) => r == Err::<i8, Error>(e),
            },
    {
        let ghost s = old(self).rest();
        let u = self.read_le(1)?;
        proof {
            lemma_le_value_bound(s.take(1));
            lemma_pow256();
        }
        if u >= 0x80 {
            Ok((u as i64 - 0x100) as i8)
        } else {
            Ok(u as i8)
        }
    }

    pub fn deserialize_i16(&mut self) -> (r: Result<i16>)
        requires
            old(self).wf(),
        ensures
            final(self).wf(),
            final(self).data() == old(self).data(),
            match parse_signed(old(self).rest(), 2, 0x1_0000) {
                Ok((v, k)) => r is Ok && r->Ok_0 == v && final(self).pos() == old(self).pos() + k,
                Err(e) => r == Err::<i16, Error>(e),
            },
    {
        let ghost s = old(self).rest();
        let u = self.read_le(2)?;
        proof {
            lemma_le_value_bound(s.take(2));
            lemma_pow256();
        }
        if u >= 0x8000 {
            Ok((u as i64 - 0x1_0000) as i16)
        } else {
            Ok(u as i16)
        }
    }

    pub fn deserialize_i32(&mut self) -> (r: Result<i32>)
        requires
            old(self).wf(),
        ensures
            final(self).wf(),
            final(self).data() == old(self).data(),
            match parse_signed(old(self).rest(), 4, 0x1_0000_0000) {
                Ok((v, k)) => r is Ok && r->Ok_0 == v && final(self).pos() == old(self).pos() + k,
                Err(e) => r == Err::<i32, Error>(e),
            },
    {
        let ghost s = old(self).rest();
        let u = self.read_le(4)?;
        proof {
            lemma_le_value_bound(s.take(4));
            lemma_pow256();
        }
        if u >= 0x8000_0000 {
            Ok((u as i64 - 0x1_0000_0000) as i32)
        } else {
            Ok(u as i32)
        }
    }

    pub fn deserialize_i64(&mut self) -> (r: Result<i64>)
        requires
            old(self).wf(),
        ensures
            final(self).wf(),
            final(self).data() == old(self).data(),
            match parse_signed(old(self).rest(), 8, 0x1_0000_0000_0000_0000) {
                Ok((v, k)) => r is Ok && r->Ok_0 == v && final(self).pos() == old(self).pos() + k,
                Err(e) => r == Err::<i64, Error>(e),
            },
    {
        let u = self.read_le(8)?;
        if u >= 0x8000_0000_0000_0000 {
            Ok(-((u64::MAX - u) as i64) - 1)
        } else {
            Ok(u as i64)
        }
    }

    /// A string: ULEB128 byte length, then that many bytes of UTF-8.
    pub fn deserialize_string(&mut self) -> (r: Result<String>)
        requires
            old(self).wf(),
        ensures
            final(self).wf(),
            final(self).data() == old(self).data(),
            match parse_string(old(self).rest()) {
                Ok((v, k)) => r is Ok && r->Ok_0@ == v && final(self).pos() == old(self).pos() + k,
                Err(e) => r == Err::<String, Error>(e),
            },
    {
        let bytes = self.read_uleb128_vec()?;
        match string_from_utf8(bytes) {
            Some(s) => Ok(s),
            None => Err(Error::Overflow),
        }
    }
}

} // verus!

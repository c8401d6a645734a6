//! The dispatch protocol: a type states how it is written and read by calling
//! the backend's hook for its construct, and what bytes stand for it.
use vstd::prelude::*;
use vstd::utf8::{encode_utf8, encode_utf8_decode_utf8, encode_utf8_valid_utf8};

use crate::de::{parse_bool, parse_signed, parse_string, ReadDeserializer};
use crate::error::Error;
use crate::error::Result;
use crate::le::{le_bytes, lemma_parse_le_round_trip, lemma_pow256, parse_le, to_twos};
use crate::ser::WriteSerializer;
use crate::uleb::{lemma_uleb_round_trip, uleb_bytes};

verus! {

/// A type that can be written in the format.
pub trait Serialize: DeepView {
    /// The bytes that stand for a value whose model is `m`, or the error that
    /// writing it meets.
    spec fn spec_serialize(m: <Self as DeepView>::V) -> core::result::Result<Seq<u8>, Error>;

    /// Whether writing a value whose model is `m` is refused before any byte
    /// is written.
    spec fn spec_write_refused(m: <Self as DeepView>::V) -> bool;

    /// Appends the bytes of `self`. On an error, nothing is appended where the
    /// value is refused up front; otherwise what was appended is unspecified.
    fn serialize(&self, ser: &mut WriteSerializer) -> (r: Result<()>)
        ensures
            match Self::spec_serialize(self.deep_view()) {
                Ok(b) => r is Ok && final(ser).written() == old(ser).written() + b,
                Err(e) => r == Err::<(), Error>(e) && (Self::spec_write_refused(self.deep_view())
                    ==> final(ser).written() == old(ser).written()),
            },
    ;
}

/// A type that can be read from the format.
pub trait Deserialize: Sized + DeepView {
    /// Reading a value from the front of `s`: its model and the number of bytes
    /// it takes, or the error met.
    spec fn spec_deserialize(s: Seq<u8>) -> core::result::Result<
        (<Self as DeepView>::V, nat),
        Error,
    >;

    /// Whether reading from `s` is refused before any byte is taken.
    spec fn spec_read_refused(s: Seq<u8>) -> bool;

    /// Reads one value from the cursor, taking exactly its bytes. Where the
    /// read is refused up front, the cursor does not move.
    fn deserialize(de: &mut ReadDeserializer) -> (r: Result<Self>)
        requires
            old(de).wf(),
        ensures
            final(de).wf(),
            final(de).data() == old(de).data(),
            match Self::spec_deserialize(old(de).rest()) {
                Ok((m, k)) => r is Ok && r->Ok_0.deep_view() == m && final(de).pos() == old(
                    de,
                ).pos() + k,
                Err(e) => r == Err::<Self, Error>(e) && (Self::spec_read_refused(old(de).rest())
                    ==> final(de).pos() == old(de).pos()),
            },
    ;
}

/// A type whose reading undoes its writing.
pub trait Codec: Serialize + Deserialize {
    /// What is written reads back as the same value, taking exactly the bytes
    /// written, whatever follows them.
    proof fn lemma_round_trip(m: <Self as DeepView>::V, rest: Seq<u8>)
        requires
            Self::spec_serialize(m) is Ok,
        ensures
            Self::spec_deserialize(Self::spec_serialize(m)->Ok_0 + rest) == Ok::<
                (<Self as DeepView>::V, nat),
                Error,
            >((m, Self::spec_serialize(m)->Ok_0.len())),
    ;
}

/// Reads one value of type `T` from the front of `source`.
pub fn from_reader<T: Deserialize>(source: Vec<u8>) -> (r: Result<T>)
    ensures
        match T::spec_deserialize(source@) {
            Ok((m, _k)) => r is Ok && r->Ok_0.deep_view() == m,
            Err(e) => r == Err::<T, Error>(e),
        },
{
    let mut de = ReadDeserializer::new(source);
    assert(de.rest() =~= source@);
    T::deserialize(&mut de)
}

/// Appends the bytes of `value` to `writer` and hands the buffer back.
pub fn to_writer<T: Serialize>(writer: Vec<u8>, value: T) -> (r: Result<Vec<u8>>)
    ensures
        match T::spec_serialize(value.deep_view()) {
            Ok(b) => r is Ok && r->Ok_0@ == writer@ + b,
            Err(e) => r == Err::<Vec<u8>, Error>(e),
        },
{
    let mut ser = WriteSerializer::new(writer);
    value.serialize(&mut ser)?;
    Ok(ser.into_inner())
}

impl Serialize for bool {
    open spec fn spec_serialize(m: bool) -> core::result::Result<Seq<u8>, Error> {
        Ok(seq![if m { 1u8 } else { 0u8 }])
    }

    open spec fn spec_write_refused(m: bool) -> bool {
        false
    }

    fn serialize(&self, ser: &mut WriteSerializer) -> (r: Result<()>) {
        ser.serialize_bool(*self);
        Ok(())
    }
}

impl Deserialize for bool {
    open spec fn spec_deserialize(s: Seq<u8>) -> core::result::Result<(bool, nat), Error> {
        parse_bool(s)
    }

    open spec fn spec_read_refused(s: Seq<u8>) -> bool {
        false
    }

    fn deserialize(de: &mut ReadDeserializer) -> (r: Result<bool>) {
        de.deserialize_bool()
    }
}

impl Codec for bool {
    proof fn lemma_round_trip(m: bool, rest: Seq<u8>) {
    }
}

impl Serialize for u8 {
    open spec fn spec_serialize(m: u8) -> core::result::Result<Seq<u8>, Error> {
        Ok(le_bytes(m as nat, 1))
    }

    open spec fn spec_write_refused(m: u8) -> bool {
        false
    }

    fn serialize(&self, ser: &mut WriteSerializer) -> (r: Result<()>) {
        ser.serialize_u8(*self);
        Ok(())
    }
}

impl Deserialize for u8 {
    open spec fn spec_deserialize(s: Seq<u8>) -> core::result::Result<(u8, nat), Error> {
        match parse_le(s, 1) {
            Ok((v, k)) => Ok((v as u8, k)),
            Err(e) => Err(e),
        }
    }

    open spec fn spec_read_refused(s: Seq<u8>) -> bool {
        false
    }

    fn deserialize(de: &mut ReadDeserializer) -> (r: Result<u8>) {
        de.deserialize_u8()
    }
}

impl Codec for u8 {
    proof fn lemma_round_trip(m: u8, rest: Seq<u8>) {
        lemma_pow256();
        lemma_parse_le_round_trip(m as nat, 1, rest);
    }
}

impl Serialize for u16 {
    open spec fn spec_serialize(m: u16) -> core::result::Result<Seq<u8>, Error> {
        Ok(le_bytes(m as nat, 2))
    }

    open spec fn spec_write_refused(m: u16) -> bool {
        false
    }

    fn serialize(&self, ser: &mut WriteSerializer) -> (r: Result<()>) {
        ser.serialize_u16(*self);
        Ok(())
    }
}

impl Deserialize for u16 {
    open spec fn spec_deserialize(s: Seq<u8>) -> core::result::Result<(u16, nat), Error> {
        match parse_le(s, 2) {
            Ok((v, k)) => Ok((v as u16, k)),
            Err(e) => Err(e),
        }
    }

    open spec fn spec_read_refused(s: Seq<u8>) -> bool {
        false
    }

    fn deserialize(de: &mut ReadDeserializer) -> (r: Result<u16>) {
        de.deserialize_u16()
    }
}

impl Codec for u16 {
    proof fn lemma_round_trip(m: u16, rest: Seq<u8>) {
        lemma_pow256();
        lemma_parse_le_round_trip(m as nat, 2, rest);
    }
}

impl Serialize for u32 {
    open spec fn spec_serialize(m: u32) -> core::result::Result<Seq<u8>, Error> {
        Ok(le_bytes(m as nat, 4))
    }

    open spec fn spec_write_refused(m: u32) -> bool {
        false
    }

    fn serialize(&self, ser: &mut WriteSerializer) -> (r: Result<()>) {
        ser.serialize_u32(*self);
        Ok(())
    }
}

impl Deserialize for u32 {
    open spec fn spec_deserialize(s: Seq<u8>) -> core::result::Result<(u32, nat), Error> {
        match parse_le(s, 4) {
            Ok((v, k)) => Ok((v as u32, k)),
            Err(e) => Err(e),
        }
    }

    open spec fn spec_read_refused(s: Seq<u8>) -> bool {
        false
    }

    fn deserialize(de: &mut ReadDeserializer) -> (r: Result<u32>) {
        de.deserialize_u32()
    }
}

impl Codec for u32 {
    proof fn lemma_round_trip(m: u32, rest: Seq<u8>) {
        lemma_pow256();
        lemma_parse_le_round_trip(m as nat, 4, rest);
    }
}

impl Serialize for u64 {
    open spec fn spec_serialize(m: u64) -> core::result::Result<Seq<u8>, Error> {
        Ok(le_bytes(m as nat, 8))
    }

    open spec fn spec_write_refused(m: u64) -> bool {
        false
    }

    fn serialize(&self, ser: &mut WriteSerializer) -> (r: Result<()>) {
        ser.serialize_u64(*self);
        Ok(())
    }
}

impl Deserialize for u64 {
    open spec fn spec_deserialize(s: Seq<u8>) -> core::result::Result<(u64, nat), Error> {
        match parse_le(s, 8) {
            Ok((v, k)) => Ok((v as u64, k)),
            Err(e) => Err(e),
        }
    }

    open spec fn spec_read_refused(s: Seq<u8>) -> bool {
        false
    }

    fn deserialize(de: &mut ReadDeserializer) -> (r: Result<u64>) {
        de.deserialize_u64()
    }
}

impl Codec for u64 {
    proof fn lemma_round_trip(m: u64, rest: Seq<u8>) {
        lemma_pow256();
        lemma_parse_le_round_trip(m as nat, 8, rest);
    }
}

impl Serialize for i8 {
    open spec fn spec_serialize(m: i8) -> core::result::Result<Seq<u8>, Error> {
        Ok(le_bytes(to_twos(m as int, 0x100), 1))
    }

    open spec fn spec_write_refused(m: i8) -> bool {
        false
    }

    fn serialize(&self, ser: &mut WriteSerializer) -> (r: Result<()>) {
        ser.serialize_i8(*self);
        Ok(())
    }
}

impl Deserialize for i8 {
    open spec fn spec_deserialize(s: Seq<u8>) -> core::result::Result<(i8, nat), Error> {
        match parse_signed(s, 1, 0x100) {
            Ok((v, k)) => Ok((v as i8, k)),
            Err(e) => Err(e),
        }
    }

    open spec fn spec_read_refused(s: Seq<u8>) -> bool {
        false
    }

    fn deserialize(de: &mut ReadDeserializer) -> (r: Result<i8>) {
        de.deserialize_i8()
    }
}

impl Codec for i8 {
    proof fn lemma_round_trip(m: i8, rest: Seq<u8>) {
        lemma_pow256();
        lemma_parse_le_round_trip(to_twos(m as int, 0x100), 1, rest);
    }
}

impl Serialize for i16 {
    open spec fn spec_serialize(m: i16) -> core::result::Result<Seq<u8>, Error> {
        Ok(le_bytes(to_twos(m as int, 0x1_0000), 2))
    }

    open spec fn spec_write_refused(m: i16) -> bool {
        false
    }

    fn serialize(&self, ser: &mut WriteSerializer) -> (r: Result<()>) {
        ser.serialize_i16(*self);
        Ok(())
    }
}

impl Deserialize for i16 {
    open spec fn spec_deserialize(s: Seq<u8>) -> core::result::Result<(i16, nat), Error> {
        match parse_signed(s, 2, 0x1_0000) {
            Ok((v, k)) => Ok((v as i16, k)),
            Err(e) => Err(e),
        }
    }

    open spec fn spec_read_refused(s: Seq<u8>) -> bool {
        false
    }

    fn deserialize(de: &mut ReadDeserializer) -> (r: Result<i16>) {
        de.deserialize_i16()
    }
}

impl Codec for i16 {
    proof fn lemma_round_trip(m: i16, rest: Seq<u8>) {
        lemma_pow256();
        lemma_parse_le_round_trip(to_twos(m as int, 0x1_0000), 2, rest);
    }
}

impl Serialize for i32 {
    open spec fn spec_serialize(m: i32) -> core::result::Result<Seq<u8>, Error> {
        Ok(le_bytes(to_twos(m as int, 0x1_0000_0000), 4))
    }

    open spec fn spec_write_refused(m: i32) -> bool {
        false
    }

    fn serialize(&self, ser: &mut WriteSerializer) -> (r: Result<()>) {
        ser.serialize_i32(*self);
        Ok(())
    }
}

impl Deserialize for i32 {
    open spec fn spec_deserialize(s: Seq<u8>) -> core::result::Result<(i32, nat), Error> {
        match parse_signed(s, 4, 0x1_0000_0000) {
            Ok((v, k)) => Ok((v as i32, k)),
            Err(e) => Err(e),
        }
    }

    open spec fn spec_read_refused(s: Seq<u8>) -> bool {
        false
    }

    fn deserialize(de: &mut ReadDeserializer) -> (r: Result<i32>) {
        de.deserialize_i32()
    }
}

impl Codec for i32 {
    proof fn lemma_round_trip(m: i32, rest: Seq<u8>) {
        lemma_pow256();
        lemma_parse_le_round_trip(to_twos(m as int, 0x1_0000_0000), 4, rest);
    }
}

impl Serialize for i64 {
    open spec fn spec_serialize(m: i64) -> core::result::Result<Seq<u8>, Error> {
        Ok(le_bytes(to_twos(m as int, 0x1_0000_0000_0000_0000), 8))
    }

    open spec fn spec_write_refused(m: i64) -> bool {
        false
    }

    fn serialize(&self, ser: &mut WriteSerializer) -> (r: Result<()>) {
        ser.serialize_i64(*self);
        Ok(())
    }
}

impl Deserialize for i64 {
    open spec fn spec_deserialize(s: Seq<u8>) -> core::result::Result<(i64, nat), Error> {
        match parse_signed(s, 8, 0x1_0000_0000_0000_0000) {
            Ok((v, k)) => Ok((v as i64, k)),
            Err(e) => Err(e),
        }
    }

    open spec fn spec_read_refused(s: Seq<u8>) -> bool {
        false
    }

    fn deserialize(de: &mut ReadDeserializer) -> (r: Result<i64>) {
        de.deserialize_i64()
    }
}

impl Codec for i64 {
    proof fn lemma_round_trip(m: i64, rest: Seq<u8>) {
        lemma_pow256();
        lemma_parse_le_round_trip(to_twos(m as int, 0x1_0000_0000_0000_0000), 8, rest);
    }
}

impl Serialize for String {
    open spec fn spec_serialize(m: Seq<char>) -> core::result::Result<Seq<u8>, Error> {
        if encode_utf8(m).len() > usize::MAX {
            Err(Error::Overflow)
        } else {
            Ok(uleb_bytes(encode_utf8(m).len()) + encode_utf8(m))
        }
    }

    open spec fn spec_write_refused(m: Seq<char>) -> bool {
        false
    }

    fn serialize(&self, ser: &mut WriteSerializer) -> (r: Result<()>) {
        let s = self.as_str();
        let _len = s.as_bytes().len();
        ser.serialize_str(s);
        Ok(())
    }
}

impl Deserialize for String {
    open spec fn spec_deserialize(s: Seq<u8>) -> core::result::Result<(Seq<char>, nat), Error> {
        parse_string(s)
    }

    open spec fn spec_read_refused(s: Seq<u8>) -> bool {
        false
    }

    fn deserialize(de: &mut ReadDeserializer) -> (r: Result<String>) {
        de.deserialize_string()
    }
}

impl Codec for String {
    proof fn lemma_round_trip(m: Seq<char>, rest: Seq<u8>) {
        let b = encode_utf8(m);
        let s = uleb_bytes(b.len()) + b + rest;
        lemma_uleb_round_trip(b.len(), b + rest);
        assert(s =~= uleb_bytes(b.len()) + (b + rest));
        let k = uleb_bytes(b.len()).len();
        assert(s.subrange(k as int, (k + b.len()) as int) =~= b);
        encode_utf8_valid_utf8(m);
        encode_utf8_decode_utf8(m);
    }
}

impl<A: Serialize, B: Serialize> Serialize for (A, B) {
    open spec fn spec_serialize(m: (A::V, B::V)) -> core::result::Result<Seq<u8>, Error> {
        match A::spec_serialize(m.0) {
            Ok(x) => match B::spec_serialize(m.1) {
                Ok(y) => Ok(x + y),
                Err(e) => Err(e),
            },
            Err(e) => Err(e),
        }
    }

    open spec fn spec_write_refused(m: (A::V, B::V)) -> bool {
        A::spec_serialize(m.0) is Err && A::spec_write_refused(m.0)
    }

    fn serialize(&self, ser: &mut WriteSerializer) -> (r: Result<()>) {
        self.0.serialize(ser)?;
        self.1.serialize(ser)?;
        assert(ser.written() =~= old(ser).written() + Self::spec_serialize(self.deep_view())->Ok_0);
        Ok(())
    }
}

impl<A: Deserialize, B: Deserialize> Deserialize for (A, B) {
    open spec fn spec_deserialize(s: Seq<u8>) -> core::result::Result<((A::V, B::V), nat), Error> {
        match A::spec_deserialize(s) {
            Ok((a, k1)) => match B::spec_deserialize(s.skip(k1 as int)) {
                Ok((b, k2)) => Ok(((a, b), k1 + k2)),
                Err(e) => Err(e),
            },
            Err(e) => Err(e),
        }
    }

    open spec fn spec_read_refused(s: Seq<u8>) -> bool {
        A::spec_deserialize(s) is Err && A::spec_read_refused(s)
    }

    fn deserialize(de: &mut ReadDeserializer) -> (r: Result<(A, B)>) {
        let ghost s = de.rest();
        let a = A::deserialize(de)?;
        assert(de.rest() =~= s.skip(de.pos() - old(de).pos()));
        let b = B::deserialize(de)?;
        Ok((a, b))
    }
}

impl<A: Codec, B: Codec> Codec for (A, B) {
    proof fn lemma_round_trip(m: (A::V, B::V), rest: Seq<u8>) {
        let x = A::spec_serialize(m.0)->Ok_0;
        let y = B::spec_serialize(m.1)->Ok_0;
        A::lemma_round_trip(m.0, y + rest);
        B::lemma_round_trip(m.1, rest);
        assert(x + y + rest =~= x + (y + rest));
        assert((x + y + rest).skip(x.len() as int) =~= y + rest);
    }
}

impl<A: Serialize, B: Serialize, C: Serialize> Serialize for (A, B, C) {
    open spec fn spec_serialize(m: (A::V, B::V, C::V)) -> core::result::Result<Seq<u8>, Error> {
        match A::spec_serialize(m.0) {
            Ok(x0) => {
                match B::spec_serialize(m.1) {
                    Ok(x1) => {
                        match C::spec_serialize(m.2) {
                            Ok(x2) => {
                                Ok(x0 + x1 + x2)
                            },
                            Err(e) => Err(e),
                        }
                    },
                    Err(e) => Err(e),
                }
            },
            Err(e) => Err(e),
        }
    }

    open spec fn spec_write_refused(m: (A::V, B::V, C::V)) -> bool {
        A::spec_serialize(m.0) is Err && A::spec_write_refused(m.0)
    }

    fn serialize(&self, ser: &mut WriteSerializer) -> (r: Result<()>) {
        self.0.serialize(ser)?;
        self.1.serialize(ser)?;
        self.2.serialize(ser)?;
        assert(ser.written() =~= old(ser).written() + Self::spec_serialize(self.deep_view())->Ok_0);
        Ok(())
    }
}

impl<A: Deserialize, B: Deserialize, C: Deserialize> Deserialize for (A, B, C) {
    open spec fn spec_deserialize(s: Seq<u8>) -> core::result::Result<((A::V, B::V, C::V), nat), Error> {
        match A::spec_deserialize(s) {
            Ok((v0, k0)) => {
                match B::spec_deserialize(s.skip((k0) as int)) {
                    Ok((v1, k1)) => {
                        match C::spec_deserialize(s.skip((k0 + k1) as int)) {
                            Ok((v2, k2)) => {
                                Ok(((v0, v1, v2), k0 + k1 + k2))
                            },
                            Err(e) => Err(e),
                        }
                    },
                    Err(e) => Err(e),
                }
            },
            Err(e) => Err(e),
        }
    }

    open spec fn spec_read_refused(s: Seq<u8>) -> bool {
        A::spec_deserialize(s) is Err && A::spec_read_refused(s)
    }

    fn deserialize(de: &mut ReadDeserializer) -> (r: Result<(A, B, C)>) {
        let ghost s = de.rest();
        let v0 = A::deserialize(de)?;
        assert(de.rest() =~= s.skip(de.pos() - old(de).pos()));
        let v1 = B::deserialize(de)?;
        assert(de.rest() =~= s.skip(de.pos() - old(de).pos()));
        let v2 = C::deserialize(de)?;
        Ok((v0, v1, v2))
    }
}

impl<A: Codec, B: Codec, C: Codec> Codec for (A, B, C) {
    proof fn lemma_round_trip(m: (A::V, B::V, C::V), rest: Seq<u8>) {
        let x0 = A::spec_serialize(m.0)->Ok_0;
        let x1 = B::spec_serialize(m.1)->Ok_0;
        let x2 = C::spec_serialize(m.2)->Ok_0;
        A::lemma_round_trip(m.0, x1 + (x2 + rest));
        B::lemma_round_trip(m.1, x2 + rest);
        C::lemma_round_trip(m.2, rest);
        let s = x0 + x1 + x2 + rest;
        assert(s.skip(x0.len() as int) =~= x1 + (x2 + rest));
        assert(s.skip((x0.len() + x1.len()) as int) =~= x2 + rest);
        assert(s =~= x0 + (x1 + (x2 + rest)));
    }
}

impl<A: Serialize, B: Serialize, C: Serialize, D: Serialize> Serialize for (A, B, C, D) {
    open spec fn spec_serialize(m: (A::V, B::V, C::V, D::V)) -> core::result::Result<Seq<u8>, Error> {
        match A::spec_serialize(m.0) {
            Ok(x0) => {
                match B::spec_serialize(m.1) {
                    Ok(x1) => {
                        match C::spec_serialize(m.2) {
                            Ok(x2) => {
                                match D::spec_serialize(m.3) {
                                    Ok(x3) => {
                                        Ok(x0 + x1 + x2 + x3)
                                    },
                                    Err(e) => Err(e),
                                }
                            },
                            Err(e) => Err(e),
                        }
                    },
                    Err(e) => Err(e),
                }
            },
            Err(e) => Err(e),
        }
    }

    open spec fn spec_write_refused(m: (A::V, B::V, C::V, D::V)) -> bool {
        A::spec_serialize(m.0) is Err && A::spec_write_refused(m.0)
    }

    fn serialize(&self, ser: &mut WriteSerializer) -> (r: Result<()>) {
        self.0.serialize(ser)?;
        self.1.serialize(ser)?;
        self.2.serialize(ser)?;
        self.3.serialize(ser)?;
        assert(ser.written() =~= old(ser).written() + Self::spec_serialize(self.deep_view())->Ok_0);
        Ok(())
    }
}

impl<A: Deserialize, B: Deserialize, C: Deserialize, D: Deserialize> Deserialize for (A, B, C, D) {
    open spec fn spec_deserialize(s: Seq<u8>) -> core::result::Result<((A::V, B::V, C::V, D::V), nat), Error> {
        match A::spec_deserialize(s) {
            Ok((v0, k0)) => {
                match B::spec_deserialize(s.skip((k0) as int)) {
                    Ok((v1, k1)) => {
                        match C::spec_deserialize(s.skip((k0 + k1) as int)) {
                            Ok((v2, k2)) => {
                                match D::spec_deserialize(s.skip((k0 + k1 + k2) as int)) {
                                    Ok((v3, k3)) => {
                                        Ok(((v0, v1, v2, v3), k0 + k1 + k2 + k3))
                                    },
                                    Err(e) => Err(e),
                                }
                            },
                            Err(e) => Err(e),
                        }
                    },
                    Err(e) => Err(e),
                }
            },
            Err(e) => Err(e),
        }
    }

    open spec fn spec_read_refused(s: Seq<u8>) -> bool {
        A::spec_deserialize(s) is Err && A::spec_read_refused(s)
    }

    fn deserialize(de: &mut ReadDeserializer) -> (r: Result<(A, B, C, D)>) {
        let ghost s = de.rest();
        let v0 = A::deserialize(de)?;
        assert(de.rest() =~= s.skip(de.pos() - old(de).pos()));
        let v1 = B::deserialize(de)?;
        assert(de.rest() =~= s.skip(de.pos() - old(de).pos()));
        let v2 = C::deserialize(de)?;
        assert(de.rest() =~= s.skip(de.pos() - old(de).pos()));
        let v3 = D::deserialize(de)?;
        Ok((v0, v1, v2, v3))
    }
}

impl<A: Codec, B: Codec, C: Codec, D: Codec> Codec for (A, B, C, D) {
    proof fn lemma_round_trip(m: (A::V, B::V, C::V, D::V), rest: Seq<u8>) {
        let x0 = A::spec_serialize(m.0)->Ok_0;
        let x1 = B::spec_serialize(m.1)->Ok_0;
        let x2 = C::spec_serialize(m.2)->Ok_0;
        let x3 = D::spec_serialize(m.3)->Ok_0;
        A::lemma_round_trip(m.0, x1 + (x2 + (x3 + rest)));
        B::lemma_round_trip(m.1, x2 + (x3 + rest));
        C::lemma_round_trip(m.2, x3 + rest);
        D::lemma_round_trip(m.3, rest);
        let s = x0 + x1 + x2 + x3 + rest;
        assert(s.skip(x0.len() as int) =~= x1 + (x2 + (x3 + rest)));
        assert(s.skip((x0.len() + x1.len()) as int) =~= x2 + (x3 + rest));
        assert(s.skip((x0.len() + x1.len() + x2.len()) as int) =~= x3 + rest);
        assert(s =~= x0 + (x1 + (x2 + (x3 + rest))));
    }
}

impl<T: DeepView> Serialize for Option<T> {
    /// The format has no way to mark a value as absent.
    open spec fn spec_serialize(m: Option<T::V>) -> core::result::Result<Seq<u8>, Error> {
        Err(Error::Unsupported)
    }

    open spec fn spec_write_refused(m: Option<T::V>) -> bool {
        true
    }

    fn serialize(&self, ser: &mut WriteSerializer) -> (r: Result<()>) {
        Err(Error::Unsupported)
    }
}

impl<T: DeepView> Deserialize for Option<T> {
    open spec fn spec_deserialize(s: Seq<u8>) -> core::result::Result<(Option<T::V>, nat), Error> {
        Err(Error::Unsupported)
    }

    open spec fn spec_read_refused(s: Seq<u8>) -> bool {
        true
    }

    fn deserialize(de: &mut ReadDeserializer) -> (r: Result<Option<T>>) {
        Err(Error::Unsupported)
    }
}

impl Serialize for () {
    /// The format has no unit value.
    open spec fn spec_serialize(m: ()) -> core::result::Result<Seq<u8>, Error> {
        Err(Error::Unsupported)
    }

    open spec fn spec_write_refused(m: ()) -> bool {
        true
    }

    fn serialize(&self, ser: &mut WriteSerializer) -> (r: Result<()>) {
        Err(Error::Unsupported)
    }
}

impl Deserialize for () {
    open spec fn spec_deserialize(s: Seq<u8>) -> core::result::Result<((), nat), Error> {
        Err(Error::Unsupported)
    }

    open spec fn spec_read_refused(s: Seq<u8>) -> bool {
        true
    }

    fn deserialize(de: &mut ReadDeserializer) -> (r: Result<()>) {
        Err(Error::Unsupported)
    }
}

impl Serialize for char {
    /// The format stores text only as strings, never as single code points.
    open spec fn spec_serialize(m: char) -> core::result::Result<Seq<u8>, Error> {
        Err(Error::Unsupported)
    }

    open spec fn spec_write_refused(m: char) -> bool {
        true
    }

    fn serialize(&self, ser: &mut WriteSerializer) -> (r: Result<()>) {
        Err(Error::Unsupported)
    }
}

impl Deserialize for char {
    open spec fn spec_deserialize(s: Seq<u8>) -> core::result::Result<(char, nat), Error> {
        Err(Error::Unsupported)
    }

    open spec fn spec_read_refused(s: Seq<u8>) -> bool {
        true
    }

    fn deserialize(de: &mut ReadDeserializer) -> (r: Result<char>) {
        Err(Error::Unsupported)
    }
}

} // verus!

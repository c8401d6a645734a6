//! Length-prefixed collections: a 16-bit, 32-bit or ULEB128 element count
//! before the elements, or a 16-bit bit count before packed boolean flags.
use vstd::prelude::*;

use crate::codec::{Codec, Deserialize, Serialize};
use crate::de::{parse_size, ReadDeserializer};
use crate::error::Error;
use crate::error::Result;
use crate::le::{le_bytes, lemma_le_value_bound, lemma_parse_le_round_trip, lemma_pow256, parse_le};
use crate::ser::WriteSerializer;
use crate::uleb::{lemma_uleb_round_trip, uleb_bytes};

verus! {

/// Boolean flags behind a 16-bit bit count, packed eight to a byte, least
/// significant bit first.
pub struct VecI16Flags(pub Vec<bool>);

/// Elements behind a ULEB128 element count.
pub struct VecULEB128<T>(pub Vec<T>);

/// Elements behind a 16-bit little-endian element count.
pub struct VecI16<T>(pub Vec<T>);

/// Elements behind a 32-bit little-endian element count.
pub struct VecI32<T>(pub Vec<T>);

/// Reading `n` values of `T` one after the other from the front of `s`.
pub open spec fn parse_elems<T: Deserialize>(s: Seq<u8>, n: nat) -> core::result::Result<
    (Seq<T::V>, nat),
    Error,
>
    decreases n,
{
    if n == 0 {
        Ok((seq![], 0))
    } else {
        match parse_elems::<T>(s, (n - 1) as nat) {
            Ok((xs, k)) => match T::spec_deserialize(s.skip(k as int)) {
                Ok((x, k1)) => Ok((xs.push(x), k + k1)),
                Err(e) => Err(e),
            },
            Err(e) => Err(e),
        }
    }
}

/// The bytes of values of `T` one after the other, or the first error met.
pub open spec fn serialize_elems<T: Serialize>(ms: Seq<T::V>) -> core::result::Result<
    Seq<u8>,
    Error,
>
    decreases ms.len(),
{
    if ms.len() == 0 {
        Ok(seq![])
    } else {
        match serialize_elems::<T>(ms.drop_last()) {
            Ok(b) => match T::spec_serialize(ms.last()) {
                Ok(c) => Ok(b + c),
                Err(e) => Err(e),
            },
            Err(e) => Err(e),
        }
    }
}

/// Flag `j` (0 to 7) of a byte, least significant first.
pub open spec fn bit_of(x: u8, j: nat) -> bool {
    (x >> (j as u8)) & 1u8 == 1u8
}

/// The first `b` flags that `bytes` hold.
pub open spec fn unpack_flags(bytes: Seq<u8>, b: nat) -> Seq<bool> {
    Seq::new(b, |i: int| bit_of(bytes[i / 8], (i % 8) as nat))
}

/// The byte whose low `j` bits are the flags of `fs` from `start` on, the
/// flags past the end counting as clear.
pub open spec fn pack_bits(fs: Seq<bool>, start: int, j: nat) -> u8
    decreases j,
{
    if j == 0 {
        0u8
    } else {
        pack_bits(fs, start, (j - 1) as nat) | (if start + j - 1 < fs.len() && fs[start + j
            - 1] {
            1u8 << ((j - 1) as u8)
        } else {
            0u8
        })
    }
}

/// The flags packed eight to a byte, the last byte padded with clear bits.
pub open spec fn pack_flags(fs: Seq<bool>) -> Seq<u8> {
    Seq::new((fs.len() + 7) / 8, |k: int| pack_bits(fs, 8 * k, 8))
}

/// A cursor over a declared number of elements: it hands out exactly that
/// many, counting each one, and then reports that none are left.
pub struct ValueSized {
    declared: usize,
    taken: usize,
}

impl ValueSized {
    /// How many elements the cursor was made for.
    pub closed spec fn declared(&self) -> nat {
        self.declared as nat
    }

    /// How many elements have been handed out.
    pub closed spec fn taken(&self) -> nat {
        self.taken as nat
    }

    pub open spec fn wf(&self) -> bool {
        self.taken() <= self.declared()
    }

    /// How many elements are still to come.
    pub open spec fn size(&self) -> nat {
        (self.declared() - self.taken()) as nat
    }

    /// A cursor over `size` elements, none handed out yet.
    pub fn new(size: usize) -> (r: ValueSized)
        ensures
            r.wf(),
            r.declared() == size,
            r.taken() == 0,
    {
        ValueSized { declared: size, taken: 0 }
    }

    /// How many elements are still to come.
    pub fn size_hint(&self) -> (r: usize)
        requires
            self.wf(),
        ensures
            r == self.size(),
    {
        self.declared - self.taken
    }

    /// Reads the next element and counts it, or yields `None`, without
    /// touching the input, once all declared elements have been handed out.
    pub fn next_element<T: Deserialize>(&mut self, de: &mut ReadDeserializer) -> (r: Result<
        Option<T>,
    >)
        requires
            old(self).wf(),
            old(de).wf(),
        ensures
            final(self).wf(),
            final(self).declared() == old(self).declared(),
            final(de).wf(),
            final(de).data() == old(de).data(),
            old(self).taken() == old(self).declared() ==> r == Ok::<Option<T>, Error>(None)
                && final(de).pos() == old(de).pos() && final(self).taken() == old(self).taken(),
            old(self).taken() < old(self).declared() ==> final(self).taken() == old(self).taken()
                + 1 && match T::spec_deserialize(old(de).rest()) {
                Ok((m, k)) => r is Ok && r->Ok_0 is Some && r->Ok_0->Some_0.deep_view() == m
                    && final(de).pos() == old(de).pos() + k,
                Err(e) => r == Err::<Option<T>, Error>(e),
            },
    {
        if self.taken == self.declared {
            return Ok(None);
        }
        self.taken = self.taken + 1;
        let v = T::deserialize(de)?;
        Ok(Some(v))
    }
}

/// Once reading some first elements fails, reading more fails the same way.
pub proof fn lemma_parse_elems_err<T: Deserialize>(s: Seq<u8>, i: nat, n: nat)
    requires
        i <= n,
        parse_elems::<T>(s, i) is Err,
    ensures
        parse_elems::<T>(s, n) == parse_elems::<T>(s, i),
    decreases n - i,
{
    if i < n {
        lemma_parse_elems_err::<T>(s, i, (n - 1) as nat);
    }
}

/// Reading `n` elements, where it succeeds, yields exactly `n` of them.
pub proof fn lemma_parse_elems_len<T: Deserialize>(s: Seq<u8>, n: nat)
    requires
        parse_elems::<T>(s, n) is Ok,
    ensures
        parse_elems::<T>(s, n)->Ok_0.0.len() == n,
    decreases n,
{
    if n > 0 {
        lemma_parse_elems_len::<T>(s, (n - 1) as nat);
    }
}

/// Once writing some first elements fails, writing more fails the same way.
pub proof fn lemma_serialize_elems_err<T: Serialize>(ms: Seq<T::V>, i: nat, n: nat)
    requires
        i <= n <= ms.len(),
        serialize_elems::<T>(ms.take(i as int)) is Err,
    ensures
        serialize_elems::<T>(ms.take(n as int)) == serialize_elems::<T>(ms.take(i as int)),
    decreases n - i,
{
    if i < n {
        lemma_serialize_elems_err::<T>(ms, i, (n - 1) as nat);
        assert(ms.take(n as int).drop_last() =~= ms.take(n - 1));
    }
}

/// Elements written one after the other read back, whatever follows them.
pub proof fn lemma_elems_round_trip<T: Codec>(ms: Seq<T::V>, rest: Seq<u8>)
    requires
        serialize_elems::<T>(ms) is Ok,
    ensures
        parse_elems::<T>(serialize_elems::<T>(ms)->Ok_0 + rest, ms.len()) == Ok::<
            (Seq<T::V>, nat),
            Error,
        >((ms, serialize_elems::<T>(ms)->Ok_0.len())),
    decreases ms.len(),
{
    if ms.len() > 0 {
        let init = ms.drop_last();
        let b = serialize_elems::<T>(init)->Ok_0;
        let c = T::spec_serialize(ms.last())->Ok_0;
        let s = b + c + rest;
        assert(serialize_elems::<T>(ms)->Ok_0 == b + c);
        assert(s =~= b + (c + rest));
        lemma_elems_round_trip::<T>(init, c + rest);
        assert(init.len() == ms.len() - 1);
        assert(parse_elems::<T>(s, init.len()) == Ok::<(Seq<T::V>, nat), Error>((init, b.len())));
        assert(s.skip(b.len() as int) =~= c + rest);
        T::lemma_round_trip(ms.last(), rest);
        assert(T::spec_deserialize(s.skip(b.len() as int)) == Ok::<(T::V, nat), Error>(
            (ms.last(), c.len()),
        ));
        assert(init.push(ms.last()) =~= ms);
    } else {
        assert(ms =~= Seq::<T::V>::empty());
    }
}

/// Bit `i` of a packed byte is the flag at `start + i`, or clear past `j`.
proof fn lemma_pack_bits(fs: Seq<bool>, start: int, j: nat, i: nat)
    requires
        0 <= start,
        j <= 8,
        i < 8,
    ensures
        bit_of(pack_bits(fs, start, j), i) == (i < j && start + i < fs.len() && fs[start + i]),
    decreases j,
{
    let iu = i as u8;
    if j == 0 {
        assert((0u8 >> iu) & 1u8 == 0u8) by (bit_vector);
    } else {
        lemma_pack_bits(fs, start, (j - 1) as nat, i);
        let x = pack_bits(fs, start, (j - 1) as nat);
        let k = (j - 1) as u8;
        if start + j - 1 < fs.len() && fs[start + j - 1] {
            assert(((x | (1u8 << k)) >> iu) & 1u8 == (if iu == k {
                1u8
            } else {
                (x >> iu) & 1u8
            })) by (bit_vector)
                requires
                    k < 8,
                    iu < 8,
            ;
        } else {
            assert(x | 0u8 == x) by (bit_vector);
        }
    }
}

/// Packed flags unpack to themselves.
pub proof fn lemma_flags_round_trip(fs: Seq<bool>)
    ensures
        pack_flags(fs).len() == (fs.len() + 7) / 8,
        unpack_flags(pack_flags(fs), fs.len()) == fs,
{
    let bytes = pack_flags(fs);
    assert forall|i: int| 0 <= i < fs.len() implies #[trigger] unpack_flags(bytes, fs.len())[i]
        == fs[i] by {
        vstd::arithmetic::div_mod::lemma_fundamental_div_mod(i, 8);
        assert(i / 8 < (fs.len() + 7) / 8) by (nonlinear_arith)
            requires
                0 <= i < fs.len(),
        ;
        lemma_pack_bits(fs, 8 * (i / 8), 8, (i % 8) as nat);
    }
    assert(unpack_flags(bytes, fs.len()) =~= fs);
}

impl ReadDeserializer {
    /// Reads exactly `n` elements of `T` through a counted element cursor.
    pub fn deserialize_elements<T: Deserialize>(&mut self, n: usize) -> (r: Result<Vec<T>>)
        requires
            old(self).wf(),
        ensures
            final(self).wf(),
            final(self).data() == old(self).data(),
            match parse_elems::<T>(old(self).rest(), n as nat) {
                Ok((ms, k)) => r is Ok && r->Ok_0.deep_view() == ms && final(self).pos() == old(
                    self,
                ).pos() + k,
                Err(e) => r == Err::<Vec<T>, Error>(e),
            },
    {
        let ghost s = self.rest();
        let ghost start = self.pos();
        let mut seq = ValueSized::new(n);
        let mut items: Vec<T> = Vec::new();
        assert(items.deep_view() =~= Seq::<T::V>::empty());
        loop
            invariant
                self.wf(),
                self.data() == old(self).data(),
                s == old(self).rest(),
                start == old(self).pos(),
                0 <= start <= self.pos(),
                s == self.data().subrange(start, self.data().len() as int),
                seq.wf(),
                seq.declared() == n,
                items.len() == seq.taken(),
                parse_elems::<T>(s, items.len() as nat) == Ok::<(Seq<T::V>, nat), Error>(
                    (items.deep_view(), (self.pos() - start) as nat),
                ),
            decreases seq.size(),
        {
            let ghost before = self.rest();
            let ghost dv = items.deep_view();
            let ghost i = items.len();
            assert(before =~= s.skip(self.pos() - start));
            match seq.next_element::<T>(self) {
                Ok(Some(x)) => {
                    items.push(x);
                    assert(items.deep_view() =~= dv.push(x.deep_view()));
                },
                Ok(None) => {
                    return Ok(items);
                },
                Err(e) => {
                    proof {
                        lemma_parse_elems_err::<T>(s, (i + 1) as nat, n as nat);
                    }
                    return Err(e);
                },
            }
        }
    }

    /// Elements behind a 16-bit count; a negative count is an `Overflow`.
    pub fn deserialize_vec_i16<T: Deserialize>(&mut self) -> (r: Result<Vec<T>>)
        requires
            old(self).wf(),
        ensures
            final(self).wf(),
            final(self).data() == old(self).data(),
            match VecI16::<T>::spec_deserialize(old(self).rest()) {
                Ok((ms, k)) => r is Ok && r->Ok_0.deep_view() == ms && final(self).pos() == old(
                    self,
                ).pos() + k,
                Err(e) => r == Err::<Vec<T>, Error>(e),
            },
    {
        let ghost s = self.rest();
        let n = self.deserialize_i16()?;
        let ghost u = parse_le(s, 2)->Ok_0.0;
        proof {
            lemma_le_value_bound(s.take(2));
            lemma_pow256();
        }
        if n < 0 {
            assert(u >= 0x8000);
            return Err(Error::Overflow);
        }
        assert(u < 0x8000 && n == u);
        assert(self.rest() =~= s.skip(2));
        self.deserialize_elements::<T>(n as usize)
    }

    /// Elements behind a 32-bit count; a negative count is an `Overflow`.
    pub fn deserialize_vec_i32<T: Deserialize>(&mut self) -> (r: Result<Vec<T>>)
        requires
            old(self).wf(),
        ensures
            final(self).wf(),
            final(self).data() == old(self).data(),
            match VecI32::<T>::spec_deserialize(old(self).rest()) {
                Ok((ms, k)) => r is Ok && r->Ok_0.deep_view() == ms && final(self).pos() == old(
                    self,
                ).pos() + k,
                Err(e) => r == Err::<Vec<T>, Error>(e),
            },
    {
        let ghost s = self.rest();
        let n = self.deserialize_i32()?;
        let ghost u = parse_le(s, 4)->Ok_0.0;
        proof {
            lemma_le_value_bound(s.take(4));
            lemma_pow256();
        }
        if n < 0 {
            assert(u >= 0x8000_0000);
            return Err(Error::Overflow);
        }
        assert(u < 0x8000_0000 && n == u);
        assert(self.rest() =~= s.skip(4));
        self.deserialize_elements::<T>(n as usize)
    }

    /// Elements behind a ULEB128 count.
    pub fn deserialize_vec_uleb128<T: Deserialize>(&mut self) -> (r: Result<Vec<T>>)
        requires
            old(self).wf(),
        ensures
            final(self).wf(),
            final(self).data() == old(self).data(),
            match VecULEB128::<T>::spec_deserialize(old(self).rest()) {
                Ok((ms, k)) => r is Ok && r->Ok_0.deep_view() == ms && final(self).pos() == old(
                    self,
                ).pos() + k,
                Err(e) => r == Err::<Vec<T>, Error>(e),
            },
    {
        let ghost s = self.rest();
        let n = self.read_uleb128()?;
        assert(self.rest() =~= s.skip(self.pos() - old(self).pos()));
        self.deserialize_elements::<T>(n)
    }

    /// Flags behind a 16-bit bit count: `ceil(count / 8)` bytes, of which
    /// exactly `count` bits are kept; a negative count is an `Overflow`.
    pub fn deserialize_vec_i16flags(&mut self) -> (r: Result<Vec<bool>>)
        requires
            old(self).wf(),
        ensures
            final(self).wf(),
            final(self).data() == old(self).data(),
            match VecI16Flags::spec_deserialize(old(self).rest()) {
                Ok((fs, k)) => r is Ok && r->Ok_0@ == fs && final(self).pos() == old(self).pos()
                    + k,
                Err(e) => r == Err::<Vec<bool>, Error>(e),
            },
    {
        let ghost s = self.rest();
        let n = self.deserialize_i16()?;
        let ghost u = parse_le(s, 2)->Ok_0.0;
        proof {
            lemma_le_value_bound(s.take(2));
            lemma_pow256();
        }
        if n < 0 {
            assert(u >= 0x8000);
            return Err(Error::Overflow);
        }
        assert(u < 0x8000 && n == u);
        let count = n as usize;
        assert(self.rest() =~= s.skip(2));
        assert(s.len() - 2 == self.rest().len());
        let bytes = self.read_bytes((count + 7) / 8)?;
        let mut flags: Vec<bool> = Vec::new();
        let mut i: usize = 0;
        while i < count
            invariant
                i <= count,
                bytes@.len() == (count + 7) / 8,
                flags@ == unpack_flags(bytes@, i as nat),
            decreases count - i,
        {
            assert(i / 8 < (count + 7) / 8) by (nonlinear_arith)
                requires
                    i < count,
            ;
            let byte = bytes[i / 8];
            let bit = (byte >> ((i % 8) as u8)) & 1u8 == 1u8;
            flags.push(bit);
            i = i + 1;
            assert(flags@ =~= unpack_flags(bytes@, i as nat));
        }
        assert(bytes@ =~= s.subrange(2, 2 + (count + 7) / 8));
        Ok(flags)
    }
}

impl WriteSerializer {
    /// Writes the elements one after the other, stopping at the first error.
    pub fn serialize_elements<T: Serialize>(&mut self, items: &Vec<T>) -> (r: Result<()>)
        ensures
            match serialize_elems::<T>(items.deep_view()) {
                Ok(b) => r is Ok && final(self).written() == old(self).written() + b,
                Err(e) => r == Err::<(), Error>(e),
            },
    {
        let ghost ms = items.deep_view();
        let ghost start = self.written();
        let mut i: usize = 0;
        assert(ms.take(0) =~= Seq::<T::V>::empty());
        while i < items.len()
            invariant
                i <= items.len(),
                ms == items.deep_view(),
                serialize_elems::<T>(ms.take(i as int)) is Ok,
                self.written() == start + serialize_elems::<T>(ms.take(i as int))->Ok_0,
            decreases items.len() - i,
        {
            assert(ms.take(i + 1).drop_last() =~= ms.take(i as int));
            assert(ms.take(i + 1).last() == items[i as int].deep_view());
            let ghost before = self.written();
            match items[i].serialize(self) {
                Ok(()) => {
                    assert(self.written() =~= start + serialize_elems::<T>(
                        ms.take(i + 1),
                    )->Ok_0);
                },
                Err(e) => {
                    proof {
                        lemma_serialize_elems_err::<T>(ms, (i + 1) as nat, items.len() as nat);
                        assert(ms.take(items.len() as int) =~= ms);
                    }
                    return Err(e);
                },
            }
            i = i + 1;
        }
        assert(ms.take(items.len() as int) =~= ms);
        Ok(())
    }

    /// Elements behind a 16-bit count; more than `i16::MAX` is an `Overflow`.
    pub fn serialize_vec_i16<T: Serialize>(&mut self, items: &Vec<T>) -> (r: Result<()>)
        ensures
            match VecI16::<T>::spec_serialize(items.deep_view()) {
                Ok(b) => r is Ok && final(self).written() == old(self).written() + b,
                Err(e) => r == Err::<(), Error>(e) && (items.len() > 0x7fff ==> final(self).written() == old(
                    self,
                ).written()),
            },
    {
        if items.len() > 0x7fff {
            return Err(Error::Overflow);
        }
        self.serialize_i16(items.len() as i16);
        let ghost mid = self.written();
        self.serialize_elements(items)?;
        assert(self.written() =~= old(self).written() + VecI16::<T>::spec_serialize(
            items.deep_view(),
        )->Ok_0);
        Ok(())
    }

    /// Elements behind a 32-bit count; more than `i32::MAX` is an `Overflow`.
    pub fn serialize_vec_i32<T: Serialize>(&mut self, items: &Vec<T>) -> (r: Result<()>)
        ensures
            match VecI32::<T>::spec_serialize(items.deep_view()) {
                Ok(b) => r is Ok && final(self).written() == old(self).written() + b,
                Err(e) => r == Err::<(), Error>(e) && (items.len() > 0x7fff_ffff ==> final(self).written() == old(
                    self,
                ).written()),
            },
    {
        if items.len() > 0x7fff_ffff {
            return Err(Error::Overflow);
        }
        self.serialize_i32(items.len() as i32);
        self.serialize_elements(items)?;
        assert(self.written() =~= old(self).written() + VecI32::<T>::spec_serialize(
            items.deep_view(),
        )->Ok_0);
        Ok(())
    }

    /// Elements behind a ULEB128 count.
    pub fn serialize_vec_uleb128<T: Serialize>(&mut self, items: &Vec<T>) -> (r: Result<()>)
        ensures
            match VecULEB128::<T>::spec_serialize(items.deep_view()) {
                Ok(b) => r is Ok && final(self).written() == old(self).written() + b,
                Err(e) => r == Err::<(), Error>(e),
            },
    {
        self.write_uleb128(items.len() as u64);
        self.serialize_elements(items)?;
        assert(self.written() =~= old(self).written() + VecULEB128::<T>::spec_serialize(
            items.deep_view(),
        )->Ok_0);
        Ok(())
    }

    /// Flags behind a 16-bit bit count, packed eight to a byte, least
    /// significant bit first; more than `i16::MAX` flags is an `Overflow`.
    pub fn serialize_vec_i16flags(&mut self, flags: &Vec<bool>) -> (r: Result<()>)
        ensures
            match VecI16Flags::spec_serialize(flags@) {
                Ok(b) => r is Ok && final(self).written() == old(self).written() + b,
                Err(e) => r == Err::<(), Error>(e) && (flags.len() > 0x7fff ==> final(self).written() == old(
                    self,
                ).written()),
            },
    {
        if flags.len() > 0x7fff {
            return Err(Error::Overflow);
        }
        let ghost fs = flags@;
        self.serialize_i16(flags.len() as i16);
        let ghost mid = self.written();
        let nbytes = (flags.len() + 7) / 8;
        let mut k: usize = 0;
        assert(pack_flags(fs).take(0) =~= Seq::<u8>::empty());
        while k < nbytes
            invariant
                fs == flags@,
                nbytes == (fs.len() + 7) / 8,
                fs.len() <= 0x7fff,
                k <= nbytes,
                self.written() == mid + pack_flags(fs).take(k as int),
            decreases nbytes - k,
        {
            let mut byte: u8 = 0;
            let mut j: usize = 0;
            while j < 8
                invariant
                    fs == flags@,
                    fs.len() <= 0x7fff,
                    k < nbytes,
                    nbytes == (fs.len() + 7) / 8,
                    j <= 8,
                    byte == pack_bits(fs, 8 * k, j as nat),
                decreases 8 - j,
            {
                let idx = 8 * k + j;
                if idx < flags.len() && flags[idx] {
                    byte = byte | (1u8 << (j as u8));
                } else {
                    assert(byte | 0u8 == byte) by (bit_vector);
                }
                j = j + 1;
            }
            let ghost before = self.written();
            self.write_byte(byte);
            k = k + 1;
            assert(pack_flags(fs).take(k as int) =~= pack_flags(fs).take(k - 1).push(byte));
        }
        assert(pack_flags(fs).take(nbytes as int) =~= pack_flags(fs));
        assert(self.written() =~= old(self).written() + VecI16Flags::spec_serialize(fs)->Ok_0);
        Ok(())
    }
}

impl<T: DeepView> DeepView for VecI16<T> {
    type V = Seq<T::V>;

    open spec fn deep_view(&self) -> Seq<T::V> {
        self.0.deep_view()
    }
}

impl<T: DeepView> DeepView for VecI32<T> {
    type V = Seq<T::V>;

    open spec fn deep_view(&self) -> Seq<T::V> {
        self.0.deep_view()
    }
}

impl<T: DeepView> DeepView for VecULEB128<T> {
    type V = Seq<T::V>;

    open spec fn deep_view(&self) -> Seq<T::V> {
        self.0.deep_view()
    }
}

impl DeepView for VecI16Flags {
    type V = Seq<bool>;

    open spec fn deep_view(&self) -> Seq<bool> {
        self.0@
    }
}

impl<T: Serialize> Serialize for VecI16<T> {
    open spec fn spec_serialize(ms: Seq<T::V>) -> core::result::Result<Seq<u8>, Error> {
        if ms.len() > 0x7fff {
            Err(Error::Overflow)
        } else {
            match serialize_elems::<T>(ms) {
                Ok(b) => Ok(le_bytes(ms.len(), 2) + b),
                Err(e) => Err(e),
            }
        }
    }

    open spec fn spec_write_refused(ms: Seq<T::V>) -> bool {
        ms.len() > 0x7fff
    }

    fn serialize(&self, ser: &mut WriteSerializer) -> (r: Result<()>) {
        ser.serialize_vec_i16(&self.0)
    }
}

impl<T: Deserialize> Deserialize for VecI16<T> {
    open spec fn spec_deserialize(s: Seq<u8>) -> core::result::Result<(Seq<T::V>, nat), Error> {
        match parse_le(s, 2) {
            Ok((n, k)) => if n >= 0x8000 {
                Err(Error::Overflow)
            } else {
                match parse_elems::<T>(s.skip(k as int), n) {
                    Ok((ms, k1)) => Ok((ms, k + k1)),
                    Err(e) => Err(e),
                }
            },
            Err(e) => Err(e),
        }
    }

    open spec fn spec_read_refused(s: Seq<u8>) -> bool {
        false
    }

    fn deserialize(de: &mut ReadDeserializer) -> (r: Result<VecI16<T>>) {
        let v = de.deserialize_vec_i16::<T>()?;
        Ok(VecI16(v))
    }
}

impl<T: Codec> Codec for VecI16<T> {
    proof fn lemma_round_trip(ms: Seq<T::V>, rest: Seq<u8>) {
        let b = serialize_elems::<T>(ms)->Ok_0;
        let p = le_bytes(ms.len(), 2);
        lemma_pow256();
        lemma_parse_le_round_trip(ms.len(), 2, b + rest);
        assert(p + b + rest =~= p + (b + rest));
        assert((p + b + rest).skip(2) =~= b + rest);
        lemma_elems_round_trip::<T>(ms, rest);
    }
}

impl<T: Serialize> Serialize for VecI32<T> {
    open spec fn spec_serialize(ms: Seq<T::V>) -> core::result::Result<Seq<u8>, Error> {
        if ms.len() > 0x7fff_ffff {
            Err(Error::Overflow)
        } else {
            match serialize_elems::<T>(ms) {
                Ok(b) => Ok(le_bytes(ms.len(), 4) + b),
                Err(e) => Err(e),
            }
        }
    }

    open spec fn spec_write_refused(ms: Seq<T::V>) -> bool {
        ms.len() > 0x7fff_ffff
    }

    fn serialize(&self, ser: &mut WriteSerializer) -> (r: Result<()>) {
        ser.serialize_vec_i32(&self.0)
    }
}

impl<T: Deserialize> Deserialize for VecI32<T> {
    open spec fn spec_deserialize(s: Seq<u8>) -> core::result::Result<(Seq<T::V>, nat), Error> {
        match parse_le(s, 4) {
            Ok((n, k)) => if n >= 0x8000_0000 {
                Err(Error::Overflow)
            } else {
                match parse_elems::<T>(s.skip(k as int), n) {
                    Ok((ms, k1)) => Ok((ms, k + k1)),
                    Err(e) => Err(e),
                }
            },
            Err(e) => Err(e),
        }
    }

    open spec fn spec_read_refused(s: Seq<u8>) -> bool {
        false
    }

    fn deserialize(de: &mut ReadDeserializer) -> (r: Result<VecI32<T>>) {
        let v = de.deserialize_vec_i32::<T>()?;
        Ok(VecI32(v))
    }
}

impl<T: Codec> Codec for VecI32<T> {
    proof fn lemma_round_trip(ms: Seq<T::V>, rest: Seq<u8>) {
        let b = serialize_elems::<T>(ms)->Ok_0;
        let p = le_bytes(ms.len(), 4);
        lemma_pow256();
        lemma_parse_le_round_trip(ms.len(), 4, b + rest);
        assert(p + b + rest =~= p + (b + rest));
        assert((p + b + rest).skip(4) =~= b + rest);
        lemma_elems_round_trip::<T>(ms, rest);
    }
}

impl<T: Serialize> Serialize for VecULEB128<T> {
    open spec fn spec_serialize(ms: Seq<T::V>) -> core::result::Result<Seq<u8>, Error> {
        if ms.len() > usize::MAX {
            Err(Error::Overflow)
        } else {
            match serialize_elems::<T>(ms) {
                Ok(b) => Ok(uleb_bytes(ms.len()) + b),
                Err(e) => Err(e),
            }
        }
    }

    open spec fn spec_write_refused(ms: Seq<T::V>) -> bool {
        false
    }

    fn serialize(&self, ser: &mut WriteSerializer) -> (r: Result<()>) {
        ser.serialize_vec_uleb128(&self.0)
    }
}

impl<T: Deserialize> Deserialize for VecULEB128<T> {
    open spec fn spec_deserialize(s: Seq<u8>) -> core::result::Result<(Seq<T::V>, nat), Error> {
        match parse_size(s) {
            Ok((n, k)) => match parse_elems::<T>(s.skip(k as int), n) {
                Ok((ms, k1)) => Ok((ms, k + k1)),
                Err(e) => Err(e),
            },
            Err(e) => Err(e),
        }
    }

    open spec fn spec_read_refused(s: Seq<u8>) -> bool {
        false
    }

    fn deserialize(de: &mut ReadDeserializer) -> (r: Result<VecULEB128<T>>) {
        let v = de.deserialize_vec_uleb128::<T>()?;
        Ok(VecULEB128(v))
    }
}

impl<T: Codec> Codec for VecULEB128<T> {
    proof fn lemma_round_trip(ms: Seq<T::V>, rest: Seq<u8>) {
        let b = serialize_elems::<T>(ms)->Ok_0;
        let p = uleb_bytes(ms.len());
        lemma_uleb_round_trip(ms.len(), b + rest);
        assert(p + b + rest =~= p + (b + rest));
        assert((p + b + rest).skip(p.len() as int) =~= b + rest);
        lemma_elems_round_trip::<T>(ms, rest);
    }
}

impl Serialize for VecI16Flags {
    open spec fn spec_serialize(fs: Seq<bool>) -> core::result::Result<Seq<u8>, Error> {
        if fs.len() > 0x7fff {
            Err(Error::Overflow)
        } else {
            Ok(le_bytes(fs.len(), 2) + pack_flags(fs))
        }
    }

    open spec fn spec_write_refused(ms: Seq<bool>) -> bool {
        ms.len() > 0x7fff
    }

    fn serialize(&self, ser: &mut WriteSerializer) -> (r: Result<()>) {
        ser.serialize_vec_i16flags(&self.0)
    }
}

impl Deserialize for VecI16Flags {
    open spec fn spec_deserialize(s: Seq<u8>) -> core::result::Result<(Seq<bool>, nat), Error> {
        match parse_le(s, 2) {
            Ok((n, k)) => if n >= 0x8000 {
                Err(Error::Overflow)
            } else if s.len() - k < (n + 7) / 8 {
                Err(Error::IO)
            } else {
                Ok(
                    (
                        unpack_flags(s.subrange(k as int, (k + (n + 7) / 8) as int), n),
                        k + (n + 7) / 8,
                    ),
                )
            },
            Err(e) => Err(e),
        }
    }

    open spec fn spec_read_refused(s: Seq<u8>) -> bool {
        false
    }

    fn deserialize(de: &mut ReadDeserializer) -> (r: Result<VecI16Flags>) {
        let v = de.deserialize_vec_i16flags()?;
        Ok(VecI16Flags(v))
    }
}

impl Codec for VecI16Flags {
    proof fn lemma_round_trip(fs: Seq<bool>, rest: Seq<u8>) {
        let p = le_bytes(fs.len(), 2);
        let b = pack_flags(fs);
        lemma_pow256();
        lemma_parse_le_round_trip(fs.len(), 2, b + rest);
        assert(p + b + rest =~= p + (b + rest));
        lemma_flags_round_trip(fs);
        assert((p + b + rest).subrange(2, (2 + (fs.len() + 7) / 8) as int) =~= b);
    }
}

} // verus!

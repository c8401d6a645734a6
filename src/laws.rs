//! Properties of the format as a whole, proved from the contracts above.
use vstd::arithmetic::power::pow;
use vstd::prelude::*;
use vstd::utf8::{encode_utf8, valid_utf8};

use crate::codec::{Codec, Deserialize, Serialize};
use crate::de::{parse_size, parse_sized_bytes};
use crate::error::Error;
use crate::le::{le_value, parse_le};
use crate::uleb::{
    bit_len, lemma_uleb_len, lemma_uleb_len_bits, lemma_uleb_round_trip, uleb_bytes, uleb_parse,
};
use crate::vec::{
    lemma_parse_elems_err, lemma_parse_elems_len, lemma_serialize_elems_err, parse_elems,
    serialize_elems, VecI16, VecI16Flags, VecI32, VecULEB128,
};

verus! {

/// Writing `m` succeeds, and reading the bytes written gives `m` back,
/// taking all of them.
pub open spec fn decodes_back<T: Codec>(m: T::V) -> bool {
    &&& T::spec_serialize(m) is Ok
    &&& T::spec_deserialize(T::spec_serialize(m)->Ok_0) == Ok::<(T::V, nat), Error>(
        (m, T::spec_serialize(m)->Ok_0.len()),
    )
}

proof fn lemma_decodes_back<T: Codec>(m: T::V)
    requires
        T::spec_serialize(m) is Ok,
    ensures
        decodes_back::<T>(m),
{
    let b = T::spec_serialize(m)->Ok_0;
    T::lemma_round_trip(m, Seq::empty());
    assert(b + Seq::<u8>::empty() =~= b);
}

/// Every value of every scalar type is written, and read back unchanged.
pub proof fn lemma_scalar_round_trip(
    b: bool,
    x8: u8,
    x16: u16,
    x32: u32,
    x64: u64,
    y8: i8,
    y16: i16,
    y32: i32,
    y64: i64,
)
    ensures
        decodes_back::<bool>(b),
        decodes_back::<u8>(x8),
        decodes_back::<u16>(x16),
        decodes_back::<u32>(x32),
        decodes_back::<u64>(x64),
        decodes_back::<i8>(y8),
        decodes_back::<i16>(y16),
        decodes_back::<i32>(y32),
        decodes_back::<i64>(y64),
{
    lemma_decodes_back::<bool>(b);
    lemma_decodes_back::<u8>(x8);
    lemma_decodes_back::<u16>(x16);
    lemma_decodes_back::<u32>(x32);
    lemma_decodes_back::<u64>(x64);
    lemma_decodes_back::<i8>(y8);
    lemma_decodes_back::<i16>(y16);
    lemma_decodes_back::<i32>(y32);
    lemma_decodes_back::<i64>(y64);
}

/// Every 64-bit number reads back from its ULEB128 bytes, and those bytes are
/// one group per started seven significant bits, at least one:
/// `max(1, ceil(bit_len(v) / 7))` groups, that is `k` groups where
/// `128^(k-1) <= v < 128^k`, or one group for `v < 128`.
pub proof fn lemma_varint_round_trip(v: u64)
    ensures
        uleb_parse(uleb_bytes(v as nat)) == Ok::<(nat, nat), Error>(
            (v as nat, uleb_bytes(v as nat).len()),
        ),
        v < pow(128, uleb_bytes(v as nat).len()),
        uleb_bytes(v as nat).len() == 1 || pow(128, (uleb_bytes(v as nat).len() - 1) as nat)
            <= v,
        uleb_bytes(v as nat).len() == if bit_len(v as nat) == 0 {
            1
        } else {
            (bit_len(v as nat) + 6) / 7
        },
{
    lemma_uleb_len_bits(v as nat);
    lemma_uleb_round_trip(v as nat, Seq::empty());
    assert(uleb_bytes(v as nat) + Seq::<u8>::empty() =~= uleb_bytes(v as nat));
    lemma_uleb_len(v as nat);
}

/// A string is written as its exact UTF-8 bytes behind their length, and reads
/// back unchanged.
pub proof fn lemma_string_round_trip(m: Seq<char>)
    requires
        encode_utf8(m).len() <= usize::MAX,
    ensures
        String::spec_serialize(m) == Ok::<Seq<u8>, Error>(
            uleb_bytes(encode_utf8(m).len()) + encode_utf8(m),
        ),
        decodes_back::<String>(m),
{
    lemma_decodes_back::<String>(m);
}

/// The exact bytes written for an empty string, an ASCII string and a
/// character with a two-byte encoding.
pub proof fn lemma_string_examples()
    ensures
        String::spec_serialize(seq![]) == Ok::<Seq<u8>, Error>(seq![0u8]),
        String::spec_serialize(seq!['a', 'b', 'c']) == Ok::<Seq<u8>, Error>(
            seq![3u8, 0x61u8, 0x62u8, 0x63u8],
        ),
        String::spec_serialize(seq!['\u{e9}']) == Ok::<Seq<u8>, Error>(seq![2u8, 0xc3u8, 0xa9u8]),
{
    let abc = seq!['a', 'b', 'c'];
    assert(abc.drop_first() =~= seq!['b', 'c']);
    assert(abc.drop_first().drop_first() =~= seq!['c']);
    assert(seq!['c'].drop_first() =~= Seq::<char>::empty());
    assert(seq!['\u{e9}'].drop_first() =~= Seq::<char>::empty());
    assert('a' as u32 == 0x61u32);
    assert((0x61u32 & 0x7Fu32) as u8 == 0x61u8) by (bit_vector);
    assert('b' as u32 == 0x62u32);
    assert((0x62u32 & 0x7Fu32) as u8 == 0x62u8) by (bit_vector);
    assert('c' as u32 == 0x63u32);
    assert((0x63u32 & 0x7Fu32) as u8 == 0x63u8) by (bit_vector);
    assert('\u{e9}' as u32 == 0xE9u32);
    assert(0xC0u8 | ((0xE9u32 >> 6u32) & 0x1Fu32) as u8 == 0xc3u8) by (bit_vector);
    assert(0x80u8 | (0xE9u32 & 0x3Fu32) as u8 == 0xa9u8) by (bit_vector);
    assert(encode_utf8(seq!['c']) =~= seq![0x63u8]);
    assert(encode_utf8(seq!['b', 'c']) =~= seq![0x62u8, 0x63u8]);
    assert(encode_utf8(abc) =~= seq![0x61u8, 0x62u8, 0x63u8]);
    assert(encode_utf8(seq!['\u{e9}']) =~= seq![0xc3u8, 0xa9u8]);
    assert(encode_utf8(Seq::<char>::empty()) =~= Seq::<u8>::empty());
    assert(uleb_bytes(0) + Seq::<u8>::empty() =~= seq![0u8]);
    assert(uleb_bytes(3) + seq![0x61u8, 0x62u8, 0x63u8] =~= seq![3u8, 0x61u8, 0x62u8, 0x63u8]);
    assert(uleb_bytes(2) + seq![0xc3u8, 0xa9u8] =~= seq![2u8, 0xc3u8, 0xa9u8]);
}

/// Bytes that are not UTF-8 are refused with `Overflow`.
pub proof fn lemma_invalid_utf8(s: Seq<u8>)
    requires
        parse_sized_bytes(s) is Ok,
        !valid_utf8(parse_sized_bytes(s)->Ok_0.0),
    ensures
        String::spec_deserialize(s) == Err::<(Seq<char>, nat), Error>(Error::Overflow),
{
}

/// Flags are written packed and read back unchanged.
pub proof fn lemma_flags_round_trip(fs: Seq<bool>)
    requires
        fs.len() <= 0x7fff,
    ensures
        decodes_back::<VecI16Flags>(fs),
{
    lemma_decodes_back::<VecI16Flags>(fs);
}

/// A collection that reads at all holds exactly the number of elements that
/// its prefix declares.
pub proof fn lemma_declared_count<T: Deserialize>(s: Seq<u8>)
    ensures
        VecI16::<T>::spec_deserialize(s) is Ok ==> VecI16::<T>::spec_deserialize(s)->Ok_0.0.len()
            == le_value(s.take(2)),
        VecI32::<T>::spec_deserialize(s) is Ok ==> VecI32::<T>::spec_deserialize(s)->Ok_0.0.len()
            == le_value(s.take(4)),
        VecULEB128::<T>::spec_deserialize(s) is Ok ==> VecULEB128::<T>::spec_deserialize(
            s,
        )->Ok_0.0.len() == parse_size(s)->Ok_0.0,
        VecI16Flags::spec_deserialize(s) is Ok ==> VecI16Flags::spec_deserialize(s)->Ok_0.0.len()
            == le_value(s.take(2)),
{
    if VecI16::<T>::spec_deserialize(s) is Ok {
        lemma_parse_elems_len::<T>(s.skip(2), le_value(s.take(2)));
    }
    if VecI32::<T>::spec_deserialize(s) is Ok {
        lemma_parse_elems_len::<T>(s.skip(4), le_value(s.take(4)));
    }
    if VecULEB128::<T>::spec_deserialize(s) is Ok {
        let (n, k) = parse_size(s)->Ok_0;
        lemma_parse_elems_len::<T>(s.skip(k as int), n);
    }
}

/// A collection reads back taking exactly its own bytes: whatever follows is
/// left for the next read.
pub proof fn lemma_trailing_bytes_kept<T: Codec>(ms: Seq<T::V>, rest: Seq<u8>)
    requires
        VecI16::<T>::spec_serialize(ms) is Ok,
    ensures
        VecI16::<T>::spec_deserialize(VecI16::<T>::spec_serialize(ms)->Ok_0 + rest) == Ok::<
            (Seq<T::V>, nat),
            Error,
        >((ms, VecI16::<T>::spec_serialize(ms)->Ok_0.len())),
{
    VecI16::<T>::lemma_round_trip(ms, rest);
}

/// Shapes the format cannot represent are refused with `Unsupported`, both
/// ways, whatever the value or the input, before anything is written or read.
pub proof fn lemma_unsupported<T: DeepView>(o: Option<T::V>, c: char, s: Seq<u8>)
    ensures
        Option::<T>::spec_serialize(o) == Err::<Seq<u8>, Error>(Error::Unsupported),
        Option::<T>::spec_deserialize(s) == Err::<(Option<T::V>, nat), Error>(Error::Unsupported),
        <()>::spec_serialize(()) == Err::<Seq<u8>, Error>(Error::Unsupported),
        <()>::spec_deserialize(s) == Err::<((), nat), Error>(Error::Unsupported),
        char::spec_serialize(c) == Err::<Seq<u8>, Error>(Error::Unsupported),
        char::spec_deserialize(s) == Err::<(char, nat), Error>(Error::Unsupported),
        Option::<T>::spec_write_refused(o) && Option::<T>::spec_read_refused(s),
        <()>::spec_write_refused(()) && <()>::spec_read_refused(s),
        char::spec_write_refused(c) && char::spec_read_refused(s),
{
}

/// A collection longer than its prefix can count is refused with `Overflow`,
/// before anything is written.
pub proof fn lemma_count_overflow<T: Serialize>(ms: Seq<T::V>, fs: Seq<bool>)
    ensures
        ms.len() > i16::MAX ==> VecI16::<T>::spec_serialize(ms) == Err::<Seq<u8>, Error>(
            Error::Overflow,
        ) && VecI16::<T>::spec_write_refused(ms),
        ms.len() > i32::MAX ==> VecI32::<T>::spec_serialize(ms) == Err::<Seq<u8>, Error>(
            Error::Overflow,
        ) && VecI32::<T>::spec_write_refused(ms),
        fs.len() > i16::MAX ==> VecI16Flags::spec_serialize(fs) == Err::<Seq<u8>, Error>(
            Error::Overflow,
        ) && VecI16Flags::spec_write_refused(fs),
{
}

/// An element that cannot be written makes its collection fail with the same
/// error, whatever its place: the elements before it are written, then it fails.
pub proof fn lemma_element_write_error<T: Serialize>(ms: Seq<T::V>, i: int)
    requires
        0 <= i < ms.len(),
        serialize_elems::<T>(ms.take(i)) is Ok,
        T::spec_serialize(ms[i]) is Err,
    ensures
        serialize_elems::<T>(ms) == T::spec_serialize(ms[i]),
        ms.len() <= i16::MAX ==> VecI16::<T>::spec_serialize(ms) == T::spec_serialize(ms[i]),
        ms.len() <= i32::MAX ==> VecI32::<T>::spec_serialize(ms) == T::spec_serialize(ms[i]),
        VecULEB128::<T>::spec_serialize(ms) == T::spec_serialize(ms[i]) || ms.len() > usize::MAX,
{
    assert(ms.take(i + 1).drop_last() =~= ms.take(i));
    assert(ms.take(i + 1).last() == ms[i]);
    lemma_serialize_elems_err::<T>(ms, (i + 1) as nat, ms.len());
    assert(ms.take(ms.len() as int) =~= ms);
}

/// An element that cannot be read makes its collection fail with the same
/// error, whatever its place among the declared elements.
pub proof fn lemma_element_read_error<T: Deserialize>(s: Seq<u8>, i: nat, n: nat)
    requires
        i < n,
        parse_elems::<T>(s, i) is Ok,
        T::spec_deserialize(s.skip(parse_elems::<T>(s, i)->Ok_0.1 as int)) is Err,
    ensures
        parse_elems::<T>(s, n) == Err::<(Seq<T::V>, nat), Error>(
            T::spec_deserialize(s.skip(parse_elems::<T>(s, i)->Ok_0.1 as int))->Err_0,
        ),
{
    lemma_parse_elems_err::<T>(s, i + 1, n);
}

/// A shape that the format cannot represent is refused with `Unsupported` at
/// any depth: inside a collection with at least one element, or in any field
/// of a record whose fields before it are written.
pub proof fn lemma_unsupported_nested<U: DeepView, A: Serialize>(
    ms: Seq<Option<U::V>>,
    a: A::V,
    o: Option<U::V>,
    s: Seq<u8>,
)
    ensures
        0 < ms.len() <= i16::MAX ==> VecI16::<Option<U>>::spec_serialize(ms) == Err::<
            Seq<u8>,
            Error,
        >(Error::Unsupported),
        parse_le(s, 2) is Ok && 0 < parse_le(s, 2)->Ok_0.0 < 0x8000
            ==> VecI16::<Option<U>>::spec_deserialize(s) == Err::<(Seq<Option<U::V>>, nat), Error>(
            Error::Unsupported,
        ),
        A::spec_serialize(a) is Ok ==> <(A, Option<U>)>::spec_serialize((a, o)) == Err::<
            Seq<u8>,
            Error,
        >(Error::Unsupported),
{
    if 0 < ms.len() <= i16::MAX {
        assert(ms.take(0) =~= Seq::<Option<U::V>>::empty());
        lemma_element_write_error::<Option<U>>(ms, 0);
    }
    if parse_le(s, 2) is Ok && 0 < parse_le(s, 2)->Ok_0.0 < 0x8000 {
        lemma_element_read_error::<Option<U>>(s.skip(2), 0, parse_le(s, 2)->Ok_0.0);
    }
}

} // verus!

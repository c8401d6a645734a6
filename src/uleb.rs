//! Unsigned LEB128: seven data bits per byte, least significant group first,
//! bit 7 set on every byte but the last.
use vstd::arithmetic::power::pow;
use vstd::prelude::*;

use crate::error::Error;

verus! {

/// The canonical ULEB128 encoding of `v`.
pub open spec fn uleb_bytes(v: nat) -> Seq<u8>
    decreases v,
{
    if v < 128 {
        seq![v as u8]
    } else {
        seq![((v % 128) + 128) as u8] + uleb_bytes(v / 128)
    }
}

/// The number that a run of groups stands for, continuation bits ignored.
pub open spec fn uleb_value(s: Seq<u8>) -> nat
    decreases s.len(),
{
    if s.len() == 0 {
        0
    } else {
        (s[0] % 128) as nat + 128 * uleb_value(s.drop_first())
    }
}

/// The length of the leading run of groups up to and including the first byte
/// whose continuation bit is clear; 0 where no byte of `s` ends a run.
pub open spec fn uleb_run(s: Seq<u8>) -> nat
    decreases s.len(),
{
    if s.len() == 0 {
        0
    } else if s[0] < 128 {
        1
    } else if uleb_run(s.drop_first()) == 0 {
        0
    } else {
        1 + uleb_run(s.drop_first())
    }
}

/// Reading a 64-bit ULEB128 number from the front of `s`: the number and the
/// bytes it takes, `IO` where the input ends inside it, `Overflow` where it
/// needs more than 64 bits.
pub open spec fn uleb_parse(s: Seq<u8>) -> core::result::Result<(nat, nat), Error> {
    let k = uleb_run(s);
    if k == 0 {
        Err(Error::IO)
    } else if k > 10 || (k == 10 && s[9] > 1) {
        Err(Error::Overflow)
    } else {
        Ok((uleb_value(s.take(k as int)), k))
    }
}

/// Relies on `leb128::write::unsigned`: it appends the canonical encoding of
/// `v`, and appending to a `Vec` cannot fail.
#[verifier::external_body]
pub(crate) fn write_uleb(out: &mut Vec<u8>, v: u64)
    ensures
        final(out)@ == old(out)@ + uleb_bytes(v as nat),
{
    let _written = leb128::write::unsigned(out, v);
}

/// Relies on `leb128::read::unsigned` over a byte slice: on success it hands
/// back the number and leaves the slice after its last group; its `Overflow`
/// and `IoError` become the library's own errors.
#[verifier::external_body]
pub(crate) fn read_uleb(input: &[u8]) -> (r: core::result::Result<(u64, usize), Error>)
    ensures
        match uleb_parse(input@) {
            Ok((v, k)) => r is Ok && r->Ok_0.0 == v && r->Ok_0.1 == input@.len() - k,
            Err(e) => r == Err::<(u64, usize), Error>(e),
        },
{
    let mut rest: &[u8] = input;
    match leb128::read::unsigned(&mut rest) {
        Ok(v) => Ok((v, rest.len())),
        Err(leb128::read::Error::Overflow) => Err(Error::Overflow),
        Err(leb128::read::Error::IoError(_)) => Err(Error::IO),
    }
}

/// Each group of the canonical encoding but the last has its continuation bit set.
pub proof fn lemma_uleb_run(v: nat, rest: Seq<u8>)
    ensures
        uleb_run(uleb_bytes(v) + rest) == uleb_bytes(v).len(),
        uleb_value(uleb_bytes(v)) == v,
        uleb_bytes(v).len() >= 1,
    decreases v,
{
    let s = uleb_bytes(v) + rest;
    if v < 128 {
        assert(s[0] == v as u8);
        assert(uleb_bytes(v).drop_first() =~= Seq::<u8>::empty());
        assert(uleb_value(Seq::<u8>::empty()) == 0);
        assert(uleb_bytes(v)[0] % 128 == v);
    } else {
        lemma_uleb_run(v / 128, rest);
        assert(s.drop_first() =~= uleb_bytes(v / 128) + rest);
        assert(uleb_bytes(v).drop_first() =~= uleb_bytes(v / 128));
        assert(s[0] == ((v % 128) + 128) as u8);
        assert(uleb_bytes(v)[0] % 128 == v % 128);
        assert(v == v % 128 + 128 * (v / 128));
    }
}

/// The encoding of a value below `2 * 128^m` has at most `m + 1` groups, and
/// where it has exactly that many the last one is 0 or 1.
proof fn lemma_uleb_last(v: nat, m: nat)
    requires
        v < 2 * pow(128, m),
    ensures
        uleb_bytes(v).len() <= m + 1,
        uleb_bytes(v).len() == m + 1 ==> uleb_bytes(v)[m as int] <= 1,
    decreases m,
{
    vstd::arithmetic::power::lemma_pow_positive(128, m);
    if v < 128 {
        if m == 0 {
            assert(pow(128, 0) == 1) by {
                vstd::arithmetic::power::lemma_pow0(128);
            }
        }
    } else {
        assert(m > 0) by {
            if m == 0 {
                vstd::arithmetic::power::lemma_pow0(128);
            }
        }
        let pm = pow(128, (m - 1) as nat);
        assert(pow(128, m) == 128 * pm) by {
            vstd::arithmetic::power::lemma_pow_adds(128, 1, (m - 1) as nat);
            vstd::arithmetic::power::lemma_pow1(128);
        }
        assert(v / 128 < 2 * pm) by (nonlinear_arith)
            requires
                v < 2 * (128 * pm),
                pm > 0,
        ;
        lemma_uleb_last(v / 128, (m - 1) as nat);
        assert(uleb_bytes(v) == seq![((v % 128) + 128) as u8] + uleb_bytes(v / 128));
    }
}

/// Every 64-bit number reads back from its encoding, whatever follows it.
pub proof fn lemma_uleb_round_trip(v: nat, rest: Seq<u8>)
    requires
        v <= u64::MAX,
    ensures
        uleb_parse(uleb_bytes(v) + rest) == Ok::<(nat, nat), Error>((v, uleb_bytes(v).len())),
{
    let s = uleb_bytes(v) + rest;
    lemma_uleb_run(v, rest);
    assert(pow(128, 9) == 0x8000_0000_0000_0000) by {
        reveal_with_fuel(pow, 10);
    }
    lemma_uleb_last(v, 9);
    assert(s.take(uleb_bytes(v).len() as int) =~= uleb_bytes(v));
}

/// The encoding of `v` takes `k` groups exactly where `v < 128^k` and, for
/// `k > 1`, `128^(k-1) <= v`: one group per seven significant bits, at least one.
pub proof fn lemma_uleb_len(v: nat)
    ensures
        v < pow(128, uleb_bytes(v).len()),
        uleb_bytes(v).len() > 1 ==> pow(128, (uleb_bytes(v).len() - 1) as nat) <= v,
    decreases v,
{
    vstd::arithmetic::power::lemma_pow1(128);
    if v >= 128 {
        let q = v / 128;
        lemma_uleb_len(q);
        let k1 = uleb_bytes(q).len();
        assert(uleb_bytes(v).len() == 1 + k1);
        let pk = pow(128, k1);
        assert(pow(128, k1 + 1) == 128 * pk) by {
            vstd::arithmetic::power::lemma_pow_adds(128, 1, k1);
        }
        assert(v < 128 * pk) by (nonlinear_arith)
            requires
                q == v / 128,
                q < pk,
        ;
        if k1 > 1 {
            let pk1 = pow(128, (k1 - 1) as nat);
            assert(pow(128, k1) == 128 * pk1) by {
                vstd::arithmetic::power::lemma_pow_adds(128, 1, (k1 - 1) as nat);
            }
            assert(128 * pk1 <= v) by (nonlinear_arith)
                requires
                    q == v / 128,
                    pk1 <= q,
            ;
        } else {
            lemma_uleb_run(q, Seq::empty());
        }
    }
}

/// The number of significant bits of `v`; 0 for 0.
pub open spec fn bit_len(v: nat) -> nat
    decreases v,
{
    if v == 0 {
        0
    } else {
        1 + bit_len(v / 2)
    }
}

/// A number below `2^k` has at most `k` significant bits.
proof fn lemma_bit_len_bound(v: nat, k: nat)
    requires
        v < pow(2, k),
    ensures
        bit_len(v) <= k,
    decreases k,
{
    if v > 0 {
        if k == 0 {
            vstd::arithmetic::power::lemma_pow0(2);
        } else {
            let p = pow(2, (k - 1) as nat);
            assert(pow(2, k) == 2 * p) by {
                vstd::arithmetic::power::lemma_pow_adds(2, 1, (k - 1) as nat);
                vstd::arithmetic::power::lemma_pow1(2);
            }
            assert(v / 2 < p) by (nonlinear_arith)
                requires
                    v < 2 * p,
            ;
            lemma_bit_len_bound(v / 2, (k - 1) as nat);
        }
    }
}

/// Dropping the seven low bits drops seven significant bits.
proof fn lemma_bit_len_shift7(v: nat)
    requires
        v >= 128,
    ensures
        bit_len(v) == 7 + bit_len(v / 128),
{
    let v1 = v / 2;
    let v2 = v1 / 2;
    let v3 = v2 / 2;
    let v4 = v3 / 2;
    let v5 = v4 / 2;
    let v6 = v5 / 2;
    let v7 = v6 / 2;
    assert(v2 == v / 4);
    assert(v3 == v / 8);
    assert(v4 == v / 16);
    assert(v5 == v / 32);
    assert(v6 == v / 64);
    assert(v7 == v / 128);
    assert(bit_len(v6) == 1 + bit_len(v7));
    assert(bit_len(v5) == 1 + bit_len(v6));
    assert(bit_len(v4) == 1 + bit_len(v5));
    assert(bit_len(v3) == 1 + bit_len(v4));
    assert(bit_len(v2) == 1 + bit_len(v3));
    assert(bit_len(v1) == 1 + bit_len(v2));
    assert(bit_len(v) == 1 + bit_len(v1));
}

/// The encoding of `v` has one group per started seven significant bits, and
/// at least one: `max(1, ceil(bit_len(v) / 7))` groups.
pub proof fn lemma_uleb_len_bits(v: nat)
    ensures
        uleb_bytes(v).len() == if bit_len(v) == 0 {
            1
        } else {
            (bit_len(v) + 6) / 7
        },
    decreases v,
{
    if v < 128 {
        assert(pow(2, 7) == 128) by {
            reveal_with_fuel(pow, 8);
        }
        lemma_bit_len_bound(v, 7);
    } else {
        lemma_bit_len_shift7(v);
        lemma_uleb_len_bits(v / 128);
        assert(bit_len(v / 128) >= 1);
    }
}

} // verus!

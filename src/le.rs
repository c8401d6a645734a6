//! Fixed-width little-endian integers and two's complement.
use vstd::arithmetic::power::pow;
use vstd::prelude::*;

use crate::error::Error;

verus! {

/// The number that little-endian bytes `s` stand for.
pub open spec fn le_value(s: Seq<u8>) -> nat
    decreases s.len(),
{
    if s.len() == 0 {
        0
    } else {
        s[0] as nat + 256 * le_value(s.drop_first())
    }
}

/// The `n` low bytes of `v`, least significant first.
pub open spec fn le_bytes(v: nat, n: nat) -> Seq<u8>
    decreases n,
{
    if n == 0 {
        seq![]
    } else {
        seq![(v % 256) as u8] + le_bytes(v / 256, (n - 1) as nat)
    }
}

/// Reading an `n`-byte little-endian number from the front of `s`.
pub open spec fn parse_le(s: Seq<u8>, n: nat) -> core::result::Result<(nat, nat), Error> {
    if s.len() < n {
        Err(Error::IO)
    } else {
        Ok((le_value(s.take(n as int)), n))
    }
}

/// The unsigned number below `full` that stands for `v` in two's complement.
pub open spec fn to_twos(v: int, full: nat) -> nat {
    if v < 0 {
        (v + full) as nat
    } else {
        v as nat
    }
}

/// The signed number that `u`, below `full`, stands for in two's complement.
pub open spec fn from_twos(u: nat, full: nat) -> int {
    if 2 * u >= full {
        u - full
    } else {
        u as int
    }
}

pub proof fn lemma_le_bytes_len(v: nat, n: nat)
    ensures
        le_bytes(v, n).len() == n,
    decreases n,
{
    if n > 0 {
        lemma_le_bytes_len(v / 256, (n - 1) as nat);
    }
}

/// A number below `256^n` reads back from its `n` bytes.
pub proof fn lemma_le_round_trip(v: nat, n: nat)
    requires
        v < pow(256, n),
    ensures
        le_value(le_bytes(v, n)) == v,
        le_bytes(v, n).len() == n,
    decreases n,
{
    lemma_le_bytes_len(v, n);
    if n == 0 {
        vstd::arithmetic::power::lemma_pow0(256);
    } else {
        let p = pow(256, (n - 1) as nat);
        assert(pow(256, n) == 256 * p) by {
            vstd::arithmetic::power::lemma_pow_adds(256, 1, (n - 1) as nat);
            vstd::arithmetic::power::lemma_pow1(256);
        }
        assert(v / 256 < p) by (nonlinear_arith)
            requires
                v < 256 * p,
        ;
        lemma_le_round_trip(v / 256, (n - 1) as nat);
        assert(le_bytes(v, n).drop_first() =~= le_bytes(v / 256, (n - 1) as nat));
        assert(v == v % 256 + 256 * (v / 256));
    }
}

/// Parsing `n` bytes from the front of an encoding followed by anything.
pub proof fn lemma_parse_le_round_trip(v: nat, n: nat, rest: Seq<u8>)
    requires
        v < pow(256, n),
    ensures
        parse_le(le_bytes(v, n) + rest, n) == Ok::<(nat, nat), Error>((v, n)),
        le_bytes(v, n).len() == n,
{
    lemma_le_round_trip(v, n);
    assert((le_bytes(v, n) + rest).take(n as int) =~= le_bytes(v, n));
}

/// The number that `n` bytes stand for is below `256^n`.
pub proof fn lemma_le_value_bound(s: Seq<u8>)
    ensures
        le_value(s) < pow(256, s.len()),
    decreases s.len(),
{
    if s.len() == 0 {
        vstd::arithmetic::power::lemma_pow0(256);
    } else {
        let t = s.drop_first();
        lemma_le_value_bound(t);
        let p = pow(256, t.len());
        assert(pow(256, s.len()) == 256 * p) by {
            vstd::arithmetic::power::lemma_pow_adds(256, 1, t.len());
            vstd::arithmetic::power::lemma_pow1(256);
        }
        let x = le_value(t);
        let b = s[0] as nat;
        assert(b + 256 * x < 256 * p) by (nonlinear_arith)
            requires
                x < p,
                b < 256,
        ;
    }
}

/// Values of the widths that the format uses: `256^n` for one to eight bytes.
pub proof fn lemma_pow256()
    ensures
        pow(256, 1) == 0x100,
        pow(256, 2) == 0x1_0000,
        pow(256, 4) == 0x1_0000_0000,
        pow(256, 7) == 0x100_0000_0000_0000,
        pow(256, 8) == 0x1_0000_0000_0000_0000,
{
    reveal_with_fuel(pow, 9);
}

} // verus!

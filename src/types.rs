//! Value types that sit beside the codec: a raw ULEB128 number and a rectangle.
use vstd::prelude::*;

use crate::codec::Serialize;
use crate::error::Error;
use crate::error::Result;
use crate::ser::WriteSerializer;
use crate::uleb::{
    bit_len, lemma_uleb_len_bits, lemma_uleb_round_trip, read_uleb, uleb_bytes, uleb_parse,
    write_uleb,
};

verus! {

/// A number held as its ULEB128 bytes, written out verbatim.
pub struct ULEB128 {
    bytes: Vec<u8>,
}

impl View for ULEB128 {
    type V = Seq<u8>;

    closed spec fn view(&self) -> Seq<u8> {
        self.bytes@
    }
}

impl DeepView for ULEB128 {
    type V = Seq<u8>;

    open spec fn deep_view(&self) -> Seq<u8> {
        self@
    }
}

impl ULEB128 {
    /// Holds the given bytes as they are.
    pub fn from_slice(v: &[u8]) -> (r: ULEB128)
        ensures
            r@ == v@,
    {
        ULEB128 { bytes: vstd::slice::slice_to_vec(v) }
    }

    /// Holds the canonical encoding of `v`: `max(1, ceil(bit_len(v) / 7))`
    /// bytes, which read back as `v`.
    pub fn from_u64(v: u64) -> (r: ULEB128)
        ensures
            r@ == uleb_bytes(v as nat),
            uleb_parse(r@) == Ok::<(nat, nat), Error>((v as nat, r@.len())),
            r@.len() == if bit_len(v as nat) == 0 {
                1
            } else {
                (bit_len(v as nat) + 6) / 7
            },
    {
        let mut bytes: Vec<u8> = Vec::new();
        write_uleb(&mut bytes, v);
        assert(bytes@ =~= uleb_bytes(v as nat));
        proof {
            lemma_uleb_round_trip(v as nat, Seq::empty());
            assert(uleb_bytes(v as nat) + Seq::<u8>::empty() =~= uleb_bytes(v as nat));
            lemma_uleb_len_bits(v as nat);
        }
        ULEB128 { bytes }
    }

    /// Holds the canonical encoding of `v`.
    pub fn from_usize(v: usize) -> (r: ULEB128)
        ensures
            r@ == uleb_bytes(v as nat),
    {
        ULEB128::from_u64(v as u64)
    }

    pub fn as_slice(&self) -> (r: &[u8])
        ensures
            r@ == self@,
    {
        self.bytes.as_slice()
    }

    /// The number that the held bytes begin with; `Overflow` where they hold
    /// no complete 64-bit number.
    pub fn as_u64(&self) -> (r: Result<u64>)
        ensures
            match uleb_parse(self@) {
                Ok((v, _k)) => r is Ok && r->Ok_0 == v,
                Err(_e) => r == Err::<u64, Error>(Error::Overflow),
            },
    {
        match read_uleb(self.bytes.as_slice()) {
            Ok((v, _left)) => Ok(v),
            Err(_e) => Err(Error::Overflow),
        }
    }
}

impl Serialize for ULEB128 {
    /// The held bytes, verbatim.
    open spec fn spec_serialize(m: Seq<u8>) -> core::result::Result<Seq<u8>, Error> {
        Ok(m)
    }

    open spec fn spec_write_refused(m: Seq<u8>) -> bool {
        false
    }

    fn serialize(&self, ser: &mut WriteSerializer) -> (r: Result<()>) {
        ser.write_bytes(self.as_slice());
        Ok(())
    }
}

/// An axis-aligned rectangle given by its four edges.
pub struct Rect {
    pub left: i32,
    pub right: i32,
    pub top: i32,
    pub bottom: i32,
}

/// The absolute value of `x`.
pub open spec fn abs(x: int) -> int {
    if x < 0 {
        -x
    } else {
        x
    }
}

impl Rect {
    /// The distance between the left and right edges.
    pub fn width(&self) -> (r: i32)
        requires
            i32::MIN < self.left - self.right <= i32::MAX,
        ensures
            r == abs(self.left - self.right),
    {
        let d = self.left - self.right;
        if d < 0 {
            -d
        } else {
            d
        }
    }

    /// The distance between the top and bottom edges.
    pub fn height(&self) -> (r: i32)
        requires
            i32::MIN < self.top - self.bottom <= i32::MAX,
        ensures
            r == abs(self.top - self.bottom),
    {
        let d = self.top - self.bottom;
        if d < 0 {
            -d
        } else {
            d
        }
    }

    /// Width times height.
    pub fn area(&self) -> (r: i64)
        requires
            i32::MIN < self.left - self.right <= i32::MAX,
            i32::MIN < self.top - self.bottom <= i32::MAX,
        ensures
            r == abs(self.left - self.right) * abs(self.top - self.bottom),
    {
        let w = self.width() as i64;
        let h = self.height() as i64;
        assert(0 <= w * h <= i32::MAX * i32::MAX) by (nonlinear_arith)
            requires
                0 <= w <= i32::MAX,
                0 <= h <= i32::MAX,
        ;
        w * h
    }
}

} // verus!

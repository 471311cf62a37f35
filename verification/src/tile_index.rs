//! Unbounded tile numbers.

use num_bigint::BigInt;
use num_traits::{Euclid, ToPrimitive};
use vstd::arithmetic::power::pow;
use vstd::prelude::*;

verus! {

/// The number that a little-endian sequence of bytes writes in base 256.
pub open spec fn unsigned_value(bytes: Seq<u8>) -> int
    decreases bytes.len(),
{
    if bytes.len() == 0 {
        0
    } else {
        bytes[0] + 256 * unsigned_value(bytes.skip(1))
    }
}

/// The number that a little-endian sequence of bytes writes in two's
/// complement; no byte at all writes zero.
pub open spec fn signed_value(bytes: Seq<u8>) -> int {
    if bytes.len() > 0 && bytes.last() >= 0x80 {
        unsigned_value(bytes) - pow(256, bytes.len())
    } else {
        unsigned_value(bytes)
    }
}

/// The number of a tile along one axis. There is no largest and no smallest
/// tile number.
#[derive(Debug)]
pub struct TileIndex {
    bytes: Vec<u8>,
}

impl View for TileIndex {
    type V = int;

    closed spec fn view(&self) -> int {
        signed_value(self.bytes@)
    }
}

impl Clone for TileIndex {
    fn clone(&self) -> (index: Self)
        ensures
            index@ == self@,
    {
        TileIndex { bytes: self.to_signed_bytes_le() }
    }
}

impl TileIndex {
    /// The tile number that `bytes` write in two's complement, least
    /// significant byte first.
    pub fn from_signed_bytes_le(bytes: Vec<u8>) -> (index: Self)
        ensures
            index@ == signed_value(bytes@),
    {
        TileIndex { bytes }
    }

    /// The tile number in two's complement, least significant byte first.
    pub fn to_signed_bytes_le(&self) -> (bytes: Vec<u8>)
        ensures
            signed_value(bytes@) == self@,
    {
        let mut bytes: Vec<u8> = Vec::new();
        let mut i: usize = 0;
        while i < self.bytes.len()
            invariant
                i <= self.bytes.len(),
                bytes@ == self.bytes@.take(i as int),
            decreases self.bytes.len() - i,
        {
            bytes.push(self.bytes[i]);
            i = i + 1;
        }
        assert(bytes@ == self.bytes@);
        bytes
    }

    /// `BigInt::from(i64)` of num-bigint makes the integer with the value of
    /// its argument.
    #[verifier::external_body]
    pub(crate) fn from_number(value: i64) -> (index: Self)
        ensures
            index@ == value,
    {
        TileIndex { bytes: BigInt::from(value).to_signed_bytes_le() }
    }

    /// `+` of num-bigint adds two integers.
    #[verifier::external_body]
    pub(crate) fn sum(&self, other: &Self) -> (index: Self)
        ensures
            index@ == self@ + other@,
    {
        let left = BigInt::from_signed_bytes_le(&self.bytes);
        let right = BigInt::from_signed_bytes_le(&other.bytes);
        TileIndex { bytes: (left + right).to_signed_bytes_le() }
    }

    /// `-` of num-bigint subtracts one integer from another.
    #[verifier::external_body]
    pub(crate) fn difference(&self, other: &Self) -> (index: Self)
        ensures
            index@ == self@ - other@,
    {
        let left = BigInt::from_signed_bytes_le(&self.bytes);
        let right = BigInt::from_signed_bytes_le(&other.bytes);
        TileIndex { bytes: (left - right).to_signed_bytes_le() }
    }

    /// `*` of num-bigint multiplies two integers.
    #[verifier::external_body]
    pub(crate) fn product(&self, other: &Self) -> (index: Self)
        ensures
            index@ == self@ * other@,
    {
        let left = BigInt::from_signed_bytes_le(&self.bytes);
        let right = BigInt::from_signed_bytes_le(&other.bytes);
        TileIndex { bytes: (left * right).to_signed_bytes_le() }
    }

    /// `BigInt::pow` of num-bigint raises an integer to a power. Bases are kept
    /// small, so that the result can be held.
    #[verifier::external_body]
    pub(crate) fn power(&self, exponent: u32) -> (index: Self)
        requires
            0 <= self@ <= 16,
        ensures
            index@ == pow(self@, exponent as nat),
    {
        let base = BigInt::from_signed_bytes_le(&self.bytes);
        TileIndex { bytes: base.pow(exponent).to_signed_bytes_le() }
    }

    /// `Euclid::div_euclid` of num-traits, as num-bigint implements it, gives
    /// the quotient whose remainder is not negative. It panics on a zero
    /// divisor.
    #[verifier::external_body]
    pub(crate) fn quotient(&self, divisor: &Self) -> (index: Self)
        requires
            divisor@ != 0,
        ensures
            index@ == self@ / divisor@,
    {
        let left = BigInt::from_signed_bytes_le(&self.bytes);
        let right = BigInt::from_signed_bytes_le(&divisor.bytes);
        TileIndex { bytes: left.div_euclid(&right).to_signed_bytes_le() }
    }

    /// `Euclid::rem_euclid` of num-traits, as num-bigint implements it, gives
    /// the remainder that is not negative. It panics on a zero divisor.
    #[verifier::external_body]
    pub(crate) fn remainder(&self, divisor: &Self) -> (index: Self)
        requires
            divisor@ != 0,
        ensures
            index@ == self@ % divisor@,
    {
        let left = BigInt::from_signed_bytes_le(&self.bytes);
        let right = BigInt::from_signed_bytes_le(&divisor.bytes);
        TileIndex { bytes: left.rem_euclid(&right).to_signed_bytes_le() }
    }

    /// `<` of num-bigint compares two integers.
    #[verifier::external_body]
    pub(crate) fn less_than(&self, other: &Self) -> (less: bool)
        ensures
            less == (self@ < other@),
    {
        BigInt::from_signed_bytes_le(&self.bytes) < BigInt::from_signed_bytes_le(&other.bytes)
    }

    /// Whether both are the same tile number.
    pub fn same_as(&self, other: &Self) -> (same: bool)
        ensures
            same == (self@ == other@),
    {
        !self.less_than(other) && !other.less_than(self)
    }

    /// `ToPrimitive::to_i64` of num-traits, as num-bigint implements it, gives
    /// the integer as an `i64` exactly where it fits.
    #[verifier::external_body]
    pub(crate) fn to_i64(&self) -> (value: Option<i64>)
        ensures
            value.is_some() <==> i64::MIN <= self@ <= i64::MAX,
            value.is_some() ==> value.unwrap() == self@,
    {
        BigInt::from_signed_bytes_le(&self.bytes).to_i64()
    }
}

} // verus!

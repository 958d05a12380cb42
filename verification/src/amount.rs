//! Quantities of value: the mint's own unit, Bitcoin's unit, and the fee
//! schedule of a federation.

use vstd::prelude::*;
use crate::encoding::{Decodable, DecodeError, Encodable};

verus! {

/// How many of the mint's units one satoshi is worth.
pub const MILLI_SAT_PER_SAT: u64 = 1000;

/// A quantity of the mint's unit of value, the thousandth of a satoshi.
#[derive(Clone, Copy, Debug, PartialEq, Eq, Structural, PartialOrd, Ord, Hash)]
pub struct Amount {
    pub milli_sat: u64,
}

/// A quantity of bitcoin, in satoshi.
#[derive(Clone, Copy, Debug, PartialEq, Eq, Structural, PartialOrd, Ord, Hash)]
pub struct BitcoinAmount {
    pub sat: u64,
}

/// The fees that a federation has agreed on.
#[derive(Clone, Copy, Debug, PartialEq, Eq, Structural, Hash)]
pub struct FeeConsensus {
    /// Owed for each coin that a transaction spends or issues.
    pub fee_coin_spend_abs: Amount,
    /// Owed for each peg-in.
    pub fee_peg_in_abs: Amount,
    /// Owed for each peg-out.
    pub fee_peg_out_abs: Amount,
}

impl Amount {
    /// No value at all.
    pub fn zero() -> (a: Self)
        ensures
            a.milli_sat == 0,
    {
        Amount { milli_sat: 0 }
    }

    /// The amount of `milli_sat` units.
    pub fn from_msat(milli_sat: u64) -> (a: Self)
        ensures
            a.milli_sat == milli_sat,
    {
        Amount { milli_sat }
    }

    /// The amount worth `sat` satoshi, exactly.
    pub fn from_sat(sat: u64) -> (a: Self)
        requires
            sat * MILLI_SAT_PER_SAT <= u64::MAX,
        ensures
            a.milli_sat == sat * MILLI_SAT_PER_SAT,
    {
        Amount { milli_sat: sat * MILLI_SAT_PER_SAT }
    }

    /// The amount worth `sat` satoshi, exactly, where an `Amount` can hold it.
    pub fn checked_from_sat(sat: u64) -> (a: Option<Self>)
        ensures
            a == (if sat * MILLI_SAT_PER_SAT <= u64::MAX {
                Some(Amount { milli_sat: (sat * MILLI_SAT_PER_SAT) as u64 })
            } else {
                None
            }),
    {
        match sat.checked_mul(MILLI_SAT_PER_SAT) {
            Some(milli_sat) => Some(Amount { milli_sat }),
            None => None,
        }
    }

    /// The sum of two amounts, where an `Amount` can hold it.
    pub fn checked_add(self, other: Amount) -> (sum: Option<Self>)
        ensures
            sum == (if self.milli_sat + other.milli_sat <= u64::MAX {
                Some(Amount { milli_sat: (self.milli_sat + other.milli_sat) as u64 })
            } else {
                None
            }),
    {
        match self.milli_sat.checked_add(other.milli_sat) {
            Some(milli_sat) => Some(Amount { milli_sat }),
            None => None,
        }
    }

    /// `count` times this amount, where an `Amount` can hold it.
    pub fn checked_mul(self, count: u64) -> (product: Option<Self>)
        ensures
            product == (if self.milli_sat * count <= u64::MAX {
                Some(Amount { milli_sat: (self.milli_sat * count) as u64 })
            } else {
                None
            }),
    {
        match self.milli_sat.checked_mul(count) {
            Some(milli_sat) => Some(Amount { milli_sat }),
            None => None,
        }
    }
}

impl BitcoinAmount {
    /// The amount of `sat` satoshi.
    pub fn from_sat(sat: u64) -> (a: Self)
        ensures
            a.sat == sat,
    {
        BitcoinAmount { sat }
    }

    /// The number of satoshi.
    pub fn as_sat(&self) -> (sat: u64)
        ensures
            sat == self.sat,
    {
        self.sat
    }
}

impl DeepView for Amount {
    type V = u64;

    open spec fn deep_view(&self) -> u64 {
        self.milli_sat
    }
}

impl Encodable for Amount {
    open spec fn encoding(v: u64) -> Seq<u8> {
        u64::encoding(v)
    }

    open spec fn canonical(v: u64) -> bool {
        true
    }

    fn consensus_encode(&self, writer: &mut Vec<u8>) -> (written: usize) {
        self.milli_sat.consensus_encode(writer)
    }
}

impl Decodable for Amount {
    proof fn lemma_unambiguous(a: u64, b: u64, s: Seq<u8>) {
        u64::lemma_unambiguous(a, b, s);
    }

    fn consensus_decode(bytes: &[u8], start: usize) -> (r: Result<(Self, usize), DecodeError>) {
        match u64::consensus_decode(bytes, start) {
            Ok((milli_sat, end)) => Ok((Amount { milli_sat }, end)),
            Err(e) => Err(e),
        }
    }
}

impl DeepView for BitcoinAmount {
    type V = u64;

    open spec fn deep_view(&self) -> u64 {
        self.sat
    }
}

impl Encodable for BitcoinAmount {
    open spec fn encoding(v: u64) -> Seq<u8> {
        u64::encoding(v)
    }

    open spec fn canonical(v: u64) -> bool {
        true
    }

    fn consensus_encode(&self, writer: &mut Vec<u8>) -> (written: usize) {
        self.as_sat().consensus_encode(writer)
    }
}

impl Decodable for BitcoinAmount {
    proof fn lemma_unambiguous(a: u64, b: u64, s: Seq<u8>) {
        u64::lemma_unambiguous(a, b, s);
    }

    fn consensus_decode(bytes: &[u8], start: usize) -> (r: Result<(Self, usize), DecodeError>) {
        match u64::consensus_decode(bytes, start) {
            Ok((sat, end)) => Ok((BitcoinAmount { sat }, end)),
            Err(e) => Err(e),
        }
    }
}

} // verus!

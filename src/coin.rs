//! Amounts of the chain's currency.
use vstd::prelude::*;
use crate::codec::{decode_u64, encode_u64, le_u64_bytes, le_u64_value};

verus! {

/// The total supply, in base units: ten billion coins of 10^8 units each.
pub const MAX_COIN: u64 = 1_000_000_000_000_000_000;

/// An amount between zero and the total supply.
#[derive(Debug, Clone, Copy, PartialEq, Eq, Structural)]
pub struct Coin {
    value: u64,
}

/// Why an amount could not be formed.
#[derive(Debug, Clone, Copy, PartialEq, Eq, Structural)]
pub enum CoinError {
    /// The amount exceeds the total supply.
    OutOfBound,
    /// A subtraction would go below zero.
    Negative,
}

impl Coin {
    pub closed spec fn spec_value(&self) -> u64 {
        self.value
    }

    /// Every amount is within the supply.
    pub closed spec fn wf(&self) -> bool {
        self.value <= MAX_COIN
    }

    /// The amount of `value` base units, if within the supply.
    pub fn new(value: u64) -> (r: Result<Coin, CoinError>)
        ensures
            value <= MAX_COIN ==> (r matches Ok(c) && c.spec_value() == value && c.wf()),
            value > MAX_COIN ==> r == Err::<Coin, CoinError>(CoinError::OutOfBound),
    {
        if value <= MAX_COIN {
            Ok(Coin { value })
        } else {
            Err(CoinError::OutOfBound)
        }
    }

    /// No coins.
    pub fn zero() -> (r: Coin)
        ensures
            r.spec_value() == 0,
            r.wf(),
    {
        Coin { value: 0 }
    }

    /// The amount in base units.
    pub fn value(&self) -> (r: u64)
        ensures
            r == self.spec_value(),
            self.wf() ==> r <= MAX_COIN,
    {
        self.value
    }

    /// The sum, if within the supply.
    pub fn checked_add(&self, other: &Coin) -> (r: Result<Coin, CoinError>)
        requires
            self.wf(),
            other.wf(),
        ensures
            self.spec_value() + other.spec_value() <= MAX_COIN
                ==> (r matches Ok(c) && c.spec_value() == self.spec_value() + other.spec_value() && c.wf()),
            self.spec_value() + other.spec_value() > MAX_COIN ==> r == Err::<Coin, CoinError>(CoinError::OutOfBound),
    {
        let sum = self.value + other.value;
        Coin::new(sum)
    }

    /// The difference, if not negative.
    pub fn checked_sub(&self, other: &Coin) -> (r: Result<Coin, CoinError>)
        requires
            self.wf(),
        ensures
            other.spec_value() <= self.spec_value()
                ==> (r matches Ok(c) && c.spec_value() == self.spec_value() - other.spec_value() && c.wf()),
            other.spec_value() > self.spec_value() ==> r == Err::<Coin, CoinError>(CoinError::Negative),
    {
        if other.value <= self.value {
            Ok(Coin { value: self.value - other.value })
        } else {
            Err(CoinError::Negative)
        }
    }

    /// The eight little-endian bytes of the amount.
    pub fn encode(&self) -> (r: Vec<u8>)
        ensures
            r@ == le_u64_bytes(self.spec_value()),
    {
        encode_u64(self.value)
    }

    /// Reads an amount from the first eight bytes; fails when there are fewer
    /// or the amount exceeds the supply.
    pub fn decode(s: &[u8]) -> (r: Option<Coin>)
        ensures
            s@.len() < 8 ==> r is None,
            s@.len() >= 8 && le_u64_value(s@) <= MAX_COIN ==> (r matches Some(c) && c.spec_value() == le_u64_value(s@) && c.wf()),
            s@.len() >= 8 && le_u64_value(s@) > MAX_COIN ==> r is None,
    {
        match decode_u64(s) {
            Some(v) => if v <= MAX_COIN { Some(Coin { value: v }) } else { None },
            None => None,
        }
    }
}

} // verus!

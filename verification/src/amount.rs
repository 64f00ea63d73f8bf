//! Bounded satoshi amounts and the denominations they are quoted in.
use vstd::prelude::*;

verus! {

/// One bitcoin, in satoshis.
pub const COIN: i64 = 100_000_000;

/// The largest representable amount, in satoshis.
pub const MAX_COINS: i64 = 21_000_000 * COIN;

#[derive(Debug, Clone, PartialEq, Eq)]
pub enum AmountError {
    /// The requested amount and the bound it exceeded, both in satoshis.
    AmountOutOfBounds(i64, i64),
}

/// A bitcoin amount in satoshis, bounded to the money supply in either sign.
#[derive(Debug, Copy, Clone, PartialEq, Eq, Hash, Structural)]
pub struct BitcoinAmount(pub i64);

impl BitcoinAmount {
    /// The amount is within the representable range.
    pub open spec fn wf(self) -> bool {
        -MAX_COINS <= self.0 <= MAX_COINS
    }

    pub fn from_satoshi(satoshis: i64) -> (r: Result<Self, AmountError>)
        ensures
            r == (if -MAX_COINS <= satoshis <= MAX_COINS {
                Ok::<BitcoinAmount, AmountError>(BitcoinAmount(satoshis))
            } else {
                Err::<BitcoinAmount, AmountError>(AmountError::AmountOutOfBounds(
                    satoshis,
                    MAX_COINS,
                ))
            }),
            r is Ok ==> r.unwrap().wf(),
    {
        if -MAX_COINS <= satoshis && satoshis <= MAX_COINS {
            Ok(Self(satoshis))
        } else {
            Err(AmountError::AmountOutOfBounds(satoshis, MAX_COINS))
        }
    }

    pub fn from_ubtc(ubtc_value: i64) -> (r: Result<Self, AmountError>)
        ensures
            r == (if -21_000_000_000_000i64 <= ubtc_value <= 21_000_000_000_000i64 {
                Ok::<BitcoinAmount, AmountError>(BitcoinAmount((ubtc_value * 100) as i64))
            } else {
                Err::<BitcoinAmount, AmountError>(AmountError::AmountOutOfBounds(
                    ubtc_value,
                    21_000_000_000_000i64,
                ))
            }),
            r is Ok ==> r.unwrap().wf(),
    {
        if -21_000_000_000_000i64 <= ubtc_value && ubtc_value <= 21_000_000_000_000i64 {
            Ok(Self(ubtc_value * 100))
        } else {
            Err(AmountError::AmountOutOfBounds(ubtc_value, 21_000_000_000_000i64))
        }
    }

    pub fn from_mbtc(mbtc_value: i64) -> (r: Result<Self, AmountError>)
        ensures
            r == (if -21_000_000_000i64 <= mbtc_value <= 21_000_000_000i64 {
                Ok::<BitcoinAmount, AmountError>(BitcoinAmount((mbtc_value * 100_000) as i64))
            } else {
                Err::<BitcoinAmount, AmountError>(AmountError::AmountOutOfBounds(
                    mbtc_value,
                    21_000_000_000i64,
                ))
            }),
            r is Ok ==> r.unwrap().wf(),
    {
        if -21_000_000_000i64 <= mbtc_value && mbtc_value <= 21_000_000_000i64 {
            Ok(Self(mbtc_value * 100_000))
        } else {
            Err(AmountError::AmountOutOfBounds(mbtc_value, 21_000_000_000i64))
        }
    }

    pub fn from_cbtc(cbtc_value: i64) -> (r: Result<Self, AmountError>)
        ensures
            r == (if -2_100_000_000i64 <= cbtc_value <= 2_100_000_000i64 {
                Ok::<BitcoinAmount, AmountError>(BitcoinAmount((cbtc_value * 1_000_000) as i64))
            } else {
                Err::<BitcoinAmount, AmountError>(AmountError::AmountOutOfBounds(
                    cbtc_value,
                    2_100_000_000i64,
                ))
            }),
            r is Ok ==> r.unwrap().wf(),
    {
        if -2_100_000_000i64 <= cbtc_value && cbtc_value <= 2_100_000_000i64 {
            Ok(Self(cbtc_value * 1_000_000))
        } else {
            Err(AmountError::AmountOutOfBounds(cbtc_value, 2_100_000_000i64))
        }
    }

    pub fn from_dbtc(dbtc_value: i64) -> (r: Result<Self, AmountError>)
        ensures
            r == (if -210_000_000i64 <= dbtc_value <= 210_000_000i64 {
                Ok::<BitcoinAmount, AmountError>(BitcoinAmount((dbtc_value * 10_000_000) as i64))
            } else {
                Err::<BitcoinAmount, AmountError>(AmountError::AmountOutOfBounds(
                    dbtc_value,
                    210_000_000i64,
                ))
            }),
            r is Ok ==> r.unwrap().wf(),
    {
        if -210_000_000i64 <= dbtc_value && dbtc_value <= 210_000_000i64 {
            Ok(Self(dbtc_value * 10_000_000))
        } else {
            Err(AmountError::AmountOutOfBounds(dbtc_value, 210_000_000i64))
        }
    }

    pub fn from_btc(btc_value: i64) -> (r: Result<Self, AmountError>)
        ensures
            r == (if -21_000_000i64 <= btc_value <= 21_000_000i64 {
                Ok::<BitcoinAmount, AmountError>(BitcoinAmount((btc_value * 100_000_000) as i64))
            } else {
                Err::<BitcoinAmount, AmountError>(AmountError::AmountOutOfBounds(
                    btc_value,
                    21_000_000i64,
                ))
            }),
            r is Ok ==> r.unwrap().wf(),
    {
        if -21_000_000i64 <= btc_value && btc_value <= 21_000_000i64 {
            Ok(Self(btc_value * 100_000_000))
        } else {
            Err(AmountError::AmountOutOfBounds(btc_value, 21_000_000i64))
        }
    }

    pub fn add(self, b: Self) -> (r: Result<Self, AmountError>)
        requires
            self.wf(),
            b.wf(),
        ensures
            r == (if -MAX_COINS <= self.0 + b.0 <= MAX_COINS {
                Ok::<BitcoinAmount, AmountError>(BitcoinAmount((self.0 + b.0) as i64))
            } else {
                Err::<BitcoinAmount, AmountError>(AmountError::AmountOutOfBounds(
                    (self.0 + b.0) as i64,
                    MAX_COINS,
                ))
            }),
            r is Ok ==> r.unwrap().wf(),
    {
        Self::from_satoshi(self.0 + b.0)
    }

    pub fn sub(self, b: BitcoinAmount) -> (r: Result<Self, AmountError>)
        requires
            self.wf(),
            b.wf(),
        ensures
            r == (if -MAX_COINS <= self.0 - b.0 <= MAX_COINS {
                Ok::<BitcoinAmount, AmountError>(BitcoinAmount((self.0 - b.0) as i64))
            } else {
                Err::<BitcoinAmount, AmountError>(AmountError::AmountOutOfBounds(
                    (self.0 - b.0) as i64,
                    MAX_COINS,
                ))
            }),
            r is Ok ==> r.unwrap().wf(),
    {
        Self::from_satoshi(self.0 - b.0)
    }
}

#[derive(Debug, Copy, Clone, PartialEq, Eq, Structural)]
pub enum Denomination {
    Satoshi,
    MicroBit,
    MilliBit,
    CentiBit,
    DeciBit,
    Bitcoin,
}

impl Denomination {
    /// The number of decimal places by which the denomination scales a satoshi count.
    pub fn precision(self) -> (r: u32)
        ensures
            r == (match self {
                Denomination::Satoshi => 0u32,
                Denomination::MicroBit => 2u32,
                Denomination::MilliBit => 5u32,
                Denomination::CentiBit => 6u32,
                Denomination::DeciBit => 7u32,
                Denomination::Bitcoin => 8u32,
            }),
    {
        match self {
            Denomination::Satoshi => 0,
            Denomination::MicroBit => 2,
            Denomination::MilliBit => 5,
            Denomination::CentiBit => 6,
            Denomination::DeciBit => 7,
            Denomination::Bitcoin => 8,
        }
    }
}

} // verus!

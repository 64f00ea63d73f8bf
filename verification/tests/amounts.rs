//! Denomination arithmetic tests.
use gyu_bitcoin::amount::{AmountError, BitcoinAmount, Denomination, MAX_COINS};

#[test]
fn precision_table() {
    assert_eq!(Denomination::Satoshi.precision(), 0);
    assert_eq!(Denomination::MicroBit.precision(), 2);
    assert_eq!(Denomination::MilliBit.precision(), 5);
    assert_eq!(Denomination::CentiBit.precision(), 6);
    assert_eq!(Denomination::DeciBit.precision(), 7);
    assert_eq!(Denomination::Bitcoin.precision(), 8);
}

#[test]
fn conversions_scale_exactly() {
    assert_eq!(BitcoinAmount::from_satoshi(7).unwrap(), BitcoinAmount(7));
    assert_eq!(BitcoinAmount::from_ubtc(3).unwrap(), BitcoinAmount(300));
    assert_eq!(BitcoinAmount::from_mbtc(2).unwrap(), BitcoinAmount(200_000));
    assert_eq!(BitcoinAmount::from_cbtc(5).unwrap(), BitcoinAmount(5_000_000));
    assert_eq!(BitcoinAmount::from_dbtc(-4).unwrap(), BitcoinAmount(-40_000_000));
    assert_eq!(BitcoinAmount::from_btc(1).unwrap(), BitcoinAmount(100_000_000));
}

#[test]
fn bounds_are_enforced() {
    assert_eq!(BitcoinAmount::from_satoshi(MAX_COINS).unwrap(), BitcoinAmount(MAX_COINS));
    assert_eq!(
        BitcoinAmount::from_satoshi(MAX_COINS + 1),
        Err(AmountError::AmountOutOfBounds(MAX_COINS + 1, MAX_COINS))
    );
    assert_eq!(
        BitcoinAmount::from_btc(21_000_001),
        Err(AmountError::AmountOutOfBounds(21_000_001, 21_000_000))
    );
}

#[test]
fn add_and_sub_are_checked() {
    let a = BitcoinAmount::from_satoshi(600).unwrap();
    let b = BitcoinAmount::from_satoshi(250).unwrap();
    assert_eq!(a.add(b).unwrap(), BitcoinAmount(850));
    assert_eq!(a.sub(b).unwrap(), BitcoinAmount(350));
    let top = BitcoinAmount::from_satoshi(MAX_COINS).unwrap();
    let one = BitcoinAmount::from_satoshi(1).unwrap();
    assert_eq!(top.add(one), Err(AmountError::AmountOutOfBounds(MAX_COINS + 1, MAX_COINS)));
}

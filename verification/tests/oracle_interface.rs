use microstack::common::ContractError;
use microstack::oracle_interface::{OracleInterface, PriceData};

#[test]
fn oracle_init_once() {
    let mut o: OracleInterface<&str> = OracleInterface::new();
    assert_eq!(o.init("admin"), Ok(()));
    assert_eq!(o.admin, Some("admin"));
    assert_eq!(o.init("other"), Err(ContractError::AlreadyInitialized));
    assert_eq!(o.admin, Some("admin"));
}

#[test]
fn price_unavailable_before_set() {
    let mut o: OracleInterface<&str> = OracleInterface::new();
    o.init("admin").unwrap();
    assert_eq!(o.get_price(), Err(ContractError::PriceNotAvailable));
}

#[test]
fn set_price_before_init_is_refused() {
    let mut o: OracleInterface<&str> = OracleInterface::new();
    assert_eq!(o.set_price(true, 10, 7, 5), Err(ContractError::NotInitialized));
    assert_eq!(o.price, None);
}

#[test]
fn price_read_after_write() {
    let mut o: OracleInterface<&str> = OracleInterface::new();
    o.init("admin").unwrap();
    assert_eq!(o.set_price(true, 1_250_000, 7, 1_700_000_000), Ok(()));
    assert_eq!(o.get_price(), Ok(PriceData { price: 1_250_000, decimals: 7, updated_at: 1_700_000_000 }));
    assert_eq!(o.set_price(true, -3, 2, 1_700_000_100), Ok(()));
    assert_eq!(o.get_price(), Ok(PriceData { price: -3, decimals: 2, updated_at: 1_700_000_100 }));
}

#[test]
fn non_admin_cannot_set_price() {
    let mut o: OracleInterface<&str> = OracleInterface::new();
    o.init("admin").unwrap();
    o.set_price(true, 100, 2, 1).unwrap();
    assert_eq!(o.set_price(false, 999, 2, 2), Err(ContractError::NotAuthorized));
    assert_eq!(o.get_price(), Ok(PriceData { price: 100, decimals: 2, updated_at: 1 }));
}

use diem_core::account_address::{AccountAddress, Address};

#[test]
fn test_from_and_to_string() {
    let valid_addresses = vec!["0x1", "0x001", "00000000000000000000000000000001"];
    for address in valid_addresses {
        assert_eq!(address.parse::<Address>().unwrap().to_string(), "0x1");
    }

    let invalid_addresses = vec!["invalid", "00x1", "x1", "01", "1"];
    for address in invalid_addresses {
        assert_eq!(
            format!("invalid account address: {}", address),
            address.parse::<Address>().unwrap_err().to_string()
        );
    }
}

#[test]
fn address_literal_without_digits_is_refused() {
    assert!("0x".parse::<Address>().is_err());
    assert!("".parse::<Address>().is_err());
}

#[test]
fn address_display_trims_leading_zeros() {
    assert_eq!(Address(AccountAddress::new(0)).to_string(), "0x0");
    assert_eq!(Address(AccountAddress::new(0xdd)).to_string(), "0xdd");
    assert_eq!(Address(AccountAddress::new(0x123)).to_string(), "0x123");
    assert_eq!(
        Address(AccountAddress::new(u128::MAX)).to_string(),
        "0xffffffffffffffffffffffffffffffff"
    );
}

#[test]
fn address_bytes_are_big_endian() {
    let a = AccountAddress::new(0x0102);
    let bytes = a.to_bytes();
    assert_eq!(bytes[15], 2);
    assert_eq!(bytes[14], 1);
    assert_eq!(bytes[0], 0);
    assert_eq!(AccountAddress::from_bytes(&bytes), a);
}

#[test]
fn address_accepts_upper_case_digits() {
    assert_eq!(
        "0xAB".parse::<Address>().unwrap(),
        Address(AccountAddress::new(0xab))
    );
    assert_eq!(
        "000000000000000000000000000000aB".parse::<Address>().unwrap(),
        Address(AccountAddress::new(0xab))
    );
}

#[test]
fn test_from_and_to_json() {
    let json = serde_json::Value::String("0x1".to_string());
    let address: Address = json.as_str().unwrap().parse().unwrap();
    assert_eq!(address, "0x1".parse().unwrap());

    let val = serde_json::Value::String(address.to_string());
    assert_eq!(val, serde_json::Value::String("0x1".to_string()));
}

#[test]
fn test_from_and_to_account_address() {
    let json = serde_json::Value::String("0x1".to_string());
    let address: Address = json.as_str().unwrap().parse().unwrap();

    let account_address: AccountAddress = address.into();
    assert_eq!(
        account_address.to_string(),
        "00000000000000000000000000000001"
    );

    let new_address: Address = account_address.into();
    assert_eq!(new_address, address);
}

#[test]
fn test_from_and_to_account_address_reference() {
    let json = serde_json::Value::String("0x1".to_string());
    let address: Address = json.as_str().unwrap().parse().unwrap();

    let account_address: AccountAddress = (&address).inner();
    assert_eq!(
        account_address.to_string(),
        "00000000000000000000000000000001"
    );

    let new_address: Address = account_address.into();
    assert_eq!(new_address, address);
}

use hyperliquid_sdk_swift::hello_hyperliquid;
use hyperliquid_sdk_swift::wallet::derive_address_from_private_key;

#[test]
fn address_of_known_key() {
    let key = "0000000000000000000000000000000000000000000000000000000000000001".to_string();
    assert_eq!(derive_address_from_private_key(key), "0x7e5f4552091a69125d5dfcb7b8c2659029395bdf");
}

#[test]
fn invalid_key_is_reported() {
    assert_eq!(derive_address_from_private_key("not a key".to_string()), "Invalid private key");
    assert_eq!(derive_address_from_private_key(String::new()), "Invalid private key");
}

#[test]
fn greeting() {
    assert_eq!(hello_hyperliquid(), "Hello from Hyperliquid Rust SDK!");
}

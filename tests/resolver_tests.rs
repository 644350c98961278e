use hyperliquid_sdk_swift::decimal::Decimal;
use hyperliquid_sdk_swift::symbols::{btc_aliases, btc_price, lookup_price, resolve, PriceInfo};

fn snap(entries: &[(&str, &str)]) -> Vec<PriceInfo> {
    entries
        .iter()
        .map(|(c, p)| PriceInfo { coin: c.to_string(), price: p.to_string() })
        .collect()
}

fn names(list: &[&str]) -> Vec<String> {
    list.iter().map(|s| s.to_string()).collect()
}

#[test]
fn zero_price_is_skipped_and_nothing_resolves() {
    let aliases = names(&["@142", "BTC", "UBTC"]);
    assert!(resolve(&aliases, &snap(&[("BTC", "0")])).is_none());
}

#[test]
fn first_positive_alias_wins() {
    let aliases = names(&["@142", "BTC", "UBTC"]);
    let s = snap(&[("ETH", "3000"), ("UBTC", "118144.5"), ("@142", "abc"), ("BTC", "118100")]);
    let q = resolve(&aliases, &s).unwrap();
    assert_eq!(q.market, "BTC");
    assert_eq!(q.price_text, "118100");
    assert_eq!(q.price, Decimal { units: 118100, scale: 0 });
}

#[test]
fn resolution_is_repeatable() {
    let aliases = names(&["UBTC/USDC", "UBTC", "BTC"]);
    let s = snap(&[("BTC", "100000"), ("UBTC", "0.0"), ("UBTC/USDC", "")]);
    let a = resolve(&aliases, &s).unwrap();
    let b = resolve(&aliases, &s).unwrap();
    assert_eq!(a.market, b.market);
    assert_eq!(a.price_text, b.price_text);
    assert_eq!(a.price, b.price);
    assert_eq!(a.market, "BTC");
}

#[test]
fn empty_alias_list_resolves_nothing() {
    assert!(resolve(&Vec::new(), &snap(&[("BTC", "1")])).is_none());
}

#[test]
fn lookup_takes_first_entry() {
    let s = snap(&[("BTC", "1"), ("BTC", "2")]);
    assert_eq!(lookup_price(&s, "BTC"), Some("1".to_string()));
    assert_eq!(lookup_price(&s, "ETH"), None);
}

#[test]
fn btc_price_uses_alias_order() {
    assert_eq!(btc_aliases(), names(&["@142", "BTC", "UBTC", "BTC/USDC", "UBTC/USDC"]));
    let q = btc_price(&snap(&[("UBTC/USDC", "118000"), ("@142", "118144.5")])).unwrap();
    assert_eq!(q.market, "@142");
    assert_eq!(q.price_text, "118144.5");
    assert!(btc_price(&snap(&[("ETH", "3000")])).is_none());
}

#[test]
fn aliases_are_keyed_by_asset() {
    assert_eq!(hyperliquid_sdk_swift::symbols::aliases_for("BTC"), btc_aliases());
    assert_eq!(hyperliquid_sdk_swift::symbols::aliases_for("ETH"), names(&["ETH"]));
}

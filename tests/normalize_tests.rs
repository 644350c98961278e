use hyperliquid_sdk_swift::decimal::{decimal_text, Decimal};
use hyperliquid_sdk_swift::normalize::{
    align_price, normalize_limit, Amount, normalize_swap, size_from_amount, size_from_notional,
    slipped_price, AssetRules, NormalizationError, TimeInForce,
};

fn dec(units: u64, scale: u32) -> Decimal {
    Decimal { units, scale }
}

fn btc_rules(min_size: Decimal) -> AssetRules {
    AssetRules {
        size_decimals: 5,
        min_size,
        price_tick: dec(10, 0),
        align_limit_prices: true,
        slippage_percent: 1,
    }
}

#[test]
fn notional_thousand_at_hundred_thousand() {
    let rules = btc_rules(dec(1, 5));
    let size = size_from_notional(&rules, dec(1000, 0), dec(100000, 0)).unwrap();
    assert_eq!(size, dec(1000, 5));
    assert_eq!(decimal_text(size), "0.01000");
}

#[test]
fn notional_half_rounds_up_to_one_unit() {
    let rules = btc_rules(dec(1, 5));
    let size = size_from_notional(&rules, dec(5, 1), dec(100000, 0)).unwrap();
    assert_eq!(size, dec(1, 5));
    assert_eq!(decimal_text(size), "0.00001");
    let strict = btc_rules(dec(1, 4));
    assert_eq!(
        size_from_notional(&strict, dec(5, 1), dec(100000, 0)),
        Err(NormalizationError::OrderTooSmall { computed_size: dec(1, 5) })
    );
}

#[test]
fn notional_outcome_is_size_or_too_small() {
    let rules = btc_rules(dec(1, 5));
    for (n, p) in [("0.1", "100000"), ("1", "3"), ("250", "118144.5"), ("0.0004", "100000")] {
        let n = hyperliquid_sdk_swift::decimal::parse_decimal(n).unwrap();
        let p = hyperliquid_sdk_swift::decimal::parse_decimal(p).unwrap();
        match size_from_notional(&rules, n, p) {
            Ok(s) => assert!(hyperliquid_sdk_swift::decimal::decimal_le(rules.min_size, s)),
            Err(NormalizationError::OrderTooSmall { .. }) => {}
            Err(e) => panic!("unexpected {:?}", e),
        }
    }
}

#[test]
fn small_size_that_rounds_to_zero_fails() {
    let rules = btc_rules(dec(1, 5));
    assert_eq!(
        size_from_notional(&rules, dec(4, 1), dec(100000, 0)),
        Err(NormalizationError::OrderTooSmall { computed_size: dec(0, 5) })
    );
    assert_eq!(
        size_from_amount(&rules, dec(4, 6)),
        Err(NormalizationError::OrderTooSmall { computed_size: dec(0, 5) })
    );
}

#[test]
fn zero_reference_price_is_unavailable() {
    let rules = btc_rules(dec(1, 5));
    assert_eq!(
        size_from_notional(&rules, dec(1000, 0), dec(0, 0)),
        Err(NormalizationError::ReferencePriceUnavailable)
    );
}

#[test]
fn oversized_notional_is_out_of_range() {
    let rules = btc_rules(dec(1, 5));
    assert_eq!(
        size_from_notional(&rules, dec(u64::MAX, 0), dec(1, 0)),
        Err(NormalizationError::OutOfRange)
    );
}

#[test]
fn explicit_size_is_rounded() {
    let rules = btc_rules(dec(1, 5));
    assert_eq!(size_from_amount(&rules, dec(123456, 6)), Ok(dec(12346, 5)));
    assert_eq!(size_from_amount(&rules, dec(9, 5)), Ok(dec(9, 5)));
}

#[test]
fn price_aligns_to_nearest_tick() {
    assert_eq!(align_price(dec(1181445, 1), dec(10, 0)), Some(dec(118140, 0)));
    assert_eq!(align_price(dec(118145, 0), dec(10, 0)), Some(dec(118150, 0)));
    assert_eq!(align_price(dec(123456, 3), dec(1, 2)), Some(dec(12346, 2)));
    assert_eq!(align_price(dec(u64::MAX, 0), dec(10, 0)), None);
}

#[test]
fn alignment_never_decreases_with_raw_price() {
    let tick = dec(5, 1);
    let mut last = 0u64;
    for units in 1180000u64..1180100 {
        let p = align_price(dec(units, 1), tick).unwrap();
        assert_eq!(p.scale, 1);
        assert!(p.units >= last);
        last = p.units;
    }
}

#[test]
fn slippage_moves_price_across_the_book() {
    let rules = btc_rules(dec(1, 5));
    assert_eq!(slipped_price(&rules, dec(100000, 0), true), Some(dec(101000, 0)));
    assert_eq!(slipped_price(&rules, dec(100000, 0), false), Some(dec(99000, 0)));
    assert_eq!(slipped_price(&rules, dec(1181445, 1), true), Some(dec(119330, 0)));
}

#[test]
fn swap_order_is_immediate_or_cancel() {
    let rules = btc_rules(dec(1, 5));
    let o = normalize_swap(&rules, "UBTC/USDC", true, "1000", dec(100000, 0)).unwrap();
    assert_eq!(o.market(), "UBTC/USDC");
    assert!(o.is_buy());
    assert_eq!(o.size(), dec(1000, 5));
    assert_eq!(o.limit_price(), dec(101000, 0));
    assert_eq!(o.time_in_force(), TimeInForce::ImmediateOrCancel);
    assert_eq!(o.size_text(), "0.01000");
    assert_eq!(o.price_text(), "101000");
    assert_eq!(
        normalize_swap(&rules, "UBTC/USDC", true, "lots", dec(100000, 0)).unwrap_err(),
        NormalizationError::InvalidNumericFormat { amount: Amount::Notional }
    );
}

#[test]
fn limit_order_keeps_or_aligns_price() {
    let mut rules = btc_rules(dec(1, 5));
    rules.price_tick = dec(1, 2);
    let o = normalize_limit(&rules, "UBTC/USDC", false, "0.000094", "118144.567", "Gtc").unwrap();
    assert_eq!(o.size(), dec(9, 5));
    assert_eq!(o.limit_price(), dec(11814457, 2));
    assert_eq!(o.time_in_force(), TimeInForce::GoodTillCancel);
    rules.align_limit_prices = false;
    let o = normalize_limit(&rules, "BTC", true, "1", "118144.567", "Alo").unwrap();
    assert_eq!(o.limit_price(), dec(118144567, 3));
    assert_eq!(o.time_in_force(), TimeInForce::AddLiquidityOnly);
}

#[test]
fn limit_order_errors() {
    let rules = btc_rules(dec(1, 5));
    assert_eq!(
        normalize_limit(&rules, "BTC", true, "x", "1", "Gtc").unwrap_err(),
        NormalizationError::InvalidNumericFormat { amount: Amount::Size }
    );
    assert_eq!(
        normalize_limit(&rules, "BTC", true, "1", "", "Gtc").unwrap_err(),
        NormalizationError::InvalidNumericFormat { amount: Amount::Price }
    );
    assert_eq!(
        normalize_limit(&rules, "BTC", true, "x", "", "Fok").unwrap_err(),
        NormalizationError::InvalidNumericFormat { amount: Amount::Size }
    );
    assert_eq!(
        normalize_limit(&rules, "BTC", true, "1", "100", "Fok").unwrap_err(),
        NormalizationError::UnknownTimeInForce
    );
    assert_eq!(
        normalize_limit(&rules, "BTC", true, "0", "100", "Gtc").unwrap_err(),
        NormalizationError::OrderTooSmall { computed_size: dec(0, 5) }
    );
}

#[test]
fn time_in_force_wire_names() {
    assert_eq!(TimeInForce::from_wire("Gtc"), Some(TimeInForce::GoodTillCancel));
    assert_eq!(TimeInForce::from_wire("Ioc"), Some(TimeInForce::ImmediateOrCancel));
    assert_eq!(TimeInForce::from_wire("Alo"), Some(TimeInForce::AddLiquidityOnly));
    assert_eq!(TimeInForce::from_wire("gtc"), None);
    assert_eq!(TimeInForce::ImmediateOrCancel.wire_name(), "Ioc");
}

#[test]
fn slipped_price_never_decreases_with_reference() {
    let rules = btc_rules(dec(1, 5));
    for is_buy in [true, false] {
        let mut last = 0u64;
        for units in 999_900u64..1_000_100 {
            let p = slipped_price(&rules, dec(units, 1), is_buy).unwrap();
            assert_eq!(p.scale, 0);
            assert!(p.units >= last);
            last = p.units;
        }
    }
}

#[test]
fn rounding_at_own_scale_keeps_size() {
    for x in [dec(100, 5), dec(12346, 5), dec(0, 5), dec(u64::MAX, 5)] {
        assert_eq!(hyperliquid_sdk_swift::decimal::round_to(x, 5), Some(x));
    }
}

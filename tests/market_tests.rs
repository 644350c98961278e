use hyperliquid_sdk_swift::market::{
    orderbook_from_levels, select_mids, spot_pair_names, summarize_meta, top_levels, AssetInfo,
    OrderLevel,
};
use hyperliquid_sdk_swift::symbols::{btc_aliases, PriceInfo};

fn level(p: u32) -> OrderLevel {
    OrderLevel { price: p.to_string(), size: "1".to_string() }
}

#[test]
fn book_keeps_five_best_levels() {
    let bids: Vec<OrderLevel> = (0..8).map(|i| level(100 - i)).collect();
    let asks: Vec<OrderLevel> = (0..3).map(|i| level(101 + i)).collect();
    let book = orderbook_from_levels(&bids, &asks);
    assert_eq!(book.bids.len(), 5);
    assert_eq!(book.bids[4].price, "96");
    assert_eq!(book.asks.len(), 3);
    assert_eq!(top_levels(&bids, 0).len(), 0);
}

#[test]
fn meta_lists_ten_assets() {
    let universe: Vec<AssetInfo> =
        (0..12).map(|i| AssetInfo { name: format!("A{}", i), sz_decimals: i }).collect();
    let meta = summarize_meta(&universe);
    assert_eq!(meta.total_assets, 12);
    assert_eq!(meta.assets.len(), 10);
    assert_eq!(meta.assets[9].name, "A9");
    assert_eq!(meta.assets[9].sz_decimals, 9);
}

#[test]
fn mids_show_btc_aliases_first() {
    let mut snap = vec![
        PriceInfo { coin: "ETH".to_string(), price: "3000".to_string() },
        PriceInfo { coin: "UBTC".to_string(), price: "118000".to_string() },
        PriceInfo { coin: "@142".to_string(), price: "118100".to_string() },
    ];
    for i in 0..20 {
        snap.push(PriceInfo { coin: format!("C{}", i), price: "1".to_string() });
    }
    let mids = select_mids(&btc_aliases(), &snap);
    assert_eq!(mids.len(), 2 + 15);
    assert_eq!(mids[0].coin, "@142");
    assert_eq!(mids[1].coin, "UBTC");
    assert_eq!(mids[2].coin, "ETH");
    assert_eq!(mids[16].coin, "C13");
}

#[test]
fn spot_pairs_are_named_by_tokens() {
    let tokens = vec![(0usize, "USDC".to_string()), (1, "PURR".to_string()), (150, "UBTC".to_string())];
    let pairs = vec![(1usize, 0usize), (150, 0), (7, 0)];
    assert_eq!(spot_pair_names(&tokens, &pairs), vec!["PURR/USDC".to_string(), "UBTC/USDC".to_string()]);
}

#[test]
fn mids_leave_out_unpriced_markets() {
    let snap = vec![
        PriceInfo { coin: "ETH".to_string(), price: "0".to_string() },
        PriceInfo { coin: "BTC".to_string(), price: "0.0".to_string() },
        PriceInfo { coin: "UBTC".to_string(), price: "118000".to_string() },
        PriceInfo { coin: "SOL".to_string(), price: "n/a".to_string() },
        PriceInfo { coin: "HYPE".to_string(), price: "41.2".to_string() },
    ];
    let mids = select_mids(&btc_aliases(), &snap);
    let coins: Vec<&str> = mids.iter().map(|m| m.coin.as_str()).collect();
    assert_eq!(coins, vec!["UBTC", "HYPE"]);
    assert_eq!(mids[1].price, "41.2");
}

#[test]
fn later_token_name_wins() {
    let tokens = vec![(0usize, "USDC".to_string()), (1, "OLD".to_string()), (1, "NEW".to_string())];
    assert_eq!(spot_pair_names(&tokens, &vec![(1usize, 0usize)]), vec!["NEW/USDC".to_string()]);
}

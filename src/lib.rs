use vstd::prelude::*;

pub mod decimal;
pub mod execute;
pub mod market;
pub mod normalize;
pub mod session;
pub mod symbols;
pub mod wallet;

pub use execute::SwapResult;
pub use market::{
    AssetInfo, CandleData, ExchangeMeta, OrderLevel, OrderbookData, TokenBalance, UserFill,
};
pub use symbols::PriceInfo;
pub use wallet::derive_address_from_private_key;

verus! {

/// Greeting used by embedding applications to check that the library loaded.
pub fn hello_hyperliquid() -> (r: String)
    ensures
        r@ == "Hello from Hyperliquid Rust SDK!"@,
{
    String::from_str("Hello from Hyperliquid Rust SDK!")
}

} // verus!

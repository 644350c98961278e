use vstd::prelude::*;

use crate::decimal::{parse_decimal, parse_spec, Decimal};
use crate::execute::{
    classify_order_ack, failure, no_wallet_result, no_wallet_text, normalization_failure,
    normalization_text, order_ack_outcome, result_is, stage_prefix, transport_failure,
    FailureStage, OrderAck, SwapResult,
};
use crate::normalize::{
    limit_amounts, limit_order, limit_terms, normalize_limit, normalize_swap, notional_size_spec, size_from_notional,
    swap_terms, tif_from_wire_spec, Amount, AssetRules, NormalizationError, NormalizedOrder,
    TimeInForce,
};
use crate::symbols::{btc_aliases, btc_aliases_spec, resolve, resolve_spec, PriceInfo};

verus! {

/// Whether `pat` occurs in `s`.
pub open spec fn seq_contains(s: Seq<char>, pat: Seq<char>) -> bool {
    exists|i: int| 0 <= i && i + pat.len() <= s.len() && #[trigger] s.subrange(i, i + pat.len()) == pat
}

fn matches_at(s: &str, pat: &str, i: usize) -> (r: bool)
    requires
        i + pat@.len() <= s@.len(),
    ensures
        r == (s@.subrange(i as int, i + pat@.len()) == pat@),
{
    let n = s.unicode_len();
    let m = pat.unicode_len();
    let mut j: usize = 0;
    while j < m
        invariant
            n == s@.len(),
            m == pat@.len(),
            i + m <= s@.len(),
            j <= m,
            s@.subrange(i as int, i + j) == pat@.subrange(0, j as int),
        decreases m - j,
    {
        if s.get_char(i + j) != pat.get_char(j) {
            proof {
                assert(s@.subrange(i as int, i + m)[j as int] == s@[i + j]);
            }
            return false;
        }
        proof {
            assert(s@.subrange(i as int, i + j + 1) =~= s@.subrange(i as int, i + j).push(
                s@[i + j],
            ));
            assert(pat@.subrange(0, j + 1) =~= pat@.subrange(0, j as int).push(pat@[j as int]));
        }
        j = j + 1;
    }
    proof {
        assert(pat@.subrange(0, m as int) =~= pat@);
    }
    true
}

/// Whether `pat` occurs in `s`.
pub fn contains_text(s: &str, pat: &str) -> (r: bool)
    ensures
        r == seq_contains(s@, pat@),
{
    let n = s.unicode_len();
    let m = pat.unicode_len();
    if m > n {
        return false;
    }
    if m == 0 {
        assert(s@.subrange(0int, 0int + pat@.len()) =~= pat@);
        return true;
    }
    let mut i: usize = 0;
    while i <= n - m
        invariant
            n == s@.len(),
            m == pat@.len(),
            1 <= m <= n,
            i <= n - m + 1,
            forall|k: int| 0 <= k < i ==> #[trigger] s@.subrange(k, k + m) != pat@,
        decreases n - m + 1 - i,
    {
        if matches_at(s, pat, i) {
            return true;
        }
        i = i + 1;
    }
    false
}

/// Precision rules for a swap into bitcoin.
pub open spec fn btc_swap_rules_spec() -> AssetRules {
    AssetRules {
        size_decimals: 5,
        min_size: Decimal { units: 1, scale: 5 },
        price_tick: Decimal { units: 10, scale: 0 },
        align_limit_prices: true,
        slippage_percent: 1,
    }
}

/// Five size digits, a 0.00001 minimum, a 10-dollar tick and 1% slippage.
pub fn btc_swap_rules() -> (r: AssetRules)
    ensures
        r == btc_swap_rules_spec(),
        r.wf(),
{
    AssetRules {
        size_decimals: 5,
        min_size: Decimal { units: 1, scale: 5 },
        price_tick: Decimal { units: 10, scale: 0 },
        align_limit_prices: true,
        slippage_percent: 1,
    }
}

/// Size digits for a market: five for bitcoin markets, six otherwise.
pub open spec fn size_decimals_for(market: Seq<char>) -> u32 {
    if seq_contains(market, "BTC"@) {
        5
    } else {
        6
    }
}

/// Precision rules for an explicit limit order on `market`: sizes at the
/// market's digits with one unit as the minimum, and prices of USDC pairs
/// aligned to the cent.
pub open spec fn limit_rules_spec(market: Seq<char>) -> AssetRules {
    AssetRules {
        size_decimals: size_decimals_for(market),
        min_size: Decimal { units: 1, scale: size_decimals_for(market) },
        price_tick: Decimal { units: 1, scale: 2 },
        align_limit_prices: seq_contains(market, "USDC"@),
        slippage_percent: 1,
    }
}

pub fn limit_rules(market: &str) -> (r: AssetRules)
    ensures
        r == limit_rules_spec(market@),
        r.wf(),
{
    let d: u32 = if contains_text(market, "BTC") {
        5
    } else {
        6
    };
    AssetRules {
        size_decimals: d,
        min_size: Decimal { units: 1, scale: d },
        price_tick: Decimal { units: 1, scale: 2 },
        align_limit_prices: contains_text(market, "USDC"),
        slippage_percent: 1,
    }
}

pub open spec fn btc_spot_market() -> Seq<char> {
    "UBTC/USDC"@
}

/// The next thing a session does for an order-affecting call.
#[derive(Clone, Debug)]
pub enum Step {
    /// Fetch the mid-price snapshot.
    FetchQuotes,
    /// Sign and send this order.
    Submit(NormalizedOrder),
    /// Nothing more to send: report this.
    Finish(SwapResult),
}

/// A swap only starts on a session that can sign; otherwise it ends before
/// any network call.
pub fn start_swap(has_wallet: bool) -> (r: Step)
    ensures
        has_wallet ==> r is FetchQuotes,
        !has_wallet ==> (r matches Step::Finish(res) && res.fails_with(no_wallet_text())),
{
    if has_wallet {
        Step::FetchQuotes
    } else {
        Step::Finish(no_wallet_result())
    }
}

/// Size and price of a bitcoin buy for `notional` against a snapshot.
pub open spec fn swap_plan(snap: Seq<PriceInfo>, notional: Seq<char>) -> Result<
    (Decimal, Decimal),
    NormalizationError,
> {
    match resolve_spec(btc_aliases_spec(), snap) {
        None => Err(NormalizationError::ReferencePriceUnavailable),
        Some((_, _, price)) => match parse_spec(notional) {
            None => Err(NormalizationError::InvalidNumericFormat { amount: Amount::Notional }),
            Some(n) => swap_terms(btc_swap_rules_spec(), n, price, true),
        },
    }
}

pub open spec fn btc_price_missing_text() -> Seq<char> {
    "UBTC/BTC price not found"@
}

/// The message of a failed swap: a missing bitcoin price is named as such.
pub open spec fn swap_failure_text(e: NormalizationError) -> Seq<char> {
    match e {
        NormalizationError::ReferencePriceUnavailable => btc_price_missing_text(),
        _ => normalization_text(e),
    }
}

/// Once the snapshot has come (or its fetch has failed): the spot order that
/// spends `notional`, sized at the first positive reference price among the
/// swap aliases, or the failure to report.
pub fn swap_after_quotes(quotes: &Result<Vec<PriceInfo>, String>, notional: &str) -> (r: Step)
    ensures
        match quotes {
            Err(e) => r matches Step::Finish(res) && res.fails_with(
                stage_prefix(FailureStage::PriceFetch) + e@,
            ),
            Ok(snap) => match swap_plan(snap@, notional@) {
                Err(e) => r matches Step::Finish(res) && res.fails_with(swap_failure_text(e)),
                Ok((size, price)) => r matches Step::Submit(o) && o.holds(
                    btc_spot_market(),
                    true,
                    size,
                    price,
                    TimeInForce::ImmediateOrCancel,
                ) && o.wf(),
            },
        },
{
    let snap = match quotes {
        Err(e) => return Step::Finish(transport_failure(FailureStage::PriceFetch, e.as_str())),
        Ok(s) => s,
    };
    let aliases = btc_aliases();
    let quote = match resolve(&aliases, snap) {
        None => return Step::Finish(failure(String::from_str("UBTC/BTC price not found"))),
        Some(q) => q,
    };
    let rules = btc_swap_rules();
    match normalize_swap(&rules, "UBTC/USDC", true, notional, quote.price) {
        Ok(o) => Step::Submit(o),
        Err(e) => {
            proof {
                assert(e matches NormalizationError::OrderTooSmall { computed_size }
                    ==> computed_size.scale == 5);
            }
            Step::Finish(normalization_failure(e))
        },
    }
}

/// The result of a submission: the classified acknowledgement, or the
/// transport failure that kept it from coming.
pub fn finish_submission(response: &Result<OrderAck, String>) -> (r: SwapResult)
    ensures
        match response {
            Err(e) => r.fails_with(stage_prefix(FailureStage::Submission) + e@),
            Ok(ack) => result_is(r, order_ack_outcome(*ack)),
        },
{
    match response {
        Err(e) => transport_failure(FailureStage::Submission, e.as_str()),
        Ok(ack) => classify_order_ack(ack),
    }
}

/// The first step of an explicit limit order: nothing is sent without a
/// signing capability; otherwise the normalized order, or the normalization
/// failure.
pub fn start_limit_order(
    has_wallet: bool,
    asset: &str,
    is_buy: bool,
    size: &str,
    price: &str,
    time_in_force: &str,
) -> (r: Step)
    ensures
        !has_wallet ==> (r matches Step::Finish(res) && res.fails_with(no_wallet_text())),
        has_wallet ==> match limit_amounts(size@, price@) {
            Err(e) => r matches Step::Finish(res) && res.fails_with(normalization_text(e)),
            Ok((s, p)) => match tif_from_wire_spec(time_in_force@) {
                None => r matches Step::Finish(res) && res.fails_with(
                    normalization_text(NormalizationError::UnknownTimeInForce),
                ),
                Some(t) => match limit_terms(limit_rules_spec(asset@), s, p) {
                    Err(e) => r matches Step::Finish(res) && res.fails_with(normalization_text(e)),
                    Ok((sz, px)) => r matches Step::Submit(o) && o.holds(asset@, is_buy, sz, px, t)
                        && o.wf(),
                },
            },
        },
{
    if !has_wallet {
        return Step::Finish(no_wallet_result());
    }
    let rules = limit_rules(asset);
    match normalize_limit(&rules, asset, is_buy, size, price, time_in_force) {
        Ok(o) => Step::Submit(o),
        Err(e) => {
            proof {
                assert(e matches NormalizationError::OrderTooSmall { computed_size }
                    ==> computed_size.scale == rules.size_decimals);
            }
            Step::Finish(normalization_failure(e))
        },
    }
}

/// Size and price of a bitcoin limit buy spending `usdc_amount` at
/// `limit_price`.
pub open spec fn btc_buy_plan(usdc_amount: Seq<char>, limit_price: Seq<char>) -> Result<
    (Decimal, Decimal),
    NormalizationError,
> {
    match (parse_spec(usdc_amount), parse_spec(limit_price)) {
        (Some(n), Some(p)) => match notional_size_spec(btc_swap_rules_spec(), n, p) {
            Err(e) => Err(e),
            Ok(size) => limit_terms(limit_rules_spec(btc_spot_market()), size, p),
        },
        (None, _) => Err(NormalizationError::InvalidNumericFormat { amount: Amount::Notional }),
        (Some(_), None) => Err(NormalizationError::InvalidNumericFormat { amount: Amount::Price }),
    }
}

/// A good-till-cancel bitcoin buy on the spot pair spending `usdc_amount` at
/// `limit_price`: the amounts are checked first, then the signing capability.
pub fn start_btc_buy(has_wallet: bool, usdc_amount: &str, limit_price: &str) -> (r: Step)
    ensures
        match btc_buy_plan(usdc_amount@, limit_price@) {
            Err(e) => r matches Step::Finish(res) && res.fails_with(normalization_text(e)),
            Ok((size, price)) => if has_wallet {
                r matches Step::Submit(o) && o.holds(
                    btc_spot_market(),
                    true,
                    size,
                    price,
                    TimeInForce::GoodTillCancel,
                ) && o.wf()
            } else {
                r matches Step::Finish(res) && res.fails_with(no_wallet_text())
            },
        },
{
    let n = match parse_decimal(usdc_amount) {
        None => return Step::Finish(
            normalization_failure(NormalizationError::InvalidNumericFormat { amount: Amount::Notional }),
        ),
        Some(n) => n,
    };
    let p = match parse_decimal(limit_price) {
        None => return Step::Finish(
            normalization_failure(NormalizationError::InvalidNumericFormat { amount: Amount::Price }),
        ),
        Some(p) => p,
    };
    let swap_rules = btc_swap_rules();
    let size = match size_from_notional(&swap_rules, n, p) {
        Err(e) => return Step::Finish(normalization_failure(e)),
        Ok(s) => s,
    };
    let rules = limit_rules("UBTC/USDC");
    let order = match limit_order(&rules, "UBTC/USDC", true, size, p, TimeInForce::GoodTillCancel) {
        Err(e) => {
            proof {
                assert(e matches NormalizationError::OrderTooSmall { computed_size }
                    ==> computed_size.scale == rules.size_decimals);
            }
            return Step::Finish(normalization_failure(e));
        },
        Ok(o) => o,
    };
    if !has_wallet {
        return Step::Finish(no_wallet_result());
    }
    Step::Submit(order)
}

/// A good-till-cancel bitcoin sell on the spot pair.
pub fn start_btc_sell(has_wallet: bool, btc_amount: &str, limit_price: &str) -> (r: Step)
    ensures
        !has_wallet ==> (r matches Step::Finish(res) && res.fails_with(no_wallet_text())),
        has_wallet ==> match limit_amounts(btc_amount@, limit_price@) {
            Err(e) => r matches Step::Finish(res) && res.fails_with(normalization_text(e)),
            Ok((s, p)) => match limit_terms(limit_rules_spec(btc_spot_market()), s, p) {
                Err(e) => r matches Step::Finish(res) && res.fails_with(normalization_text(e)),
                Ok((sz, px)) => r matches Step::Submit(o) && o.holds(
                    btc_spot_market(),
                    false,
                    sz,
                    px,
                    TimeInForce::GoodTillCancel,
                ) && o.wf(),
            },
        },
{
    proof {
        reveal_strlit("Gtc");
    }
    start_limit_order(has_wallet, "UBTC/USDC", false, btc_amount, limit_price, "Gtc")
}

/// What a cancellation does first.
#[derive(Clone, Debug)]
pub enum CancelStep {
    /// Sign and send the cancellation of this order.
    Submit { asset: String, order_id: u64 },
    /// Nothing is sent: report this.
    Finish(SwapResult),
}

/// A cancellation is only sent from a session that can sign.
pub fn start_cancel(has_wallet: bool, asset: &str, order_id: u64) -> (r: CancelStep)
    ensures
        has_wallet ==> (r matches CancelStep::Submit { asset: a, order_id: id } && a@ == asset@
            && id == order_id),
        !has_wallet ==> (r matches CancelStep::Finish(res) && res.fails_with(no_wallet_text())),
{
    if has_wallet {
        CancelStep::Submit { asset: String::from_str(asset), order_id }
    } else {
        CancelStep::Finish(no_wallet_result())
    }
}

} // verus!

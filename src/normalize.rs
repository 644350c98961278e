use vstd::prelude::*;

use vstd::arithmetic::div_mod::{
    lemma_div_is_ordered, lemma_fundamental_div_mod, lemma_fundamental_div_mod_converse,
    lemma_mod_pos_bound,
};

use crate::decimal::{
    decimal_le, div_round_scaled, lemma_pow10_19, lemma_pow10_mono, lemma_pow10_positive,
    parse_decimal, parse_spec, pow10, pow10_u128, round_div, round_spec,
    round_to, value_le, Decimal, MAX_SCALE,
};

verus! {

/// How long a limit order stays on the book.
#[derive(Clone, Copy, Debug, PartialEq, Eq)]
pub enum TimeInForce {
    GoodTillCancel,
    ImmediateOrCancel,
    AddLiquidityOnly,
}

/// The exchange's name for a time-in-force.
pub open spec fn tif_wire_spec(t: TimeInForce) -> Seq<char> {
    match t {
        TimeInForce::GoodTillCancel => "Gtc"@,
        TimeInForce::ImmediateOrCancel => "Ioc"@,
        TimeInForce::AddLiquidityOnly => "Alo"@,
    }
}

/// The time-in-force that the exchange calls `s`, if any.
pub open spec fn tif_from_wire_spec(s: Seq<char>) -> Option<TimeInForce> {
    if s == "Gtc"@ {
        Some(TimeInForce::GoodTillCancel)
    } else if s == "Ioc"@ {
        Some(TimeInForce::ImmediateOrCancel)
    } else if s == "Alo"@ {
        Some(TimeInForce::AddLiquidityOnly)
    } else {
        None
    }
}

impl TimeInForce {
    /// `"Gtc"`, `"Ioc"` or `"Alo"`.
    pub fn wire_name(&self) -> (r: &'static str)
        ensures
            r@ == tif_wire_spec(*self),
    {
        match self {
            TimeInForce::GoodTillCancel => "Gtc",
            TimeInForce::ImmediateOrCancel => "Ioc",
            TimeInForce::AddLiquidityOnly => "Alo",
        }
    }

    /// Reads the exchange's name for a time-in-force.
    pub fn from_wire(s: &str) -> (r: Option<TimeInForce>)
        ensures
            r == tif_from_wire_spec(s@),
    {
        proof {
            reveal_strlit("Gtc");
            reveal_strlit("Ioc");
            reveal_strlit("Alo");
        }
        if str_eq(s, "Gtc") {
            Some(TimeInForce::GoodTillCancel)
        } else if str_eq(s, "Ioc") {
            Some(TimeInForce::ImmediateOrCancel)
        } else if str_eq(s, "Alo") {
            Some(TimeInForce::AddLiquidityOnly)
        } else {
            None
        }
    }
}

/// Whether two strings hold the same characters.
pub fn str_eq(a: &str, b: &str) -> (r: bool)
    ensures
        r == (a@ == b@),
{
    let n = a.unicode_len();
    let m = b.unicode_len();
    if n != m {
        return false;
    }
    let mut i: usize = 0;
    while i < n
        invariant
            n == a@.len(),
            m == b@.len(),
            n == m,
            i <= n,
            a@.subrange(0, i as int) == b@.subrange(0, i as int),
        decreases n - i,
    {
        if a.get_char(i) != b.get_char(i) {
            return false;
        }
        proof {
            assert(a@.subrange(0, i + 1) =~= a@.subrange(0, i as int).push(a@[i as int]));
            assert(b@.subrange(0, i + 1) =~= b@.subrange(0, i as int).push(b@[i as int]));
        }
        i = i + 1;
    }
    proof {
        assert(a@ =~= a@.subrange(0, n as int));
        assert(b@ =~= b@.subrange(0, n as int));
    }
    true
}

/// Precision rules of one asset class.
#[derive(Clone, Copy, Debug, PartialEq, Eq)]
pub struct AssetRules {
    /// Fraction digits kept in an order size.
    pub size_decimals: u32,
    /// Smallest size accepted, after rounding.
    pub min_size: Decimal,
    /// Price granularity.
    pub price_tick: Decimal,
    /// Whether explicit limit prices are aligned to `price_tick` too; swap
    /// prices always are.
    pub align_limit_prices: bool,
    /// Percentage added to (buy) or taken from (sell) the reference price of a
    /// swap so that it crosses the book.
    pub slippage_percent: u64,
}

impl AssetRules {
    pub open spec fn wf(self) -> bool {
        &&& self.size_decimals <= MAX_SCALE
        &&& self.min_size.wf()
        &&& self.price_tick.wf()
        &&& self.price_tick.units > 0
        &&& self.slippage_percent < 100
    }
}

/// The amount of an order that a message speaks of.
#[derive(Clone, Copy, Debug, PartialEq, Eq)]
pub enum Amount {
    Size,
    Price,
    /// The quote-currency (USDC) amount to spend.
    Notional,
}

/// Why an order could not be brought to the exchange's precision.
#[derive(Clone, Copy, Debug, PartialEq, Eq)]
pub enum NormalizationError {
    /// An amount is not a decimal literal the library reads.
    InvalidNumericFormat { amount: Amount },
    /// The size, after rounding, is below the minimum.
    OrderTooSmall { computed_size: Decimal },
    /// No positive reference price is known.
    ReferencePriceUnavailable,
    /// A size or price does not fit in 64-bit units.
    OutOfRange,
    /// The time-in-force is none of `"Gtc"`, `"Ioc"`, `"Alo"`.
    UnknownTimeInForce,
}

/// Units, at `d` fraction digits, of `notional / reference` rounded half away
/// from zero.
pub open spec fn notional_units(notional: Decimal, reference: Decimal, d: nat) -> int {
    round_div(
        notional.units * pow10(reference.scale as nat) * pow10(d),
        reference.units * pow10(notional.scale as nat),
    )
}

/// Applies the minimum-size rule to a rounded size.
pub open spec fn min_check(rules: AssetRules, size: Decimal) -> Result<Decimal, NormalizationError> {
    if value_le(rules.min_size, size) {
        Ok(size)
    } else {
        Err(NormalizationError::OrderTooSmall { computed_size: size })
    }
}

/// The size bought or sold for `notional` at `reference`.
pub open spec fn notional_size_spec(rules: AssetRules, notional: Decimal, reference: Decimal) -> Result<
    Decimal,
    NormalizationError,
> {
    if reference.units == 0 {
        Err(NormalizationError::ReferencePriceUnavailable)
    } else if notional_units(notional, reference, rules.size_decimals as nat) > u64::MAX {
        Err(NormalizationError::OutOfRange)
    } else {
        min_check(
            rules,
            Decimal {
                units: notional_units(notional, reference, rules.size_decimals as nat) as u64,
                scale: rules.size_decimals,
            },
        )
    }
}

/// An explicit size brought to the rules' precision.
pub open spec fn amount_size_spec(rules: AssetRules, size: Decimal) -> Result<
    Decimal,
    NormalizationError,
> {
    match round_spec(size, rules.size_decimals as nat) {
        None => Err(NormalizationError::OutOfRange),
        Some(rounded) => min_check(rules, rounded),
    }
}

proof fn lemma_bounded_product(a: int, p: int)
    requires
        0 <= a <= u64::MAX,
        1 <= p <= 10_000_000_000_000_000,
    ensures
        0 <= a * p <= u64::MAX * 10_000_000_000_000_000,
        a >= 1 ==> a * p >= 1,
{
    assert(a >= 1 ==> a * p >= 1) by (nonlinear_arith)
        requires
            1 <= p,
    ;
    assert(a * p <= u64::MAX * 10_000_000_000_000_000) by (nonlinear_arith)
        requires
            0 <= a <= u64::MAX,
            p <= 10_000_000_000_000_000,
    ;
    assert(a * p >= 0) by (nonlinear_arith)
        requires
            0 <= a,
            1 <= p,
    ;
}

proof fn lemma_scale_power(s: u32)
    requires
        s <= MAX_SCALE,
    ensures
        1 <= pow10(s as nat) <= 10_000_000_000_000_000,
{
    lemma_pow10_19();
    lemma_pow10_positive(s as nat);
    lemma_pow10_mono(s as nat, MAX_SCALE as nat);
}

fn check_min(rules: &AssetRules, size: Decimal) -> (r: Result<Decimal, NormalizationError>)
    requires
        rules.wf(),
        size.wf(),
    ensures
        r == min_check(*rules, size),
{
    if decimal_le(rules.min_size, size) {
        Ok(size)
    } else {
        Err(NormalizationError::OrderTooSmall { computed_size: size })
    }
}

/// The size that `notional` buys at `reference`: `notional / reference`
/// rounded half away from zero to `size_decimals` digits, then held to the
/// minimum size.
pub fn size_from_notional(rules: &AssetRules, notional: Decimal, reference: Decimal) -> (r: Result<
    Decimal,
    NormalizationError,
>)
    requires
        rules.wf(),
        notional.wf(),
        reference.wf(),
    ensures
        r == notional_size_spec(*rules, notional, reference),
        r matches Ok(s) ==> s.wf() && s.scale == rules.size_decimals,
{
    if reference.units == 0 {
        return Err(NormalizationError::ReferencePriceUnavailable);
    }
    proof {
        lemma_scale_power(notional.scale);
        lemma_scale_power(reference.scale);
        lemma_bounded_product(notional.units as int, pow10(reference.scale as nat) as int);
        lemma_bounded_product(reference.units as int, pow10(notional.scale as nat) as int);
    }
    let num: u128 = notional.units as u128 * pow10_u128(reference.scale);
    let den: u128 = reference.units as u128 * pow10_u128(notional.scale);
    match div_round_scaled(num, den, rules.size_decimals) {
        None => Err(NormalizationError::OutOfRange),
        Some(u) => check_min(rules, Decimal { units: u, scale: rules.size_decimals }),
    }
}

/// An explicit size rounded half away from zero to `size_decimals` digits,
/// then held to the minimum size.
pub fn size_from_amount(rules: &AssetRules, size: Decimal) -> (r: Result<
    Decimal,
    NormalizationError,
>)
    requires
        rules.wf(),
        size.wf(),
    ensures
        r == amount_size_spec(*rules, size),
        r matches Ok(s) ==> s.wf() && s.scale == rules.size_decimals,
{
    match round_to(size, rules.size_decimals) {
        None => Err(NormalizationError::OutOfRange),
        Some(rounded) => check_min(rules, rounded),
    }
}

// ---------------------------------------------------------------------------
// Prices
// ---------------------------------------------------------------------------

/// The whole number of ticks nearest to `raw`, halves away from zero.
pub open spec fn tick_count(raw: Decimal, tick: Decimal) -> int {
    round_div(raw.units * pow10(tick.scale as nat), tick.units * pow10(raw.scale as nat))
}

/// `raw` moved to the nearest multiple of `tick`, at the tick's scale.
pub open spec fn align_spec(raw: Decimal, tick: Decimal) -> Option<Decimal> {
    if tick_count(raw, tick) * tick.units <= u64::MAX {
        Some(Decimal { units: (tick_count(raw, tick) * tick.units) as u64, scale: tick.scale })
    } else {
        None
    }
}

/// The factor, in percent, that slippage applies to a reference price.
pub open spec fn slippage_factor(percent: u64, is_buy: bool) -> int {
    if is_buy {
        100 + percent
    } else {
        100 - percent
    }
}

/// Ticks nearest to `reference * factor / 100`.
pub open spec fn slipped_ticks(reference: Decimal, tick: Decimal, percent: u64, is_buy: bool) -> int {
    round_div(
        reference.units * slippage_factor(percent, is_buy) * pow10(tick.scale as nat),
        tick.units * pow10(reference.scale as nat) * 100,
    )
}

/// The reference price moved by the slippage percentage towards crossing the
/// book, then aligned to the tick.
pub open spec fn slipped_spec(reference: Decimal, tick: Decimal, percent: u64, is_buy: bool) -> Option<
    Decimal,
> {
    if slipped_ticks(reference, tick, percent, is_buy) * tick.units <= u64::MAX {
        Some(
            Decimal {
                units: (slipped_ticks(reference, tick, percent, is_buy) * tick.units) as u64,
                scale: tick.scale,
            },
        )
    } else {
        None
    }
}

/// Multiplies a tick count by the tick, when the product fits.
fn ticks_to_price(ticks: Option<u64>, tick: Decimal, Ghost(count): Ghost<int>) -> (r: Option<
    Decimal,
>)
    requires
        tick.units > 0,
        count >= 0,
        ticks == (if count <= u64::MAX {
            Some(count as u64)
        } else {
            None
        }),
    ensures
        r == (if count * tick.units <= u64::MAX {
            Some(Decimal { units: (count * tick.units) as u64, scale: tick.scale })
        } else {
            None
        }),
{
    match ticks {
        None => {
            proof {
                assert(count * tick.units >= count) by (nonlinear_arith)
                    requires
                        count >= 0,
                        tick.units >= 1,
                ;
            }
            None
        },
        Some(k) => {
            proof {
                assert(k * tick.units <= u64::MAX * u64::MAX) by (nonlinear_arith)
                    requires
                        k <= u64::MAX,
                        tick.units <= u64::MAX,
                ;
            }
            let p: u128 = k as u128 * tick.units as u128;
            if p > u64::MAX as u128 {
                None
            } else {
                Some(Decimal { units: p as u64, scale: tick.scale })
            }
        },
    }
}

/// `raw` moved to the nearest multiple of `tick`, halves away from zero.
pub fn align_price(raw: Decimal, tick: Decimal) -> (r: Option<Decimal>)
    requires
        raw.wf(),
        tick.wf(),
        tick.units > 0,
    ensures
        r == align_spec(raw, tick),
        r matches Some(p) ==> p.wf(),
{
    proof {
        lemma_scale_power(raw.scale);
        lemma_bounded_product(tick.units as int, pow10(raw.scale as nat) as int);
    }
    let den: u128 = tick.units as u128 * pow10_u128(raw.scale);
    let ticks = div_round_scaled(raw.units as u128, den, tick.scale);
    ticks_to_price(ticks, tick, Ghost(tick_count(raw, tick)))
}

/// The limit price of a swap: the reference price moved by
/// `slippage_percent` (up for a buy, down for a sell), aligned to the tick.
pub fn slipped_price(rules: &AssetRules, reference: Decimal, is_buy: bool) -> (r: Option<Decimal>)
    requires
        rules.wf(),
        reference.wf(),
    ensures
        r == slipped_spec(reference, rules.price_tick, rules.slippage_percent, is_buy),
        r matches Some(p) ==> p.wf(),
{
    let tick = rules.price_tick;
    let factor: u128 = if is_buy {
        100 + rules.slippage_percent as u128
    } else {
        100 - rules.slippage_percent as u128
    };
    proof {
        lemma_scale_power(reference.scale);
        lemma_bounded_product(tick.units as int, pow10(reference.scale as nat) as int);
        assert(reference.units * factor <= u64::MAX * 200) by (nonlinear_arith)
            requires
                reference.units <= u64::MAX,
                factor <= 200,
        ;
    }
    let num: u128 = reference.units as u128 * factor;
    let den: u128 = tick.units as u128 * pow10_u128(reference.scale) * 100;
    let ticks = div_round_scaled(num, den, tick.scale);
    ticks_to_price(ticks, tick, Ghost(slipped_ticks(reference, tick, rules.slippage_percent, is_buy)))
}

/// Scaling dividend and divisor alike leaves a rounded quotient unchanged.
pub proof fn lemma_round_div_scale(x: int, y: int, m: int)
    requires
        x >= 0,
        y > 0,
        m > 0,
    ensures
        round_div(x * m, y * m) == round_div(x, y),
{
    let q = (2 * x + y) / (2 * y);
    let rm = (2 * x + y) % (2 * y);
    lemma_fundamental_div_mod(2 * x + y, 2 * y);
    lemma_mod_pos_bound(2 * x + y, 2 * y);
    assert(0 <= rm * m < 2 * (y * m)) by (nonlinear_arith)
        requires
            0 <= rm < 2 * y,
            m > 0,
    ;
    assert(2 * (x * m) + y * m == q * (2 * (y * m)) + rm * m) by (nonlinear_arith)
        requires
            2 * x + y == 2 * y * q + rm,
    ;
    lemma_fundamental_div_mod_converse(2 * (x * m) + y * m, 2 * (y * m), q, rm * m);
}

/// A rounded quotient does not decrease as the dividend grows.
pub proof fn lemma_round_div_monotone(x1: int, x2: int, y: int)
    requires
        0 <= x1 <= x2,
        y > 0,
    ensures
        round_div(x1, y) <= round_div(x2, y),
{
    lemma_div_is_ordered(2 * x1 + y, 2 * x2 + y, 2 * y);
}

/// Raising the price before alignment never lowers the aligned price.
pub proof fn lemma_align_monotone(raw1: Decimal, raw2: Decimal, tick: Decimal)
    requires
        raw1.wf(),
        raw2.wf(),
        tick.wf(),
        tick.units > 0,
        value_le(raw1, raw2),
    ensures
        tick_count(raw1, tick) <= tick_count(raw2, tick),
        align_spec(raw2, tick) is Some ==> align_spec(raw1, tick) is Some,
        align_spec(raw1, tick) matches Some(lo) ==> (align_spec(raw2, tick) matches Some(hi)
            ==> lo.units <= hi.units && lo.scale == hi.scale && value_le(lo, hi)),
{
    let c = pow10(tick.scale as nat) as int;
    let a1 = pow10(raw1.scale as nat) as int;
    let a2 = pow10(raw2.scale as nat) as int;
    let t = tick.units as int;
    let r1 = raw1.units as int;
    let r2 = raw2.units as int;
    lemma_pow10_positive(tick.scale as nat);
    lemma_pow10_positive(raw1.scale as nat);
    lemma_pow10_positive(raw2.scale as nat);
    lemma_ratio_monotone(r1, a1, r2, a2, c, t);
    let k1 = tick_count(raw1, tick);
    let k2 = tick_count(raw2, tick);
    assert(k1 * t <= k2 * t) by (nonlinear_arith)
        requires
            k1 <= k2,
            t >= 1,
    ;
    assert((k1 * t) * c <= (k2 * t) * c) by (nonlinear_arith)
        requires
            k1 * t <= k2 * t,
            c >= 1,
    ;
    if let (Some(lo), Some(hi)) = (align_spec(raw1, tick), align_spec(raw2, tick)) {
        assert(k1 >= 0) by {
            assert(r1 * c >= 0 && t * a1 > 0) by (nonlinear_arith)
                requires
                    r1 >= 0,
                    c >= 1,
                    t >= 1,
                    a1 >= 1,
            ;
        }
        assert(lo.units == k1 * t);
        assert(hi.units == k2 * t);
        assert(lo.units * c <= hi.units * c);
    }
}

/// A larger ratio `r / a` never gives fewer rounded units of `t / c`.
proof fn lemma_ratio_monotone(r1: int, a1: int, r2: int, a2: int, c: int, t: int)
    requires
        r1 >= 0,
        r2 >= 0,
        a1 >= 1,
        a2 >= 1,
        c >= 1,
        t >= 1,
        r1 * a2 <= r2 * a1,
    ensures
        round_div(r1 * c, t * a1) <= round_div(r2 * c, t * a2),
{
    assert(r1 * c >= 0 && r2 * c >= 0 && t * a1 > 0 && t * a2 > 0) by (nonlinear_arith)
        requires
            r1 >= 0,
            r2 >= 0,
            c >= 1,
            t >= 1,
            a1 >= 1,
            a2 >= 1,
    ;
    lemma_round_div_scale(r1 * c, t * a1, a2);
    lemma_round_div_scale(r2 * c, t * a2, a1);
    assert(t * a1 * a2 == t * a2 * a1 && t * a1 * a2 > 0) by (nonlinear_arith)
        requires
            t >= 1,
            a1 >= 1,
            a2 >= 1,
    ;
    assert(r1 * c * a2 <= r2 * c * a1) by (nonlinear_arith)
        requires
            r1 * a2 <= r2 * a1,
            c >= 1,
    ;
    assert(r1 * c * a2 >= 0) by (nonlinear_arith)
        requires
            r1 >= 0,
            c >= 1,
            a2 >= 1,
    ;
    lemma_round_div_monotone(r1 * c * a2, r2 * c * a1, t * a1 * a2);
}

/// Raising the reference price of a swap never lowers its slipped, aligned
/// limit price.
pub proof fn lemma_slipped_monotone(
    ref1: Decimal,
    ref2: Decimal,
    tick: Decimal,
    percent: u64,
    is_buy: bool,
)
    requires
        ref1.wf(),
        ref2.wf(),
        tick.wf(),
        tick.units > 0,
        percent < 100,
        value_le(ref1, ref2),
    ensures
        slipped_ticks(ref1, tick, percent, is_buy) <= slipped_ticks(ref2, tick, percent, is_buy),
        slipped_spec(ref2, tick, percent, is_buy) is Some ==> slipped_spec(
            ref1,
            tick,
            percent,
            is_buy,
        ) is Some,
        slipped_spec(ref1, tick, percent, is_buy) matches Some(lo) ==> (slipped_spec(
            ref2,
            tick,
            percent,
            is_buy,
        ) matches Some(hi) ==> lo.units <= hi.units && lo.scale == hi.scale && value_le(lo, hi)),
{
    let f = slippage_factor(percent, is_buy);
    let c = pow10(tick.scale as nat) as int;
    let a1 = pow10(ref1.scale as nat) as int;
    let a2 = pow10(ref2.scale as nat) as int;
    let t = tick.units as int;
    let r1 = ref1.units as int;
    let r2 = ref2.units as int;
    lemma_pow10_positive(tick.scale as nat);
    lemma_pow10_positive(ref1.scale as nat);
    lemma_pow10_positive(ref2.scale as nat);
    assert(f >= 1);
    assert((r1 * f) * a2 <= (r2 * f) * a1 && r1 * f >= 0 && r2 * f >= 0) by (nonlinear_arith)
        requires
            r1 * a2 <= r2 * a1,
            f >= 1,
            r1 >= 0,
            r2 >= 0,
    ;
    lemma_ratio_monotone(r1 * f, a1, r2 * f, a2, c, t * 100);
    assert(r1 * f * c == (r1 * f) * c && t * a1 * 100 == (t * 100) * a1) by (nonlinear_arith);
    assert(r2 * f * c == (r2 * f) * c && t * a2 * 100 == (t * 100) * a2) by (nonlinear_arith);
    let k1 = slipped_ticks(ref1, tick, percent, is_buy);
    let k2 = slipped_ticks(ref2, tick, percent, is_buy);
    assert(k1 * t <= k2 * t) by (nonlinear_arith)
        requires
            k1 <= k2,
            t >= 1,
    ;
    assert((k1 * t) * c <= (k2 * t) * c) by (nonlinear_arith)
        requires
            k1 * t <= k2 * t,
            c >= 1,
    ;
    if let (Some(lo), Some(hi)) = (
        slipped_spec(ref1, tick, percent, is_buy),
        slipped_spec(ref2, tick, percent, is_buy),
    ) {
        assert(k1 >= 0) by {
            assert(r1 * f * c >= 0 && t * a1 * 100 > 0) by (nonlinear_arith)
                requires
                    r1 >= 0,
                    f >= 1,
                    c >= 1,
                    t >= 1,
                    a1 >= 1,
            ;
        }
        assert(lo.units == k1 * t);
        assert(hi.units == k2 * t);
        assert(lo.units * c <= hi.units * c);
    }
}

/// A positive notional at a positive reference price either gives a size of
/// at least the minimum or fails as too small; nothing else, as long as the
/// rounded size fits in 64-bit units.
pub proof fn lemma_notional_size_outcome(rules: AssetRules, notional: Decimal, reference: Decimal)
    requires
        rules.wf(),
        notional.wf(),
        reference.wf(),
        notional.units > 0,
        reference.units > 0,
        notional_units(notional, reference, rules.size_decimals as nat) <= u64::MAX,
    ensures
        match notional_size_spec(rules, notional, reference) {
            Ok(size) => value_le(rules.min_size, size),
            Err(e) => e is OrderTooSmall,
        },
{
}

// ---------------------------------------------------------------------------
// Whole orders
// ---------------------------------------------------------------------------

/// An order whose size and price stand at the precision the exchange accepts.
/// Only the normalizing functions of this module build one.
#[derive(Clone, Debug)]
pub struct NormalizedOrder {
    market: String,
    is_buy: bool,
    size: Decimal,
    limit_price: Decimal,
    time_in_force: TimeInForce,
}

impl NormalizedOrder {
    pub closed spec fn market_spec(&self) -> Seq<char> {
        self.market@
    }

    pub closed spec fn is_buy_spec(&self) -> bool {
        self.is_buy
    }

    pub closed spec fn size_spec(&self) -> Decimal {
        self.size
    }

    pub closed spec fn price_spec(&self) -> Decimal {
        self.limit_price
    }

    pub closed spec fn tif_spec(&self) -> TimeInForce {
        self.time_in_force
    }

    pub open spec fn wf(&self) -> bool {
        self.size_spec().wf() && self.price_spec().wf()
    }

    /// Whether the order holds exactly these terms.
    pub open spec fn holds(
        &self,
        market: Seq<char>,
        is_buy: bool,
        size: Decimal,
        price: Decimal,
        tif: TimeInForce,
    ) -> bool {
        &&& self.market_spec() == market
        &&& self.is_buy_spec() == is_buy
        &&& self.size_spec() == size
        &&& self.price_spec() == price
        &&& self.tif_spec() == tif
    }

    pub fn market(&self) -> (r: &str)
        ensures
            r@ == self.market_spec(),
    {
        self.market.as_str()
    }

    pub fn is_buy(&self) -> (r: bool)
        ensures
            r == self.is_buy_spec(),
    {
        self.is_buy
    }

    pub fn size(&self) -> (r: Decimal)
        ensures
            r == self.size_spec(),
    {
        self.size
    }

    pub fn limit_price(&self) -> (r: Decimal)
        ensures
            r == self.price_spec(),
    {
        self.limit_price
    }

    pub fn time_in_force(&self) -> (r: TimeInForce)
        ensures
            r == self.tif_spec(),
    {
        self.time_in_force
    }

    /// The size as text, such as `"0.01000"`.
    pub fn size_text(&self) -> (r: String)
        requires
            self.wf(),
        ensures
            r@ == crate::decimal::text_spec(
                self.size_spec().units as nat,
                self.size_spec().scale as nat,
            ),
    {
        crate::decimal::decimal_text(self.size)
    }

    /// The limit price as text.
    pub fn price_text(&self) -> (r: String)
        requires
            self.wf(),
        ensures
            r@ == crate::decimal::text_spec(
                self.price_spec().units as nat,
                self.price_spec().scale as nat,
            ),
    {
        crate::decimal::decimal_text(self.limit_price)
    }
}

/// Size and price of a swap of `notional` at `reference`.
pub open spec fn swap_terms(rules: AssetRules, notional: Decimal, reference: Decimal, is_buy: bool) -> Result<
    (Decimal, Decimal),
    NormalizationError,
> {
    match notional_size_spec(rules, notional, reference) {
        Err(e) => Err(e),
        Ok(size) => match slipped_spec(reference, rules.price_tick, rules.slippage_percent, is_buy) {
            None => Err(NormalizationError::OutOfRange),
            Some(price) => Ok((size, price)),
        },
    }
}

/// The price an explicit limit order is sent at.
pub open spec fn limit_price_spec(rules: AssetRules, price: Decimal) -> Option<Decimal> {
    if rules.align_limit_prices {
        align_spec(price, rules.price_tick)
    } else {
        Some(price)
    }
}

/// Size and price of an explicit limit order.
pub open spec fn limit_terms(rules: AssetRules, size: Decimal, price: Decimal) -> Result<
    (Decimal, Decimal),
    NormalizationError,
> {
    match amount_size_spec(rules, size) {
        Err(e) => Err(e),
        Ok(s) => match limit_price_spec(rules, price) {
            None => Err(NormalizationError::OutOfRange),
            Some(p) => Ok((s, p)),
        },
    }
}

/// A market-like order spending `notional` (text) at the reference price:
/// the size is `notional / reference` at the rules' precision, the price the
/// reference moved by the slippage and aligned to the tick, and the order is
/// immediate-or-cancel.
pub fn normalize_swap(
    rules: &AssetRules,
    market: &str,
    is_buy: bool,
    notional: &str,
    reference: Decimal,
) -> (r: Result<NormalizedOrder, NormalizationError>)
    requires
        rules.wf(),
        reference.wf(),
    ensures
        match parse_spec(notional@) {
            None => r == Err::<NormalizedOrder, NormalizationError>(
                NormalizationError::InvalidNumericFormat { amount: Amount::Notional },
            ),
            Some(n) => match swap_terms(*rules, n, reference, is_buy) {
                Err(e) => r == Err::<NormalizedOrder, NormalizationError>(e),
                Ok((size, price)) => r matches Ok(o) && o.holds(
                    market@,
                    is_buy,
                    size,
                    price,
                    TimeInForce::ImmediateOrCancel,
                ),
            },
        },
        r matches Ok(o) ==> o.wf(),
{
    let n = match parse_decimal(notional) {
        None => return Err(NormalizationError::InvalidNumericFormat { amount: Amount::Notional }),
        Some(n) => n,
    };
    let size = match size_from_notional(rules, n, reference) {
        Err(e) => return Err(e),
        Ok(s) => s,
    };
    let price = match slipped_price(rules, reference, is_buy) {
        None => return Err(NormalizationError::OutOfRange),
        Some(p) => p,
    };
    Ok(
        NormalizedOrder {
            market: market.to_string(),
            is_buy,
            size,
            limit_price: price,
            time_in_force: TimeInForce::ImmediateOrCancel,
        },
    )
}

/// The size and price texts of a limit order read as decimals; the size is
/// read first.
pub open spec fn limit_amounts(size: Seq<char>, price: Seq<char>) -> Result<
    (Decimal, Decimal),
    NormalizationError,
> {
    match (parse_spec(size), parse_spec(price)) {
        (None, _) => Err(NormalizationError::InvalidNumericFormat { amount: Amount::Size }),
        (Some(_), None) => Err(NormalizationError::InvalidNumericFormat { amount: Amount::Price }),
        (Some(s), Some(p)) => Ok((s, p)),
    }
}

/// An explicit limit order from text amounts and the wire name of its
/// time-in-force; see `limit_order`.
pub fn normalize_limit(
    rules: &AssetRules,
    market: &str,
    is_buy: bool,
    size: &str,
    price: &str,
    time_in_force: &str,
) -> (r: Result<NormalizedOrder, NormalizationError>)
    requires
        rules.wf(),
    ensures
        match limit_amounts(size@, price@) {
            Err(e) => r == Err::<NormalizedOrder, NormalizationError>(e),
            Ok((s, p)) => match tif_from_wire_spec(time_in_force@) {
                None => r == Err::<NormalizedOrder, NormalizationError>(
                    NormalizationError::UnknownTimeInForce,
                ),
                Some(t) => match limit_terms(*rules, s, p) {
                    Err(e) => r == Err::<NormalizedOrder, NormalizationError>(e),
                    Ok((sz, px)) => r matches Ok(o) && o.holds(market@, is_buy, sz, px, t),
                },
            },
        },
        r matches Ok(o) ==> o.wf(),
{
    let s = match parse_decimal(size) {
        None => return Err(NormalizationError::InvalidNumericFormat { amount: Amount::Size }),
        Some(s) => s,
    };
    let p = match parse_decimal(price) {
        None => return Err(NormalizationError::InvalidNumericFormat { amount: Amount::Price }),
        Some(p) => p,
    };
    match TimeInForce::from_wire(time_in_force) {
        None => Err(NormalizationError::UnknownTimeInForce),
        Some(tif) => limit_order(rules, market, is_buy, s, p, tif),
    }
}

/// An explicit limit order: the size rounded to the rules' precision and
/// held to the minimum, the price aligned to the tick when the rules say so.
pub fn limit_order(
    rules: &AssetRules,
    market: &str,
    is_buy: bool,
    size: Decimal,
    price: Decimal,
    time_in_force: TimeInForce,
) -> (r: Result<NormalizedOrder, NormalizationError>)
    requires
        rules.wf(),
        size.wf(),
        price.wf(),
    ensures
        match limit_terms(*rules, size, price) {
            Err(e) => r == Err::<NormalizedOrder, NormalizationError>(e),
            Ok((sz, px)) => r matches Ok(o) && o.holds(market@, is_buy, sz, px, time_in_force),
        },
        r matches Ok(o) ==> o.wf(),
{
    let sz = match size_from_amount(rules, size) {
        Err(e) => return Err(e),
        Ok(v) => v,
    };
    let px = if rules.align_limit_prices {
        match align_price(price, rules.price_tick) {
            None => return Err(NormalizationError::OutOfRange),
            Some(v) => v,
        }
    } else {
        price
    };
    Ok(NormalizedOrder { market: market.to_string(), is_buy, size: sz, limit_price: px, time_in_force })
}

} // verus!

use vstd::prelude::*;
use vstd::arithmetic::div_mod::lemma_fundamental_div_mod_converse;
use vstd::string::*;

verus! {

/// The largest number of fraction digits a decimal may carry.
pub const MAX_SCALE: u32 = 16;

/// `10^k`.
pub open spec fn pow10(k: nat) -> nat
    decreases k,
{
    if k == 0 {
        1
    } else {
        10 * pow10((k - 1) as nat)
    }
}

pub proof fn lemma_pow10_positive(k: nat)
    ensures
        pow10(k) >= 1,
    decreases k,
{
    if k > 0 {
        lemma_pow10_positive((k - 1) as nat);
    }
}

pub proof fn lemma_pow10_add(a: nat, b: nat)
    ensures
        pow10(a + b) == pow10(a) * pow10(b),
    decreases b,
{
    if b > 0 {
        let b1 = (b - 1) as nat;
        lemma_pow10_add(a, b1);
        assert((a + b - 1) as nat == a + b1);
        let x = pow10(a);
        let y = pow10(b1);
        assert(pow10(a + b) == 10 * (x * y));
        assert(pow10(b) == 10 * y);
        assert(x * (10 * y) == 10 * (x * y)) by (nonlinear_arith);
    } else {
        assert(pow10(0) == 1);
        assert(a + b == a);
    }
}

pub proof fn lemma_pow10_mono(a: nat, b: nat)
    requires
        a <= b,
    ensures
        pow10(a) <= pow10(b),
    decreases b,
{
    lemma_pow10_positive(b);
    if a < b {
        lemma_pow10_mono(a, (b - 1) as nat);
    }
}

pub proof fn lemma_pow10_19()
    ensures
        pow10(16) == 10_000_000_000_000_000,
        pow10(19) == 10_000_000_000_000_000_000,
{
    reveal_with_fuel(pow10, 20);
}

/// `10^k` as a machine integer.
pub fn pow10_u128(k: u32) -> (r: u128)
    requires
        k <= 19,
    ensures
        r == pow10(k as nat),
        1 <= r <= 10_000_000_000_000_000_000,
{
    proof {
        lemma_pow10_positive(k as nat);
        lemma_pow10_19();
        lemma_pow10_mono(k as nat, 19);
    }
    let mut r: u128 = 1;
    let mut i: u32 = 0;
    while i < k
        invariant
            i <= k <= 19,
            r == pow10(i as nat),
            pow10(k as nat) <= 10_000_000_000_000_000_000,
        decreases k - i,
    {
        proof {
            lemma_pow10_mono((i + 1) as nat, k as nat);
        }
        r = r * 10;
        i = i + 1;
    }
    r
}

/// An exact non-negative decimal number, `units / 10^scale`.
#[derive(Clone, Copy, Debug, PartialEq, Eq)]
pub struct Decimal {
    pub units: u64,
    pub scale: u32,
}

impl Decimal {
    pub open spec fn wf(self) -> bool {
        self.scale <= MAX_SCALE
    }
}

/// `x / y` rounded to the nearest integer, halves away from zero.
pub open spec fn round_div(x: int, y: int) -> int
    recommends
        x >= 0,
        y > 0,
{
    (2 * x + y) / (2 * y)
}

/// Whether `a <= b` as numbers.
pub open spec fn value_le(a: Decimal, b: Decimal) -> bool {
    a.units * pow10(b.scale as nat) <= b.units * pow10(a.scale as nat)
}

// ---------------------------------------------------------------------------
// Text form: `digits`, `digits.digits`, `.digits` or `digits.`
// ---------------------------------------------------------------------------

pub open spec fn is_digit(c: char) -> bool {
    '0' <= c && c <= '9'
}

pub open spec fn digit_of(c: char) -> nat {
    if is_digit(c) {
        (c as int - '0' as int) as nat
    } else {
        0
    }
}

pub open spec fn all_digits(t: Seq<char>) -> bool {
    forall|i: int| 0 <= i < t.len() ==> is_digit(#[trigger] t[i])
}

/// The number that a run of decimal digits spells.
pub open spec fn digits_value(t: Seq<char>) -> nat
    decreases t.len(),
{
    if t.len() == 0 {
        0
    } else {
        digits_value(t.drop_last()) * 10 + digit_of(t.last())
    }
}

/// Index of the first `.` in `s`, or `s.len()` when there is none.
pub open spec fn dot_pos(s: Seq<char>) -> nat
    decreases s.len(),
{
    if s.len() == 0 {
        0
    } else if s[0] == '.' {
        0
    } else {
        1 + dot_pos(s.drop_first())
    }
}

pub open spec fn int_part(s: Seq<char>) -> Seq<char> {
    s.subrange(0, dot_pos(s) as int)
}

pub open spec fn frac_part(s: Seq<char>) -> Seq<char> {
    if dot_pos(s) < s.len() {
        s.subrange(dot_pos(s) as int + 1, s.len() as int)
    } else {
        Seq::empty()
    }
}

/// Whether `s` is a plain decimal literal with at least one digit.
pub open spec fn decimal_syntax(s: Seq<char>) -> bool {
    &&& all_digits(int_part(s))
    &&& all_digits(frac_part(s))
    &&& int_part(s).len() + frac_part(s).len() > 0
}

/// The decimal that `s` denotes, when it is well formed, has at most
/// `MAX_SCALE` fraction digits and its digits fit in 64 bits.
pub open spec fn parse_spec(s: Seq<char>) -> Option<Decimal> {
    if decimal_syntax(s) && frac_part(s).len() <= MAX_SCALE && digits_value(
        int_part(s) + frac_part(s),
    ) <= u64::MAX {
        Some(
            Decimal {
                units: digits_value(int_part(s) + frac_part(s)) as u64,
                scale: frac_part(s).len() as u32,
            },
        )
    } else {
        None
    }
}

proof fn lemma_dot_pos(s: Seq<char>)
    ensures
        dot_pos(s) <= s.len(),
        dot_pos(s) < s.len() ==> s[dot_pos(s) as int] == '.',
        forall|i: int| 0 <= i < dot_pos(s) ==> s[i] != '.',
    decreases s.len(),
{
    if s.len() > 0 && s[0] != '.' {
        lemma_dot_pos(s.drop_first());
        assert forall|i: int| 0 <= i < dot_pos(s) implies s[i] != '.' by {
            if i > 0 {
                assert(s[i] == s.drop_first()[i - 1]);
            }
        }
    }
}

proof fn lemma_digits_value_push(t: Seq<char>, c: char)
    ensures
        digits_value(t.push(c)) == digits_value(t) * 10 + digit_of(c),
{
    assert(t.push(c).drop_last() =~= t);
}

proof fn lemma_digits_value_prefix(t: Seq<char>, k: int)
    requires
        0 <= k <= t.len(),
    ensures
        digits_value(t.subrange(0, k)) <= digits_value(t),
    decreases t.len(),
{
    if k < t.len() {
        lemma_digits_value_prefix(t.drop_last(), k);
        assert(t.drop_last().subrange(0, k) =~= t.subrange(0, k));
    } else {
        assert(t.subrange(0, k) =~= t);
    }
}

/// Finds the first `.` in `s`.
fn find_dot(s: &str) -> (r: usize)
    ensures
        r == dot_pos(s@),
{
    proof {
        lemma_dot_pos(s@);
    }
    let n = s.unicode_len();
    let mut i: usize = 0;
    while i < n
        invariant
            n == s@.len(),
            i <= n,
            i <= dot_pos(s@),
            dot_pos(s@) <= s@.len(),
            dot_pos(s@) < s@.len() ==> s@[dot_pos(s@) as int] == '.',
            forall|j: int| 0 <= j < dot_pos(s@) ==> s@[j] != '.',
        decreases n - i,
    {
        if s.get_char(i) == '.' {
            return i;
        }
        i = i + 1;
    }
    i
}

/// Reads a decimal literal such as `"118144.5"`, `"0.00001"` or `"1000"`.
/// Signs, exponents and blanks are not part of the format.
pub fn parse_decimal(s: &str) -> (r: Option<Decimal>)
    ensures
        r == parse_spec(s@),
        r matches Some(d) ==> d.wf(),
{
    let n = s.unicode_len();
    let dot = find_dot(s);
    proof {
        lemma_dot_pos(s@);
    }
    let ghost whole = int_part(s@) + frac_part(s@);
    let frac_len: usize = if dot < n {
        n - dot - 1
    } else {
        0
    };
    assert(frac_len == frac_part(s@).len());
    if dot == 0 && frac_len == 0 {
        return None;
    }
    if frac_len > MAX_SCALE as usize {
        return None;
    }
    let mut acc: u64 = 0;
    let mut i: usize = 0;
    while i < dot
        invariant
            n == s@.len(),
            dot == dot_pos(s@),
            dot <= n,
            i <= dot,
            whole == int_part(s@) + frac_part(s@),
            all_digits(s@.subrange(0, i as int)),
            acc == digits_value(s@.subrange(0, i as int)),
        decreases dot - i,
    {
        let c = s.get_char(i);
        if !('0' <= c && c <= '9') {
            assert(int_part(s@)[i as int] == c);
            return None;
        }
        let d = (c as u32 - '0' as u32) as u64;
        proof {
            assert(s@.subrange(0, i + 1) =~= s@.subrange(0, i as int).push(c));
            lemma_digits_value_push(s@.subrange(0, i as int), c);
            assert(whole.subrange(0, i + 1) =~= s@.subrange(0, i + 1));
            lemma_digits_value_prefix(whole, i + 1);
        }
        if acc > (u64::MAX - d) / 10 {
            return None;
        }
        acc = acc * 10 + d;
        i = i + 1;
    }
    assert(s@.subrange(0, dot as int) =~= int_part(s@));
    let mut j: usize = 0;
    while j < frac_len
        invariant
            n == s@.len(),
            dot == dot_pos(s@),
            dot <= n,
            frac_len == frac_part(s@).len(),
            frac_len > 0 ==> dot < n,
            j <= frac_len,
            all_digits(int_part(s@)),
            whole == int_part(s@) + frac_part(s@),
            all_digits(frac_part(s@).subrange(0, j as int)),
            acc == digits_value(int_part(s@) + frac_part(s@).subrange(0, j as int)),
        decreases frac_len - j,
    {
        let c = s.get_char(dot + 1 + j);
        let ghost fr = frac_part(s@);
        assert(fr[j as int] == c);
        if !('0' <= c && c <= '9') {
            return None;
        }
        let d = (c as u32 - '0' as u32) as u64;
        proof {
            let pre = int_part(s@) + fr.subrange(0, j as int);
            assert(int_part(s@) + fr.subrange(0, j + 1) =~= pre.push(c));
            lemma_digits_value_push(pre, c);
            assert(whole.subrange(0, int_part(s@).len() + j + 1) =~= pre.push(c));
            lemma_digits_value_prefix(whole, int_part(s@).len() + j + 1);
            assert(fr.subrange(0, j + 1) =~= fr.subrange(0, j as int).push(c));
        }
        if acc > (u64::MAX - d) / 10 {
            return None;
        }
        acc = acc * 10 + d;
        j = j + 1;
    }
    assert(frac_part(s@).subrange(0, frac_len as int) =~= frac_part(s@));
    Some(Decimal { units: acc, scale: frac_len as u32 })
}

// ---------------------------------------------------------------------------
// Rounded division
// ---------------------------------------------------------------------------

/// Splits `round_div` of `q * y + r` into the quotient and the rounding step.
pub proof fn lemma_round_div_split(x: int, y: int, q: int, r: int)
    requires
        y > 0,
        0 <= r,
        0 <= q,
        r < y,
        x == q * y + r,
    ensures
        round_div(x, y) == q + (if 2 * r >= y {
            1int
        } else {
            0int
        }),
{
    let b: int = if 2 * r >= y {
        1
    } else {
        0
    };
    let m: int = if b == 1 {
        2 * r - y
    } else {
        2 * r + y
    };
    assert(0 <= m < 2 * y);
    assert(2 * x + y == (q + b) * (2 * y) + m) by (nonlinear_arith)
        requires
            x == q * y + r,
            b == 1 ==> m == 2 * r - y,
            b == 0 ==> m == 2 * r + y,
            b == 0 || b == 1,
    ;
    lemma_fundamental_div_mod_converse(2 * x + y, 2 * y, q + b, m);
}

/// A rounded quotient is at least `c` once the dividend reaches `c * y`.
pub proof fn lemma_round_div_at_least(x: int, y: int, c: int)
    requires
        x >= 0,
        y > 0,
        x >= c * y,
    ensures
        round_div(x, y) >= c,
{
    let q = x / y;
    let r = x % y;
    vstd::arithmetic::div_mod::lemma_fundamental_div_mod(x as int, y as int);
    assert(x == q * y + r) by (nonlinear_arith)
        requires
            x == y * q + r,
    ;
    if q < c {
        assert((q + 1) * y <= c * y) by (nonlinear_arith)
            requires
                q + 1 <= c,
                y > 0,
        ;
        assert(x < (q + 1) * y) by (nonlinear_arith)
            requires
                x == q * y + r,
                r < y,
        ;
    }
    lemma_round_div_split(x, y, q, r);
}

/// `round_div(num * 10^k, den)`, when it fits in 64 bits.
pub fn div_round_scaled(num: u128, den: u128, k: u32) -> (r: Option<u64>)
    requires
        0 < den,
        den * 10 <= u128::MAX,
    ensures
        r == (if round_div(num * pow10(k as nat), den as int) <= u64::MAX {
            Some(round_div(num * pow10(k as nat), den as int) as u64)
        } else {
            None
        }),
{
    let ghost big: int = num * pow10(k as nat);
    let mut q: u128 = num / den;
    let mut rem: u128 = num % den;
    proof {
        vstd::arithmetic::div_mod::lemma_fundamental_div_mod(num as int, den as int);
        assert(num == q * den + rem) by (nonlinear_arith)
            requires
                num == den * q + rem,
        ;
        lemma_pow10_positive(k as nat);
        assert(big >= num) by (nonlinear_arith)
            requires
                big == num * pow10(k as nat),
                pow10(k as nat) >= 1,
        ;
        assert(pow10(0) == 1);
    }
    if q > u64::MAX as u128 {
        proof {
            lemma_round_div_at_least(big, den as int, q as int);
        }
        return None;
    }
    let mut i: u32 = 0;
    while i < k
        invariant
            0 < den,
            den * 10 <= u128::MAX,
            i <= k,
            q <= u64::MAX,
            rem < den,
            num * pow10(i as nat) == q * den + rem,
            big == num * pow10(k as nat),
        decreases k - i,
    {
        let t: u128 = rem * 10;
        proof {
            vstd::arithmetic::div_mod::lemma_fundamental_div_mod(t as int, den as int);
            assert(t / den < 10) by (nonlinear_arith)
                requires
                    t == den * (t / den) + t % den,
                    t % den >= 0,
                    t < den * 10,
                    den > 0,
            ;
        }
        let q2: u128 = q * 10 + t / den;
        let rem2: u128 = t % den;
        proof {
            vstd::arithmetic::div_mod::lemma_fundamental_div_mod(t as int, den as int);
            let p = pow10(i as nat);
            assert(pow10((i + 1) as nat) == 10 * p);
            assert(num * pow10((i + 1) as nat) == q2 * den + rem2) by (nonlinear_arith)
                requires
                    num * p == q * den + rem,
                    pow10((i + 1) as nat) == 10 * p,
                    t == rem * 10,
                    t == den * (t / den) + rem2,
                    q2 == q * 10 + t / den,
            ;
        }
        if q2 > u64::MAX as u128 {
            proof {
                let m = pow10((k - i - 1) as nat);
                lemma_pow10_add((i + 1) as nat, (k - i - 1) as nat);
                lemma_pow10_positive((k - i - 1) as nat);
                assert(((i + 1) + (k - i - 1)) as nat == k as nat);
                assert(big >= q2 * den) by (nonlinear_arith)
                    requires
                        big == num * (pow10((i + 1) as nat) * m),
                        num * pow10((i + 1) as nat) == q2 * den + rem2,
                        m >= 1,
                ;
                lemma_round_div_at_least(big, den as int, q2 as int);
            }
            return None;
        }
        q = q2;
        rem = rem2;
        i = i + 1;
    }
    proof {
        lemma_round_div_split(big, den as int, q as int, rem as int);
    }
    if rem >= den - rem {
        if q == u64::MAX as u128 {
            return None;
        }
        Some((q + 1) as u64)
    } else {
        Some(q as u64)
    }
}

/// The units of `x` rounded to `n` fraction digits, halves away from zero.
pub open spec fn rounded_units(x: Decimal, n: nat) -> int {
    round_div(x.units * pow10(n), pow10(x.scale as nat) as int)
}

/// `x` rounded to exactly `n` fraction digits, when the result fits.
pub open spec fn round_spec(x: Decimal, n: nat) -> Option<Decimal> {
    if rounded_units(x, n) <= u64::MAX {
        Some(Decimal { units: rounded_units(x, n) as u64, scale: n as u32 })
    } else {
        None
    }
}

proof fn lemma_power_bounds(x: Decimal)
    requires
        x.wf(),
    ensures
        1 <= pow10(x.scale as nat) <= pow10(MAX_SCALE as nat),
        pow10(MAX_SCALE as nat) == 10_000_000_000_000_000,
        x.units * pow10(x.scale as nat) <= u64::MAX * 10_000_000_000_000_000,
{
    lemma_pow10_19();
    lemma_pow10_positive(x.scale as nat);
    lemma_pow10_mono(x.scale as nat, MAX_SCALE as nat);
    let p = pow10(x.scale as nat);
    assert(x.units * p <= u64::MAX * 10_000_000_000_000_000) by (nonlinear_arith)
        requires
            x.units <= u64::MAX,
            p <= 10_000_000_000_000_000,
    ;
}

/// Rounds `x` to `n` fraction digits, halves away from zero; `None` when the
/// result does not fit in 64-bit units.
pub fn round_to(x: Decimal, n: u32) -> (r: Option<Decimal>)
    requires
        x.wf(),
        n <= MAX_SCALE,
    ensures
        r == round_spec(x, n as nat),
        r matches Some(d) ==> d.wf(),
{
    proof {
        lemma_power_bounds(x);
    }
    let den = pow10_u128(x.scale);
    match div_round_scaled(x.units as u128, den, n) {
        Some(u) => Some(Decimal { units: u, scale: n }),
        None => None,
    }
}

/// `round_div(x * c, c) == x`.
pub proof fn lemma_round_div_exact(x: int, c: int)
    requires
        x >= 0,
        c > 0,
    ensures
        round_div(x * c, c) == x,
{
    assert(x * c == x * c + 0);
    lemma_round_div_split(x * c, c, x, 0);
}

/// Rounding a decimal to `n` places twice gives the same decimal as
/// rounding it once.
pub proof fn lemma_round_idempotent(s: Seq<char>, n: nat)
    requires
        parse_spec(s) is Some,
        n <= MAX_SCALE,
    ensures
        round_spec(parse_spec(s).unwrap(), n) matches Some(once) ==> round_spec(once, n) == Some(
            once,
        ),
{
    let x = parse_spec(s).unwrap();
    if let Some(once) = round_spec(x, n) {
        lemma_pow10_positive(n);
        lemma_round_div_exact(once.units as int, pow10(n) as int);
        assert(rounded_units(once, n) == once.units);
    }
}

/// A decimal that already has `n` fraction digits is left as it is by
/// rounding to `n` digits.
pub proof fn lemma_round_at_own_scale(x: Decimal)
    requires
        x.wf(),
    ensures
        round_spec(x, x.scale as nat) == Some(x),
{
    lemma_pow10_positive(x.scale as nat);
    lemma_round_div_exact(x.units as int, pow10(x.scale as nat) as int);
}

/// Whether `a <= b` as numbers.
pub fn decimal_le(a: Decimal, b: Decimal) -> (r: bool)
    requires
        a.wf(),
        b.wf(),
    ensures
        r == value_le(a, b),
{
    proof {
        lemma_power_bounds(a);
        lemma_power_bounds(b);
        let pa = pow10(a.scale as nat);
        let pb = pow10(b.scale as nat);
        assert(a.units * pb <= u64::MAX * 10_000_000_000_000_000) by (nonlinear_arith)
            requires
                a.units <= u64::MAX,
                pb <= 10_000_000_000_000_000,
        ;
        assert(b.units * pa <= u64::MAX * 10_000_000_000_000_000) by (nonlinear_arith)
            requires
                b.units <= u64::MAX,
                pa <= 10_000_000_000_000_000,
        ;
    }
    let pa = pow10_u128(a.scale);
    let pb = pow10_u128(b.scale);
    (a.units as u128) * pb <= (b.units as u128) * pa
}

// ---------------------------------------------------------------------------
// Rendering
// ---------------------------------------------------------------------------

pub open spec fn digit_char(d: nat) -> char {
    if d == 0 {
        '0'
    } else if d == 1 {
        '1'
    } else if d == 2 {
        '2'
    } else if d == 3 {
        '3'
    } else if d == 4 {
        '4'
    } else if d == 5 {
        '5'
    } else if d == 6 {
        '6'
    } else if d == 7 {
        '7'
    } else if d == 8 {
        '8'
    } else {
        '9'
    }
}

/// How many decimal digits `n` has (one for zero).
pub open spec fn num_digits(n: nat) -> nat
    decreases n,
{
    if n < 10 {
        1
    } else {
        1 + num_digits(n / 10)
    }
}

/// The width of the digit run that shows `units` with `scale` fraction
/// digits: the digits of `units`, padded with leading zeros so that at
/// least one digit stands before the point.
pub open spec fn text_width(units: nat, scale: nat) -> nat {
    if num_digits(units) > scale + 1 {
        num_digits(units)
    } else {
        scale + 1
    }
}

/// The `w` lowest decimal digits of `n`, most significant first.
pub open spec fn digit_run(n: nat, w: nat) -> Seq<char> {
    Seq::new(w, |j: int| digit_char((n / pow10((w - 1 - j) as nat)) % 10))
}

/// The text of `units / 10^scale` with exactly `scale` fraction digits.
pub open spec fn text_spec(units: nat, scale: nat) -> Seq<char> {
    let w = text_width(units, scale);
    let ds = digit_run(units, w);
    if scale == 0 {
        ds
    } else {
        ds.subrange(0, w - scale) + seq!['.'] + ds.subrange(w - scale, w as int)
    }
}

fn digit_str(d: u64) -> (r: &'static str)
    requires
        d < 10,
    ensures
        r@ == seq![digit_char(d as nat)],
{
    proof {
        reveal_strlit("0");
        reveal_strlit("1");
        reveal_strlit("2");
        reveal_strlit("3");
        reveal_strlit("4");
        reveal_strlit("5");
        reveal_strlit("6");
        reveal_strlit("7");
        reveal_strlit("8");
        reveal_strlit("9");
    }
    if d == 0 {
        "0"
    } else if d == 1 {
        "1"
    } else if d == 2 {
        "2"
    } else if d == 3 {
        "3"
    } else if d == 4 {
        "4"
    } else if d == 5 {
        "5"
    } else if d == 6 {
        "6"
    } else if d == 7 {
        "7"
    } else if d == 8 {
        "8"
    } else {
        "9"
    }
}

proof fn lemma_num_digits_bound(n: nat, c: nat)
    requires
        n < pow10(c),
        c >= 1,
    ensures
        num_digits(n) <= c,
    decreases c,
{
    if n >= 10 {
        assert(pow10(c) == 10 * pow10((c - 1) as nat));
        assert(n / 10 < pow10((c - 1) as nat));
        if c == 1 {
            assert(pow10(0) == 1);
        } else {
            lemma_num_digits_bound(n / 10, (c - 1) as nat);
        }
    }
}

fn count_digits(n: u64) -> (r: u32)
    ensures
        r == num_digits(n as nat),
        1 <= r <= 20,
{
    proof {
        lemma_pow10_19();
        assert(pow10(20) == 10 * pow10(19));
        lemma_num_digits_bound(n as nat, 20);
    }
    let mut m: u64 = n;
    let mut c: u32 = 1;
    while m >= 10
        invariant
            num_digits(n as nat) == c - 1 + num_digits(m as nat),
            num_digits(n as nat) <= 20,
            c >= 1,
        decreases m,
    {
        m = m / 10;
        c = c + 1;
    }
    c
}

/// Writes `x` with exactly `x.scale` fraction digits, such as `"0.01000"`.
pub fn decimal_text(x: Decimal) -> (r: String)
    requires
        x.wf(),
    ensures
        r@ == text_spec(x.units as nat, x.scale as nat),
{
    let nd = count_digits(x.units);
    let w: u32 = if nd > x.scale + 1 {
        nd
    } else {
        x.scale + 1
    };
    let ghost ds = digit_run(x.units as nat, w as nat);
    let mut out = String::new();
    let mut i: u32 = w;
    while i > 0
        invariant
            w == text_width(x.units as nat, x.scale as nat),
            1 <= w <= 20,
            x.scale < w,
            i <= w,
            ds == digit_run(x.units as nat, w as nat),
            i > x.scale || x.scale == 0 ==> out@ == ds.subrange(0, w - i),
            i <= x.scale && x.scale > 0 ==> out@ == ds.subrange(0, w - x.scale) + seq!['.'] + ds.subrange(
                w - x.scale,
                w - i,
            ),
        decreases i,
    {
        let p = pow10_u128(i - 1);
        let d = ((x.units as u128 / p) % 10) as u64;
        let ghost before = out@;
        out.append(digit_str(d));
        proof {
            assert(ds[w - i] == digit_char(d as nat));
            if i > x.scale || x.scale == 0 {
                assert(out@ =~= ds.subrange(0, w - i + 1));
            } else {
                assert(out@ =~= ds.subrange(0, w - x.scale) + seq!['.'] + ds.subrange(
                    w - x.scale,
                    w - i + 1,
                ));
            }
        }
        if i - 1 == x.scale && x.scale > 0 {
            out.append(".");
            proof {
                reveal_strlit(".");
                assert(ds.subrange(w - x.scale, w - x.scale) =~= Seq::<char>::empty());
                assert(out@ =~= ds.subrange(0, w - x.scale) + seq!['.'] + ds.subrange(
                    w - x.scale,
                    w - x.scale,
                ));
            }
        }
        i = i - 1;
    }
    proof {
        if x.scale == 0 {
            assert(ds.subrange(0, w as int) =~= ds);
        }
    }
    out
}

} // verus!

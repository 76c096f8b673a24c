//! Fixed-point prices: a price is a signed count of atomic units (10^-8).
use vstd::prelude::*;
use vstd::arithmetic::div_mod::{lemma_fundamental_div_mod, lemma_mod_bound, lemma_div_is_ordered};

verus! {

/// Number of decimal places of the atomic unit.
pub const PRICE_SCALE: u32 = 8;

/// `10^n`.
pub open spec fn pow10(n: nat) -> int
    decreases n,
{
    if n == 0 {
        1
    } else {
        10 * pow10((n - 1) as nat)
    }
}

pub open spec fn in_i64(x: int) -> bool {
    i64::MIN <= x <= i64::MAX
}

/// Nearest multiple of `unit`, halves rounding up; steps of at most one unit leave `u` as it is.
pub open spec fn round_units(u: int, unit: int) -> int {
    if unit <= 1 {
        u
    } else {
        ((u + unit / 2) / unit) * unit
    }
}

/// Largest multiple of `unit` not above `u`.
pub open spec fn floor_units(u: int, unit: int) -> int {
    if unit <= 1 {
        u
    } else {
        (u / unit) * unit
    }
}

/// Smallest multiple of `unit` not below `u`; where `u + unit - 1` leaves the i64 range,
/// the largest multiple of `unit` that i64 holds.
pub open spec fn ceil_units(u: int, unit: int) -> int {
    if unit <= 1 {
        u
    } else if u + unit - 1 > i64::MAX {
        (i64::MAX as int / unit) * unit
    } else {
        ((u + unit - 1) / unit) * unit
    }
}

pub proof fn lemma_floor_div_bounds(x: int, d: int)
    requires
        d > 0,
    ensures
        (x / d) * d <= x,
        x < (x / d) * d + d,
{
    lemma_fundamental_div_mod(x, d);
    lemma_mod_bound(x, d);
    assert(d * (x / d) == (x / d) * d) by (nonlinear_arith);
}

/// Power of ten within a range of exponents, as exchanges report tick and lot sizes.
#[derive(Debug, Clone, Copy, PartialEq, Eq, Hash, Structural)]
pub struct Power10 {
    pub power: i8,
}

impl Power10 {
    /// Clamps `power` into `[min, max]`.
    pub fn new(power: i8, min: i8, max: i8) -> (r: Self)
        requires
            min <= max,
        ensures
            r.power == (if power < min { min } else if power > max { max } else { power }),
    {
        let p = if power < min {
            min
        } else if power > max {
            max
        } else {
            power
        };
        Power10 { power: p }
    }
}

/// A price granularity, in atomic units.
#[derive(Debug, Clone, Copy, PartialEq, Eq, Hash, Structural)]
pub struct PriceStep {
    pub units: i64,
}

/// A price as a count of atomic units.
#[derive(Debug, Clone, Copy, PartialEq, Eq, Hash, PartialOrd, Ord, Structural)]
pub struct Price {
    pub units: i64,
}

/// Quotient of `u` by `unit`, rounded towards negative infinity.
fn div_floor(u: i64, unit: i64) -> (q: i64)
    requires
        unit > 0,
    ensures
        q as int == u as int / unit as int,
{
    match u.checked_div_euclid(unit) {
        Some(q) => q,
        None => {
            proof {
                lemma_floor_div_bounds(u as int, unit as int);
                assert(unit as int >= 1);
                assert((u as int / unit as int) * unit as int <= u as int);
                lemma_div_bound(u as int, unit as int);
            }
            0
        },
    }
}

proof fn lemma_div_bound(u: int, d: int)
    requires
        d >= 1,
        in_i64(u),
    ensures
        in_i64(u / d),
{
    lemma_floor_div_bounds(u, d);
    let q = u / d;
    if q > u && q > 0 {
        assert(q * d >= q) by (nonlinear_arith)
            requires d >= 1, q > 0;
    }
    if q < 0 {
        assert(q * d <= q) by (nonlinear_arith)
            requires d >= 1, q < 0;
        assert(q * d + d > u);
        assert(q >= u) by (nonlinear_arith)
            requires q * d + d > u, d >= 1, q < 0, q * d <= q;
    }
}

impl Price {
    pub open spec fn fits_round(self, unit: int) -> bool {
        unit <= 1 || (self.units + unit / 2 <= i64::MAX && in_i64(round_units(self.units as int, unit)))
    }

    pub open spec fn fits_floor(self, unit: int) -> bool {
        in_i64(floor_units(self.units as int, unit))
    }

    /// Sum of two prices; the sum must stay within i64.
    pub fn add(self, rhs: Price) -> (r: Price)
        requires
            in_i64(self.units + rhs.units),
        ensures
            r.units == self.units + rhs.units,
    {
        Price { units: self.units + rhs.units }
    }

    /// Difference of two prices; the difference must stay within i64.
    pub fn sub(self, rhs: Price) -> (r: Price)
        requires
            in_i64(self.units - rhs.units),
        ensures
            r.units == self.units - rhs.units,
    {
        Price { units: self.units - rhs.units }
    }

    /// Euclidean quotient of a price by a nonzero integer.
    pub fn div(self, rhs: i64) -> (r: Price)
        requires
            rhs != 0,
            in_i64(self.units as int / rhs as int),
        ensures
            r.units == self.units as int / rhs as int,
    {
        match self.units.checked_div_euclid(rhs) {
            Some(q) => Price { units: q },
            None => Price { units: 0 },
        }
    }

    /// Creates a price from atomic units, as they are.
    pub fn from_units(units: i64) -> (r: Self)
        ensures
            r.units == units,
    {
        Price { units }
    }

    /// Nearest multiple of `step`.
    pub fn round_to_step(self, step: PriceStep) -> (r: Self)
        requires
            self.fits_round(step.units as int),
        ensures
            r.units == round_units(self.units as int, step.units as int),
    {
        Self::round_to_unit(self, step.units)
    }

    fn round_to_unit(self, unit: i64) -> (r: Self)
        requires
            self.fits_round(unit as int),
        ensures
            r.units == round_units(self.units as int, unit as int),
    {
        if unit <= 1 {
            return self;
        }
        let half = unit / 2;
        let q = div_floor(self.units + half, unit);
        Price { units: q * unit }
    }

    /// Largest multiple of `step` not above this price.
    pub fn floor_to_step(self, step: PriceStep) -> (r: Self)
        requires
            self.fits_floor(step.units as int),
        ensures
            r.units == floor_units(self.units as int, step.units as int),
    {
        let unit = step.units;
        if unit <= 1 {
            return self;
        }
        let q = div_floor(self.units, unit);
        Price { units: q * unit }
    }

    /// Smallest multiple of `step` not below this price (saturating at the top of the range).
    pub fn ceil_to_step(self, step: PriceStep) -> (r: Self)
        ensures
            r.units == ceil_units(self.units as int, step.units as int),
    {
        let unit = step.units;
        if unit <= 1 {
            return self;
        }
        let added: i64 = match self.units.checked_add(unit - 1) {
            Some(a) => a,
            None => i64::MAX,
        };
        let q = div_floor(added, unit);
        proof {
            lemma_floor_div_bounds(added as int, unit as int);
            let qi = q as int;
            let ui = unit as int;
            assert(qi * ui > added as int - ui);
            assert(added as int >= self.units as int);
            assert(qi * ui >= i64::MIN) by (nonlinear_arith)
                requires qi * ui > added as int - ui, added as int >= self.units as int, ui >= 2,
                    added as int >= i64::MIN + ui - 1;
        }
        Price { units: q * unit }
    }

    /// Side-aware bucketing: the low side (sells, bids) floors, the high side ceils.
    pub fn round_to_side_step(self, is_sell_or_bid: bool, step: PriceStep) -> (r: Self)
        requires
            is_sell_or_bid ==> self.fits_floor(step.units as int),
        ensures
            is_sell_or_bid ==> r.units == floor_units(self.units as int, step.units as int),
            !is_sell_or_bid ==> r.units == ceil_units(self.units as int, step.units as int),
    {
        if is_sell_or_bid {
            self.floor_to_step(step)
        } else {
            self.ceil_to_step(step)
        }
    }
}

/// `10^exp` for an exponent whose power fits i64.
pub(crate) fn pow10_i64(exp: u32) -> (r: i64)
    requires
        exp <= 18,
    ensures
        r as int == pow10(exp as nat),
{
    proof {
        reveal_with_fuel(pow10, 19);
        lemma_pow10_mono(0, 18);
    }
    let mut r: i64 = 1;
    let mut i: u32 = 0;
    while i < exp
        invariant
            i <= exp <= 18,
            r as int == pow10(i as nat),
            pow10(18) == 1_000_000_000_000_000_000,
        decreases exp - i,
    {
        proof {
            lemma_pow10_mono(i as nat + 1, 18);
            assert(pow10(i as nat + 1) == 10 * pow10(i as nat));
        }
        r = r * 10;
        i = i + 1;
    }
    r
}

pub proof fn lemma_pow10_mono(a: nat, b: nat)
    requires
        a <= b,
    ensures
        1 <= pow10(a) <= pow10(b),
    decreases b,
{
    if a < b {
        lemma_pow10_mono(a, (b - 1) as nat);
    } else if a > 0 {
        lemma_pow10_mono((a - 1) as nat, (a - 1) as nat);
    }
}

/// Atomic units in one minimum tick of `10^power`.
pub open spec fn min_tick_units(power: int) -> int {
    pow10((PRICE_SCALE as int + power) as nat)
}

impl Price {
    /// Nearest multiple of the exchange's minimum tick `10^min_tick.power`.
    pub fn round_to_min_tick(self, min_tick: Power10) -> (r: Self)
        requires
            -(PRICE_SCALE as int) <= min_tick.power <= 10,
            self.fits_round(min_tick_units(min_tick.power as int)),
        ensures
            r.units == round_units(self.units as int, min_tick_units(min_tick.power as int)),
    {
        let exp = (PRICE_SCALE as i32 + min_tick.power as i32) as u32;
        let unit = pow10_i64(exp);
        self.round_to_unit(unit)
    }
}

/// The character of decimal digit `d`.
pub open spec fn digit_char(d: int) -> char {
    (('0' as int) + d) as char
}

/// Decimal digits of `n`, without leading zeros (`0` for zero).
pub open spec fn decimal(n: nat) -> Seq<char>
    decreases n,
{
    if n < 10 {
        seq![digit_char(n as int)]
    } else {
        decimal(n / 10).push(digit_char((n % 10) as int))
    }
}

/// The last `w` decimal digits of `n`, zero-padded.
pub open spec fn decimal_padded(n: nat, w: nat) -> Seq<char>
    decreases w,
{
    if w == 0 {
        Seq::empty()
    } else {
        decimal_padded(n / 10, (w - 1) as nat).push(digit_char((n % 10) as int))
    }
}

/// `units` moved half a `unit` away from zero, then floored to a multiple of `unit`.
pub open spec fn round_biased(units: int, unit: int) -> int {
    if units >= 0 {
        ((units + unit / 2) / unit) * unit
    } else {
        ((units - unit / 2) / unit) * unit
    }
}

pub open spec fn abs(x: int) -> int {
    if x < 0 {
        -x
    } else {
        x
    }
}

/// A price in atomic units written with `dp` decimals (at most `PRICE_SCALE`) after
/// `round_biased`, with a `-` sign where the rounded value is negative.
pub open spec fn price_text(units: int, dp: nat) -> Seq<char> {
    let d = if dp > PRICE_SCALE { PRICE_SCALE as nat } else { dp };
    let unit = pow10((PRICE_SCALE - d) as nat);
    let r = round_biased(units, unit);
    let a = abs(r) as nat;
    let scale = pow10(PRICE_SCALE as nat) as nat;
    let sign = if r < 0 { seq!['-'] } else { Seq::empty() };
    let int_part = decimal(a / scale);
    if d == 0 {
        sign + int_part
    } else {
        sign + int_part + seq!['.'] + decimal_padded((a % scale) / (unit as nat), d)
    }
}

fn push_decimal(s: &mut String, n: u64)
    ensures
        final(s)@ == old(s)@ + decimal(n as nat),
    decreases n,
{
    if n >= 10 {
        push_decimal(s, n / 10);
    }
    crate::market::push_char(s, (48u8 + (n % 10) as u8) as char);
    proof {
        if n >= 10 {
            assert(old(s)@ + decimal(n as nat) =~= old(s)@ + decimal((n / 10) as nat) + seq![digit_char((n % 10) as int)]);
        } else {
            assert(old(s)@ + decimal(n as nat) =~= old(s)@.push(digit_char(n as int)));
        }
    }
}

fn push_decimal_padded(s: &mut String, n: u64, w: u32)
    ensures
        final(s)@ == old(s)@ + decimal_padded(n as nat, w as nat),
    decreases w,
{
    if w == 0 {
        assert(old(s)@ + decimal_padded(n as nat, 0) =~= old(s)@);
        return;
    }
    push_decimal_padded(s, n / 10, w - 1);
    crate::market::push_char(s, (48u8 + (n % 10) as u8) as char);
    assert(old(s)@ + decimal_padded(n as nat, w as nat)
        =~= old(s)@ + decimal_padded((n / 10) as nat, (w - 1) as nat) + seq![digit_char((n % 10) as int)]);
}

impl Price {
    /// Whether rounding to `dp` decimals for display stays within i64.
    pub open spec fn fits_display(self, dp: nat) -> bool {
        let d = if dp > PRICE_SCALE { PRICE_SCALE as nat } else { dp };
        let unit = pow10((PRICE_SCALE - d) as nat);
        &&& i64::MIN + unit / 2 <= self.units <= i64::MAX - unit / 2
        &&& in_i64(round_biased(self.units as int, unit))
    }

    /// The price written with `dp` decimals.
    pub fn to_string_dp(self, dp: u32) -> (r: String)
        requires
            self.fits_display(dp as nat),
        ensures
            r@ == price_text(self.units as int, dp as nat),
    {
        let d: u32 = if dp > PRICE_SCALE { PRICE_SCALE } else { dp };
        proof {
            lemma_pow10_mono((PRICE_SCALE - d) as nat, 18);
            lemma_pow10_mono(PRICE_SCALE as nat, 18);
            reveal_with_fuel(pow10, 9);
        }
        let unit = pow10_i64(PRICE_SCALE - d);
        let half = unit / 2;
        let u = self.units;
        let rounded: i64 = if u >= 0 {
            div_floor(u + half, unit) * unit
        } else {
            div_floor(u - half, unit) * unit
        };
        let a: u64 = if rounded < 0 { (-(rounded as i128)) as u64 } else { rounded as u64 };
        let scale = pow10_i64(PRICE_SCALE) as u64;
        let mut out = String::new();
        if rounded < 0 {
            crate::market::push_char(&mut out, '-');
        }
        push_decimal(&mut out, a / scale);
        if d == 0 {
            proof {
                assert(out@ =~= price_text(self.units as int, dp as nat));
            }
            return out;
        }
        crate::market::push_char(&mut out, '.');
        push_decimal_padded(&mut out, (a % scale) / (unit as u64), d);
        proof {
            assert(out@ =~= price_text(self.units as int, dp as nat));
        }
        out
    }
}

/// For prices and steps within `MAX_PRICE_UNITS`, rounding and flooring stay in i64.
pub proof fn lemma_round_in_range(u: int, unit: int)
    requires
        -crate::market::MAX_PRICE_UNITS <= u <= crate::market::MAX_PRICE_UNITS,
        unit <= crate::market::MAX_PRICE_UNITS,
    ensures
        (Price { units: u as i64 }).fits_round(unit),
        (Price { units: u as i64 }).fits_floor(unit),
        unit >= 1 ==> u - unit < round_units(u, unit) <= u + unit,
        unit >= 1 ==> u - unit < floor_units(u, unit) <= u,
        in_i64(round_units(u, unit)),
        in_i64(floor_units(u, unit)),
{
    if unit > 1 {
        lemma_floor_div_bounds(u + unit / 2, unit);
        lemma_floor_div_bounds(u, unit);
    }
}

/// Floor and ceiling to a step bracket the price: the floored low side never lies above it,
/// the ceiled high side never below it.
pub proof fn lemma_side_steps_bracket(price: Price, step: PriceStep)
    requires
        price.fits_floor(step.units as int),
        price.units + step.units - 1 <= i64::MAX,
    ensures
        floor_units(price.units as int, step.units as int) <= price.units,
        price.units <= ceil_units(price.units as int, step.units as int),
{
    let u = price.units as int;
    let d = step.units as int;
    if d > 1 {
        lemma_floor_div_bounds(u, d);
        lemma_floor_div_bounds(u + d - 1, d);
    }
}

/// Flooring to a step keeps the order of prices.
pub proof fn lemma_floor_monotone(a: int, b: int, unit: int)
    requires
        a <= b,
    ensures
        floor_units(a, unit) <= floor_units(b, unit),
{
    if unit > 1 {
        lemma_div_is_ordered(a, b, unit);
        let qa = a / unit;
        let qb = b / unit;
        assert(qa * unit <= qb * unit) by (nonlinear_arith)
            requires qa <= qb, unit > 1;
    }
}

/// Ceiling to a step keeps the order of prices.
pub proof fn lemma_ceil_monotone(a: int, b: int, unit: int)
    requires
        a <= b,
        in_i64(a),
        in_i64(b),
    ensures
        ceil_units(a, unit) <= ceil_units(b, unit),
{
    if unit > 1 {
        let m = i64::MAX as int;
        let ea = if a + unit - 1 > m { m } else { a + unit - 1 };
        let eb = if b + unit - 1 > m { m } else { b + unit - 1 };
        assert(ea <= eb);
        lemma_div_is_ordered(ea, eb, unit);
        let qa = ea / unit;
        let qb = eb / unit;
        assert(qa * unit <= qb * unit) by (nonlinear_arith)
            requires qa <= qb, unit > 1;
    }
}

} // verus!

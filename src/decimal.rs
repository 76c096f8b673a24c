//! Decimal text, as exchanges send prices and quantities, read into atomic units (10^-8).
use vstd::prelude::*;
use crate::price::{pow10, lemma_pow10_mono};

verus! {

/// Most fractional digits that atomic units hold.
pub const MAX_FRACTION_DIGITS: usize = 8;

pub open spec fn is_digit(c: char) -> bool {
    '0' <= c <= '9'
}

pub open spec fn all_digits(s: Seq<char>) -> bool {
    forall|i: int| 0 <= i < s.len() ==> is_digit(#[trigger] s[i])
}

/// Value of a string of decimal digits (0 for the empty one).
pub open spec fn digits_value(s: Seq<char>) -> int
    decreases s.len(),
{
    if s.len() == 0 {
        0
    } else {
        digits_value(s.drop_last()) * 10 + (s.last() as int - '0' as int)
    }
}

/// Index of the first `.` of `s`, or its length.
pub open spec fn dot_index(s: Seq<char>) -> int
    decreases s.len(),
{
    if s.len() == 0 {
        0
    } else if s[0] == '.' {
        0
    } else {
        1 + dot_index(s.drop_first())
    }
}

/// `s` without a leading `-`.
pub open spec fn unsigned_part(s: Seq<char>) -> Seq<char> {
    if s.len() > 0 && s[0] == '-' { s.drop_first() } else { s }
}

/// The digits before the point.
pub open spec fn int_digits(s: Seq<char>) -> Seq<char> {
    let b = unsigned_part(s);
    b.subrange(0, dot_index(b))
}

/// The digits after the point (empty where there is no point).
pub open spec fn frac_digits(s: Seq<char>) -> Seq<char> {
    let b = unsigned_part(s);
    if dot_index(b) < b.len() { b.subrange(dot_index(b) + 1, b.len() as int) } else { Seq::empty() }
}

/// An optional `-`, at least one digit, and optionally a point followed by one to eight digits.
pub open spec fn well_formed(s: Seq<char>) -> bool {
    let b = unsigned_part(s);
    &&& int_digits(s).len() >= 1
    &&& all_digits(int_digits(s))
    &&& all_digits(frac_digits(s))
    &&& frac_digits(s).len() <= MAX_FRACTION_DIGITS
    &&& dot_index(b) < b.len() ==> frac_digits(s).len() >= 1
}

/// The number that well-formed text writes, in atomic units.
pub open spec fn units_value(s: Seq<char>) -> int {
    let magnitude = digits_value(int_digits(s)) * pow10(8)
        + digits_value(frac_digits(s)) * pow10((8 - frac_digits(s).len()) as nat);
    if s.len() > 0 && s[0] == '-' { -magnitude } else { magnitude }
}

proof fn lemma_digits_value_nonneg(s: Seq<char>)
    requires
        all_digits(s),
    ensures
        digits_value(s) >= 0,
    decreases s.len(),
{
    if s.len() > 0 {
        lemma_digits_value_nonneg(s.drop_last());
    }
}

proof fn lemma_digits_value_grows(s: Seq<char>, i: int)
    requires
        all_digits(s),
        0 <= i <= s.len(),
    ensures
        digits_value(s.subrange(0, i)) <= digits_value(s),
    decreases s.len() - i,
{
    if i < s.len() {
        lemma_digits_value_grows(s, i + 1);
        let p = s.subrange(0, i + 1);
        assert(p.drop_last() =~= s.subrange(0, i));
        assert(is_digit(s[i]));
        assert(p.last() == s[i]);
        lemma_digits_value_nonneg(s.subrange(0, i));
    } else {
        assert(s.subrange(0, i) =~= s);
    }
}

proof fn lemma_dot_index(s: Seq<char>, k: int)
    requires
        0 <= k <= s.len(),
        k == s.len() || s[k] == '.',
        forall|j: int| 0 <= j < k ==> #[trigger] s[j] != '.',
    ensures
        dot_index(s) == k,
    decreases s.len(),
{
    if s.len() > 0 && k > 0 {
        let t = s.drop_first();
        assert forall|j: int| 0 <= j < k - 1 implies #[trigger] t[j] != '.' by {
            assert(t[j] == s[j + 1]);
        }
        lemma_dot_index(t, k - 1);
    }
}

proof fn lemma_pow10_add(a: nat, b: nat)
    ensures
        pow10(a + b) == pow10(a) * pow10(b),
    decreases a,
{
    if a > 0 {
        lemma_pow10_add((a - 1) as nat, b);
        assert(pow10(a + b) == 10 * pow10((a - 1 + b) as nat));
        assert(10 * (pow10((a - 1) as nat) * pow10(b)) == (10 * pow10((a - 1) as nat)) * pow10(b)) by (nonlinear_arith);
    }
}

/// Scans `s[from..to]` for digits and reads their value, giving up once it passes `cap`.
fn read_digits(s: &str, from: usize, to: usize, cap: u64) -> (r: Option<u64>)
    requires
        from <= to <= s@.len(),
        cap <= 100_000_000_000,
    ensures
        r matches Some(v) ==> all_digits(s@.subrange(from as int, to as int)) && v == digits_value(s@.subrange(from as int, to as int)) && v <= cap,
        r.is_none() ==> !all_digits(s@.subrange(from as int, to as int)) || digits_value(s@.subrange(from as int, to as int)) > cap,
{
    let mut i: usize = from;
    let mut v: u64 = 0;
    while i < to
        invariant
            from <= i <= to <= s@.len(),
            cap <= 100_000_000_000,
            all_digits(s@.subrange(from as int, i as int)),
            v == digits_value(s@.subrange(from as int, i as int)),
            v <= cap,
        decreases to - i,
    {
        let c = s.get_char(i);
        let ghost whole = s@.subrange(from as int, to as int);
        if !('0' <= c && c <= '9') {
            proof {
                assert(whole[i - from] == c);
            }
            return None;
        }
        proof {
            assert(s@.subrange(from as int, i as int + 1).drop_last() =~= s@.subrange(from as int, i as int));
        }
        let next = v * 10 + (c as u64 - 48);
        if next > cap {
            proof {
                if all_digits(whole) {
                    lemma_digits_value_grows(whole, i - from + 1);
                    assert(whole.subrange(0, i - from + 1) =~= s@.subrange(from as int, i as int + 1));
                }
            }
            return None;
        }
        v = next;
        i = i + 1;
    }
    Some(v)
}

/// Reads decimal text into atomic units; `None` where it is not well formed or its value
/// leaves the i64 range.
pub fn parse_units(s: &str) -> (r: Option<i64>)
    ensures
        r matches Some(v) ==> well_formed(s@) && v == units_value(s@),
        r.is_none() ==> !well_formed(s@) || units_value(s@) < i64::MIN || units_value(s@) > i64::MAX,
{
    let n = s.unicode_len();
    let neg = n > 0 && s.get_char(0) == '-';
    let start: usize = if neg { 1 } else { 0 };
    let ghost b = unsigned_part(s@);
    proof {
        assert(b =~= s@.subrange(start as int, n as int));
        reveal_with_fuel(pow10, 9);
    }
    let mut d: usize = start;
    while d < n && s.get_char(d) != '.'
        invariant
            n == s@.len(),
            start <= d <= n,
            forall|j: int| start <= j < d ==> #[trigger] s@[j] != '.',
        decreases n - d,
    {
        d = d + 1;
    }
    proof {
        assert forall|j: int| 0 <= j < d - start implies #[trigger] b[j] != '.' by {
            assert(b[j] == s@[j + start]);
        }
        lemma_dot_index(b, (d - start) as int);
        assert(int_digits(s@) =~= s@.subrange(start as int, d as int));
        if d < n {
            assert(frac_digits(s@) =~= s@.subrange(d as int + 1, n as int));
        } else {
            assert(frac_digits(s@) =~= Seq::<char>::empty());
        }
    }
    if d == start {
        return None;
    }
    let int_val = match read_digits(s, start, d, 100_000_000_000) {
        Some(v) => v,
        None => {
            proof {
                if well_formed(s@) {
                    lemma_digits_value_nonneg(frac_digits(s@));
                    assert(units_value(s@) > i64::MAX || units_value(s@) < i64::MIN) by (nonlinear_arith)
                        requires
                            digits_value(int_digits(s@)) > 100_000_000_000,
                            digits_value(frac_digits(s@)) >= 0,
                            pow10(8) == 100_000_000,
                            pow10((8 - frac_digits(s@).len()) as nat) >= 1,
                            units_value(s@) == (if s@.len() > 0 && s@[0] == '-' { -1int } else { 1int }) * (
                                digits_value(int_digits(s@)) * pow10(8)
                                + digits_value(frac_digits(s@)) * pow10((8 - frac_digits(s@).len()) as nat));
                }
            }
            return None;
        },
    };
    let mut frac_val: u64 = 0;
    let mut frac_len: usize = 0;
    if d < n {
        frac_len = n - d - 1;
        if frac_len == 0 || frac_len > MAX_FRACTION_DIGITS {
            return None;
        }
        frac_val = match read_digits(s, d + 1, n, 99_999_999) {
            Some(v) => v,
            None => {
                proof {
                    if all_digits(frac_digits(s@)) {
                        lemma_digits_below_pow10(frac_digits(s@));
                        lemma_pow10_mono(frac_len as nat, 8);
                    }
                }
                return None;
            },
        };
    }
    proof {
        lemma_digits_below_pow10(frac_digits(s@));
        lemma_pow10_mono((8 - frac_len) as nat, 8);
        lemma_pow10_add(frac_len as nat, (8 - frac_len) as nat);
        assert(frac_val * pow10((8 - frac_len) as nat) < 100_000_000) by (nonlinear_arith)
            requires
                frac_val < pow10(frac_len as nat),
                pow10(frac_len as nat) * pow10((8 - frac_len) as nat) == 100_000_000,
                pow10((8 - frac_len) as nat) >= 1;
        lemma_digits_value_nonneg(frac_digits(s@));
    }
    let scale = crate::price::pow10_i64((8 - frac_len) as u32) as u64;
    let magnitude: u64 = int_val * 100_000_000 + frac_val * scale;
    if neg {
        if magnitude > 9_223_372_036_854_775_808 {
            return None;
        }
        Some((-(magnitude as i128)) as i64)
    } else if magnitude > 9_223_372_036_854_775_807 {
        None
    } else {
        Some(magnitude as i64)
    }
}

proof fn lemma_digits_below_pow10(s: Seq<char>)
    requires
        all_digits(s),
    ensures
        0 <= digits_value(s) < pow10(s.len()),
    decreases s.len(),
{
    if s.len() > 0 {
        lemma_digits_below_pow10(s.drop_last());
        let p = pow10(s.drop_last().len());
        assert(pow10(s.len()) == 10 * p);
    }
}

} // verus!

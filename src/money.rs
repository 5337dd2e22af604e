//! Exact currency values and their conversion to integer minor units (cents).
//!
//! Amounts are never held as binary floating point here: a `Decimal` is an
//! integer count of `10^-scale` units, and storage holds whole cents.
use vstd::prelude::*;

verus! {

/// A signed decimal number `units * 10^-scale`, held exactly.
#[derive(Clone, Copy, Debug, PartialEq, Eq, Structural)]
pub struct Decimal {
    pub units: i64,
    pub scale: u32,
}

/// `10^n`.
pub open spec fn pow10(n: nat) -> int
    decreases n,
{
    if n == 0 {
        1
    } else {
        10 * pow10((n - 1) as nat)
    }
}

/// The amount `d` scaled to cents and rounded to the nearest whole cent,
/// halves rounded away from zero.
pub open spec fn minor_units_of(d: Decimal) -> int {
    let n = d.units * 100;
    let p = pow10(d.scale as nat);
    if n >= 0 {
        (2 * n + p) / (2 * p)
    } else {
        -((-2 * n + p) / (2 * p))
    }
}

/// `x` held to the range of `i64`.
pub open spec fn clamp_i64(x: int) -> i64 {
    if x < i64::MIN {
        i64::MIN
    } else if x > i64::MAX {
        i64::MAX
    } else {
        x as i64
    }
}

/// The cents that storage holds for the amount `d`.
pub open spec fn cents_of(d: Decimal) -> i64 {
    clamp_i64(minor_units_of(d))
}

/// The amount that `cents` minor units stand for.
pub open spec fn decimal_of_cents(cents: i64) -> Decimal {
    Decimal { units: cents, scale: 2 }
}

pub open spec fn cents_of_option(d: Option<Decimal>) -> Option<i64> {
    match d {
        Some(v) => Some(cents_of(v)),
        None => None,
    }
}

pub open spec fn decimal_of_cents_option(c: Option<i64>) -> Option<Decimal> {
    match c {
        Some(v) => Some(decimal_of_cents(v)),
        None => None,
    }
}

/// Two decimals stand for the same number.
pub open spec fn same_amount(a: Decimal, b: Decimal) -> bool {
    a.units * pow10(b.scale as nat) == b.units * pow10(a.scale as nat)
}

/// The amount is a whole number of cents.
pub open spec fn is_whole_cents(d: Decimal) -> bool {
    (d.units * 100) % pow10(d.scale as nat) == 0
}

pub proof fn lemma_pow10_positive(n: nat)
    ensures
        pow10(n) >= 1,
    decreases n,
{
    if n > 0 {
        lemma_pow10_positive((n - 1) as nat);
    }
}

pub proof fn lemma_pow10_grows(a: nat, b: nat)
    requires
        a <= b,
    ensures
        pow10(a) <= pow10(b),
    decreases b,
{
    if a < b {
        lemma_pow10_grows(a, (b - 1) as nat);
        lemma_pow10_positive((b - 1) as nat);
    }
}

proof fn lemma_pow10_split(s: nat)
    requires
        s >= 2,
    ensures
        pow10(s) == 100 * pow10((s - 2) as nat),
{
    assert(pow10(s) == 10 * pow10((s - 1) as nat));
    assert(pow10((s - 1) as nat) == 10 * pow10((s - 2) as nat));
}

/// `10^n` for `n <= 19`.
fn pow10_exec(n: u32) -> (r: i128)
    requires
        n <= 19,
    ensures
        r == pow10(n as nat),
{
    let mut r: i128 = 1;
    let mut i: u32 = 0;
    while i < n
        invariant
            i <= n <= 19,
            r == pow10(i as nat),
        decreases n - i,
    {
        proof {
            lemma_pow10_grows(i as nat, 18);
            lemma_pow10_positive(i as nat);
            assert(pow10(18) == 1000000000000000000) by {
                reveal_with_fuel(pow10, 19);
            }
        }
        r = r * 10;
        i = i + 1;
    }
    r
}

fn clamp_to_i64(x: i128) -> (r: i64)
    ensures
        r == clamp_i64(x as int),
{
    if x < i64::MIN as i128 {
        i64::MIN
    } else if x > i64::MAX as i128 {
        i64::MAX
    } else {
        x as i64
    }
}

pub open spec fn is_digit(c: char) -> bool {
    '0' <= c && c <= '9'
}

pub open spec fn all_digits(s: Seq<char>) -> bool {
    forall|i: int| 0 <= i < s.len() ==> is_digit(#[trigger] s[i])
}

/// The number that the decimal digits `s` spell (0 for none).
pub open spec fn digits_value(s: Seq<char>) -> int
    decreases s.len(),
{
    if s.len() == 0 {
        0
    } else {
        digits_value(s.drop_last()) * 10 + (s.last() as int - '0' as int)
    }
}

/// The index of the first '.' in `s`, or its length when there is none.
pub open spec fn dot_index(s: Seq<char>) -> int
    decreases s.len(),
{
    if s.len() == 0 {
        0
    } else if s[0] == '.' {
        0
    } else {
        1 + dot_index(s.drop_first())
    }
}

/// The decimal that the text `s` writes, if it is one: an optional '-', one
/// or more digits, and optionally a '.' followed by one or more digits; the
/// number of digits after the '.' is the scale. `None` when the text is no
/// such number or its digits do not fit an `i64`.
pub open spec fn decimal_from_text(s: Seq<char>) -> Option<Decimal> {
    let neg = s.len() > 0 && s[0] == '-';
    let body = if neg {
        s.drop_first()
    } else {
        s
    };
    let k = dot_index(body);
    let int_part = body.take(k);
    let frac = if k < body.len() {
        body.skip(k + 1)
    } else {
        Seq::empty()
    };
    let magnitude = digits_value(int_part + frac);
    let units = if neg {
        -magnitude
    } else {
        magnitude
    };
    if int_part.len() >= 1 && all_digits(int_part) && all_digits(frac) && (k < body.len()
        ==> frac.len() >= 1) && i64::MIN <= units <= i64::MAX && frac.len() <= u32::MAX {
        Some(Decimal { units: units as i64, scale: frac.len() as u32 })
    } else {
        None
    }
}

proof fn lemma_dot_index(s: Seq<char>, j: int)
    requires
        0 <= j <= s.len(),
        forall|i: int| 0 <= i < j ==> s[i] != '.',
        j == s.len() || s[j] == '.',
    ensures
        dot_index(s) == j,
    decreases s.len(),
{
    if s.len() > 0 && j > 0 {
        lemma_dot_index(s.drop_first(), j - 1);
    }
}

proof fn lemma_digits_value_grows(p: Seq<char>, q: Seq<char>)
    requires
        all_digits(p),
        all_digits(q),
    ensures
        digits_value(p + q) >= digits_value(p),
        digits_value(p) >= 0,
    decreases q.len(),
{
    if q.len() == 0 {
        assert(p + q =~= p);
        lemma_digits_value_nonnegative(p);
    } else {
        lemma_digits_value_grows(p, q.drop_last());
        assert((p + q).drop_last() =~= p + q.drop_last());
        assert((p + q).last() == q.last());
        assert(is_digit(q[q.len() - 1]));
    }
}

proof fn lemma_digits_value_nonnegative(p: Seq<char>)
    requires
        all_digits(p),
    ensures
        digits_value(p) >= 0,
    decreases p.len(),
{
    if p.len() > 0 {
        lemma_digits_value_nonnegative(p.drop_last());
        assert(is_digit(p[p.len() - 1]));
    }
}

impl Decimal {
    /// A decimal of `units * 10^-scale`.
    pub fn new(units: i64, scale: u32) -> (d: Decimal)
        ensures
            d == (Decimal { units, scale }),
    {
        Decimal { units, scale }
    }

    /// Reads a decimal from text such as `"1000.50"` or `"-0.005"`, exactly:
    /// the scale is the number of digits after the point.
    #[verifier::rlimit(100)]
    pub fn parse(text: &str) -> (r: Option<Decimal>)
        ensures
            r == decimal_from_text(text@),
    {
        let ghost s = text@;
        let n = text.unicode_len();
        let neg = n > 0 && text.get_char(0) == '-';
        let start: usize = if neg {
            1
        } else {
            0
        };
        let ghost body = if neg {
            s.drop_first()
        } else {
            s
        };
        let mut i: usize = start;
        let mut mag: i128 = 0;
        let mut seen_dot = false;
        let mut int_digits: usize = 0;
        let mut frac_digits: usize = 0;
        let ghost mut k: int = 0;
        assert(body.take(0) =~= Seq::<char>::empty());
        while i < n
            invariant
                s == text@,
                n == s.len(),
                start <= i <= n,
                start == (if neg { 1usize } else { 0usize }),
                neg == (s.len() > 0 && s[0] == '-'),
                body == (if neg { s.drop_first() } else { s }),
                body.len() == n - start,
                0 <= mag <= 0x8000_0000_0000_0000,
                !seen_dot ==> {
                    &&& int_digits == i - start
                    &&& frac_digits == 0
                    &&& all_digits(body.take(i - start))
                    &&& forall|t: int| 0 <= t < i - start ==> body[t] != '.'
                    &&& mag == digits_value(body.take(i - start))
                },
                seen_dot ==> {
                    &&& 1 <= k < i - start
                    &&& int_digits == k
                    &&& frac_digits == i - start - k - 1
                    &&& dot_index(body) == k
                    &&& all_digits(body.take(k))
                    &&& all_digits(body.subrange(k + 1, i - start))
                    &&& mag == digits_value(body.take(k) + body.subrange(k + 1, i - start))
                },
            decreases n - i,
        {
            let c = text.get_char(i);
            let ghost j: int = i - start;
            assert(c == body[j]);
            if c == '.' {
                if seen_dot || int_digits == 0 {
                    proof {
                        if seen_dot {
                            assert(body.skip(k + 1)[j - k - 1] == c);
                        } else {
                            lemma_dot_index(body, j);
                        }
                    }
                    return None;
                }
                proof {
                    lemma_dot_index(body, j);
                    k = j;
                    assert(body.subrange(k + 1, k + 1) =~= Seq::<char>::empty());
                    assert(body.take(k) + body.subrange(k + 1, k + 1) =~= body.take(k));
                }
                seen_dot = true;
            } else if '0' <= c && c <= '9' {
                let d = (c as u32 - '0' as u32) as i128;
                let next = mag * 10 + d;
                let ghost done = if seen_dot {
                    body.take(k) + body.subrange(k + 1, j)
                } else {
                    body.take(j)
                };
                proof {
                    let more = done.push(c);
                    assert(more.drop_last() =~= done);
                    if seen_dot {
                        assert(body.take(k) + body.subrange(k + 1, j + 1) =~= more);
                        assert(all_digits(body.subrange(k + 1, j + 1)));
                    } else {
                        assert(body.take(j + 1) =~= more);
                        assert(all_digits(body.take(j + 1)));
                    }
                }
                if next > 0x8000_0000_0000_0000 {
                    proof {
                        let more = done.push(c);
                        // what remains of the digits only adds to the value
                        if seen_dot {
                            let frac = body.skip(k + 1);
                            let rest = body.subrange(j + 1, body.len() as int);
                            if all_digits(frac) {
                                assert(all_digits(rest)) by {
                                    assert forall|t: int| 0 <= t < rest.len() implies is_digit(
                                        #[trigger] rest[t],
                                    ) by {
                                        assert(rest[t] == frac[j + 1 - k - 1 + t]);
                                    }
                                }
                                assert(body.take(k) + frac =~= more + rest);
                                lemma_digits_value_grows(more, rest);
                            }
                        } else {
                            lemma_dot_index_after(body, j);
                            lemma_dot_index_bounds(body);
                            let kk = dot_index(body);
                            let int_part = body.take(kk);
                            let frac = if kk < body.len() {
                                body.skip(kk + 1)
                            } else {
                                Seq::<char>::empty()
                            };
                            if all_digits(int_part) && all_digits(frac) && int_part.len() >= 1 {
                                let mid = body.subrange(j + 1, kk);
                                assert(all_digits(mid)) by {
                                    assert forall|t: int| 0 <= t < mid.len() implies is_digit(
                                        #[trigger] mid[t],
                                    ) by {
                                        assert(mid[t] == int_part[j + 1 + t]);
                                    }
                                }
                                assert(int_part + frac =~= (more + mid) + frac);
                                lemma_digits_value_grows(more, mid);
                                lemma_digits_value_grows(more + mid, frac);
                            }
                        }
                    }
                    return None;
                }
                mag = next;
                if seen_dot {
                    frac_digits = frac_digits + 1;
                } else {
                    int_digits = int_digits + 1;
                }
            } else {
                proof {
                    if seen_dot {
                        assert(body.skip(k + 1)[j - k - 1] == c);
                    } else {
                        lemma_dot_index_after(body, j);
                        lemma_dot_index_bounds(body);
                        assert(body.take(dot_index(body))[j] == c);
                    }
                }
                return None;
            }
            i = i + 1;
        }
        proof {
            let j: int = n - start;
            if seen_dot {
                assert(body.subrange(k + 1, j) =~= body.skip(k + 1));
            } else {
                lemma_dot_index(body, j);
                assert(body.take(j) =~= body);
                assert(body + Seq::<char>::empty() =~= body);
            }
        }
        if int_digits == 0 || (seen_dot && frac_digits == 0) {
            return None;
        }
        if frac_digits > u32::MAX as usize {
            return None;
        }
        let units: i128 = if neg {
            -mag
        } else {
            mag
        };
        if units > i64::MAX as i128 {
            return None;
        }
        Some(Decimal { units: units as i64, scale: frac_digits as u32 })
    }
}

proof fn lemma_dot_index_bounds(s: Seq<char>)
    ensures
        0 <= dot_index(s) <= s.len(),
    decreases s.len(),
{
    if s.len() > 0 && s[0] != '.' {
        lemma_dot_index_bounds(s.drop_first());
    }
}

/// With no '.' up to index `j`, the first '.' comes after `j`.
proof fn lemma_dot_index_after(s: Seq<char>, j: int)
    requires
        0 <= j < s.len(),
        forall|t: int| 0 <= t <= j ==> s[t] != '.',
    ensures
        dot_index(s) > j,
    decreases s.len(),
{
    lemma_dot_index_bounds(s.drop_first());
    if j > 0 {
        lemma_dot_index_after(s.drop_first(), j - 1);
    }
}


/// Converts an amount to the cents that storage holds: the amount times 100,
/// rounded to the nearest integer with halves away from zero (`1.005` gives
/// `101`, `-1.005` gives `-101`). Amounts past the range of `i64` saturate.
pub fn dollars_to_cents(dollars: Decimal) -> (cents: i64)
    ensures
        cents == cents_of(dollars),
{
    let u = dollars.units as i128;
    let s = dollars.scale;
    let ghost n = dollars.units * 100;
    let ghost p = pow10(s as nat);
    if s <= 2 {
        let m: i128 = if s == 0 {
            100
        } else if s == 1 {
            10
        } else {
            1
        };
        let q = u * m;
        proof {
            assert(p * m == 100) by {
                reveal_with_fuel(pow10, 3);
            }
            assert(n == q * p) by (nonlinear_arith)
                requires
                    p * m == 100,
                    n == u * 100,
                    q == u * m,
            ;
            if n >= 0 {
                assert(2 * n + p == q * (2 * p) + p) by (nonlinear_arith)
                    requires
                        n == q * p,
                ;
                vstd::arithmetic::div_mod::lemma_fundamental_div_mod_converse(
                    2 * n + p,
                    2 * p,
                    q as int,
                    p,
                );
            } else {
                assert(-2 * n + p == (-q) * (2 * p) + p) by (nonlinear_arith)
                    requires
                        n == q * p,
                ;
                vstd::arithmetic::div_mod::lemma_fundamental_div_mod_converse(
                    -2 * n + p,
                    2 * p,
                    -q,
                    p,
                );
            }
        }
        clamp_to_i64(q)
    } else if s - 2 > 19 {
        proof {
            lemma_pow10_split(s as nat);
            lemma_pow10_grows(20, (s - 2) as nat);
            assert(pow10(20) == 100000000000000000000) by {
                reveal_with_fuel(pow10, 21);
            }
            let a = if n >= 0 { n } else { -n };
            assert(2 * a < p);
            vstd::arithmetic::div_mod::lemma_fundamental_div_mod_converse(
                2 * a + p,
                2 * p,
                0,
                2 * a + p,
            );
        }
        0
    } else {
        let pp = pow10_exec(s - 2);
        proof {
            lemma_pow10_split(s as nat);
            lemma_pow10_positive((s - 2) as nat);
            lemma_pow10_grows((s - 2) as nat, 19);
            assert(pow10(19) == 10000000000000000000) by {
                reveal_with_fuel(pow10, 20);
            }
        }
        let a: i128 = if u >= 0 {
            u
        } else {
            -u
        };
        let q = (2 * a + pp) / (2 * pp);
        let rem = (2 * a + pp) % (2 * pp);
        proof {
            assert(2 * a + pp == (2 * pp) * q + rem) by {
                vstd::arithmetic::div_mod::lemma_fundamental_div_mod(
                    (2 * a + pp) as int,
                    (2 * pp) as int,
                );
            }
            assert((2 * pp) * q == q * (2 * pp)) by (nonlinear_arith);
            assert(q * (200 * pp) == 100 * (q * (2 * pp))) by (nonlinear_arith);
            assert(2 * (a * 100) + p == q * (2 * p) + 100 * rem);
            vstd::arithmetic::div_mod::lemma_fundamental_div_mod_converse(
                2 * (a * 100) + p,
                2 * p,
                q as int,
                100 * rem,
            );
            assert(q <= a) by (nonlinear_arith)
                requires
                    q * (2 * pp) <= 2 * a + pp,
                    pp >= 1,
                    a >= 0,
                    q >= 0,
            ;
        }
        let r = if u >= 0 {
            q
        } else {
            -q
        };
        clamp_to_i64(r)
    }
}

/// The amount that `cents` minor units stand for: `cents / 100`, exactly.
pub fn cents_to_dollars(cents: i64) -> (dollars: Decimal)
    ensures
        dollars == decimal_of_cents(cents),
{
    Decimal { units: cents, scale: 2 }
}

/// `dollars_to_cents` on a present amount; absence stays absent.
pub fn dollars_to_cents_option(dollars: Option<Decimal>) -> (cents: Option<i64>)
    ensures
        cents == cents_of_option(dollars),
{
    match dollars {
        Some(d) => Some(dollars_to_cents(d)),
        None => None,
    }
}

/// `cents_to_dollars` on a present amount; absence stays absent.
pub fn cents_to_dollars_option(cents: Option<i64>) -> (dollars: Option<Decimal>)
    ensures
        dollars == decimal_of_cents_option(cents),
{
    match cents {
        Some(c) => Some(cents_to_dollars(c)),
        None => None,
    }
}

} // verus!

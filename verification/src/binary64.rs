//! The binary64 (`f64`) values that percentages and averages take, worked out
//! in whole numbers: a quotient rounded to the nearest binary64 value (ties
//! to an even significand), and such a value written with one decimal, as
//! `{:.1}` writes it.
use vstd::prelude::*;
use vstd::arithmetic::power2::{
    lemma2_to64, lemma2_to64_rest, lemma_pow2_adds, lemma_pow2_pos, lemma_pow2_strictly_increases, lemma_pow2_unfold, pow2,
};
use crate::numbers::push_decimal_wide;
use crate::output::stats::tenths_text;
use crate::text::char_from_ascii;

verus! {

/// A binary64 value: `m · 2^e`.
pub struct DoubleValue {
    pub m: nat,
    pub e: int,
}

/// The value zero.
pub open spec fn zero_value() -> DoubleValue {
    DoubleValue { m: 0, e: 0 }
}

/// The non-negative part of an exponent.
pub open spec fn up(s: int) -> nat {
    if s >= 0 {
        s as nat
    } else {
        0
    }
}

/// The negative part of an exponent, as a positive number.
pub open spec fn down(s: int) -> nat {
    if s < 0 {
        (-s) as nat
    } else {
        0
    }
}

/// `p / q · 2^s` as a fraction of whole numbers.
pub open spec fn scaled(p: nat, q: nat, s: int) -> (nat, nat) {
    (p * pow2(up(s)), q * pow2(down(s)))
}

/// `p / q · 2^s` lies in `[2^52, 2^53)`.
pub open spec fn in_binade(p: nat, q: nat, s: int) -> bool {
    &&& pow2(52) * scaled(p, q, s).1 <= scaled(p, q, s).0
    &&& scaled(p, q, s).0 < pow2(53) * scaled(p, q, s).1
}

/// `n / d` rounded to a whole number, ties to even.
pub open spec fn round_half_even(n: nat, d: nat) -> nat {
    let q = n / d;
    let r = n % d;
    if 2 * r > d || (2 * r == d && q % 2 == 1) {
        q + 1
    } else {
        q
    }
}

/// The binary64 value nearest to `p / q · 2^k` (for `p` and `q` above zero,
/// and exponents in the normal range), ties to an even significand: the
/// quotient scaled into `[2^52, 2^53)`, rounded, and scaled back.
pub open spec fn nearest(p: nat, q: nat, k: int) -> DoubleValue {
    let s = choose|s: int| in_binade(p, q, s);
    DoubleValue { m: round_half_even(scaled(p, q, s).0, scaled(p, q, s).1), e: k - s }
}

/// The powers of two that the rounding works with.
proof fn lemma_powers()
    ensures
        pow2(0) == 1,
        pow2(1) == 2,
        pow2(52) == 0x10_0000_0000_0000,
        pow2(53) == 0x20_0000_0000_0000,
        pow2(54) == 0x40_0000_0000_0000,
        pow2(12) == 0x1000,
        pow2(50) == 0x4_0000_0000_0000,
        pow2(64) == 0x1_0000_0000_0000_0000,
{
    lemma2_to64();
    lemma2_to64_rest();
}

proof fn lemma_pow2_parts(s1: int, s2: int)
    requires
        s1 < s2,
    ensures
        pow2(up(s2)) * pow2(down(s1)) == pow2((s2 - s1) as nat) * (pow2(up(s1)) * pow2(down(s2))),
        pow2((s2 - s1) as nat) >= 2,
{
    lemma_pow2_adds(up(s2), down(s1));
    lemma_pow2_adds(up(s1), down(s2));
    lemma_pow2_adds((s2 - s1) as nat, (up(s1) + down(s2)) as nat);
    assert(up(s2) + down(s1) == (s2 - s1) + up(s1) + down(s2));
    lemma2_to64();
    if s2 - s1 > 1 {
        lemma_pow2_strictly_increases(1, (s2 - s1) as nat);
    }
}

/// A quotient lies in one binade only.
proof fn lemma_binade_unique(p: nat, q: nat, s1: int, s2: int)
    requires
        p > 0,
        q > 0,
        in_binade(p, q, s1),
        in_binade(p, q, s2),
    ensures
        s1 == s2,
{
    if s1 != s2 {
        let (lo, hi) = if s1 < s2 {
            (s1, s2)
        } else {
            (s2, s1)
        };
        lemma_pow2_parts(lo, hi);
        let a1 = p * pow2(up(lo));
        let b1 = q * pow2(down(lo));
        let a2 = p * pow2(up(hi));
        let b2 = q * pow2(down(hi));
        let f = pow2((hi - lo) as nat);
        let u = pow2(up(hi)) * pow2(down(lo));
        let v = pow2(up(lo)) * pow2(down(hi));
        assert(a2 * b1 == p * q * u) by (nonlinear_arith)
            requires
                a2 == p * pow2(up(hi)),
                b1 == q * pow2(down(lo)),
                u == pow2(up(hi)) * pow2(down(lo)),
        ;
        assert(a1 * b2 == p * q * v) by (nonlinear_arith)
            requires
                a1 == p * pow2(up(lo)),
                b2 == q * pow2(down(hi)),
                v == pow2(up(lo)) * pow2(down(hi)),
        ;
        let c = pow2(52);
        lemma_powers();
        assert(in_binade(p, q, lo) && in_binade(p, q, hi));
        assert(pow2(53) == 2 * c && c > 0);
        lemma_pow2_pos(down(lo));
        lemma_pow2_pos(down(hi));
        assert(b1 > 0 && b2 > 0) by (nonlinear_arith)
            requires
                q > 0,
                pow2(down(lo)) > 0,
                pow2(down(hi)) > 0,
                b1 == q * pow2(down(lo)),
                b2 == q * pow2(down(hi)),
        ;
        assert(false) by (nonlinear_arith)
            requires
                a2 * b1 == p * q * u,
                a1 * b2 == p * q * v,
                u == f * v,
                f >= 2,
                c * b1 <= a1,
                a2 < 2 * c * b2,
                b1 > 0,
                b2 > 0,
                c > 0,
        ;
    }
}

/// Powers of two above an exponent are at least its power.
proof fn lemma_pow2_at_least(a: nat, b: nat)
    requires
        a <= b,
    ensures
        pow2(a) <= pow2(b),
{
    if a < b {
        lemma_pow2_strictly_increases(a, b);
    }
}

/// Where the binade of a quotient lies, for a whole number over one, and for
/// a quotient of two significands.
proof fn lemma_range_facts(p: nat, q: nat, s: int, n: nat, d: nat)
    requires
        p > 0,
        q > 0,
        p < pow2(64),
        n == p * pow2(up(s)),
        d == q * pow2(down(s)),
        pow2(52) * d <= n < pow2(53) * d,
    ensures
        q == 1 ==> -11 <= s <= 52,
        (pow2(52) <= p <= pow2(53) && pow2(52) <= q <= pow2(53)) ==> 51 <= s <= 53,
{
    lemma_powers();
    lemma_pow2_pos(up(s));
    lemma_pow2_pos(down(s));
    if q == 1 {
        if s > 52 {
            lemma_pow2_at_least(53, up(s));
            assert(n >= pow2(53)) by (nonlinear_arith)
                requires
                    n == p * pow2(up(s)),
                    p >= 1,
                    pow2(up(s)) >= pow2(53),
            ;
        }
        if s < -11 {
            lemma_pow2_at_least(12, down(s));
            assert(pow2(52) * d >= pow2(64)) by (nonlinear_arith)
                requires
                    d == pow2(down(s)),
                    pow2(down(s)) >= 0x1000,
                    pow2(52) == 0x10_0000_0000_0000,
                    pow2(64) == 0x1_0000_0000_0000_0000,
            ;
        }
    }
    if pow2(52) <= p <= pow2(53) && pow2(52) <= q <= pow2(53) {
        if s < 0 {
            lemma_pow2_at_least(1, down(s));
            assert(false) by (nonlinear_arith)
                requires
                    d == q * pow2(down(s)),
                    pow2(down(s)) >= 2,
                    q >= pow2(52),
                    n == p * pow2(up(s)),
                    pow2(up(s)) == 1,
                    p <= pow2(53),
                    pow2(52) * d <= n,
                    pow2(52) == 0x10_0000_0000_0000,
                    pow2(53) == 0x20_0000_0000_0000,
            ;
        }
        if s >= 0 {
            assert(down(s) == 0);
            assert(pow2(down(s)) == 1);
            assert(d == q) by (nonlinear_arith)
                requires
                    d == q * pow2(down(s)),
                    pow2(down(s)) == 1,
            ;
        }
        if s >= 0 && s < 51 {
            lemma_pow2_at_least(up(s), 50);
            lemma_pow2_adds(50, 53);
            assert(false) by (nonlinear_arith)
                requires
                    n == p * pow2(up(s)),
                    pow2(up(s)) <= pow2(50),
                    p <= pow2(53),
                    pow2(52) * d <= n,
                    d == q,
                    q >= pow2(52),
                    pow2(50) == 0x4_0000_0000_0000,
                    pow2(52) == 0x10_0000_0000_0000,
                    pow2(53) == 0x20_0000_0000_0000,
            ;
        }
        if s > 53 {
            lemma_pow2_at_least(54, up(s));
            assert(false) by (nonlinear_arith)
                requires
                    n == p * pow2(up(s)),
                    pow2(up(s)) >= pow2(54),
                    p >= pow2(52),
                    n < pow2(53) * d,
                    d == q,
                    q <= pow2(53),
                    pow2(52) == 0x10_0000_0000_0000,
                    pow2(53) == 0x20_0000_0000_0000,
                    pow2(54) == 0x40_0000_0000_0000,
            ;
        }
    }
}

/// The binary64 value nearest to `p / q · 2^k`: its significand and exponent.
fn nearest_double(p: u64, q: u64, k: i64) -> (r: (u64, i64))
    requires
        p > 0,
        0 < q <= 0x40_0000_0000_0000,
        -1000 <= k <= 1000,
    ensures
        r.0 as nat == nearest(p as nat, q as nat, k as int).m,
        r.1 as int == nearest(p as nat, q as nat, k as int).e,
        pow2(52) <= r.0 <= pow2(53),
        q == 1 ==> k - 52 <= r.1 <= k + 11,
        (pow2(52) <= p <= pow2(53) && pow2(52) <= q <= pow2(53)) ==> k - 53 <= r.1 <= k - 51,
{
    proof {
        lemma_powers();
    }
    let two52: u128 = 0x10_0000_0000_0000;
    let two53: u128 = 0x20_0000_0000_0000;
    let mut n: u128 = p as u128;
    let mut d: u128 = q as u128;
    let mut s: i64 = 0;
    assert(n == p * pow2(0) && d == q * pow2(0));
    if n < two52 * d {
        while n < two52 * d
            invariant
                0 <= s <= 110,
                n > 0,
                n == p * pow2(s as nat),
                d == q,
                0 < q <= 0x40_0000_0000_0000,
                p > 0,
                n < two53 * d,
                pow2(s as nat) <= n,
                two52 == 0x10_0000_0000_0000,
                two53 == 0x20_0000_0000_0000,
                pow2(52) == two52,
                pow2(53) == two53,
            decreases two53 * d - n,
        {
            n = 2 * n;
            s = s + 1;
            proof {
                lemma_pow2_unfold(s as nat);
                assert(n == p * pow2(s as nat)) by (nonlinear_arith)
                    requires
                        n == 2 * (p * pow2((s - 1) as nat)),
                        pow2(s as nat) == 2 * pow2((s - 1) as nat),
                ;
                if s > 110 {
                    lemma_pow2_adds(53, 54);
                    lemma2_to64_rest();
                    lemma_pow2_at_least(107, s as nat);
                    assert(pow2(107) == pow2(53) * pow2(54));
                    assert(false);
                }
            }
        }
    } else {
        while n >= two53 * d
            invariant
                -12 <= s <= 0,
                n == p,
                n < 0x1_0000_0000_0000_0000,
                d == q * pow2((-s) as nat),
                d > 0,
                pow2((-s) as nat) <= d,
                two52 * d <= n,
                0 < q,
                two52 == 0x10_0000_0000_0000,
                two53 == 0x20_0000_0000_0000,
                pow2(52) == two52,
                pow2(53) == two53,
            decreases n - d,
        {
            d = 2 * d;
            s = s - 1;
            proof {
                lemma_pow2_unfold((-s) as nat);
                assert(d == q * pow2((-s) as nat)) by (nonlinear_arith)
                    requires
                        d == 2 * (q * pow2((-s - 1) as nat)),
                        pow2((-s) as nat) == 2 * pow2((-s - 1) as nat),
                ;
                assert(pow2((-s) as nat) <= d);
                if s < -12 {
                    lemma_powers();
                    lemma_pow2_at_least(12, (-s) as nat);
                    assert(d >= 0x1000);
                    assert(false);
                }
            }
        }
    }
    let quo = n / d;
    let rem = n % d;
    let m = if 2 * rem > d || (2 * rem == d && quo % 2 == 1) {
        quo + 1
    } else {
        quo
    };
    proof {
        if s >= 0 {
            assert(up(s as int) == s && down(s as int) == 0);
        } else {
            assert(up(s as int) == 0 && down(s as int) == -s);
        }
        assert(scaled(p as nat, q as nat, s as int) == (n as nat, d as nat));
        assert(in_binade(p as nat, q as nat, s as int));
        let c = choose|t: int| in_binade(p as nat, q as nat, t);
        lemma_binade_unique(p as nat, q as nat, c, s as int);
        assert(two52 <= quo < two53) by (nonlinear_arith)
            requires
                two52 * d <= n < two53 * d,
                quo == n / d,
                d > 0,
        ;
        lemma_range_facts(p as nat, q as nat, s as int, n as nat, d as nat);
    }
    (m as u64, k - s)
}

// ---------------------------------------------------------------------------
// The operations
// ---------------------------------------------------------------------------
/// The value of a significand and exponent.
pub open spec fn double_of(t: (u64, i64)) -> DoubleValue {
    DoubleValue { m: t.0 as nat, e: t.1 as int }
}

/// `n as f64`, for a whole number.
pub open spec fn from_whole(n: nat) -> DoubleValue {
    if n == 0 {
        zero_value()
    } else {
        nearest(n, 1, 0)
    }
}

/// `v * 100.0`.
pub open spec fn hundredfold(v: DoubleValue) -> DoubleValue {
    if v.m == 0 {
        zero_value()
    } else {
        nearest(v.m * 100, 1, v.e)
    }
}

/// `a / b`, for `b` above zero.
pub open spec fn quotient(a: DoubleValue, b: DoubleValue) -> DoubleValue {
    if a.m == 0 {
        zero_value()
    } else {
        nearest(a.m, b.m, a.e - b.e)
    }
}

/// The value in tenths, rounded to the nearest, ties to even: the digits
/// that `{:.1}` writes.
pub open spec fn tenths(v: DoubleValue) -> nat {
    if v.e >= 0 {
        10 * v.m * pow2(v.e as nat)
    } else {
        round_half_even(10 * v.m, pow2((-v.e) as nat))
    }
}

/// A significand and exponent of a value that is zero or normal.
pub open spec fn normal(t: (u64, i64), lo: int, hi: int) -> bool {
    ||| t.0 == 0 && t.1 == 0
    ||| pow2(52) <= t.0 <= pow2(53) && lo <= t.1 <= hi
}

fn whole_value(n: u64) -> (r: (u64, i64))
    ensures
        double_of(r) == from_whole(n as nat),
        normal(r, -52, 11),
        r.0 == 0 <==> n == 0,
{
    proof {
        lemma_powers();
    }
    if n == 0 {
        (0, 0)
    } else {
        nearest_double(n, 1, 0)
    }
}

fn hundredfold_value(v: (u64, i64)) -> (r: (u64, i64))
    requires
        normal(v, -52, 11),
    ensures
        double_of(r) == hundredfold(double_of(v)),
        normal(r, -104, 22),
        r.0 == 0 <==> v.0 == 0,
{
    proof {
        lemma_powers();
    }
    if v.0 == 0 {
        (0, 0)
    } else {
        nearest_double(v.0 * 100, 1, v.1)
    }
}

fn quotient_value(a: (u64, i64), b: (u64, i64), lo: i64, hi: i64) -> (r: (u64, i64))
    requires
        normal(a, lo as int, hi as int),
        pow2(52) <= b.0 <= pow2(53),
        -120 <= b.1 <= 120,
        -120 <= lo <= hi <= 120,
    ensures
        double_of(r) == quotient(double_of(a), double_of(b)),
        normal(r, lo - b.1 - 53, hi - b.1 - 51),
{
    proof {
        lemma_powers();
    }
    if a.0 == 0 {
        (0, 0)
    } else {
        nearest_double(a.0, b.0, a.1 - b.1)
    }
}

/// `2^e` for a small exponent.
fn power_of_two(e: u32) -> (r: u128)
    requires
        e < 100,
    ensures
        r == pow2(e as nat),
{
    let mut r: u128 = 1;
    let mut i: u32 = 0;
    proof {
        lemma_powers();
    }
    while i < e
        invariant
            i <= e < 100,
            r == pow2(i as nat),
        decreases e - i,
    {
        proof {
            lemma_pow2_unfold((i + 1) as nat);
            lemma_pow2_strictly_increases((i + 1) as nat, 100);
            lemma_pow2_adds(64, 36);
            lemma2_to64();
            lemma2_to64_rest();
        }
        r = 2 * r;
        i = i + 1;
    }
    r
}

fn tenths_value(v: (u64, i64)) -> (t: u128)
    requires
        normal(v, -200, 30),
    ensures
        t == tenths(double_of(v)),
{
    proof {
        lemma_powers();
    }
    let m: u128 = v.0 as u128;
    if v.1 >= 0 {
        let f = power_of_two(v.1 as u32);
        proof {
            lemma_pow2_at_least(v.1 as nat, 30);
            lemma2_to64();
        }
        assert(10 * m * f < 0x1_0000_0000_0000_0000_0000_0000_0000_0000) by (nonlinear_arith)
            requires
                m <= 0x20_0000_0000_0000,
                f <= 0x4000_0000,
        ;
        10 * m * f
    } else if v.1 <= -64 {
        proof {
            lemma_pow2_at_least(64, (-v.1) as nat);
            let d: nat = pow2((-v.1) as nat);
            let n: nat = (10 * m) as nat;
            assert(n / d == 0 && n % d == n) by (nonlinear_arith)
                requires
                    d >= 0x1_0000_0000_0000_0000,
                    n <= 10 * 0x20_0000_0000_0000,
            ;
        }
        0
    } else {
        let d = power_of_two((-v.1) as u32);
        proof {
            lemma_pow2_pos((-v.1) as nat);
            lemma_pow2_strictly_increases((-v.1) as nat, 64);
        }
        let n = 10 * m;
        let quo = n / d;
        let rem = n % d;
        if 2 * rem > d || (2 * rem == d && quo % 2 == 1) {
            quo + 1
        } else {
            quo
        }
    }
}

// ---------------------------------------------------------------------------
// Percentages and averages
// ---------------------------------------------------------------------------
/// `count as f64 * 100.0 / total as f64` written with one decimal, `0.0`
/// for a total of zero.
pub open spec fn percent_text(count: nat, total: nat) -> Seq<char> {
    if total == 0 {
        seq!['0', '.', '0']
    } else {
        tenths_text(tenths(quotient(hundredfold(from_whole(count)), from_whole(total))))
    }
}

/// `total as f64 / count as f64` written with one decimal, `0.0` for a
/// count of zero.
pub open spec fn average_text(total: nat, count: nat) -> Seq<char> {
    if count == 0 {
        seq!['0', '.', '0']
    } else {
        tenths_text(tenths(quotient(from_whole(total), from_whole(count))))
    }
}

/// Appends a number of tenths with one decimal.
fn push_tenths(out: &mut Vec<char>, t: u128)
    ensures
        final(out)@ == old(out)@ + tenths_text(t as nat),
{
    push_decimal_wide(out, t / 10);
    out.push('.');
    out.push(char_from_ascii((48 + t % 10) as u8));
}

/// Appends the percentage that `count` is of `total`.
pub fn push_percent(out: &mut Vec<char>, count: u64, total: u64)
    ensures
        final(out)@ == old(out)@ + percent_text(count as nat, total as nat),
{
    if total == 0 {
        out.push('0');
        out.push('.');
        out.push('0');
        return;
    }
    let c = whole_value(count);
    let h = hundredfold_value(c);
    let t = whole_value(total);
    let r = quotient_value(h, t, -104, 22);
    let tenth = tenths_value(r);
    push_tenths(out, tenth);
}

/// Appends the average of `total` over `count`.
pub fn push_average(out: &mut Vec<char>, total: u64, count: u64)
    ensures
        final(out)@ == old(out)@ + average_text(total as nat, count as nat),
{
    if count == 0 {
        out.push('0');
        out.push('.');
        out.push('0');
        return;
    }
    let a = whole_value(total);
    let b = whole_value(count);
    let r = quotient_value(a, b, -52, 11);
    let tenth = tenths_value(r);
    push_tenths(out, tenth);
}

} // verus!

//! Bucket keys sort as their times do: a later timestamp never has an
//! earlier key, for years that four digits hold.
use vstd::prelude::*;
use crate::aggregators::command_ranker::{lemma_lex_irreflexive, lemma_lex_transitive, lex_lt};
use crate::date::{
    Bucket, bucket_text, day_text, days_to_civil, lemma_leap_after, lemma_month, lemma_recent_year,
    lemma_year_of_era,
    leap_after, month_start, month_text, year_of_era, year_start,
};
use crate::numbers::{decimal, digit_char, zero_pad};
use vstd::arithmetic::div_mod::lemma_div_is_ordered;

verus! {

/// `10^w`.
pub open spec fn pow10(w: nat) -> nat
    decreases w,
{
    if w == 0 {
        1
    } else {
        10 * pow10((w - 1) as nat)
    }
}

/// The last `w` decimal digits of `n`, leading zeros included.
pub open spec fn fixed_digits(n: nat, w: nat) -> Seq<char>
    decreases w,
{
    if w == 0 {
        Seq::empty()
    } else {
        fixed_digits(n / 10, (w - 1) as nat).push(digit_char(n % 10))
    }
}

proof fn lemma_fixed_zero(w: nat)
    ensures
        fixed_digits(0, w) == Seq::new(w, |i: int| '0'),
    decreases w,
{
    if w > 0 {
        lemma_fixed_zero((w - 1) as nat);
        assert(fixed_digits(0, w) =~= Seq::new(w, |i: int| '0'));
    }
}

proof fn lemma_decimal_width(n: nat, w: nat)
    requires
        w >= 1,
        n < pow10(w),
    ensures
        decimal(n).len() <= w,
    decreases w,
{
    if n >= 10 {
        assert(pow10(1) == 10) by {
            reveal_with_fuel(pow10, 2);
        }
        assert(w >= 2);
        assert(n / 10 < pow10((w - 1) as nat));
        lemma_decimal_width(n / 10, (w - 1) as nat);
    }
}

/// Padding the digits of a number below `10^w` to `w` places gives its last
/// `w` digits.
proof fn lemma_pad_is_fixed(n: nat, w: nat)
    requires
        w >= 1,
        n < pow10(w),
    ensures
        zero_pad(decimal(n), w) == fixed_digits(n, w),
    decreases w,
{
    if n < 10 {
        lemma_fixed_zero((w - 1) as nat);
        assert(n / 10 == 0 && n % 10 == n);
        assert(zero_pad(decimal(n), w) =~= fixed_digits(n, w));
    } else {
        assert(pow10(1) == 10) by {
            reveal_with_fuel(pow10, 2);
        }
        assert(w >= 2);
        assert(n / 10 < pow10((w - 1) as nat));
        lemma_pad_is_fixed(n / 10, (w - 1) as nat);
        lemma_decimal_width(n / 10, (w - 1) as nat);
        assert(zero_pad(decimal(n), w) =~= zero_pad(decimal(n / 10), (w - 1) as nat).push(
            digit_char(n % 10),
        ));
    }
}

/// Equal-length texts compare as their first difference does: appending to
/// both keeps the order of the shorter parts.
pub proof fn lemma_lex_append(p: Seq<char>, q: Seq<char>, x: Seq<char>, y: Seq<char>)
    requires
        p.len() == q.len(),
    ensures
        lex_lt(p, q) ==> lex_lt(p + x, q + y),
        p == q ==> (lex_lt(p + x, q + y) == lex_lt(x, y)),
    decreases p.len(),
{
    if p.len() > 0 {
        assert((p + x).drop_first() =~= p.drop_first() + x);
        assert((q + y).drop_first() =~= q.drop_first() + y);
        assert((p + x)[0] == p[0] && (q + y)[0] == q[0]);
        lemma_lex_append(p.drop_first(), q.drop_first(), x, y);
        if p == q {
            assert(p.drop_first() == q.drop_first());
        }
    } else {
        assert(p + x =~= x);
        assert(q + y =~= y);
    }
}

proof fn lemma_lex_single(a: char, b: char)
    requires
        a < b,
    ensures
        lex_lt(seq![a], seq![b]),
{
    assert(seq![a][0] == a && seq![b][0] == b);
}

/// Of two numbers below `10^w`, the smaller has the smaller `w` digits.
proof fn lemma_fixed_order(a: nat, b: nat, w: nat)
    requires
        a < b < pow10(w),
    ensures
        lex_lt(fixed_digits(a, w), fixed_digits(b, w)),
        fixed_digits(a, w).len() == w,
        fixed_digits(b, w).len() == w,
    decreases w,
{
    lemma_fixed_len(a, w);
    lemma_fixed_len(b, w);
    if w > 0 {
        let pa = fixed_digits(a / 10, (w - 1) as nat);
        let pb = fixed_digits(b / 10, (w - 1) as nat);
        lemma_fixed_len(a / 10, (w - 1) as nat);
        lemma_fixed_len(b / 10, (w - 1) as nat);
        assert(fixed_digits(a, w) =~= pa + seq![digit_char(a % 10)]);
        assert(fixed_digits(b, w) =~= pb + seq![digit_char(b % 10)]);
        if a / 10 < b / 10 {
            assert(b / 10 < pow10((w - 1) as nat));
            lemma_fixed_order(a / 10, b / 10, (w - 1) as nat);
            lemma_lex_append(pa, pb, seq![digit_char(a % 10)], seq![digit_char(b % 10)]);
        } else {
            assert(a / 10 == b / 10 && a % 10 < b % 10);
            lemma_lex_single(digit_char(a % 10), digit_char(b % 10));
            lemma_lex_append(pa, pb, seq![digit_char(a % 10)], seq![digit_char(b % 10)]);
        }
    }
}

proof fn lemma_fixed_len(n: nat, w: nat)
    ensures
        fixed_digits(n, w).len() == w,
    decreases w,
{
    if w > 0 {
        lemma_fixed_len(n / 10, (w - 1) as nat);
    }
}

// ---------------------------------------------------------------------------
// Dates
// ---------------------------------------------------------------------------
/// `a` is an earlier date than `b`: by year, then month, then day.
pub open spec fn date_before(a: (int, int, int), b: (int, int, int)) -> bool {
    a.0 < b.0 || (a.0 == b.0 && (a.1 < b.1 || (a.1 == b.1 && a.2 < b.2)))
}

/// A date that `YYYY-MM-DD` writes in full.
pub open spec fn writable(a: (int, int, int)) -> bool {
    0 <= a.0 < 10000 && 1 <= a.1 <= 12 && 1 <= a.2 <= 31
}

proof fn lemma_powers_of_ten()
    ensures
        pow10(2) == 100,
        pow10(4) == 10000,
{
    reveal_with_fuel(pow10, 5);
}

/// The written forms of an earlier and a later date sort in that order; the
/// month forms too, unless the two dates share their month.
proof fn lemma_date_text_order(a: (int, int, int), b: (int, int, int))
    requires
        writable(a),
        writable(b),
        date_before(a, b),
    ensures
        lex_lt(day_text(a.0, a.1, a.2), day_text(b.0, b.1, b.2)),
        (a.0, a.1) != (b.0, b.1) ==> lex_lt(month_text(a.0, a.1), month_text(b.0, b.1)),
{
    lemma_powers_of_ten();
    let ya = zero_pad(decimal(a.0 as nat), 4);
    let yb = zero_pad(decimal(b.0 as nat), 4);
    let ma = zero_pad(decimal(a.1 as nat), 2);
    let mb = zero_pad(decimal(b.1 as nat), 2);
    let da = zero_pad(decimal(a.2 as nat), 2);
    let db = zero_pad(decimal(b.2 as nat), 2);
    lemma_pad_is_fixed(a.0 as nat, 4);
    lemma_pad_is_fixed(b.0 as nat, 4);
    lemma_pad_is_fixed(a.1 as nat, 2);
    lemma_pad_is_fixed(b.1 as nat, 2);
    lemma_pad_is_fixed(a.2 as nat, 2);
    lemma_pad_is_fixed(b.2 as nat, 2);
    lemma_fixed_len(a.0 as nat, 4);
    lemma_fixed_len(b.0 as nat, 4);
    lemma_fixed_len(a.1 as nat, 2);
    lemma_fixed_len(b.1 as nat, 2);
    let dash = seq!['-'];
    let ta = ma + dash + da;
    let tb = mb + dash + db;
    assert(day_text(a.0, a.1, a.2) =~= ya + (dash + ta));
    assert(day_text(b.0, b.1, b.2) =~= yb + (dash + tb));
    assert(month_text(a.0, a.1) =~= ya + (dash + ma));
    assert(month_text(b.0, b.1) =~= yb + (dash + mb));
    if a.0 < b.0 {
        lemma_fixed_order(a.0 as nat, b.0 as nat, 4);
        lemma_lex_append(ya, yb, dash + ta, dash + tb);
        lemma_lex_append(ya, yb, dash + ma, dash + mb);
    } else {
        lemma_lex_append(ya, yb, dash + ta, dash + tb);
        lemma_lex_append(ya, yb, dash + ma, dash + mb);
        lemma_lex_append(dash, dash, ta, tb);
        lemma_lex_append(dash, dash, ma, mb);
        assert(ta =~= ma + (dash + da));
        assert(tb =~= mb + (dash + db));
        if a.1 < b.1 {
            lemma_fixed_order(a.1 as nat, b.1 as nat, 2);
            lemma_lex_append(ma, mb, dash + da, dash + db);
        } else {
            lemma_lex_append(ma, mb, dash + da, dash + db);
            lemma_lex_append(dash, dash, da, db);
            lemma_fixed_order(a.2 as nat, b.2 as nat, 2);
        }
    }
}

/// The March-based year, month from March, and day of a day count, as
/// `days_to_civil` works them out.
pub open spec fn shifted_parts(z: int) -> (int, int, int) {
    let z1 = z + 719468;
    let era = z1 / 146097;
    let doe = z1 - era * 146097;
    let yoe = year_of_era(doe);
    let doy = doe - year_start(yoe);
    let mp = (5 * doy + 2) / 153;
    (era * 400 + yoe, mp, doy - month_start(mp) + 1)
}

proof fn lemma_year_start_step(a: int, b: int)
    requires
        0 <= a < b <= 399,
    ensures
        year_start(a) + 365 + leap_after(a) <= year_start(b),
{
    lemma_leap_after(a);
    lemma_div_is_ordered(a + 1, b, 4);
    assert(year_start(a + 1) == year_start(a) + 365 + leap_after(a));
    assert(year_start(a + 1) <= year_start(b)) by {
        assert(b / 4 - (a + 1) / 4 >= 0);
        assert(b / 100 - (a + 1) / 100 <= (b - a - 1) / 100 + 1);
    }
}

/// Later days fall on later shifted dates.
proof fn lemma_shifted_order(z: int, w: int)
    requires
        z < w,
        z + 719468 >= 0,
    ensures
        date_before(shifted_parts(z), shifted_parts(w)),
{
    let z1 = z + 719468;
    let w1 = w + 719468;
    let era_z = z1 / 146097;
    let era_w = w1 / 146097;
    let doe_z = z1 - era_z * 146097;
    let doe_w = w1 - era_w * 146097;
    lemma_div_is_ordered(z1, w1, 146097);
    assert(0 <= doe_z < 146097 && 0 <= doe_w < 146097);
    lemma_year_of_era(doe_z);
    lemma_year_of_era(doe_w);
    let yz = year_of_era(doe_z);
    let yw = year_of_era(doe_w);
    let doy_z = doe_z - year_start(yz);
    let doy_w = doe_w - year_start(yw);
    lemma_leap_after(yz);
    lemma_leap_after(yw);
    if era_z == era_w {
        assert(doe_z < doe_w);
        if yz > yw {
            lemma_year_start_step(yw, yz);
        } else if yz == yw {
            lemma_month(doy_z);
            lemma_month(doy_w);
            lemma_div_is_ordered(5 * doy_z + 2, 5 * doy_w + 2, 153);
        }
    }
}

/// Later days fall on later dates.
pub proof fn lemma_civil_order(z: int, w: int)
    requires
        z < w,
        z + 719468 >= 0,
    ensures
        date_before(days_to_civil(z), days_to_civil(w)),
{
    lemma_shifted_order(z, w);
    let (yz, mz, dz) = shifted_parts(z);
    let (yw, mw, dw) = shifted_parts(w);
    assert(0 <= mz <= 11 && 0 <= mw <= 11) by {
        let z1 = z + 719468;
        let w1 = w + 719468;
        lemma_year_of_era(z1 - (z1 / 146097) * 146097);
        lemma_year_of_era(w1 - (w1 / 146097) * 146097);
        lemma_leap_after(year_of_era(z1 - (z1 / 146097) * 146097));
        lemma_leap_after(year_of_era(w1 - (w1 / 146097) * 146097));
        lemma_month(z1 - (z1 / 146097) * 146097 - year_start(year_of_era(z1 - (z1 / 146097) * 146097)));
        lemma_month(w1 - (w1 / 146097) * 146097 - year_start(year_of_era(w1 - (w1 / 146097) * 146097)));
    }
}

/// Days before 10000-01-01 fall in years that four digits hold.
proof fn lemma_writable_day(z: int)
    requires
        -3 <= z < 2932897,
    ensures
        writable(days_to_civil(z)),
{
    lemma_recent_year(z);
    assert(days_to_civil(2932897) == (10000int, 1int, 1int));
    lemma_civil_order(z, 2932897);
}

/// Bucket keys sort as time does: of two timestamps before the year 10000,
/// the later one has the same key or one that comes after in code-point
/// order, so listing the keys in that order lists the buckets by time.
pub proof fn lemma_bucket_keys_sorted(t1: nat, t2: nat, bucket: Bucket)
    requires
        t1 <= t2 < 253402300800,
    ensures
        bucket_text(t1, bucket) == bucket_text(t2, bucket) || lex_lt(
            bucket_text(t1, bucket),
            bucket_text(t2, bucket),
        ),
{
    let d1 = (t1 / 86400) as int;
    let d2 = (t2 / 86400) as int;
    lemma_div_is_ordered(t1 as int, t2 as int, 86400);
    assert(d2 < 2932897);
    match bucket {
        Bucket::Week => {
            let w1 = d1 - (d1 + 3) % 7;
            let w2 = d2 - (d2 + 3) % 7;
            lemma_div_is_ordered(d1 + 3, d2 + 3, 7);
            assert(w1 == 7 * ((d1 + 3) / 7) - 3 && w2 == 7 * ((d2 + 3) / 7) - 3);
            if w1 != w2 {
                lemma_writable_day(w1);
                lemma_writable_day(w2);
                lemma_civil_order(w1, w2);
                lemma_date_text_order(days_to_civil(w1), days_to_civil(w2));
            }
        },
        _ => {
            if d1 != d2 {
                lemma_writable_day(d1);
                lemma_writable_day(d2);
                lemma_civil_order(d1, d2);
                lemma_date_text_order(days_to_civil(d1), days_to_civil(d2));
            }
        },
    }
}

} // verus!

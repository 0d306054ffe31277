//! Decimal numbers in text: reading them as `FromStr` for the integer types
//! does, and writing them as `Display` does.
use vstd::prelude::*;
use crate::text::char_from_ascii;

verus! {

pub open spec fn is_digit(c: char) -> bool {
    '0' <= c <= '9'
}

pub open spec fn digit_value(c: char) -> nat {
    ((c as u32) - ('0' as u32)) as nat
}

pub open spec fn all_digits(s: Seq<char>) -> bool {
    forall|i: int| 0 <= i < s.len() ==> is_digit(#[trigger] s[i])
}

/// The number that a string of decimal digits denotes.
pub open spec fn digits_value(s: Seq<char>) -> nat
    decreases s.len(),
{
    if s.len() == 0 {
        0
    } else {
        digits_value(s.drop_last()) * 10 + digit_value(s.last())
    }
}

/// The value of an unsigned decimal text: an optional `+`, then one or more
/// digits.
pub open spec fn unsigned_text_value(s: Seq<char>) -> Option<nat> {
    let body = if s.len() > 0 && s[0] == '+' {
        s.drop_first()
    } else {
        s
    };
    if body.len() > 0 && all_digits(body) {
        Some(digits_value(body))
    } else {
        None
    }
}

/// What `s.parse::<u64>().ok()` gives.
pub open spec fn u64_of_text(s: Seq<char>) -> Option<u64> {
    match unsigned_text_value(s) {
        Some(v) => if v <= u64::MAX {
            Some(v as u64)
        } else {
            None
        },
        None => None,
    }
}

/// What `s.parse::<u32>().ok()` gives.
pub open spec fn u32_of_text(s: Seq<char>) -> Option<u32> {
    match unsigned_text_value(s) {
        Some(v) => if v <= u32::MAX {
            Some(v as u32)
        } else {
            None
        },
        None => None,
    }
}

/// What `s.parse::<usize>().ok()` gives.
pub open spec fn usize_of_text(s: Seq<char>) -> Option<usize> {
    match unsigned_text_value(s) {
        Some(v) => if v <= usize::MAX {
            Some(v as usize)
        } else {
            None
        },
        None => None,
    }
}

/// The value of a signed decimal text: an optional `+` or `-`, then one or
/// more digits.
pub open spec fn signed_text_value(s: Seq<char>) -> Option<int> {
    if s.len() > 0 && s[0] == '-' {
        let body = s.drop_first();
        if body.len() > 0 && all_digits(body) {
            Some(-(digits_value(body) as int))
        } else {
            None
        }
    } else {
        match unsigned_text_value(s) {
            Some(v) => Some(v as int),
            None => None,
        }
    }
}

/// What `s.parse::<i64>().ok()` gives.
pub open spec fn i64_of_text(s: Seq<char>) -> Option<i64> {
    match signed_text_value(s) {
        Some(v) => if i64::MIN <= v <= i64::MAX {
            Some(v as i64)
        } else {
            None
        },
        None => None,
    }
}

/// The number of leading decimal digits of `s`.
pub open spec fn digit_run(s: Seq<char>) -> nat
    decreases s.len(),
{
    if s.len() > 0 && is_digit(s[0]) {
        1 + digit_run(s.drop_first())
    } else {
        0
    }
}

pub proof fn lemma_digit_run(s: Seq<char>, k: int)
    requires
        0 <= k <= s.len(),
        forall|j: int| 0 <= j < k ==> is_digit(#[trigger] s[j]),
        k == s.len() || !is_digit(s[k]),
    ensures
        digit_run(s) == k,
    decreases k,
{
    if k > 0 {
        lemma_digit_run(s.drop_first(), k - 1);
    }
}

/// End of the run of decimal digits that starts at `lo` in `s[lo..hi]`.
pub fn scan_digits(s: &[char], lo: usize, hi: usize) -> (k: usize)
    requires
        lo <= hi <= s.len(),
    ensures
        lo <= k <= hi,
        k - lo == digit_run(s@.subrange(lo as int, hi as int)),
        all_digits(s@.subrange(lo as int, k as int)),
{
    let mut k = lo;
    while k < hi && is_ascii_digit(s[k])
        invariant
            lo <= k <= hi <= s.len(),
            forall|j: int| lo <= j < k ==> is_digit(#[trigger] s@[j]),
        decreases hi - k,
    {
        k = k + 1;
    }
    proof {
        let t = s@.subrange(lo as int, hi as int);
        assert forall|j: int| 0 <= j < k - lo implies is_digit(#[trigger] t[j]) by {
            assert(t[j] == s@[lo + j]);
        }
        if k < hi {
            assert(t[k - lo] == s@[k as int]);
        }
        lemma_digit_run(t, k - lo);
        let u = s@.subrange(lo as int, k as int);
        assert forall|j: int| 0 <= j < u.len() implies is_digit(#[trigger] u[j]) by {
            assert(u[j] == s@[lo + j]);
        }
    }
    k
}

pub fn is_ascii_digit(c: char) -> (b: bool)
    ensures
        b == is_digit(c),
{
    '0' <= c && c <= '9'
}

/// Whether every character of `s[lo..hi]` is a decimal digit.
pub fn all_digits_in(s: &[char], lo: usize, hi: usize) -> (b: bool)
    requires
        lo <= hi <= s.len(),
    ensures
        b == all_digits(s@.subrange(lo as int, hi as int)),
{
    let ghost t = s@.subrange(lo as int, hi as int);
    let mut i = lo;
    while i < hi
        invariant
            lo <= i <= hi <= s.len(),
            t == s@.subrange(lo as int, hi as int),
            forall|j: int| 0 <= j < i - lo ==> is_digit(#[trigger] t[j]),
        decreases hi - i,
    {
        assert(t[i - lo] == s@[i as int]);
        if !is_ascii_digit(s[i]) {
            return false;
        }
        i = i + 1;
    }
    true
}

/// Reads the digits `s[lo..hi]`; `None` when one is not a digit, when there
/// are none, or when the value exceeds `bound`.
fn digits_up_to(s: &[char], lo: usize, hi: usize, bound: u64) -> (r: Option<u64>)
    requires
        lo <= hi <= s.len(),
        bound >= 9,
    ensures
        ({
            let body = s@.subrange(lo as int, hi as int);
            match r {
                Some(v) => body.len() > 0 && all_digits(body) && v == digits_value(body) && v
                    <= bound,
                None => !(body.len() > 0 && all_digits(body) && digits_value(body) <= bound),
            }
        }),
{
    if lo == hi {
        return None;
    }
    let mut acc: u64 = 0;
    let mut over = false;
    let mut i = lo;
    while i < hi
        invariant
            lo <= i <= hi <= s.len(),
            bound >= 9,
            all_digits(s@.subrange(lo as int, i as int)),
            !over ==> acc == digits_value(s@.subrange(lo as int, i as int)) && acc <= bound,
            over ==> digits_value(s@.subrange(lo as int, i as int)) > bound,
        decreases hi - i,
    {
        let c = s[i];
        if !is_ascii_digit(c) {
            proof {
                let body = s@.subrange(lo as int, hi as int);
                assert(body[i - lo] == c);
            }
            return None;
        }
        let d = ((c as u32) - ('0' as u32)) as u64;
        let ghost prev = s@.subrange(lo as int, i as int);
        assert(s@.subrange(lo as int, i + 1).drop_last() == prev);
        assert(s@.subrange(lo as int, i + 1).last() == c);
        if !over {
            if acc > (bound - d) / 10 {
                over = true;
                assert(acc * 10 + d > bound) by (nonlinear_arith)
                    requires
                        acc > (bound - d) / 10,
                        d <= 9,
                        bound >= 9,
                ;
            } else {
                assert(acc * 10 + d <= bound) by (nonlinear_arith)
                    requires
                        acc <= (bound - d) / 10,
                        d <= 9,
                        bound >= 9,
                ;
                acc = acc * 10 + d;
            }
        }
        i = i + 1;
    }
    if over {
        None
    } else {
        Some(acc)
    }
}

/// `s.parse::<u64>().ok()`.
pub fn parse_u64(s: &[char]) -> (r: Option<u64>)
    ensures
        r == u64_of_text(s@),
{
    let lo: usize = if s.len() > 0 && s[0] == '+' {
        1
    } else {
        0
    };
    assert(lo == 1 ==> s@.subrange(1, s@.len() as int) == s@.drop_first());
    assert(lo == 0 ==> s@.subrange(0, s@.len() as int) == s@);
    digits_up_to(s, lo, s.len(), u64::MAX)
}

/// `s.parse::<u32>().ok()`.
pub fn parse_u32(s: &[char]) -> (r: Option<u32>)
    ensures
        r == u32_of_text(s@),
{
    let lo: usize = if s.len() > 0 && s[0] == '+' {
        1
    } else {
        0
    };
    assert(lo == 1 ==> s@.subrange(1, s@.len() as int) == s@.drop_first());
    assert(lo == 0 ==> s@.subrange(0, s@.len() as int) == s@);
    match digits_up_to(s, lo, s.len(), u32::MAX as u64) {
        Some(v) => Some(v as u32),
        None => None,
    }
}

/// `s.parse::<usize>().ok()`.
pub fn parse_usize(s: &[char]) -> (r: Option<usize>)
    ensures
        r == usize_of_text(s@),
{
    let lo: usize = if s.len() > 0 && s[0] == '+' {
        1
    } else {
        0
    };
    assert(lo == 1 ==> s@.subrange(1, s@.len() as int) == s@.drop_first());
    assert(lo == 0 ==> s@.subrange(0, s@.len() as int) == s@);
    match digits_up_to(s, lo, s.len(), usize::MAX as u64) {
        Some(v) => Some(v as usize),
        None => None,
    }
}

/// `s.parse::<i64>().ok()`.
pub fn parse_i64(s: &[char]) -> (r: Option<i64>)
    ensures
        r == i64_of_text(s@),
{
    if s.len() > 0 && s[0] == '-' {
        assert(s@.subrange(1, s@.len() as int) == s@.drop_first());
        match digits_up_to(s, 1, s.len(), 0x8000_0000_0000_0000u64) {
            Some(v) => {
                if v == 0x8000_0000_0000_0000u64 {
                    Some(i64::MIN)
                } else {
                    Some(-(v as i64))
                }
            },
            None => None,
        }
    } else {
        let lo: usize = if s.len() > 0 && s[0] == '+' {
            1
        } else {
            0
        };
        assert(lo == 1 ==> s@.subrange(1, s@.len() as int) == s@.drop_first());
        assert(lo == 0 ==> s@.subrange(0, s@.len() as int) == s@);
        match digits_up_to(s, lo, s.len(), i64::MAX as u64) {
            Some(v) => Some(v as i64),
            None => None,
        }
    }
}

// ---------------------------------------------------------------------------
// Writing numbers
// ---------------------------------------------------------------------------
pub open spec fn digit_char(d: nat) -> char {
    (('0' as u32) + d) as char
}

/// The decimal digits of `n`, without leading zeros (`Display` for integers).
pub open spec fn decimal(n: nat) -> Seq<char>
    decreases n,
{
    if n < 10 {
        seq![digit_char(n)]
    } else {
        decimal(n / 10).push(digit_char(n % 10))
    }
}

/// `s` preceded by zeros up to `width` characters (`{:0width$}`).
pub open spec fn zero_pad(s: Seq<char>, width: nat) -> Seq<char> {
    if s.len() < width {
        Seq::new((width - s.len()) as nat, |i: int| '0') + s
    } else {
        s
    }
}

pub proof fn lemma_decimal_len(n: nat)
    ensures
        decimal(n).len() >= 1,
        n < 10 ==> decimal(n).len() == 1,
        10 <= n < 100 ==> decimal(n).len() == 2,
    decreases n,
{
    if n >= 10 {
        lemma_decimal_len(n / 10);
    }
}

/// The decimal text of `n` is made of digits and denotes `n`.
pub proof fn lemma_decimal_digits(n: nat)
    ensures
        all_digits(decimal(n)),
        digits_value(decimal(n)) == n,
    decreases n,
{
    let d = (n % 10) as nat;
    assert(digit_value(digit_char(d)) == d);
    if n < 10 {
        let s = decimal(n);
        assert(s.drop_last() =~= Seq::<char>::empty());
        assert(digits_value(s.drop_last()) == 0);
        assert(digits_value(s) == digits_value(s.drop_last()) * 10 + digit_value(s.last()));
    } else {
        lemma_decimal_digits(n / 10);
        let s = decimal(n);
        assert(s.drop_last() =~= decimal(n / 10));
        assert(s.last() == digit_char(d));
        assert(digits_value(s) == digits_value(s.drop_last()) * 10 + digit_value(s.last()));
        assert((n / 10) * 10 + n % 10 == n);
    }
}

/// Writing an integer in decimal and reading the text back as a `usize`
/// (`n.to_string().parse::<usize>()`) gives the integer again.
pub proof fn lemma_decimal_reads_back(n: usize)
    ensures
        usize_of_text(decimal(n as nat)) == Some(n),
{
    lemma_decimal_digits(n as nat);
    lemma_decimal_len(n as nat);
    assert(is_digit(decimal(n as nat)[0]));
}

/// Appends the decimal digits of `n`.
pub fn push_decimal(out: &mut Vec<char>, n: u64)
    ensures
        final(out)@ == old(out)@ + decimal(n as nat),
    decreases n,
{
    if n >= 10 {
        push_decimal(out, n / 10);
    }
    let d = (n % 10) as u8;
    out.push(char_from_ascii(48 + d));
    proof {
        assert(digit_char((n % 10) as nat) == out@.last());
    }
}

/// Appends the decimal digits of a 128-bit `n`.
pub fn push_decimal_wide(out: &mut Vec<char>, n: u128)
    ensures
        final(out)@ == old(out)@ + decimal(n as nat),
    decreases n,
{
    if n >= 10 {
        push_decimal_wide(out, n / 10);
    }
    let d = (n % 10) as u8;
    out.push(char_from_ascii(48 + d));
    proof {
        assert(digit_char((n % 10) as nat) == out@.last());
    }
}

/// The decimal digits of `n`.
pub fn decimal_chars(n: u64) -> (v: Vec<char>)
    ensures
        v@ == decimal(n as nat),
{
    let mut v: Vec<char> = Vec::new();
    push_decimal(&mut v, n);
    assert(v@ == Seq::<char>::empty() + decimal(n as nat));
    v
}

/// Appends `n` in decimal, zero-padded to `width` digits.
pub fn push_decimal_padded(out: &mut Vec<char>, n: u64, width: usize)
    ensures
        final(out)@ == old(out)@ + zero_pad(decimal(n as nat), width as nat),
{
    let digits = decimal_chars(n);
    let mut i = digits.len();
    let ghost start = out@;
    while i < width
        invariant
            digits.len() <= i <= width || (i == digits.len() && i >= width),
            digits@ == decimal(n as nat),
            out@ == start + Seq::new((i - digits.len()) as nat, |j: int| '0'),
        decreases width - i,
    {
        out.push('0');
        assert(Seq::new((i + 1 - digits.len()) as nat, |j: int| '0') == Seq::new(
            (i - digits.len()) as nat,
            |j: int| '0',
        ).push('0'));
        i = i + 1;
    }
    let ghost pad = out@;
    crate::text::push_chars(out, digits.as_slice());
    proof {
        if digits.len() < width {
            assert(i == width);
        } else {
            assert(Seq::new(0, |j: int| '0') == Seq::<char>::empty());
            assert(pad == start);
        }
        assert(out@ == start + zero_pad(decimal(n as nat), width as nat));
    }
}

} // verus!

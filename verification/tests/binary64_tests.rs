use shellist::binary64::{push_average, push_percent};

fn percent(count: u64, total: u64) -> String {
    let mut v: Vec<char> = Vec::new();
    push_percent(&mut v, count, total);
    v.into_iter().collect()
}

fn average(total: u64, count: u64) -> String {
    let mut v: Vec<char> = Vec::new();
    push_average(&mut v, total, count);
    v.into_iter().collect()
}

fn float_percent(count: u64, total: u64) -> String {
    let pct = if total == 0 { 0.0 } else { count as f64 * 100.0 / total as f64 };
    format!("{pct:.1}")
}

fn float_average(total: u64, count: u64) -> String {
    let avg = if count == 0 { 0.0 } else { total as f64 / count as f64 };
    format!("{avg:.1}")
}

/// A simple deterministic sequence of 64-bit numbers.
fn numbers(seed: u64, n: usize) -> Vec<u64> {
    let mut x = seed;
    let mut out = Vec::new();
    for _ in 0..n {
        x = x.wrapping_mul(6364136223846793005).wrapping_add(1442695040888963407);
        out.push(x >> (x % 60));
    }
    out
}

#[test]
fn percent_matches_float_for_small_counts() {
    for total in 0..400u64 {
        for count in 0..=total {
            assert_eq!(percent(count, total), float_percent(count, total), "{count}/{total}");
        }
    }
}

#[test]
fn percent_ties_follow_the_binary_value() {
    // 0.05 lies above its binary64 neighbour's tie, 0.25 is exact.
    assert_eq!(percent(1, 2000), "0.1");
    assert_eq!(percent(1, 400), "0.2");
    assert_eq!(percent(3, 400), "0.8");
    assert_eq!(percent(7, 2000), "0.3");
}

#[test]
fn percent_matches_float_for_large_numbers() {
    let xs = numbers(7, 3000);
    for w in xs.windows(2) {
        let (a, b) = (w[0], w[1]);
        let (count, total) = if a <= b { (a, b) } else { (b, a) };
        assert_eq!(percent(count, total), float_percent(count, total), "{count}/{total}");
    }
    assert_eq!(percent(u64::MAX, u64::MAX), float_percent(u64::MAX, u64::MAX));
    assert_eq!(percent(1, u64::MAX), float_percent(1, u64::MAX));
    assert_eq!(percent((1 << 53) + 1, (1 << 54) + 3), float_percent((1 << 53) + 1, (1 << 54) + 3));
}

#[test]
fn average_matches_float() {
    for count in 0..200u64 {
        for total in 0..600u64 {
            assert_eq!(average(total, count), float_average(total, count), "{total}/{count}");
        }
    }
    let xs = numbers(11, 3000);
    for w in xs.windows(2) {
        assert_eq!(average(w[0], w[1]), float_average(w[0], w[1]), "{}/{}", w[0], w[1]);
    }
    assert_eq!(average(u64::MAX, 1), float_average(u64::MAX, 1));
    assert_eq!(average(u64::MAX, 3), float_average(u64::MAX, 3));
    assert_eq!(average(17, 3), "5.7");
    assert_eq!(average(1, 4), "0.2");
    assert_eq!(average(3, 4), "0.8");
}

use token_cost_analyzer::format::fmt_tokens;

fn reference(n: i64) -> String {
    if n >= 1_000_000 {
        format!("{:.1}M", n as f64 / 1_000_000.0)
    } else if n >= 1_000 {
        format!("{:.1}k", n as f64 / 1_000.0)
    } else {
        n.to_string()
    }
}

#[test]
fn fmt_tokens_doc_example() {
    assert_eq!(fmt_tokens(1234567), "1.2M");
}

#[test]
fn fmt_tokens_small_counts_are_plain() {
    assert_eq!(fmt_tokens(0), "0");
    assert_eq!(fmt_tokens(999), "999");
    assert_eq!(fmt_tokens(-42), "-42");
    assert_eq!(fmt_tokens(i64::MIN), "-9223372036854775808");
}

#[test]
fn fmt_tokens_thousands() {
    assert_eq!(fmt_tokens(1000), "1.0k");
    assert_eq!(fmt_tokens(1500), "1.5k");
    assert_eq!(fmt_tokens(999_949), "999.9k");
    assert_eq!(fmt_tokens(999_950), "1000.0k");
}

#[test]
fn fmt_tokens_ties_follow_the_double() {
    // 1250 / 1000 is exactly 1.25: ties go to the even digit.
    assert_eq!(fmt_tokens(1250), "1.2k");
    assert_eq!(fmt_tokens(1750), "1.8k");
    // 1.35 and 1.45 are not doubles; the nearest doubles decide.
    assert_eq!(fmt_tokens(1350), "1.4k");
    assert_eq!(fmt_tokens(1450), "1.4k");
    assert_eq!(fmt_tokens(2_350_000), reference(2_350_000));
}

#[test]
fn fmt_tokens_huge_counts() {
    assert_eq!(fmt_tokens(i64::MAX), "9223372036854.8M");
    assert_eq!(fmt_tokens(i64::MAX), reference(i64::MAX));
    assert_eq!(fmt_tokens((1i64 << 53) + 1), reference((1i64 << 53) + 1));
}

#[test]
fn fmt_tokens_agrees_with_float_formatting() {
    let mut n: i64 = 900;
    while n < 3_000_000 {
        assert_eq!(fmt_tokens(n), reference(n), "n = {}", n);
        n += 7;
    }
    for q in 10..20_000i64 {
        let tie_k = q * 100 + 50;
        assert_eq!(fmt_tokens(tie_k), reference(tie_k), "n = {}", tie_k);
        let tie_m = q * 100_000 + 50_000;
        assert_eq!(fmt_tokens(tie_m), reference(tie_m), "n = {}", tie_m);
    }
    let mut x: u64 = 0x9E37_79B9_7F4A_7C15;
    for _ in 0..100_000 {
        x ^= x << 13;
        x ^= x >> 7;
        x ^= x << 17;
        let n = (x >> 1) as i64;
        let n = n >> (x % 60);
        assert_eq!(fmt_tokens(n), reference(n), "n = {}", n);
    }
}

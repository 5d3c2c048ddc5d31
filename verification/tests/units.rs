use pdf_watermark::units::{floor_div, isqrt, saturate, scale, EXTENT_LIMIT, SCALE};

#[test]
fn one_unit_is_a_million_steps() {
    assert_eq!(SCALE, 1_000_000);
    assert_eq!(EXTENT_LIMIT, 1_000_000_000_000_000);
}

#[test]
fn saturate_clamps_to_the_ends() {
    assert_eq!(saturate(0), 0);
    assert_eq!(saturate(-5), -5);
    assert_eq!(saturate(i64::MAX as i128), i64::MAX);
    assert_eq!(saturate(i64::MAX as i128 + 1), i64::MAX);
    assert_eq!(saturate(i64::MIN as i128 - 1), i64::MIN);
    assert_eq!(saturate(i128::MAX), i64::MAX);
    assert_eq!(saturate(i128::MIN), i64::MIN);
}

#[test]
fn floor_div_rounds_down() {
    assert_eq!(floor_div(7, 2), 3);
    assert_eq!(floor_div(-7, 2), -4);
    assert_eq!(floor_div(-8, 2), -4);
    assert_eq!(floor_div(-1, 1_000_000), -1);
    assert_eq!(floor_div(0, 5), 0);
    assert_eq!(floor_div(5, 7), 0);
    assert_eq!(floor_div(i128::MIN + 1, 1), i128::MIN + 1);
    assert_eq!(floor_div(i128::MIN, 1), i128::MIN);
    assert_eq!(floor_div(i128::MIN, i128::MAX), -2);
    assert_eq!(floor_div(i128::MIN, 2), i128::MIN / 2);
    assert_eq!(floor_div(i128::MAX, i128::MAX), 1);
    assert_eq!(floor_div(-(i128::MAX), i128::MAX), -1);
}

#[test]
fn scale_multiplies_by_a_ratio() {
    assert_eq!(scale(500_000_000, 26_000_000, 1_000_000_000), 13_000_000);
    assert_eq!(scale(1, 1, 3), 0);
    assert_eq!(scale(-1, 1, 3), -1);
    assert_eq!(scale(i64::MAX, i64::MAX, 1), (i64::MAX as i128) * (i64::MAX as i128));
    assert_eq!(scale(i64::MIN, i64::MIN, 1), (i64::MIN as i128) * (i64::MIN as i128));
    assert_eq!(scale(i64::MIN, i64::MAX, i64::MAX), i64::MIN as i128);
}

#[test]
fn isqrt_of_small_numbers() {
    let expected = [0u128, 1, 1, 1, 2, 2, 2, 2, 2, 3, 3, 3, 3, 3, 3, 3, 4];
    for (n, root) in expected.iter().enumerate() {
        assert_eq!(isqrt(n as u128), *root, "at {}", n);
    }
}

#[test]
fn isqrt_brackets_its_argument() {
    let samples = [
        24u128,
        25,
        26,
        1_000_000,
        595_000_000 * 595_000_000 + 842_000_000 * 842_000_000,
        2_000_000_000_000_000_000_000_000_000_000,
        u64::MAX as u128,
        (u64::MAX as u128) * (u64::MAX as u128),
        u128::MAX,
    ];
    for n in samples {
        let r = isqrt(n);
        assert!(r * r <= n);
        assert!(r == u64::MAX as u128 || (r + 1) * (r + 1) > n);
    }
    assert_eq!(isqrt(u128::MAX), u64::MAX as u128);
    assert_eq!(
        isqrt(595_000_000 * 595_000_000 + 842_000_000 * 842_000_000),
        1_031_013_578
    );
}

use pdf_watermark::binary32::micro_from_single;

fn reading(x: f32) -> Option<i64> {
    micro_from_single(x.to_bits())
}

#[test]
fn whole_numbers_are_read_exactly() {
    assert_eq!(reading(0.0), Some(0));
    assert_eq!(reading(-0.0), Some(0));
    assert_eq!(reading(1.0), Some(1_000_000));
    assert_eq!(reading(-1.5), Some(-1_500_000));
    assert_eq!(reading(612.0), Some(612_000_000));
    assert_eq!(reading(792.0), Some(792_000_000));
    assert_eq!(reading(16_777_216.0), Some(16_777_216_000_000));
}

#[test]
fn fractions_are_rounded_towards_zero() {
    assert_eq!(reading(595.28), Some(595_280_029));
    assert_eq!(reading(841.89), Some(841_890_014));
    assert_eq!(reading(-841.89), Some(-841_890_014));
    assert_eq!(reading(0.1), Some(100_000));
    assert_eq!(reading(123_456.789), Some(123_456_789_062));
    assert_eq!(reading(0.000_001), Some(0));
    assert_eq!(reading(-0.000_001), Some(0));
    assert_eq!(reading(0.000_001_5), Some(1));
}

#[test]
fn bit_patterns_are_read_as_written() {
    assert_eq!(micro_from_single(0x4414_d1ec), Some(595_280_029));
    assert_eq!(micro_from_single(0x3f80_0000), Some(1_000_000));
    assert_eq!(micro_from_single(0xbfc0_0000), Some(-1_500_000));
    assert_eq!(micro_from_single(0x0000_0000), Some(0));
    assert_eq!(micro_from_single(0x8000_0000), Some(0));
}

#[test]
fn the_smallest_numbers_come_to_nothing() {
    assert_eq!(micro_from_single(0x0000_0001), Some(0));
    assert_eq!(micro_from_single(0x007f_ffff), Some(0));
    assert_eq!(micro_from_single(0x0080_0000), Some(0));
    assert_eq!(reading(f32::MIN_POSITIVE), Some(0));
    assert_eq!(reading(1e-7), Some(0));
}

#[test]
fn what_is_no_number_is_not_read() {
    assert_eq!(reading(f32::INFINITY), None);
    assert_eq!(reading(f32::NEG_INFINITY), None);
    assert_eq!(reading(f32::NAN), None);
    assert_eq!(micro_from_single(0x7f80_0000), None);
    assert_eq!(micro_from_single(0xff80_0001), None);
    assert_eq!(micro_from_single(0x7fff_ffff), None);
}

#[test]
fn what_a_coordinate_cannot_hold_is_not_read() {
    assert_eq!(reading(9.2e12), Some(9_200_000_303_104_000_000));
    assert_eq!(reading(-9.2e12), Some(-9_200_000_303_104_000_000));
    assert_eq!(reading(9.3e12), None);
    assert_eq!(reading(-9.3e12), None);
    assert_eq!(reading(1e20), None);
    assert_eq!(reading(f32::MAX), None);
    assert_eq!(reading(f32::MIN), None);
}

#[test]
fn reading_agrees_with_double_precision() {
    let mut bits: u32 = 0x3000_0000;
    while bits < 0x5400_0000 {
        let x = f32::from_bits(bits);
        let expected = (x as f64 * 1e6).trunc();
        if expected.abs() < 9.0e15 {
            assert_eq!(micro_from_single(bits), Some(expected as i64), "at {:#x}", bits);
            assert_eq!(
                micro_from_single(bits | 0x8000_0000),
                Some(-(expected as i64)),
                "at {:#x}",
                bits
            );
        }
        bits += 0x0001_2345;
    }
}

use sherlock::priority::{decimal_precision, Priority, ONE_BITS};

fn p(x: f32) -> Priority {
    Priority::from_bits(x.to_bits())
}

#[test]
fn bits_round_trip() {
    assert_eq!(Priority::from_bits(0x3f80_0000).to_bits(), 0x3f80_0000);
    assert_eq!(ONE_BITS, 1.0f32.to_bits());
}

#[test]
fn less_agrees_with_the_numbers() {
    let values: Vec<f32> = vec![
        0.0,
        -0.0,
        1.0,
        -1.0,
        0.99,
        1.99,
        1.98,
        2.5,
        -2.5,
        1.0e-40,
        -1.0e-40,
        f32::MAX,
        f32::MIN,
        f32::INFINITY,
        f32::NEG_INFINITY,
        f32::NAN,
        -f32::NAN,
        f32::MIN_POSITIVE,
    ];
    for a in values.iter() {
        for b in values.iter() {
            assert_eq!(p(*a).less(&p(*b)), a < b, "{} < {}", a, b);
        }
    }
}

#[test]
fn nan_is_told_apart() {
    assert!(p(f32::NAN).is_nan());
    assert!(Priority::from_bits(0x7f80_0001).is_nan());
    assert!(Priority::from_bits(0xffc0_0000).is_nan());
    assert!(!p(f32::INFINITY).is_nan());
    assert!(!p(f32::NEG_INFINITY).is_nan());
    assert!(!p(0.0).is_nan());
    assert!(!p(-3.5).is_nan());
}

#[test]
fn zero_is_below_nothing_it_equals() {
    assert!(!p(0.0).less(&p(-0.0)));
    assert!(!p(-0.0).less(&p(0.0)));
    assert!(p(-0.0).less(&p(f32::MIN_POSITIVE)));
}

#[test]
fn from_u32_encodes_small_integers_exactly() {
    assert_eq!(Priority::from_u32(0).to_bits(), 0);
    assert_eq!(Priority::from_u32(1).to_bits(), 0x3f80_0000);
    assert_eq!(Priority::from_u32(2).to_bits(), 0x4000_0000);
    assert_eq!(Priority::from_u32(3).to_bits(), 0x4040_0000);
    for n in 0u32..5000 {
        assert_eq!(Priority::from_u32(n).to_bits(), (n as f32).to_bits(), "{}", n);
    }
    assert_eq!(Priority::from_u32(0xff_ffff).to_bits(), (0xff_ffffu32 as f32).to_bits());
    assert_eq!(Priority::from_u32(0x80_0000).to_bits(), (0x80_0000u32 as f32).to_bits());
}

#[test]
fn from_u32_rounds_large_integers_to_nearest_even() {
    let cases: Vec<u32> = vec![
        0x100_0000,
        0x100_0001,
        0x100_0002,
        0x100_0003,
        0x100_0004,
        0x1ff_ffff,
        0x200_0001,
        0x200_0002,
        0x200_0003,
        0x7fff_ffff,
        0x8000_0000,
        0x8000_0080,
        0x8000_0081,
        0x8000_0180,
        0xffff_ff00,
        0xffff_ff7f,
        0xffff_ff80,
        0xffff_ffff,
        123_456_789,
        4_000_000_000,
    ];
    for n in cases {
        assert_eq!(Priority::from_u32(n).to_bits(), (n as f32).to_bits(), "{}", n);
    }
    let mut n: u32 = 0x100_0000;
    while n < 0xfff0_0000 {
        assert_eq!(Priority::from_u32(n).to_bits(), (n as f32).to_bits(), "{}", n);
        n += 0x000f_4241;
    }
}

#[test]
fn decimal_precision_counts_digits() {
    assert_eq!(decimal_precision(0), 0);
    assert_eq!(decimal_precision(1), 1);
    assert_eq!(decimal_precision(9), 1);
    assert_eq!(decimal_precision(10), 2);
    assert_eq!(decimal_precision(99), 2);
    assert_eq!(decimal_precision(100), 3);
    assert_eq!(decimal_precision(999_999_999), 9);
    assert_eq!(decimal_precision(1_000_000_000), 10);
    assert_eq!(decimal_precision(u32::MAX), 10);
}

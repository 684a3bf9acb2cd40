use cherenkov::order::{clamp, max3, min3};

#[test]
fn clamp_confines_integers() {
    assert_eq!(clamp(5u8, 10u8, 20u8), 10);
    assert_eq!(clamp(25u8, 10u8, 20u8), 20);
    assert_eq!(clamp(15u8, 10u8, 20u8), 15);
    assert_eq!(clamp(-300i32, 0, 255), 0);
    assert_eq!(clamp(300i32, 0, 255), 255);
}

#[test]
fn clamp_keeps_the_ends_of_the_interval() {
    assert_eq!(clamp(10u8, 10u8, 20u8), 10);
    assert_eq!(clamp(20u8, 10u8, 20u8), 20);
    assert_eq!(clamp(7i64, 7, 7), 7);
}

#[test]
fn clamp_confines_floats() {
    assert_eq!(clamp(1.5f64, 0.0, 1.0), 1.0);
    assert_eq!(clamp(-0.25f64, 0.0, 1.0), 0.0);
    assert_eq!(clamp(0.75f64, 0.0, 1.0), 0.75);
    assert_eq!(clamp(0.0f64, 0.000_000_01, 100.0), 0.000_000_01);
    assert_eq!(clamp(f64::INFINITY, 0.0, 1.0), 1.0);
}

#[test]
fn clamp_hands_back_what_compares_as_neither() {
    assert!(clamp(f64::NAN, 0.0, 1.0).is_nan());
}

#[test]
fn clamp_asks_the_lower_end_first() {
    // With the ends the wrong way round a value below both is set to `from`.
    assert_eq!(clamp(1u8, 20u8, 10u8), 20);
    assert_eq!(clamp(30u8, 20u8, 10u8), 10);
    assert_eq!(clamp(15u8, 20u8, 10u8), 20);
}

#[test]
fn max3_finds_the_greatest_in_every_position() {
    assert_eq!(max3(3, 2, 1), 3);
    assert_eq!(max3(2, 3, 1), 3);
    assert_eq!(max3(1, 2, 3), 3);
    assert_eq!(max3(1, 3, 2), 3);
    assert_eq!(max3(2, 1, 3), 3);
    assert_eq!(max3(3, 1, 2), 3);
    assert_eq!(max3(4u8, 4, 4), 4);
    assert_eq!(max3(0.25f64, 1.0, 0.5), 1.0);
}

#[test]
fn min3_finds_the_least_in_every_position() {
    assert_eq!(min3(3, 2, 1), 1);
    assert_eq!(min3(2, 3, 1), 1);
    assert_eq!(min3(1, 2, 3), 1);
    assert_eq!(min3(1, 3, 2), 1);
    assert_eq!(min3(2, 1, 3), 1);
    assert_eq!(min3(3, 1, 2), 1);
    assert_eq!(min3(4u8, 4, 4), 4);
    assert_eq!(min3(0.25f64, 1.0, 0.5), 0.25);
}

#[test]
fn max3_and_min3_go_from_left_to_right() {
    // A NaN is less than nothing and nothing is less than it, so where it
    // comes first it stays, and where it comes last it loses.
    assert!(max3(f64::NAN, 1.0, 2.0).is_nan());
    assert_eq!(max3(1.0, 2.0, f64::NAN), 2.0);
    assert_eq!(max3(1.0, f64::NAN, 2.0), 2.0);
    assert!(min3(1.0, 2.0, f64::NAN).is_nan());
    assert_eq!(min3(f64::NAN, 1.0, 2.0), 1.0);
}

#[test]
fn bounds_hold_for_every_triple_of_small_integers() {
    for x in -2i32..3 {
        for y in -2i32..3 {
            for z in -2i32..3 {
                let hi = max3(x, y, z);
                let lo = min3(x, y, z);
                assert!(hi >= x && hi >= y && hi >= z);
                assert!(lo <= x && lo <= y && lo <= z);
                assert!(hi == x || hi == y || hi == z);
                assert!(lo == x || lo == y || lo == z);
                let c = clamp(x, lo, hi);
                assert_eq!(c, x);
                let d = clamp(x, y.min(z), y.max(z));
                assert!(y.min(z) <= d && d <= y.max(z));
            }
        }
    }
}

use proyecto3::depth::{depth_key, INFINITY_BITS};
use proyecto3::screen::{plot, DEPTH_FLOOR};

fn key(z: f32) -> i32 {
    depth_key(z.to_bits())
}

#[test]
fn keys_of_some_numbers() {
    assert_eq!(key(0.0), 0);
    assert_eq!(key(-0.0), 0);
    assert_eq!(key(1.0), 0x3F80_0000);
    assert_eq!(key(-1.0), -0x3F80_0000);
    assert_eq!(key(f32::INFINITY), 0x7F80_0000);
    assert_eq!(key(f32::MAX), 0x7F7F_FFFF);
    assert_eq!(key(f32::MIN), -0x7F7F_FFFF);
    assert_eq!(depth_key(1), 1);
    assert_eq!(depth_key(0x8000_0001), -1);
    assert_eq!(INFINITY_BITS, f32::INFINITY.to_bits());
}

#[test]
fn negative_infinity_has_the_floor_key() {
    assert_eq!(key(f32::NEG_INFINITY), DEPTH_FLOOR);
    assert!(key(f32::MIN) > DEPTH_FLOOR);
}

#[test]
fn what_is_not_a_number_has_the_floor_key() {
    assert_eq!(key(f32::NAN), DEPTH_FLOOR);
    assert_eq!(depth_key(0x7F80_0001), DEPTH_FLOOR);
    assert_eq!(depth_key(0xFF80_0001), DEPTH_FLOOR);
    assert_eq!(depth_key(0x7FFF_FFFF), DEPTH_FLOOR);
    assert_eq!(depth_key(0xFFFF_FFFF), DEPTH_FLOOR);
}

#[test]
fn keys_compare_as_the_numbers_do() {
    let samples = [
        f32::NEG_INFINITY,
        f32::MIN,
        -1.0e10,
        -2.5,
        -1.0,
        -f32::MIN_POSITIVE,
        -1.0e-45,
        -0.0,
        0.0,
        1.0e-45,
        f32::MIN_POSITIVE,
        0.1,
        0.5,
        1.0,
        1.000_000_1,
        4.999,
        5.0,
        250.0,
        1.0e10,
        f32::MAX,
        f32::INFINITY,
    ];
    for a in samples {
        for b in samples {
            assert_eq!(key(a) > key(b), a > b);
            assert_eq!(key(a) == key(b), a == b);
        }
    }
}

#[test]
fn neighbouring_patterns_have_neighbouring_keys() {
    let mut bits = 0u32;
    while bits < 0x7F80_0000 {
        assert_eq!(depth_key(bits + 1), depth_key(bits) + 1);
        assert!(f32::from_bits(bits + 1) > f32::from_bits(bits));
        bits += 0x0001_2345;
    }
}

#[test]
fn the_depth_test_on_keys_agrees_with_the_comparison_of_numbers() {
    let depths = [f32::NEG_INFINITY, -3.0, 0.0, 2.0, f32::NAN, 7.5, 7.5, 1.0, f32::INFINITY];
    let mut stored = f32::NEG_INFINITY;
    let mut shown = 0u32;
    let mut buffer = vec![0u32; 1];
    let mut z = vec![DEPTH_FLOOR; 1];
    for (k, d) in depths.iter().enumerate() {
        if *d > stored {
            stored = *d;
            shown = k as u32 + 1;
        }
        plot(&mut buffer, &mut z, 0, 0, key(*d), k as u32 + 1);
        assert_eq!(buffer[0], shown);
        assert_eq!(z[0], key(stored));
    }
    assert_eq!(shown, 9);
}

#[test]
fn scrambled_patterns_compare_as_the_numbers_do() {
    let mut state = 88172645u32;
    let mut next = || {
        state ^= state << 13;
        state ^= state >> 17;
        state ^= state << 5;
        state
    };
    for _ in 0..200000 {
        let a = next();
        let b = if next() % 4 == 0 { a ^ (next() % 8) } else { next() };
        let (x, y) = (f32::from_bits(a), f32::from_bits(b));
        if x.is_nan() || y.is_nan() {
            assert_eq!(depth_key(if x.is_nan() { a } else { b }), DEPTH_FLOOR);
            continue;
        }
        assert_eq!(depth_key(a) > depth_key(b), x > y);
        assert_eq!(depth_key(a) == depth_key(b), x == y);
    }
}

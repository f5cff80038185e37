use zombie_sim::arith::{isqrt, isqrt_ceil, mul_wide, product_le, sq};
use zombie_sim::vector::{dist, dist_squared, move_from_to_capped, MathVec2, Vec2};

fn pt(x: i32, y: i32) -> Vec2 {
    Vec2 { x, y }
}

#[test]
fn square_of_a_number() {
    assert_eq!(sq(0), 0);
    assert_eq!(sq(-7), 49);
    assert_eq!(sq(3_037_000_499), 9_223_372_030_926_249_001);
}

#[test]
fn floor_roots() {
    assert_eq!(isqrt(0), 0);
    assert_eq!(isqrt(1), 1);
    assert_eq!(isqrt(2), 1);
    assert_eq!(isqrt(3), 1);
    assert_eq!(isqrt(4), 2);
    assert_eq!(isqrt(99), 9);
    assert_eq!(isqrt(100), 10);
    assert_eq!(isqrt(u128::MAX), u64::MAX);
    assert_eq!(isqrt((u64::MAX as u128) * (u64::MAX as u128)), u64::MAX);
    assert_eq!(isqrt((u64::MAX as u128) * (u64::MAX as u128) - 1), u64::MAX - 1);
}

#[test]
fn ceiling_roots() {
    assert_eq!(isqrt_ceil(0), 0);
    assert_eq!(isqrt_ceil(1), 1);
    assert_eq!(isqrt_ceil(2), 2);
    assert_eq!(isqrt_ceil(4), 2);
    assert_eq!(isqrt_ceil(5), 3);
    assert_eq!(isqrt_ceil(100), 10);
    assert_eq!(isqrt_ceil(101), 11);
    assert_eq!(isqrt_ceil(u128::MAX), 1u128 << 64);
}

#[test]
fn wide_products() {
    assert_eq!(mul_wide(0, u128::MAX), (0, 0));
    assert_eq!(mul_wide(3, 5), (0, 15));
    assert_eq!(mul_wide(1u128 << 64, 1u128 << 64), (1, 0));
    assert_eq!(mul_wide(u128::MAX, 2), (1, u128::MAX - 1));
    assert_eq!(mul_wide(u128::MAX, u128::MAX), (u128::MAX - 1, 1));
    assert_eq!(
        mul_wide(0x1234_5678_9abc_def0_0fed_cba9_8765_4321, 0x1_0000_0000),
        (0x1234_5678, 0x9abc_def0_0fed_cba9_8765_4321_0000_0000)
    );
}

#[test]
fn products_compared_without_overflow() {
    assert!(product_le(2, 3, 3, 2));
    assert!(product_le(2, 3, 7, 1));
    assert!(!product_le(7, 1, 2, 3));
    assert!(product_le(0, u128::MAX, 0, 0));
    assert!(product_le(u128::MAX, u128::MAX, u128::MAX, u128::MAX));
    assert!(product_le(u128::MAX - 1, u128::MAX, u128::MAX, u128::MAX - 1));
    assert!(!product_le(u128::MAX, u128::MAX, u128::MAX, u128::MAX - 1));
    assert!(product_le(1u128 << 100, 1u128 << 100, 1u128 << 127, 1u128 << 73));
    assert!(!product_le((1u128 << 100) + 1, 1u128 << 100, 1u128 << 127, 1u128 << 73));
}

#[test]
fn origin_and_arithmetic_of_vectors() {
    assert_eq!(Vec2::new(), pt(0, 0));
    let mut v = MathVec2 { x: 3, y: -4 };
    v.scale(5);
    assert_eq!(v, pt(15, -20));
    assert_eq!(pt(3, -4).scaled(-2), pt(-6, 8));
    assert_eq!(pt(1, 2) + pt(10, 20), pt(11, 22));
    assert_eq!(pt(1, 2) * pt(3, 4), 11);
    assert_eq!(pt(-3, 2) * pt(3, 4), -1);
    assert_eq!(pt(i32::MIN, 0) * pt(i32::MIN, 0), 1i64 << 62);
    assert_eq!(pt(7, -7) / 2, pt(3, -3));
    assert_eq!(pt(-9, 9) / -2, pt(4, -4));
    assert_eq!(pt(15999, 8999) / 16000, pt(0, 0));
}

#[test]
fn squared_distance() {
    assert_eq!(dist_squared(pt(0, 0), pt(3, 4)), 25);
    assert_eq!(dist_squared(pt(3, 4), pt(0, 0)), 25);
    assert_eq!(dist_squared(pt(-5, 7), pt(-5, 7)), 0);
    assert_eq!(dist_squared(pt(0, 0), pt(15999, 8999)), 15999 * 15999 + 8999 * 8999);
}

#[test]
fn length_and_distance_rounded_down() {
    assert_eq!(pt(0, 0).len(), 0);
    assert_eq!(pt(3, -4).len(), 5);
    assert_eq!(pt(1, 1).len(), 1);
    assert_eq!(pt(1000, 1000).len(), 1414);
    assert_eq!(pt(i32::MIN, i32::MIN).len(), 3_037_000_499);
    assert_eq!(dist(pt(0, 0), pt(3, 4)), 5);
    assert_eq!(dist(pt(10, 10), pt(10, 10)), 0);
    assert_eq!(dist(pt(0, 0), pt(15999, 8999)), 18356);
    assert_eq!(dist(pt(i32::MIN, i32::MIN), pt(i32::MAX, i32::MAX)), 6_074_000_998);
}

#[test]
fn step_snaps_to_a_goal_within_reach() {
    assert_eq!(move_from_to_capped(pt(0, 0), pt(600, 800), 1000), pt(600, 800));
    assert_eq!(move_from_to_capped(pt(0, 0), pt(600, 799), 1000), pt(600, 799));
    assert_eq!(move_from_to_capped(pt(5, 5), pt(5, 5), 0), pt(5, 5));
    assert_eq!(move_from_to_capped(pt(5, 5), pt(5, 5), 1000), pt(5, 5));
}

#[test]
fn step_is_capped_toward_a_goal_out_of_reach() {
    assert_eq!(move_from_to_capped(pt(0, 0), pt(5000, 0), 1000), pt(1000, 0));
    assert_eq!(move_from_to_capped(pt(0, 0), pt(3000, 4000), 1000), pt(600, 800));
    assert_eq!(move_from_to_capped(pt(0, 0), pt(3000, 4000), 400), pt(240, 320));
    assert_eq!(move_from_to_capped(pt(0, 0), pt(600, 801), 1000), pt(599, 800));
    assert_eq!(move_from_to_capped(pt(0, 0), pt(1000, 1000), 1000), pt(707, 707));
    assert_eq!(move_from_to_capped(pt(1000, 1000), pt(0, 0), 1000), pt(293, 293));
    assert_eq!(move_from_to_capped(pt(100, 100), pt(100, -5000), 400), pt(100, -300));
    assert_eq!(move_from_to_capped(pt(7, 9), pt(5000, 3000), 0), pt(7, 9));
}

#[test]
fn step_works_at_the_limits_of_the_integers() {
    assert_eq!(
        move_from_to_capped(pt(i32::MIN, i32::MIN), pt(i32::MAX, i32::MAX), i32::MAX),
        pt(-628_983_399, -628_983_399)
    );
    assert_eq!(
        move_from_to_capped(pt(i32::MAX, 0), pt(i32::MIN, 0), 1),
        pt(i32::MAX - 1, 0)
    );
}

#[test]
fn step_stays_within_the_cap_and_between_start_and_goal() {
    let froms = [pt(0, 0), pt(8000, 4500), pt(15999, 8999), pt(-300, 250)];
    let tos = [pt(0, 0), pt(1, 1), pt(12000, 100), pt(37, 8999), pt(-1000, -1000), pt(8000, 4501)];
    let caps = [0, 1, 2, 400, 1000, 20000];
    for from in froms {
        for to in tos {
            for cap in caps {
                let r = move_from_to_capped(from, to, cap);
                let cap2 = (cap as i64) * (cap as i64);
                let whole = dist_squared(from, to);
                assert!(dist_squared(from, r) <= cap2);
                assert_eq!(r == to, whole <= cap2);
                assert!(r.x >= from.x.min(to.x) && r.x <= from.x.max(to.x));
                assert!(r.y >= from.y.min(to.y) && r.y <= from.y.max(to.y));
                if whole > cap2 {
                    let exact_x = (cap as f64) * ((to.x - from.x) as f64) / (whole as f64).sqrt();
                    let exact_y = (cap as f64) * ((to.y - from.y) as f64) / (whole as f64).sqrt();
                    assert!(((r.x - from.x) as f64 - exact_x).abs() < 1.0 + 1e-9);
                    assert!(((r.y - from.y) as f64 - exact_y).abs() < 1.0 + 1e-9);
                    assert!(((r.x - from.x) as f64).abs() <= exact_x.abs() + 1e-9);
                    assert!(((r.y - from.y) as f64).abs() <= exact_y.abs() + 1e-9);
                }
            }
        }
    }
}

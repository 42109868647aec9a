use leveling::curve::XpCurve;
use leveling::policy::{grant_amount, LevelingPolicy, GRANT_END, GRANT_MIN};

#[test]
fn standard_curve_costs_the_rounded_down_powers() {
    let curve = XpCurve::standard();
    let expected: [u32; 12] = [100, 130, 169, 219, 285, 371, 482, 627, 815, 1060, 1378, 1792];
    for (level, cost) in expected.iter().enumerate() {
        assert_eq!(curve.threshold(level as u32), Some(*cost), "level {}", level);
    }
    assert_eq!(curve.threshold(32), Some(442_779));
    assert_eq!(curve.threshold(50), Some(49_792_922));
}

#[test]
fn slow_curve_costs_the_rounded_down_powers() {
    let curve = XpCurve::new(100, 1123, 1000).unwrap();
    let expected: [u32; 8] = [100, 112, 126, 141, 159, 178, 200, 225];
    for (level, cost) in expected.iter().enumerate() {
        assert_eq!(curve.threshold(level as u32), Some(*cost), "level {}", level);
    }
    assert_eq!(curve.threshold(151), Some(4_048_957_288));
    assert_eq!(curve.threshold(152), None);
}

#[test]
fn threshold_is_none_beyond_what_a_counter_holds() {
    let curve = XpCurve::standard();
    assert_eq!(curve.threshold(66), Some(3_313_303_751));
    assert_eq!(curve.threshold(67), None);
    assert_eq!(curve.threshold(68), None);
    assert_eq!(curve.threshold(1000), None);
    assert_eq!(curve.threshold(u32::MAX), None);
}

#[test]
fn thresholds_rise_strictly() {
    let curves = [XpCurve::standard(), XpCurve::new(100, 1123, 1000).unwrap(), XpCurve::new(1, 2, 1).unwrap()];
    for curve in curves.iter() {
        let mut level: u32 = 0;
        while let (Some(low), Some(high)) = (curve.threshold(level), curve.threshold(level + 1)) {
            assert!(low < high, "level {}", level);
            level += 1;
        }
        assert!(level > 10);
    }
}

#[test]
fn curve_base_is_the_cost_of_level_zero() {
    let curve = XpCurve::new(250, 3, 2).unwrap();
    assert_eq!(curve.base(), 250);
    assert_eq!(curve.threshold(0), Some(250));
    assert_eq!(curve.threshold(1), Some(375));
    assert_eq!(curve.threshold(2), Some(562));
}

#[test]
fn curves_that_do_not_rise_are_refused() {
    assert!(XpCurve::new(100, 10, 10).is_none());
    assert!(XpCurve::new(100, 9, 10).is_none());
    assert!(XpCurve::new(100, 13, 0).is_none());
    assert!(XpCurve::new(0, 13, 10).is_none());
    // 1 * 1.3 rounds down to 1: no rise from level 0 to level 1.
    assert!(XpCurve::new(1, 13, 10).is_none());
    assert!(XpCurve::new(3, 13, 10).is_none());
    assert!(XpCurve::new(4, 13, 10).is_some());
    assert!(XpCurve::new(u32::MAX, u32::MAX, 1).is_some());
}

#[test]
fn grant_amount_stays_in_range_and_varies() {
    let mut seen = [false; 32];
    for _ in 0..2000 {
        let g = grant_amount();
        assert!(GRANT_MIN <= g && g < GRANT_END, "grant {}", g);
        seen[g as usize] = true;
    }
    let distinct = seen.iter().filter(|s| **s).count();
    assert!(distinct >= 2);
    assert_eq!(GRANT_MIN, 10);
    assert_eq!(GRANT_END, 20);
}

#[test]
fn policy_needs_a_positive_step() {
    assert!(LevelingPolicy::new(XpCurve::standard(), 0).is_none());
    let policy = LevelingPolicy::new(XpCurve::standard(), 3).unwrap();
    assert_eq!(policy.role_step(), 3);
    assert_eq!(policy.curve().threshold(1), Some(130));
    let standard = LevelingPolicy::standard();
    assert_eq!(standard.role_step(), 5);
    assert_eq!(standard.curve().threshold(0), Some(100));
}

use luarena::math_utils::{
    angle_between, normalize_absolute_angle, normalize_relative_angle, Point, Sector, HALF_PI, PI,
    TWO_PI, UNIT,
};

fn close(actual: i64, expected: f64, tol: f64) -> bool {
    ((actual as f64) / (UNIT as f64) - expected).abs() <= tol
}

fn rad(deg: f64) -> i64 {
    (deg.to_radians() * UNIT as f64).round() as i64
}

#[test]
fn angle_greater_than_2pi() {
    let res = normalize_absolute_angle(7 * UNIT);
    assert!(close(res, 0.7168, 0.0001));
}

#[test]
fn angle_greater_than_4pi() {
    let res = normalize_absolute_angle(5 * PI);
    assert!(close(res, std::f64::consts::PI, 0.0001));
}

#[test]
fn angle_less_than_0() {
    let res = normalize_absolute_angle(-PI);
    assert!(close(res, std::f64::consts::PI, 0.0001));
}

#[test]
fn angle_less_than_minus_2pi() {
    let res = normalize_absolute_angle(-5 * PI);
    assert!(close(res, std::f64::consts::PI, 0.0001));
}

#[test]
fn angle_between_0_and_2pi() {
    let res = normalize_absolute_angle(4_123_000);
    assert!(close(res, 4.123, 0.0001));
}

#[test]
fn relative_angle_greater_than_2pi() {
    let res = normalize_relative_angle(7 * UNIT);
    assert!(close(res, 0.7168, 0.0001));
}

#[test]
fn angle_less_than_minus_pi() {
    let res = normalize_relative_angle(-2 * PI);
    assert!(close(res, 0.0, 0.0001));
}

#[test]
fn angle_between_minus_pi_and_pi() {
    let res = normalize_relative_angle(1_123_000);
    assert!(close(res, 1.123, 0.0001));
}

#[test]
fn angle_between_pi_and_2pi() {
    let res = normalize_relative_angle(3 * PI / 2);
    assert!(close(res, -std::f64::consts::PI / 2.0, 0.0001));
}

#[test]
fn target_right_above() {
    let angle = angle_between(
        &Point { x: 10 * UNIT, y: 10 * UNIT },
        &Point { x: 10 * UNIT, y: 5 * UNIT },
    );
    assert!(close(angle, 0.0, 0.0001));
}

#[test]
fn target_right_below() {
    let angle = angle_between(
        &Point { x: 10 * UNIT, y: 10 * UNIT },
        &Point { x: 10 * UNIT, y: 50 * UNIT },
    );
    assert!(close(angle, std::f64::consts::PI, 0.0001));
}

#[test]
fn target_directly_to_the_right() {
    let angle = angle_between(
        &Point { x: 10 * UNIT, y: 10 * UNIT },
        &Point { x: 20 * UNIT, y: 10 * UNIT },
    );
    assert!(close(angle, std::f64::consts::FRAC_PI_2, 0.0001));
}

#[test]
fn target_directly_to_the_left() {
    let angle = angle_between(&Point { x: 10 * UNIT, y: 0 }, &Point { x: 0, y: 0 });
    assert!(close(angle, 270f64.to_radians(), 0.0001));
}

#[test]
fn target_at_45_degrees() {
    let angle = angle_between(&Point { x: -UNIT, y: 0 }, &Point { x: 0, y: -UNIT });
    assert!(close(angle, 45f64.to_radians(), 0.0001));
}

#[test]
fn target_at_135_degrees() {
    let angle = angle_between(&Point { x: 0, y: 0 }, &Point { x: UNIT, y: UNIT });
    assert!(close(angle, 135f64.to_radians(), 0.0001));
}

#[test]
fn target_at_225_degrees() {
    let angle = angle_between(&Point { x: 0, y: 0 }, &Point { x: -UNIT, y: UNIT });
    assert!(close(angle, 225f64.to_radians(), 0.0001));
}

#[test]
fn target_at_315_degrees() {
    let angle = angle_between(
        &Point { x: 200 * UNIT, y: 200 * UNIT },
        &Point { x: 100 * UNIT, y: 100 * UNIT },
    );
    assert!(close(
        normalize_absolute_angle(angle),
        315f64.to_radians(),
        0.0001
    ));
}

#[test]
fn add() {
    let p = Point { x: 13 * UNIT, y: -5 * UNIT };
    let res = p.add(&Point { x: -2 * UNIT, y: 4 * UNIT });
    assert_eq!(res.x, 11 * UNIT);
    assert_eq!(res.y, -UNIT);
}

#[test]
fn set_to() {
    let mut p = Point::zero();
    p.set_to(&Point { x: 3_100_000, y: -2_500_000 });
    assert_eq!(p.x, 3_100_000);
    assert_eq!(p.y, -2_500_000);
}

#[test]
fn sector_too_far_left() {
    let overlap = Sector::new(rad(45.0), rad(30.0)).overlaps(&Sector::new(rad(0.0), rad(10.0)));
    assert!(!overlap);
}

#[test]
fn sector_too_far_right() {
    let overlap = Sector::new(rad(45.0), rad(30.0)).overlaps(&Sector::new(rad(80.0), rad(4.0)));
    assert!(!overlap);
}

#[test]
fn sector_target_fully_contained() {
    let overlap = Sector::new(rad(45.0), rad(30.0)).overlaps(&Sector::new(rad(50.0), rad(5.0)));
    assert!(overlap);
}

#[test]
fn sector_source_fully_contained() {
    let overlap = Sector::new(rad(45.0), rad(30.0)).overlaps(&Sector::new(rad(40.0), rad(45.0)));
    assert!(overlap);
}

#[test]
fn sector_left_only_overlap() {
    let overlap = Sector::new(rad(30.0), rad(25.0)).overlaps(&Sector::new(rad(4.0), rad(5.0)));
    assert!(overlap);
}

#[test]
fn sector_right_only_overlap() {
    let overlap = Sector::new(rad(30.0), rad(25.0)).overlaps(&Sector::new(rad(55.0), rad(5.0)));
    assert!(overlap);
}

#[test]
fn sector_wraparound_too_far_left() {
    let overlap = Sector::new(rad(355.0), rad(10.0)).overlaps(&Sector::new(rad(340.0), rad(2.0)));
    assert!(!overlap);
}

#[test]
fn sector_wraparound_too_far_right() {
    let overlap = Sector::new(rad(355.0), rad(10.0)).overlaps(&Sector::new(rad(20.0), rad(12.0)));
    assert!(!overlap);
}

#[test]
fn sector_wraparound_fully_contained_both_overflowing() {
    let overlap = Sector::new(rad(350.0), rad(30.0)).overlaps(&Sector::new(rad(355.0), rad(10.0)));
    assert!(overlap);
}

#[test]
fn sector_wraparound_target_in_next_quadrant() {
    let overlap = Sector::new(rad(350.0), rad(20.0)).overlaps(&Sector::new(rad(5.0), rad(4.0)));
    assert!(overlap);
}

#[test]
fn sector_overlaps_commutative_samples() {
    let samples = [
        (rad(45.0), rad(30.0), rad(0.0), rad(10.0)),
        (rad(355.0), rad(10.0), rad(20.0), rad(12.0)),
        (rad(350.0), rad(20.0), rad(5.0), rad(4.0)),
        (rad(123.0), rad(7.0), rad(300.0), rad(88.0)),
    ];
    for (a, ad, b, bd) in samples {
        let s = Sector::new(a, ad);
        let t = Sector::new(b, bd);
        assert_eq!(s.overlaps(&t), t.overlaps(&s));
    }
}

#[test]
fn half_pi_constants_are_consistent() {
    assert_eq!(2 * HALF_PI, PI);
    assert_eq!(2 * PI, TWO_PI);
}

#[test]
fn sector_q2_too_far_left() {
    let overlap = Sector::new(rad(135.0), rad(30.0)).overlaps(&Sector::new(rad(90.0), rad(10.0)));
    assert!(!overlap);
}

#[test]
fn sector_q2_too_far_right() {
    let overlap = Sector::new(rad(135.0), rad(30.0)).overlaps(&Sector::new(rad(170.0), rad(4.0)));
    assert!(!overlap);
}

#[test]
fn sector_q2_target_fully_contained() {
    let overlap = Sector::new(rad(135.0), rad(30.0)).overlaps(&Sector::new(rad(140.0), rad(5.0)));
    assert!(overlap);
}

#[test]
fn sector_q2_source_fully_contained() {
    let overlap = Sector::new(rad(135.0), rad(30.0)).overlaps(&Sector::new(rad(130.0), rad(45.0)));
    assert!(overlap);
}

#[test]
fn sector_q2_left_only_overlap() {
    let overlap = Sector::new(rad(120.0), rad(25.0)).overlaps(&Sector::new(rad(94.0), rad(5.0)));
    assert!(overlap);
}

#[test]
fn sector_q2_right_only_overlap() {
    let overlap = Sector::new(rad(120.0), rad(25.0)).overlaps(&Sector::new(rad(145.0), rad(5.0)));
    assert!(overlap);
}

#[test]
fn sector_q1_mixed_with_second() {
    let overlap = Sector::new(rad(80.0), rad(25.0)).overlaps(&Sector::new(rad(110.0), rad(7.0)));
    assert!(overlap);
}

#[test]
fn sector_q2_mixed_with_third() {
    let overlap = Sector::new(rad(170.0), rad(25.0)).overlaps(&Sector::new(rad(200.0), rad(7.0)));
    assert!(overlap);
}

#[test]
fn sector_q3_too_far_left() {
    let overlap = Sector::new(rad(225.0), rad(30.0)).overlaps(&Sector::new(rad(180.0), rad(10.0)));
    assert!(!overlap);
}

#[test]
fn sector_q3_too_far_right() {
    let overlap = Sector::new(rad(225.0), rad(30.0)).overlaps(&Sector::new(rad(260.0), rad(4.0)));
    assert!(!overlap);
}

#[test]
fn sector_q3_target_fully_contained() {
    let overlap = Sector::new(rad(225.0), rad(30.0)).overlaps(&Sector::new(rad(230.0), rad(5.0)));
    assert!(overlap);
}

#[test]
fn sector_q3_source_fully_contained() {
    let overlap = Sector::new(rad(225.0), rad(30.0)).overlaps(&Sector::new(rad(220.0), rad(45.0)));
    assert!(overlap);
}

#[test]
fn sector_q3_left_only_overlap() {
    let overlap = Sector::new(rad(210.0), rad(25.0)).overlaps(&Sector::new(rad(184.0), rad(5.0)));
    assert!(overlap);
}

#[test]
fn sector_q3_right_only_overlap() {
    let overlap = Sector::new(rad(210.0), rad(25.0)).overlaps(&Sector::new(rad(235.0), rad(5.0)));
    assert!(overlap);
}

#[test]
fn sector_q3_mixed_with_fourth() {
    let overlap = Sector::new(rad(260.0), rad(25.0)).overlaps(&Sector::new(rad(290.0), rad(7.0)));
    assert!(overlap);
}

#[test]
fn sector_q4_too_far_left() {
    let overlap = Sector::new(rad(315.0), rad(30.0)).overlaps(&Sector::new(rad(270.0), rad(10.0)));
    assert!(!overlap);
}

#[test]
fn sector_q4_too_far_right() {
    let overlap = Sector::new(rad(315.0), rad(30.0)).overlaps(&Sector::new(rad(350.0), rad(4.0)));
    assert!(!overlap);
}

#[test]
fn sector_q4_target_fully_contained() {
    let overlap = Sector::new(rad(315.0), rad(30.0)).overlaps(&Sector::new(rad(320.0), rad(5.0)));
    assert!(overlap);
}

#[test]
fn sector_q4_source_fully_contained() {
    let overlap = Sector::new(rad(315.0), rad(30.0)).overlaps(&Sector::new(rad(310.0), rad(45.0)));
    assert!(overlap);
}

#[test]
fn sector_q4_left_only_overlap() {
    let overlap = Sector::new(rad(300.0), rad(25.0)).overlaps(&Sector::new(rad(274.0), rad(5.0)));
    assert!(overlap);
}

#[test]
fn sector_q4_right_only_overlap() {
    let overlap = Sector::new(rad(300.0), rad(25.0)).overlaps(&Sector::new(rad(325.0), rad(5.0)));
    assert!(overlap);
}

#[test]
fn sector_wraparound_fully_contained_source_overflowing() {
    let overlap = Sector::new(rad(350.0), rad(30.0)).overlaps(&Sector::new(rad(352.0), rad(5.0)));
    assert!(overlap);
}

#[test]
fn sector_wraparound_left_only_overlap() {
    let overlap = Sector::new(rad(340.0), rad(40.0)).overlaps(&Sector::new(rad(290.0), rad(20.0)));
    assert!(overlap);
}

#[test]
fn sector_wraparound_right_only_overlap_target_right_overflowing() {
    let overlap = Sector::new(rad(350.0), rad(20.0)).overlaps(&Sector::new(rad(355.0), rad(20.0)));
    assert!(overlap);
}

#[test]
fn sector_wraparound_target_in_next_quadrant_not_fully_contained() {
    let overlap = Sector::new(rad(350.0), rad(20.0)).overlaps(&Sector::new(rad(9.0), rad(5.0)));
    assert!(overlap);
}

#[test]
fn sector_wraparound_target_in_next_quadrant_underflowing_fully_contained() {
    let overlap = Sector::new(rad(350.0), rad(20.0)).overlaps(&Sector::new(rad(1.0), rad(5.0)));
    assert!(overlap);
}

#[test]
fn sector_wraparound_target_in_next_quadrant_underflowing_not_fully_contained() {
    let overlap = Sector::new(rad(350.0), rad(20.0)).overlaps(&Sector::new(rad(5.0), rad(10.0)));
    assert!(overlap);
}

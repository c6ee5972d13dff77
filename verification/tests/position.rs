use wam::position::Position;
use wam::traits::IsVeryClose;

fn at(x: i32, y: i32, z: i32) -> Position {
    Position { x, y, z }
}

#[test]
fn default_position_is_the_origin() {
    assert_eq!(Position::default(), at(0, 0, 0));
}

#[test]
fn distance_squared_is_exact() {
    assert_eq!(at(0, 0, 0).distance_squared_to(&at(3, 4, 12)), 169);
    assert_eq!(at(3, 4, 12).distance_squared_to(&at(0, 0, 0)), 169);
    assert_eq!(at(1, 1, 1).distance_squared_to(&at(1, 1, 1)), 0);
    assert_eq!(at(-1, -2, -3).distance_squared_to(&at(1, 2, 3)), 4 + 16 + 36);
}

#[test]
fn distance_squared_between_far_corners() {
    let low = at(i32::MIN, i32::MIN, i32::MIN);
    let high = at(i32::MAX, i32::MAX, i32::MAX);
    assert_eq!(low.distance_squared_to(&high), 3 * 18_446_744_065_119_617_025i128);
    assert_eq!(high.distance_squared_to(&low), 3 * 18_446_744_065_119_617_025i128);
}

#[test]
fn distance_is_rounded_down() {
    assert_eq!(at(0, 0, 0).distance_to(&at(3, 4, 12)), 13);
    assert_eq!(at(0, 0, 0).distance_to(&at(1, 1, 0)), 1);
    assert_eq!(at(0, 0, 0).distance_to(&at(1, 1, 1)), 1);
    assert_eq!(at(0, 0, 0).distance_to(&at(2, 2, 1)), 3);
    assert_eq!(at(0, 0, 0).distance_to(&at(0, 0, 740_000)), 740_000);
    assert_eq!(at(5, 5, 5).distance_to(&at(5, 5, 5)), 0);
}

#[test]
fn distance_between_far_corners() {
    let low = at(i32::MIN, i32::MIN, i32::MIN);
    let high = at(i32::MAX, i32::MAX, i32::MAX);
    // 4294967295 * sqrt(3), rounded down
    assert_eq!(low.distance_to(&high), 7_439_101_571);
}

#[test]
fn midpoint_of_two_points() {
    assert_eq!(at(0, 0, 0).midpoint(&at(2, 4, 6)), at(1, 2, 3));
    assert_eq!(at(-2, -4, -6).midpoint(&at(2, 4, 6)), at(0, 0, 0));
    assert_eq!(at(10, 20, 30).midpoint(&at(10, 20, 30)), at(10, 20, 30));
}

#[test]
fn midpoint_rounds_down() {
    assert_eq!(at(0, 0, 0).midpoint(&at(1, 3, 5)), at(0, 1, 2));
    assert_eq!(at(0, 0, 0).midpoint(&at(-1, -3, -5)), at(-1, -2, -3));
    assert_eq!(at(-3, 0, 0).midpoint(&at(2, 0, 0)), at(-1, 0, 0));
}

#[test]
fn midpoint_of_extremes_does_not_overflow() {
    assert_eq!(
        at(i32::MAX, i32::MIN, i32::MIN).midpoint(&at(i32::MAX, i32::MIN, i32::MAX)),
        at(i32::MAX, i32::MIN, -1)
    );
}

#[test]
fn add_assign_adds_coordinates() {
    let mut p = at(1, 2, 3);
    p.add_assign(&at(10, -20, 30));
    assert_eq!(p, at(11, -18, 33));
}

#[test]
fn div_assign_divides_rounding_down() {
    let mut p = at(10, 21, -21);
    p.div_assign(2);
    assert_eq!(p, at(5, 10, -11));
    let mut q = at(-1, 0, 1);
    q.div_assign(3);
    assert_eq!(q, at(-1, 0, 0));
    let mut r = at(i32::MIN, i32::MAX, 7);
    r.div_assign(1);
    assert_eq!(r, at(i32::MIN, i32::MAX, 7));
    let mut s = at(i32::MIN, i32::MAX, 7);
    s.div_assign(u32::MAX);
    assert_eq!(s, at(-1, 0, 0));
}

#[test]
fn sum_and_division_average_points() {
    let mut centre = Position::default();
    centre.add_assign(&at(0, 0, 0));
    centre.add_assign(&at(3, 0, 0));
    centre.add_assign(&at(0, 6, 0));
    centre.div_assign(3);
    assert_eq!(centre, at(1, 2, 0));
}

#[test]
fn neg_mirrors_through_the_origin() {
    assert_eq!(at(1, -2, 3).neg(), at(-1, 2, -3));
    assert_eq!(at(0, 0, 0).neg(), at(0, 0, 0));
    assert_eq!(at(i32::MAX, 0, 0).neg(), at(-i32::MAX, 0, 0));
}

#[test]
fn positions_are_very_close_when_equal() {
    assert!(at(1, 2, 3).is_very_close_to(&at(1, 2, 3)));
    assert!(!at(1, 2, 3).is_very_close_to(&at(1, 2, 4)));
    assert!(!at(1, 2, 3).is_very_close_to(&at(1, 3, 3)));
    assert!(!at(1, 2, 3).is_very_close_to(&at(0, 2, 3)));
}

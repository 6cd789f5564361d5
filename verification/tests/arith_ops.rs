use dome::arith::{add_sat, div_floor, div_floor_cnt, max64, min64, mul_sat, sub_sat};

#[test]
fn saturating_arithmetic_clamps_at_the_ends() {
    assert_eq!(add_sat(i64::MAX, 1), i64::MAX);
    assert_eq!(add_sat(i64::MIN, -1), i64::MIN);
    assert_eq!(add_sat(2, 3), 5);
    assert_eq!(sub_sat(i64::MIN, 1), i64::MIN);
    assert_eq!(sub_sat(i64::MAX, -1), i64::MAX);
    assert_eq!(sub_sat(2, 5), -3);
    assert_eq!(mul_sat(i64::MAX, 2), i64::MAX);
    assert_eq!(mul_sat(i64::MIN, 2), i64::MIN);
    assert_eq!(mul_sat(i64::MAX, -2), i64::MIN);
    assert_eq!(mul_sat(6, 7), 42);
}

#[test]
fn division_floors_toward_negative_infinity() {
    assert_eq!(div_floor(7, 2), 3);
    assert_eq!(div_floor(-7, 2), -4);
    assert_eq!(div_floor(i64::MIN, 1), i64::MIN);
    assert_eq!(div_floor_cnt(100, 3), 33);
    assert_eq!(div_floor_cnt(-5, 2), -3);
}

#[test]
fn min_and_max_pick_the_right_operand() {
    assert_eq!(min64(3, 9), 3);
    assert_eq!(max64(3, 9), 9);
    assert_eq!(min64(-3, -9), -9);
}

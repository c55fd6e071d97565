use voxelray::linalg::{fix_floor, floor_div, floor_rem, Pos, FIX_ONE};

#[test]
fn pos_componentwise_arithmetic() {
    let a = Pos::new(1, -2, 3);
    let b = Pos::new(10, 20, -30);
    assert_eq!(a.add(&b), Pos::new(11, 18, -27));
    assert_eq!(a.sub(&b), Pos::new(-9, -22, 33));
}

#[test]
fn pos_division_floors_toward_minus_infinity() {
    assert_eq!(Pos::new(15, -1, -8).div(8), Pos::new(1, -1, -1));
    assert_eq!(Pos::new(0, 7, -9).div(8), Pos::new(0, 0, -2));
}

#[test]
fn floor_div_and_rem_agree_on_negatives() {
    assert_eq!(floor_div(-1, 8), -1);
    assert_eq!(floor_rem(-1, 8), 7);
    assert_eq!(floor_div(-8, 8), -1);
    assert_eq!(floor_rem(-8, 8), 0);
    assert_eq!(floor_div(-9, 8), -2);
    assert_eq!(floor_rem(-9, 8), 7);
    // The quotient and remainder reassemble the dividend.
    for v in [-17i32, -8, -1, 0, 1, 7, 8, 23] {
        assert_eq!(floor_div(v, 8) * 8 + floor_rem(v, 8), v);
    }
}

#[test]
fn fix_floor_rounds_down() {
    assert_eq!(fix_floor(0), 0);
    assert_eq!(fix_floor(FIX_ONE - 1), 0);
    assert_eq!(fix_floor(FIX_ONE), 1);
    assert_eq!(fix_floor(-1), -1);
    assert_eq!(fix_floor(-FIX_ONE), -1);
    assert_eq!(fix_floor(-FIX_ONE - 1), -2);
    assert_eq!(fix_floor(5 * FIX_ONE + 12345), 5);
}

use screaming_inscts::fixed::{atan2_fixed, cos_fixed, isqrt, sin_fixed, wrap_coord};
use screaming_inscts::get_neightboring_cells;
use screaming_inscts::TURN;

#[test]
fn sine_cardinal_points() {
    assert_eq!(sin_fixed(0), 0);
    assert_eq!(sin_fixed(900), 1000);
    assert_eq!(sin_fixed(1800), 0);
    assert_eq!(sin_fixed(2700), -1000);
}

#[test]
fn cosine_cardinal_points() {
    assert_eq!(cos_fixed(0), 1000);
    assert_eq!(cos_fixed(900), 0);
    assert_eq!(cos_fixed(1800), -1000);
    assert_eq!(cos_fixed(2700), 0);
}

#[test]
fn sine_mid_angle() {
    // 45 degrees: the rational approximation gives 705 against the real
    // 707.1, within its advertised accuracy.
    assert_eq!(sin_fixed(450), 705);
    assert_eq!(cos_fixed(450), 705);
}

#[test]
fn sine_bounded_everywhere() {
    let mut t: i64 = 0;
    while t < TURN {
        let s = sin_fixed(t);
        let c = cos_fixed(t);
        assert!(-1000 <= s && s <= 1000);
        assert!(-1000 <= c && c <= 1000);
        t += 1;
    }
}

#[test]
fn isqrt_exact_squares() {
    assert_eq!(isqrt(0), 0);
    assert_eq!(isqrt(1), 1);
    assert_eq!(isqrt(35), 5);
    assert_eq!(isqrt(36), 6);
    assert_eq!(isqrt(1_000_000_000_000_000_000), 1_000_000_000);
    assert_eq!(isqrt(999_999_999_999_999_999), 999_999_999);
}

#[test]
fn atan2_axes_and_diagonals() {
    assert_eq!(atan2_fixed(0, 0), 0);
    assert_eq!(atan2_fixed(0, 5000), 0);
    assert_eq!(atan2_fixed(5000, 0), 900);
    assert_eq!(atan2_fixed(0, -5000), 1800);
    assert_eq!(atan2_fixed(-5000, 0), 2700);
    assert_eq!(atan2_fixed(5000, 5000), 450);
    // atan(3/4) is 36.87 degrees; the approximation gives 36.6.
    assert_eq!(atan2_fixed(3000, 4000), 366);
}

#[test]
fn wrap_coord_one_step() {
    assert_eq!(wrap_coord(30_500, 30_000), 500);
    assert_eq!(wrap_coord(-200, 30_000), 29_800);
    assert_eq!(wrap_coord(15_000, 30_000), 15_000);
    assert_eq!(wrap_coord(0, 30_000), 0);
    assert_eq!(wrap_coord(30_000, 30_000), 0);
}

#[test]
fn neighbors_of_corner_cell() {
    let r = get_neightboring_cells(&[0, 0], &[5, 5]);
    assert_eq!(
        r,
        [None, None, None, None, Some(0), Some(1), None, Some(5), Some(6)]
    );
}

#[test]
fn neighbors_of_center_cell() {
    let r = get_neightboring_cells(&[2, 2], &[5, 5]);
    assert_eq!(
        r,
        [
            Some(6),
            Some(7),
            Some(8),
            Some(11),
            Some(12),
            Some(13),
            Some(16),
            Some(17),
            Some(18)
        ]
    );
}

#[test]
fn neighbors_of_single_cell_grid() {
    let r = get_neightboring_cells(&[0, 0], &[1, 1]);
    assert_eq!(r, [None, None, None, None, Some(0), None, None, None, None]);
}

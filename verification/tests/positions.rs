use roguelike_core::types::Pos;
use roguelike_core::utils::{
    add_pos, clamp, dxy, is_ordinal, move_by, move_towards, move_x, move_y, next_pos, signedness,
    sub_pos,
};

#[test]
fn pos_from_tuple_and_back() {
    let pos = Pos::from((3, -4));
    assert_eq!(pos, Pos::new(3, -4));
    assert_eq!(pos.to_tuple(), (3, -4));
}

#[test]
fn signedness_is_the_sign() {
    assert_eq!(signedness(0), 0);
    assert_eq!(signedness(9), 1);
    assert_eq!(signedness(-9), -1);
}

#[test]
fn is_ordinal_means_one_axis() {
    assert!(is_ordinal(Pos::new(0, 2)));
    assert!(is_ordinal(Pos::new(-2, 0)));
    assert!(!is_ordinal(Pos::new(0, 0)));
    assert!(!is_ordinal(Pos::new(1, 1)));
}

#[test]
fn adding_and_subtracting_positions() {
    assert_eq!(add_pos(Pos::new(1, 2), Pos::new(3, -5)), Pos::new(4, -3));
    assert_eq!(sub_pos(Pos::new(1, 2), Pos::new(3, -5)), Pos::new(-2, 7));
    assert_eq!(move_by(Pos::new(1, 2), Pos::new(3, -5)), Pos::new(4, -3));
    assert_eq!(move_x(Pos::new(1, 2), -3), Pos::new(-2, 2));
    assert_eq!(move_y(Pos::new(1, 2), 3), Pos::new(1, 5));
    assert_eq!(dxy(Pos::new(1, 2), Pos::new(4, 0)), (3, -2));
}

#[test]
fn next_pos_goes_one_beyond() {
    assert_eq!(next_pos(Pos::new(5, 5), Pos::new(2, 0)), Pos::new(8, 5));
    assert_eq!(next_pos(Pos::new(5, 5), Pos::new(-2, 3)), Pos::new(2, 9));
    assert_eq!(next_pos(Pos::new(5, 5), Pos::new(0, 0)), Pos::new(5, 5));
}

#[test]
fn clamp_holds_a_value_in_its_range() {
    assert_eq!(clamp(5, 0, 3), 3);
    assert_eq!(clamp(-5, 0, 3), 0);
    assert_eq!(clamp(2, 0, 3), 2);
}

#[test]
fn move_towards_skips_cells_of_the_line() {
    assert_eq!(move_towards(Pos::new(0, 0), Pos::new(5, 0), 0), Pos::new(1, 0));
    assert_eq!(move_towards(Pos::new(0, 0), Pos::new(5, 0), 2), Pos::new(3, 0));
    assert_eq!(move_towards(Pos::new(0, 0), Pos::new(5, 0), 4), Pos::new(5, 0));
    assert_eq!(move_towards(Pos::new(0, 0), Pos::new(5, 0), 9), Pos::new(5, 0));
    assert_eq!(move_towards(Pos::new(2, 2), Pos::new(2, 2), 0), Pos::new(2, 2));
}

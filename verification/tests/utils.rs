use roguelike_core::types::Pos;
use roguelike_core::utils::{in_direction_of, move_next_to};

#[test]
pub fn test_move_next_to() {
    assert_eq!(move_next_to(Pos::new(0, 0), Pos::new(5, 5)), Pos::new(4, 4));
    assert_eq!(move_next_to(Pos::new(0, 0), Pos::new(1, 1)), Pos::new(0, 0));
    assert_eq!(move_next_to(Pos::new(0, 0), Pos::new(-5, -5)), Pos::new(-4, -4));
    assert_eq!(move_next_to(Pos::new(0, 0), Pos::new(0, 5)), Pos::new(0, 4));
    assert_eq!(move_next_to(Pos::new(0, 0), Pos::new(5, 0)), Pos::new(4, 0));
}

#[test]
pub fn test_in_direction_of() {
    let start = Pos::new(1, 1);

    assert_eq!(in_direction_of(start, Pos::new(0, 0)), Pos::new(0, 0));
    assert_eq!(in_direction_of(start, Pos::new(10, 10)), Pos::new(2, 2));
    assert_eq!(in_direction_of(start, Pos::new(10, 1)), Pos::new(2, 1));
    assert_eq!(in_direction_of(start, Pos::new(1, 10)), Pos::new(1, 2));
    assert_eq!(in_direction_of(start, Pos::new(1, -10)), Pos::new(1, 0));
    assert_eq!(in_direction_of(start, Pos::new(-10, 1)), Pos::new(0, 1));
    assert_eq!(in_direction_of(start, Pos::new(-10, -10)), Pos::new(0, 0));
}

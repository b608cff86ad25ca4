use roguelike_core::utils;
use roguelike_core::types::Pos;
use roguelike_core::utils::{distance, pos_mag, steps_apart};

#[test]
fn line_leaves_out_start_and_ends_at_end() {
    let points = utils::line(Pos::new(1, 1), Pos::new(5, 5));
    assert_eq!(
        points,
        vec![Pos::new(2, 2), Pos::new(3, 3), Pos::new(4, 4), Pos::new(5, 5)]
    );
}

#[test]
fn line_to_same_cell_is_empty() {
    assert_eq!(utils::line(Pos::new(3, 4), Pos::new(3, 4)), Vec::<Pos>::new());
}

#[test]
fn line_along_x_steps_sideways_at_half_a_cell() {
    let points = utils::line(Pos::new(0, 0), Pos::new(3, 1));
    assert_eq!(points, vec![Pos::new(1, 0), Pos::new(2, 1), Pos::new(3, 1)]);
}

#[test]
fn line_along_y_steps_sideways_at_half_a_cell() {
    let points = utils::line(Pos::new(0, 0), Pos::new(1, 3));
    assert_eq!(points, vec![Pos::new(0, 1), Pos::new(1, 2), Pos::new(1, 3)]);
}

#[test]
fn line_towards_smaller_coordinates() {
    let points = utils::line(Pos::new(0, 0), Pos::new(-3, -1));
    assert_eq!(points, vec![Pos::new(-1, 0), Pos::new(-2, -1), Pos::new(-3, -1)]);
}

#[test]
fn line_of_a_long_shallow_slope() {
    let points = utils::line(Pos::new(0, 0), Pos::new(7, 2));
    assert_eq!(
        points,
        vec![
            Pos::new(1, 0),
            Pos::new(2, 1),
            Pos::new(3, 1),
            Pos::new(4, 1),
            Pos::new(5, 1),
            Pos::new(6, 2),
            Pos::new(7, 2)
        ]
    );
}

#[test]
fn line_steps_are_neighbours_and_count_the_distance() {
    let start = Pos::new(-4, 7);
    for x in -12..12 {
        for y in -3..15 {
            let end = Pos::new(x, y);
            let points = utils::line(start, end);
            assert_eq!(points.len() as i32, distance(start, end));
            let mut last = start;
            for point in points.iter() {
                assert_eq!(distance(last, *point), 1);
                last = *point;
            }
            assert_eq!(last, end);
        }
    }
}

#[test]
fn distance_is_the_larger_axis_distance() {
    assert_eq!(distance(Pos::new(1, 1), Pos::new(4, 9)), 8);
    assert_eq!(distance(Pos::new(4, 9), Pos::new(1, 1)), 8);
    assert_eq!(distance(Pos::new(-3, 2), Pos::new(6, 0)), 9);
    assert_eq!(distance(Pos::new(2, 2), Pos::new(2, 2)), 0);
}

#[test]
fn pos_mag_is_the_distance_from_the_origin() {
    assert_eq!(pos_mag(Pos::new(3, -7)), 7);
    assert_eq!(pos_mag(Pos::new(0, 0)), 0);
}

#[test]
fn steps_apart_spans_the_whole_range() {
    assert_eq!(steps_apart(Pos::new(i32::MIN, 0), Pos::new(i32::MAX, 0)), 4294967295);
    assert_eq!(steps_apart(Pos::new(0, 5), Pos::new(0, -5)), 10);
}

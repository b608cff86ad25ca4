use roguelike_core::movement::{
    direction, Cardinal, Direction, Momentum, MoveMode, MoveResult, Movement, Reach, MAX_MOMENTUM,
};
use roguelike_core::types::Pos;
use roguelike_core::utils::reach_by_mode;

#[test]
fn direction_from_dxy_reads_the_signs() {
    assert_eq!(Direction::from_dxy(0, 0), Direction::Center);
    assert_eq!(Direction::from_dxy(0, -1), Direction::Up);
    assert_eq!(Direction::from_dxy(0, 4), Direction::Down);
    assert_eq!(Direction::from_dxy(1, 0), Direction::Right);
    assert_eq!(Direction::from_dxy(-7, 0), Direction::Left);
    assert_eq!(Direction::from_dxy(2, 3), Direction::DownRight);
    assert_eq!(Direction::from_dxy(2, -3), Direction::UpRight);
    assert_eq!(Direction::from_dxy(-2, 3), Direction::DownLeft);
    assert_eq!(Direction::from_dxy(-2, -3), Direction::UpLeft);
}

#[test]
fn direction_into_move_gives_the_unit_step() {
    assert_eq!(Direction::Left.into_move(), (-1, 0));
    assert_eq!(Direction::Right.into_move(), (1, 0));
    assert_eq!(Direction::Up.into_move(), (0, -1));
    assert_eq!(Direction::Down.into_move(), (0, 1));
    assert_eq!(Direction::DownLeft.into_move(), (-1, 1));
    assert_eq!(Direction::DownRight.into_move(), (1, 1));
    assert_eq!(Direction::UpLeft.into_move(), (-1, -1));
    assert_eq!(Direction::UpRight.into_move(), (1, -1));
    assert_eq!(Direction::Center.into_move(), (0, 0));
}

#[test]
fn direction_round_trip() {
    for dir in Direction::move_actions() {
        let (dx, dy) = dir.into_move();
        assert_eq!(Direction::from_dxy(dx, dy), dir);
    }
}

#[test]
fn move_actions_lists_all_nine() {
    assert_eq!(
        Direction::move_actions(),
        vec![
            Direction::Left,
            Direction::Right,
            Direction::Up,
            Direction::Down,
            Direction::DownLeft,
            Direction::DownRight,
            Direction::UpLeft,
            Direction::UpRight,
            Direction::Center
        ]
    );
}

#[test]
fn move_mode_steps_up_and_down() {
    assert_eq!(MoveMode::Sneak.increase(), MoveMode::Walk);
    assert_eq!(MoveMode::Walk.increase(), MoveMode::Run);
    assert_eq!(MoveMode::Run.increase(), MoveMode::Run);
    assert_eq!(MoveMode::Sneak.decrease(), MoveMode::Sneak);
    assert_eq!(MoveMode::Walk.decrease(), MoveMode::Sneak);
    assert_eq!(MoveMode::Run.decrease(), MoveMode::Walk);
}

#[test]
fn move_mode_words() {
    assert_eq!(MoveMode::Sneak.to_string(), "sneaking");
    assert_eq!(MoveMode::Walk.to_string(), "walking");
    assert_eq!(MoveMode::Run.to_string(), "running");
}

#[test]
fn reach_by_mode_runs_two_cells() {
    assert_eq!(reach_by_mode(MoveMode::Sneak), Reach::Single(1));
    assert_eq!(reach_by_mode(MoveMode::Walk), Reach::Single(1));
    assert_eq!(reach_by_mode(MoveMode::Run), Reach::Single(2));
}

#[test]
fn movement_xy_is_the_cell() {
    let pos = Pos::new(3, 4);
    assert_eq!(Movement::Move(pos).xy(), pos);
    assert_eq!(Movement::Pass(pos).xy(), pos);
    assert_eq!(Movement::Attack(pos, 7).xy(), pos);
    assert_eq!(Movement::Collide(pos).xy(), pos);
    assert_eq!(Movement::WallKick(pos, 1, -1).xy(), pos);
    assert_eq!(Movement::JumpWall(pos).xy(), pos);
}

#[test]
fn cardinal_from_dxy() {
    assert_eq!(Cardinal::from_dxy(None, 0, 0), None);
    assert_eq!(Cardinal::from_dxy(None, 0, -2), Some(Cardinal::Up));
    assert_eq!(Cardinal::from_dxy(None, 0, 2), Some(Cardinal::Down));
    assert_eq!(Cardinal::from_dxy(None, 2, 0), Some(Cardinal::Right));
    assert_eq!(Cardinal::from_dxy(None, -2, 0), Some(Cardinal::Left));
    assert_eq!(Cardinal::from_dxy(None, 1, 1), None);
    assert_eq!(Cardinal::from_dxy(Some(Cardinal::Up), 1, 1), Some(Cardinal::Right));
    assert_eq!(Cardinal::from_dxy(Some(Cardinal::Up), 1, -1), Some(Cardinal::Right));
    assert_eq!(Cardinal::from_dxy(Some(Cardinal::Down), -1, 1), Some(Cardinal::Left));
    assert_eq!(Cardinal::from_dxy(Some(Cardinal::Down), -1, -1), Some(Cardinal::Left));
}

#[test]
fn reach_single_moves_in_every_direction() {
    let reach = Reach::Single(2);
    assert_eq!(reach.move_with_reach(&Direction::Left), Some(Pos::new(-2, 0)));
    assert_eq!(reach.move_with_reach(&Direction::Right), Some(Pos::new(2, 0)));
    assert_eq!(reach.move_with_reach(&Direction::Up), Some(Pos::new(0, -2)));
    assert_eq!(reach.move_with_reach(&Direction::Down), Some(Pos::new(0, 2)));
    assert_eq!(reach.move_with_reach(&Direction::DownLeft), Some(Pos::new(-2, 2)));
    assert_eq!(reach.move_with_reach(&Direction::DownRight), Some(Pos::new(2, 2)));
    assert_eq!(reach.move_with_reach(&Direction::UpLeft), Some(Pos::new(-2, -2)));
    assert_eq!(reach.move_with_reach(&Direction::UpRight), Some(Pos::new(2, -2)));
    assert_eq!(reach.move_with_reach(&Direction::Center), Some(Pos::new(0, 0)));
}

#[test]
fn reach_diag_and_horiz_keep_to_their_lines() {
    let diag = Reach::Diag(3);
    assert_eq!(diag.move_with_reach(&Direction::Left), None);
    assert_eq!(diag.move_with_reach(&Direction::Down), None);
    assert_eq!(diag.move_with_reach(&Direction::UpLeft), Some(Pos::new(-3, -3)));
    assert_eq!(diag.move_with_reach(&Direction::DownRight), Some(Pos::new(3, 3)));
    assert_eq!(diag.move_with_reach(&Direction::Center), Some(Pos::new(0, 0)));

    let horiz = Reach::Horiz(3);
    assert_eq!(horiz.move_with_reach(&Direction::Left), Some(Pos::new(-3, 0)));
    assert_eq!(horiz.move_with_reach(&Direction::Up), Some(Pos::new(0, -3)));
    assert_eq!(horiz.move_with_reach(&Direction::UpLeft), None);
    assert_eq!(horiz.move_with_reach(&Direction::Center), None);
}

#[test]
fn reach_single_offsets_are_the_lines_to_its_eight_ends() {
    let offsets = Reach::Single(2).offsets();
    assert_eq!(
        offsets,
        vec![
            Pos::new(0, 1),
            Pos::new(0, 2),
            Pos::new(-1, 1),
            Pos::new(-2, 2),
            Pos::new(-1, 0),
            Pos::new(-2, 0),
            Pos::new(-1, -1),
            Pos::new(-2, -2),
            Pos::new(0, -1),
            Pos::new(0, -2),
            Pos::new(1, -1),
            Pos::new(2, -2),
            Pos::new(1, 0),
            Pos::new(2, 0),
            Pos::new(1, 1),
            Pos::new(2, 2)
        ]
    );
}

#[test]
fn reach_horiz_offsets_stop_below_the_distance() {
    assert_eq!(Reach::Horiz(1).offsets(), Vec::<Pos>::new());
    assert_eq!(
        Reach::Horiz(2).offsets(),
        vec![Pos::new(1, 0), Pos::new(0, 1), Pos::new(-1, 0), Pos::new(0, -1)]
    );
    assert_eq!(Reach::Horiz(3).offsets().len(), 4 + 8);
}

#[test]
fn reach_diag_offsets_stop_below_the_distance() {
    assert_eq!(Reach::Diag(0).offsets(), Vec::<Pos>::new());
    assert_eq!(
        Reach::Diag(2).offsets(),
        vec![Pos::new(1, 1), Pos::new(-1, 1), Pos::new(1, -1), Pos::new(-1, -1)]
    );
}

#[test]
fn momentum_starts_at_rest() {
    let mut momentum = Momentum::default();
    assert_eq!(momentum, Momentum { mx: 0, my: 0, max: MAX_MOMENTUM });
    assert!(!momentum.running());
    assert!(!momentum.at_maximum());
    assert!(!momentum.diagonal());
    assert_eq!(momentum.magnitude(), 0);
}

#[test]
fn momentum_builds_up_and_is_lost() {
    let mut momentum = Momentum::default();
    momentum.moved(1, 0);
    assert_eq!((momentum.mx, momentum.my), (1, 0));
    assert!(momentum.running());
    momentum.moved(5, -3);
    assert_eq!((momentum.mx, momentum.my), (2, -1));
    assert!(momentum.diagonal());
    assert!(momentum.at_maximum());
    momentum.moved(1, -1);
    assert_eq!((momentum.mx, momentum.my), (2, -2));
    assert_eq!(momentum.magnitude(), 2);
    momentum.moved(-1, 0);
    assert_eq!((momentum.mx, momentum.my), (0, 0));
}

#[test]
fn momentum_along_and_reset() {
    let mut momentum = Momentum::default();
    momentum.set_momentum(2, -1);
    assert!(momentum.along(1, 0));
    assert!(momentum.along(0, -1));
    assert!(!momentum.along(-1, 0));
    assert!(!momentum.along(0, 0));
    momentum.clear();
    assert_eq!(momentum, Momentum { mx: 0, my: 0, max: MAX_MOMENTUM });
}

#[test]
fn move_result_with_pos_has_no_collision() {
    let result = MoveResult::with_pos(Pos::new(2, 3));
    assert_eq!(result.move_pos, Pos::new(2, 3));
    assert!(result.no_collsion());
    let hit = MoveResult { entity: Some(4), blocked: None, move_pos: Pos::new(2, 3) };
    assert!(!hit.no_collsion());
}

#[test]
fn direction_of_a_value_is_its_sign() {
    assert_eq!(direction(0), 0);
    assert_eq!(direction(17), 1);
    assert_eq!(direction(-17), -1);
}

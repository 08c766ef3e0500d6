use maze_raycaster::caster::SUBUNITS;
use maze_raycaster::player::{
    floor_div, wrap_angle, Controls, Player, SoundAction, CENTER_ZONE_LEFT, CENTER_ZONE_RIGHT,
    FULL_TURN, KEY_TURN, MAX_ANGLE, MOUSE_TURN,
};

const U: i64 = SUBUNITS;

fn grid(rows: &[&str]) -> Vec<Vec<char>> {
    rows.iter().map(|r| r.chars().collect()).collect()
}

fn idle() -> Controls {
    Controls {
        turn_left: false,
        turn_right: false,
        forward: false,
        backward: false,
        run: false,
        mouse_x: None,
        sound_ended: false,
    }
}

fn at(x: i64, y: i64) -> Player {
    Player::new(x * U, y * U, 0, 897_598)
}

#[test]
fn new_player_has_the_defaults() {
    let p = Player::new(75 * U, 75 * U, 1_047_198, 897_598);
    assert_eq!((p.x, p.y, p.a, p.fov), (75 * U, 75 * U, 1_047_198, 897_598));
    assert_eq!((p.move_speed, p.run_multiplier), (3, 2));
    assert!(!p.mouse_control);
    assert!(!p.sound_on);
}

#[test]
fn new_player_keeps_the_angles_it_is_handed() {
    for (a, fov) in [
        (-1, -1),
        (FULL_TURN, FULL_TURN),
        (3 * FULL_TURN + 5, FULL_TURN + 1),
        (0, 0),
        (i64::MIN, i64::MAX),
        (i64::MAX, i64::MIN),
    ] {
        let p = Player::new(0, 0, a, fov);
        assert_eq!((p.a, p.fov), (a, fov));
    }
}

#[test]
fn angles_wrap_like_a_remainder() {
    assert_eq!(FULL_TURN, 6_283_185);
    assert_eq!(wrap_angle(0), 0);
    assert_eq!(wrap_angle(FULL_TURN - 1), FULL_TURN - 1);
    assert_eq!(wrap_angle(FULL_TURN), 0);
    assert_eq!(wrap_angle(-FULL_TURN), 0);
    assert_eq!(wrap_angle(-FULL_TURN - 1), FULL_TURN - 1);
    assert_eq!(wrap_angle(i64::MAX), i64::MAX.rem_euclid(FULL_TURN));
    assert_eq!(wrap_angle(i64::MIN), i64::MIN.rem_euclid(FULL_TURN));
}

#[test]
fn keys_turn_the_player() {
    let mut p = at(0, 0);
    p.turn(&Controls { turn_right: true, ..idle() });
    assert_eq!(p.a, KEY_TURN);
    p.turn(&Controls { turn_left: true, ..idle() });
    assert_eq!(p.a, 0);
    p.turn(&Controls { turn_left: true, ..idle() });
    assert_eq!(p.a, -44_880);
    p.turn(&Controls { turn_left: true, turn_right: true, ..idle() });
    assert_eq!(p.a, -44_880);
    p.turn(&idle());
    assert_eq!(p.a, -44_880);
    p.turn(&Controls { turn_right: true, ..idle() });
    p.turn(&Controls { turn_right: true, ..idle() });
    assert_eq!(p.a, 44_880);
    for _ in 0..200 {
        p.turn(&Controls { turn_right: true, ..idle() });
    }
    // More than a full turn: the heading is the plain sum.
    assert_eq!(p.a, 201 * 44_880);
    assert_eq!((p.x, p.y, p.fov), (0, 0, 897_598));
}

#[test]
fn a_heading_too_large_to_hold_is_brought_into_one_turn() {
    let mut p = Player::new(0, 0, MAX_ANGLE, 0);
    p.turn(&idle());
    assert_eq!(p.a, MAX_ANGLE);
    p.turn(&Controls { turn_left: true, ..idle() });
    assert_eq!(p.a, MAX_ANGLE - 44_880);
    let mut p = Player::new(0, 0, MAX_ANGLE, 0);
    p.turn(&Controls { turn_right: true, ..idle() });
    assert_eq!(p.a, (MAX_ANGLE + 44_880).rem_euclid(FULL_TURN));
    let mut p = Player::new(0, 0, -MAX_ANGLE, 0);
    p.mouse_control = true;
    p.turn(&Controls { mouse_x: Some(0), ..idle() });
    assert_eq!(p.a, (-MAX_ANGLE - 50_000).rem_euclid(FULL_TURN));
    assert!(0 <= p.a && p.a < FULL_TURN);
}

#[test]
fn mouse_turns_the_player_only_when_in_control() {
    let left = Controls { mouse_x: Some(100 * U), ..idle() };
    let right = Controls { mouse_x: Some(1000 * U), ..idle() };
    let mut p = at(0, 0);
    p.turn(&left);
    p.turn(&right);
    assert_eq!(p.a, 0);
    p.mouse_control = true;
    p.turn(&right);
    assert_eq!(p.a, MOUSE_TURN);
    p.turn(&right);
    assert_eq!(p.a, 100_000);
    p.turn(&left);
    assert_eq!(p.a, 50_000);
    p.turn(&idle());
    assert_eq!(p.a, 50_000);
    p.turn(&Controls { mouse_x: Some(1000 * U), turn_left: true, ..idle() });
    assert_eq!(p.a, 50_000 + 50_000 - 44_880);
}

#[test]
fn mouse_in_the_centre_zone_turns_nothing() {
    assert_eq!((CENTER_ZONE_LEFT, CENTER_ZONE_RIGHT), (432 * U, 648 * U));
    let mut p = at(0, 0);
    p.mouse_control = true;
    for x in [432 * U, 540 * U, 648 * U] {
        p.turn(&Controls { mouse_x: Some(x), ..idle() });
        assert_eq!(p.a, 0);
    }
    p.turn(&Controls { mouse_x: Some(648 * U + 1), ..idle() });
    assert_eq!(p.a, 50_000);
    p.turn(&Controls { mouse_x: Some(432 * U - 1), ..idle() });
    assert_eq!(p.a, 0);
}

#[test]
fn rays_fan_out_over_the_field_of_view() {
    let p = Player::new(0, 0, 1_047_198, 897_598);
    assert_eq!(p.ray_angle(0, 390), 1_047_198 - 448_799);
    assert_eq!(p.ray_angle(195, 390), 1_047_198);
    assert_eq!(p.ray_angle(389, 390), 1_047_198 - 448_799 + 895_296);
    assert_eq!(p.ray_angle(1, 5), 1_047_198 - 448_799 + 179_519);
    assert_eq!(p.ray_angle(4, 5), 1_047_198 - 448_799 + 718_078);
    let q = Player::new(0, 0, 0, FULL_TURN);
    assert_eq!(q.ray_angle(0, 1), -3_141_592);
    assert_eq!(q.ray_angle(usize::MAX - 1, usize::MAX), 3_141_592);
}

#[test]
fn current_tile_is_the_cell_under_the_player() {
    let maze = grid(&["+-+", "|sg"]);
    assert_eq!(at(15, 15).get_current_tile(&maze, 10), Some('s'));
    assert_eq!(at(29, 19).get_current_tile(&maze, 10), Some('g'));
    assert_eq!(at(0, 0).get_current_tile(&maze, 10), Some('+'));
    assert_eq!(Player::new(10 * U - 1, 0, 0, 0).get_current_tile(&maze, 10), Some('+'));
    assert_eq!(Player::new(10 * U, 0, 0, 0).get_current_tile(&maze, 10), Some('-'));
}

#[test]
fn current_tile_outside_the_grid_is_none() {
    let maze = grid(&["+-+", "|sg"]);
    assert_eq!(at(30, 5).get_current_tile(&maze, 10), None);
    assert_eq!(at(5, 20).get_current_tile(&maze, 10), None);
    assert_eq!(Player::new(-1, 0, 0, 0).get_current_tile(&maze, 10), None);
    assert_eq!(Player::new(0, -1, 0, 0).get_current_tile(&maze, 10), None);
    assert_eq!(Player::new(i64::MAX, i64::MAX, 0, 0).get_current_tile(&maze, 10), None);
    assert_eq!(at(0, 0).get_current_tile(&Vec::new(), 10), None);
}

#[test]
fn walking_forwards_starts_the_sound() {
    let maze = grid(&["     "]);
    let mut p = at(5, 5);
    let action = p.process_events(&Controls { forward: true, ..idle() }, U, 0, &maze, 10);
    assert_eq!(action, SoundAction::Start);
    assert_eq!((p.x, p.y), (8 * U, 5 * U));
    assert!(p.sound_on);
    let action = p.process_events(&Controls { forward: true, ..idle() }, U, 0, &maze, 10);
    assert_eq!(action, SoundAction::Keep);
    assert_eq!((p.x, p.y), (11 * U, 5 * U));
    assert!(p.sound_on);
}

#[test]
fn standing_stops_a_running_sound() {
    let maze = grid(&["     "]);
    let mut p = at(5, 5);
    assert_eq!(p.process_events(&idle(), U, 0, &maze, 10), SoundAction::Keep);
    p.sound_on = true;
    assert_eq!(p.process_events(&idle(), U, 0, &maze, 10), SoundAction::Stop);
    assert!(!p.sound_on);
    assert_eq!((p.x, p.y), (5 * U, 5 * U));
    // A sound that has run out is left alone.
    p.sound_on = true;
    let ended = Controls { sound_ended: true, ..idle() };
    assert_eq!(p.process_events(&ended, U, 0, &maze, 10), SoundAction::Keep);
    assert!(p.sound_on);
}

#[test]
fn running_multiplies_the_speed() {
    let maze = grid(&["     "]);
    let mut p = at(5, 5);
    p.process_events(&Controls { forward: true, run: true, ..idle() }, U, 0, &maze, 10);
    assert_eq!((p.x, p.y), (11 * U, 5 * U));
    p.move_speed = 4;
    p.run_multiplier = 5;
    p.process_events(&Controls { backward: true, run: true, ..idle() }, 0, U, &maze, 10);
    assert_eq!((p.x, p.y), (11 * U, 5 * U));
    p.process_events(&Controls { forward: true, run: true, ..idle() }, U, 0, &maze, 10);
    assert_eq!((p.x, p.y), (31 * U, 5 * U));
}

#[test]
fn walking_along_a_diagonal() {
    let maze = grid(&["  ", "  "]);
    let mut p = at(5, 5);
    p.process_events(&Controls { forward: true, ..idle() }, 46341, -46341, &maze, 10);
    assert_eq!((p.x, p.y), (5 * U + 3 * 46341, 5 * U - 3 * 46341));
    p.process_events(&Controls { backward: true, ..idle() }, 46341, -46341, &maze, 10);
    assert_eq!((p.x, p.y), (5 * U, 5 * U));
}

#[test]
fn a_wall_ends_the_walk() {
    let maze = grid(&[" | "]);
    let mut p = at(8, 5);
    p.sound_on = true;
    // Blocked: nothing moves, and the sound is left as it is.
    let action = p.process_events(&Controls { forward: true, ..idle() }, U, 0, &maze, 10);
    assert_eq!(action, SoundAction::Keep);
    assert_eq!((p.x, p.y), (8 * U, 5 * U));
    assert!(p.sound_on);
    let mut p = at(21, 5);
    let action = p.process_events(&Controls { backward: true, ..idle() }, U, 0, &maze, 10);
    assert_eq!(action, SoundAction::Keep);
    assert_eq!((p.x, p.y), (21 * U, 5 * U));
    assert!(!p.sound_on);
}

#[test]
fn the_edge_of_the_grid_ends_the_walk() {
    let maze = grid(&["   "]);
    let mut p = at(1, 5);
    p.process_events(&Controls { backward: true, ..idle() }, U, 0, &maze, 10);
    assert_eq!((p.x, p.y), (U, 5 * U));
    let mut p = at(28, 5);
    p.process_events(&Controls { forward: true, ..idle() }, U, 0, &maze, 10);
    assert_eq!((p.x, p.y), (28 * U, 5 * U));
    let mut p = Player::new(i64::MAX, i64::MIN, 0, 0);
    p.move_speed = u32::MAX;
    p.run_multiplier = u32::MAX;
    let all = Controls { forward: true, backward: true, run: true, ..idle() };
    assert_eq!(p.process_events(&all, U, -U, &maze, 10), SoundAction::Keep);
    assert_eq!((p.x, p.y), (i64::MAX, i64::MIN));
}

#[test]
fn start_and_goal_cells_can_be_walked_through() {
    let maze = grid(&[" sg "]);
    let mut p = at(8, 5);
    for _ in 0..7 {
        p.process_events(&Controls { forward: true, ..idle() }, U, 0, &maze, 10);
    }
    assert_eq!((p.x, p.y), (29 * U, 5 * U));
}

#[test]
fn forwards_and_backwards_in_one_frame() {
    let maze = grid(&["   |"]);
    let both = Controls { forward: true, backward: true, ..idle() };
    let mut p = at(15, 5);
    assert_eq!(p.process_events(&both, U, 0, &maze, 10), SoundAction::Start);
    assert_eq!((p.x, p.y), (15 * U, 5 * U));
    // Forwards into the wall: the walk ends before the step back.
    let mut p = at(28, 5);
    assert_eq!(p.process_events(&both, U, 0, &maze, 10), SoundAction::Keep);
    assert_eq!((p.x, p.y), (28 * U, 5 * U));
    // Forwards out of a wall, backwards into it again: the step forwards
    // stays, and the sound is left as it is.
    let mut p = at(31, 5);
    p.sound_on = true;
    assert_eq!(p.process_events(&both, -U, 0, &maze, 10), SoundAction::Keep);
    assert_eq!((p.x, p.y), (28 * U, 5 * U));
    assert!(p.sound_on);
    let mut p = at(31, 5);
    assert_eq!(p.process_events(&both, -U, 0, &maze, 10), SoundAction::Keep);
    assert_eq!((p.x, p.y), (28 * U, 5 * U));
    assert!(!p.sound_on);
}

#[test]
fn ray_angles_list_the_fan() {
    let p = Player::new(0, 0, 100, 1000);
    assert_eq!(p.ray_angles(0), Vec::<i64>::new());
    assert_eq!(p.ray_angles(1), vec![-400]);
    assert_eq!(p.ray_angles(4), vec![-400, -150, 100, 350]);
    assert_eq!(p.ray_angles(3), vec![-400, -67, 266]);
}

#[test]
fn a_negative_field_of_view_fans_the_other_way() {
    let p = Player::new(0, 0, 100, -1000);
    // a - fov / 2 + fov * i / n, each quotient rounded down.
    assert_eq!(p.ray_angles(4), vec![600, 350, 100, -150]);
    assert_eq!(p.ray_angles(3), vec![600, 266, -67]);
    let p = Player::new(0, 0, 0, -1);
    assert_eq!(p.ray_angle(0, 2), 1);
    assert_eq!(p.ray_angle(1, 2), 0);
    let p = Player::new(0, 0, 0, 3 * FULL_TURN);
    assert_eq!(p.ray_angle(1, 3), -9_424_777 + FULL_TURN);
}

#[test]
fn the_largest_angles_fan_without_overflow() {
    let p = Player::new(0, 0, MAX_ANGLE, MAX_ANGLE);
    assert_eq!(p.ray_angle(0, 1), MAX_ANGLE / 2);
    assert_eq!(p.ray_angle(usize::MAX - 1, usize::MAX), MAX_ANGLE / 2 + MAX_ANGLE - 1);
    let p = Player::new(0, 0, -MAX_ANGLE, -MAX_ANGLE);
    assert_eq!(p.ray_angle(0, 1), -MAX_ANGLE / 2);
    assert_eq!(p.ray_angle(usize::MAX - 1, usize::MAX), -MAX_ANGLE / 2 - MAX_ANGLE);
}

#[test]
fn floor_division_rounds_down() {
    assert_eq!(floor_div(7, 2), 3);
    assert_eq!(floor_div(-7, 2), -4);
    assert_eq!(floor_div(-8, 2), -4);
    assert_eq!(floor_div(-1, 1000), -1);
    assert_eq!(floor_div(0, 5), 0);
    assert_eq!(floor_div(i128::MAX, 1), i128::MAX);
    assert_eq!(floor_div(i128::MIN + 1, i128::MAX), -1);
    for n in -50i128..50 {
        for d in 1i128..9 {
            assert_eq!(floor_div(n, d), n.div_euclid(d));
        }
    }
}

use raycaster::caster::{ray_probe, Orientation};
use raycaster::player::{can_move_to, move_allowed, player_command, KeyState};

fn maze() -> Vec<Vec<char>> {
    vec![
        vec!['+', '-', '+'],
        vec!['|', ' ', 'E'],
        vec!['+', '-', '+'],
    ]
}

#[test]
fn walls_block_and_open_cells_do_not() {
    let m = maze();
    assert!(can_move_to(&m, 1, 1));
    assert!(can_move_to(&m, 2, 1));
    assert!(!can_move_to(&m, 0, 0));
    assert!(!can_move_to(&m, 1, 0));
    assert!(!can_move_to(&m, 0, 1));
}

#[test]
fn outside_the_maze_is_blocked() {
    let m = maze();
    assert!(!can_move_to(&m, 3, 1));
    assert!(!can_move_to(&m, 1, 3));
    assert!(!can_move_to(&Vec::new(), 0, 0));
}

#[test]
fn moves_within_a_cell_are_always_allowed() {
    let m = maze();
    assert!(move_allowed(&m, (0, 0), (0, 0)));
    assert!(move_allowed(&m, (1, 1), (1, 1)));
}

#[test]
fn moves_between_cells_follow_the_target() {
    let m = maze();
    assert!(move_allowed(&m, (1, 1), (2, 1)));
    assert!(!move_allowed(&m, (1, 1), (0, 1)));
    assert!(!move_allowed(&m, (1, 1), (1, 7)));
}

#[test]
fn keys_to_command() {
    let none = KeyState {
        space: false, left: false, right: false, up: false, down: false,
        a: false, d: false, w: false, s: false,
    };
    let c = player_command(&none);
    assert_eq!(c.speed, 5);
    assert!(!c.turn_left && !c.turn_right && !c.forward && !c.backward);

    let c = player_command(&KeyState { space: true, a: true, up: true, ..none });
    assert_eq!(c.speed, 15);
    assert!(c.turn_left && !c.turn_right && c.forward && !c.backward);

    let c = player_command(&KeyState { right: true, s: true, ..none });
    assert!(!c.turn_left && c.turn_right && !c.forward && c.backward);

    let c = player_command(&KeyState { d: true, down: true, w: true, left: true, ..none });
    assert!(c.turn_left && c.turn_right && c.forward && c.backward);
}

#[test]
fn ray_stops_on_walls_and_exit() {
    let m = vec![vec!['+', '-'], vec![' ', 'E']];
    assert_eq!(ray_probe(&m, 5, 5, 10), Some('+'));
    assert_eq!(ray_probe(&m, 15, 9, 10), Some('-'));
    assert_eq!(ray_probe(&m, 15, 15, 10), Some('E'));
}

#[test]
fn ray_goes_on_through_empty_cells() {
    let m = vec![vec!['+', '-'], vec![' ', 'E']];
    assert_eq!(ray_probe(&m, 5, 15, 10), None);
    assert_eq!(ray_probe(&m, 9, 19, 10), None);
}

#[test]
fn ray_past_the_edge_meets_a_blank() {
    let m = vec![vec!['+', '-'], vec![' ']];
    assert_eq!(ray_probe(&m, 25, 5, 10), Some(' '));
    assert_eq!(ray_probe(&m, 15, 15, 10), Some(' '));
    assert_eq!(ray_probe(&m, 5, 25, 10), Some(' '));
}

#[test]
fn orientation_values() {
    assert_ne!(Orientation::Vertical, Orientation::Horizontal);
}

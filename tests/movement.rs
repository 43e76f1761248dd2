use raycaster::fan::{Pose, TURN};
use raycaster::grid::GridMap;
use raycaster::movement::{move_player, Intent, MIN_CLEARANCE};
use raycaster::raycast::{Dir, Point, CELL};

fn walled(w: usize, h: usize) -> GridMap {
    let mut cells = vec![0u8; w * h];
    for r in 0..h {
        for c in 0..w {
            if r == 0 || c == 0 || r == h - 1 || c == w - 1 {
                cells[r * w + c] = 1;
            }
        }
    }
    GridMap::new(w, h, cells).unwrap()
}

fn idle() -> Intent {
    Intent {
        forward: false,
        back: false,
        strafe_left: false,
        strafe_right: false,
        turn_left: false,
        turn_right: false,
    }
}

#[test]
fn blocked_axis_stays_and_other_axis_slides() {
    let m = walled(4, 4);
    let start = Point { x: 3 * CELL - 1000, y: 98304 };
    let mut pose = Pose { pos: start, heading: 0 };
    let intent = Intent { forward: true, ..idle() };
    move_player(&m, &mut pose, intent, Dir { dx: 5000, dy: 300 }, 0);
    assert_eq!(pose.pos.x, start.x);
    assert_eq!(pose.pos.y, start.y + 300);
}

#[test]
fn clearance_just_over_a_tenth_of_a_cell_allows_the_move() {
    let m = walled(4, 4);
    let start = Point { x: 3 * CELL - MIN_CLEARANCE, y: 98304 };
    let mut pose = Pose { pos: start, heading: 0 };
    move_player(&m, &mut pose, Intent { forward: true, ..idle() }, Dir { dx: 10, dy: 0 }, 0);
    assert_eq!(pose.pos.x, start.x + 10);
    let mut closer = Pose { pos: Point { x: start.x + 1, y: start.y }, heading: 0 };
    move_player(&m, &mut closer, Intent { forward: true, ..idle() }, Dir { dx: 10, dy: 0 }, 0);
    assert_eq!(closer.pos.x, start.x + 1);
}

#[test]
fn free_moves_and_strafes() {
    let m = walled(4, 4);
    let start = Point { x: 2 * CELL, y: 2 * CELL };
    let mut pose = Pose { pos: start, heading: 0 };
    move_player(&m, &mut pose, Intent { forward: true, ..idle() }, Dir { dx: 5000, dy: 0 }, 0);
    assert_eq!(pose.pos, Point { x: start.x + 5000, y: start.y });
    move_player(&m, &mut pose, Intent { back: true, ..idle() }, Dir { dx: 5000, dy: 0 }, 0);
    assert_eq!(pose.pos, start);
    // heading east: strafing right moves south, strafing left north
    move_player(&m, &mut pose, Intent { strafe_right: true, ..idle() }, Dir { dx: 400, dy: 0 }, 0);
    assert_eq!(pose.pos, Point { x: start.x, y: start.y - 400 });
    move_player(&m, &mut pose, Intent { strafe_left: true, ..idle() }, Dir { dx: 400, dy: 0 }, 0);
    assert_eq!(pose.pos, start);
}

#[test]
fn blocked_moving_west_and_south() {
    let m = walled(4, 4);
    let start = Point { x: CELL + 10, y: CELL + 20 };
    let mut pose = Pose { pos: start, heading: 0 };
    move_player(&m, &mut pose, Intent { back: true, ..idle() }, Dir { dx: 100, dy: 100 }, 0);
    assert_eq!(pose.pos, start);
}

#[test]
fn turning_wraps_around_a_full_turn() {
    let m = walled(4, 4);
    let mut pose = Pose { pos: Point { x: 2 * CELL, y: 2 * CELL }, heading: TURN - 5 };
    move_player(&m, &mut pose, Intent { turn_left: true, ..idle() }, Dir { dx: 0, dy: 0 }, 10);
    assert_eq!(pose.heading, 5);
    pose.heading = 3;
    move_player(&m, &mut pose, Intent { turn_right: true, ..idle() }, Dir { dx: 0, dy: 0 }, 10);
    assert_eq!(pose.heading, TURN - 7);
    move_player(&m, &mut pose, Intent { turn_right: true, turn_left: true, ..idle() }, Dir { dx: 0, dy: 0 }, 10);
    assert_eq!(pose.heading, TURN - 7);
}

#[test]
fn open_map_lets_the_pose_leave_the_world() {
    let m = GridMap::new(2, 2, vec![0; 4]).unwrap();
    let mut pose = Pose { pos: Point { x: 2 * CELL - 5, y: 10 }, heading: 0 };
    move_player(&m, &mut pose, Intent { forward: true, ..idle() }, Dir { dx: 100, dy: -100 }, 0);
    assert_eq!(pose.pos, Point { x: 2 * CELL + 95, y: -90 });
    // from outside the world square casting still works: nothing is met
    move_player(&m, &mut pose, Intent { forward: true, ..idle() }, Dir { dx: 100, dy: -100 }, 0);
    assert_eq!(pose.pos, Point { x: 2 * CELL + 195, y: -190 });
}

#[test]
fn ample_clearance_lets_a_long_stride_through() {
    let m = walled(3, 3);
    let start = Point { x: 3 * CELL / 2, y: 3 * CELL / 2 };
    let mut east = Pose { pos: start, heading: 0 };
    move_player(&m, &mut east, Intent { forward: true, ..idle() }, Dir { dx: 2 * CELL, dy: 0 }, 0);
    assert_eq!(east.pos, Point { x: start.x + 2 * CELL, y: start.y });
    let mut north = Pose { pos: start, heading: 0 };
    move_player(&m, &mut north, Intent { forward: true, ..idle() }, Dir { dx: 0, dy: 2 * CELL }, 0);
    assert_eq!(north.pos, Point { x: start.x, y: start.y + 2 * CELL });
}

#[test]
fn large_turns_wrap_modulo_a_full_turn() {
    let m = walled(4, 4);
    let mut pose = Pose { pos: Point { x: 2 * CELL, y: 2 * CELL }, heading: 100 };
    move_player(&m, &mut pose, Intent { turn_right: true, ..idle() }, Dir { dx: 0, dy: 0 }, 3 * TURN + 150);
    assert_eq!(pose.heading, TURN - 50);
}

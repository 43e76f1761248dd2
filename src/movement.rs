use vstd::prelude::*;
use vstd::arithmetic::div_mod::lemma_mod_multiples_vanish;
use crate::grid::GridMap;
use crate::raycast::{calc_dist_to_wall, cast, dir_ok, in_range, Dir, Point, CELL, COORD_LIMIT, DIR_LIMIT};
use crate::fan::{pose_ok, Pose, ANGLE_LIMIT, TURN};

verus! {

/// Movement along an axis needs the wall ahead on that axis to be farther
/// than a tenth of a cell (6553.6 units); for the whole-unit distances of the
/// axis rays that is a distance of at least this.
pub const MIN_CLEARANCE: i64 = 6554;

/// The movement and turn keys held during one tick.
#[derive(Clone, Copy, Debug, PartialEq, Eq, Structural)]
pub struct Intent {
    pub forward: bool,
    pub back: bool,
    pub strafe_left: bool,
    pub strafe_right: bool,
    pub turn_left: bool,
    pub turn_right: bool,
}

pub open spec fn east() -> Dir {
    Dir { dx: 1, dy: 0 }
}

pub open spec fn north() -> Dir {
    Dir { dx: 0, dy: 1 }
}

pub open spec fn west() -> Dir {
    Dir { dx: -1i64, dy: 0 }
}

pub open spec fn south() -> Dir {
    Dir { dx: 0, dy: -1i64 }
}

/// No wall nearer than `MIN_CLEARANCE` along the axis direction `d`.
pub open spec fn clear(m: GridMap, p: Point, d: Dir) -> bool {
    match cast(m, p, d) {
        None => true,
        Some(h) => h.t_num >= MIN_CLEARANCE * h.t_den,
    }
}

/// Intended displacement along x. `stride` is the heading's unit vector
/// scaled by the distance of one tick: forward adds it, back subtracts it,
/// and strafing right adds it turned a quarter clockwise.
pub open spec fn x_move(intent: Intent, stride: Dir) -> int {
    (if intent.forward { stride.dx as int } else { 0 }) - (if intent.back {
        stride.dx as int
    } else {
        0
    }) + (if intent.strafe_right { stride.dy as int } else { 0 }) - (if intent.strafe_left {
        stride.dy as int
    } else {
        0
    })
}

/// Intended displacement along y (see `x_move`).
pub open spec fn y_move(intent: Intent, stride: Dir) -> int {
    (if intent.forward { stride.dy as int } else { 0 }) - (if intent.back {
        stride.dy as int
    } else {
        0
    }) - (if intent.strafe_right { stride.dx as int } else { 0 }) + (if intent.strafe_left {
        stride.dx as int
    } else {
        0
    })
}

/// The x displacement is applied: it points at an axis direction whose
/// clearance is at least `MIN_CLEARANCE`. The new position must also stay in
/// range, a machine limit that no map reaches.
pub open spec fn x_allowed(m: GridMap, p: Point, dx: int) -> bool {
    &&& (dx > 0 && clear(m, p, east())) || (dx < 0 && clear(m, p, west()))
    &&& -COORD_LIMIT <= p.x + dx <= COORD_LIMIT
}

pub open spec fn y_allowed(m: GridMap, p: Point, dy: int) -> bool {
    &&& (dy > 0 && clear(m, p, north())) || (dy < 0 && clear(m, p, south()))
    &&& -COORD_LIMIT <= p.y + dy <= COORD_LIMIT
}

pub open spec fn moved_x(m: GridMap, p: Point, intent: Intent, stride: Dir) -> int {
    if x_allowed(m, p, x_move(intent, stride)) {
        p.x + x_move(intent, stride)
    } else {
        p.x as int
    }
}

pub open spec fn moved_y(m: GridMap, p: Point, intent: Intent, stride: Dir) -> int {
    if y_allowed(m, p, y_move(intent, stride)) {
        p.y + y_move(intent, stride)
    } else {
        p.y as int
    }
}

/// Heading after a tick: turning left adds `turn`, turning right subtracts
/// it, taken modulo a full turn.
pub open spec fn turned(heading: int, intent: Intent, turn: int) -> int {
    (heading + (if intent.turn_left { turn } else { 0 }) - (if intent.turn_right {
        turn
    } else {
        0
    })) % (TURN as int)
}

/// The pose after one tick.
pub open spec fn moved(m: GridMap, pose: Pose, intent: Intent, stride: Dir, turn: int) -> Pose {
    Pose {
        pos: Point {
            x: moved_x(m, pose.pos, intent, stride) as i64,
            y: moved_y(m, pose.pos, intent, stride) as i64,
        },
        heading: turned(pose.heading as int, intent, turn) as i64,
    }
}

/// Whether the wall along axis direction `d` is at least `MIN_CLEARANCE` away.
fn clearance_ok(m: &GridMap, p: Point, d: Dir) -> (r: bool)
    requires
        m.wf(),
        in_range(p),
        dir_ok(d),
    ensures
        r == clear(*m, p, d),
{
    match calc_dist_to_wall(m, p, d) {
        None => true,
        Some(h) => {
            proof {
                assert(0 <= MIN_CLEARANCE * h.t_den <= CELL * DIR_LIMIT) by (nonlinear_arith)
                    requires
                        1 <= h.t_den <= DIR_LIMIT,
            ;
            }
            h.t_num >= MIN_CLEARANCE * h.t_den
        },
    }
}

/// The intended displacement of one tick.
fn displacement(intent: Intent, stride: Dir) -> (r: (i64, i64))
    requires
        dir_ok(stride),
    ensures
        r.0 == x_move(intent, stride),
        r.1 == y_move(intent, stride),
{
    let mut xm: i64 = 0;
    let mut ym: i64 = 0;
    if intent.forward {
        xm = xm + stride.dx;
        ym = ym + stride.dy;
    }
    if intent.back {
        xm = xm - stride.dx;
        ym = ym - stride.dy;
    }
    if intent.strafe_right {
        xm = xm + stride.dy;
        ym = ym - stride.dx;
    }
    if intent.strafe_left {
        xm = xm - stride.dy;
        ym = ym + stride.dx;
    }
    (xm, ym)
}

/// Advances the pose by one tick of `intent`. `stride` is the heading's unit
/// vector scaled by the tick's travel distance and `turn` the tick's turn in
/// angle ticks. Clearances are cast from the current position along the four
/// world axes; each axis of the displacement is applied on its own, so a move
/// into a wall still slides along it.
pub fn move_player(m: &GridMap, pose: &mut Pose, intent: Intent, stride: Dir, turn: i64)
    requires
        m.wf(),
        pose_ok(*m, *old(pose)),
        dir_ok(stride),
        0 <= turn <= ANGLE_LIMIT,
    ensures
        *final(pose) == moved(*m, *old(pose), intent, stride, turn as int),
        pose_ok(*m, *final(pose)),
{
    let p = pose.pos;
    let east_ok = clearance_ok(m, p, Dir { dx: 1, dy: 0 });
    let north_ok = clearance_ok(m, p, Dir { dx: 0, dy: 1 });
    let west_ok = clearance_ok(m, p, Dir { dx: -1, dy: 0 });
    let south_ok = clearance_ok(m, p, Dir { dx: 0, dy: -1 });
    let (xm, ym) = displacement(intent, stride);
    if ((xm > 0 && east_ok) || (xm < 0 && west_ok)) && -COORD_LIMIT <= p.x + xm && p.x + xm <= COORD_LIMIT {
        pose.pos.x = p.x + xm;
    }
    if ((ym > 0 && north_ok) || (ym < 0 && south_ok)) && -COORD_LIMIT <= p.y + ym && p.y + ym <= COORD_LIMIT {
        pose.pos.y = p.y + ym;
    }
    let left: i64 = if intent.turn_left { turn } else { 0 };
    let right: i64 = if intent.turn_right { turn } else { 0 };
    let sum: i64 = pose.heading + left - right;
    proof {
        lemma_mod_multiples_vanish(2097152, sum as int, TURN as int);
    }
    // Shifted by a whole number of turns to take the remainder of a
    // non-negative value.
    pose.heading = (sum + 2199023255552) % TURN;
}

/// Wall sliding: an axis whose displacement points at a wall nearer than
/// `MIN_CLEARANCE` keeps its coordinate, and the other axis moves exactly as
/// its own clearance and displacement decide, whatever happened to the first.
pub proof fn lemma_wall_sliding(
    m: GridMap,
    pose: Pose,
    intent: Intent,
    stride: Dir,
    turn: int,
)
    requires
        m.wf(),
        pose_ok(m, pose),
        dir_ok(stride),
    ensures
        (x_move(intent, stride) > 0 && !clear(m, pose.pos, east())) || (x_move(intent, stride)
            < 0 && !clear(m, pose.pos, west())) || x_move(intent, stride) == 0 ==> moved(
            m,
            pose,
            intent,
            stride,
            turn,
        ).pos.x == pose.pos.x,
        (y_move(intent, stride) > 0 && !clear(m, pose.pos, north())) || (y_move(intent, stride)
            < 0 && !clear(m, pose.pos, south())) || y_move(intent, stride) == 0 ==> moved(
            m,
            pose,
            intent,
            stride,
            turn,
        ).pos.y == pose.pos.y,
        moved(m, pose, intent, stride, turn).pos.y == if y_allowed(
            m,
            pose.pos,
            y_move(intent, stride),
        ) {
            pose.pos.y + y_move(intent, stride)
        } else {
            pose.pos.y as int
        },
        moved(m, pose, intent, stride, turn).pos.x == if x_allowed(
            m,
            pose.pos,
            x_move(intent, stride),
        ) {
            pose.pos.x + x_move(intent, stride)
        } else {
            pose.pos.x as int
        },
{
}

} // verus!

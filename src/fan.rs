use vstd::prelude::*;
use crate::grid::GridMap;
use crate::raycast::{calc_dist_to_wall, cast, dir_ok, hit_ok, in_range, Dir, Point, WallHit};

verus! {

/// Angle ticks in one full turn. Angles are integers in ticks, counted
/// counter-clockwise from the +x axis.
pub const TURN: i64 = 1048576;

/// Largest number of rays in one fan (a machine limit).
pub const MAX_RAYS: usize = 1048576;

/// Bound on a field of view or a turn, in ticks (a machine limit, about a
/// million full turns).
pub const ANGLE_LIMIT: i64 = 1099511627776;

/// The viewer: a position in the world and a heading in angle ticks.
#[derive(Clone, Copy, Debug, PartialEq, Eq, Structural)]
pub struct Pose {
    pub pos: Point,
    pub heading: i64,
}

/// A pose with a position in range and its heading within one turn.
pub open spec fn pose_ok(m: GridMap, p: Pose) -> bool {
    in_range(p.pos) && 0 <= p.heading < TURN
}

/// One ray of a fan: its index, its angle and what it hit.
#[derive(Clone, Copy, Debug, PartialEq, Eq, Structural)]
pub struct FanRay {
    pub index: usize,
    pub angle: i64,
    pub hit: Option<WallHit>,
}

/// Angle of ray `i` of a fan of `rays` rays spread over `fov` ticks around
/// `heading`: `heading - fov/2 + i·fov/rays`, each quotient rounded down.
pub open spec fn fan_angle(heading: int, fov: int, rays: int, i: int) -> int {
    heading - fov / 2 + (i * fov) / rays
}

/// The fan that `ray_cast` produces: ray `i` has index `i`, the angle above,
/// and the hit of direction `dirs[i]` from the pose's position.
pub open spec fn fan(m: GridMap, pose: Pose, rays: int, fov: int, dirs: Seq<Dir>) -> Seq<FanRay> {
    Seq::new(
        rays as nat,
        |i: int|
            FanRay {
                index: i as usize,
                angle: fan_angle(pose.heading as int, fov, rays, i) as i64,
                hit: cast(m, pose.pos, dirs[i]),
            },
    )
}

pub open spec fn fan_args_ok(pose: Pose, rays: int, fov: int) -> bool {
    &&& 0 <= rays <= MAX_RAYS
    &&& 0 <= fov <= ANGLE_LIMIT
    &&& 0 <= pose.heading < TURN
}

/// Angle of ray `i` of a fan (see `fan_angle`).
pub fn ray_angle(heading: i64, fov: i64, rays: usize, i: usize) -> (r: i64)
    requires
        0 <= heading < TURN,
        0 <= fov <= ANGLE_LIMIT,
        1 <= rays <= MAX_RAYS,
        i < rays,
    ensures
        r == fan_angle(heading as int, fov as int, rays as int, i as int),
{
    proof {
        assert(0 <= i * fov <= MAX_RAYS * ANGLE_LIMIT) by (nonlinear_arith)
            requires
                i < rays <= MAX_RAYS,
                0 <= fov <= ANGLE_LIMIT,
        ;
        assert((i * fov) / (rays as int) <= i * fov) by (nonlinear_arith)
            requires
                0 <= i * fov,
                1 <= rays,
        ;
    }
    let spread: i64 = ((i as i64) * fov) / (rays as i64);
    heading - fov / 2 + spread
}

/// Casts a fan of `rays` rays over a field of view of `fov` ticks around the
/// pose's heading. Ray `i` travels along `dirs[i]`, the caller's direction
/// vector for the angle `ray_angle(heading, fov, rays, i)`. Ray 0 is the left
/// edge of the view. The map and the pose are only read.
pub fn ray_cast(m: &GridMap, pose: &Pose, rays: usize, fov: i64, dirs: &Vec<Dir>) -> (r: Vec<
    FanRay,
>)
    requires
        m.wf(),
        pose_ok(*m, *pose),
        fan_args_ok(*pose, rays as int, fov as int),
        dirs@.len() == rays,
        forall|i: int| 0 <= i < dirs@.len() ==> dir_ok(#[trigger] dirs@[i]),
    ensures
        r@ == fan(*m, *pose, rays as int, fov as int, dirs@),
        forall|i: int| 0 <= i < r@.len() ==> ((#[trigger] r@[i]).hit matches Some(h) ==> hit_ok(h)),
{
    let mut out: Vec<FanRay> = Vec::new();
    let mut i: usize = 0;
    while i < rays
        invariant
            m.wf(),
            pose_ok(*m, *pose),
            fan_args_ok(*pose, rays as int, fov as int),
            dirs@.len() == rays,
            forall|j: int| 0 <= j < dirs@.len() ==> dir_ok(#[trigger] dirs@[j]),
            i <= rays,
            out@ == fan(*m, *pose, rays as int, fov as int, dirs@).take(i as int),
            forall|j: int| 0 <= j < out@.len() ==> ((#[trigger] out@[j]).hit matches Some(h) ==> hit_ok(h)),
        decreases rays - i,
    {
        let angle = ray_angle(pose.heading, fov, rays, i);
        let hit = calc_dist_to_wall(m, pose.pos, dirs[i]);
        out.push(FanRay { index: i, angle, hit });
        i = i + 1;
        assert(out@ =~= fan(*m, *pose, rays as int, fov as int, dirs@).take(i as int));
    }
    assert(out@ =~= fan(*m, *pose, rays as int, fov as int, dirs@));
    out
}

/// A fan depends on its inputs alone: two casts with the same map, pose, ray
/// count, field of view and directions give the same rays. A fan has exactly
/// `rays` entries, entry `i` with index `i` and angle `fan_angle(.., i)`.
pub proof fn lemma_fan_deterministic(
    m: GridMap,
    pose: Pose,
    rays: int,
    fov: int,
    dirs: Seq<Dir>,
    first: Seq<FanRay>,
    second: Seq<FanRay>,
)
    requires
        fan_args_ok(pose, rays, fov),
        first == fan(m, pose, rays, fov, dirs),
        second == fan(m, pose, rays, fov, dirs),
    ensures
        first == second,
        first.len() == rays,
        forall|i: int|
            0 <= i < rays ==> #[trigger] first[i].index == i && first[i].angle == fan_angle(
                pose.heading as int,
                fov,
                rays,
                i,
            ),
{
    assert forall|i: int| 0 <= i < rays implies #[trigger] first[i].index == i
        && first[i].angle == fan_angle(pose.heading as int, fov, rays, i) by {
        assert(0 <= i * fov <= MAX_RAYS * ANGLE_LIMIT) by (nonlinear_arith)
            requires
                0 <= i < rays <= MAX_RAYS,
                0 <= fov <= ANGLE_LIMIT,
        ;
        assert(0 <= (i * fov) / rays <= i * fov) by (nonlinear_arith)
            requires
                0 <= i * fov,
                1 <= rays,
        ;
    }
}

} // verus!

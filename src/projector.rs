use vstd::prelude::*;
use vstd::arithmetic::div_mod::{lemma_div_pos_is_pos, lemma_mod_pos_bound};
use crate::raycast::{dir_ok, hit_ok, Dir, WallHit, CELL, COORD_LIMIT, DIR_LIMIT};
use crate::grid::MAX_DIM;
use crate::fan::{FanRay, MAX_RAYS};

verus! {

/// Which of the renderer's colours or textures a wall column uses.
#[derive(Clone, Copy, Debug, PartialEq, Eq, Structural)]
pub enum WallStyle {
    Background,
    Primary,
    AccentA,
    AccentB,
}

/// Code 1 is the primary wall, 2 and 3 the two accent walls; every other code
/// shows the background.
pub open spec fn style_of(code: u8) -> WallStyle {
    if code == 1 {
        WallStyle::Primary
    } else if code == 2 {
        WallStyle::AccentA
    } else if code == 3 {
        WallStyle::AccentB
    } else {
        WallStyle::Background
    }
}

pub fn wall_style(code: u8) -> (r: WallStyle)
    ensures
        r == style_of(code),
{
    match code {
        1 => WallStyle::Primary,
        2 => WallStyle::AccentA,
        3 => WallStyle::AccentB,
        _ => WallStyle::Background,
    }
}

/// Percentage of full brightness for a hit: lines of the horizontal family
/// are drawn darker than vertical ones.
pub open spec fn shade_of(horz: bool) -> u8 {
    if horz { 80 } else { 100 }
}

/// What the renderer needs to draw one screen column.
#[derive(Clone, Copy, Debug, PartialEq, Eq, Structural)]
pub struct Column {
    /// Screen column, counted from the left.
    pub column: usize,
    pub style: WallStyle,
    pub shade_percent: u8,
    /// Where along the struck cell edge the hit lies, in world units
    /// (`0 ..= CELL`), mirrored so that textures keep their orientation.
    pub tex_offset: i64,
    /// Distance of the wall from the viewer along the view direction `v`
    /// (corrected for fish-eye), `depth_num / depth_den` lengths of `v`.
    /// Half the wall's height on screen, as a fraction of half the screen,
    /// is the reciprocal `depth_den / depth_num`.
    pub depth_num: i128,
    pub depth_den: i128,
    pub hit: WallHit,
}

pub open spec fn dot(a: Dir, b: Dir) -> int {
    a.dx * b.dx + a.dy * b.dy
}

/// Fish-eye correction: the hit `t·d` projected on the view direction `v`,
/// measured in lengths of `v`, is `t·(d·v) / (v·v)`.
pub open spec fn depth_num_of(h: WallHit, d: Dir, v: Dir) -> int {
    h.t_num * dot(d, v)
}

pub open spec fn depth_den_of(h: WallHit, v: Dir) -> int {
    h.t_den * dot(v, v)
}

/// Position of the hit along the cell edge it struck, in world units.
pub open spec fn edge_pos(h: WallHit) -> int {
    let along_edge = if h.horz { h.x_num as int } else { h.y_num as int };
    (along_edge % (CELL * h.t_den)) / (h.t_den as int)
}

/// The edge position, mirrored when a horizontal line is struck from below
/// or a vertical line from the right.
pub open spec fn tex_offset_of(h: WallHit, d: Dir) -> int {
    if (h.horz && d.dy > 0) || (!h.horz && d.dx < 0) {
        CELL - edge_pos(h)
    } else {
        edge_pos(h)
    }
}

/// Whether a ray's hit is drawn: there is one, its code is a wall, and it is
/// no farther than `max_dist` direction lengths.
pub open spec fn visible(hit: Option<WallHit>, max_dist: int) -> bool {
    match hit {
        Some(h) => h.code != 0 && h.t_num <= max_dist * h.t_den,
        None => false,
    }
}

/// The column that ray `index` of a fan of `rays` rays with direction `d`
/// yields; ray 0, the left edge of the view, lands in the rightmost column.
pub open spec fn column_of(
    hit: Option<WallHit>,
    d: Dir,
    v: Dir,
    index: int,
    rays: int,
    max_dist: int,
) -> Option<Column> {
    if visible(hit, max_dist) {
        let h = hit.unwrap();
        Some(
            Column {
                column: (rays - 1 - index) as usize,
                style: style_of(h.code),
                shade_percent: shade_of(h.horz),
                tex_offset: tex_offset_of(h, d) as i64,
                depth_num: depth_num_of(h, d, v) as i128,
                depth_den: depth_den_of(h, v) as i128,
                hit: h,
            },
        )
    } else {
        None
    }
}

proof fn lemma_dot_bound(a: Dir, b: Dir)
    requires
        dir_ok(a),
        dir_ok(b),
    ensures
        -DIR_LIMIT * DIR_LIMIT <= a.dx * b.dx <= DIR_LIMIT * DIR_LIMIT,
        -DIR_LIMIT * DIR_LIMIT <= a.dy * b.dy <= DIR_LIMIT * DIR_LIMIT,
        -2 * DIR_LIMIT * DIR_LIMIT <= dot(a, b) <= 2 * DIR_LIMIT * DIR_LIMIT,
{
    assert(-DIR_LIMIT * DIR_LIMIT <= a.dx * b.dx <= DIR_LIMIT * DIR_LIMIT) by (nonlinear_arith)
        requires
            -DIR_LIMIT <= a.dx <= DIR_LIMIT,
            -DIR_LIMIT <= b.dx <= DIR_LIMIT,
    ;
    assert(-DIR_LIMIT * DIR_LIMIT <= a.dy * b.dy <= DIR_LIMIT * DIR_LIMIT) by (nonlinear_arith)
        requires
            -DIR_LIMIT <= a.dy <= DIR_LIMIT,
            -DIR_LIMIT <= b.dy <= DIR_LIMIT,
    ;
}

/// The fish-eye corrected depth of a hit (see `depth_num_of`).
fn depth(h: WallHit, d: Dir, v: Dir) -> (r: (i128, i128))
    requires
        hit_ok(h),
        dir_ok(d),
        dir_ok(v),
    ensures
        r.0 == depth_num_of(h, d, v),
        r.1 == depth_den_of(h, v),
        -DEPTH_LIMIT <= r.0 <= DEPTH_LIMIT,
        -DEPTH_LIMIT <= r.1 <= DEPTH_LIMIT,
{
    proof {
        lemma_dot_bound(d, v);
        lemma_dot_bound(v, v);
    }
    let dv: i128 = d.dx as i128 * v.dx as i128 + d.dy as i128 * v.dy as i128;
    let vv: i128 = v.dx as i128 * v.dx as i128 + v.dy as i128 * v.dy as i128;
    proof {
        let lim = 2 * DIR_LIMIT * DIR_LIMIT;
        assert(-(2 * COORD_LIMIT * lim) <= h.t_num * dv <= 2 * COORD_LIMIT * lim)
            by (nonlinear_arith)
            requires
                0 <= h.t_num <= 2 * COORD_LIMIT,
                -lim <= dv <= lim,
        ;
        assert(-(DIR_LIMIT * lim) <= h.t_den * vv <= DIR_LIMIT * lim) by (nonlinear_arith)
            requires
                1 <= h.t_den <= DIR_LIMIT,
                -lim <= vv <= lim,
        ;
    }
    (h.t_num as i128 * dv, h.t_den as i128 * vv)
}

/// Turns the hit of ray `index`, cast along `d`, into the column to draw for
/// a viewer looking along `v`, or `None` where the background shows through.
pub fn project_column(
    hit: Option<WallHit>,
    d: Dir,
    v: Dir,
    index: usize,
    rays: usize,
    max_dist: i64,
) -> (r: Option<Column>)
    requires
        index < rays <= MAX_RAYS,
        0 <= max_dist <= MAX_DIM * CELL,
        hit matches Some(h) ==> hit_ok(h),
        dir_ok(d),
        dir_ok(v),
    ensures
        r == column_of(hit, d, v, index as int, rays as int, max_dist as int),
        r matches Some(c) ==> -DEPTH_LIMIT <= c.depth_num <= DEPTH_LIMIT && -DEPTH_LIMIT
            <= c.depth_den <= DEPTH_LIMIT,
{
    match hit {
        None => None,
        Some(h) => {
            proof {
                assert(0 <= max_dist * h.t_den <= MAX_DIM * CELL * DIR_LIMIT) by (nonlinear_arith)
                    requires
                        0 <= max_dist <= MAX_DIM * CELL,
                        1 <= h.t_den <= DIR_LIMIT,
                ;
            }
            if h.code == 0 || h.t_num > max_dist * h.t_den {
                return None;
            }
            let along_edge: i64 = if h.horz { h.x_num } else { h.y_num };
            proof {
                assert(0 < CELL * h.t_den <= CELL * DIR_LIMIT) by (nonlinear_arith)
                    requires
                        1 <= h.t_den <= DIR_LIMIT,
                ;
                lemma_mod_pos_bound(along_edge as int, CELL * h.t_den);
                let rem = along_edge as int % (CELL * h.t_den);
                lemma_div_pos_is_pos(rem, h.t_den as int);
                assert(rem / (h.t_den as int) <= rem) by (nonlinear_arith)
                    requires
                        0 <= rem,
                        1 <= h.t_den,
                ;
            }
            let pos: i64 = (along_edge % (CELL * h.t_den)) / h.t_den;
            let tex_offset: i64 = if (h.horz && d.dy > 0) || (!h.horz && d.dx < 0) {
                CELL - pos
            } else {
                pos
            };
            let (depth_num, depth_den) = depth(h, d, v);
            Some(
                Column {
                    column: rays - 1 - index,
                    style: wall_style(h.code),
                    shade_percent: if h.horz { 80 } else { 100 },
                    tex_offset,
                    depth_num,
                    depth_den,
                    hit: h,
                },
            )
        },
    }
}

/// Projects every ray of a fan for a viewer looking along `v`: entry `i` is
/// the column of ray `i`, or `None` where the background shows through.
/// `dirs[i]` is the direction ray `i` was cast along.
pub fn project_fan(fan: &Vec<FanRay>, dirs: &Vec<Dir>, v: Dir, max_dist: i64) -> (r: Vec<
    Option<Column>,
>)
    requires
        fan@.len() <= MAX_RAYS,
        dirs@.len() == fan@.len(),
        forall|i: int| 0 <= i < dirs@.len() ==> dir_ok(#[trigger] dirs@[i]),
        dir_ok(v),
        0 <= max_dist <= MAX_DIM * CELL,
        forall|i: int|
            0 <= i < fan@.len() ==> (#[trigger] fan@[i]).index < fan@.len() && (fan@[i].hit matches Some(
                h,
            ) ==> hit_ok(h)),
    ensures
        r@.len() == fan@.len(),
        forall|i: int|
            0 <= i < fan@.len() ==> #[trigger] r@[i] == column_of(
                fan@[i].hit,
                dirs@[i],
                v,
                fan@[i].index as int,
                fan@.len() as int,
                max_dist as int,
            ),
{
    let mut out: Vec<Option<Column>> = Vec::new();
    let mut i: usize = 0;
    while i < fan.len()
        invariant
            fan@.len() <= MAX_RAYS,
            dirs@.len() == fan@.len(),
            forall|j: int| 0 <= j < dirs@.len() ==> dir_ok(#[trigger] dirs@[j]),
            dir_ok(v),
            0 <= max_dist <= MAX_DIM * CELL,
            forall|j: int|
                0 <= j < fan@.len() ==> (#[trigger] fan@[j]).index < fan@.len() && (
                fan@[j].hit matches Some(h) ==> hit_ok(h)),
            i <= fan@.len(),
            out@.len() == i,
            forall|j: int|
                0 <= j < i ==> #[trigger] out@[j] == column_of(
                    fan@[j].hit,
                    dirs@[j],
                    v,
                    fan@[j].index as int,
                    fan@.len() as int,
                    max_dist as int,
                ),
        decreases fan@.len() - i,
    {
        let ray = fan[i];
        let c = project_column(ray.hit, dirs[i], v, ray.index, fan.len(), max_dist);
        out.push(c);
        i = i + 1;
    }
    out
}

proof fn lemma_cauchy_schwarz(ax: int, ay: int, bx: int, by: int)
    ensures
        (ax * bx + ay * by) * (ax * bx + ay * by) <= (ax * ax + ay * ay) * (bx * bx + by * by),
{
    let p = ax * by;
    let q = ay * bx;
    assert((ax * ax + ay * ay) * (bx * bx + by * by) == ax * ax * (bx * bx) + ax * ax * (by * by)
        + ay * ay * (bx * bx) + ay * ay * (by * by)) by (nonlinear_arith);
    assert((ax * bx + ay * by) * (ax * bx + ay * by) == ax * bx * (ax * bx) + 2 * ((ax * bx) * (ay
        * by)) + ay * by * (ay * by)) by (nonlinear_arith);
    assert(ax * ax * (by * by) == p * p) by (nonlinear_arith)
        requires
            p == ax * by,
    ;
    assert(ay * ay * (bx * bx) == q * q) by (nonlinear_arith)
        requires
            q == ay * bx,
    ;
    assert((ax * bx) * (ay * by) == p * q) by (nonlinear_arith)
        requires
            p == ax * by,
            q == ay * bx,
    ;
    assert(ax * bx * (ax * bx) == ax * ax * (bx * bx)) by (nonlinear_arith);
    assert(ay * by * (ay * by) == ay * ay * (by * by)) by (nonlinear_arith);
    assert(0 <= (p - q) * (p - q)) by (nonlinear_arith);
    assert((p - q) * (p - q) == p * p - 2 * (p * q) + q * q) by (nonlinear_arith);
}

/// Fish-eye correction never lengthens a distance (the cosine factor is at
/// most one). With `t = t_num / t_den`, the corrected distance is
/// `t·(d·v)/|v|` and the raw one `t·|d|`; dividing both sides below by
/// `t_den²·(v·v)` gives `corrected² <= raw²`.
pub proof fn lemma_correction_never_lengthens(h: WallHit, d: Dir, v: Dir)
    ensures
        depth_num_of(h, d, v) * depth_num_of(h, d, v) <= h.t_num * h.t_num * dot(d, d) * dot(v, v),
{
    let dv = dot(d, v);
    lemma_cauchy_schwarz(d.dx as int, d.dy as int, v.dx as int, v.dy as int);
    let dd = dot(d, d);
    let vv = dot(v, v);
    let t = h.t_num as int;
    assert((t * dv) * (t * dv) <= t * t * dd * vv) by (nonlinear_arith)
        requires
            dv * dv <= dd * vv,
    ;
}

/// Half-height on screen is strictly decreasing in the corrected distance:
/// of two walls in front of the viewer, the nearer one (depth
/// `n1 / d1 < n2 / d2`) is drawn taller (`d1 / n1 > d2 / n2`).
pub proof fn lemma_nearer_is_taller(n1: int, d1: int, n2: int, d2: int)
    requires
        n1 > 0,
        d1 > 0,
        n2 > 0,
        d2 > 0,
        n1 * d2 < n2 * d1,
    ensures
        d1 * n2 > d2 * n1,
{
}

/// Bound on each part of a depth taken by `half_height` and `slice_width`
/// (a machine limit above every depth `project_column` produces).
pub const DEPTH_LIMIT: i128 = 1208925819614629174706176;

/// Half of a column's height on screen, as a fraction of half the screen:
/// `k / corrected` with `k` one view length, so `depth_den / depth_num`
/// (numerator, denominator).
pub fn half_height(depth_num: i128, depth_den: i128) -> (r: (i128, i128))
    ensures
        r.0 == depth_den,
        r.1 == depth_num,
{
    (depth_den, depth_num)
}

/// The width of one column's slice of texture, in texture widths:
/// `sin(fov / rays) · corrected / cell`, with the sine given as
/// `sin_num / sin_den` and a view vector one cell long, so that the corrected
/// distance `depth_num / depth_den` is already in cells.
pub fn slice_width(depth_num: i128, depth_den: i128, sin_num: i64, sin_den: i64) -> (r: (i128, i128))
    requires
        -DEPTH_LIMIT <= depth_num <= DEPTH_LIMIT,
        -DEPTH_LIMIT <= depth_den <= DEPTH_LIMIT,
        -DIR_LIMIT <= sin_num <= DIR_LIMIT,
        -DIR_LIMIT <= sin_den <= DIR_LIMIT,
    ensures
        r.0 == sin_num * depth_num,
        r.1 == sin_den * depth_den,
{
    proof {
        assert(-(DIR_LIMIT * DEPTH_LIMIT) <= sin_num * depth_num <= DIR_LIMIT * DEPTH_LIMIT)
            by (nonlinear_arith)
            requires
                -DEPTH_LIMIT <= depth_num <= DEPTH_LIMIT,
                -DIR_LIMIT <= sin_num <= DIR_LIMIT,
        ;
        assert(-(DIR_LIMIT * DEPTH_LIMIT) <= sin_den * depth_den <= DIR_LIMIT * DEPTH_LIMIT)
            by (nonlinear_arith)
            requires
                -DEPTH_LIMIT <= depth_den <= DEPTH_LIMIT,
                -DIR_LIMIT <= sin_den <= DIR_LIMIT,
        ;
    }
    (sin_num as i128 * depth_num, sin_den as i128 * depth_den)
}

} // verus!

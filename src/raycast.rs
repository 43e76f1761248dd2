use vstd::prelude::*;
use vstd::arithmetic::div_mod::{
    lemma_div_pos_is_pos, lemma_fundamental_div_mod, lemma_mod_bound, lemma_mod_pos_bound,
};
use crate::grid::{GridMap, MAX_DIM};

verus! {

/// Length of a cell side in world units. The world square of a map of
/// `width × height` cells is `[0, width·CELL] × [0, height·CELL]`, and cell
/// `(col, row)` covers `[col·CELL, (col+1)·CELL] × [row·CELL, (row+1)·CELL]`.
pub const CELL: i64 = 65536;

/// Bound on each component of a ray direction.
pub const DIR_LIMIT: i64 = 1048576;

/// Bound on each coordinate of a position: a machine limit, far beyond the
/// world square of any map (at most `MAX_DIM·CELL` on a side).
pub const COORD_LIMIT: i64 = 1073741824;

/// A position in world units.
#[derive(Clone, Copy, Debug, PartialEq, Eq, Structural)]
pub struct Point {
    pub x: i64,
    pub y: i64,
}

/// A ray direction as an integer vector; its length is the unit in which the
/// distance along the ray is measured.
#[derive(Clone, Copy, Debug, PartialEq, Eq, Structural)]
pub struct Dir {
    pub dx: i64,
    pub dy: i64,
}

/// Where a ray meets a wall, in exact rational form: the ray travelled
/// `t_num / t_den` direction lengths and stopped at the point
/// `(x_num / t_den, y_num / t_den)`. `horz` tells whether the crossing lies on
/// a horizontal grid line, and `code` is the wall code read there.
#[derive(Clone, Copy, Debug, PartialEq, Eq, Structural)]
pub struct WallHit {
    pub horz: bool,
    pub code: u8,
    pub t_num: i64,
    pub t_den: i64,
    pub x_num: i64,
    pub y_num: i64,
}

/// Ranges that every hit found on a map of at most `MAX_DIM` cells per side
/// respects.
pub open spec fn hit_ok(h: WallHit) -> bool {
    &&& 0 <= h.t_num <= 2 * COORD_LIMIT
    &&& 1 <= h.t_den <= DIR_LIMIT
    &&& 0 <= h.x_num <= MAX_DIM * CELL * DIR_LIMIT
    &&& 0 <= h.y_num <= MAX_DIM * CELL * DIR_LIMIT
}

pub open spec fn in_world(m: GridMap, p: Point) -> bool {
    &&& 0 <= p.x <= m.width_spec() * CELL
    &&& 0 <= p.y <= m.height_spec() * CELL
}

/// A position the engine can work with: inside the world square or outside
/// it, within `COORD_LIMIT` on each axis.
pub open spec fn in_range(p: Point) -> bool {
    &&& -COORD_LIMIT <= p.x <= COORD_LIMIT
    &&& -COORD_LIMIT <= p.y <= COORD_LIMIT
}

pub open spec fn dir_ok(d: Dir) -> bool {
    &&& -DIR_LIMIT <= d.dx <= DIR_LIMIT
    &&& -DIR_LIMIT <= d.dy <= DIR_LIMIT
}

// One line family at a time. With `horz` the ray steps across horizontal
// lines, so the stepping coordinate is `y` and the crossing coordinate `x`;
// otherwise the two swap.
pub open spec fn along(p: Point, horz: bool) -> int {
    if horz { p.y as int } else { p.x as int }
}

pub open spec fn across(p: Point, horz: bool) -> int {
    if horz { p.x as int } else { p.y as int }
}

pub open spec fn d_along(d: Dir, horz: bool) -> int {
    if horz { d.dy as int } else { d.dx as int }
}

pub open spec fn d_across(d: Dir, horz: bool) -> int {
    if horz { d.dx as int } else { d.dy as int }
}

/// Number of cells along the stepping axis; the lines are `0 ..= lines`.
pub open spec fn lines(m: GridMap, horz: bool) -> int {
    if horz { m.height_spec() } else { m.width_spec() }
}

/// Number of cells along the crossing axis.
pub open spec fn span(m: GridMap, horz: bool) -> int {
    if horz { m.width_spec() } else { m.height_spec() }
}

pub open spec fn step(d: Dir, horz: bool) -> int {
    if d_along(d, horz) > 0 { 1 } else { -1 }
}

pub open spec fn den(d: Dir, horz: bool) -> int {
    if d_along(d, horz) > 0 { d_along(d, horz) } else { -d_along(d, horz) }
}

/// The first line met: the next one up (ceiling) when stepping forward, the
/// next one down (floor) when stepping back; a line through the origin counts.
pub open spec fn first_line(o: Point, d: Dir, horz: bool) -> int {
    if d_along(d, horz) > 0 {
        (along(o, horz) + CELL - 1) / (CELL as int)
    } else {
        along(o, horz) / (CELL as int)
    }
}

/// Distance to line `k` in direction lengths, times `den`.
pub open spec fn t_num(o: Point, d: Dir, horz: bool, k: int) -> int {
    if d_along(d, horz) > 0 {
        k * CELL - along(o, horz)
    } else {
        along(o, horz) - k * CELL
    }
}

/// Crossing coordinate where the ray meets line `k`, times `den`.
pub open spec fn across_num(o: Point, d: Dir, horz: bool, k: int) -> int {
    across(o, horz) * den(d, horz) + t_num(o, d, horz, k) * d_across(d, horz)
}

pub open spec fn crossing_in_world(m: GridMap, o: Point, d: Dir, horz: bool, k: int) -> bool {
    &&& 0 <= k <= lines(m, horz)
    &&& 0 <= across_num(o, d, horz, k) <= span(m, horz) * CELL * den(d, horz)
}

/// The code read where the ray meets line `k`.
pub open spec fn crossing_code(m: GridMap, o: Point, d: Dir, horz: bool, k: int) -> u8 {
    let c = across_num(o, d, horz, k) / (CELL * den(d, horz));
    if horz {
        m.wall_at(c, k, true)
    } else {
        m.wall_at(k, c, false)
    }
}

/// Walks the lines of one family from line `k` on, while the crossings stay in
/// the world square, and gives the first line whose code is not open.
pub open spec fn scan(m: GridMap, o: Point, d: Dir, horz: bool, k: int) -> Option<int>
    decreases (if d_along(d, horz) > 0 { lines(m, horz) + 1 - k } else { k + 1 }),
{
    if d_along(d, horz) == 0 || !crossing_in_world(m, o, d, horz, k) {
        None
    } else if crossing_code(m, o, d, horz, k) > 0 {
        Some(k)
    } else {
        scan(m, o, d, horz, k + step(d, horz))
    }
}

/// The hit recorded where the ray meets line `k`.
pub open spec fn hit_at(m: GridMap, o: Point, d: Dir, horz: bool, k: int) -> WallHit {
    let pos = k * CELL * den(d, horz);
    let b = across_num(o, d, horz, k);
    WallHit {
        horz,
        code: crossing_code(m, o, d, horz, k),
        t_num: t_num(o, d, horz, k) as i64,
        t_den: den(d, horz) as i64,
        x_num: (if horz { b } else { pos }) as i64,
        y_num: (if horz { pos } else { b }) as i64,
    }
}

/// What one line family finds.
pub open spec fn family_hit(m: GridMap, o: Point, d: Dir, horz: bool) -> Option<WallHit> {
    match scan(m, o, d, horz, first_line(o, d, horz)) {
        Some(k) => Some(hit_at(m, o, d, horz, k)),
        None => None,
    }
}

/// `a` lies strictly nearer the origin than `b`.
pub open spec fn nearer(a: WallHit, b: WallHit) -> bool {
    a.t_num * b.t_den < b.t_num * a.t_den
}

/// The hit of a ray: the nearer of the two families' hits, the vertical one
/// on a tie; `None` when neither family meets a wall inside the world square.
pub open spec fn cast(m: GridMap, o: Point, d: Dir) -> Option<WallHit> {
    let h = family_hit(m, o, d, true);
    let v = family_hit(m, o, d, false);
    match (h, v) {
        (Some(a), Some(b)) => if nearer(a, b) { h } else { v },
        (Some(_), None) => h,
        _ => v,
    }
}

/// Floor division by a positive divisor brackets its dividend.
pub(crate) proof fn lemma_div_bounds(a: int, d: int)
    requires
        0 <= a,
        0 < d,
    ensures
        0 <= a / d,
        d * (a / d) <= a < d * (a / d) + d,
{
    lemma_fundamental_div_mod(a, d);
    lemma_mod_pos_bound(a, d);
    lemma_div_pos_is_pos(a, d);
}

/// Floor division by `CELL`, for dividends of either sign.
pub(crate) proof fn lemma_floor_cell(a: int)
    ensures
        CELL * (a / (CELL as int)) <= a < CELL * (a / (CELL as int)) + CELL,
{
    lemma_fundamental_div_mod(a, CELL as int);
    lemma_mod_bound(a, CELL as int);
}

/// For positions on the segment from the origin (`t = 0`) to `t = tl`, the
/// offset `t·db` lies between `0` and `tl·db`.
pub(crate) proof fn lemma_between(t: int, tl: int, db: int)
    requires
        0 <= t <= tl,
    ensures
        db >= 0 ==> 0 <= t * db <= tl * db,
        db < 0 ==> tl * db <= t * db <= 0,
{
    if db >= 0 {
        assert(0 <= t * db <= tl * db) by (nonlinear_arith)
            requires
                0 <= t <= tl,
                db >= 0,
        ;
    } else {
        assert(tl * db <= t * db <= 0) by (nonlinear_arith)
            requires
                0 <= t <= tl,
                db < 0,
        ;
    }
}

/// Walks one line family of the ray from `o` in direction `d`.
fn cast_family(m: &GridMap, o: Point, d: Dir, horz: bool) -> (r: Option<WallHit>)
    requires
        m.wf(),
        in_range(o),
        dir_ok(d),
    ensures
        r == family_hit(*m, o, d, horz),
        r matches Some(h) ==> hit_ok(h),
{
    let a0: i64 = if horz { o.y } else { o.x };
    let b0: i64 = if horz { o.x } else { o.y };
    let da: i64 = if horz { d.dy } else { d.dx };
    let db: i64 = if horz { d.dx } else { d.dy };
    let na: i64 = if horz { m.height() as i64 } else { m.width() as i64 };
    let nb: i64 = if horz { m.width() as i64 } else { m.height() as i64 };
    if da == 0 {
        return None;
    }
    let dn: i64 = if da > 0 { da } else { -da };
    let s: i64 = if da > 0 { 1 } else { -1 };
    // Shifted by a whole number of cells to divide a non-negative value.
    let shifted: i64 = a0 + 2147483648;
    let q_up: i64 = (shifted + CELL - 1) / CELL - 32768;
    let q_down: i64 = shifted / CELL - 32768;
    proof {
        lemma_div_bounds(shifted + CELL - 1, CELL as int);
        lemma_div_bounds(shifted as int, CELL as int);
        lemma_floor_cell(a0 + CELL - 1);
        lemma_floor_cell(a0 as int);
        assert(na * CELL <= MAX_DIM * CELL) by (nonlinear_arith)
            requires
                na <= MAX_DIM,
        ;
        assert(nb * CELL <= MAX_DIM * CELL) by (nonlinear_arith)
            requires
                nb <= MAX_DIM,
        ;
    }
    let first: i64 = if da > 0 { q_up } else { q_down };
    assert(first == first_line(o, d, horz));
    let mut k: i64 = first;
    loop
        invariant
            m.wf(),
            in_range(o),
            dir_ok(d),
            a0 == along(o, horz),
            b0 == across(o, horz),
            da == d_along(d, horz),
            db == d_across(d, horz),
            na == lines(*m, horz),
            nb == span(*m, horz),
            1 <= na <= MAX_DIM,
            1 <= nb <= MAX_DIM,
            na * CELL <= MAX_DIM * CELL,
            nb * CELL <= MAX_DIM * CELL,
            -COORD_LIMIT <= a0 <= COORD_LIMIT,
            -COORD_LIMIT <= b0 <= COORD_LIMIT,
            da != 0,
            dn == den(d, horz),
            s == step(d, horz),
            first == first_line(o, d, horz),
            -32769 <= first <= 32769,
            da > 0 ==> first <= k && (k <= na + 1 || k == first) && (first - 1) * CELL < a0,
            da < 0 ==> k <= first && (-1 <= k || k == first) && first * CELL <= a0,
            scan(*m, o, d, horz, k as int) == scan(*m, o, d, horz, first as int),
        decreases (if da > 0 { na + 1 - k } else { k + 1 }),
    {
        if k < 0 || k > na {
            return None;
        }
        let t: i64 = if da > 0 { k * CELL - a0 } else { a0 - k * CELL };
        proof {
            assert(-(2 * COORD_LIMIT * DIR_LIMIT) <= t * db <= 2 * COORD_LIMIT * DIR_LIMIT)
                by (nonlinear_arith)
                requires
                    0 <= t <= 2 * COORD_LIMIT,
                    -DIR_LIMIT <= db <= DIR_LIMIT,
            ;
            assert(-(COORD_LIMIT * DIR_LIMIT) <= b0 * dn <= COORD_LIMIT * DIR_LIMIT)
                by (nonlinear_arith)
                requires
                    -COORD_LIMIT <= b0 <= COORD_LIMIT,
                    1 <= dn <= DIR_LIMIT,
            ;
            assert(0 <= nb * CELL * dn <= MAX_DIM * CELL * DIR_LIMIT) by (nonlinear_arith)
                requires
                    1 <= nb <= MAX_DIM,
                    1 <= dn <= DIR_LIMIT,
            ;
        }
        let b: i64 = b0 * dn + t * db;
        let limit: i64 = nb * CELL * dn;
        if b < 0 || b > limit {
            return None;
        }
        let c: i64 = b / (CELL * dn);
        let code = if horz {
            m.at_wall(c, k, true)
        } else {
            m.at_wall(k, c, false)
        };
        if code > 0 {
            proof {
                assert(0 <= k * CELL * dn <= MAX_DIM * CELL * DIR_LIMIT) by (nonlinear_arith)
                    requires
                        0 <= k <= MAX_DIM,
                        1 <= dn <= DIR_LIMIT,
                ;
            }
            let pos: i64 = k * CELL * dn;
            return Some(
                WallHit {
                    horz,
                    code,
                    t_num: t,
                    t_den: dn,
                    x_num: if horz { b } else { pos },
                    y_num: if horz { pos } else { b },
                },
            );
        }
        k = k + s;
    }
}

/// Casts one ray from `o` in direction `d` over the map (grid DDA). Each
/// family of grid lines is walked on its own, from the first line ahead of
/// the origin, while its crossings stay in the world square; it stops at the
/// first crossing that reads a wall code. The nearer of the two stops wins,
/// the vertical one on a tie. `None` when neither family meets a wall, as on
/// a map with an open border, or for the zero direction.
pub fn calc_dist_to_wall(m: &GridMap, o: Point, d: Dir) -> (r: Option<WallHit>)
    requires
        m.wf(),
        in_range(o),
        dir_ok(d),
    ensures
        r == cast(*m, o, d),
        r matches Some(h) ==> hit_ok(h),
{
    let h = cast_family(m, o, d, true);
    let v = cast_family(m, o, d, false);
    match (h, v) {
        (Some(a), Some(b)) => {
            proof {
                assert(0 <= a.t_num * b.t_den <= 2 * COORD_LIMIT * DIR_LIMIT) by (nonlinear_arith)
                    requires
                        0 <= a.t_num <= 2 * COORD_LIMIT,
                        1 <= b.t_den <= DIR_LIMIT,
                ;
                assert(0 <= b.t_num * a.t_den <= 2 * COORD_LIMIT * DIR_LIMIT) by (nonlinear_arith)
                    requires
                        0 <= b.t_num <= 2 * COORD_LIMIT,
                        1 <= a.t_den <= DIR_LIMIT,
                ;
            }
            if a.t_num * b.t_den < b.t_num * a.t_den {
                h
            } else {
                v
            }
        },
        (Some(_), None) => h,
        _ => v,
    }
}

} // verus!

use vstd::prelude::*;
use crate::grid::GridMap;
use crate::raycast::{
    across, across_num, along, cast, crossing_code, crossing_in_world, d_across, d_along, den,
    dir_ok, family_hit, first_line, lemma_between, lemma_div_bounds, lines, scan, span, step, t_num,
    Dir, Point, CELL,
};

verus! {

/// The origin lies in the interior of the map, clear of its outermost ring
/// of cells.
pub open spec fn inside_border(m: GridMap, o: Point) -> bool {
    &&& CELL <= o.x <= (m.width_spec() - 1) * CELL
    &&& CELL <= o.y <= (m.height_spec() - 1) * CELL
}

/// The last line of a family before the border ring, in the stepping
/// direction.
pub open spec fn last_line(m: GridMap, d: Dir, horz: bool) -> int {
    if d_along(d, horz) > 0 {
        lines(m, horz) - 1
    } else {
        1
    }
}

/// `j` lies on the closed range between `k` and `l`, in either order.
pub open spec fn between(k: int, j: int, l: int) -> bool {
    (k <= j <= l) || (l <= j <= k)
}

/// The plane geometry behind an enclosed ray, over one pair of axes. A ray
/// from `(a0, b0)`, strictly inside a box of `na × nb` cells of side `c`,
/// reaches the last interior line `la` of the `a` axis at `b = bnum / |da|`.
/// If that point falls outside `[0, nb·c)`, the ray crosses the last interior
/// line of the `b` axis first, and there `a` lies inside `[0, na·c)`.
proof fn lemma_exit_crossing(a0: int, b0: int, da: int, db: int, na: int, nb: int, c: int)
    requires
        c > 0,
        c <= a0 <= (na - 1) * c,
        c <= b0 <= (nb - 1) * c,
        da != 0,
        ({
            let la = if da > 0 { na - 1 } else { 1 };
            let ta = if da > 0 { la * c - a0 } else { a0 - la * c };
            let aa = if da > 0 { da } else { -da };
            let bnum = b0 * aa + ta * db;
            !(0 <= bnum < nb * c * aa)
        }),
    ensures
        db != 0,
        ({
            let lb = if db > 0 { nb - 1 } else { 1 };
            let tb = if db > 0 { lb * c - b0 } else { b0 - lb * c };
            let bb = if db > 0 { db } else { -db };
            let anum = a0 * bb + tb * da;
            0 <= anum < na * c * bb
        }),
{
    let la = if da > 0 { na - 1 } else { 1 };
    let ta = if da > 0 { la * c - a0 } else { a0 - la * c };
    let aa = if da > 0 { da } else { -da };
    let bnum = b0 * aa + ta * db;
    assert(ta >= 0);
    assert(aa > 0);
    if db == 0 {
        assert(bnum == b0 * aa);
        assert(0 <= b0 * aa < nb * c * aa) by (nonlinear_arith)
            requires
                c <= b0 <= (nb - 1) * c,
                aa > 0,
                c > 0,
        ;
    }
    let lb = if db > 0 { nb - 1 } else { 1 };
    let tb = if db > 0 { lb * c - b0 } else { b0 - lb * c };
    let bb = if db > 0 { db } else { -db };
    let anum = a0 * bb + tb * da;
    // The b axis is met first: tb / bb < ta / aa.
    if db > 0 {
        assert(bnum >= nb * c * aa) by (nonlinear_arith)
            requires
                !(0 <= bnum < nb * c * aa),
                bnum == b0 * aa + ta * db,
                b0 >= 0,
                aa > 0,
                ta >= 0,
                db > 0,
        ;
        assert(tb * aa < ta * bb) by (nonlinear_arith)
            requires
                tb == (nb - 1) * c - b0,
                b0 * aa + ta * db >= nb * c * aa,
                bb == db,
                aa > 0,
                c > 0,
        ;
    } else {
        assert(bnum < 0) by (nonlinear_arith)
            requires
                !(0 <= bnum < nb * c * aa),
                bnum == b0 * aa + ta * db,
                b0 <= (nb - 1) * c,
                c > 0,
                aa > 0,
                ta >= 0,
                db < 0,
        ;
        assert(tb * aa < ta * bb) by (nonlinear_arith)
            requires
                tb == b0 - c,
                b0 * aa + ta * db < 0,
                bb == -db,
                aa > 0,
                c > 0,
        ;
    }
    assert(tb >= 0);
    if da > 0 {
        assert(0 <= anum < na * c * bb) by (nonlinear_arith)
            requires
                anum == a0 * bb + tb * da,
                tb * da < ta * bb,
                ta == (na - 1) * c - a0,
                a0 >= c,
                tb >= 0,
                da > 0,
                bb > 0,
                c > 0,
        ;
    } else {
        assert(0 <= anum < na * c * bb) by (nonlinear_arith)
            requires
                anum == a0 * bb + tb * da,
                tb * (-da) < ta * bb,
                ta == a0 - c,
                a0 <= (na - 1) * c,
                tb >= 0,
                da < 0,
                bb > 0,
                c > 0,
        ;
    }
}

/// A scan finds only wall codes.
proof fn lemma_scan_code(m: GridMap, o: Point, d: Dir, horz: bool, k: int)
    ensures
        scan(m, o, d, horz, k) matches Some(j) ==> crossing_code(m, o, d, horz, j) > 0,
    decreases (if d_along(d, horz) > 0 { lines(m, horz) + 1 - k } else { k + 1 }),
{
    if d_along(d, horz) == 0 || !crossing_in_world(m, o, d, horz, k) {
    } else if crossing_code(m, o, d, horz, k) > 0 {
    } else {
        lemma_scan_code(m, o, d, horz, k + step(d, horz));
    }
}

/// A scan that starts before line `l`, meets only crossings inside the world
/// up to `l`, and reads a wall at `l`, finds a wall.
proof fn lemma_scan_reaches(m: GridMap, o: Point, d: Dir, horz: bool, k: int, l: int)
    requires
        d_along(d, horz) != 0,
        d_along(d, horz) > 0 ==> k <= l,
        d_along(d, horz) < 0 ==> l <= k,
        forall|j: int|
            #![trigger crossing_in_world(m, o, d, horz, j)]
            between(k, j, l) ==> crossing_in_world(m, o, d, horz, j),
        crossing_code(m, o, d, horz, l) > 0,
    ensures
        scan(m, o, d, horz, k) is Some,
    decreases (if d_along(d, horz) > 0 { l - k } else { k - l }),
{
    assert(crossing_in_world(m, o, d, horz, k));
    if crossing_code(m, o, d, horz, k) == 0 {
        lemma_scan_reaches(m, o, d, horz, k + step(d, horz), l);
    }
}

/// One family finds a wall when its crossing with the last line before the
/// border ring lies inside the grid: every crossing before it is inside the
/// world, and the border cell there is a wall.
proof fn lemma_family_finds(m: GridMap, o: Point, d: Dir, horz: bool)
    requires
        m.wf(),
        m.walled_border(),
        inside_border(m, o),
        dir_ok(d),
        d_along(d, horz) != 0,
        0 <= across_num(o, d, horz, last_line(m, d, horz)) < span(m, horz) * CELL * den(d, horz),
    ensures
        family_hit(m, o, d, horz) is Some,
{
    let l = last_line(m, d, horz);
    let f = first_line(o, d, horz);
    let a0 = along(o, horz);
    let b0 = across(o, horz);
    let dn = den(d, horz);
    let db = d_across(d, horz);
    let nb = span(m, horz);
    lemma_div_bounds(a0 + CELL - 1, CELL as int);
    lemma_div_bounds(a0, CELL as int);
    let bl = across_num(o, d, horz, l);
    assert(CELL * dn > 0) by (nonlinear_arith)
        requires
            dn > 0,
    ;
    lemma_div_bounds(bl, CELL * dn);
    let c = bl / (CELL * dn);
    assert(c < nb) by (nonlinear_arith)
        requires
            (CELL * dn) * c <= bl < nb * CELL * dn,
            CELL * dn > 0,
    ;
    if horz {
        assert(m.cell_spec(c, 0) > 0 && m.cell_spec(c, m.height_spec() - 1) > 0);
    } else {
        assert(m.cell_spec(0, c) > 0 && m.cell_spec(m.width_spec() - 1, c) > 0);
    }
    assert(crossing_code(m, o, d, horz, l) > 0);
    assert(0 <= b0 * dn <= nb * CELL * dn) by (nonlinear_arith)
        requires
            0 <= b0 <= nb * CELL,
            dn > 0,
    ;
    assert forall|j: int|
        #![trigger crossing_in_world(m, o, d, horz, j)]
        between(f, j, l) implies crossing_in_world(m, o, d, horz, j) by {
        lemma_between(t_num(o, d, horz, j), t_num(o, d, horz, l), db);
    }
    lemma_scan_reaches(m, o, d, horz, f, l);
}

/// A ray cast from the interior of a map whose border ring is all wall, in
/// any direction, always meets a wall: the cast ends, at a finite distance,
/// on a cell code that is not open.
pub proof fn lemma_enclosed_ray_hits(m: GridMap, o: Point, d: Dir)
    requires
        m.wf(),
        m.walled_border(),
        inside_border(m, o),
        dir_ok(d),
        d.dx != 0 || d.dy != 0,
    ensures
        cast(m, o, d) is Some,
        cast(m, o, d) matches Some(h) ==> h.code > 0,
{
    if d.dx != 0 {
        let l = last_line(m, d, false);
        if 0 <= across_num(o, d, false, l) < span(m, false) * CELL * den(d, false) {
            lemma_family_finds(m, o, d, false);
        } else {
            lemma_exit_crossing(
                o.x as int,
                o.y as int,
                d.dx as int,
                d.dy as int,
                m.width_spec(),
                m.height_spec(),
                CELL as int,
            );
            lemma_family_finds(m, o, d, true);
        }
    } else {
        let dn = den(d, true);
        assert(0 <= o.x * dn < m.width_spec() * CELL * dn) by (nonlinear_arith)
            requires
                CELL <= o.x <= (m.width_spec() - 1) * CELL,
                dn > 0,
        ;
        let t = t_num(o, d, true, last_line(m, d, true));
        assert(t * d_across(d, true) == 0) by (nonlinear_arith)
            requires
                d_across(d, true) == 0,
        ;
        assert(across_num(o, d, true, last_line(m, d, true)) == o.x * dn);
        lemma_family_finds(m, o, d, true);
    }
    lemma_scan_code(m, o, d, true, first_line(o, d, true));
    lemma_scan_code(m, o, d, false, first_line(o, d, false));
}

} // verus!

use vstd::prelude::*;
use crate::grid::{GridMap, MAX_DIM};
use crate::enclosure::between;
use crate::raycast::{
    across, across_num, along, cast, crossing_code, crossing_in_world, d_across, d_along, den,
    dir_ok, family_hit, first_line, in_world, lemma_between, lemma_div_bounds, lines, nearer, scan,
    span, step, t_num, Dir, Point, WallHit, CELL, DIR_LIMIT,
};

verus! {

/// `h2` is the hit `h` seen from `qn / qd` direction lengths nearer: the same
/// wall at the same point, that much closer.
pub open spec fn same_hit_nearer(h2: WallHit, h: WallHit, qn: int, qd: int) -> bool {
    &&& h2.horz == h.horz
    &&& h2.code == h.code
    &&& h2.t_den == h.t_den
    &&& h2.t_num * qd == h.t_num * qd - qn * h.t_den
    &&& h2.x_num == h.x_num
    &&& h2.y_num == h.y_num
}

/// `o2` is `o` moved `qn / qd` direction lengths along `d`.
pub open spec fn moved_along(o: Point, o2: Point, d: Dir, qn: int, qd: int) -> bool {
    &&& o2.x * qd == o.x * qd + qn * d.dx
    &&& o2.y * qd == o.y * qd + qn * d.dy
}

/// Moving the origin along the ray leaves each grid crossing where it was:
/// only the distance to it shrinks.
proof fn lemma_crossing_moved(o: Point, o2: Point, d: Dir, horz: bool, qn: int, qd: int, k: int)
    requires
        moved_along(o, o2, d, qn, qd),
        qd > 0,
        d_along(d, horz) != 0,
    ensures
        t_num(o2, d, horz, k) * qd == t_num(o, d, horz, k) * qd - qn * den(d, horz),
        across_num(o2, d, horz, k) == across_num(o, d, horz, k),
{
    let a0 = along(o, horz);
    let a2 = along(o2, horz);
    let b0 = across(o, horz);
    let b2 = across(o2, horz);
    let da = d_along(d, horz);
    let db = d_across(d, horz);
    let dn = den(d, horz);
    let t = t_num(o, d, horz, k);
    let t2 = t_num(o2, d, horz, k);
    assert(a2 * qd == a0 * qd + qn * da);
    assert(b2 * qd == b0 * qd + qn * db);
    if da > 0 {
        assert(t2 * qd == t * qd - qn * dn) by (nonlinear_arith)
            requires
                t2 == k * CELL - a2,
                t == k * CELL - a0,
                a2 * qd == a0 * qd + qn * da,
                dn == da,
        ;
    } else {
        assert(t2 * qd == t * qd - qn * dn) by (nonlinear_arith)
            requires
                t2 == a2 - k * CELL,
                t == a0 - k * CELL,
                a2 * qd == a0 * qd + qn * da,
                dn == -da,
        ;
    }
    let x = across_num(o, d, horz, k);
    let x2 = across_num(o2, d, horz, k);
    assert(x2 * qd == (b2 * qd) * dn + (t2 * qd) * db) by (nonlinear_arith)
        requires
            x2 == b2 * dn + t2 * db,
    ;
    assert(x * qd == (b0 * qd) * dn + (t * qd) * db) by (nonlinear_arith)
        requires
            x == b0 * dn + t * db,
    ;
    assert((b2 * qd) * dn == (b0 * qd) * dn + (qn * db) * dn) by (nonlinear_arith)
        requires
            b2 * qd == b0 * qd + qn * db,
    ;
    assert((t2 * qd) * db == (t * qd) * db - (qn * dn) * db) by (nonlinear_arith)
        requires
            t2 * qd == t * qd - qn * dn,
    ;
    assert((qn * db) * dn == (qn * dn) * db) by (nonlinear_arith);
    assert(x2 * qd == x * qd);
    assert(x2 == x) by (nonlinear_arith)
        requires
            x2 * qd == x * qd,
            qd > 0,
    ;
}

/// A scan from a moved origin meets the same crossings with the same codes.
proof fn lemma_scan_moved(
    m: GridMap,
    o: Point,
    o2: Point,
    d: Dir,
    horz: bool,
    qn: int,
    qd: int,
    k: int,
)
    requires
        moved_along(o, o2, d, qn, qd),
        qd > 0,
    ensures
        scan(m, o2, d, horz, k) == scan(m, o, d, horz, k),
    decreases (if d_along(d, horz) > 0 { lines(m, horz) + 1 - k } else { k + 1 }),
{
    if d_along(d, horz) != 0 {
        lemma_crossing_moved(o, o2, d, horz, qn, qd, k);
        if crossing_in_world(m, o, d, horz, k) && crossing_code(m, o, d, horz, k) == 0 {
            lemma_scan_moved(m, o, o2, d, horz, qn, qd, k + step(d, horz));
        }
    }
}

/// What a scan finds lies ahead of where it starts, inside the world.
proof fn lemma_scan_hit_ahead(m: GridMap, o: Point, d: Dir, horz: bool, k: int)
    ensures
        scan(m, o, d, horz, k) matches Some(kh) ==> (d_along(d, horz) > 0 ==> k <= kh) && (
        d_along(d, horz) < 0 ==> kh <= k) && crossing_in_world(m, o, d, horz, kh),
    decreases (if d_along(d, horz) > 0 { lines(m, horz) + 1 - k } else { k + 1 }),
{
    if d_along(d, horz) != 0 && crossing_in_world(m, o, d, horz, k) && crossing_code(
        m,
        o,
        d,
        horz,
        k,
    ) == 0 {
        lemma_scan_hit_ahead(m, o, d, horz, k + step(d, horz));
    }
}

/// A scan that finds line `kh` from line `k` finds it from every line on the
/// way there too.
proof fn lemma_scan_suffix(m: GridMap, o: Point, d: Dir, horz: bool, k: int, j: int, kh: int)
    requires
        scan(m, o, d, horz, k) == Some(kh),
        between(k, j, kh),
    ensures
        scan(m, o, d, horz, j) == Some(kh),
    decreases (if d_along(d, horz) > 0 { lines(m, horz) + 1 - k } else { k + 1 }),
{
    if j != k {
        lemma_scan_hit_ahead(m, o, d, horz, k);
        lemma_scan_suffix(m, o, d, horz, k + step(d, horz), j, kh);
    }
}

/// A scan that finds nothing from line `k` finds nothing from any later
/// line: once a crossing ahead of the origin leaves the world square, every
/// later one lies outside it too.
proof fn lemma_scan_none_suffix(m: GridMap, o: Point, d: Dir, horz: bool, k: int, j: int)
    requires
        m.wf(),
        in_world(m, o),
        scan(m, o, d, horz, k) is None,
        t_num(o, d, horz, k) >= 0,
        d_along(d, horz) > 0 ==> k <= j,
        d_along(d, horz) < 0 ==> j <= k,
    ensures
        scan(m, o, d, horz, j) is None,
    decreases (if d_along(d, horz) > 0 { lines(m, horz) + 1 - k } else { k + 1 }),
{
    if d_along(d, horz) == 0 {
    } else if !crossing_in_world(m, o, d, horz, k) {
        let dn = den(d, horz);
        let b0 = across(o, horz);
        let nb = span(m, horz);
        assert(0 <= b0 * dn <= nb * CELL * dn) by (nonlinear_arith)
            requires
                0 <= b0 <= nb * CELL,
                dn > 0,
        ;
        lemma_between(t_num(o, d, horz, k), t_num(o, d, horz, j), d_across(d, horz));
        assert(!crossing_in_world(m, o, d, horz, j));
    } else if j != k {
        lemma_scan_none_suffix(m, o, d, horz, k + step(d, horz), j);
    }
}

/// One family, seen from an origin moved `qn / qd` direction lengths along
/// the ray, finds the same wall that much nearer, or, where it found none,
/// none.
proof fn lemma_family_moved(
    m: GridMap,
    o: Point,
    o2: Point,
    d: Dir,
    horz: bool,
    qn: int,
    qd: int,
)
    requires
        m.wf(),
        in_world(m, o),
        in_world(m, o2),
        dir_ok(d),
        qn > 0,
        qd > 0,
        moved_along(o, o2, d, qn, qd),
        family_hit(m, o, d, horz) matches Some(h) ==> qn * h.t_den <= h.t_num * qd,
    ensures
        family_hit(m, o, d, horz) is None ==> family_hit(m, o2, d, horz) is None,
        family_hit(m, o, d, horz) matches Some(h) ==> (family_hit(m, o2, d, horz) matches Some(h2)
            && same_hit_nearer(h2, h, qn, qd)),
{
    let da = d_along(d, horz);
    if da != 0 {
        let f = first_line(o, d, horz);
        let f2 = first_line(o2, d, horz);
        let a0 = along(o, horz);
        let a2 = along(o2, horz);
        let dn = den(d, horz);
        assert(a2 * qd == a0 * qd + qn * da);
        lemma_div_bounds(a0 + CELL - 1, CELL as int);
        lemma_div_bounds(a0, CELL as int);
        lemma_div_bounds(a2 + CELL - 1, CELL as int);
        lemma_div_bounds(a2, CELL as int);
        if da > 0 {
            assert(a2 > a0) by (nonlinear_arith)
                requires
                    a2 * qd == a0 * qd + qn * da,
                    qn > 0,
                    qd > 0,
                    da > 0,
            ;
        } else {
            assert(a2 < a0) by (nonlinear_arith)
                requires
                    a2 * qd == a0 * qd + qn * da,
                    qn > 0,
                    qd > 0,
                    da < 0,
            ;
        }
        lemma_scan_moved(m, o, o2, d, horz, qn, qd, f2);
        lemma_scan_hit_ahead(m, o, d, horz, f);
        match scan(m, o, d, horz, f) {
            Some(kh) => {
                assert(0 <= a0 <= lines(m, horz) * CELL);
                assert(-MAX_DIM * CELL <= t_num(o, d, horz, kh) <= MAX_DIM * CELL);
                assert(1 <= dn <= DIR_LIMIT);
                lemma_crossing_moved(o, o2, d, horz, qn, qd, kh);
                let t = t_num(o, d, horz, kh);
                let t2 = t_num(o2, d, horz, kh);
                assert(t2 >= 0) by (nonlinear_arith)
                    requires
                        t2 * qd == t * qd - qn * dn,
                        qn * dn <= t * qd,
                        qd > 0,
                ;
                assert(between(f, f2, kh));
                lemma_scan_suffix(m, o, d, horz, f, f2, kh);
                assert(0 <= a2 <= lines(m, horz) * CELL);
                assert(-MAX_DIM * CELL <= t2 <= MAX_DIM * CELL);
            },
            None => {
                lemma_scan_none_suffix(m, o, d, horz, f, f2);
            },
        }
    }
}

/// Moving the origin of a ray toward the wall it hits, by `qn / qd > 0`
/// direction lengths along the ray and not past that wall, leaves the same
/// wall hit at the same point, that much nearer: the distance strictly
/// decreases.
pub proof fn lemma_closer_origin_shorter_ray(
    m: GridMap,
    o: Point,
    d: Dir,
    qn: int,
    qd: int,
    o2: Point,
)
    requires
        m.wf(),
        dir_ok(d),
        qn > 0,
        qd > 0,
        moved_along(o, o2, d, qn, qd),
        in_world(m, o),
        in_world(m, o2),
        cast(m, o, d) matches Some(h) && qn * h.t_den <= h.t_num * qd,
    ensures
        cast(m, o, d) matches Some(h) && (cast(m, o2, d) matches Some(h2) && same_hit_nearer(
            h2,
            h,
            qn,
            qd,
        ) && h2.t_num < h.t_num),
{
    let hh = family_hit(m, o, d, true);
    let vv = family_hit(m, o, d, false);
    let h = cast(m, o, d).unwrap();
    match (hh, vv) {
        (Some(a), Some(b)) => {
            assert(a.t_den > 0 && b.t_den > 0);
            if nearer(a, b) {
                assert(qn * b.t_den <= b.t_num * qd) by (nonlinear_arith)
                    requires
                        a.t_num * b.t_den < b.t_num * a.t_den,
                        qn * a.t_den <= a.t_num * qd,
                        a.t_den > 0,
                        b.t_den > 0,
                        qd > 0,
                ;
            } else {
                assert(qn * a.t_den <= a.t_num * qd) by (nonlinear_arith)
                    requires
                        a.t_num * b.t_den >= b.t_num * a.t_den,
                        qn * b.t_den <= b.t_num * qd,
                        a.t_den > 0,
                        b.t_den > 0,
                        qd > 0,
                ;
            }
            lemma_family_moved(m, o, o2, d, true, qn, qd);
            lemma_family_moved(m, o, o2, d, false, qn, qd);
            let a2 = family_hit(m, o2, d, true).unwrap();
            let b2 = family_hit(m, o2, d, false).unwrap();
            assert((a2.t_num * b2.t_den) * qd == (a.t_num * b.t_den) * qd - qn * (a.t_den * b.t_den))
                by (nonlinear_arith)
                requires
                    a2.t_num * qd == a.t_num * qd - qn * a.t_den,
                    b2.t_den == b.t_den,
            ;
            assert((b2.t_num * a2.t_den) * qd == (b.t_num * a.t_den) * qd - qn * (a.t_den * b.t_den))
                by (nonlinear_arith)
                requires
                    b2.t_num * qd == b.t_num * qd - qn * b.t_den,
                    a2.t_den == a.t_den,
            ;
            assert(nearer(a2, b2) == nearer(a, b)) by (nonlinear_arith)
                requires
                    (a2.t_num * b2.t_den) * qd == (a.t_num * b.t_den) * qd - qn * (a.t_den
                        * b.t_den),
                    (b2.t_num * a2.t_den) * qd == (b.t_num * a.t_den) * qd - qn * (a.t_den
                        * b.t_den),
                    qd > 0,
            ;
        },
        _ => {
            lemma_family_moved(m, o, o2, d, true, qn, qd);
            lemma_family_moved(m, o, o2, d, false, qn, qd);
        },
    }
    let h2 = cast(m, o2, d).unwrap();
    assert(h2.t_num < h.t_num) by (nonlinear_arith)
        requires
            h2.t_num * qd == h.t_num * qd - qn * h.t_den,
            qn > 0,
            qd > 0,
            h.t_den > 0,
    ;
}

} // verus!

use vstd::prelude::*;
use vstd::arithmetic::div_mod::{
    lemma_div_pos_is_pos, lemma_fundamental_div_mod, lemma_mod_pos_bound,
};
use vstd::arithmetic::mul::{
    lemma_mul_inequality, lemma_mul_inequality_converse, lemma_mul_left_inequality,
    lemma_mul_strict_inequality_converse,
};
use crate::geometry::{
    Point, floor_sqrt, isqrt, lemma_floor_sqrt_exists, lemma_square_le, lemma_square_lt_rev,
};

verus! {

/// The magnitude of `x`.
pub open spec fn magnitude(x: int) -> int {
    if x < 0 {
        -x
    } else {
        x
    }
}

/// `q` is the whole part of `p / sqrt(len2)`, for `p` given by its square.
pub open spec fn is_whole_part(q: int, p2: int, len2: int) -> bool {
    0 <= q && q * q * len2 <= p2 < (q + 1) * (q + 1) * len2
}

/// How far along one axis a point has come that has travelled the distance
/// `s` on a ray whose direction has the component `d` on that axis and the
/// squared length `len2`: the quotient `d * s / sqrt(len2)`, rounded toward zero.
pub open spec fn along(d: int, s: int, len2: int) -> int {
    let q = floor_sqrt((((d * s) * (d * s)) / len2) as nat) as int;
    if d < 0 {
        -q
    } else {
        q
    }
}

/// The grid point reached after travelling the distance `s` from `origin`
/// straight toward `target`: the exact point of the ray, each coordinate
/// rounded toward `origin`.
pub open spec fn ray_point(origin: Point, target: Point, s: int) -> Point {
    let dx = target.x - origin.x;
    let dy = target.y - origin.y;
    let len2 = dx * dx + dy * dy;
    Point {
        x: (origin.x + along(dx, s, len2)) as i64,
        y: (origin.y + along(dy, s, len2)) as i64,
    }
}

/// The magnitude of `along(d, s, len2)` is the whole part of
/// `|d| * s / sqrt(len2)`, and its sign is that of `d`.
pub proof fn lemma_along(d: int, s: int, len2: int)
    requires
        len2 > 0,
    ensures
        is_whole_part(magnitude(along(d, s, len2)), (d * s) * (d * s), len2),
        d < 0 ==> along(d, s, len2) <= 0,
        d >= 0 ==> along(d, s, len2) >= 0,
{
    let p2 = (d * s) * (d * s);
    assert(p2 >= 0) by (nonlinear_arith)
        requires
            p2 == (d * s) * (d * s),
    ;
    let n = p2 / len2;
    lemma_div_pos_is_pos(p2, len2);
    lemma_fundamental_div_mod(p2, len2);
    lemma_mod_pos_bound(p2, len2);
    lemma_floor_sqrt_exists(n as nat);
    let q = floor_sqrt(n as nat) as int;
    assert(magnitude(along(d, s, len2)) == q);
    let low = q * q;
    let high = (q + 1) * (q + 1);
    assert(low <= n < high);
    lemma_mul_inequality(low, n, len2);
    lemma_mul_inequality(n + 1, high, len2);
    assert(len2 * n == n * len2) by (nonlinear_arith);
    assert((n + 1) * len2 == n * len2 + len2) by (nonlinear_arith);
}

/// A larger quotient has the larger whole part.
pub proof fn lemma_whole_part_monotone(q1: int, p1: int, q2: int, p2: int, len2: int)
    requires
        len2 > 0,
        is_whole_part(q1, p1, len2),
        is_whole_part(q2, p2, len2),
        p1 <= p2,
    ensures
        q1 <= q2,
{
    if q2 < q1 {
        lemma_square_le(q2 + 1, q1);
        lemma_mul_inequality((q2 + 1) * (q2 + 1), q1 * q1, len2);
    }
}

/// A point never gets further along an axis than it has travelled.
pub proof fn lemma_along_within(d: int, s: int, len2: int)
    requires
        len2 > 0,
        s >= 0,
        d * d <= len2,
    ensures
        -s <= along(d, s, len2) <= s,
{
    lemma_along(d, s, len2);
    let q = magnitude(along(d, s, len2));
    if q > s {
        lemma_square_le(s + 1, q);
        lemma_mul_inequality((s + 1) * (s + 1), q * q, len2);
        assert((d * s) * (d * s) == (d * d) * (s * s)) by (nonlinear_arith);
        lemma_mul_inequality(d * d, len2, s * s);
        assert(len2 * (s * s) < (s + 1) * (s + 1) * len2) by (nonlinear_arith)
            requires
                len2 > 0,
                s >= 0,
        ;
    }
}

/// The further a point has travelled, the further along each axis it has come.
pub proof fn lemma_along_monotone(d: int, s1: int, s2: int, len2: int)
    requires
        len2 > 0,
        0 <= s1 <= s2,
    ensures
        magnitude(along(d, s1, len2)) <= magnitude(along(d, s2, len2)),
{
    lemma_along(d, s1, len2);
    lemma_along(d, s2, len2);
    assert((d * s1) * (d * s1) <= (d * s2) * (d * s2)) by (nonlinear_arith)
        requires
            0 <= s1 <= s2,
    ;
    lemma_whole_part_monotone(
        magnitude(along(d, s1, len2)),
        (d * s1) * (d * s1),
        magnitude(along(d, s2, len2)),
        (d * s2) * (d * s2),
        len2,
    );
}

proof fn lemma_lean(a: int, b: int, da: int, db: int, len2: int, s2: int)
    requires
        a >= 0,
        b >= 0,
        da >= 0,
        db >= 0,
        len2 > 0,
        s2 >= 0,
        a * a * len2 <= (da * da) * s2,
        (db * db) * s2 < (b + 1) * (b + 1) * len2,
    ensures
        da > 0 ==> a * db < (b + 1) * da,
        da == 0 ==> a == 0,
{
    if da == 0 {
        if a > 0 {
            assert(a * a * len2 > 0) by (nonlinear_arith)
                requires
                    a > 0,
                    len2 > 0,
            ;
            assert((da * da) * s2 == 0) by (nonlinear_arith)
                requires
                    da == 0,
            ;
        }
    } else {
        let u = a * a * len2;
        let v = (da * da) * s2;
        let w = (db * db) * s2;
        let z = (b + 1) * (b + 1) * len2;
        let lhs = (a * db) * (a * db);
        let rhs = ((b + 1) * da) * ((b + 1) * da);
        assert(db * db >= 0 && da * da > 0 && a * db >= 0 && (b + 1) * da >= 0)
            by (nonlinear_arith)
            requires
                a >= 0,
                b >= 0,
                da > 0,
                db >= 0,
        ;
        lemma_mul_inequality(u, v, db * db);
        assert(v * (db * db) == (da * da) * w) by (nonlinear_arith)
            requires
                v == (da * da) * s2,
                w == (db * db) * s2,
        ;
        lemma_mul_left_inequality(da * da, w, z);
        assert(u * (db * db) == lhs * len2) by (nonlinear_arith)
            requires
                u == a * a * len2,
                lhs == (a * db) * (a * db),
        ;
        assert((da * da) * z == rhs * len2) by (nonlinear_arith)
            requires
                z == (b + 1) * (b + 1) * len2,
                rhs == ((b + 1) * da) * ((b + 1) * da),
        ;
        lemma_mul_strict_inequality_converse(lhs, rhs, len2);
        lemma_square_lt_rev(a * db, (b + 1) * da);
    }
}

/// Where a trajectory stands after the distance `s`: on the side of `origin`
/// that `target` is on, less than one grid step away from the straight line
/// through the two, and at the distance `s` from `origin` up to the rounding
/// of its two coordinates.
pub proof fn lemma_ray_point_on_course(origin: Point, target: Point, s: int)
    requires
        origin.in_range(),
        target.in_range(),
        origin != target,
        0 <= s <= u32::MAX,
    ensures
        ({
            let p = ray_point(origin, target, s);
            let dx = target.x - origin.x;
            let dy = target.y - origin.y;
            let ox = p.x - origin.x;
            let oy = p.y - origin.y;
            &&& ox == along(dx, s, dx * dx + dy * dy)
            &&& oy == along(dy, s, dx * dx + dy * dy)
            &&& ox * dx >= 0
            &&& oy * dy >= 0
            &&& (ox * dy - oy * dx) * (ox * dy - oy * dx) < dx * dx + dy * dy
            &&& ox * ox + oy * oy <= s * s
            &&& s * s < (magnitude(ox) + 1) * (magnitude(ox) + 1) + (magnitude(oy) + 1) * (
            magnitude(oy) + 1)
        }),
{
    let dx = target.x - origin.x;
    let dy = target.y - origin.y;
    let len2 = dx * dx + dy * dy;
    assert(dx * dx >= 0 && dy * dy >= 0 && len2 > 0) by (nonlinear_arith)
        requires
            dx != 0 || dy != 0,
            len2 == dx * dx + dy * dy,
    ;
    lemma_along(dx, s, len2);
    lemma_along(dy, s, len2);
    lemma_along_within(dx, s, len2);
    lemma_along_within(dy, s, len2);
    let ox = along(dx, s, len2);
    let oy = along(dy, s, len2);
    let a = magnitude(ox);
    let b = magnitude(oy);
    let da = magnitude(dx);
    let db = magnitude(dy);
    let s2 = s * s;
    assert(s2 >= 0) by (nonlinear_arith)
        requires
            s2 == s * s,
    ;
    assert((dx * s) * (dx * s) == (da * da) * s2 && (dy * s) * (dy * s) == (db * db) * s2
        && da * da == dx * dx && db * db == dy * dy) by (nonlinear_arith)
        requires
            da == dx || da == -dx,
            db == dy || db == -dy,
            s2 == s * s,
    ;
    lemma_lean(a, b, da, db, len2, s2);
    lemma_lean(b, a, db, da, len2, s2);
    let c = a * db - b * da;
    assert(ox * dx >= 0 && oy * dy >= 0 && ox * ox == a * a && oy * oy == b * b && (ox * dy - oy
        * dx) * (ox * dy - oy * dx) == c * c) by (nonlinear_arith)
        requires
            (ox == a && dx == da && a >= 0 && da >= 0) || (ox == -a && dx == -da && a >= 0 && da
                > 0),
            (oy == b && dy == db && b >= 0 && db >= 0) || (oy == -b && dy == -db && b >= 0 && db
                > 0),
            c == a * db - b * da,
    ;
    assert(c * c < len2) by {
        assert(a * db >= 0 && b * da >= 0 && (b + 1) * da == b * da + da && (a + 1) * db == a * db
            + db) by (nonlinear_arith)
            requires
                a >= 0,
                b >= 0,
                da >= 0,
                db >= 0,
        ;
        if c >= 0 {
            if da > 0 {
                lemma_square_le(c, da - 1);
                assert((da - 1) * (da - 1) < da * da) by (nonlinear_arith)
                    requires
                        da > 0,
                ;
            } else {
                assert(c == 0);
                assert(c * c == 0);
            }
        } else {
            assert(db > 0);
            lemma_square_le(-c, db - 1);
            assert((-c) * (-c) == c * c) by (nonlinear_arith);
            assert((db - 1) * (db - 1) < db * db) by (nonlinear_arith)
                requires
                    db > 0,
            ;
        }
    }
    assert(a * a + b * b <= s2 && s2 < (a + 1) * (a + 1) + (b + 1) * (b + 1)) by {
        let lo = a * a + b * b;
        let hi = (a + 1) * (a + 1) + (b + 1) * (b + 1);
        assert(lo * len2 == a * a * len2 + b * b * len2) by (nonlinear_arith)
            requires
                lo == a * a + b * b,
        ;
        assert(hi * len2 == (a + 1) * (a + 1) * len2 + (b + 1) * (b + 1) * len2)
            by (nonlinear_arith)
            requires
                hi == (a + 1) * (a + 1) + (b + 1) * (b + 1),
        ;
        assert((da * da) * s2 + (db * db) * s2 == s2 * len2) by (nonlinear_arith)
            requires
                len2 == da * da + db * db,
        ;
        lemma_mul_inequality_converse(lo, s2, len2);
        lemma_mul_strict_inequality_converse(s2, hi, len2);
    }
}

/// Computes `along(d, s, len2)`.
fn step_along(d: i64, s: u32, len2: u128) -> (q: i64)
    requires
        -0x1_0000_0000 <= d <= 0x1_0000_0000,
        len2 > 0,
        d * d <= len2,
    ensures
        q == along(d as int, s as int, len2 as int),
        -s <= q <= s,
{
    let a: u128 = if d < 0 {
        (-(d as i128)) as u128
    } else {
        d as u128
    };
    assert(a * s <= 0x1_0000_0000 * 0xffff_ffff) by (nonlinear_arith)
        requires
            0 <= a <= 0x1_0000_0000,
            0 <= s <= 0xffff_ffff,
    ;
    let p: u128 = a * (s as u128);
    assert(p * p <= u128::MAX && p * p == (d * s) * (d * s)) by (nonlinear_arith)
        requires
            p == a * s,
            a == d || a == -d,
            0 <= a <= 0x1_0000_0000,
            0 <= s <= 0xffff_ffff,
    ;
    let r = isqrt((p * p) / len2);
    proof {
        lemma_along_within(d as int, s as int, len2 as int);
    }
    if d < 0 {
        -(r as i64)
    } else {
        r as i64
    }
}

/// Computes the grid point reached after travelling the distance `s` from
/// `origin` straight toward `target`.
pub fn point_on_ray(origin: &Point, target: &Point, s: u32) -> (p: Point)
    requires
        origin.in_range(),
        target.in_range(),
        *origin != *target,
    ensures
        p == ray_point(*origin, *target, s as int),
{
    let dx: i64 = target.x - origin.x;
    let dy: i64 = target.y - origin.y;
    assert(0 <= dx * dx <= 0x1_0000_0000_0000_0000 && 0 <= dy * dy <= 0x1_0000_0000_0000_0000
        && dx * dx + dy * dy > 0) by (nonlinear_arith)
        requires
            -0x1_0000_0000 <= dx <= 0x1_0000_0000,
            -0x1_0000_0000 <= dy <= 0x1_0000_0000,
            dx != 0 || dy != 0,
    ;
    let wx: i128 = dx as i128;
    let wy: i128 = dy as i128;
    let len2: u128 = (wx * wx + wy * wy) as u128;
    let qx = step_along(dx, s, len2);
    let qy = step_along(dy, s, len2);
    Point { x: origin.x + qx, y: origin.y + qy }
}

} // verus!

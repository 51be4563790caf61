//! Points with integer coordinates and an exact, canonical key for the
//! straight line through two distinct points.
use crate::arith::{spec_gcd, gcd, lemma_gcd_divides, lemma_reduced_coprime, lemma_reduced_unique};
use vstd::arithmetic::div_mod::{lemma_div_nonincreasing, lemma_fundamental_div_mod};
use vstd::prelude::*;

verus! {

/// A point with integer coordinates.
#[derive(Clone, Copy, Debug, PartialEq, Eq, Hash, Structural)]
pub struct Point {
    pub x: i32,
    pub y: i32,
}

/// Canonical key of an infinite line.
///
/// A vertical line is keyed by its x coordinate. Any other line is keyed by
/// its direction `(dx, dy)` reduced to lowest terms with `dx > 0`, and by
/// `b = dx * y - dy * x`, which is the same for every point of the line: the
/// line's intercept at `x = 0` is the exact fraction `b / dx`.
#[derive(Clone, Copy, Debug, PartialEq, Eq, Hash, Structural)]
pub enum Line {
    Vertical(i32),
    Regular { dx: i64, dy: i64, b: i128 },
}

pub open spec fn abs(v: int) -> nat {
    if v < 0 {
        (-v) as nat
    } else {
        v as nat
    }
}

/// `t` lies on the line through `p` and `q` (for `p != q`).
pub open spec fn colinear(p: Point, q: Point, t: Point) -> bool {
    (q.x - p.x) * (t.y - p.y) == (q.y - p.y) * (t.x - p.x)
}

/// The reduced direction `(u, v)` of a non-vertical segment from `p` to
/// `q`: `u > 0` and `(u, v)` is `(q - p)` divided by the gcd of its
/// components, with the sign of both flipped when `q.x < p.x`.
pub open spec fn reduced_dx(p: Point, q: Point) -> int {
    let dx = q.x - p.x;
    let dy = q.y - p.y;
    (abs(dx) / spec_gcd(abs(dx), abs(dy))) as int
}

pub open spec fn reduced_dy(p: Point, q: Point) -> int {
    let dx = q.x - p.x;
    let dy = q.y - p.y;
    let w = (abs(dy) / spec_gcd(abs(dx), abs(dy))) as int;
    if (dx < 0) == (dy < 0) {
        w
    } else {
        -w
    }
}

/// The canonical key of the line through two distinct points.
pub open spec fn line_key(p: Point, q: Point) -> Line {
    if p.x == q.x {
        Line::Vertical(p.x)
    } else {
        let u = reduced_dx(p, q);
        let v = reduced_dy(p, q);
        Line::Regular { dx: u as i64, dy: v as i64, b: (u * p.y - v * p.x) as i128 }
    }
}

/// `t` lies on the line that `k` stands for.
pub open spec fn on_line(k: Line, t: Point) -> bool {
    match k {
        Line::Vertical(x) => t.x == x,
        Line::Regular { dx, dy, b } => dx * t.y - dy * t.x == b,
    }
}

/// Divides both components by the gcd of their absolute values, keeping
/// their signs.
fn reduce_factors(a: i64, b: i64) -> (r: (i64, i64))
    requires
        a != 0 || b != 0,
        a > i64::MIN,
        b > i64::MIN,
    ensures
        ({
            let g = spec_gcd(abs(a as int), abs(b as int));
            &&& r.0 == if a < 0 { -(abs(a as int) / g) } else { (abs(a as int) / g) as int }
            &&& r.1 == if b < 0 { -(abs(b as int) / g) } else { (abs(b as int) / g) as int }
        }),
{
    let abs_a: i64 = if a >= 0 { a } else { -a };
    let abs_b: i64 = if b >= 0 { b } else { -b };
    let g = gcd(abs_a, abs_b);
    proof {
        lemma_gcd_divides(abs_a as nat, abs_b as nat);
    }
    (a / g, b / g)
}


impl Line {
    /// The canonical key of the line through two distinct points; it does
    /// not depend on the order of the two points.
    pub fn find_line(p1: &Point, p2: &Point) -> (r: Line)
        requires
            *p1 != *p2,
        ensures
            r == line_key(*p1, *p2),
    {
        let dx: i64 = p2.x as i64 - p1.x as i64;
        let dy: i64 = p2.y as i64 - p1.y as i64;
        if dx == 0 {
            return Line::Vertical(p1.x);
        }
        proof {
            lemma_direction(*p1, *p2);
        }
        let (rx, ry) = reduce_factors(dx, dy);
        let (u, v) = if rx < 0 { (-rx, -ry) } else { (rx, ry) };
        assert(u == reduced_dx(*p1, *p2) && v == reduced_dy(*p1, *p2));
        let ghost (gu, gv, gx, gy) = (u as int, v as int, p1.x as int, p1.y as int);
        assert(-0x8000_0000_0000_0000 <= gu * gy <= 0x8000_0000_0000_0000) by (nonlinear_arith)
            requires
                0 < gu <= 0xffff_ffff,
                -0x8000_0000 <= gy <= 0x7fff_ffff,
        ;
        assert(-0x8000_0000_0000_0000 <= gv * gx <= 0x8000_0000_0000_0000) by (nonlinear_arith)
            requires
                -0xffff_ffff <= gv <= 0xffff_ffff,
                -0x8000_0000 <= gx <= 0x7fff_ffff,
        ;
        let b: i128 = u as i128 * p1.y as i128 - v as i128 * p1.x as i128;
        Line::Regular { dx: u, dy: v, b }
    }
}

/// What the reduced direction of a non-vertical segment is made of: with
/// `g` the gcd and `s` the sign of `dx`, `(dx, dy) == s * g * (u, v)`,
/// `u > 0`, and `u` and `|v|` are coprime and no larger than `|dx|`, `|dy|`.
pub proof fn lemma_direction(p: Point, q: Point)
    requires
        p.x != q.x,
    ensures
        ({
            let dx = q.x - p.x;
            let dy = q.y - p.y;
            let g = spec_gcd(abs(dx), abs(dy)) as int;
            let s: int = if dx > 0 { 1 } else { -1 };
            let u = reduced_dx(p, q);
            let v = reduced_dy(p, q);
            &&& g > 0
            &&& 0 < u <= abs(dx)
            &&& abs(v) <= abs(dy)
            &&& spec_gcd(u as nat, abs(v)) == 1
            &&& dx == s * g * u
            &&& dy == s * g * v
        }),
{
    let dx = q.x - p.x;
    let dy = q.y - p.y;
    let (a, b) = (abs(dx), abs(dy));
    let g = spec_gcd(a, b);
    lemma_gcd_divides(a, b);
    lemma_reduced_coprime(a, b);
    lemma_fundamental_div_mod(a as int, g as int);
    lemma_fundamental_div_mod(b as int, g as int);
    lemma_div_nonincreasing(a as int, g as int);
    lemma_div_nonincreasing(b as int, g as int);
    let u = a / g;
    let w = b / g;
    assert(a == g * u && b == g * w);
    assert(u > 0) by (nonlinear_arith)
        requires
            a == g * u,
            a > 0,
    ;
    let s: int = if dx > 0 { 1 } else { -1 };
    let v = reduced_dy(p, q);
    assert(dx == s * g * u) by (nonlinear_arith)
        requires
            a == g * u,
            s == 1 ==> dx == a,
            s == -1 ==> dx == -a,
            s == 1 || s == -1,
    ;
    assert(dy == s * g * v) by (nonlinear_arith)
        requires
            b == g * w,
            s == 1 <==> dx > 0,
            s == 1 || s == -1,
            dx != 0,
            dy >= 0 ==> b == dy,
            dy < 0 ==> b == -dy,
            (dx < 0) == (dy < 0) ==> v == w,
            (dx < 0) != (dy < 0) ==> v == -w,
    ;
}


/// The fields of a non-vertical key are the reduced direction and
/// `u * p.y - v * p.x`, with no loss in the casts.
proof fn lemma_key_fields(p: Point, q: Point)
    requires
        p.x != q.x,
    ensures
        line_key(p, q) matches Line::Regular { dx, dy, b } && dx == reduced_dx(p, q) && dy
            == reduced_dy(p, q) && b == reduced_dx(p, q) * p.y - reduced_dy(p, q) * p.x,
{
    lemma_direction(p, q);
    let u = reduced_dx(p, q);
    let v = reduced_dy(p, q);
    let (x, y) = (p.x as int, p.y as int);
    assert(-0x8000_0000_0000_0000 <= u * y <= 0x8000_0000_0000_0000) by (nonlinear_arith)
        requires
            0 < u <= 0xffff_ffff,
            -0x8000_0000 <= y <= 0x7fff_ffff,
    ;
    assert(-0x8000_0000_0000_0000 <= v * x <= 0x8000_0000_0000_0000) by (nonlinear_arith)
        requires
            -0xffff_ffff <= v <= 0xffff_ffff,
            -0x8000_0000 <= x <= 0x7fff_ffff,
    ;
}

/// A point lies on the line that the key of `p`, `q` stands for exactly when
/// it is colinear with `p` and `q`.
pub proof fn lemma_on_line_iff_colinear(p: Point, q: Point, t: Point)
    requires
        p != q,
    ensures
        on_line(line_key(p, q), t) <==> colinear(p, q, t),
{
    let dx = q.x - p.x;
    let dy = q.y - p.y;
    let ex = t.x - p.x;
    let ey = t.y - p.y;
    if dx == 0 {
        assert(dy != 0);
        assert(dy * ex == 0 <==> ex == 0) by (nonlinear_arith)
            requires
                dy != 0,
        ;
    } else {
        lemma_direction(p, q);
        let g = spec_gcd(abs(dx), abs(dy)) as int;
        let sg: int = if dx > 0 { g } else { -g };
        let u = reduced_dx(p, q);
        let v = reduced_dy(p, q);
        assert(dx == sg * u && dy == sg * v) by (nonlinear_arith)
            requires
                dx == (if dx > 0 { 1int } else { -1int }) * g * u,
                dy == (if dx > 0 { 1int } else { -1int }) * g * v,
                sg == (if dx > 0 { g } else { -g }),
        ;
        assert(dx * ey - dy * ex == sg * (u * ey - v * ex)) by (nonlinear_arith)
            requires
                dx == sg * u,
                dy == sg * v,
        ;
        assert(sg * (u * ey - v * ex) == 0 <==> u * ey - v * ex == 0) by (nonlinear_arith)
            requires
                sg != 0,
        ;
        assert(u * t.y - v * t.x - (u * p.y - v * p.x) == u * ey - v * ex) by (nonlinear_arith)
            requires
                ex == t.x - p.x,
                ey == t.y - p.y,
        ;
        lemma_key_fields(p, q);
    }
}

/// Two pairs of distinct points get the same key exactly when both points of
/// the second pair lie on the line through the first: keys never merge two
/// lines and never split one.
pub proof fn lemma_same_key_iff_same_line(p: Point, q: Point, r: Point, s: Point)
    requires
        p != q,
        r != s,
    ensures
        line_key(p, q) == line_key(r, s) <==> (colinear(p, q, r) && colinear(p, q, s)),
{
    lemma_on_line_iff_colinear(p, q, r);
    lemma_on_line_iff_colinear(p, q, s);
    lemma_on_line_iff_colinear(r, s, r);
    lemma_on_line_iff_colinear(r, s, s);
    assert(colinear(r, s, r) && colinear(r, s, s)) by (nonlinear_arith);
    if colinear(p, q, r) && colinear(p, q, s) {
        lemma_key_of_points_on_line(p, q, r, s);
    }
}

/// The key computed from any two distinct points of a line is the key of
/// that line.
proof fn lemma_key_of_points_on_line(p: Point, q: Point, r: Point, s: Point)
    requires
        p != q,
        r != s,
        on_line(line_key(p, q), r),
        on_line(line_key(p, q), s),
    ensures
        line_key(r, s) == line_key(p, q),
{
    if p.x == q.x {
        assert(r.x == s.x);
    } else {
        lemma_direction(p, q);
        lemma_key_fields(p, q);
        let u = reduced_dx(p, q);
        let v = reduced_dy(p, q);
        // u * (s.y - r.y) == v * (s.x - r.x)
        let (ex, ey) = (s.x - r.x, s.y - r.y);
        assert(u * ey == v * ex) by (nonlinear_arith)
            requires
                u * r.y - v * r.x == u * s.y - v * s.x,
                ex == s.x - r.x,
                ey == s.y - r.y,
        ;
        if r.x == s.x {
            assert(ey == 0) by (nonlinear_arith)
                requires
                    u * ey == v * ex,
                    ex == 0,
                    u > 0,
            ;
            assert(false);
        }
        lemma_direction(r, s);
        lemma_key_fields(r, s);
        let g2 = spec_gcd(abs(ex), abs(ey)) as int;
        let sg2: int = if ex > 0 { g2 } else { -g2 };
        let u2 = reduced_dx(r, s);
        let v2 = reduced_dy(r, s);
        assert(ex == sg2 * u2 && ey == sg2 * v2) by (nonlinear_arith)
            requires
                ex == (if ex > 0 { 1int } else { -1int }) * g2 * u2,
                ey == (if ex > 0 { 1int } else { -1int }) * g2 * v2,
                sg2 == (if ex > 0 { g2 } else { -g2 }),
        ;
        assert(u * v2 == v * u2) by (nonlinear_arith)
            requires
                u * ey == v * ex,
                ex == sg2 * u2,
                ey == sg2 * v2,
                sg2 != 0,
        ;
        // equal ratios: signs agree and magnitudes agree
        assert(u * abs(v2) == u2 * abs(v)) by (nonlinear_arith)
            requires
                u * v2 == v * u2,
                u > 0,
                u2 > 0,
                v2 >= 0 ==> abs(v2) == v2,
                v2 < 0 ==> abs(v2) == -v2,
                v >= 0 ==> abs(v) == v,
                v < 0 ==> abs(v) == -v,
        ;
        lemma_reduced_unique(u as nat, abs(v), u2 as nat, abs(v2));
        assert(v == v2) by (nonlinear_arith)
            requires
                u * v2 == v * u2,
                u == u2,
                u > 0,
        ;
    }
}

/// The key does not depend on the order of the two points.
pub proof fn lemma_key_symmetric(p: Point, q: Point)
    requires
        p != q,
    ensures
        line_key(p, q) == line_key(q, p),
{
    assert(colinear(p, q, q) && colinear(p, q, p)) by (nonlinear_arith);
    lemma_same_key_iff_same_line(p, q, q, p);
}

/// Keys are transitive along a shared point: if `a`, `b` and `b`, `c` give
/// one key, `a`, `c` give it too.
pub proof fn lemma_key_transitive(a: Point, b: Point, c: Point)
    requires
        a != b,
        b != c,
        a != c,
        line_key(a, b) == line_key(b, c),
    ensures
        line_key(a, c) == line_key(a, b),
{
    lemma_same_key_iff_same_line(a, b, b, c);
    assert(colinear(a, b, a)) by (nonlinear_arith);
    lemma_same_key_iff_same_line(a, b, a, c);
}

} // verus!

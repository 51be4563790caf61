//! The largest number of input points that lie on one straight line.
//!
//! Every pair of distinct points is keyed by the canonical key of its line,
//! and each key collects the distinct points seen on it.
use crate::line::{
    colinear, lemma_key_symmetric, lemma_on_line_iff_colinear, lemma_same_key_iff_same_line,
    line_key, on_line, Line, Point,
};
use vstd::prelude::*;

verus! {

/// `s` with `p` appended unless it is already there.
pub open spec fn added(s: Seq<Point>, p: Point) -> Seq<Point> {
    if s.contains(p) {
        s
    } else {
        s.push(p)
    }
}

proof fn lemma_added(s: Seq<Point>, p: Point)
    ensures
        forall|t: Point| #[trigger] added(s, p).contains(t) <==> s.contains(t) || t == p,
        added(s, p).len() >= s.len(),
        forall|i: int| 0 <= i < s.len() ==> #[trigger] added(s, p)[i] == s[i],
        s.no_duplicates() ==> added(s, p).no_duplicates(),
{
    if !s.contains(p) {
        assert forall|t: Point| #[trigger] added(s, p).contains(t) <==> s.contains(t) || t == p by {
            if s.contains(t) {
                let i = choose|i: int| 0 <= i < s.len() && s[i] == t;
                assert(added(s, p)[i] == t);
            }
            if t == p {
                assert(added(s, p)[s.len() as int] == t);
            }
        }
    }
}

/// The registry of lines: keys are pairwise distinct and no point is listed
/// twice under a key.
pub open spec fn registry_wf(m: Seq<(Line, Vec<Point>)>) -> bool {
    &&& forall|i: int, j: int| 0 <= i < j < m.len() ==> m[i].0 != m[j].0
    &&& forall|i: int| 0 <= i < m.len() ==> (#[trigger] m[i]).1@.no_duplicates()
}

/// The point that a two-entry vector stands for.
pub open spec fn point_of(v: Vec<i32>) -> Point {
    Point { x: v@[0], y: v@[1] }
}

pub open spec fn points_of(pts: Seq<Vec<i32>>) -> Seq<Point> {
    Seq::new(pts.len(), |i: int| point_of(pts[i]))
}

/// The points of `s` on the line through `p` and `q`.
pub open spec fn points_on(s: Set<Point>, p: Point, q: Point) -> Set<Point> {
    s.filter(|t: Point| colinear(p, q, t))
}

/// `r` is the largest number of distinct points of `pts` on one line: the
/// number of distinct points when there are fewer than two, else the most
/// that any line through two distinct points of `pts` holds.
pub open spec fn is_max_colinear(pts: Seq<Point>, r: int) -> bool {
    let s = pts.to_set();
    if s.len() <= 1 {
        r == s.len()
    } else {
        &&& forall|p: Point, q: Point|
            s.contains(p) && s.contains(q) && p != q ==> #[trigger] points_on(s, p, q).len() <= r
        &&& exists|p: Point, q: Point|
            s.contains(p) && s.contains(q) && p != q && #[trigger] points_on(s, p, q).len() == r
    }
}

impl Point {
    /// The point whose coordinates are the two entries of `point`.
    pub fn from(point: &Vec<i32>) -> (r: Point)
        requires
            point.len() == 2,
        ensures
            r == (Point { x: point[0], y: point[1] }),
    {
        Point { x: point[0], y: point[1] }
    }
}

/// Appends `p` to `set` unless it is already there.
fn insert_point(set: &mut Vec<Point>, p: Point)
    requires
        old(set)@.no_duplicates(),
    ensures
        final(set)@ == added(old(set)@, p),
        final(set)@.no_duplicates(),
{
    let mut i: usize = 0;
    while i < set.len()
        invariant
            i <= set.len(),
            set@ == old(set)@,
            set@.no_duplicates(),
            forall|j: int| 0 <= j < i ==> set@[j] != p,
        decreases set.len() - i,
    {
        if set[i] == p {
            return;
        }
        i += 1;
    }
    set.push(p);
}

/// Adds `p1` and `p2` to the points of `line` in `memo`, making an entry for
/// `line` if there is none, and returns how many points `line` now holds.
fn register_points_in_line(
    memo: &mut Vec<(Line, Vec<Point>)>,
    line: Line,
    p1: &Point,
    p2: &Point,
) -> (r: i32)
    requires
        registry_wf(old(memo)@),
        forall|k: int|
            0 <= k < old(memo).len() && (#[trigger] old(memo)[k]).0 == line ==> added(
                added(old(memo)[k].1@, *p1),
                *p2,
            ).len() <= i32::MAX,
    ensures
        registry_wf(final(memo)@),
        final(memo).len() >= old(memo).len(),
        forall|k: int|
            0 <= k < old(memo).len() && (#[trigger] old(memo)[k]).0 != line ==> final(memo)[k]
                == old(memo)[k],
        forall|k: int|
            0 <= k < old(memo).len() && (#[trigger] old(memo)[k]).0 == line ==> {
                &&& final(memo).len() == old(memo).len()
                &&& final(memo)[k].0 == line
                &&& final(memo)[k].1@ == added(added(old(memo)[k].1@, *p1), *p2)
                &&& r == final(memo)[k].1.len()
            },
        (forall|k: int| 0 <= k < old(memo).len() ==> (#[trigger] old(memo)[k]).0 != line) ==> {
            &&& final(memo).len() == old(memo).len() + 1
            &&& final(memo)[old(memo).len() as int].0 == line
            &&& final(memo)[old(memo).len() as int].1@ == added(added(seq![], *p1), *p2)
            &&& r == final(memo)[old(memo).len() as int].1.len()
        },
{
    let mut k: usize = 0;
    while k < memo.len() && memo[k].0 != line
        invariant
            k <= memo.len(),
            forall|j: int| 0 <= j < k ==> (#[trigger] memo[j]).0 != line,
        decreases memo.len() - k,
    {
        k += 1;
    }
    if k == memo.len() {
        let mut points: Vec<Point> = Vec::new();
        insert_point(&mut points, *p1);
        insert_point(&mut points, *p2);
        let count = points.len() as i32;
        memo.push((line, points));
        return count;
    }
    insert_point(&mut memo[k].1, *p1);
    insert_point(&mut memo[k].1, *p2);
    memo[k].1.len() as i32
}

/// The pair `(a, b)` of indices, `a < b`, comes before `(i, j)` in the
/// enumeration order.
pub open spec fn done(a: int, b: int, i: int, j: int) -> bool {
    a < i || (a == i && b < j)
}

/// The registry holds `p` and `q` under the key of their line.
pub open spec fn pair_registered(lines: Seq<(Line, Vec<Point>)>, p: Point, q: Point) -> bool {
    exists|k: int|
        0 <= k < lines.len() && (#[trigger] lines[k]).0 == line_key(p, q) && lines[k].1@.contains(p)
            && lines[k].1@.contains(q)
}

/// An entry lists at least two distinct points, its key is the key of its
/// first two, and each point it lists is one of `s` and lies on its line.
pub open spec fn entry_ok(e: (Line, Vec<Point>), s: Set<Point>) -> bool {
    &&& e.1@.len() >= 2
    &&& e.1@[0] != e.1@[1]
    &&& e.0 == line_key(e.1@[0], e.1@[1])
    &&& forall|t: Point| #[trigger] e.1@.contains(t) ==> s.contains(t) && on_line(e.0, t)
}

/// What holds of the registry once the pairs before `(i, j)` are counted,
/// with `most` the largest count seen so far.
pub open spec fn registry_inv(
    lines: Seq<(Line, Vec<Point>)>,
    pts: Seq<Point>,
    i: int,
    j: int,
    most: int,
) -> bool {
    &&& registry_wf(lines)
    &&& forall|k: int| 0 <= k < lines.len() ==> entry_ok(#[trigger] lines[k], pts.to_set())
    &&& forall|a: int, b: int|
        #![trigger pts[a], pts[b]]
        0 <= a < b < pts.len() && done(a, b, i, j) && pts[a] != pts[b] ==> pair_registered(
            lines,
            pts[a],
            pts[b],
        )
    &&& forall|k: int| 0 <= k < lines.len() ==> (#[trigger] lines[k]).1.len() <= most
    &&& lines.len() == 0 ==> most == 0
    &&& lines.len() > 0 ==> exists|k: int|
        0 <= k < lines.len() && (#[trigger] lines[k]).1.len() == most
}

/// A duplicate-free sequence drawn from a finite set is no longer than it.
proof fn lemma_unique_len_bound(q: Seq<Point>, s: Set<Point>)
    requires
        q.no_duplicates(),
        s.finite(),
        forall|t: Point| q.contains(t) ==> s.contains(t),
    ensures
        q.len() <= s.len(),
{
    q.unique_seq_to_set();
    assert(q.to_set().subset_of(s));
    vstd::set_lib::lemma_len_subset(q.to_set(), s);
}

/// Counting the pair `(i, j)` of distinct points keeps the invariant.
proof fn lemma_register_step(
    old_lines: Seq<(Line, Vec<Point>)>,
    new_lines: Seq<(Line, Vec<Point>)>,
    pts: Seq<Point>,
    i: int,
    j: int,
    most: int,
    r: int,
)
    requires
        registry_inv(old_lines, pts, i, j, most),
        0 <= i < j < pts.len(),
        pts[i] != pts[j],
        registry_wf(new_lines),
        new_lines.len() >= old_lines.len(),
        forall|k: int|
            0 <= k < old_lines.len() && (#[trigger] old_lines[k]).0 != line_key(pts[i], pts[j])
                ==> new_lines[k] == old_lines[k],
        forall|k: int|
            0 <= k < old_lines.len() && (#[trigger] old_lines[k]).0 == line_key(pts[i], pts[j])
                ==> {
                &&& new_lines.len() == old_lines.len()
                &&& new_lines[k].0 == line_key(pts[i], pts[j])
                &&& new_lines[k].1@ == added(added(old_lines[k].1@, pts[i]), pts[j])
                &&& r == new_lines[k].1.len()
            },
        (forall|k: int|
            0 <= k < old_lines.len() ==> (#[trigger] old_lines[k]).0 != line_key(pts[i], pts[j]))
            ==> {
            &&& new_lines.len() == old_lines.len() + 1
            &&& new_lines[old_lines.len() as int].0 == line_key(pts[i], pts[j])
            &&& new_lines[old_lines.len() as int].1@ == added(added(seq![], pts[i]), pts[j])
            &&& r == new_lines[old_lines.len() as int].1.len()
        },
    ensures
        registry_inv(new_lines, pts, i, j + 1, if r > most { r } else { most }),
{
    let s = pts.to_set();
    let (p1, p2) = (pts[i], pts[j]);
    let line = line_key(p1, p2);
    let new_most = if r > most { r } else { most };
    assert(s.contains(p1) && s.contains(p2));
    assert(colinear(p1, p2, p1) && colinear(p1, p2, p2)) by (nonlinear_arith);
    lemma_on_line_iff_colinear(p1, p2, p1);
    lemma_on_line_iff_colinear(p1, p2, p2);
    let found = exists|k: int| 0 <= k < old_lines.len() && (#[trigger] old_lines[k]).0 == line;
    // the index of the entry that now holds the pair
    let kk: int = if found {
        choose|k: int| 0 <= k < old_lines.len() && (#[trigger] old_lines[k]).0 == line
    } else {
        old_lines.len() as int
    };
    assert(0 <= kk < new_lines.len());
    assert(new_lines[kk].0 == line);
    if found {
        lemma_added(old_lines[kk].1@, p1);
        lemma_added(added(old_lines[kk].1@, p1), p2);
    } else {
        lemma_added(seq![], p1);
        lemma_added(added(seq![], p1), p2);
    }
    assert(new_lines[kk].1@.contains(p1) && new_lines[kk].1@.contains(p2));
    assert(r == new_lines[kk].1.len());
    assert forall|k: int| 0 <= k < new_lines.len() implies entry_ok(#[trigger] new_lines[k], s) by {
        if k != kk {
            assert(old_lines[k].0 != line);
            assert(new_lines[k] == old_lines[k]);
            assert(entry_ok(old_lines[k], s));
        } else if found {
            let e = old_lines[k];
            assert(entry_ok(e, s));
            assert(new_lines[k].1@[0] == e.1@[0] && new_lines[k].1@[1] == e.1@[1]);
        } else {
            assert(new_lines[k].1@ == seq![p1, p2]);
        }
    }
    assert forall|k: int|
        0 <= k < new_lines.len() implies (#[trigger] new_lines[k]).1.len() <= new_most by {
        if k != kk {
            assert(new_lines[k] == old_lines[k]);
        }
    }
    assert forall|a: int, b: int|
        #![trigger pts[a], pts[b]]
        0 <= a < b < pts.len() && done(a, b, i, j + 1) && pts[a] != pts[b] implies pair_registered(
        new_lines,
        pts[a],
        pts[b],
    ) by {
        if done(a, b, i, j) {
            let k0 = choose|k: int|
                0 <= k < old_lines.len() && (#[trigger] old_lines[k]).0 == line_key(pts[a], pts[b])
                    && old_lines[k].1@.contains(pts[a]) && old_lines[k].1@.contains(pts[b]);
            if k0 != kk {
                assert(new_lines[k0] == old_lines[k0]);
            } else {
                lemma_added(old_lines[k0].1@, p1);
                lemma_added(added(old_lines[k0].1@, p1), p2);
                assert(new_lines[k0].1@.contains(pts[a]));
                assert(new_lines[k0].1@.contains(pts[b]));
            }
            assert(new_lines[k0].0 == line_key(pts[a], pts[b]));
        } else {
            assert(a == i && b == j);
            assert(new_lines[kk].0 == line_key(pts[a], pts[b]));
        }
    }
    if r > most {
        assert(new_lines[kk].1.len() == new_most);
    } else {
        if old_lines.len() == 0 {
            assert(new_lines[kk].1.len() >= 2);
        } else {
            let k0 = choose|k: int| 0 <= k < old_lines.len() && (#[trigger] old_lines[k]).1.len() == most;
            if k0 != kk {
                assert(new_lines[k0] == old_lines[k0]);
            } else {
                lemma_added(old_lines[k0].1@, p1);
                lemma_added(added(old_lines[k0].1@, p1), p2);
                assert(new_lines[k0].1.len() >= old_lines[k0].1.len());
            }
            assert(new_lines[k0].1.len() == new_most);
        }
    }
}

/// A finite set of two or more elements holds two distinct ones.
proof fn lemma_two_distinct(s: Set<Point>) -> (r: (Point, Point))
    requires
        s.finite(),
        s.len() >= 2,
    ensures
        s.contains(r.0),
        s.contains(r.1),
        r.0 != r.1,
{
    let p = s.choose();
    assert(s.contains(p)) by {
        if !s.contains(p) {
            assert(s =~= Set::empty());
        }
    }
    let rest = s.remove(p);
    let q = rest.choose();
    assert(rest.contains(q)) by {
        if !rest.contains(q) {
            assert(rest =~= Set::empty());
        }
    }
    (p, q)
}

/// Two distinct elements make a set of at least two.
proof fn lemma_two_in_set(s: Set<Point>, p: Point, q: Point)
    requires
        s.finite(),
        s.contains(p),
        s.contains(q),
        p != q,
    ensures
        s.len() >= 2,
{
    let two = Set::empty().insert(p).insert(q);
    assert(two.len() == 2);
    vstd::set_lib::lemma_len_subset(two, s);
}

/// Once every pair is counted, any two distinct points of the input are
/// registered together under the key of their line.
proof fn lemma_registered(lines: Seq<(Line, Vec<Point>)>, pts: Seq<Point>, most: int, p: Point, t: Point)
    requires
        registry_inv(lines, pts, pts.len() as int, pts.len() + 1int, most),
        pts.to_set().contains(p),
        pts.to_set().contains(t),
        p != t,
    ensures
        pair_registered(lines, p, t),
{
    assert(pts.contains(p) && pts.contains(t));
    let a = choose|a: int| 0 <= a < pts.len() && pts[a] == p;
    let c = choose|c: int| 0 <= c < pts.len() && pts[c] == t;
    if a < c {
        assert(done(a, c, pts.len() as int, pts.len() + 1int));
        assert(pair_registered(lines, pts[a], pts[c]));
    } else {
        assert(done(c, a, pts.len() as int, pts.len() + 1int));
        assert(pair_registered(lines, pts[c], pts[a]));
        lemma_key_symmetric(p, t);
    }
}

/// Once every pair is counted, each entry lists exactly the input points on
/// its line.
proof fn lemma_entry_is_line(lines: Seq<(Line, Vec<Point>)>, pts: Seq<Point>, most: int, k: int)
    requires
        registry_inv(lines, pts, pts.len() as int, pts.len() + 1int, most),
        0 <= k < lines.len(),
    ensures
        lines[k].1@.to_set() == points_on(pts.to_set(), lines[k].1@[0], lines[k].1@[1]),
        lines[k].1.len() == points_on(pts.to_set(), lines[k].1@[0], lines[k].1@[1]).len(),
{
    let s = pts.to_set();
    let e = lines[k];
    let (p, q) = (e.1@[0], e.1@[1]);
    assert(entry_ok(e, s));
    assert(e.1@.contains(p) && e.1@.contains(q));
    assert forall|t: Point| e.1@.to_set().contains(t) <==> #[trigger] points_on(s, p, q).contains(t) by {
        lemma_on_line_iff_colinear(p, q, t);
        if s.contains(t) && colinear(p, q, t) && t != p {
            lemma_registered(lines, pts, most, p, t);
            let k2 = choose|k2: int|
                0 <= k2 < lines.len() && (#[trigger] lines[k2]).0 == line_key(p, t)
                    && lines[k2].1@.contains(p) && lines[k2].1@.contains(t);
            assert(colinear(p, q, p)) by (nonlinear_arith);
            lemma_same_key_iff_same_line(p, q, p, t);
            assert(k2 == k);
        }
    }
    assert(e.1@.to_set() =~= points_on(s, p, q));
    assert(registry_wf(lines));
    e.1@.unique_seq_to_set();
}

/// Once every pair is counted, `most` is the answer.
proof fn lemma_registry_result(lines: Seq<(Line, Vec<Point>)>, pts: Seq<Point>, most: int)
    requires
        registry_inv(lines, pts, pts.len() as int, pts.len() + 1int, most),
    ensures
        pts.to_set().len() >= 2 ==> is_max_colinear(pts, most),
        pts.to_set().len() <= 1 ==> most == 0,
{
    let s = pts.to_set();
    if lines.len() > 0 {
        assert(entry_ok(lines[0], s));
        assert(lines[0].1@.contains(lines[0].1@[0]) && lines[0].1@.contains(lines[0].1@[1]));
        lemma_two_in_set(s, lines[0].1@[0], lines[0].1@[1]);
    }
    if s.len() >= 2 {
        assert forall|p: Point, q: Point|
            s.contains(p) && s.contains(q) && p != q implies #[trigger] points_on(s, p, q).len()
            <= most by {
            lemma_registered(lines, pts, most, p, q);
            let k = choose|k: int|
                0 <= k < lines.len() && (#[trigger] lines[k]).0 == line_key(p, q)
                    && lines[k].1@.contains(p) && lines[k].1@.contains(q);
            let (p2, q2) = (lines[k].1@[0], lines[k].1@[1]);
            assert(entry_ok(lines[k], s));
            lemma_entry_is_line(lines, pts, most, k);
            assert forall|t: Point| #[trigger] points_on(s, p, q).contains(t) == points_on(s, p2, q2).contains(t) by {
                lemma_on_line_iff_colinear(p, q, t);
                lemma_on_line_iff_colinear(p2, q2, t);
            }
            assert(points_on(s, p, q) =~= points_on(s, p2, q2));
        }
        let (p0, q0) = lemma_two_distinct(s);
        lemma_registered(lines, pts, most, p0, q0);
        assert(lines.len() > 0);
        let k = choose|k: int| 0 <= k < lines.len() && (#[trigger] lines[k]).1.len() == most;
        assert(entry_ok(lines[k], s));
        lemma_entry_is_line(lines, pts, most, k);
        let (p, q) = (lines[k].1@[0], lines[k].1@[1]);
        assert(lines[k].1.len() == most);
        assert(lines[k].1@.contains(p) && lines[k].1@.contains(q));
        assert(s.contains(p) && s.contains(q) && p != q);
        assert(points_on(s, p, q).len() == most);
    }
}

/// The pair `(i, j)` of equal points adds nothing to count.
proof fn lemma_skip_pair(lines: Seq<(Line, Vec<Point>)>, pts: Seq<Point>, i: int, j: int, most: int)
    requires
        registry_inv(lines, pts, i, j, most),
        pts[i] == pts[j],
    ensures
        registry_inv(lines, pts, i, j + 1, most),
{
    assert forall|a: int, b: int|
        #![trigger pts[a], pts[b]]
        0 <= a < b < pts.len() && done(a, b, i, j + 1) && pts[a] != pts[b] implies pair_registered(
        lines,
        pts[a],
        pts[b],
    ) by {
        assert(done(a, b, i, j));
    }
}

/// After the last pair of row `i`, row `i + 1` begins.
proof fn lemma_next_row(lines: Seq<(Line, Vec<Point>)>, pts: Seq<Point>, i: int, most: int)
    requires
        registry_inv(lines, pts, i, pts.len() as int, most),
    ensures
        registry_inv(lines, pts, i + 1, i + 2, most),
{
    assert forall|a: int, b: int|
        #![trigger pts[a], pts[b]]
        0 <= a < b < pts.len() && done(a, b, i + 1, i + 2) && pts[a] != pts[b] implies pair_registered(
        lines,
        pts[a],
        pts[b],
    ) by {
        assert(done(a, b, i, pts.len() as int));
    }
}

/// The input vectors for `max_points` from an array of `[x, y]` pairs.
pub fn create_test_vector(points: &[[i32; 2]]) -> (r: Vec<Vec<i32>>)
    ensures
        r.len() == points@.len(),
        forall|i: int|
            0 <= i < r.len() ==> (#[trigger] r[i])@ == seq![points@[i][0], points@[i][1]],
{
    let mut vec_points: Vec<Vec<i32>> = Vec::new();
    let mut i: usize = 0;
    while i < points.len()
        invariant
            i <= points@.len(),
            vec_points.len() == i,
            forall|k: int|
                0 <= k < i ==> (#[trigger] vec_points[k])@ == seq![points@[k][0], points@[k][1]],
        decreases points@.len() - i,
    {
        let point = points[i];
        let new_point = vec![point[0], point[1]];
        vec_points.push(new_point);
        i += 1;
    }
    vec_points
}

/// The largest number of points of `points` that lie on one straight line.
///
/// Each entry of `points` is a point `[x, y]`. Points listed more than once
/// count once. An empty input gives 0 and a non-empty one at least 1.
pub fn max_points(points: Vec<Vec<i32>>) -> (r: i32)
    requires
        forall|i: int| 0 <= i < points.len() ==> (#[trigger] points[i]).len() == 2,
        points.len() <= i32::MAX,
    ensures
        is_max_colinear(points_of(points@), r as int),
{
    let ghost pts = points_of(points@);
    proof {
        pts.lemma_cardinality_of_set();
    }
    if points.len() == 1 {
        proof {
            assert(pts.to_set() =~= Set::empty().insert(pts[0]));
        }
        return 1;
    }
    let number_points = points.len();
    let mut lines: Vec<(Line, Vec<Point>)> = Vec::new();
    let mut most_frequent_line: i32 = 0;
    let mut i: usize = 0;
    while i < number_points
        invariant
            i <= number_points,
            number_points == points.len(),
            number_points <= i32::MAX,
            forall|k: int| 0 <= k < points.len() ==> (#[trigger] points[k]).len() == 2,
            pts == points_of(points@),
            pts.to_set().len() <= pts.len(),
            registry_inv(lines@, pts, i as int, i + 1, most_frequent_line as int),
        decreases number_points - i,
    {
        let mut j: usize = i + 1;
        while j < number_points
            invariant
                i < number_points,
                i + 1 <= j <= number_points,
                number_points == points.len(),
                number_points <= i32::MAX,
                forall|k: int| 0 <= k < points.len() ==> (#[trigger] points[k]).len() == 2,
                pts == points_of(points@),
                pts.to_set().len() <= pts.len(),
                registry_inv(lines@, pts, i as int, j as int, most_frequent_line as int),
            decreases number_points - j,
        {
            let p1 = Point::from(&points[i]);
            let p2 = Point::from(&points[j]);
            assert(p1 == pts[i as int] && p2 == pts[j as int]);
            if p1 != p2 {
                let line = Line::find_line(&p1, &p2);
                proof {
                    let s = pts.to_set();
                    assert(s.contains(p1) && s.contains(p2));
                    assert forall|k: int|
                        0 <= k < lines.len() && (#[trigger] lines@[k]).0 == line implies added(
                        added(lines@[k].1@, p1),
                        p2,
                    ).len() <= i32::MAX by {
                        let q = lines@[k].1@;
                        assert(entry_ok(lines@[k], s));
                        assert(registry_wf(lines@));
                        lemma_added(q, p1);
                        lemma_added(added(q, p1), p2);
                        lemma_unique_len_bound(added(added(q, p1), p2), s);
                    }
                }
                let ghost old_lines = lines@;
                let count = register_points_in_line(&mut lines, line, &p1, &p2);
                proof {
                    lemma_register_step(
                        old_lines,
                        lines@,
                        pts,
                        i as int,
                        j as int,
                        most_frequent_line as int,
                        count as int,
                    );
                }
                if count > most_frequent_line {
                    most_frequent_line = count;
                }
            } else {
                proof {
                    lemma_skip_pair(lines@, pts, i as int, j as int, most_frequent_line as int);
                }
            }
            j += 1;
        }
        proof {
            lemma_next_row(lines@, pts, i as int, most_frequent_line as int);
        }
        i += 1;
    }
    proof {
        lemma_registry_result(lines@, pts, most_frequent_line as int);
    }
    if most_frequent_line == 0 && number_points > 0 {
        // every point is the same point
        proof {
            assert(pts.to_set().contains(pts[0]));
            assert(pts.to_set().len() >= 1) by {
                if pts.to_set().len() == 0 {
                    assert(pts.to_set() =~= Set::empty());
                }
            }
        }
        return 1;
    }
    most_frequent_line
}

/// The answer is determined by the set of distinct input points.
pub proof fn lemma_max_colinear_unique(pts: Seq<Point>, r1: int, r2: int)
    requires
        is_max_colinear(pts, r1),
        is_max_colinear(pts, r2),
    ensures
        r1 == r2,
{
    let s = pts.to_set();
    if s.len() >= 2 {
        let (p1, q1) = choose|p: Point, q: Point|
            s.contains(p) && s.contains(q) && p != q && #[trigger] points_on(s, p, q).len() == r1;
        let (p2, q2) = choose|p: Point, q: Point|
            s.contains(p) && s.contains(q) && p != q && #[trigger] points_on(s, p, q).len() == r2;
        assert(points_on(s, p1, q1).len() <= r2);
        assert(points_on(s, p2, q2).len() <= r1);
    }
}

/// A single point gives 1.
pub proof fn lemma_single_point(p: Point, r: int)
    requires
        is_max_colinear(seq![p], r),
    ensures
        r == 1,
{
    assert(seq![p].to_set() =~= Set::empty().insert(p)) by {
        assert(seq![p][0] == p);
    }
}

/// Two or more pairwise distinct points give at least 2.
pub proof fn lemma_distinct_points(pts: Seq<Point>, r: int)
    requires
        pts.len() >= 2,
        pts.no_duplicates(),
        is_max_colinear(pts, r),
    ensures
        r >= 2,
{
    let s = pts.to_set();
    pts.unique_seq_to_set();
    let (p, q) = choose|p: Point, q: Point|
        s.contains(p) && s.contains(q) && p != q && #[trigger] points_on(s, p, q).len() == r;
    assert(colinear(p, q, p) && colinear(p, q, q)) by (nonlinear_arith);
    lemma_two_in_set(points_on(s, p, q), p, q);
}

/// Points that all lie on one line through two distinct points of the input
/// give the number of distinct points.
pub proof fn lemma_all_colinear(pts: Seq<Point>, p: Point, q: Point, r: int)
    requires
        pts.contains(p),
        pts.contains(q),
        p != q,
        forall|i: int| 0 <= i < pts.len() ==> colinear(p, q, #[trigger] pts[i]),
        is_max_colinear(pts, r),
    ensures
        r == pts.to_set().len(),
{
    let s = pts.to_set();
    pts.lemma_cardinality_of_set();
    lemma_two_in_set(s, p, q);
    assert(points_on(s, p, q) =~= s);
    assert(points_on(s, p, q).len() <= r);
    let (p2, q2) = choose|p: Point, q: Point|
        s.contains(p) && s.contains(q) && p != q && #[trigger] points_on(s, p, q).len() == r;
    vstd::set_lib::lemma_len_subset(points_on(s, p2, q2), s);
}

/// The order of the input does not matter: any permutation of it gives the
/// same answer.
pub proof fn lemma_order_invariant(a: Seq<Point>, b: Seq<Point>, ra: int, rb: int)
    requires
        a.to_multiset() == b.to_multiset(),
        is_max_colinear(a, ra),
        is_max_colinear(b, rb),
    ensures
        ra == rb,
{
    a.to_multiset_ensures();
    b.to_multiset_ensures();
    assert(a.to_set() =~= b.to_set()) by {
        assert forall|t: Point| a.to_set().contains(t) == b.to_set().contains(t) by {
            assert(a.contains(t) <==> a.to_multiset().count(t) > 0);
            assert(b.contains(t) <==> b.to_multiset().count(t) > 0);
        }
    }
    lemma_max_colinear_unique(a, ra, rb);
}

} // verus!

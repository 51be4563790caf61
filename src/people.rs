//! Names ordered by height, tallest first; people of equal height keep the
//! order in which they were given.
use vstd::prelude::*;

verus! {

/// Person `a` comes before person `b`: taller, or as tall and listed first.
pub open spec fn before(h: Seq<i32>, a: int, b: int) -> bool {
    h[a] > h[b] || (h[a] == h[b] && a < b)
}

/// How many of the first `m` people come before person `a`.
pub open spec fn rank(h: Seq<i32>, a: int, m: int) -> nat
    decreases m,
{
    if m <= 0 {
        0
    } else {
        rank(h, a, m - 1) + if before(h, m - 1, a) {
            1nat
        } else {
            0nat
        }
    }
}

/// Nobody comes before themselves, so among `m > a` people at most `m - 1`
/// come before `a`.
pub proof fn lemma_rank_bound(h: Seq<i32>, a: int, m: int)
    requires
        0 <= a,
        0 <= m,
    ensures
        rank(h, a, m) <= m,
        a < m ==> rank(h, a, m) < m,
    decreases m,
{
    if m > 0 {
        lemma_rank_bound(h, a, m - 1);
    }
}

/// Whoever comes first has the smaller rank.
pub proof fn lemma_rank_ordered(h: Seq<i32>, a: int, c: int, m: int)
    requires
        0 <= a,
        0 <= c,
        0 <= m,
        before(h, a, c),
    ensures
        rank(h, a, m) <= rank(h, c, m),
        a < m ==> rank(h, a, m) < rank(h, c, m),
    decreases m,
{
    if m > 0 {
        lemma_rank_ordered(h, a, c, m - 1);
    }
}

/// The names sorted by height, tallest first; equal heights keep their
/// order. Name `i` has height `heights[i]`.
pub fn sort_people(names: Vec<String>, heights: Vec<i32>) -> (r: Vec<String>)
    requires
        names.len() <= heights.len(),
    ensures
        r.len() == names.len(),
        forall|a: int|
            0 <= a < names.len() ==> {
                &&& rank(heights@, a, names.len() as int) < names.len()
                &&& r[rank(heights@, a, names.len() as int) as int]@ == (#[trigger] names[a])@
            },
        forall|a: int, c: int|
            0 <= a < names.len() && 0 <= c < names.len() && before(heights@, a, c) ==> rank(
                heights@,
                a,
                names.len() as int,
            ) < rank(heights@, c, names.len() as int),
{
    let n = names.len();
    let ghost h = heights@;
    let mut result: Vec<String> = Vec::new();
    let mut k: usize = 0;
    while k < n
        invariant
            k <= n,
            result.len() == k,
        decreases n - k,
    {
        result.push(String::new());
        k += 1;
    }
    let mut a: usize = 0;
    while a < n
        invariant
            a <= n,
            n == names.len(),
            n <= heights.len(),
            h == heights@,
            result.len() == n,
            forall|a2: int| 0 <= a2 < a ==> #[trigger] rank(h, a2, n as int) < n,
            forall|a2: int|
                0 <= a2 < a ==> result[rank(h, a2, n as int) as int]@ == (#[trigger] names[a2])@,
        decreases n - a,
    {
        let mut count: usize = 0;
        let mut b: usize = 0;
        while b < n
            invariant
                a < n,
                b <= n,
                n <= heights.len(),
                h == heights@,
                n == names.len(),
                result.len() == n,
                forall|a2: int| 0 <= a2 < a ==> #[trigger] rank(h, a2, n as int) < n,
                forall|a2: int|
                    0 <= a2 < a ==> result[rank(h, a2, n as int) as int]@ == (#[trigger] names[a2])@,
                count == rank(h, a as int, b as int),
            decreases n - b,
        {
            proof {
                lemma_rank_bound(h, a as int, b as int);
            }
            if heights[b] > heights[a] || (heights[b] == heights[a] && b < a) {
                count += 1;
            }
            b += 1;
        }
        proof {
            lemma_rank_bound(h, a as int, n as int);
            assert forall|a2: int| 0 <= a2 < a implies rank(h, a2, n as int) != count by {
                if before(h, a2, a as int) {
                    lemma_rank_ordered(h, a2, a as int, n as int);
                } else {
                    lemma_rank_ordered(h, a as int, a2, n as int);
                }
            }
        }
        let ghost before_write = result@;
        result[count] = names[a].clone();
        assert(result@ == before_write.update(count as int, names[a as int]));
        a += 1;
    }
    proof {
        assert forall|a2: int, c: int|
            0 <= a2 < n && 0 <= c < n && before(h, a2, c) implies rank(h, a2, n as int) < rank(
            h,
            c,
            n as int,
        ) by {
            lemma_rank_ordered(h, a2, c, n as int);
        }
    }
    result
}

} // verus!

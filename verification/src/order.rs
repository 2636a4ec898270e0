//! Stable ordering of items by integer sort keys.
//!
//! Times and zoom-segment bounds are carried as integer *time keys*: integers
//! that order exactly as the instants they stand for. Sorting the items then
//! amounts to sorting their indices by key, keeping items with equal keys in
//! their original order; a merge sort does it in `O(n log n)` comparisons.
use vstd::prelude::*;

verus! {

/// Lexicographic `<` on key pairs.
pub open spec fn key_lt(a: (i64, i64), b: (i64, i64)) -> bool {
    a.0 < b.0 || (a.0 == b.0 && a.1 < b.1)
}

/// Item `a` comes strictly before item `b` in a stable sort by `keys`:
/// its key is smaller, or the keys are equal and `a` came first.
pub open spec fn stable_before(keys: Seq<(i64, i64)>, a: int, b: int) -> bool {
    key_lt(keys[a], keys[b]) || (keys[a] == keys[b] && a < b)
}

/// `order` lists every index of `keys` exactly once, in stable key order.
pub open spec fn is_stable_order(keys: Seq<(i64, i64)>, order: Seq<usize>) -> bool {
    &&& order.len() == keys.len()
    &&& forall|i: int| 0 <= i < order.len() ==> (#[trigger] order[i]) < keys.len()
    &&& forall|k: int| 0 <= k < keys.len() ==> #[trigger] order.contains(k as usize)
    &&& forall|i: int, j: int|
        0 <= i < j < order.len() ==> stable_before(keys, #[trigger] order[i] as int, #[trigger] order[j] as int)
}

fn pair_lt(a: (i64, i64), b: (i64, i64)) -> (r: bool)
    ensures
        r == key_lt(a, b),
{
    a.0 < b.0 || (a.0 == b.0 && a.1 < b.1)
}

/// The indices of `s` are in strictly increasing stable order.
pub open spec fn sorted_stably(keys: Seq<(i64, i64)>, s: Seq<usize>) -> bool {
    forall|i: int, j: int| 0 <= i < j < s.len() ==> stable_before(keys, #[trigger] s[i] as int, #[trigger] s[j] as int)
}

proof fn lemma_before_transitive(keys: Seq<(i64, i64)>, a: int, b: int, c: int)
    requires
        stable_before(keys, a, b),
        stable_before(keys, b, c),
    ensures
        stable_before(keys, a, c),
{
}

proof fn lemma_before_total(keys: Seq<(i64, i64)>, a: int, b: int)
    requires
        a != b,
    ensures
        stable_before(keys, a, b) || stable_before(keys, b, a),
{
}

fn index_before(keys: &Vec<(i64, i64)>, a: usize, b: usize) -> (r: bool)
    requires
        a < keys@.len(),
        b < keys@.len(),
    ensures
        r == stable_before(keys@, a as int, b as int),
{
    let ka = keys[a];
    let kb = keys[b];
    pair_lt(ka, kb) || (ka.0 == kb.0 && ka.1 == kb.1 && a < b)
}

/// Merges the stably sorted indices of two adjacent ranges
/// `[lo, mid)` and `[mid, hi)`.
fn merge(
    keys: &Vec<(i64, i64)>,
    left: Vec<usize>,
    right: Vec<usize>,
    Ghost(lo): Ghost<int>,
    Ghost(mid): Ghost<int>,
    Ghost(hi): Ghost<int>,
) -> (r: Vec<usize>)
    requires
        lo <= mid <= hi <= keys@.len(),
        sorted_stably(keys@, left@),
        sorted_stably(keys@, right@),
        forall|a: int| 0 <= a < left@.len() ==> lo <= #[trigger] left@[a] < mid,
        forall|b: int| 0 <= b < right@.len() ==> mid <= #[trigger] right@[b] < hi,
    ensures
        sorted_stably(keys@, r@),
        r@.len() == left@.len() + right@.len(),
        forall|k: int| 0 <= k < r@.len() ==> lo <= #[trigger] r@[k] < hi,
        forall|a: int| 0 <= a < left@.len() ==> r@.contains(#[trigger] left@[a]),
        forall|b: int| 0 <= b < right@.len() ==> r@.contains(#[trigger] right@[b]),
{
    let mut r: Vec<usize> = Vec::new();
    let mut i: usize = 0;
    let mut j: usize = 0;
    while i < left.len() || j < right.len()
        invariant
            lo <= mid <= hi <= keys@.len(),
            sorted_stably(keys@, left@),
            sorted_stably(keys@, right@),
            forall|a: int| 0 <= a < left@.len() ==> lo <= #[trigger] left@[a] < mid,
            forall|b: int| 0 <= b < right@.len() ==> mid <= #[trigger] right@[b] < hi,
            i <= left@.len(),
            j <= right@.len(),
            r@.len() == i + j,
            sorted_stably(keys@, r@),
            forall|k: int| 0 <= k < r@.len() ==> lo <= #[trigger] r@[k] < hi,
            forall|a: int| 0 <= a < i ==> r@.contains(#[trigger] left@[a]),
            forall|b: int| 0 <= b < j ==> r@.contains(#[trigger] right@[b]),
            r@.len() > 0 && i < left@.len() ==> stable_before(keys@, r@.last() as int, left@[i as int] as int),
            r@.len() > 0 && j < right@.len() ==> stable_before(keys@, r@.last() as int, right@[j as int] as int),
        decreases left@.len() - i + right@.len() - j,
    {
        let take_left = if i < left.len() && j < right.len() {
            index_before(keys, left[i], right[j])
        } else {
            i < left.len()
        };
        let ghost before = r@;
        let e = if take_left { left[i] } else { right[j] };
        proof {
            if !take_left && i < left@.len() {
                lemma_before_total(keys@, left@[i as int] as int, right@[j as int] as int);
            }
            // every earlier entry comes before the new one
            assert forall|p: int, q: int| 0 <= p < q < before.len() + 1 implies stable_before(
                keys@,
                #[trigger] before.push(e)[p] as int,
                #[trigger] before.push(e)[q] as int,
            ) by {
                if q == before.len() {
                    if p < before.len() - 1 {
                        lemma_before_transitive(keys@, before[p] as int, before.last() as int, e as int);
                    }
                } else {
                    assert(before.push(e)[p] == before[p] && before.push(e)[q] == before[q]);
                }
            }
        }
        r.push(e);
        proof {
            assert(r@ == before.push(e));
            if take_left {
                assert(lo <= left@[i as int] < mid);
            } else {
                assert(mid <= right@[j as int] < hi);
            }
            assert(lo <= e < hi);
            assert forall|k: int| 0 <= k < r@.len() implies lo <= #[trigger] r@[k] < hi by {
                if k < before.len() {
                    assert(r@[k] == before[k]);
                }
            }
            assert forall|a: int| 0 <= a < (if take_left { i + 1 } else { i as int }) implies r@.contains(
                #[trigger] left@[a],
            ) by {
                if take_left && a == i {
                    assert(r@[r@.len() - 1] == left@[a]);
                } else {
                    let w = choose|w: int| 0 <= w < before.len() && before[w] == left@[a];
                    assert(r@[w] == left@[a]);
                }
            }
            assert forall|b: int| 0 <= b < (if take_left { j as int } else { j + 1 }) implies r@.contains(
                #[trigger] right@[b],
            ) by {
                if !take_left && b == j {
                    assert(r@[r@.len() - 1] == right@[b]);
                } else {
                    let w = choose|w: int| 0 <= w < before.len() && before[w] == right@[b];
                    assert(r@[w] == right@[b]);
                }
            }
        }
        if take_left {
            i = i + 1;
        } else {
            j = j + 1;
        }
    }
    r
}

/// The stably sorted indices of the range `[lo, hi)`.
fn sort_range(keys: &Vec<(i64, i64)>, lo: usize, hi: usize) -> (r: Vec<usize>)
    requires
        lo <= hi <= keys@.len(),
    ensures
        sorted_stably(keys@, r@),
        r@.len() == hi - lo,
        forall|k: int| 0 <= k < r@.len() ==> lo <= #[trigger] r@[k] < hi,
        forall|m: int| lo <= m < hi ==> #[trigger] r@.contains(m as usize),
    decreases hi - lo,
{
    if hi - lo == 0 {
        return Vec::new();
    }
    if hi - lo == 1 {
        let mut r: Vec<usize> = Vec::new();
        r.push(lo);
        proof {
            assert forall|m: int| lo <= m < hi implies #[trigger] r@.contains(m as usize) by {
                assert(r@[0] == lo);
            }
        }
        return r;
    }
    let mid = lo + (hi - lo) / 2;
    let left = sort_range(keys, lo, mid);
    let right = sort_range(keys, mid, hi);
    let ghost lv = left@;
    let ghost rv = right@;
    let r = merge(keys, left, right, Ghost(lo as int), Ghost(mid as int), Ghost(hi as int));
    proof {
        assert forall|m: int| lo <= m < hi implies #[trigger] r@.contains(m as usize) by {
            if m < mid {
                assert(lv.contains(m as usize));
                let a = choose|a: int| 0 <= a < lv.len() && lv[a] == m as usize;
                assert(r@.contains(lv[a]));
            } else {
                assert(rv.contains(m as usize));
                let b = choose|b: int| 0 <= b < rv.len() && rv[b] == m as usize;
                assert(r@.contains(rv[b]));
            }
        }
    }
    r
}

/// The permutation that sorts `keys` stably: `result[i]` is the index of the
/// item that comes `i`-th.
pub fn stable_sort_order(keys: &Vec<(i64, i64)>) -> (order: Vec<usize>)
    ensures
        is_stable_order(keys@, order@),
{
    let order = sort_range(keys, 0, keys.len());
    proof {
        assert forall|k: int| 0 <= k < keys@.len() implies #[trigger] order@.contains(k as usize) by {
            assert(order@.contains(k as usize));
        }
    }
    order
}

/// Two sequences sorted strictly by `stable_before`, holding the same
/// indices, are equal.
proof fn sorted_with_same_members_are_equal(keys: Seq<(i64, i64)>, a: Seq<usize>, b: Seq<usize>)
    requires
        a.len() == b.len(),
        forall|i: int| 0 <= i < a.len() ==> (#[trigger] a[i]) < keys.len(),
        forall|i: int| 0 <= i < b.len() ==> (#[trigger] b[i]) < keys.len(),
        forall|i: int, j: int| 0 <= i < j < a.len() ==> stable_before(keys, #[trigger] a[i] as int, #[trigger] a[j] as int),
        forall|i: int, j: int| 0 <= i < j < b.len() ==> stable_before(keys, #[trigger] b[i] as int, #[trigger] b[j] as int),
        forall|x: usize| #[trigger] a.contains(x) <==> b.contains(x),
    ensures
        a == b,
    decreases a.len(),
{
    if a.len() == 0 {
        assert(a =~= b);
    } else {
        assert(a[0] == a[0]);
        assert(a.contains(a[0]));
        assert(b.contains(a[0]));
        let j = choose|j: int| 0 <= j < b.len() && b[j] == a[0];
        assert(b.contains(b[0]));
        assert(a.contains(b[0]));
        let i = choose|i: int| 0 <= i < a.len() && a[i] == b[0];
        if j > 0 {
            assert(stable_before(keys, b[0] as int, b[j] as int));
            if i > 0 {
                assert(stable_before(keys, a[0] as int, a[i] as int));
            }
            assert(false);
        }
        assert(a[0] == b[0]);
        let ta = a.subrange(1, a.len() as int);
        let tb = b.subrange(1, b.len() as int);
        assert forall|x: usize| #[trigger] ta.contains(x) <==> tb.contains(x) by {
            if ta.contains(x) {
                let p = choose|p: int| 0 <= p < ta.len() && ta[p] == x;
                assert(a[p + 1] == x);
                assert(stable_before(keys, a[0] as int, a[p + 1] as int));
                assert(a.contains(x));
                assert(b.contains(x));
                let q = choose|q: int| 0 <= q < b.len() && b[q] == x;
                assert(q != 0);
                assert(tb[q - 1] == x);
            }
            if tb.contains(x) {
                let p = choose|p: int| 0 <= p < tb.len() && tb[p] == x;
                assert(b[p + 1] == x);
                assert(stable_before(keys, b[0] as int, b[p + 1] as int));
                assert(b.contains(x));
                assert(a.contains(x));
                let q = choose|q: int| 0 <= q < a.len() && a[q] == x;
                assert(q != 0);
                assert(ta[q - 1] == x);
            }
        }
        sorted_with_same_members_are_equal(keys, ta, tb);
        assert(a =~= seq![a[0]] + ta);
        assert(b =~= seq![b[0]] + tb);
    }
}

/// There is exactly one stable order of a list of keys, so sorting is
/// deterministic.
pub proof fn stable_order_is_unique(keys: Seq<(i64, i64)>, a: Seq<usize>, b: Seq<usize>)
    requires
        is_stable_order(keys, a),
        is_stable_order(keys, b),
    ensures
        a == b,
{
    assert forall|x: usize| #[trigger] a.contains(x) <==> b.contains(x) by {
        if a.contains(x) {
            let p = choose|p: int| 0 <= p < a.len() && a[p] == x;
            assert(a[p] < keys.len());
            assert(b.contains(x as int as usize));
        }
        if b.contains(x) {
            let p = choose|p: int| 0 <= p < b.len() && b[p] == x;
            assert(b[p] < keys.len());
            assert(a.contains(x as int as usize));
        }
    }
    sorted_with_same_members_are_equal(keys, a, b);
}

/// In a stable order, each item's key is no greater than the next one's: the
/// starts never decrease, equal starts have nondecreasing ends, and items with
/// equal keys keep their input order.
pub proof fn stable_order_sorts_by_start_then_end(keys: Seq<(i64, i64)>, order: Seq<usize>)
    requires
        is_stable_order(keys, order),
    ensures
        forall|i: int, j: int|
            0 <= i < j < order.len() ==> {
                let a = keys[#[trigger] order[i] as int];
                let b = keys[#[trigger] order[j] as int];
                &&& a.0 <= b.0
                &&& a.0 == b.0 ==> a.1 <= b.1
                &&& a == b ==> order[i] < order[j]
            },
{
}

} // verus!

//! Positions in a stable sort, computed without sorting.
//!
//! A stable sort by a key puts item `j` before item `i` when its key is
//! smaller (larger, for a descending sort), or equal and `j < i`. The
//! position of a selected item among the selected items after such a sort is
//! the number of selected items that come before it: its rank.
use vstd::prelude::*;

verus! {

/// Whether item `j` comes before item `i` in a stable sort by `keys`.
pub open spec fn precedes(keys: Seq<u32>, desc: bool, j: int, i: int) -> bool {
    if desc {
        keys[j] > keys[i] || (keys[j] == keys[i] && j < i)
    } else {
        keys[j] < keys[i] || (keys[j] == keys[i] && j < i)
    }
}

/// How many of the first `u` items are selected and come before item `i`.
pub open spec fn count_preceding(keys: Seq<u32>, sel: Seq<bool>, desc: bool, i: int, u: int) -> nat
    decreases u,
{
    if u <= 0 {
        0
    } else {
        count_preceding(keys, sel, desc, i, u - 1) + if sel[u - 1] && precedes(keys, desc, u - 1, i) {
            1nat
        } else {
            0nat
        }
    }
}

/// The position of item `i` among the selected items, sorted stably by key.
pub open spec fn rank(keys: Seq<u32>, sel: Seq<bool>, desc: bool, i: int) -> nat {
    count_preceding(keys, sel, desc, i, keys.len() as int)
}

/// How many of the first `u` items are selected.
pub open spec fn count_true(sel: Seq<bool>, u: int) -> nat
    decreases u,
{
    if u <= 0 {
        0
    } else {
        count_true(sel, u - 1) + if sel[u - 1] { 1nat } else { 0nat }
    }
}

/// The rank of item `i`, computed by counting.
pub fn rank_of(keys: &Vec<u32>, sel: &Vec<bool>, desc: bool, i: usize) -> (r: usize)
    requires
        keys@.len() == sel@.len(),
        i < keys@.len(),
    ensures
        r == rank(keys@, sel@, desc, i as int),
{
    let n = keys.len();
    let mut c: usize = 0;
    for u in 0..n
        invariant
            n == keys@.len(),
            n == sel@.len(),
            i < n,
            c == count_preceding(keys@, sel@, desc, i as int, u as int),
            c <= u,
    {
        let before = if desc {
            keys[u] > keys[i] || (keys[u] == keys[i] && u < i)
        } else {
            keys[u] < keys[i] || (keys[u] == keys[i] && u < i)
        };
        if sel[u] && before {
            c = c + 1;
        }
    }
    c
}

/// The number of selected items, computed by counting.
pub fn count_selected(sel: &Vec<bool>) -> (r: usize)
    ensures
        r == count_true(sel@, sel@.len() as int),
{
    let n = sel.len();
    let mut c: usize = 0;
    for u in 0..n
        invariant
            n == sel@.len(),
            c == count_true(sel@, u as int),
            c <= u,
    {
        if sel[u] {
            c = c + 1;
        }
    }
    c
}

pub proof fn lemma_count_true_bound(sel: Seq<bool>, u: int)
    ensures
        count_true(sel, u) <= if u < 0 { 0 } else { u },
    decreases u,
{
    if u > 0 {
        lemma_count_true_bound(sel, u - 1);
    }
}

/// Items that come before `j` come before `i` when `j` comes before `i`, so
/// each prefix holds at least as many of them, and one more once `j` is in.
proof fn lemma_count_preceding_mono(
    keys: Seq<u32>,
    sel: Seq<bool>,
    desc: bool,
    j: int,
    i: int,
    u: int,
)
    requires
        0 <= j < keys.len(),
        0 <= i < keys.len(),
        sel.len() == keys.len(),
        sel[j],
        precedes(keys, desc, j, i),
        u <= keys.len(),
    ensures
        count_preceding(keys, sel, desc, i, u) >= count_preceding(keys, sel, desc, j, u) + (if u
            > j {
            1int
        } else {
            0int
        }),
    decreases u,
{
    if u > 0 {
        lemma_count_preceding_mono(keys, sel, desc, j, i, u - 1);
    }
}

/// An item that comes before another has a smaller rank.
pub proof fn lemma_rank_lt(keys: Seq<u32>, sel: Seq<bool>, desc: bool, j: int, i: int)
    requires
        0 <= j < keys.len(),
        0 <= i < keys.len(),
        sel.len() == keys.len(),
        sel[j],
        precedes(keys, desc, j, i),
    ensures
        rank(keys, sel, desc, j) < rank(keys, sel, desc, i),
{
    lemma_count_preceding_mono(keys, sel, desc, j, i, keys.len() as int);
}

proof fn lemma_count_preceding_bound(keys: Seq<u32>, sel: Seq<bool>, desc: bool, i: int, u: int)
    requires
        0 <= i < keys.len(),
        sel.len() == keys.len(),
        u <= keys.len(),
    ensures
        count_preceding(keys, sel, desc, i, u) + (if u > i && sel[i] { 1int } else { 0int })
            <= count_true(sel, u),
    decreases u,
{
    if u > 0 {
        lemma_count_preceding_bound(keys, sel, desc, i, u - 1);
    }
}

/// A selected item's rank is below the number of selected items.
pub proof fn lemma_rank_bound(keys: Seq<u32>, sel: Seq<bool>, desc: bool, i: int)
    requires
        0 <= i < keys.len(),
        sel.len() == keys.len(),
        sel[i],
    ensures
        rank(keys, sel, desc, i) < count_true(sel, keys.len() as int),
{
    lemma_count_preceding_bound(keys, sel, desc, i, keys.len() as int);
}

/// Selected items have different ranks.
pub proof fn lemma_rank_injective(keys: Seq<u32>, sel: Seq<bool>, desc: bool, i: int, j: int)
    requires
        0 <= i < keys.len(),
        0 <= j < keys.len(),
        sel.len() == keys.len(),
        sel[i],
        sel[j],
        i != j,
    ensures
        rank(keys, sel, desc, i) != rank(keys, sel, desc, j),
{
    if precedes(keys, desc, i, j) {
        lemma_rank_lt(keys, sel, desc, i, j);
    } else {
        lemma_rank_lt(keys, sel, desc, j, i);
    }
}


// ---------------------------------------------------------------------------
// Counting
// ---------------------------------------------------------------------------

/// The items selected by both `a` and `b`.
pub open spec fn both(a: Seq<bool>, b: Seq<bool>) -> Seq<bool> {
    Seq::new(a.len(), |i: int| a[i] && b[i])
}

/// The items selected by `a` and not by `b`.
pub open spec fn but_not(a: Seq<bool>, b: Seq<bool>) -> Seq<bool> {
    Seq::new(a.len(), |i: int| a[i] && !b[i])
}

pub proof fn lemma_count_split(a: Seq<bool>, b: Seq<bool>, u: int)
    requires
        a.len() == b.len(),
        u <= a.len(),
    ensures
        count_true(a, u) == count_true(both(a, b), u) + count_true(but_not(a, b), u),
    decreases u,
{
    if u > 0 {
        lemma_count_split(a, b, u - 1);
    }
}

pub proof fn lemma_count_none(a: Seq<bool>, u: int)
    requires
        u <= a.len(),
        forall|i: int| 0 <= i < u ==> !a[i],
    ensures
        count_true(a, u) == 0,
    decreases u,
{
    if u > 0 {
        lemma_count_none(a, u - 1);
    }
}

proof fn lemma_count_at_most_one(a: Seq<bool>, u: int)
    requires
        u <= a.len(),
        forall|i: int, j: int| 0 <= i < u && 0 <= j < u && a[i] && a[j] ==> i == j,
    ensures
        count_true(a, u) <= 1,
    decreases u,
{
    if u > 0 {
        lemma_count_at_most_one(a, u - 1);
        if a[u - 1] {
            lemma_count_none(a, u - 1);
        }
    }
}

/// Selected items with pairwise different values in `[lo, hi)` are at most
/// `hi - lo` many.
pub proof fn lemma_pigeonhole(sel: Seq<bool>, vals: Seq<int>, lo: int, hi: int)
    requires
        sel.len() == vals.len(),
        lo <= hi,
        forall|i: int| 0 <= i < sel.len() && sel[i] ==> lo <= #[trigger] vals[i] < hi,
        forall|i: int, j: int|
            0 <= i < sel.len() && 0 <= j < sel.len() && sel[i] && sel[j] && i != j ==> vals[i]
                != vals[j],
    ensures
        count_true(sel, sel.len() as int) <= hi - lo,
    decreases hi - lo,
{
    let n = sel.len() as int;
    if hi == lo {
        assert forall|i: int| 0 <= i < n implies !sel[i] by {
            if sel[i] {
                assert(lo <= vals[i] < hi);
            }
        }
        lemma_count_none(sel, n);
    } else {
        let top = Seq::new(sel.len(), |i: int| vals[i] == hi - 1);
        lemma_count_split(sel, top, n);
        lemma_count_at_most_one(both(sel, top), n);
        lemma_pigeonhole(but_not(sel, top), vals, lo, hi - 1);
    }
}

/// Which items are selected and ranked below `m`.
pub open spec fn ranked_below(keys: Seq<u32>, sel: Seq<bool>, desc: bool, m: int) -> Seq<bool> {
    Seq::new(sel.len(), |i: int| sel[i] && rank(keys, sel, desc, i) < m)
}

/// Exactly `min(m, P)` of the `P` selected items have a rank below `m`: the
/// ranks number the selected items `0, 1, ..., P - 1`.
pub proof fn lemma_ranked_below_count(keys: Seq<u32>, sel: Seq<bool>, desc: bool, m: int)
    requires
        sel.len() == keys.len(),
        m >= 0,
    ensures
        count_true(ranked_below(keys, sel, desc, m), sel.len() as int) == if m <= count_true(
            sel,
            sel.len() as int,
        ) {
            m
        } else {
            count_true(sel, sel.len() as int) as int
        },
{
    let n = sel.len() as int;
    let p = count_true(sel, n) as int;
    let below = Seq::new(sel.len(), |i: int| rank(keys, sel, desc, i) < m);
    let vals = Seq::new(sel.len(), |i: int| rank(keys, sel, desc, i) as int);
    lemma_count_split(sel, below, n);
    assert(both(sel, below) =~= ranked_below(keys, sel, desc, m));
    assert forall|i: int, j: int|
        0 <= i < n && 0 <= j < n && sel[i] && sel[j] && i != j implies vals[i] != vals[j] by {
        lemma_rank_injective(keys, sel, desc, i, j);
    }
    assert forall|i: int| 0 <= i < n && sel[i] implies vals[i] < p by {
        lemma_rank_bound(keys, sel, desc, i);
    }
    // below m: distinct values in [0, m)
    lemma_pigeonhole(both(sel, below), vals, 0, m);
    if m <= p {
        // not below m: distinct values in [m, p)
        lemma_pigeonhole(but_not(sel, below), vals, m, p);
    } else {
        lemma_pigeonhole(but_not(sel, below), vals, p, p);
        lemma_pigeonhole(both(sel, below), vals, 0, p);
    }
}

} // verus!

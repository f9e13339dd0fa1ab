//! Stable sorting by a comparison of positions.

use vstd::prelude::*;

verus! {

/// `leq` compares any two of the first `n` positions, and does so consistently.
pub open spec fn total_preorder(leq: spec_fn(int, int) -> bool, n: nat) -> bool {
    &&& forall|i: int, j: int| 0 <= i < n && 0 <= j < n ==> #[trigger] leq(i, j) || leq(j, i)
    &&& forall|i: int, j: int, k: int|
        0 <= i < n && 0 <= j < n && 0 <= k < n && #[trigger] leq(i, j) && #[trigger] leq(j, k)
            ==> leq(i, k)
}

/// Position `i` belongs before position `j`: it is smaller, or it is as large
/// and came first.
pub open spec fn belongs_before(leq: spec_fn(int, int) -> bool, i: int, j: int) -> bool {
    leq(i, j) && (leq(j, i) ==> i < j)
}

/// `order` lists the positions `lo..hi`, each once, in stable sorted order.
pub open spec fn sorted_range(
    order: Seq<usize>,
    leq: spec_fn(int, int) -> bool,
    lo: int,
    hi: int,
) -> bool {
    &&& order.len() == hi - lo
    &&& forall|k: int| 0 <= k < order.len() ==> lo <= #[trigger] order[k] < hi
    &&& forall|i: usize| lo <= i < hi ==> #[trigger] order.contains(i)
    &&& forall|a: int, b: int|
        0 <= a < b < order.len() ==> belongs_before(
            leq,
            #[trigger] order[a] as int,
            #[trigger] order[b] as int,
        )
}

/// `order` is the stable sorted order of the positions below `n`.
pub open spec fn stable_order(
    order: Seq<usize>,
    leq: spec_fn(int, int) -> bool,
    n: nat,
) -> bool {
    sorted_range(order, leq, 0, n as int)
}

/// The elements of `s` in the given order.
pub open spec fn arranged<T>(s: Seq<T>, order: Seq<usize>) -> Seq<T> {
    Seq::new(order.len(), |k: int| s[order[k] as int])
}

/// No position occurs twice in a stable order.
pub proof fn lemma_order_distinct(
    order: Seq<usize>,
    leq: spec_fn(int, int) -> bool,
    n: nat,
)
    requires
        stable_order(order, leq, n),
    ensures
        order.no_duplicates(),
{
    assert forall|a: int, b: int|
        0 <= a < order.len() && 0 <= b < order.len() && a != b implies order[a] != order[b] by {
        if a < b {
            assert(belongs_before(leq, order[a] as int, order[b] as int));
        } else {
            assert(belongs_before(leq, order[b] as int, order[a] as int));
        }
    }
}

/// There is only one stable order: two that sort the same positions agree. So
/// what is said to be in stable order is said completely.
pub proof fn law_order_is_unique(
    a: Seq<usize>,
    b: Seq<usize>,
    leq: spec_fn(int, int) -> bool,
    n: nat,
)
    requires
        stable_order(a, leq, n),
        stable_order(b, leq, n),
        total_preorder(leq, n),
    ensures
        a == b,
{
    lemma_order_distinct(a, leq, n);
    lemma_order_distinct(b, leq, n);
    assert forall|k: int| 0 <= k < n implies #[trigger] a[k] == b[k] by {
        lemma_order_agrees(a, b, leq, n, k);
    }
    assert(a =~= b);
}

proof fn lemma_order_agrees(
    a: Seq<usize>,
    b: Seq<usize>,
    leq: spec_fn(int, int) -> bool,
    n: nat,
    k: int,
)
    requires
        stable_order(a, leq, n),
        stable_order(b, leq, n),
        total_preorder(leq, n),
        a.no_duplicates(),
        b.no_duplicates(),
        0 <= k < n,
    ensures
        forall|j: int| 0 <= j <= k ==> #[trigger] a[j] == b[j],
    decreases k,
{
    if k > 0 {
        lemma_order_agrees(a, b, leq, n, k - 1);
    }
    if a[k] != b[k] {
        let p = choose|p: int| 0 <= p < b.len() && b[p] == a[k];
        assert(b.contains(a[k]));
        let q = choose|q: int| 0 <= q < a.len() && a[q] == b[k];
        assert(a.contains(b[k]));
        if p < k {
            assert(a[p] == b[p]);
        }
        if q < k {
            assert(a[q] == b[q]);
        }
        assert(belongs_before(leq, b[k] as int, b[p] as int));
        assert(belongs_before(leq, a[k] as int, a[q] as int));
    }
}

proof fn lemma_before_transitive(leq: spec_fn(int, int) -> bool, n: nat, i: int, j: int, k: int)
    requires
        total_preorder(leq, n),
        0 <= i < n,
        0 <= j < n,
        0 <= k < n,
        belongs_before(leq, i, j),
        belongs_before(leq, j, k),
    ensures
        belongs_before(leq, i, k),
{
    if leq(k, i) {
        assert(leq(k, j));
        assert(leq(j, i));
    }
}

fn merge<F: Fn(usize, usize) -> bool>(
    left: &Vec<usize>,
    right: &Vec<usize>,
    le: &F,
    Ghost(leq): Ghost<spec_fn(int, int) -> bool>,
    Ghost(n): Ghost<nat>,
    Ghost(lo): Ghost<int>,
    Ghost(mid): Ghost<int>,
    Ghost(hi): Ghost<int>,
) -> (out: Vec<usize>)
    requires
        total_preorder(leq, n),
        0 <= lo <= mid <= hi <= n,
        sorted_range(left@, leq, lo, mid),
        sorted_range(right@, leq, mid, hi),
        forall|i: usize, j: usize| i < n && j < n ==> #[trigger] call_requires(le, (i, j)),
        forall|i: usize, j: usize, r: bool|
            i < n && j < n && #[trigger] call_ensures(le, (i, j), r) ==> r == leq(
                i as int,
                j as int,
            ),
    ensures
        sorted_range(out@, leq, lo, hi),
{
    let mut out: Vec<usize> = Vec::new();
    let mut i: usize = 0;
    let mut j: usize = 0;
    while i < left.len() || j < right.len()
        invariant
            i <= left.len(),
            j <= right.len(),
            out.len() == i + j,
            total_preorder(leq, n),
            0 <= lo <= mid <= hi <= n,
            sorted_range(left@, leq, lo, mid),
            sorted_range(right@, leq, mid, hi),
            forall|i: usize, j: usize| i < n && j < n ==> #[trigger] call_requires(le, (i, j)),
            forall|i: usize, j: usize, r: bool|
                i < n && j < n && #[trigger] call_ensures(le, (i, j), r) ==> r == leq(
                    i as int,
                    j as int,
                ),
            forall|k: int| 0 <= k < out.len() ==> lo <= #[trigger] out@[k] < hi,
            forall|k: int| 0 <= k < i ==> out@.contains(#[trigger] left@[k]),
            forall|k: int| 0 <= k < j ==> out@.contains(#[trigger] right@[k]),
            forall|a: int, b: int|
                0 <= a < b < out.len() ==> belongs_before(
                    leq,
                    #[trigger] out@[a] as int,
                    #[trigger] out@[b] as int,
                ),
            forall|a: int, b: int|
                0 <= a < out.len() && i <= b < left.len() ==> belongs_before(
                    leq,
                    #[trigger] out@[a] as int,
                    #[trigger] left@[b] as int,
                ),
            forall|a: int, b: int|
                0 <= a < out.len() && j <= b < right.len() ==> belongs_before(
                    leq,
                    #[trigger] out@[a] as int,
                    #[trigger] right@[b] as int,
                ),
        decreases left.len() - i + right.len() - j,
    {
        let take_left = if i == left.len() {
            false
        } else if j == right.len() {
            true
        } else {
            le(left[i], right[j])
        };
        let ghost before = out@;
        if take_left {
            let x = left[i];
            proof {
                assert forall|b: int| j <= b < right.len() implies belongs_before(
                    leq,
                    x as int,
                    #[trigger] right@[b] as int,
                ) by {
                    assert(belongs_before(leq, x as int, right@[j as int] as int));
                    if b > j {
                        lemma_before_transitive(
                            leq,
                            n,
                            x as int,
                            right@[j as int] as int,
                            right@[b] as int,
                        );
                    }
                }
            }
            out.push(x);
            i = i + 1;
            proof {
                assert(out@[before.len() as int] == x);
                assert forall|k: int| 0 <= k < i implies out@.contains(#[trigger] left@[k]) by {
                    if k < i - 1 {
                        let p = choose|p: int| 0 <= p < before.len() && before[p] == left@[k];
                        assert(out@[p] == left@[k]);
                    }
                }
                assert forall|k: int| 0 <= k < j implies out@.contains(#[trigger] right@[k]) by {
                    let p = choose|p: int| 0 <= p < before.len() && before[p] == right@[k];
                    assert(out@[p] == right@[k]);
                }
            }
        } else {
            let x = right[j];
            proof {
                assert forall|b: int| i <= b < left.len() implies belongs_before(
                    leq,
                    x as int,
                    #[trigger] left@[b] as int,
                ) by {
                    assert(belongs_before(leq, x as int, left@[i as int] as int));
                    if b > i {
                        lemma_before_transitive(
                            leq,
                            n,
                            x as int,
                            left@[i as int] as int,
                            left@[b] as int,
                        );
                    }
                }
            }
            out.push(x);
            j = j + 1;
            proof {
                assert(out@[before.len() as int] == x);
                assert forall|k: int| 0 <= k < i implies out@.contains(#[trigger] left@[k]) by {
                    let p = choose|p: int| 0 <= p < before.len() && before[p] == left@[k];
                    assert(out@[p] == left@[k]);
                }
                assert forall|k: int| 0 <= k < j implies out@.contains(#[trigger] right@[k]) by {
                    if k < j - 1 {
                        let p = choose|p: int| 0 <= p < before.len() && before[p] == right@[k];
                        assert(out@[p] == right@[k]);
                    }
                }
            }
        }
    }
    assert forall|k: usize| lo <= k < hi implies #[trigger] out@.contains(k) by {
        if k < mid {
            assert(left@.contains(k));
            let p = choose|p: int| 0 <= p < left@.len() && left@[p] == k;
            assert(out@.contains(left@[p]));
        } else {
            assert(right@.contains(k));
            let p = choose|p: int| 0 <= p < right@.len() && right@[p] == k;
            assert(out@.contains(right@[p]));
        }
    }
    out
}

fn sort_range<F: Fn(usize, usize) -> bool>(
    lo: usize,
    hi: usize,
    le: &F,
    Ghost(leq): Ghost<spec_fn(int, int) -> bool>,
    Ghost(n): Ghost<nat>,
) -> (out: Vec<usize>)
    requires
        total_preorder(leq, n),
        lo <= hi <= n,
        forall|i: usize, j: usize| i < n && j < n ==> #[trigger] call_requires(le, (i, j)),
        forall|i: usize, j: usize, r: bool|
            i < n && j < n && #[trigger] call_ensures(le, (i, j), r) ==> r == leq(
                i as int,
                j as int,
            ),
    ensures
        sorted_range(out@, leq, lo as int, hi as int),
    decreases hi - lo,
{
    if hi - lo == 0 {
        Vec::new()
    } else if hi - lo == 1 {
        let mut out: Vec<usize> = Vec::new();
        out.push(lo);
        assert(out@[0] == lo);
        out
    } else {
        let mid: usize = lo + (hi - lo) / 2;
        let left = sort_range(lo, mid, le, Ghost(leq), Ghost(n));
        let right = sort_range(mid, hi, le, Ghost(leq), Ghost(n));
        merge(
            &left,
            &right,
            le,
            Ghost(leq),
            Ghost(n),
            Ghost(lo as int),
            Ghost(mid as int),
            Ghost(hi as int),
        )
    }
}

/// The stable sorted order of `n` positions under the comparison `le`.
pub(crate) fn sort_positions<F: Fn(usize, usize) -> bool>(
    n: usize,
    le: &F,
    Ghost(leq): Ghost<spec_fn(int, int) -> bool>,
) -> (out: Vec<usize>)
    requires
        total_preorder(leq, n as nat),
        forall|i: usize, j: usize| i < n && j < n ==> #[trigger] call_requires(le, (i, j)),
        forall|i: usize, j: usize, r: bool|
            i < n && j < n && #[trigger] call_ensures(le, (i, j), r) ==> r == leq(
                i as int,
                j as int,
            ),
    ensures
        stable_order(out@, leq, n as nat),
{
    sort_range(0, n, le, Ghost(leq), Ghost(n as nat))
}

/// Moves the elements of `v` into the given order.
pub(crate) fn arrange<T>(v: Vec<T>, order: &Vec<usize>) -> (out: Vec<T>)
    requires
        order@.no_duplicates(),
        forall|k: int| 0 <= k < order.len() ==> #[trigger] order@[k] < v.len(),
    ensures
        out@ == arranged(v@, order@),
{
    let ghost all = v@;
    let mut v = v;
    let mut slots: Vec<Option<T>> = Vec::new();
    let mut reversed: Vec<T> = Vec::new();
    let n = v.len();
    while v.len() > 0
        invariant
            n == all.len(),
            v@ == all.take(v.len() as int),
            v.len() <= n,
            reversed.len() == n - v.len(),
            forall|k: int| 0 <= k < reversed.len() ==> #[trigger] reversed@[k] == all[n - 1 - k],
        decreases v.len(),
    {
        let x = v.pop().unwrap();
        reversed.push(x);
    }
    while reversed.len() > 0
        invariant
            n == all.len(),
            slots.len() == n - reversed.len(),
            forall|k: int| 0 <= k < reversed.len() ==> #[trigger] reversed@[k] == all[n - 1 - k],
            forall|k: int| 0 <= k < slots.len() ==> #[trigger] slots@[k] == Some(all[k]),
        decreases reversed.len(),
    {
        let x = reversed.pop().unwrap();
        slots.push(Some(x));
    }
    let mut out: Vec<T> = Vec::new();
    let mut k: usize = 0;
    while k < order.len()
        invariant
            k <= order.len(),
            n == all.len(),
            slots.len() == n,
            order@.no_duplicates(),
            forall|k: int| 0 <= k < order.len() ==> #[trigger] order@[k] < n,
            out@ == arranged(all, order@).take(k as int),
            forall|m: int|
                k <= m < order.len() ==> slots@[#[trigger] order@[m] as int] == Some(
                    all[order@[m] as int],
                ),
        decreases order.len() - k,
    {
        let mut taken: Option<T> = None;
        std::mem::swap(&mut taken, &mut slots[order[k]]);
        out.push(taken.unwrap());
        k = k + 1;
        assert(out@ =~= arranged(all, order@).take(k as int));
    }
    assert(arranged(all, order@).take(k as int) =~= arranged(all, order@));
    out
}

} // verus!

//! Wildcard patterns and edit distance, both over UTF-8 bytes.

use vstd::prelude::*;
use vstd::string::*;
use vstd::utf8::encode_utf8;

verus! {

// ---------------------------------------------------------------------------
// Wildcards

pub open spec fn lower_byte(b: u8) -> u8 {
    if 65 <= b <= 90 {
        (b + 32) as u8
    } else {
        b
    }
}

/// A pattern byte stands for a value byte: `?` for any, every other byte for
/// itself in either case.
pub open spec fn stands_for(p: u8, v: u8) -> bool {
    p == 63 || lower_byte(p) == lower_byte(v)
}

/// The pattern from position `i` matches the value from position `j` to its
/// end. A `*` stands for any run of bytes, except where it meets a `*`, which
/// it matches as itself.
pub open spec fn matches_from(p: Seq<u8>, v: Seq<u8>, i: int, j: int) -> bool
    decreases p.len() - i, v.len() - j, 1int,
{
    if i >= p.len() {
        j >= v.len()
    } else if j < v.len() && stands_for(p[i], v[j]) {
        matches_from(p, v, i + 1, j + 1)
    } else if p[i] == 42 {
        run_from(p, v, i, j)
    } else {
        false
    }
}

/// What follows the `*` at position `i` matches the value from position `j`
/// or from a later one.
pub open spec fn run_from(p: Seq<u8>, v: Seq<u8>, i: int, j: int) -> bool
    decreases p.len() - i, v.len() - j, 0int,
{
    i < p.len() && (matches_from(p, v, i + 1, j) || (j < v.len() && run_from(p, v, i, j + 1)))
}

pub open spec fn wildcard_matches(pattern: Seq<char>, value: Seq<char>) -> bool {
    matches_from(encode_utf8(pattern), encode_utf8(value), 0, 0)
}

fn lower_of(b: u8) -> (r: u8)
    ensures
        r == lower_byte(b),
{
    if 65 <= b && b <= 90 {
        b + 32
    } else {
        b
    }
}

proof fn lemma_run(p: Seq<u8>, v: Seq<u8>, i: int, j: int)
    requires
        0 <= i < p.len(),
        j <= v.len(),
    ensures
        run_from(p, v, i, j) <==> exists|k: int|
            j <= k <= v.len() && #[trigger] matches_from(p, v, i + 1, k),
    decreases v.len() - j,
{
    if j < v.len() {
        lemma_run(p, v, i, j + 1);
    }
    if run_from(p, v, i, j) {
        if !matches_from(p, v, i + 1, j) {
            let k = choose|k: int|
                j + 1 <= k <= v.len() && #[trigger] matches_from(p, v, i + 1, k);
            assert(j <= k <= v.len() && matches_from(p, v, i + 1, k));
        }
    } else {
        assert forall|k: int| j <= k <= v.len() implies !#[trigger] matches_from(
            p,
            v,
            i + 1,
            k,
        ) by {
            if k > j {
                assert(!run_from(p, v, i, j + 1));
            }
        }
    }
}

proof fn lemma_star(p: Seq<u8>, v: Seq<u8>, i: int, j: int)
    requires
        0 <= i < p.len(),
        p[i] == 42,
        j <= v.len(),
        !(j < v.len() && stands_for(p[i], v[j])),
    ensures
        matches_from(p, v, i, j) <==> exists|k: int|
            j <= k <= v.len() && #[trigger] matches_from(p, v, i + 1, k),
{
    lemma_run(p, v, i, j);
}

proof fn lemma_first_or_later(p: Seq<u8>, v: Seq<u8>, s: int, j: int)
    requires
        j <= v.len(),
    ensures
        (exists|k: int| j - 1 < k <= v.len() && #[trigger] matches_from(p, v, s + 1, k)) <==> (
        exists|k: int| j <= k <= v.len() && #[trigger] matches_from(p, v, s + 1, k)),
        (exists|k: int| j <= k <= v.len() && #[trigger] matches_from(p, v, s + 1, k)) <==> (
        matches_from(p, v, s + 1, j) || exists|k: int|
            j < k <= v.len() && #[trigger] matches_from(p, v, s + 1, k)),
{
}

/// The pattern from `from` on matched byte for byte at `at`. Then whatever
/// matches from `from` at a later place also matches from `to` at or after the
/// place where the byte-for-byte match ended.
proof fn lemma_later_start(p: Seq<u8>, v: Seq<u8>, from: int, to: int, at: int, k: int) -> (m: int)
    requires
        0 <= from <= to <= p.len(),
        0 <= at,
        at + (to - from) <= v.len(),
        forall|i: int| from <= i < to ==> stands_for(#[trigger] p[i], v[at + (i - from)]),
        at <= k <= v.len(),
        matches_from(p, v, from, k),
    ensures
        at + (to - from) <= m <= v.len(),
        matches_from(p, v, to, m),
    decreases to - from,
{
    if from == to {
        k
    } else {
        assert(stands_for(p[from], v[at + (from - from)]));
        let next = if k < v.len() && stands_for(p[from], v[k]) {
            k + 1
        } else {
            lemma_star(p, v, from, k);
            choose|n: int| k <= n <= v.len() && #[trigger] matches_from(p, v, from + 1, n)
        };
        assert forall|i: int| from + 1 <= i < to implies stands_for(
            #[trigger] p[i],
            v[at + 1 + (i - (from + 1))],
        ) by {
            assert(stands_for(p[i], v[at + (i - from)]));
        }
        lemma_later_start(p, v, from + 1, to, at + 1, next)
    }
}

/// A match at or after a `*` that stands for a run lets the `*` take up what
/// lies between.
proof fn lemma_star_takes(p: Seq<u8>, v: Seq<u8>, i: int, j: int, m: int)
    requires
        0 <= i < p.len(),
        p[i] == 42,
        0 <= j <= m <= v.len(),
        !(j < v.len() && stands_for(p[i], v[j])),
        matches_from(p, v, i, m),
    ensures
        matches_from(p, v, i, j),
{
    lemma_star(p, v, i, j);
    if m < v.len() && stands_for(p[i], v[m]) {
        assert(matches_from(p, v, i + 1, m + 1));
    } else {
        lemma_star(p, v, i, m);
        let n = choose|n: int| m <= n <= v.len() && #[trigger] matches_from(p, v, i + 1, n);
        assert(j <= n <= v.len() && matches_from(p, v, i + 1, n));
    }
}

/// Whether a pattern of `*`, `?` and literal bytes matches a whole value,
/// ASCII letters in either case.
#[verifier::loop_isolation(false)]
pub fn wildcard(pattern: &str, value: &str) -> (r: bool)
    ensures
        r == wildcard_matches(pattern@, value@),
{
    let p = pattern.as_bytes();
    let v = value.as_bytes();
    let mut pi: usize = 0;
    let mut vi: usize = 0;
    let mut star: Option<usize> = None;
    let mut backtrack: usize = 0;
    let ghost goal = matches_from(p@, v@, 0, 0);
    while vi < v.len()
        invariant
            pi <= p.len(),
            backtrack <= vi <= v.len(),
            star is None ==> backtrack == 0 && goal == matches_from(p@, v@, pi as int, vi as int),
            star matches Some(s) ==> {
                &&& s < pi
                &&& p@[s as int] == 42
                &&& vi - backtrack == pi - (s + 1)
                &&& forall|i: int|
                    s + 1 <= i < pi ==> stands_for(#[trigger] p@[i], v@[backtrack + (i - (s + 1))])
                &&& goal == (matches_from(p@, v@, pi as int, vi as int) || exists|k: int|
                    backtrack < k <= v.len() && #[trigger] matches_from(p@, v@, s + 1, k))
            },
        decreases
                v.len() - backtrack,
                p.len() - (match star {
                    Some(s) => s + 1,
                    None => 0,
                }),
                v.len() - vi,
    {
        if pi < p.len() && (p[pi] == 63 || lower_of(p[pi]) == lower_of(v[vi])) {
            proof {
                assert(stands_for(p@[pi as int], v@[vi as int]));
                assert(matches_from(p@, v@, pi as int, vi as int) == matches_from(
                    p@,
                    v@,
                    pi + 1,
                    vi + 1,
                ));
                if let Some(s) = star {
                    assert(backtrack + (pi - (s + 1)) == vi);
                }
            }
            pi = pi + 1;
            vi = vi + 1;
        } else if pi < p.len() && p[pi] == 42 {
            proof {
                if let Some(s) = star {
                    if exists|k: int|
                        backtrack < k <= v.len() && #[trigger] matches_from(p@, v@, s + 1, k) {
                        let k = choose|k: int|
                            backtrack < k <= v.len() && #[trigger] matches_from(p@, v@, s + 1, k);
                        let m = lemma_later_start(
                            p@,
                            v@,
                            s + 1,
                            pi as int,
                            backtrack as int,
                            k,
                        );
                        lemma_star_takes(p@, v@, pi as int, vi as int, m);
                    }
                }
                assert(goal == matches_from(p@, v@, pi as int, vi as int));
                lemma_star(p@, v@, pi as int, vi as int);
                lemma_first_or_later(p@, v@, pi as int, vi as int);
                assert(goal == (matches_from(p@, v@, pi + 1, vi as int) || exists|k: int|
                    vi < k <= v.len() && #[trigger] matches_from(p@, v@, pi + 1, k)));
            }
            star = Some(pi);
            pi = pi + 1;
            backtrack = vi;
        } else if let Some(s) = star {
            assert(!matches_from(p@, v@, pi as int, vi as int));
            proof {
                lemma_first_or_later(p@, v@, s as int, backtrack + 1);
                assert(goal == (matches_from(p@, v@, s + 1, backtrack + 1) || exists|k: int|
                    backtrack + 1 < k <= v.len() && #[trigger] matches_from(p@, v@, s + 1, k)));
            }
            pi = s + 1;
            backtrack = backtrack + 1;
            vi = backtrack;
        } else {
            return false;
        }
    }
    proof {
        if let Some(s) = star {
            if exists|k: int| backtrack < k <= v.len() && #[trigger] matches_from(p@, v@, s + 1, k) {
                let k = choose|k: int|
                    backtrack < k <= v.len() && #[trigger] matches_from(p@, v@, s + 1, k);
                let m = lemma_later_start(p@, v@, s + 1, pi as int, backtrack as int, k);
            }
        }
    }
    assert(goal == matches_from(p@, v@, pi as int, v.len() as int));
    while pi < p.len() && p[pi] == 42
        invariant
            pi <= p.len(),
            goal == matches_from(p@, v@, pi as int, v.len() as int),
        decreases p.len() - pi,
    {
        proof {
            lemma_star(p@, v@, pi as int, v.len() as int);
        }
        pi = pi + 1;
    }
    pi == p.len()
}

/// A pattern without `*` and `?` matches exactly the values that differ from
/// it in the case of letters at most.
pub proof fn law_literal_pattern(p: Seq<u8>, v: Seq<u8>)
    requires
        forall|i: int| 0 <= i < p.len() ==> #[trigger] p[i] != 42 && p[i] != 63,
    ensures
        matches_from(p, v, 0, 0) <==> p.len() == v.len() && forall|i: int|
            0 <= i < p.len() ==> lower_byte(#[trigger] p[i]) == lower_byte(v[i]),
{
    lemma_literal_from(p, v, 0);
}

proof fn lemma_literal_from(p: Seq<u8>, v: Seq<u8>, i: int)
    requires
        0 <= i <= p.len(),
        i <= v.len(),
        forall|k: int| 0 <= k < p.len() ==> #[trigger] p[k] != 42 && p[k] != 63,
    ensures
        matches_from(p, v, i, i) <==> p.len() == v.len() && forall|k: int|
            i <= k < p.len() ==> lower_byte(#[trigger] p[k]) == lower_byte(v[k]),
    decreases p.len() - i,
{
    if i < p.len() {
        assert(p[i] != 42 && p[i] != 63);
        if i < v.len() {
            lemma_literal_from(p, v, i + 1);
        }
    }
}

// ---------------------------------------------------------------------------
// Edit distance

pub open spec fn least(a: nat, b: nat) -> nat {
    if a <= b {
        a
    } else {
        b
    }
}

/// The Levenshtein distance: how many insertions, deletions and replacements
/// of single bytes it takes at least to turn one string into the other.
pub open spec fn distance(a: Seq<u8>, b: Seq<u8>) -> nat
    decreases a.len() + b.len(),
{
    if a.len() == 0 {
        b.len()
    } else if b.len() == 0 {
        a.len()
    } else if a.last() == b.last() {
        distance(a.drop_last(), b.drop_last())
    } else {
        1 + least(
            least(distance(a.drop_last(), b.drop_last()), distance(a, b.drop_last())),
            distance(a.drop_last(), b),
        )
    }
}

pub open spec fn text_distance(a: Seq<char>, b: Seq<char>) -> nat {
    distance(encode_utf8(a), encode_utf8(b))
}

/// The distance is never more than the longer length, and never less than the
/// difference in length.
pub proof fn law_distance_bounds(a: Seq<u8>, b: Seq<u8>)
    ensures
        distance(a, b) <= a.len() || distance(a, b) <= b.len(),
        a.len() <= b.len() + distance(a, b),
        b.len() <= a.len() + distance(a, b),
    decreases a.len() + b.len(),
{
    if a.len() > 0 && b.len() > 0 {
        law_distance_bounds(a.drop_last(), b.drop_last());
        law_distance_bounds(a, b.drop_last());
        law_distance_bounds(a.drop_last(), b);
    }
}

/// The distance is the same in both directions.
pub proof fn law_distance_symmetric(a: Seq<u8>, b: Seq<u8>)
    ensures
        distance(a, b) == distance(b, a),
    decreases a.len() + b.len(),
{
    if a.len() > 0 && b.len() > 0 {
        law_distance_symmetric(a.drop_last(), b.drop_last());
        law_distance_symmetric(a, b.drop_last());
        law_distance_symmetric(a.drop_last(), b);
    }
}

/// Only equal strings are at distance zero.
pub proof fn law_distance_zero(a: Seq<u8>, b: Seq<u8>)
    ensures
        distance(a, b) == 0 <==> a == b,
    decreases a.len() + b.len(),
{
    if a.len() > 0 && b.len() > 0 {
        if a.last() == b.last() {
            law_distance_zero(a.drop_last(), b.drop_last());
            assert(a =~= a.drop_last().push(a.last()));
            assert(b =~= b.drop_last().push(b.last()));
        }
    } else if a.len() == b.len() {
        assert(a =~= b);
    }
}

/// One edit turns a string into another: a byte is inserted, deleted or
/// replaced.
pub open spec fn one_edit(a: Seq<u8>, b: Seq<u8>) -> bool {
    ||| exists|i: int, x: u8| 0 <= i <= a.len() && b == #[trigger] a.insert(i, x)
    ||| exists|i: int| 0 <= i < a.len() && b == #[trigger] a.remove(i)
    ||| exists|i: int, x: u8| 0 <= i < a.len() && b == #[trigger] a.update(i, x)
}

/// `n` edits, one after the other, turn a string into another.
pub open spec fn edits(a: Seq<u8>, b: Seq<u8>, n: nat) -> bool
    decreases n,
{
    if n == 0 {
        a == b
    } else {
        exists|m: Seq<u8>| #[trigger] one_edit(a, m) && edits(m, b, (n - 1) as nat)
    }
}

/// Edits in a row add up.
proof fn lemma_edits_join(a: Seq<u8>, b: Seq<u8>, c: Seq<u8>, n: nat, k: nat)
    requires
        edits(a, b, n),
        edits(b, c, k),
    ensures
        edits(a, c, n + k),
    decreases n,
{
    if n > 0 {
        let m = choose|m: Seq<u8>| #[trigger] one_edit(a, m) && edits(m, b, (n - 1) as nat);
        lemma_edits_join(m, b, c, (n - 1) as nat, k);
    }
}

proof fn lemma_single_edit(a: Seq<u8>, b: Seq<u8>)
    requires
        one_edit(a, b),
    ensures
        edits(a, b, 1),
{
    assert(edits(b, b, 0));
}

/// An edit leaves a byte behind it alone.
proof fn lemma_edit_before(a: Seq<u8>, b: Seq<u8>, z: u8)
    requires
        one_edit(a, b),
    ensures
        one_edit(a.push(z), b.push(z)),
{
    if exists|i: int, x: u8| 0 <= i <= a.len() && b == #[trigger] a.insert(i, x) {
        let (i, x) = choose|i: int, x: u8| 0 <= i <= a.len() && b == #[trigger] a.insert(i, x);
        assert(b.push(z) =~= a.push(z).insert(i, x));
    } else if exists|i: int| 0 <= i < a.len() && b == #[trigger] a.remove(i) {
        let i = choose|i: int| 0 <= i < a.len() && b == #[trigger] a.remove(i);
        assert(b.push(z) =~= a.push(z).remove(i));
    } else {
        let (i, x) = choose|i: int, x: u8| 0 <= i < a.len() && b == #[trigger] a.update(i, x);
        assert(b.push(z) =~= a.push(z).update(i, x));
    }
}

proof fn lemma_edits_before(a: Seq<u8>, b: Seq<u8>, z: u8, n: nat)
    requires
        edits(a, b, n),
    ensures
        edits(a.push(z), b.push(z), n),
    decreases n,
{
    if n > 0 {
        let m = choose|m: Seq<u8>| #[trigger] one_edit(a, m) && edits(m, b, (n - 1) as nat);
        lemma_edit_before(a, m, z);
        lemma_edits_before(m, b, z, (n - 1) as nat);
    }
}

/// As many edits as the distance says are enough.
proof fn lemma_distance_suffices(a: Seq<u8>, b: Seq<u8>)
    ensures
        edits(a, b, distance(a, b)),
    decreases a.len() + b.len(),
{
    if a.len() == 0 && b.len() == 0 {
        assert(a =~= b);
    } else if a.len() == 0 {
        let rest = b.drop_last();
        lemma_distance_suffices(a, rest);
        assert(b =~= rest.insert(rest.len() as int, b.last()));
        lemma_single_edit(rest, b);
        lemma_edits_join(a, rest, b, rest.len(), 1);
    } else if b.len() == 0 {
        let rest = a.drop_last();
        lemma_distance_suffices(rest, b);
        assert(rest =~= a.remove(a.len() - 1));
        lemma_single_edit(a, rest);
        lemma_edits_join(a, rest, b, 1, rest.len());
    } else {
        let x = a.drop_last();
        let y = b.drop_last();
        assert(a =~= x.push(a.last()));
        assert(b =~= y.push(b.last()));
        lemma_distance_suffices(x, y);
        lemma_edits_before(x, y, a.last(), distance(x, y));
        if a.last() != b.last() {
            let middle = y.push(a.last());
            assert(b =~= middle.update(y.len() as int, b.last()));
            lemma_single_edit(middle, b);
            lemma_edits_join(a, middle, b, distance(x, y), 1);
            lemma_distance_suffices(a, y);
            assert(b =~= y.insert(y.len() as int, b.last()));
            lemma_single_edit(y, b);
            lemma_edits_join(a, y, b, distance(a, y), 1);
            lemma_distance_suffices(x, b);
            assert(x =~= a.remove(a.len() - 1));
            lemma_single_edit(a, x);
            lemma_edits_join(a, x, b, 1, distance(x, b));
        }
    }
}

/// A byte more or less at the end changes the distance by one at most.
proof fn lemma_distance_steps(a: Seq<u8>, b: Seq<u8>)
    ensures
        a.len() > 0 ==> distance(a, b) <= 1 + distance(a.drop_last(), b),
        a.len() > 0 ==> distance(a.drop_last(), b) <= 1 + distance(a, b),
        b.len() > 0 ==> distance(a, b) <= 1 + distance(a, b.drop_last()),
        b.len() > 0 ==> distance(a, b.drop_last()) <= 1 + distance(a, b),
    decreases a.len() + b.len(),
{
    law_distance_bounds(a, b);
    if a.len() > 0 && b.len() > 0 {
        lemma_distance_steps(a.drop_last(), b);
        lemma_distance_steps(a, b.drop_last());
    }
}

/// Another byte at the end changes the distance by one at most.
proof fn lemma_distance_of_replaced(p: Seq<u8>, x: u8, y: u8, b: Seq<u8>)
    ensures
        distance(p.push(x), b) <= 1 + distance(p.push(y), b),
    decreases b.len(),
{
    if b.len() > 0 {
        let rest = b.drop_last();
        assert(p.push(x).drop_last() =~= p);
        assert(p.push(y).drop_last() =~= p);
        lemma_distance_of_replaced(p, x, y, rest);
        lemma_distance_steps(p.push(x), rest);
        lemma_distance_steps(p.push(y), rest);
        lemma_distance_steps(p, b);
    }
}

/// Two strings with the same last byte, one edit apart before it.
proof fn lemma_distance_behind_edit(a: Seq<u8>, m: Seq<u8>, z: u8, b: Seq<u8>)
    requires
        one_edit(a, m),
    ensures
        distance(a.push(z), b) <= 1 + distance(m.push(z), b),
    decreases a.len() + 1 + b.len(), 0nat,
{
    assert(a.push(z).drop_last() =~= a);
    assert(m.push(z).drop_last() =~= m);
    assert(a.len() <= m.len() + 1);
    if b.len() > 0 {
        let rest = b.drop_last();
        lemma_distance_after_edit(a, m, rest);
        if b.last() != z {
            lemma_distance_after_edit(a, m, b);
            lemma_distance_behind_edit(a, m, z, rest);
        }
    }
}

/// One edit changes the distance by one at most.
proof fn lemma_distance_after_edit(a: Seq<u8>, m: Seq<u8>, b: Seq<u8>)
    requires
        one_edit(a, m),
    ensures
        distance(a, b) <= 1 + distance(m, b),
    decreases a.len() + b.len(), 1nat,
{
    if exists|i: int, x: u8| 0 <= i <= a.len() && m == #[trigger] a.insert(i, x) {
        let (i, x) = choose|i: int, x: u8| 0 <= i <= a.len() && m == #[trigger] a.insert(i, x);
        if i == a.len() {
            assert(m.drop_last() =~= a);
            lemma_distance_steps(m, b);
        } else {
            let (p, z) = (a.drop_last(), a.last());
            let q = p.insert(i, x);
            assert(a =~= p.push(z));
            assert(m =~= q.push(z));
            lemma_distance_behind_edit(p, q, z, b);
        }
    } else if exists|i: int| 0 <= i < a.len() && m == #[trigger] a.remove(i) {
        let i = choose|i: int| 0 <= i < a.len() && m == #[trigger] a.remove(i);
        if i == a.len() - 1 {
            assert(m =~= a.drop_last());
            lemma_distance_steps(a, b);
        } else {
            let (p, z) = (a.drop_last(), a.last());
            let q = p.remove(i);
            assert(a =~= p.push(z));
            assert(m =~= q.push(z));
            lemma_distance_behind_edit(p, q, z, b);
        }
    } else {
        let (i, x) = choose|i: int, x: u8| 0 <= i < a.len() && m == #[trigger] a.update(i, x);
        let (p, z) = (a.drop_last(), a.last());
        assert(a =~= p.push(z));
        if i == a.len() - 1 {
            assert(m =~= p.push(x));
            lemma_distance_of_replaced(p, z, x, b);
        } else {
            let q = p.update(i, x);
            assert(m =~= q.push(z));
            lemma_distance_behind_edit(p, q, z, b);
        }
    }
}

/// The distance is the least number of edits: that many turn one string into
/// the other, and no fewer do.
pub proof fn law_distance_is_least(a: Seq<u8>, b: Seq<u8>, n: nat)
    ensures
        edits(a, b, distance(a, b)),
        edits(a, b, n) ==> distance(a, b) <= n,
    decreases n,
{
    lemma_distance_suffices(a, b);
    if edits(a, b, n) {
        if n == 0 {
            law_distance_zero(a, b);
        } else {
            let m = choose|m: Seq<u8>| #[trigger] one_edit(a, m) && edits(m, b, (n - 1) as nat);
            law_distance_is_least(m, b, (n - 1) as nat);
            lemma_distance_after_edit(a, m, b);
        }
    }
}

/// A detour is never shorter.
pub proof fn law_distance_triangle(a: Seq<u8>, b: Seq<u8>, c: Seq<u8>)
    ensures
        distance(a, c) <= distance(a, b) + distance(b, c),
{
    lemma_distance_suffices(a, b);
    lemma_distance_suffices(b, c);
    lemma_edits_join(a, b, c, distance(a, b), distance(b, c));
    law_distance_is_least(a, c, distance(a, b) + distance(b, c));
}

/// The distance of texts is a metric: zero for equal texts only, the same in
/// both directions, and no longer than a detour.
pub proof fn law_text_distance_is_a_metric(a: Seq<char>, b: Seq<char>, c: Seq<char>)
    ensures
        text_distance(a, b) == 0 <==> a == b,
        text_distance(a, b) == text_distance(b, a),
        text_distance(a, c) <= text_distance(a, b) + text_distance(b, c),
{
    let (x, y, z) = (encode_utf8(a), encode_utf8(b), encode_utf8(c));
    vstd::utf8::encode_utf8_decode_utf8(a);
    vstd::utf8::encode_utf8_decode_utf8(b);
    law_distance_zero(x, y);
    law_distance_symmetric(x, y);
    law_distance_triangle(x, y, z);
}

/// Levenshtein distance over bytes, with a single rolling row.
pub fn edit_distance(left: &str, right: &str) -> (r: usize)
    ensures
        r == text_distance(left@, right@),
{
    let a = left.as_bytes();
    let b = right.as_bytes();
    let mut row: Vec<usize> = Vec::new();
    row.push(0);
    let mut j: usize = 0;
    while j < b.len()
        invariant
            j <= b.len(),
            row.len() == j + 1,
            forall|k: int| 0 <= k <= j ==> #[trigger] row@[k] == k,
        decreases b.len() - j,
    {
        j = j + 1;
        row.push(j);
    }
    proof {
        assert forall|k: int| 0 <= k <= b.len() implies #[trigger] row@[k] == distance(
            a@.take(0),
            b@.take(k),
        ) by {}
    }
    let mut i: usize = 0;
    while i < a.len()
        invariant
            i <= a.len(),
            row.len() == b.len() + 1,
            forall|k: int|
                0 <= k <= b.len() ==> #[trigger] row@[k] == distance(
                    a@.take(i as int),
                    b@.take(k),
                ),
        decreases a.len() - i,
    {
        let mut diagonal: usize = row[0];
        let ghost before = a@.take(i as int);
        let ghost now = a@.take(i + 1);
        assert(now.drop_last() =~= before);
        row.set(0, i + 1);
        let mut j: usize = 0;
        while j < b.len()
            invariant
                i < a.len(),
                j <= b.len(),
                row.len() == b.len() + 1,
                before == a@.take(i as int),
                now == a@.take(i + 1),
                now.drop_last() == before,
                diagonal == distance(before, b@.take(j as int)),
                forall|k: int| 0 <= k <= j ==> #[trigger] row@[k] == distance(now, b@.take(k)),
                forall|k: int|
                    j < k <= b.len() ==> #[trigger] row@[k] == distance(before, b@.take(k)),
            decreases b.len() - j,
        {
            let next = row[j + 1];
            let ghost there = b@.take(j + 1);
            assert(there.drop_last() =~= b@.take(j as int));
            proof {
                assert(now.last() == a@[i as int]);
                assert(there.last() == b@[j as int]);
                assert(row@[j as int] == distance(now, b@.take(j as int)));
                law_distance_bounds(before, b@.take(j as int));
            }
            let cell: usize = if a[i] == b[j] {
                diagonal
            } else {
                let mut least: usize = diagonal;
                if row[j] < least {
                    least = row[j];
                }
                if next < least {
                    least = next;
                }
                1 + least
            };
            row.set(j + 1, cell);
            diagonal = next;
            j = j + 1;
        }
        i = i + 1;
    }
    assert(a@.take(i as int) =~= a@);
    assert(b@.take(b.len() as int) =~= b@);
    row[b.len()]
}

// ---------------------------------------------------------------------------
// What patterns stand for

/// A `?` stands for any one byte: what follows it has to match what follows
/// that byte, and without a byte there is no match.
pub proof fn law_question_mark_takes_one_byte(p: Seq<u8>, v: Seq<u8>, i: int, j: int)
    requires
        0 <= i < p.len(),
        0 <= j <= v.len(),
        p[i] == 63,
    ensures
        j < v.len() ==> matches_from(p, v, i, j) == matches_from(p, v, i + 1, j + 1),
        j == v.len() ==> !matches_from(p, v, i, j),
{
}

/// A `*` stands for any run of bytes: what follows it may match from any later
/// place on, in a value that holds no `*` itself.
pub proof fn law_star_takes_any_run(p: Seq<u8>, v: Seq<u8>, i: int, j: int)
    requires
        0 <= i < p.len(),
        0 <= j <= v.len(),
        p[i] == 42,
        forall|k: int| 0 <= k < v.len() ==> #[trigger] v[k] != 42,
    ensures
        matches_from(p, v, i, j) <==> exists|k: int|
            j <= k <= v.len() && #[trigger] matches_from(p, v, i + 1, k),
{
    lemma_star(p, v, i, j);
}

/// Any other byte stands for itself, a letter for itself in either case.
pub proof fn law_plain_byte_stands_for_itself(p: Seq<u8>, v: Seq<u8>, i: int, j: int)
    requires
        0 <= i < p.len(),
        0 <= j < v.len(),
        p[i] != 42,
        p[i] != 63,
    ensures
        matches_from(p, v, i, j) <==> (p[i] == v[j] || (97 <= p[i] <= 122 && v[j] + 32 == p[i]) || (
        97 <= v[j] <= 122 && p[i] + 32 == v[j])) && matches_from(p, v, i + 1, j + 1),
        matches_from(p, v, p.len() as int, v.len() as int),
        !matches_from(p, v, p.len() as int, j),
{
}

/// A pattern that ends in its only `*` matches what begins with the rest of it,
/// and nothing else.
pub proof fn law_trailing_star_matches_beginnings(start: Seq<u8>, v: Seq<u8>)
    requires
        forall|k: int| 0 <= k < start.len() ==> #[trigger] start[k] != 42 && start[k] != 63,
        forall|k: int| 0 <= k < v.len() ==> #[trigger] v[k] != 42,
    ensures
        matches_from(start.push(42), v, 0, 0) <==> v.len() >= start.len() && forall|k: int|
            0 <= k < start.len() ==> lower_byte(#[trigger] start[k]) == lower_byte(v[k]),
{
    lemma_trailing_star(start, v, 0);
}

proof fn lemma_trailing_star(start: Seq<u8>, v: Seq<u8>, i: int)
    requires
        0 <= i <= start.len(),
        i <= v.len(),
        forall|k: int| 0 <= k < start.len() ==> #[trigger] start[k] != 42 && start[k] != 63,
        forall|k: int| 0 <= k < v.len() ==> #[trigger] v[k] != 42,
    ensures
        matches_from(start.push(42), v, i, i) <==> v.len() >= start.len() && forall|k: int|
            i <= k < start.len() ==> lower_byte(#[trigger] start[k]) == lower_byte(v[k]),
    decreases start.len() - i,
{
    let p = start.push(42);
    if i == start.len() {
        lemma_star(p, v, i, i);
        assert(matches_from(p, v, i + 1, v.len() as int));
    } else {
        assert(p[i] == start[i]);
        assert(start[i] != 42 && start[i] != 63);
        if i < v.len() {
            lemma_trailing_star(start, v, i + 1);
        }
    }
}

/// A pattern without `*` and `?` matches exactly the texts that differ from it in
/// case only.
pub proof fn law_plain_pattern_matches_itself(pattern: Seq<char>, value: Seq<char>)
    requires
        forall|i: int|
            0 <= i < encode_utf8(pattern).len() ==> #[trigger] encode_utf8(pattern)[i] != 42
                && encode_utf8(pattern)[i] != 63,
    ensures
        wildcard_matches(pattern, value) <==> encode_utf8(pattern).len() == encode_utf8(value).len()
            && forall|i: int|
            0 <= i < encode_utf8(pattern).len() ==> lower_byte(#[trigger] encode_utf8(pattern)[i])
                == lower_byte(encode_utf8(value)[i]),
        wildcard_matches(pattern, pattern),
{
    law_literal_pattern(encode_utf8(pattern), encode_utf8(value));
    law_literal_pattern(encode_utf8(pattern), encode_utf8(pattern));
}

} // verus!

//! Reordering of a collection's rows: the order a client asks for, reconciled
//! against the ids the collection actually holds.
use vstd::prelude::*;

verus! {

/// The body every reorder request takes: the collection's row ids, in the
/// order the list should now be in.
pub struct ReorderRequest {
    pub ids: Vec<i64>,
}

/// The requested ids that the collection holds, each once, in the order first
/// named.
pub open spec fn named_ids(current: Seq<i64>, requested: Seq<i64>) -> Seq<i64>
    decreases requested.len(),
{
    if requested.len() == 0 {
        Seq::empty()
    } else {
        let before = named_ids(current, requested.drop_last());
        let id = requested.last();
        if current.contains(id) && !before.contains(id) {
            before.push(id)
        } else {
            before
        }
    }
}

/// The ids of `current` that `placed` does not hold, in their present order.
pub open spec fn unplaced_ids(current: Seq<i64>, placed: Seq<i64>) -> Seq<i64>
    decreases current.len(),
{
    if current.len() == 0 {
        Seq::empty()
    } else {
        let before = unplaced_ids(current.drop_last(), placed);
        if placed.contains(current.last()) {
            before
        } else {
            before.push(current.last())
        }
    }
}

/// The reconciled order: named rows first, in the order named; every other row
/// of the collection behind them, in its present order.
pub open spec fn reconciled(current: Seq<i64>, requested: Seq<i64>) -> Seq<i64> {
    let named = named_ids(current, requested);
    named + unplaced_ids(current, named)
}

fn contains_id(v: &Vec<i64>, id: i64) -> (r: bool)
    ensures
        r == v@.contains(id),
{
    let mut i: usize = 0;
    while i < v.len()
        invariant
            i <= v@.len(),
            forall|j: int| 0 <= j < i ==> v@[j] != id,
        decreases v@.len() - i,
    {
        if v[i] == id {
            assert(v@[i as int] == id);
            return true;
        }
        i = i + 1;
    }
    false
}

/// The order `requested` asks for, reconciled against what the collection
/// holds. An id the collection does not hold is dropped, a repeated id counts
/// once, and rows the caller did not name keep their place behind the named
/// ones.
pub fn reconcile(current: &[i64], requested: &[i64]) -> (order: Vec<i64>)
    ensures
        order@ == reconciled(current@, requested@),
{
    let mut cur: Vec<i64> = Vec::new();
    let mut k: usize = 0;
    while k < current.len()
        invariant
            k <= current@.len(),
            cur@ == current@.subrange(0, k as int),
        decreases current@.len() - k,
    {
        cur.push(current[k]);
        k = k + 1;
    }
    assert(cur@ == current@);
    let mut placed: Vec<i64> = Vec::new();
    let mut i: usize = 0;
    while i < requested.len()
        invariant
            i <= requested@.len(),
            cur@ == current@,
            placed@ == named_ids(current@, requested@.subrange(0, i as int)),
        decreases requested@.len() - i,
    {
        let id = requested[i];
        let known = contains_id(&cur, id);
        let seen = contains_id(&placed, id);
        assert(requested@.subrange(0, i + 1).drop_last() == requested@.subrange(0, i as int));
        if known && !seen {
            placed.push(id);
        }
        i = i + 1;
    }
    assert(requested@.subrange(0, requested@.len() as int) == requested@);
    let named = placed.clone();
    let mut order = placed;
    let mut j: usize = 0;
    while j < current.len()
        invariant
            j <= current@.len(),
            named@ == named_ids(current@, requested@),
            order@ == named@ + unplaced_ids(current@.subrange(0, j as int), named@),
        decreases current@.len() - j,
    {
        let id = current[j];
        assert(current@.subrange(0, j + 1).drop_last() == current@.subrange(0, j as int));
        if !contains_id(&named, id) {
            order.push(id);
        }
        j = j + 1;
    }
    assert(current@.subrange(0, current@.len() as int) == current@);
    order
}

/// Every id of `unplaced_ids(c, p)` is an id of `c` that `p` does not hold.
pub proof fn lemma_unplaced_members(c: Seq<i64>, p: Seq<i64>, x: i64)
    ensures
        unplaced_ids(c, p).contains(x) <==> (c.contains(x) && !p.contains(x)),
    decreases c.len(),
{
    if c.len() > 0 {
        lemma_unplaced_members(c.drop_last(), p, x);
        if c.contains(x) && c.last() != x {
            let k = choose|k: int| 0 <= k < c.len() && c[k] == x;
            assert(c.drop_last()[k] == x);
        }
        if c.drop_last().contains(x) {
            let k = choose|k: int| 0 <= k < c.len() - 1 && c.drop_last()[k] == x;
            assert(c[k] == x);
        }
        let before = unplaced_ids(c.drop_last(), p);
        if !p.contains(c.last()) {
            assert(before.push(c.last()).last() == c.last());
            if before.contains(x) {
                let k = choose|k: int| 0 <= k < before.len() && before[k] == x;
                assert(before.push(c.last())[k] == x);
            }
            if before.push(c.last()).contains(x) && x != c.last() {
                let k = choose|k: int| 0 <= k < before.len() + 1 && before.push(c.last())[k] == x;
                assert(before[k] == x);
            }
        }
        assert(c[c.len() - 1] == c.last());
    }
}

/// Every id of `named_ids(c, r)` is an id of both `c` and `r`, and each id of
/// `r` that `c` holds is among them.
pub proof fn lemma_named_members(c: Seq<i64>, r: Seq<i64>, x: i64)
    ensures
        named_ids(c, r).contains(x) <==> (c.contains(x) && r.contains(x)),
    decreases r.len(),
{
    if r.len() > 0 {
        lemma_named_members(c, r.drop_last(), x);
        let before = named_ids(c, r.drop_last());
        if r.drop_last().contains(x) {
            let k = choose|k: int| 0 <= k < r.len() - 1 && r.drop_last()[k] == x;
            assert(r[k] == x);
        }
        if r.contains(x) && r.last() != x {
            let k = choose|k: int| 0 <= k < r.len() && r[k] == x;
            assert(r.drop_last()[k] == x);
        }
        assert(r[r.len() - 1] == r.last());
        if c.contains(r.last()) && !before.contains(r.last()) {
            assert(before.push(r.last()).last() == r.last());
            if before.contains(x) {
                let k = choose|k: int| 0 <= k < before.len() && before[k] == x;
                assert(before.push(r.last())[k] == x);
            }
            if before.push(r.last()).contains(x) && x != r.last() {
                let k = choose|k: int| 0 <= k < before.len() + 1 && before.push(r.last())[k] == x;
                assert(before[k] == x);
            }
        }
    }
}

/// `named_ids` never repeats an id.
pub proof fn lemma_named_distinct(c: Seq<i64>, r: Seq<i64>)
    ensures
        named_ids(c, r).no_duplicates(),
    decreases r.len(),
{
    if r.len() > 0 {
        lemma_named_distinct(c, r.drop_last());
    }
}

/// `unplaced_ids` keeps a collection free of repeats.
pub proof fn lemma_unplaced_distinct(c: Seq<i64>, p: Seq<i64>)
    requires
        c.no_duplicates(),
    ensures
        unplaced_ids(c, p).no_duplicates(),
    decreases c.len(),
{
    if c.len() > 0 {
        let d = c.drop_last();
        assert(d.no_duplicates()) by {
            assert forall|i: int, j: int| 0 <= i < d.len() && 0 <= j < d.len() && i != j implies d[i]
                != d[j] by {
                assert(c[i] == d[i] && c[j] == d[j]);
            }
        }
        lemma_unplaced_distinct(d, p);
        lemma_unplaced_members(d, p, c.last());
        if d.contains(c.last()) {
            let k = choose|k: int| 0 <= k < d.len() && d[k] == c.last();
            assert(c[k] == c[c.len() - 1]);
        }
    }
}

/// Where `named_ids` depends on the collection, it depends only on which ids
/// the collection holds.
pub proof fn lemma_named_same_members(c1: Seq<i64>, c2: Seq<i64>, r: Seq<i64>)
    requires
        forall|x: i64| c1.contains(x) <==> c2.contains(x),
    ensures
        named_ids(c1, r) == named_ids(c2, r),
    decreases r.len(),
{
    if r.len() > 0 {
        lemma_named_same_members(c1, c2, r.drop_last());
    }
}

/// Filtering out ids that `p` holds leaves ids that `p` does not hold alone.
pub proof fn lemma_unplaced_of_unplaced(c: Seq<i64>, p: Seq<i64>)
    ensures
        unplaced_ids(unplaced_ids(c, p), p) == unplaced_ids(c, p),
    decreases c.len(),
{
    if c.len() > 0 {
        lemma_unplaced_of_unplaced(c.drop_last(), p);
        let before = unplaced_ids(c.drop_last(), p);
        if !p.contains(c.last()) {
            assert(before.push(c.last()).drop_last() == before);
        }
    }
}

/// Ids that `p` holds all drop out.
pub proof fn lemma_unplaced_all_placed(c: Seq<i64>, p: Seq<i64>)
    requires
        forall|x: i64| c.contains(x) ==> p.contains(x),
    ensures
        unplaced_ids(c, p) == Seq::<i64>::empty(),
    decreases c.len(),
{
    if c.len() > 0 {
        assert forall|x: i64| c.drop_last().contains(x) implies p.contains(x) by {
            let k = choose|k: int| 0 <= k < c.len() - 1 && c.drop_last()[k] == x;
            assert(c[k] == x);
        }
        lemma_unplaced_all_placed(c.drop_last(), p);
        assert(c[c.len() - 1] == c.last());
    }
}

/// Filtering distributes over concatenation.
pub proof fn lemma_unplaced_concat(a: Seq<i64>, b: Seq<i64>, p: Seq<i64>)
    ensures
        unplaced_ids(a + b, p) == unplaced_ids(a, p) + unplaced_ids(b, p),
    decreases b.len(),
{
    if b.len() == 0 {
        assert(a + b == a);
    } else {
        assert((a + b).drop_last() == a + b.drop_last());
        assert((a + b).last() == b.last());
        lemma_unplaced_concat(a, b.drop_last(), p);
    }
}

/// Reconciling keeps exactly the collection's rows: no row is lost, none is
/// added, and where the collection holds each id once so does the result.
pub proof fn reconcile_is_permutation(current: Seq<i64>, requested: Seq<i64>)
    ensures
        forall|x: i64| reconciled(current, requested).contains(x) <==> current.contains(x),
        current.no_duplicates() ==> reconciled(current, requested).no_duplicates(),
        current.no_duplicates() ==> reconciled(current, requested).len() == current.len(),
{
    let named = named_ids(current, requested);
    let rest = unplaced_ids(current, named);
    let out = named + rest;
    assert forall|x: i64| out.contains(x) <==> current.contains(x) by {
        lemma_named_members(current, requested, x);
        lemma_unplaced_members(current, named, x);
        if out.contains(x) {
            let k = choose|k: int| 0 <= k < out.len() && out[k] == x;
            if k < named.len() {
                assert(named[k] == x);
            } else {
                assert(rest[k - named.len()] == x);
            }
        }
        if current.contains(x) {
            if named.contains(x) {
                let k = choose|k: int| 0 <= k < named.len() && named[k] == x;
                assert(out[k] == x);
            } else {
                let k = choose|k: int| 0 <= k < rest.len() && rest[k] == x;
                assert(out[named.len() + k] == x);
            }
        }
    }
    if current.no_duplicates() {
        lemma_named_distinct(current, requested);
        lemma_unplaced_distinct(current, named);
        assert forall|i: int, j: int| 0 <= i < out.len() && 0 <= j < out.len() && i != j implies out[i]
            != out[j] by {
            if i < named.len() && j >= named.len() {
                lemma_unplaced_members(current, named, out[j]);
                assert(rest[j - named.len()] == out[j]);
                assert(named[i] == out[i]);
            } else if j < named.len() && i >= named.len() {
                lemma_unplaced_members(current, named, out[i]);
                assert(rest[i - named.len()] == out[i]);
                assert(named[j] == out[j]);
            }
        }
        lemma_reconciled_len(current, requested);
    }
}

/// With a collection free of repeats, the reconciled order is as long as the
/// collection.
proof fn lemma_reconciled_len(current: Seq<i64>, requested: Seq<i64>)
    requires
        current.no_duplicates(),
    ensures
        reconciled(current, requested).len() == current.len(),
{
    let named = named_ids(current, requested);
    lemma_named_distinct(current, requested);
    assert forall|x: i64| named.contains(x) implies current.contains(x) by {
        lemma_named_members(current, requested, x);
    }
    lemma_len_split(current, named);
}

/// A collection without repeats splits into the ids `p` holds and those it does
/// not; when `p` holds no repeats and only ids of the collection, the two parts
/// add up to the collection's length.
proof fn lemma_len_split(c: Seq<i64>, p: Seq<i64>)
    requires
        c.no_duplicates(),
        p.no_duplicates(),
        forall|x: i64| p.contains(x) ==> c.contains(x),
    ensures
        p.len() + unplaced_ids(c, p).len() == c.len(),
    decreases c.len(),
{
    if c.len() > 0 {
        let d = c.drop_last();
        let last = c.last();
        assert(d.no_duplicates()) by {
            assert forall|i: int, j: int| 0 <= i < d.len() && 0 <= j < d.len() && i != j implies d[i]
                != d[j] by {
                assert(c[i] == d[i] && c[j] == d[j]);
            }
        }
        assert(!d.contains(last)) by {
            if d.contains(last) {
                let k = choose|k: int| 0 <= k < d.len() && d[k] == last;
                assert(c[k] == c[c.len() - 1]);
            }
        }
        if p.contains(last) {
            let k = choose|k: int| 0 <= k < p.len() && p[k] == last;
            let q = p.remove(k);
            assert(q.no_duplicates()) by {
                assert forall|i: int, j: int|
                    0 <= i < q.len() && 0 <= j < q.len() && i != j implies q[i] != q[j] by {
                    let ii = if i < k { i } else { i + 1 };
                    let jj = if j < k { j } else { j + 1 };
                    assert(q[i] == p[ii] && q[j] == p[jj]);
                }
            }
            assert forall|x: i64| q.contains(x) implies d.contains(x) by {
                let m = choose|m: int| 0 <= m < q.len() && q[m] == x;
                let mm = if m < k { m } else { m + 1 };
                assert(p[mm] == x);
                assert(mm != k);
                assert(c.contains(x));
                let n = choose|n: int| 0 <= n < c.len() && c[n] == x;
                if n == c.len() - 1 {
                    assert(p[mm] == p[k]);
                }
                assert(d[n] == x);
            }
            lemma_len_split(d, q);
            assert forall|x: i64| d.contains(x) implies (p.contains(x) <==> q.contains(x)) by {
                if p.contains(x) {
                    let m = choose|m: int| 0 <= m < p.len() && p[m] == x;
                    assert(m != k);
                    let mm = if m < k { m } else { m - 1 };
                    assert(q[mm] == x);
                }
                if q.contains(x) {
                    let m = choose|m: int| 0 <= m < q.len() && q[m] == x;
                    let mm = if m < k { m } else { m + 1 };
                    assert(p[mm] == x);
                }
            }
            lemma_unplaced_same_filter(d, p, q);
            assert(q.len() == p.len() - 1);
            assert(unplaced_ids(c, p) == unplaced_ids(d, p));
        } else {
            assert forall|x: i64| p.contains(x) implies d.contains(x) by {
                let n = choose|n: int| 0 <= n < c.len() && c[n] == x;
                assert(n != c.len() - 1);
                assert(d[n] == x);
            }
            lemma_len_split(d, p);
            assert(unplaced_ids(c, p) == unplaced_ids(d, p).push(last));
        }
    } else {
        if p.len() > 0 {
            assert(p.contains(p[0]));
        }
    }
}

/// Two filters that agree on every id of the collection filter it alike.
proof fn lemma_unplaced_same_filter(c: Seq<i64>, p: Seq<i64>, q: Seq<i64>)
    requires
        forall|x: i64| c.contains(x) ==> (p.contains(x) <==> q.contains(x)),
    ensures
        unplaced_ids(c, p) == unplaced_ids(c, q),
    decreases c.len(),
{
    if c.len() > 0 {
        assert forall|x: i64| c.drop_last().contains(x) implies (p.contains(x) <==> q.contains(x)) by {
            let k = choose|k: int| 0 <= k < c.len() - 1 && c.drop_last()[k] == x;
            assert(c[k] == x);
        }
        lemma_unplaced_same_filter(c.drop_last(), p, q);
        assert(c[c.len() - 1] == c.last());
    }
}

/// Reconciling twice with the same request changes nothing the first time did
/// not: a reorder that was applied is a no-op when repeated.
pub proof fn reconcile_idempotent(current: Seq<i64>, requested: Seq<i64>)
    ensures
        reconciled(reconciled(current, requested), requested) == reconciled(current, requested),
{
    let named = named_ids(current, requested);
    let rest = unplaced_ids(current, named);
    let out = named + rest;
    reconcile_is_permutation(current, requested);
    lemma_named_same_members(out, current, requested);
    lemma_unplaced_concat(named, rest, named);
    assert forall|x: i64| named.contains(x) implies named.contains(x) by {}
    lemma_unplaced_all_placed(named, named);
    lemma_unplaced_of_unplaced(current, named);
    assert(Seq::<i64>::empty() + rest == rest);
}

/// Asking for no order at all leaves the collection as it is.
pub proof fn reconcile_empty_request(current: Seq<i64>)
    ensures
        reconciled(current, Seq::<i64>::empty()) == current,
{
    lemma_unplaced_none(current);
    assert(Seq::<i64>::empty() + current == current);
}

proof fn lemma_unplaced_none(c: Seq<i64>)
    ensures
        unplaced_ids(c, Seq::<i64>::empty()) == c,
    decreases c.len(),
{
    if c.len() > 0 {
        lemma_unplaced_none(c.drop_last());
        assert(c.drop_last().push(c.last()) == c);
    }
}

/// Asking for the order the collection already has leaves it unchanged.
pub proof fn reconcile_current_order(current: Seq<i64>)
    requires
        current.no_duplicates(),
    ensures
        reconciled(current, current) == current,
{
    lemma_named_prefix(current, current.len() as int);
    assert(current.subrange(0, current.len() as int) == current);
    assert forall|x: i64| current.contains(x) implies current.contains(x) by {}
    lemma_unplaced_all_placed(current, current);
    assert(current + Seq::<i64>::empty() == current);
}

proof fn lemma_named_prefix(c: Seq<i64>, n: int)
    requires
        c.no_duplicates(),
        0 <= n <= c.len(),
    ensures
        named_ids(c, c.subrange(0, n)) == c.subrange(0, n),
    decreases n,
{
    if n > 0 {
        lemma_named_prefix(c, n - 1);
        assert(c.subrange(0, n).drop_last() == c.subrange(0, n - 1));
        assert(c.contains(c[n - 1]));
        if c.subrange(0, n - 1).contains(c[n - 1]) {
            let k = choose|k: int| 0 <= k < n - 1 && #[trigger] c.subrange(0, n - 1)[k] == c[n - 1];
            assert(c[k] == c[n - 1]);
        }
        assert(c.subrange(0, n - 1).push(c[n - 1]) == c.subrange(0, n));
    }
}

} // verus!

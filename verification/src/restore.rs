//! Restoring an archived plan: the order its return distributions are
//! written in, each after the distributions it names.
use vstd::prelude::*;

use crate::cloning::Remap;
use crate::error::ApiError;

verus! {

/// A distribution as the restore orders it: its id and the ids of the two
/// distributions a regime model names.
#[derive(Debug, Clone, Copy, PartialEq, Eq, Structural)]
pub struct DistributionLinks {
    pub id: i64,
    pub bull_id: Option<i64>,
    pub bear_id: Option<i64>,
}

/// No two rows share an id, as in a table keyed by id.
pub open spec fn ids_distinct(s: Seq<DistributionLinks>) -> bool {
    forall|a: int, b: int| 0 <= a < b < s.len() ==> #[trigger] s[a].id != #[trigger] s[b].id
}

/// Rows in increasing order of id.
pub open spec fn sorted_by_id(s: Seq<DistributionLinks>) -> bool {
    forall|a: int, b: int| 0 <= a < b < s.len() ==> #[trigger] s[a].id < #[trigger] s[b].id
}

/// Two lists hold the same rows.
pub open spec fn same_rows(a: Seq<DistributionLinks>, b: Seq<DistributionLinks>) -> bool {
    forall|x: DistributionLinks| a.contains(x) <==> b.contains(x)
}

/// The rows in increasing order of id.
pub open spec fn sorted_rows(s: Seq<DistributionLinks>) -> Seq<DistributionLinks> {
    choose|t: Seq<DistributionLinks>| sorted_by_id(t) && same_rows(t, s)
}

/// The ids of a list of rows.
pub open spec fn id_set(s: Seq<DistributionLinks>) -> Set<i64>
    decreases s.len(),
{
    if s.len() == 0 {
        Set::empty()
    } else {
        id_set(s.drop_last()).insert(s.last().id)
    }
}

/// Every distribution a row names is among `done`.
pub open spec fn ready(r: DistributionLinks, done: Set<i64>) -> bool {
    (r.bull_id matches Some(b) ==> done.contains(b)) && (r.bear_id matches Some(b) ==> done.contains(b))
}

/// One pass over the first `n` rows waiting: a row whose parts are written
/// is written (and counts as written for the rows after it); the others wait
/// for the next pass. What was written, what waits, and the ids written.
pub open spec fn pass_prefix(rem: Seq<DistributionLinks>, done: Set<i64>, n: nat) -> (
    Seq<DistributionLinks>,
    Seq<DistributionLinks>,
    Set<i64>,
)
    decreases n,
{
    if n == 0 {
        (Seq::empty(), Seq::empty(), done)
    } else {
        let (a, b, d) = pass_prefix(rem, done, (n - 1) as nat);
        let r = rem[n - 1];
        if ready(r, d) {
            (a.push(r), b, d.insert(r.id))
        } else {
            (a, b.push(r), d)
        }
    }
}

/// A pass writes or defers each row it looks at, once.
pub proof fn lemma_pass_len(rem: Seq<DistributionLinks>, done: Set<i64>, n: nat)
    ensures
        pass_prefix(rem, done, n).0.len() + pass_prefix(rem, done, n).1.len() == n,
    decreases n,
{
    if n > 0 {
        lemma_pass_len(rem, done, (n - 1) as nat);
    }
}

/// Passes until every row is written; a pass that writes nothing means the
/// rows name distributions that are not there or that name each other.
pub open spec fn run_passes(rem: Seq<DistributionLinks>, done: Set<i64>) -> Result<Seq<DistributionLinks>, ()>
    decreases rem.len(),
{
    if rem.len() == 0 {
        Ok(Seq::empty())
    } else {
        let (a, b, d) = pass_prefix(rem, done, rem.len());
        if b.len() == rem.len() {
            Err(())
        } else {
            proof {
                lemma_pass_len(rem, done, rem.len());
            }
            match run_passes(b, d) {
                Ok(rest) => Ok(a + rest),
                Err(()) => Err(()),
            }
        }
    }
}

/// Two lists sorted by id that hold the same rows are the same list.
proof fn lemma_sorted_unique(t1: Seq<DistributionLinks>, t2: Seq<DistributionLinks>)
    requires
        sorted_by_id(t1),
        sorted_by_id(t2),
        same_rows(t1, t2),
    ensures
        t1 == t2,
    decreases t1.len() + t2.len(),
{
    if t1.len() == 0 {
        if t2.len() > 0 {
            assert(t2.contains(t2[0]));
        }
        assert(t1 =~= t2);
    } else if t2.len() == 0 {
        assert(t1.contains(t1[0]));
    } else {
        let x1 = t1.last();
        let x2 = t2.last();
        assert(t1.contains(x1));
        assert(t2.contains(x2));
        let j2 = choose|j: int| 0 <= j < t2.len() && t2[j] == x1;
        let j1 = choose|j: int| 0 <= j < t1.len() && t1[j] == x2;
        if j2 < t2.len() - 1 {
            assert(t2[j2].id < x2.id);
            if j1 < t1.len() - 1 {
                assert(t1[j1].id < x1.id);
            }
        }
        if j1 < t1.len() - 1 {
            assert(t1[j1].id < x1.id);
        }
        assert(x1 == x2);
        let d1 = t1.drop_last();
        let d2 = t2.drop_last();
        assert forall|x: DistributionLinks| d1.contains(x) <==> d2.contains(x) by {
            if d1.contains(x) {
                let i = choose|i: int| 0 <= i < d1.len() && d1[i] == x;
                assert(t1[i] == x);
                assert(t1.contains(x));
                let k = choose|k: int| 0 <= k < t2.len() && t2[k] == x;
                assert(x.id < x1.id);
                if k == t2.len() - 1 {
                    assert(false);
                }
                assert(d2[k] == x);
            }
            if d2.contains(x) {
                let i = choose|i: int| 0 <= i < d2.len() && d2[i] == x;
                assert(t2[i] == x);
                assert(t2.contains(x));
                let k = choose|k: int| 0 <= k < t1.len() && t1[k] == x;
                assert(x.id < x2.id);
                if k == t1.len() - 1 {
                    assert(false);
                }
                assert(d1[k] == x);
            }
        }
        lemma_sorted_unique(d1, d2);
        assert(t1 =~= d1.push(x1));
        assert(t2 =~= d2.push(x2));
    }
}

/// The rows sorted by id, as [`sorted_rows`] names them.
fn sort_by_id(rows: &[DistributionLinks]) -> (r: Vec<DistributionLinks>)
    requires
        ids_distinct(rows@),
    ensures
        r@ == sorted_rows(rows@),
        sorted_by_id(r@),
        same_rows(r@, rows@),
{
    let mut out: Vec<DistributionLinks> = Vec::new();
    let mut i: usize = 0;
    while i < rows.len()
        invariant
            i <= rows@.len(),
            ids_distinct(rows@),
            sorted_by_id(out@),
            same_rows(out@, rows@.take(i as int)),
        decreases rows@.len() - i,
    {
        let x = rows[i];
        let mut p: usize = 0;
        while p < out.len() && out[p].id < x.id
            invariant
                p <= out@.len(),
                forall|j: int| 0 <= j < p ==> (#[trigger] out@[j]).id < x.id,
            decreases out@.len() - p,
        {
            p = p + 1;
        }
        proof {
            if p < out@.len() {
                assert(out@.contains(out@[p as int]));
                assert(rows@.take(i as int).contains(out@[p as int]));
                let k = choose|k: int| 0 <= k < i && rows@.take(i as int)[k] == out@[p as int];
                assert(rows@[k] == out@[p as int]);
                assert(rows@[k].id != rows@[i as int].id);
            }
        }
        let ghost before = out@;
        out.insert(p, x);
        proof {
            assert forall|a: int, b: int| 0 <= a < b < out@.len() implies #[trigger] out@[a].id
                < #[trigger] out@[b].id by {
                if b < p {
                    assert(out@[a] == before[a] && out@[b] == before[b]);
                } else if b == p {
                    assert(out@[a] == before[a]);
                } else if a == p {
                    assert(out@[b] == before[b - 1]);
                    assert(before[p as int].id > x.id || p as int == b - 1);
                    if b - 1 > p {
                        assert(before[p as int].id < before[b - 1].id);
                    }
                } else if a < p {
                    assert(out@[a] == before[a] && out@[b] == before[b - 1]);
                } else {
                    assert(out@[a] == before[a - 1] && out@[b] == before[b - 1]);
                }
            }
            assert forall|y: DistributionLinks| out@.contains(y) <==> #[trigger] rows@.take(i + 1).contains(y) by {
                if out@.contains(y) {
                    let j = choose|j: int| 0 <= j < out@.len() && out@[j] == y;
                    if j < p {
                        assert(before[j] == y);
                        assert(before.contains(y));
                        let k = choose|k: int| 0 <= k < i && rows@.take(i as int)[k] == y;
                        assert(rows@.take(i + 1)[k] == y);
                    } else if j == p {
                        assert(rows@.take(i + 1)[i as int] == y);
                    } else {
                        assert(before[j - 1] == y);
                        assert(before.contains(y));
                        let k = choose|k: int| 0 <= k < i && rows@.take(i as int)[k] == y;
                        assert(rows@.take(i + 1)[k] == y);
                    }
                }
                let next = rows@.take(i + 1);
                if next.contains(y) {
                    let k = choose|k: int| 0 <= k < next.len() && next[k] == y;
                    if k == i {
                        assert(out@[p as int] == y);
                    } else {
                        assert(rows@.take(i as int)[k] == y);
                        assert(rows@.take(i as int).contains(y));
                        let j = choose|j: int| 0 <= j < before.len() && before[j] == y;
                        if j < p {
                            assert(out@[j] == y);
                        } else {
                            assert(out@[j + 1] == y);
                        }
                    }
                }
            }
        }
        i = i + 1;
    }
    proof {
        assert(rows@.take(rows@.len() as int) == rows@);
        lemma_sorted_unique(out@, sorted_rows(rows@));
    }
    out
}

proof fn lemma_id_set_push(s: Seq<DistributionLinks>, x: DistributionLinks)
    ensures
        id_set(s.push(x)) == id_set(s).insert(x.id),
{
    assert(s.push(x).drop_last() == s);
}

proof fn lemma_id_set_concat(s: Seq<DistributionLinks>, t: Seq<DistributionLinks>)
    ensures
        forall|y: i64| id_set(s + t).contains(y) <==> id_set(s).contains(y) || id_set(t).contains(y),
    decreases t.len(),
{
    if t.len() == 0 {
        assert(s + t == s);
    } else {
        lemma_id_set_concat(s, t.drop_last());
        assert((s + t).drop_last() == s + t.drop_last());
        assert((s + t).last() == t.last());
    }
}

/// What one pass does: the ids written are those before it and those it
/// wrote; each row it wrote named only distributions written before it; it
/// wrote or deferred each row it looked at.
proof fn lemma_pass_props(rem: Seq<DistributionLinks>, done: Set<i64>, n: nat)
    requires
        n <= rem.len(),
    ensures
        ({
            let (a, b, d) = pass_prefix(rem, done, n);
            &&& forall|y: i64| d.contains(y) <==> done.contains(y) || id_set(a).contains(y)
            &&& forall|k: int| 0 <= k < a.len() ==> ready(#[trigger] a[k], done.union(id_set(a.take(k))))
            &&& forall|x: DistributionLinks| rem.take(n as int).contains(x) <==> a.contains(x) || b.contains(x)
            &&& a.len() + b.len() == n
        }),
    decreases n,
{
    lemma_pass_len(rem, done, n);
    if n > 0 {
        lemma_pass_props(rem, done, (n - 1) as nat);
        let (a0, b0, d0) = pass_prefix(rem, done, (n - 1) as nat);
        let (a, b, d) = pass_prefix(rem, done, n);
        let r = rem[n - 1];
        let prev = rem.take(n - 1);
        let cur = rem.take(n as int);
        assert(cur == prev.push(r));
        if ready(r, d0) {
            lemma_id_set_push(a0, r);
            assert forall|k: int| 0 <= k < a.len() implies ready(#[trigger] a[k], done.union(id_set(a.take(k)))) by {
                if k < a0.len() {
                    assert(a.take(k) == a0.take(k));
                    assert(a[k] == a0[k]);
                } else {
                    assert(a.take(k) == a0);
                    assert forall|y: i64| d0.contains(y) implies done.union(id_set(a0)).contains(y) by {}
                }
            }
            assert forall|x: DistributionLinks| cur.contains(x) <==> a.contains(x) || b.contains(x) by {
                if cur.contains(x) {
                    let i = choose|i: int| 0 <= i < cur.len() && cur[i] == x;
                    if i < n - 1 {
                        assert(prev[i] == x);
                        assert(prev.contains(x));
                        if a0.contains(x) {
                            let j = choose|j: int| 0 <= j < a0.len() && a0[j] == x;
                            assert(a[j] == x);
                        }
                    } else {
                        assert(a[a.len() - 1] == x);
                    }
                }
                if a.contains(x) {
                    let j = choose|j: int| 0 <= j < a.len() && a[j] == x;
                    if j < a0.len() {
                        assert(a0[j] == x);
                        assert(a0.contains(x));
                        let i = choose|i: int| 0 <= i < prev.len() && prev[i] == x;
                        assert(cur[i] == x);
                    } else {
                        assert(cur[n - 1] == x);
                    }
                }
                if b.contains(x) {
                    assert(b0.contains(x));
                    let i = choose|i: int| 0 <= i < prev.len() && prev[i] == x;
                    assert(cur[i] == x);
                }
            }
        } else {
            assert forall|k: int| 0 <= k < a.len() implies ready(#[trigger] a[k], done.union(id_set(a.take(k)))) by {
                assert(a[k] == a0[k]);
            }
            assert forall|x: DistributionLinks| cur.contains(x) <==> a.contains(x) || b.contains(x) by {
                if cur.contains(x) {
                    let i = choose|i: int| 0 <= i < cur.len() && cur[i] == x;
                    if i < n - 1 {
                        assert(prev[i] == x);
                        assert(prev.contains(x));
                        if b0.contains(x) {
                            let j = choose|j: int| 0 <= j < b0.len() && b0[j] == x;
                            assert(b[j] == x);
                        }
                    } else {
                        assert(b[b.len() - 1] == x);
                    }
                }
                if b.contains(x) {
                    let j = choose|j: int| 0 <= j < b.len() && b[j] == x;
                    if j < b0.len() {
                        assert(b0[j] == x);
                        assert(b0.contains(x));
                        let i = choose|i: int| 0 <= i < prev.len() && prev[i] == x;
                        assert(cur[i] == x);
                    } else {
                        assert(cur[n - 1] == x);
                    }
                }
                if a.contains(x) {
                    assert(a0.contains(x));
                    let i = choose|i: int| 0 <= i < prev.len() && prev[i] == x;
                    assert(cur[i] == x);
                }
            }
        }
    }
}

proof fn lemma_run_props(rem: Seq<DistributionLinks>, done: Set<i64>)
    requires
        run_passes(rem, done) is Ok,
    ensures
        ({
            let v = run_passes(rem, done)->Ok_0;
            &&& forall|k: int| 0 <= k < v.len() ==> ready(#[trigger] v[k], done.union(id_set(v.take(k))))
            &&& forall|x: DistributionLinks| v.contains(x) <==> rem.contains(x)
            &&& v.len() == rem.len()
        }),
    decreases rem.len(),
{
    if rem.len() > 0 {
        let (a, b, d) = pass_prefix(rem, done, rem.len());
        lemma_pass_props(rem, done, rem.len());
        assert(rem.take(rem.len() as int) == rem);
        lemma_run_props(b, d);
        let rest = run_passes(b, d)->Ok_0;
        let v = run_passes(rem, done)->Ok_0;
        assert(v == a + rest);
        assert forall|k: int| 0 <= k < v.len() implies ready(#[trigger] v[k], done.union(id_set(v.take(k)))) by {
            if k < a.len() {
                assert(v[k] == a[k]);
                assert(v.take(k) == a.take(k));
            } else {
                let j = k - a.len();
                assert(v[k] == rest[j]);
                assert(v.take(k) == a + rest.take(j));
                lemma_id_set_concat(a, rest.take(j));
                assert(done.union(id_set(v.take(k))) =~= d.union(id_set(rest.take(j))));
            }
        }
        assert forall|x: DistributionLinks| v.contains(x) <==> rem.contains(x) by {
            if v.contains(x) {
                let i = choose|i: int| 0 <= i < v.len() && v[i] == x;
                if i < a.len() {
                    assert(a[i] == x);
                    assert(a.contains(x));
                } else {
                    assert(rest[i - a.len()] == x);
                    assert(rest.contains(x));
                }
            }
            if rem.contains(x) {
                if a.contains(x) {
                    let i = choose|i: int| 0 <= i < a.len() && a[i] == x;
                    assert(v[i] == x);
                } else {
                    assert(b.contains(x));
                    assert(rest.contains(x));
                    let i = choose|i: int| 0 <= i < rest.len() && rest[i] == x;
                    assert(v[a.len() + i] == x);
                }
            }
        }
    }
}

/// Restoring writes each distribution after the ones it names: when every
/// pass over the waiting rows writes at least one, the order written holds
/// each row once and every row names only distributions written before it.
pub proof fn distributions_follow_their_parts(rows: Seq<DistributionLinks>)
    requires
        run_passes(rows, Set::empty()) is Ok,
    ensures
        ({
            let v = run_passes(rows, Set::empty())->Ok_0;
            &&& forall|k: int| 0 <= k < v.len() ==> ready(#[trigger] v[k], id_set(v.take(k)))
            &&& same_rows(v, rows)
            &&& v.len() == rows.len()
        }),
{
    lemma_run_props(rows, Set::empty());
    let v = run_passes(rows, Set::empty())->Ok_0;
    assert forall|k: int| 0 <= k < v.len() implies ready(#[trigger] v[k], id_set(v.take(k))) by {
        assert(Set::<i64>::empty().union(id_set(v.take(k))) =~= id_set(v.take(k)));
    }
}

fn has_id(ids: &[i64], x: i64) -> (r: bool)
    ensures
        r == ids@.contains(x),
{
    let mut i: usize = 0;
    while i < ids.len()
        invariant
            i <= ids@.len(),
            forall|j: int| 0 <= j < i ==> ids@[j] != x,
        decreases ids@.len() - i,
    {
        if ids[i] == x {
            assert(ids@[i as int] == x);
            return true;
        }
        i = i + 1;
    }
    false
}

fn part_ready(ids: &[i64], part: Option<i64>) -> (r: bool)
    ensures
        r == (part matches Some(b) ==> ids@.contains(b)),
{
    match part {
        Some(b) => has_id(ids, b),
        None => true,
    }
}

/// The order a restore writes distributions in, as [`run_passes`] says of
/// the rows sorted by id; a pass that writes nothing refuses the archive.
pub fn distribution_order(rows: &[DistributionLinks]) -> (r: Result<Vec<DistributionLinks>, ApiError>)
    requires
        ids_distinct(rows@),
    ensures
        match run_passes(sorted_rows(rows@), Set::empty()) {
            Ok(v) => r matches Ok(x) && x@ == v,
            Err(()) => r matches Err(ApiError::BadRequest(m)) && m@ == "Invalid distribution references."@,
        },
        r matches Ok(x) ==> same_rows(x@, rows@) && forall|k: int|
            0 <= k < x@.len() ==> ready(#[trigger] x@[k], id_set(x@.take(k))),
{
    let mut remaining = sort_by_id(rows);
    let ghost start = remaining@;
    let mut written: Vec<i64> = Vec::new();
    let mut out: Vec<DistributionLinks> = Vec::new();
    let ghost mut done: Set<i64> = Set::empty();
    assert(run_passes(start, Set::empty()) == match run_passes(remaining@, done) {
        Ok(rest) => Ok(out@ + rest),
        Err(()) => Err::<Seq<DistributionLinks>, ()>(()),
    }) by {
        match run_passes(start, Set::<i64>::empty()) {
            Ok(rest) => assert(out@ + rest =~= rest),
            Err(_) => {},
        }
    }
    while remaining.len() > 0
        invariant
            start == sorted_rows(rows@),
            same_rows(start, rows@),
            forall|x: i64| done.contains(x) <==> written@.contains(x),
            run_passes(start, Set::empty()) == match run_passes(remaining@, done) {
                Ok(rest) => Ok(out@ + rest),
                Err(()) => Err::<Seq<DistributionLinks>, ()>(()),
            },
        decreases remaining@.len(),
    {
        let before = remaining.len();
        let ghost rem = remaining@;
        let ghost done0 = done;
        let ghost out0 = out@;
        let mut deferred: Vec<DistributionLinks> = Vec::new();
        let mut j: usize = 0;
        while j < remaining.len()
            invariant
                j <= rem.len(),
                remaining@ == rem,
                forall|x: i64| done.contains(x) <==> written@.contains(x),
                ({
                    let (a, b, d) = pass_prefix(rem, done0, j as nat);
                    &&& out@ == out0 + a
                    &&& deferred@ == b
                    &&& done == d
                }),
            decreases rem.len() - j,
        {
            let x = remaining[j];
            let ok = part_ready(written.as_slice(), x.bull_id) && part_ready(written.as_slice(), x.bear_id);
            assert(ok == ready(x, done));
            if ok {
                out.push(x);
                let ghost w0 = written@;
                written.push(x.id);
                proof {
                    done = done.insert(x.id);
                    assert forall|y: i64| done.contains(y) <==> written@.contains(y) by {
                        if written@.contains(y) {
                            let k = choose|k: int| 0 <= k < written@.len() && written@[k] == y;
                            if k < w0.len() {
                                assert(w0[k] == y);
                                assert(w0.contains(y));
                            }
                        }
                        if done.contains(y) {
                            if y == x.id {
                                assert(written@[w0.len() as int] == y);
                            } else {
                                assert(w0.contains(y));
                                let k = choose|k: int| 0 <= k < w0.len() && w0[k] == y;
                                assert(written@[k] == y);
                            }
                        }
                    }
                }
                assert(out@ =~= out0 + pass_prefix(rem, done0, (j + 1) as nat).0);
            } else {
                deferred.push(x);
            }
            j = j + 1;
        }
        proof {
            lemma_pass_len(rem, done0, rem.len());
        }
        if deferred.len() == before {
            return Err(ApiError::bad_request("Invalid distribution references."));
        }
        proof {
            let (a, b, d) = pass_prefix(rem, done0, rem.len());
            match run_passes(b, d) {
                Ok(rest) => {
                    assert(out0 + (a + rest) =~= out@ + rest);
                },
                Err(_) => {},
            }
        }
        remaining = deferred;
    }
    assert(out@ + Seq::<DistributionLinks>::empty() =~= out@);
    proof {
        distributions_follow_their_parts(start);
    }
    Ok(out)
}

/// The new row an archived reference maps to; a reference the archive does
/// not hold refuses it with `missing`.
pub fn restored_id(map: &Remap, id: i64, missing: &str) -> (r: Result<i64, ApiError>)
    ensures
        match r {
            Ok(v) => map@.contains_key(id) && v == map@[id],
            Err(e) => !map@.contains_key(id) && (e matches ApiError::BadRequest(m) && m@ == missing@),
        },
{
    match map.get(id) {
        Some(v) => Ok(v),
        None => Err(ApiError::bad_request(missing)),
    }
}

} // verus!

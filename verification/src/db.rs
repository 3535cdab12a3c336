//! Rebuilding a database into the consolidated schema: identifier quoting,
//! schema comparison and the checks on what was copied.
use vstd::prelude::*;

use crate::text::{push_char, same_text, views};

verus! {

pub struct RebuildReport {
    pub tables: usize,
    pub rows: u64,
}

/// `s` with each `"` doubled.
pub open spec fn escaped(s: Seq<char>) -> Seq<char>
    decreases s.len(),
{
    if s.len() == 0 {
        s
    } else {
        let before = escaped(s.drop_last());
        if s.last() == '"' {
            before.push('"').push('"')
        } else {
            before.push(s.last())
        }
    }
}

/// An SQL identifier in double quotes, inner quotes doubled.
pub open spec fn quoted(s: Seq<char>) -> Seq<char> {
    seq!['"'] + escaped(s) + seq!['"']
}

pub fn quote_identifier(value: &str) -> (r: String)
    ensures
        r@ == quoted(value@),
{
    let n = value.unicode_len();
    let mut r = String::new();
    push_char(&mut r, '"');
    let mut i: usize = 0;
    while i < n
        invariant
            i <= n,
            n == value@.len(),
            r@ == seq!['"'] + escaped(value@.subrange(0, i as int)),
        decreases n - i,
    {
        let c = value.get_char(i);
        assert(value@.subrange(0, i + 1).drop_last() == value@.subrange(0, i as int));
        assert(value@.subrange(0, i + 1).last() == c);
        push_char(&mut r, c);
        if c == '"' {
            push_char(&mut r, '"');
        }
        i = i + 1;
    }
    assert(value@.subrange(0, n as int) == value@);
    push_char(&mut r, '"');
    r
}

/// The run detail tables whose rows are kept only for each plan's latest
/// successful run.
pub fn retains_current_details(table: &str) -> (r: bool)
    ensures
        r == (table@ == "run_cash_flows"@ || table@ == "run_ledger"@),
{
    same_text(table, "run_cash_flows") || same_text(table, "run_ledger")
}

/// A table copy is complete when it copied as many rows as the source
/// holds.
pub fn copy_complete(copied: u64, expected: i64) -> (r: bool)
    ensures
        r == (copied == expected as u64),
{
    copied == expected as u64
}

/// An integrity check passes on `ok` and no foreign-key violations.
pub fn integrity_ok(result: &str, violations: usize) -> (r: bool)
    ensures
        r == (result@ == "ok"@ && violations == 0),
{
    same_text(result, "ok") && violations == 0
}

fn holds(v: &[String], s: &str) -> (r: bool)
    ensures
        r == views(v@).contains(s@),
{
    let mut i: usize = 0;
    while i < v.len()
        invariant
            i <= v@.len(),
            forall|j: int| 0 <= j < i ==> v@[j]@ != s@,
        decreases v@.len() - i,
    {
        if same_text(v[i].as_str(), s) {
            assert(views(v@)[i as int] == s@);
            return true;
        }
        i = i + 1;
    }
    proof {
        if views(v@).contains(s@) {
            let k = choose|k: int| 0 <= k < v@.len() && views(v@)[k] == s@;
            assert(v@[k]@ == s@);
        }
    }
    false
}

/// The names of `a` that `b` lacks, in order.
pub open spec fn lacking(a: Seq<Seq<char>>, b: Seq<Seq<char>>) -> Seq<Seq<char>>
    decreases a.len(),
{
    if a.len() == 0 {
        a
    } else {
        let before = lacking(a.drop_last(), b);
        if b.contains(a.last()) {
            before
        } else {
            before.push(a.last())
        }
    }
}

fn names_lacking(a: &[String], b: &[String]) -> (r: Vec<String>)
    ensures
        views(r@) == lacking(views(a@), views(b@)),
{
    let mut out: Vec<String> = Vec::new();
    let mut i: usize = 0;
    while i < a.len()
        invariant
            i <= a@.len(),
            views(out@) == lacking(views(a@).subrange(0, i as int), views(b@)),
        decreases a@.len() - i,
    {
        assert(views(a@).subrange(0, i + 1).drop_last() == views(a@).subrange(0, i as int));
        assert(views(a@).subrange(0, i + 1).last() == a@[i as int]@);
        if !holds(b, a[i].as_str()) {
            let ghost before = out@;
            out.push(a[i].clone());
            assert(views(out@) == views(before).push(a@[i as int]@));
        }
        i = i + 1;
    }
    assert(views(a@).subrange(0, a@.len() as int) == views(a@));
    out
}

/// Where the table lists of the two schemas differ: the target's tables the
/// source lacks, and the source's the target lacks. None when the lists
/// are the same.
pub fn schema_difference(target: &[String], source: &[String]) -> (r: Option<(Vec<String>, Vec<String>)>)
    ensures
        match r {
            None => views(target@) == views(source@),
            Some((missing, extra)) => views(target@) != views(source@) && views(missing@) == lacking(
                views(target@),
                views(source@),
            ) && views(extra@) == lacking(views(source@), views(target@)),
        },
{
    let mut same = target.len() == source.len();
    assert(views(target@).len() == target@.len() && views(source@).len() == source@.len());
    let mut i: usize = 0;
    while i < target.len() && same
        invariant
            i <= target@.len(),
            same ==> target@.len() == source@.len(),
            same ==> views(target@).subrange(0, i as int) == views(source@).subrange(0, i as int),
            !same ==> views(target@) != views(source@),
        decreases target@.len() - i + if same {
            1int
        } else {
            0int
        },
    {
        if !same_text(target[i].as_str(), source[i].as_str()) {
            assert(views(target@)[i as int] != views(source@)[i as int]);
            same = false;
        } else {
            assert(views(target@).subrange(0, i + 1) == views(target@).subrange(0, i as int).push(
                views(target@)[i as int],
            ));
            assert(views(source@).subrange(0, i + 1) == views(source@).subrange(0, i as int).push(
                views(source@)[i as int],
            ));
            i = i + 1;
        }
    }
    if same {
        assert(views(target@).subrange(0, target@.len() as int) == views(target@));
        assert(views(source@).subrange(0, source@.len() as int) == views(source@));
        return None;
    }
    Some((names_lacking(target, source), names_lacking(source, target)))
}

} // verus!

//! Plan archives: the checks an import passes before anything is written,
//! and the shape a plan graph must have to be restored.
use vstd::prelude::*;

use crate::error::{joined, owned, ApiError};
use crate::auth::protection::opt_text;
use crate::auth::routes::{date_parse, parse_civil_date};
use crate::text::same_text;

verus! {

/// Longest chain of references (in edges) an archive may hold.
pub const MAX_NESTING: usize = 32;

/// The index of the row keyed `id`, or -1.
pub open spec fn key_index(edges: Seq<(i64, Seq<i64>)>, id: i64) -> int {
    if exists|i: int| 0 <= i < edges.len() && edges[i].0 == id {
        choose|i: int| 0 <= i < edges.len() && edges[i].0 == id
    } else {
        -1
    }
}

pub open spec fn keys_distinct(edges: Seq<(i64, Seq<i64>)>) -> bool {
    forall|a: int, b: int| 0 <= a < b < edges.len() ==> #[trigger] edges[a].0 != #[trigger] edges[b].0
}

/// Whether a walk of `k` references starts at row `i`.
pub open spec fn walks(edges: Seq<(i64, Seq<i64>)>, i: int, k: nat) -> bool
    decreases k,
{
    if k == 0 {
        true
    } else {
        exists|j: int|
            0 <= j < edges[i].1.len() && key_index(edges, #[trigger] edges[i].1[j]) >= 0 && walks(
                edges,
                key_index(edges, edges[i].1[j]),
                (k - 1) as nat,
            )
    }
}

/// Every reference names a row, and no walk of references is longer than
/// `MAX_NESTING` edges (so there is no cycle either).
pub open spec fn dag_ok(edges: Seq<(i64, Seq<i64>)>) -> bool {
    &&& forall|i: int, j: int|
        0 <= i < edges.len() && 0 <= j < edges[i].1.len() ==> key_index(edges, #[trigger] edges[i].1[j])
            >= 0
    &&& forall|i: int| 0 <= i < edges.len() ==> !#[trigger] walks(edges, i, 33)
}

pub open spec fn edge_views(edges: Seq<(i64, Vec<i64>)>) -> Seq<(i64, Seq<i64>)> {
    edges.map_values(|e: (i64, Vec<i64>)| (e.0, e.1@))
}

pub open spec fn dag_message(m: Seq<char>) -> bool {
    m == "Archive contains a missing reference."@ || m
        == "Archive contains a cycle or excessive nesting."@ || m
        == "Archive nesting exceeds limit."@
}

fn find_key(edges: &[(i64, Vec<i64>)], id: i64) -> (r: Option<usize>)
    requires
        keys_distinct(edge_views(edges@)),
    ensures
        match r {
            Some(i) => i < edges@.len() && key_index(edge_views(edges@), id) == i,
            None => key_index(edge_views(edges@), id) == -1,
        },
{
    let ghost ev = edge_views(edges@);
    let mut i: usize = 0;
    while i < edges.len()
        invariant
            i <= edges@.len(),
            ev == edge_views(edges@),
            keys_distinct(ev),
            forall|j: int| 0 <= j < i ==> ev[j].0 != id,
        decreases edges@.len() - i,
    {
        if edges[i].0 == id {
            proof {
                assert(ev[i as int].0 == id);
                let k = choose|k: int| 0 <= k < ev.len() && ev[k].0 == id;
                if k != i {
                    if k < i {
                        assert(ev[k].0 != ev[i as int].0);
                    } else {
                        assert(ev[i as int].0 != ev[k].0);
                    }
                }
            }
            return Some(i);
        }
        i = i + 1;
    }
    None
}

/// Check that references form a shallow forest: every child names a row, no
/// row reaches itself, and no chain is deeper than `MAX_NESTING`.
pub fn check_dag(edges: &[(i64, Vec<i64>)]) -> (r: Result<(), ApiError>)
    requires
        keys_distinct(edge_views(edges@)),
    ensures
        r is Ok <==> dag_ok(edge_views(edges@)),
        r is Err ==> (r matches Err(ApiError::BadRequest(m)) && dag_message(m@)),
{
    let ghost ev = edge_views(edges@);
    let n = edges.len();
    assert(ev.len() == n);
    // The row index of each child, found once.
    let mut kids: Vec<Vec<usize>> = Vec::new();
    let mut i: usize = 0;
    while i < n
        invariant
            i <= n,
            n == edges@.len(),
            ev.len() == n,
            ev == edge_views(edges@),
            keys_distinct(ev),
            kids@.len() == i,
            forall|a: int| 0 <= a < i ==> (#[trigger] kids@[a])@.len() == ev[a].1.len(),
            forall|a: int, b: int|
                0 <= a < i && 0 <= b < kids@[a]@.len() ==> key_index(ev, ev[a].1[b]) == #[trigger] kids@[a]@[b]
                    as int,
            forall|a: int, b: int| 0 <= a < i && 0 <= b < ev[a].1.len() ==> key_index(ev, #[trigger] ev[a].1[b]) >= 0,
        decreases n - i,
    {
        let children = &edges[i].1;
        assert(children@ == ev[i as int].1);
        let mut row: Vec<usize> = Vec::new();
        let mut j: usize = 0;
        while j < children.len()
            invariant
                j <= children@.len(),
                children@ == ev[i as int].1,
                ev == edge_views(edges@),
                keys_distinct(ev),
                i < n,
                n == edges@.len(),
            ev.len() == n,
                row@.len() == j,
                forall|b: int| 0 <= b < j ==> key_index(ev, ev[i as int].1[b]) == #[trigger] row@[b] as int,
                forall|b: int| 0 <= b < j ==> key_index(ev, #[trigger] ev[i as int].1[b]) >= 0,
            decreases children@.len() - j,
        {
            match find_key(edges, children[j]) {
                Some(k) => row.push(k),
                None => {
                    proof {
                        assert(key_index(ev, ev[i as int].1[j as int]) < 0);
                        assert(!dag_ok(ev));
                    }
                    return Err(ApiError::bad_request("Archive contains a missing reference."));
                },
            }
            j = j + 1;
        }
        let ghost old_kids = kids@;
        kids.push(row);
        proof {
            assert forall|a: int, b: int| 0 <= a < i + 1 && 0 <= b < kids@[a]@.len() implies key_index(ev, ev[a].1[b]) == #[trigger] kids@[a]@[b] as int by {
                if a < i {
                    assert(kids@[a] == old_kids[a]);
                }
            }
            assert forall|a: int, b: int| 0 <= a < i + 1 && 0 <= b < ev[a].1.len() implies key_index(ev, #[trigger] ev[a].1[b]) >= 0 by {
                if a == i {
                    assert(kids@[a]@ == row@);
                }
            }
        }
        i = i + 1;
    }
    // `cur[a]` says whether a walk of `k` references starts at row `a`.
    let mut cur: Vec<bool> = Vec::new();
    let mut a: usize = 0;
    while a < n
        invariant
            a <= n,
            cur@.len() == a,
            forall|b: int| 0 <= b < a ==> #[trigger] cur@[b],
        decreases n - a,
    {
        cur.push(true);
        a = a + 1;
    }
    let mut k: usize = 0;
    while k < 33
        invariant
            k <= 33,
            n == edges@.len(),
            ev.len() == n,
            ev == edge_views(edges@),
            kids@.len() == n,
            cur@.len() == n,
            forall|a: int| 0 <= a < n ==> (#[trigger] kids@[a])@.len() == ev[a].1.len(),
            forall|a: int, b: int|
                0 <= a < n && 0 <= b < kids@[a]@.len() ==> key_index(ev, ev[a].1[b]) == #[trigger] kids@[a]@[b]
                    as int,
            forall|a: int, b: int| 0 <= a < n && 0 <= b < ev[a].1.len() ==> key_index(ev, #[trigger] ev[a].1[b]) >= 0,
            forall|a: int| 0 <= a < n ==> #[trigger] cur@[a] == walks(ev, a, k as nat),
        decreases 33 - k,
    {
        let mut next: Vec<bool> = Vec::new();
        let mut a: usize = 0;
        while a < n
            invariant
                a <= n,
                n == edges@.len(),
            ev.len() == n,
                ev == edge_views(edges@),
                kids@.len() == n,
                cur@.len() == n,
                next@.len() == a,
                k < 33,
                forall|x: int| 0 <= x < n ==> (#[trigger] kids@[x])@.len() == ev[x].1.len(),
                forall|x: int, b: int|
                    0 <= x < n && 0 <= b < kids@[x]@.len() ==> key_index(ev, ev[x].1[b]) == #[trigger] kids@[x]@[b]
                        as int,
                forall|x: int, b: int| 0 <= x < n && 0 <= b < ev[x].1.len() ==> key_index(ev, #[trigger] ev[x].1[b]) >= 0,
                forall|x: int| 0 <= x < n ==> #[trigger] cur@[x] == walks(ev, x, k as nat),
                forall|x: int| 0 <= x < a ==> #[trigger] next@[x] == walks(ev, x, (k + 1) as nat),
            decreases n - a,
        {
            let row = &kids[a];
            assert(row@ == kids@[a as int]@);
            let mut any = false;
            let mut b: usize = 0;
            while b < row.len() && !any
                invariant
                    b <= row@.len(),
                    a < n,
                    n == edges@.len(),
            ev.len() == n,
                    row@ == kids@[a as int]@,
                    row@.len() == ev[a as int].1.len(),
                    cur@.len() == n,
                    forall|c: int| 0 <= c < row@.len() ==> key_index(ev, ev[a as int].1[c]) == #[trigger] row@[c] as int,
                    forall|c: int| 0 <= c < ev[a as int].1.len() ==> key_index(ev, #[trigger] ev[a as int].1[c]) >= 0,
                    forall|x: int| 0 <= x < n ==> #[trigger] cur@[x] == walks(ev, x, k as nat),
                    any ==> walks(ev, a as int, (k + 1) as nat),
                    !any ==> forall|c: int| 0 <= c < b ==> !walks(ev, key_index(ev, #[trigger] ev[a as int].1[c]), k as nat),
                decreases row@.len() - b,
            {
                let m = row[b];
                assert(key_index(ev, ev[a as int].1[b as int]) == m as int);
                assert(0 <= m < n) by {
                    assert(key_index(ev, ev[a as int].1[b as int]) >= 0);
                    let q = choose|q: int| 0 <= q < ev.len() && ev[q].0 == ev[a as int].1[b as int];
                    assert(ev.len() == n);
                }
                if cur[m] {
                    any = true;
                }
                b = b + 1;
            }
            proof {
                if !any {
                    assert forall|c: int| 0 <= c < ev[a as int].1.len() implies !(key_index(ev, #[trigger] ev[a as int].1[c]) >= 0
                        && walks(ev, key_index(ev, ev[a as int].1[c]), k as nat)) by {
                    }
                }
            }
            next.push(any);
            a = a + 1;
        }
        cur = next;
        k = k + 1;
    }
    let mut c: usize = 0;
    while c < n
        invariant
            c <= n,
            n == edges@.len(),
            ev.len() == n,
            cur@.len() == n,
            ev == edge_views(edges@),
            forall|x: int| 0 <= x < n ==> #[trigger] cur@[x] == walks(ev, x, 33),
            forall|x: int| 0 <= x < c ==> !walks(ev, x, 33),
            forall|a: int, b: int| 0 <= a < n && 0 <= b < ev[a].1.len() ==> key_index(ev, #[trigger] ev[a].1[b]) >= 0,
        decreases n - c,
    {
        if cur[c] {
            return Err(ApiError::bad_request("Archive contains a cycle or excessive nesting."));
        }
        c = c + 1;
    }
    Ok(())
}

/// A row of a keyed table as an import reads it: the key it is filed under,
/// the id it carries, and up to two references to rows of the same table.
pub struct LinkRow {
    pub key: i64,
    pub id: i64,
    pub left: Option<i64>,
    pub right: Option<i64>,
}

pub struct TriggerShape {
    pub key: i64,
    pub id: i64,
    pub event_id: Option<i64>,
    pub parent_id: Option<i64>,
    pub start_id: Option<i64>,
    pub end_id: Option<i64>,
}

pub struct EffectShape {
    pub key: i64,
    pub id: i64,
    pub event_id: Option<i64>,
    pub parent_id: Option<i64>,
    pub parent_slot: Option<String>,
}

/// One branch slot of an effect: `(parent, slot) -> child`.
pub struct EffectChild {
    pub parent: i64,
    pub slot: String,
    pub child: i64,
}

/// What an import reads of a plan graph to decide whether it can be
/// restored: ids, ownership links and counts.
pub struct GraphShape {
    pub duration_years: i64,
    pub accounts: Vec<i64>,
    pub assets: Vec<i64>,
    pub events: Vec<i64>,
    pub distributions: Vec<LinkRow>,
    pub return_profiles: Vec<LinkRow>,
    pub amounts: Vec<LinkRow>,
    pub effects: Vec<EffectShape>,
    pub triggers: Vec<TriggerShape>,
    /// Compound triggers: parent -> ordered child ids.
    pub trigger_children: Vec<(i64, Vec<i64>)>,
    /// Event -> its root trigger.
    pub event_trigger: Vec<(i64, i64)>,
    /// Event -> its ordered top-level effects.
    pub event_effects: Vec<(i64, Vec<i64>)>,
    pub effect_children: Vec<EffectChild>,
    /// Rows counted toward the size limit and not otherwise read: tax
    /// brackets, withdrawal sources and their items, positions.
    pub other_rows: usize,
}

pub open spec fn opt_str(o: Option<String>) -> Option<Seq<char>> {
    match o {
        Some(s) => Some(s@),
        None => None,
    }
}

pub open spec fn sum_lens(v: Seq<(i64, Vec<i64>)>) -> int
    decreases v.len(),
{
    if v.len() == 0 {
        0
    } else {
        sum_lens(v.drop_last()) + v.last().1@.len()
    }
}

impl GraphShape {
    /// The tables that are maps in the graph hold each key once.
    pub open spec fn wf(&self) -> bool {
        &&& forall|a: int, b: int|
            0 <= a < b < self.distributions@.len() ==> #[trigger] self.distributions@[a].key
                != #[trigger] self.distributions@[b].key
        &&& forall|a: int, b: int|
            0 <= a < b < self.return_profiles@.len() ==> #[trigger] self.return_profiles@[a].key
                != #[trigger] self.return_profiles@[b].key
        &&& forall|a: int, b: int|
            0 <= a < b < self.amounts@.len() ==> #[trigger] self.amounts@[a].key
                != #[trigger] self.amounts@[b].key
        &&& forall|a: int, b: int|
            0 <= a < b < self.effects@.len() ==> #[trigger] self.effects@[a].key
                != #[trigger] self.effects@[b].key
        &&& forall|a: int, b: int|
            0 <= a < b < self.triggers@.len() ==> #[trigger] self.triggers@[a].key
                != #[trigger] self.triggers@[b].key
        &&& forall|a: int, b: int|
            0 <= a < b < self.trigger_children@.len() ==> #[trigger] self.trigger_children@[a].0
                != #[trigger] self.trigger_children@[b].0
        &&& forall|a: int, b: int|
            0 <= a < b < self.event_trigger@.len() ==> #[trigger] self.event_trigger@[a].0
                != #[trigger] self.event_trigger@[b].0
        &&& forall|a: int, b: int|
            0 <= a < b < self.event_effects@.len() ==> #[trigger] self.event_effects@[a].0
                != #[trigger] self.event_effects@[b].0
        &&& forall|a: int, b: int|
            0 <= a < b < self.effect_children@.len() ==> (#[trigger] self.effect_children@[a].parent,
            self.effect_children@[a].slot@) != (#[trigger] self.effect_children@[b].parent,
            self.effect_children@[b].slot@)
    }

    /// How many rows the plan holds, as the size limit counts them.
    pub open spec fn size(&self) -> int {
        self.accounts@.len() + self.assets@.len() + self.events@.len()
            + self.distributions@.len() + self.amounts@.len() + self.effects@.len()
            + self.triggers@.len() + self.return_profiles@.len() + sum_lens(
            self.trigger_children@,
        ) + sum_lens(self.event_effects@) + self.other_rows
    }

    pub open spec fn trigger_at(&self, key: i64) -> int {
        if exists|i: int| 0 <= i < self.triggers@.len() && self.triggers@[i].key == key {
            choose|i: int| 0 <= i < self.triggers@.len() && self.triggers@[i].key == key
        } else {
            -1
        }
    }

    pub open spec fn effect_at(&self, key: i64) -> int {
        if exists|i: int| 0 <= i < self.effects@.len() && self.effects@[i].key == key {
            choose|i: int| 0 <= i < self.effects@.len() && self.effects@[i].key == key
        } else {
            -1
        }
    }

    pub open spec fn children_of(&self, parent: i64) -> Option<Seq<i64>> {
        if exists|i: int| 0 <= i < self.trigger_children@.len() && self.trigger_children@[i].0 == parent {
            Some(self.trigger_children@[choose|i: int| 0 <= i < self.trigger_children@.len() && self.trigger_children@[i].0 == parent].1@)
        } else {
            None
        }
    }

    pub open spec fn branch(&self, parent: i64, slot: Seq<char>) -> Option<i64> {
        if exists|i: int| 0 <= i < self.effect_children@.len() && self.effect_children@[i].parent == parent && self.effect_children@[i].slot@ == slot {
            Some(self.effect_children@[choose|i: int| 0 <= i < self.effect_children@.len() && self.effect_children@[i].parent == parent && self.effect_children@[i].slot@ == slot].child)
        } else {
            None
        }
    }

    pub open spec fn ids_ok(&self) -> bool {
        &&& unique_positive(self.accounts@)
        &&& unique_positive(self.assets@)
        &&& unique_positive(self.events@)
        &&& forall|i: int| 0 <= i < self.distributions@.len() ==> keyed(#[trigger] self.distributions@[i])
        &&& forall|i: int| 0 <= i < self.return_profiles@.len() ==> keyed(#[trigger] self.return_profiles@[i])
        &&& forall|i: int| 0 <= i < self.amounts@.len() ==> keyed(#[trigger] self.amounts@[i])
        &&& forall|i: int| 0 <= i < self.effects@.len() ==> (#[trigger] self.effects@[i]).key > 0
            && self.effects@[i].key == self.effects@[i].id
        &&& forall|i: int| 0 <= i < self.triggers@.len() ==> (#[trigger] self.triggers@[i]).key > 0
            && self.triggers@[i].key == self.triggers@[i].id
    }

    /// Compound children point back at their parent and belong to no event.
    pub open spec fn compound_ok(&self, i: int) -> bool {
        let (parent, children) = self.trigger_children@[i];
        &&& self.trigger_at(parent) >= 0
        &&& unique_positive(children@)
        &&& forall|j: int| 0 <= j < children@.len() ==> child_of(self, #[trigger] children@[j], parent)
    }

    /// A trigger with a parent is among its parent's children; start and end
    /// conditions are detached triggers.
    pub open spec fn trigger_ok(&self, i: int) -> bool {
        let t = self.triggers@[i];
        &&& (t.parent_id matches Some(p) ==> (self.children_of(p) matches Some(c) && c.contains(t.id)))
        &&& (t.start_id matches Some(s) ==> detached(self, s))
        &&& (t.end_id matches Some(e) ==> detached(self, e))
    }

    pub open spec fn root_ok(&self, i: int) -> bool {
        let (event, root) = self.event_trigger@[i];
        let t = self.trigger_at(root);
        &&& self.events@.contains(event)
        &&& t >= 0 && self.triggers@[t].event_id == Some(event) && self.triggers@[t].parent_id is None
    }

    pub open spec fn list_ok(&self, i: int) -> bool {
        let (event, list) = self.event_effects@[i];
        &&& self.events@.contains(event)
        &&& unique_positive(list@)
        &&& forall|j: int| 0 <= j < list@.len() ==> top_effect_of(self, #[trigger] list@[j], event)
    }

    pub open spec fn branch_ok(&self, i: int) -> bool {
        let b = self.effect_children@[i];
        let c = self.effect_at(b.child);
        &&& self.effect_at(b.parent) >= 0
        &&& (b.slot@ == "on_true"@ || b.slot@ == "on_false"@)
        &&& c >= 0 && self.effects@[c].parent_id == Some(b.parent) && opt_str(self.effects@[c].parent_slot) == Some(b.slot@)
            && self.effects@[c].event_id is None
    }

    pub open spec fn nested_ok(&self, i: int) -> bool {
        let e = self.effects@[i];
        e.parent_id matches Some(p) ==> (opt_str(e.parent_slot) matches Some(slot) && self.branch(p, slot) == Some(e.id))
    }

    /// Record identifiers and tree ownership agree with each other.
    pub open spec fn consistent(&self) -> bool {
        &&& self.ids_ok()
        &&& forall|i: int| 0 <= i < self.trigger_children@.len() ==> #[trigger] self.compound_ok(i)
        &&& forall|i: int| 0 <= i < self.triggers@.len() ==> #[trigger] self.trigger_ok(i)
        &&& forall|i: int| 0 <= i < self.event_trigger@.len() ==> #[trigger] self.root_ok(i)
        &&& forall|i: int| 0 <= i < self.event_effects@.len() ==> #[trigger] self.list_ok(i)
        &&& forall|i: int| 0 <= i < self.effect_children@.len() ==> #[trigger] self.branch_ok(i)
        &&& forall|i: int| 0 <= i < self.effects@.len() ==> #[trigger] self.nested_ok(i)
    }
}

pub open spec fn child_of(g: &GraphShape, id: i64, parent: i64) -> bool {
    let t = g.trigger_at(id);
    t >= 0 && g.triggers@[t].parent_id == Some(parent) && g.triggers@[t].event_id is None
}

pub open spec fn top_effect_of(g: &GraphShape, id: i64, event: i64) -> bool {
    let e = g.effect_at(id);
    e >= 0 && g.effects@[e].event_id == Some(event) && g.effects@[e].parent_id is None
}

pub open spec fn unique_positive(ids: Seq<i64>) -> bool {
    &&& forall|i: int| 0 <= i < ids.len() ==> #[trigger] ids[i] > 0
    &&& ids.no_duplicates()
}

pub open spec fn keyed(r: LinkRow) -> bool {
    r.key > 0 && r.key == r.id
}

pub open spec fn detached(g: &GraphShape, id: i64) -> bool {
    let t = g.trigger_at(id);
    t >= 0 && g.triggers@[t].parent_id is None && g.triggers@[t].event_id is None
}

fn all_unique_positive(ids: &[i64]) -> (r: bool)
    ensures
        r == unique_positive(ids@),
{
    let n = ids.len();
    let mut i: usize = 0;
    while i < n
        invariant
            i <= n,
            n == ids@.len(),
            forall|a: int| 0 <= a < i ==> #[trigger] ids@[a] > 0,
            forall|a: int, b: int| 0 <= a < i && 0 <= b < n && a != b ==> ids@[a] != ids@[b],
        decreases n - i,
    {
        if ids[i] <= 0 {
            return false;
        }
        let mut j: usize = 0;
        while j < n
            invariant
                j <= n,
                i < n,
                n == ids@.len(),
                forall|b: int| 0 <= b < j && b != i ==> ids@[i as int] != ids@[b],
            decreases n - j,
        {
            if j != i && ids[j] == ids[i] {
                return false;
            }
            j = j + 1;
        }
        i = i + 1;
    }
    true
}

impl GraphShape {
    fn find_trigger(&self, key: i64) -> (r: Option<usize>)
        requires
            self.wf(),
        ensures
            match r {
                Some(i) => i as int == self.trigger_at(key) && i < self.triggers@.len(),
                None => self.trigger_at(key) == -1,
            },
    {
        let mut i: usize = 0;
        while i < self.triggers.len()
            invariant
                i <= self.triggers@.len(),
                self.wf(),
                forall|j: int| 0 <= j < i ==> self.triggers@[j].key != key,
            decreases self.triggers@.len() - i,
        {
            if self.triggers[i].key == key {
                proof {
                    let k = choose|k: int| 0 <= k < self.triggers@.len() && self.triggers@[k].key == key;
                    if k != i {
                        if k < i {
                            assert(self.triggers@[k].key != self.triggers@[i as int].key);
                        } else {
                            assert(self.triggers@[i as int].key != self.triggers@[k].key);
                        }
                    }
                }
                return Some(i);
            }
            i = i + 1;
        }
        None
    }

    fn find_effect(&self, key: i64) -> (r: Option<usize>)
        requires
            self.wf(),
        ensures
            match r {
                Some(i) => i as int == self.effect_at(key) && i < self.effects@.len(),
                None => self.effect_at(key) == -1,
            },
    {
        let mut i: usize = 0;
        while i < self.effects.len()
            invariant
                i <= self.effects@.len(),
                self.wf(),
                forall|j: int| 0 <= j < i ==> self.effects@[j].key != key,
            decreases self.effects@.len() - i,
        {
            if self.effects[i].key == key {
                proof {
                    let k = choose|k: int| 0 <= k < self.effects@.len() && self.effects@[k].key == key;
                    if k != i {
                        if k < i {
                            assert(self.effects@[k].key != self.effects@[i as int].key);
                        } else {
                            assert(self.effects@[i as int].key != self.effects@[k].key);
                        }
                    }
                }
                return Some(i);
            }
            i = i + 1;
        }
        None
    }

    fn find_children(&self, parent: i64) -> (r: Option<usize>)
        requires
            self.wf(),
        ensures
            match r {
                Some(i) => i < self.trigger_children@.len() && self.children_of(parent) == Some(self.trigger_children@[i as int].1@),
                None => self.children_of(parent) is None,
            },
    {
        let mut i: usize = 0;
        while i < self.trigger_children.len()
            invariant
                i <= self.trigger_children@.len(),
                self.wf(),
                forall|j: int| 0 <= j < i ==> self.trigger_children@[j].0 != parent,
            decreases self.trigger_children@.len() - i,
        {
            if self.trigger_children[i].0 == parent {
                proof {
                    let k = choose|k: int| 0 <= k < self.trigger_children@.len() && self.trigger_children@[k].0 == parent;
                    if k != i {
                        if k < i {
                            assert(self.trigger_children@[k].0 != self.trigger_children@[i as int].0);
                        } else {
                            assert(self.trigger_children@[i as int].0 != self.trigger_children@[k].0);
                        }
                    }
                }
                return Some(i);
            }
            i = i + 1;
        }
        None
    }

    fn find_branch(&self, parent: i64, slot: &str) -> (r: Option<i64>)
        requires
            self.wf(),
        ensures
            r == self.branch(parent, slot@),
    {
        let mut i: usize = 0;
        while i < self.effect_children.len()
            invariant
                i <= self.effect_children@.len(),
                self.wf(),
                forall|j: int| 0 <= j < i ==> !(self.effect_children@[j].parent == parent && self.effect_children@[j].slot@ == slot@),
            decreases self.effect_children@.len() - i,
        {
            let b = &self.effect_children[i];
            if b.parent == parent && same_text(b.slot.as_str(), slot) {
                proof {
                    let k = choose|k: int| 0 <= k < self.effect_children@.len() && self.effect_children@[k].parent == parent && self.effect_children@[k].slot@ == slot@;
                    if k != i {
                        if k < i {
                            assert((self.effect_children@[k].parent, self.effect_children@[k].slot@) != (self.effect_children@[i as int].parent, self.effect_children@[i as int].slot@));
                        } else {
                            assert((self.effect_children@[i as int].parent, self.effect_children@[i as int].slot@) != (self.effect_children@[k].parent, self.effect_children@[k].slot@));
                        }
                    }
                }
                return Some(b.child);
            }
            i = i + 1;
        }
        None
    }

    fn has_event(&self, event: i64) -> (r: bool)
        ensures
            r == self.events@.contains(event),
    {
        let mut i: usize = 0;
        while i < self.events.len()
            invariant
                i <= self.events@.len(),
                forall|j: int| 0 <= j < i ==> self.events@[j] != event,
            decreases self.events@.len() - i,
        {
            if self.events[i] == event {
                assert(self.events@[i as int] == event);
                return true;
            }
            i = i + 1;
        }
        false
    }

    fn is_detached(&self, id: i64) -> (r: bool)
        requires
            self.wf(),
        ensures
            r == detached(self, id),
    {
        match self.find_trigger(id) {
            Some(t) => self.triggers[t].parent_id.is_none() && self.triggers[t].event_id.is_none(),
            None => false,
        }
    }

    fn check_ids(&self) -> (r: bool)
        ensures
            r == self.ids_ok(),
    {
        if !all_unique_positive(self.accounts.as_slice()) || !all_unique_positive(self.assets.as_slice())
            || !all_unique_positive(self.events.as_slice()) {
            return false;
        }
        let mut i: usize = 0;
        while i < self.distributions.len()
            invariant
                i <= self.distributions@.len(),
                forall|j: int| 0 <= j < i ==> keyed(#[trigger] self.distributions@[j]),
            decreases self.distributions@.len() - i,
        {
            let r = &self.distributions[i];
            if r.key <= 0 || r.key != r.id {
                assert(!keyed(self.distributions@[i as int]));
                return false;
            }
            i = i + 1;
        }
        let mut i: usize = 0;
        while i < self.return_profiles.len()
            invariant
                i <= self.return_profiles@.len(),
                forall|j: int| 0 <= j < i ==> keyed(#[trigger] self.return_profiles@[j]),
            decreases self.return_profiles@.len() - i,
        {
            let r = &self.return_profiles[i];
            if r.key <= 0 || r.key != r.id {
                assert(!keyed(self.return_profiles@[i as int]));
                return false;
            }
            i = i + 1;
        }
        let mut i: usize = 0;
        while i < self.amounts.len()
            invariant
                i <= self.amounts@.len(),
                forall|j: int| 0 <= j < i ==> keyed(#[trigger] self.amounts@[j]),
            decreases self.amounts@.len() - i,
        {
            let r = &self.amounts[i];
            if r.key <= 0 || r.key != r.id {
                assert(!keyed(self.amounts@[i as int]));
                return false;
            }
            i = i + 1;
        }
        let mut i: usize = 0;
        while i < self.effects.len()
            invariant
                i <= self.effects@.len(),
                forall|j: int| 0 <= j < i ==> (#[trigger] self.effects@[j]).key > 0 && self.effects@[j].key == self.effects@[j].id,
            decreases self.effects@.len() - i,
        {
            let r = &self.effects[i];
            if r.key <= 0 || r.key != r.id {
                return false;
            }
            i = i + 1;
        }
        let mut i: usize = 0;
        while i < self.triggers.len()
            invariant
                i <= self.triggers@.len(),
                forall|j: int| 0 <= j < i ==> (#[trigger] self.triggers@[j]).key > 0 && self.triggers@[j].key == self.triggers@[j].id,
            decreases self.triggers@.len() - i,
        {
            let r = &self.triggers[i];
            if r.key <= 0 || r.key != r.id {
                return false;
            }
            i = i + 1;
        }
        true
    }
}

impl GraphShape {
    fn check_compound(&self, i: usize) -> (r: bool)
        requires
            self.wf(),
            i < self.trigger_children@.len(),
        ensures
            r == self.compound_ok(i as int),
    {
        let parent = self.trigger_children[i].0;
        let children = &self.trigger_children[i].1;
        if self.find_trigger(parent).is_none() || !all_unique_positive(children.as_slice()) {
            return false;
        }
        let mut j: usize = 0;
        while j < children.len()
            invariant
                j <= children@.len(),
                self.wf(),
                children@ == self.trigger_children@[i as int].1@,
                parent == self.trigger_children@[i as int].0,
                forall|k: int| 0 <= k < j ==> child_of(self, #[trigger] children@[k], parent),
            decreases children@.len() - j,
        {
            match self.find_trigger(children[j]) {
                Some(t) => {
                    if self.triggers[t].parent_id != Some(parent) || self.triggers[t].event_id.is_some() {
                        assert(!child_of(self, children@[j as int], parent));
                        return false;
                    }
                },
                None => {
                    assert(!child_of(self, children@[j as int], parent));
                    return false;
                },
            }
            j = j + 1;
        }
        true
    }

    fn check_trigger(&self, i: usize) -> (r: bool)
        requires
            self.wf(),
            i < self.triggers@.len(),
        ensures
            r == self.trigger_ok(i as int),
    {
        let t = &self.triggers[i];
        if let Some(p) = t.parent_id {
            match self.find_children(p) {
                Some(c) => {
                    let list = &self.trigger_children[c].1;
                    let mut found = false;
                    let mut k: usize = 0;
                    while k < list.len() && !found
                        invariant
                            k <= list@.len(),
                            found ==> list@.contains(t.id),
                            !found ==> forall|q: int| 0 <= q < k ==> list@[q] != t.id,
                        decreases list@.len() - k,
                    {
                        if list[k] == t.id {
                            assert(list@[k as int] == t.id);
                            found = true;
                        }
                        k = k + 1;
                    }
                    if !found {
                        return false;
                    }
                },
                None => return false,
            }
        }
        if let Some(st) = t.start_id {
            if !self.is_detached(st) {
                return false;
            }
        }
        if let Some(en) = t.end_id {
            if !self.is_detached(en) {
                return false;
            }
        }
        true
    }

    fn check_root(&self, i: usize) -> (r: bool)
        requires
            self.wf(),
            i < self.event_trigger@.len(),
        ensures
            r == self.root_ok(i as int),
    {
        let (event, root) = self.event_trigger[i];
        if !self.has_event(event) {
            return false;
        }
        match self.find_trigger(root) {
            Some(t) => self.triggers[t].event_id == Some(event) && self.triggers[t].parent_id.is_none(),
            None => false,
        }
    }

    fn check_list(&self, i: usize) -> (r: bool)
        requires
            self.wf(),
            i < self.event_effects@.len(),
        ensures
            r == self.list_ok(i as int),
    {
        let event = self.event_effects[i].0;
        let list = &self.event_effects[i].1;
        if !self.has_event(event) || !all_unique_positive(list.as_slice()) {
            return false;
        }
        let mut j: usize = 0;
        while j < list.len()
            invariant
                j <= list@.len(),
                self.wf(),
                list@ == self.event_effects@[i as int].1@,
                event == self.event_effects@[i as int].0,
                forall|k: int| 0 <= k < j ==> top_effect_of(self, #[trigger] list@[k], event),
            decreases list@.len() - j,
        {
            match self.find_effect(list[j]) {
                Some(e) => {
                    if self.effects[e].event_id != Some(event) || self.effects[e].parent_id.is_some() {
                        assert(!top_effect_of(self, list@[j as int], event));
                        return false;
                    }
                },
                None => {
                    assert(!top_effect_of(self, list@[j as int], event));
                    return false;
                },
            }
            j = j + 1;
        }
        true
    }

    fn check_branch(&self, i: usize) -> (r: bool)
        requires
            self.wf(),
            i < self.effect_children@.len(),
        ensures
            r == self.branch_ok(i as int),
    {
        let b = &self.effect_children[i];
        if self.find_effect(b.parent).is_none() {
            return false;
        }
        if !(same_text(b.slot.as_str(), "on_true") || same_text(b.slot.as_str(), "on_false")) {
            return false;
        }
        match self.find_effect(b.child) {
            Some(c) => {
                let e = &self.effects[c];
                let slot_matches = match &e.parent_slot {
                    Some(s) => same_text(s.as_str(), b.slot.as_str()),
                    None => false,
                };
                e.parent_id == Some(b.parent) && slot_matches && e.event_id.is_none()
            },
            None => false,
        }
    }

    fn check_nested(&self, i: usize) -> (r: bool)
        requires
            self.wf(),
            i < self.effects@.len(),
        ensures
            r == self.nested_ok(i as int),
    {
        let e = &self.effects[i];
        match e.parent_id {
            Some(p) => match &e.parent_slot {
                Some(slot) => self.find_branch(p, slot.as_str()) == Some(e.id),
                None => false,
            },
            None => true,
        }
    }

    /// Whether identifiers and ownership links agree (see `consistent`).
    pub fn check_consistent(&self) -> (r: bool)
        requires
            self.wf(),
        ensures
            r == self.consistent(),
    {
        if !self.check_ids() {
            return false;
        }
        let mut i: usize = 0;
        while i < self.trigger_children.len()
            invariant
                i <= self.trigger_children@.len(),
                self.wf(),
                forall|j: int| 0 <= j < i ==> #[trigger] self.compound_ok(j),
            decreases self.trigger_children@.len() - i,
        {
            if !self.check_compound(i) {
                return false;
            }
            i = i + 1;
        }
        let mut i: usize = 0;
        while i < self.triggers.len()
            invariant
                i <= self.triggers@.len(),
                self.wf(),
                forall|j: int| 0 <= j < i ==> #[trigger] self.trigger_ok(j),
            decreases self.triggers@.len() - i,
        {
            if !self.check_trigger(i) {
                return false;
            }
            i = i + 1;
        }
        let mut i: usize = 0;
        while i < self.event_trigger.len()
            invariant
                i <= self.event_trigger@.len(),
                self.wf(),
                forall|j: int| 0 <= j < i ==> #[trigger] self.root_ok(j),
            decreases self.event_trigger@.len() - i,
        {
            if !self.check_root(i) {
                return false;
            }
            i = i + 1;
        }
        let mut i: usize = 0;
        while i < self.event_effects.len()
            invariant
                i <= self.event_effects@.len(),
                self.wf(),
                forall|j: int| 0 <= j < i ==> #[trigger] self.list_ok(j),
            decreases self.event_effects@.len() - i,
        {
            if !self.check_list(i) {
                return false;
            }
            i = i + 1;
        }
        let mut i: usize = 0;
        while i < self.effect_children.len()
            invariant
                i <= self.effect_children@.len(),
                self.wf(),
                forall|j: int| 0 <= j < i ==> #[trigger] self.branch_ok(j),
            decreases self.effect_children@.len() - i,
        {
            if !self.check_branch(i) {
                return false;
            }
            i = i + 1;
        }
        let mut i: usize = 0;
        while i < self.effects.len()
            invariant
                i <= self.effects@.len(),
                self.wf(),
                forall|j: int| 0 <= j < i ==> #[trigger] self.nested_ok(j),
            decreases self.effects@.len() - i,
        {
            if !self.check_nested(i) {
                return false;
            }
            i = i + 1;
        }
        true
    }
}

pub open spec fn opt_list(o: Option<i64>) -> Seq<i64> {
    match o {
        Some(x) => seq![x],
        None => Seq::empty(),
    }
}

pub open spec fn link_edges(rows: Seq<LinkRow>) -> Seq<(i64, Seq<i64>)> {
    rows.map_values(|r: LinkRow| (r.key, opt_list(r.left) + opt_list(r.right)))
}

/// The children of effect `key` through its branch slots.
pub open spec fn branch_children(v: Seq<EffectChild>, key: i64) -> Seq<i64>
    decreases v.len(),
{
    if v.len() == 0 {
        Seq::empty()
    } else {
        let before = branch_children(v.drop_last(), key);
        if v.last().parent == key {
            before.push(v.last().child)
        } else {
            before
        }
    }
}

impl GraphShape {
    pub open spec fn trigger_edges(&self) -> Seq<(i64, Seq<i64>)> {
        self.triggers@.map_values(
            |t: TriggerShape|
                (
                    t.key,
                    match self.children_of(t.key) {
                        Some(c) => c,
                        None => Seq::empty(),
                    } + opt_list(t.start_id) + opt_list(t.end_id),
                ),
        )
    }

    pub open spec fn effect_edges(&self) -> Seq<(i64, Seq<i64>)> {
        self.effects@.map_values(|e: EffectShape| (e.key, branch_children(self.effect_children@, e.key)))
    }

    /// At most 10 000 rows and a horizon of 1 to 120 years.
    pub open spec fn within_limits(&self) -> bool {
        self.size() <= 10_000 && 1 <= self.duration_years <= 120
    }

    /// What an archived plan must satisfy before it is compiled and restored.
    pub open spec fn restorable(&self) -> bool {
        &&& self.within_limits()
        &&& self.consistent()
        &&& dag_ok(link_edges(self.distributions@))
        &&& dag_ok(link_edges(self.amounts@))
        &&& dag_ok(self.trigger_edges())
        &&& dag_ok(self.effect_edges())
    }
}

fn add_capped(acc: usize, x: usize) -> (r: usize)
    requires
        acc <= 10_001,
    ensures
        r as int == (if acc + x > 10_001 {
            10_001
        } else {
            acc + x
        }),
{
    if x > 10_001 - acc {
        10_001
    } else {
        acc + x
    }
}

fn opt_vec(o: Option<i64>) -> (r: Vec<i64>)
    ensures
        r@ == opt_list(o),
{
    let mut v: Vec<i64> = Vec::new();
    if let Some(x) = o {
        v.push(x);
    }
    v
}

fn append(a: &mut Vec<i64>, b: Vec<i64>)
    ensures
        final(a)@ == old(a)@ + b@,
{
    let mut i: usize = 0;
    let ghost start = a@;
    while i < b.len()
        invariant
            i <= b@.len(),
            a@ == start + b@.subrange(0, i as int),
        decreases b@.len() - i,
    {
        a.push(b[i]);
        assert(b@.subrange(0, i + 1) == b@.subrange(0, i as int).push(b@[i as int]));
        i = i + 1;
    }
    assert(b@.subrange(0, b@.len() as int) == b@);
}

fn links(rows: &[LinkRow]) -> (r: Vec<(i64, Vec<i64>)>)
    ensures
        edge_views(r@) == link_edges(rows@),
{
    let mut out: Vec<(i64, Vec<i64>)> = Vec::new();
    let mut i: usize = 0;
    while i < rows.len()
        invariant
            i <= rows@.len(),
            edge_views(out@) == link_edges(rows@.subrange(0, i as int)),
        decreases rows@.len() - i,
    {
        let mut kids = opt_vec(rows[i].left);
        append(&mut kids, opt_vec(rows[i].right));
        let ghost before = out@;
        out.push((rows[i].key, kids));
        assert(rows@.subrange(0, i + 1) == rows@.subrange(0, i as int).push(rows@[i as int]));
        assert(edge_views(out@) == edge_views(before).push((rows@[i as int].key, kids@)));
        i = i + 1;
    }
    assert(rows@.subrange(0, rows@.len() as int) == rows@);
    out
}

impl GraphShape {
    fn size_capped(&self) -> (r: usize)
        ensures
            r as int == (if self.size() > 10_001 {
                10_001
            } else {
                self.size()
            }),
    {
        let mut acc = add_capped(0, self.accounts.len());
        acc = add_capped(acc, self.assets.len());
        acc = add_capped(acc, self.events.len());
        acc = add_capped(acc, self.distributions.len());
        acc = add_capped(acc, self.amounts.len());
        acc = add_capped(acc, self.effects.len());
        acc = add_capped(acc, self.triggers.len());
        acc = add_capped(acc, self.return_profiles.len());
        let ghost base = self.accounts@.len() + self.assets@.len() + self.events@.len()
            + self.distributions@.len() + self.amounts@.len() + self.effects@.len()
            + self.triggers@.len() + self.return_profiles@.len();
        assert(acc as int == (if base > 10_001 { 10_001 } else { base }));
        let mut i: usize = 0;
        while i < self.trigger_children.len()
            invariant
                i <= self.trigger_children@.len(),
                acc as int == (if base + sum_lens(self.trigger_children@.subrange(0, i as int)) > 10_001 {
                    10_001
                } else {
                    base + sum_lens(self.trigger_children@.subrange(0, i as int))
                }),
                base >= 0,
            decreases self.trigger_children@.len() - i,
        {
            assert(self.trigger_children@.subrange(0, i + 1).drop_last() == self.trigger_children@.subrange(0, i as int));
            proof {
                lemma_sum_lens_nonneg(self.trigger_children@.subrange(0, i as int));
            }
            acc = add_capped(acc, self.trigger_children[i].1.len());
            i = i + 1;
        }
        assert(self.trigger_children@.subrange(0, i as int) == self.trigger_children@);
        let ghost mid = base + sum_lens(self.trigger_children@);
        proof {
            lemma_sum_lens_nonneg(self.trigger_children@);
        }
        let mut i: usize = 0;
        while i < self.event_effects.len()
            invariant
                i <= self.event_effects@.len(),
                acc as int == (if mid + sum_lens(self.event_effects@.subrange(0, i as int)) > 10_001 {
                    10_001
                } else {
                    mid + sum_lens(self.event_effects@.subrange(0, i as int))
                }),
                mid >= 0,
            decreases self.event_effects@.len() - i,
        {
            assert(self.event_effects@.subrange(0, i + 1).drop_last() == self.event_effects@.subrange(0, i as int));
            proof {
                lemma_sum_lens_nonneg(self.event_effects@.subrange(0, i as int));
            }
            acc = add_capped(acc, self.event_effects[i].1.len());
            i = i + 1;
        }
        assert(self.event_effects@.subrange(0, i as int) == self.event_effects@);
        proof {
            lemma_sum_lens_nonneg(self.event_effects@);
        }
        add_capped(acc, self.other_rows)
    }

    fn trigger_edge_list(&self) -> (r: Vec<(i64, Vec<i64>)>)
        requires
            self.wf(),
        ensures
            edge_views(r@) == self.trigger_edges(),
    {
        let mut out: Vec<(i64, Vec<i64>)> = Vec::new();
        let mut i: usize = 0;
        while i < self.triggers.len()
            invariant
                i <= self.triggers@.len(),
                self.wf(),
                edge_views(out@) == self.trigger_edges().subrange(0, i as int),
            decreases self.triggers@.len() - i,
        {
            let t = &self.triggers[i];
            let mut kids: Vec<i64> = match self.find_children(t.key) {
                Some(c) => self.trigger_children[c].1.clone(),
                None => Vec::new(),
            };
            append(&mut kids, opt_vec(t.start_id));
            append(&mut kids, opt_vec(t.end_id));
            let ghost before = out@;
            out.push((t.key, kids));
            assert(edge_views(out@) == edge_views(before).push((t.key, kids@)));
            assert(self.trigger_edges().subrange(0, i + 1) == self.trigger_edges().subrange(0, i as int).push(self.trigger_edges()[i as int]));
            i = i + 1;
        }
        assert(self.trigger_edges().subrange(0, self.triggers@.len() as int) == self.trigger_edges());
        out
    }

    fn effect_edge_list(&self) -> (r: Vec<(i64, Vec<i64>)>)
        ensures
            edge_views(r@) == self.effect_edges(),
    {
        let mut out: Vec<(i64, Vec<i64>)> = Vec::new();
        let mut i: usize = 0;
        while i < self.effects.len()
            invariant
                i <= self.effects@.len(),
                edge_views(out@) == self.effect_edges().subrange(0, i as int),
            decreases self.effects@.len() - i,
        {
            let key = self.effects[i].key;
            let mut kids: Vec<i64> = Vec::new();
            let mut j: usize = 0;
            while j < self.effect_children.len()
                invariant
                    j <= self.effect_children@.len(),
                    kids@ == branch_children(self.effect_children@.subrange(0, j as int), key),
                decreases self.effect_children@.len() - j,
            {
                assert(self.effect_children@.subrange(0, j + 1).drop_last() == self.effect_children@.subrange(0, j as int));
                if self.effect_children[j].parent == key {
                    kids.push(self.effect_children[j].child);
                }
                j = j + 1;
            }
            assert(self.effect_children@.subrange(0, j as int) == self.effect_children@);
            let ghost before = out@;
            out.push((key, kids));
            assert(edge_views(out@) == edge_views(before).push((key, kids@)));
            assert(self.effect_edges().subrange(0, i + 1) == self.effect_edges().subrange(0, i as int).push(self.effect_edges()[i as int]));
            i = i + 1;
        }
        assert(self.effect_edges().subrange(0, self.effects@.len() as int) == self.effect_edges());
        out
    }

    /// Check an archived plan before it is compiled and restored: size and
    /// horizon, identifiers and ownership, then each family of references.
    pub fn validate_shape(&self) -> (r: Result<(), ApiError>)
        requires
            self.wf(),
        ensures
            r is Ok <==> self.restorable(),
            !self.within_limits() ==> (r matches Err(ApiError::BadRequest(m)) && m@
                == "Archive exceeds the plan size or horizon limit."@),
            self.within_limits() && !self.consistent() ==> (r matches Err(ApiError::BadRequest(m))
                && m@ == "Archive contains inconsistent record identifiers or tree ownership."@),
            self.within_limits() && self.consistent() && !self.restorable() ==> (r matches Err(ApiError::BadRequest(m)) && dag_message(m@)),
    {
        let size = self.size_capped();
        if size > 10_000 || self.duration_years < 1 || self.duration_years > 120 {
            return Err(ApiError::bad_request("Archive exceeds the plan size or horizon limit."));
        }
        if !self.check_consistent() {
            return Err(
                ApiError::bad_request(
                    "Archive contains inconsistent record identifiers or tree ownership.",
                ),
            );
        }
        let d = links(self.distributions.as_slice());
        proof {
            lemma_link_keys(self.distributions@);
        }
        check_dag(d.as_slice())?;
        let a = links(self.amounts.as_slice());
        proof {
            lemma_link_keys(self.amounts@);
        }
        check_dag(a.as_slice())?;
        let t = self.trigger_edge_list();
        assert(keys_distinct(self.trigger_edges())) by {
            assert forall|x: int, y: int| 0 <= x < y < self.trigger_edges().len() implies #[trigger] self.trigger_edges()[x].0 != #[trigger] self.trigger_edges()[y].0 by {
                assert(self.triggers@[x].key != self.triggers@[y].key);
            }
        }
        check_dag(t.as_slice())?;
        let e = self.effect_edge_list();
        assert(keys_distinct(self.effect_edges())) by {
            assert forall|x: int, y: int| 0 <= x < y < self.effect_edges().len() implies #[trigger] self.effect_edges()[x].0 != #[trigger] self.effect_edges()[y].0 by {
                assert(self.effects@[x].key != self.effects@[y].key);
            }
        }
        check_dag(e.as_slice())?;
        Ok(())
    }
}

proof fn lemma_sum_lens_nonneg(v: Seq<(i64, Vec<i64>)>)
    ensures
        sum_lens(v) >= 0,
    decreases v.len(),
{
    if v.len() > 0 {
        lemma_sum_lens_nonneg(v.drop_last());
    }
}

proof fn lemma_link_keys(rows: Seq<LinkRow>)
    requires
        forall|a: int, b: int| 0 <= a < b < rows.len() ==> #[trigger] rows[a].key != #[trigger] rows[b].key,
    ensures
        keys_distinct(link_edges(rows)),
{
    assert forall|x: int, y: int| 0 <= x < y < link_edges(rows).len() implies #[trigger] link_edges(rows)[x].0 != #[trigger] link_edges(rows)[y].0 by {
        assert(rows[x].key != rows[y].key);
    }
}

/// What an archive holds, before it is imported.
pub struct ArchivePreview {
    pub names: Vec<String>,
    pub accounts: usize,
    pub events: usize,
    pub assumptions: usize,
}

/// The plans an import created.
pub struct ArchiveImported {
    pub scenario_ids: Vec<i64>,
}

/// The only archive format read: version 2 input exports.
pub const ARCHIVE_FORMAT: &'static str = "finplan.inputs";

pub const ARCHIVE_VERSION: u32 = 2;

/// Most plans one import may carry.
pub const MAX_IMPORT_PLANS: usize = 100;

/// An archive is read only in the current format and with 1 to 100 plans.
pub fn check_archive(format: &str, version: u32, plans: usize) -> (r: Result<(), ApiError>)
    ensures
        !(format@ == "finplan.inputs"@ && version == ARCHIVE_VERSION) ==> (r matches Err(ApiError::BadRequest(m))
            && m@
            == "Unsupported archive. Use a version 2 FinPlan input export; legacy browser and CLI archives have different formats."@),
        format@ == "finplan.inputs"@ && version == ARCHIVE_VERSION ==> (if 1 <= plans <= MAX_IMPORT_PLANS {
            r is Ok
        } else {
            r matches Err(ApiError::BadRequest(m)) && m@ == "An import must contain 1–100 plans."@
        }),
{
    if !same_text(format, ARCHIVE_FORMAT) || version != ARCHIVE_VERSION {
        return Err(
            ApiError::bad_request(
                "Unsupported archive. Use a version 2 FinPlan input export; legacy browser and CLI archives have different formats.",
            ),
        );
    }
    if plans == 0 || plans > MAX_IMPORT_PLANS {
        return Err(ApiError::bad_request("An import must contain 1–100 plans."));
    }
    Ok(())
}

/// An import names a request key of 1 to 100 bytes and a name prefix of at
/// most 80 bytes.
pub fn check_import_request(request_id: &str, name_prefix: &str) -> (r: Result<(), ApiError>)
    ensures
        r is Ok <==> (1 <= crate::auth::byte_len(request_id@) <= 100 && crate::auth::byte_len(
            name_prefix@,
        ) <= 80),
        r is Err ==> (r matches Err(ApiError::BadRequest(m)) && m@
            == "A request key and a name prefix of at most 80 characters are required."@),
{
    let id_len = request_id.as_bytes().len();
    let prefix_len = name_prefix.as_bytes().len();
    if id_len == 0 || id_len > 100 || prefix_len > 80 {
        return Err(
            ApiError::bad_request(
                "A request key and a name prefix of at most 80 characters are required.",
            ),
        );
    }
    Ok(())
}

/// A request key may be replayed only with the same import.
pub fn check_replay(stored: &str, fingerprint: &str) -> (r: Result<(), ApiError>)
    ensures
        r is Ok <==> stored@ == fingerprint@,
        r is Err ==> (r matches Err(ApiError::Conflict(m)) && m@
            == "This request key was used for a different import."@),
{
    if same_text(stored, fingerprint) {
        Ok(())
    } else {
        Err(ApiError::Conflict(owned("This request key was used for a different import.")))
    }
}

/// A free account may not hold more plans than its limit after the import.
pub fn check_import_slots(limit: Option<usize>, held: i64, adding: usize) -> (r: Result<(), ApiError>)
    ensures
        r is Ok <==> (match limit {
            Some(l) => (held as usize) as int + adding <= l,
            None => true,
        }),
        r is Err ==> (r matches Err(ApiError::Forbidden(m)) && m@
            == "Free includes one saved plan. Export or read existing plans at any time; importing additional plans requires Pro."@),
{
    if let Some(l) = limit {
        let h = held as usize;
        if adding > l || h > l - adding {
            return Err(
                ApiError::Forbidden(
                    owned(
                        "Free includes one saved plan. Export or read existing plans at any time; importing additional plans requires Pro.",
                    ),
                ),
            );
        }
    }
    Ok(())
}

/// An imported plan's name: the request's prefix, then the archived name.
pub fn import_name(prefix: &str, name: &str) -> (r: String)
    ensures
        r@ == prefix@ + name@,
{
    joined(prefix, name)
}

/// Why a plan's date field cannot be compiled, if it cannot: `jiff` does not
/// read it as a civil date.
pub open spec fn plan_date_fault(text: Seq<char>, field: Seq<char>) -> Option<Seq<char>> {
    match date_parse(text) {
        Ok(_) => None,
        Err(e) => Some("invalid "@ + field + " '"@ + text + "': "@ + e),
    }
}

/// The first of a plan's dates that cannot be compiled: its start date, then
/// its birth date where it has one.
pub open spec fn plan_dates_fault(start: Seq<char>, birth: Option<Seq<char>>) -> Option<Seq<char>> {
    match plan_date_fault(start, "start_date"@) {
        Some(m) => Some(m),
        None => match birth {
            Some(b) => plan_date_fault(b, "birth_date"@),
            None => None,
        },
    }
}

fn check_plan_date(text: &str, field: &str) -> (r: Result<(), ApiError>)
    ensures
        match plan_date_fault(text@, field@) {
            None => r is Ok,
            Some(m) => r matches Err(ApiError::Unprocessable(x)) && x@ == m,
        },
{
    match parse_civil_date(text) {
        Ok(_) => Ok(()),
        Err(e) => {
            let mut m = joined("invalid ", field);
            m.append(" '");
            m.append(text);
            m.append("': ");
            m.append(e.as_str());
            Err(ApiError::Unprocessable(m))
        },
    }
}

/// The first check a plan's compilation makes: its start date, and its
/// birth date where it has one, must read as civil dates.
pub fn check_plan_dates(start_date: &str, birth_date: Option<&str>) -> (r: Result<(), ApiError>)
    ensures
        match plan_dates_fault(start_date@, opt_text(birth_date)) {
            None => r is Ok,
            Some(m) => r matches Err(ApiError::Unprocessable(x)) && x@ == m,
        },
{
    check_plan_date(start_date, "start_date")?;
    match birth_date {
        Some(b) => check_plan_date(b, "birth_date"),
        None => Ok(()),
    }
}

/// The same check at an archive's compile gate, which reports a plan that
/// cannot be compiled as a bad request.
pub fn check_archive_dates(start_date: &str, birth_date: Option<&str>) -> (r: Result<(), ApiError>)
    ensures
        match plan_dates_fault(start_date@, opt_text(birth_date)) {
            None => r is Ok,
            Some(m) => r matches Err(ApiError::BadRequest(x)) && x@ == "Archive plan cannot be compiled: "@ + m,
        },
{
    match check_plan_dates(start_date, birth_date) {
        Ok(()) => Ok(()),
        Err(ApiError::Unprocessable(m)) => Err(
            ApiError::BadRequest(joined("Archive plan cannot be compiled: ", m.as_str())),
        ),
        Err(e) => Err(e),
    }
}

} // verus!

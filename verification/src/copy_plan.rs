//! The order in which a scenario's triggers, amounts and effects are copied.
//! Each copy is a step; a step that refers to another copied row names the
//! earlier step that copied it, and the database ids are filled in as the
//! steps are inserted one after another.
use vstd::prelude::*;

use crate::amounts::{amount_row_view, amount_row_views, AmountRowView};
use crate::cloning::{
    amount_copy_fault, copied_amount, copied_effect, copied_trigger, copy_amount_row, copy_effect_row,
    copy_item_row, copy_source_row, copy_trigger_row, covered, dangling_error, effect_copy_fault, image,
    trigger_copy_fault, Remap,
};
use crate::triggers::{trigger_row_view, trigger_row_views, TriggerRowView};
use crate::effects::{effect_row_view, items_for, items_of, EffectRowView, ItemRowView, SourceRowView};
use crate::specs::{item_row, item_rows, source_row};
use crate::text::same_text;
use crate::error::{joined, ApiError};
use crate::rows::{EffectRow, TransferAmountRow, TriggerRow, WithdrawalItemRow, WithdrawalSourceRow};
use crate::text::{format_i64, signed_decimal};

verus! {

/// The position of the last element that satisfies `p`, or -1: a keyed
/// table keeps the last row it was given for a key.
pub open spec fn last_where<T>(s: Seq<T>, p: spec_fn(T) -> bool) -> int
    decreases s.len(),
{
    if s.len() == 0 {
        -1
    } else if p(s.last()) {
        s.len() - 1
    } else {
        last_where(s.drop_last(), p)
    }
}

pub(crate) proof fn lemma_last_where<T>(s: Seq<T>, p: spec_fn(T) -> bool)
    ensures
        -1 <= last_where(s, p) < s.len(),
        last_where(s, p) >= 0 ==> p(s[last_where(s, p)]) && forall|j: int|
            last_where(s, p) < j < s.len() ==> !p(#[trigger] s[j]),
        last_where(s, p) < 0 ==> forall|j: int| 0 <= j < s.len() ==> !p(#[trigger] s[j]),
    decreases s.len(),
{
    if s.len() > 0 && !p(s.last()) {
        let d = s.drop_last();
        lemma_last_where(d, p);
        assert forall|j: int| 0 <= j < d.len() implies d[j] == s[j] by {}
    }
}

/// Why a copy cannot be planned.
pub enum CopyFault {
    /// The walk went deeper than the rows allow: they loop.
    Cyclic(Seq<char>),
    /// A referenced row of this kind is not there.
    Missing(Seq<char>, i64),
    /// An effect's parent was not copied before it.
    ParentNotCopied,
    /// A reference to a row that was not copied.
    Dangling(Seq<char>, i64),
    /// More steps than an id can count.
    TooMany,
}

pub open spec fn copy_error(f: CopyFault, e: ApiError) -> bool {
    match f {
        CopyFault::Cyclic(what) => e matches ApiError::Internal(m) && m@ == what + " graph is cyclic"@,
        CopyFault::Missing(what, id) => e matches ApiError::Internal(m) && m@ == "missing "@ + what + " "@
            + signed_decimal(id as int),
        CopyFault::ParentNotCopied => e matches ApiError::Internal(m) && m@
            == "effect parent was not copied before its child"@,
        CopyFault::Dangling(what, id) => dangling_error(e, what, id),
        CopyFault::TooMany => e matches ApiError::Internal(m) && m@ == "too many rows to copy"@,
    }
}

/// One planned insert, its references to earlier steps by position.
pub enum StepView {
    Amount(AmountRowView, Option<int>, Option<int>),
    Trigger(crate::triggers::TriggerRowView, Option<int>, Option<int>, Option<int>),
    Effect(crate::effects::EffectRowView, Option<int>, Option<int>, Option<int>),
    Source(crate::effects::SourceRowView, int),
    Item(crate::effects::ItemRowView, int),
}

/// The steps planned so far, and which step copied each old amount, effect
/// and trigger.
pub struct PlanView {
    pub steps: Seq<StepView>,
    pub amounts: Map<i64, i64>,
    pub effects: Map<i64, i64>,
    pub triggers: Map<i64, i64>,
}

/// The rows a copy reads, as plain values.
pub struct GraphView {
    pub triggers: Seq<crate::triggers::TriggerRowView>,
    pub amounts: Seq<AmountRowView>,
    pub effects: Seq<crate::effects::EffectRowView>,
    pub sources: Seq<crate::effects::SourceRowView>,
    pub items: Seq<crate::effects::ItemRowView>,
}

/// Whether an amount row has this id.
pub open spec fn amount_has_id(id: i64) -> spec_fn(AmountRowView) -> bool {
    |r: AmountRowView| r.0 == id
}

/// The amount row a keyed table of amounts keeps for `id`.
pub open spec fn amount_at(g: GraphView, id: i64) -> int {
    last_where(g.amounts, amount_has_id(id))
}

/// The copy of amount row `id` planned on top of `st`, and the step that
/// copies it: a row already copied is not copied again; otherwise its left
/// operand, then its right one, are copied first, then the row itself.
pub open spec fn plan_amount(
    g: GraphView,
    st: PlanView,
    id: i64,
    fuel: nat,
    accounts: Map<i64, i64>,
    assets: Map<i64, i64>,
) -> Result<(PlanView, int), CopyFault>
    decreases fuel,
{
    if st.amounts.contains_key(id) {
        Ok((st, st.amounts[id] as int))
    } else if fuel == 0 {
        Err(CopyFault::Cyclic("transfer amount"@))
    } else {
        let k = amount_at(g, id);
        if k < 0 {
            Err(CopyFault::Missing("transfer amount"@, id))
        } else {
            let row = g.amounts[k];
            let left: Result<(PlanView, Option<int>), CopyFault> = match row.5 {
                None => Ok((st, None)),
                Some(l) => match plan_amount(g, st, l, (fuel - 1) as nat, accounts, assets) {
                    Ok((s, i)) => Ok((s, Some(i))),
                    Err(f) => Err(f),
                },
            };
            match left {
                Err(f) => Err(f),
                Ok((s2, li)) => {
                    let right: Result<(PlanView, Option<int>), CopyFault> = match row.6 {
                        None => Ok((s2, None)),
                        Some(r) => match plan_amount(g, s2, r, (fuel - 1) as nat, accounts, assets) {
                            Ok((s, i)) => Ok((s, Some(i))),
                            Err(f) => Err(f),
                        },
                    };
                    match right {
                        Err(f) => Err(f),
                        Ok((s3, ri)) => match amount_copy_fault(row, accounts, assets) {
                            Some((w, x)) => Err(CopyFault::Dangling(w, x)),
                            None => if s3.steps.len() >= i64::MAX {
                                Err(CopyFault::TooMany)
                            } else {
                                let idx = s3.steps.len() as int;
                                Ok(
                                    (
                                        PlanView {
                                            steps: s3.steps.push(
                                                StepView::Amount(
                                                    copied_amount(row, 0, None, None, accounts, assets),
                                                    li,
                                                    ri,
                                                ),
                                            ),
                                            amounts: s3.amounts.insert(id, idx as i64),
                                            ..s3
                                        },
                                        idx,
                                    ),
                                )
                            },
                        },
                    }
                },
            }
        }
    }
}

/// Every step a memo names is one already planned.
pub open spec fn memo_ok(st: PlanView) -> bool {
    &&& forall|k: i64| #[trigger] st.amounts.contains_key(k) ==> 0 <= st.amounts[k] < st.steps.len()
    &&& forall|k: i64| #[trigger] st.effects.contains_key(k) ==> 0 <= st.effects[k] < st.steps.len()
    &&& forall|k: i64| #[trigger] st.triggers.contains_key(k) ==> 0 <= st.triggers[k] < st.steps.len()
}

/// A reference names a step before step `k`, or nothing.
pub open spec fn ref_below(o: Option<int>, k: int) -> bool {
    match o {
        Some(x) => 0 <= x < k,
        None => true,
    }
}

/// Every reference of a step names a step before `k`.
pub open spec fn refs_before(s: StepView, k: int) -> bool {
    match s {
        StepView::Amount(_, l, r) => ref_below(l, k) && ref_below(r, k),
        StepView::Trigger(_, a, b, c) => ref_below(a, k) && ref_below(b, k) && ref_below(c, k),
        StepView::Effect(_, p, a, d) => ref_below(p, k) && ref_below(a, k) && ref_below(d, k),
        StepView::Source(_, e) => 0 <= e < k,
        StepView::Item(_, e) => 0 <= e < k,
    }
}

/// Every step names only steps before it.
pub open spec fn refs_ok(steps: Seq<StepView>) -> bool {
    forall|k: int| 0 <= k < steps.len() ==> refs_before(#[trigger] steps[k], k)
}

/// A plan whose memos name planned steps and whose steps name only earlier
/// ones.
pub open spec fn plan_ok(st: PlanView) -> bool {
    memo_ok(st) && refs_ok(st.steps)
}

proof fn lemma_push_refs(steps: Seq<StepView>, s: StepView)
    requires
        refs_ok(steps),
        refs_before(s, steps.len() as int),
    ensures
        refs_ok(steps.push(s)),
{
    assert forall|k: int| 0 <= k < steps.push(s).len() implies refs_before(#[trigger] steps.push(s)[k], k) by {
        if k < steps.len() {
            assert(steps.push(s)[k] == steps[k]);
        }
    }
}

proof fn lemma_ref_widen(o: Option<int>, k: int, m: int)
    requires
        ref_below(o, k),
        k <= m,
    ensures
        ref_below(o, m),
{
}

/// `after` keeps the steps of `before` and adds more.
pub open spec fn extends(before: PlanView, after: PlanView) -> bool {
    &&& before.steps.len() <= after.steps.len()
    &&& after.steps.subrange(0, before.steps.len() as int) == before.steps
}

proof fn lemma_extends_trans(a: PlanView, b: PlanView, c: PlanView)
    requires
        extends(a, b),
        extends(b, c),
    ensures
        extends(a, c),
{
    assert(c.steps.subrange(0, a.steps.len() as int) =~= a.steps) by {
        assert forall|i: int| 0 <= i < a.steps.len() implies c.steps.subrange(0, a.steps.len() as int)[i]
            == a.steps[i] by {
            assert(c.steps.subrange(0, b.steps.len() as int)[i] == b.steps[i]);
            assert(b.steps.subrange(0, a.steps.len() as int)[i] == a.steps[i]);
        }
    }
}

proof fn lemma_extends_refl(a: PlanView)
    ensures
        extends(a, a),
{
    assert(a.steps.subrange(0, a.steps.len() as int) =~= a.steps);
}

/// Planning an amount only adds steps, and hands back a planned step.
proof fn lemma_plan_amount(
    g: GraphView,
    st: PlanView,
    id: i64,
    fuel: nat,
    accounts: Map<i64, i64>,
    assets: Map<i64, i64>,
)
    requires
        plan_ok(st),
    ensures
        plan_amount(g, st, id, fuel, accounts, assets) matches Ok((st2, idx)) ==> {
            &&& plan_ok(st2)
            &&& extends(st, st2)
            &&& 0 <= idx < st2.steps.len()
            &&& st2.effects == st.effects
            &&& st2.triggers == st.triggers
        },
    decreases fuel,
{
    lemma_extends_refl(st);
    if !st.amounts.contains_key(id) && fuel > 0 {
        let k = amount_at(g, id);
        if k >= 0 {
            let row = g.amounts[k];
            let f1 = (fuel - 1) as nat;
            let s2 = match row.5 {
                Some(l) => {
                    lemma_plan_amount(g, st, l, f1, accounts, assets);
                    match plan_amount(g, st, l, f1, accounts, assets) {
                        Ok((s, _)) => s,
                        Err(_) => st,
                    }
                },
                None => st,
            };
            let s3 = match row.6 {
                Some(r) => {
                    lemma_plan_amount(g, s2, r, f1, accounts, assets);
                    match plan_amount(g, s2, r, f1, accounts, assets) {
                        Ok((s, _)) => s,
                        Err(_) => s2,
                    }
                },
                None => s2,
            };
            lemma_extends_refl(s2);
            lemma_extends_refl(s3);
            match plan_amount(g, st, id, fuel, accounts, assets) {
                Ok((st2, idx)) => {
                    lemma_extends_trans(st, s2, s3);
                    let li: Option<int> = match row.5 {
                        Some(l) => Some(plan_amount(g, st, l, f1, accounts, assets)->Ok_0.1),
                        None => None,
                    };
                    let ri: Option<int> = match row.6 {
                        Some(r) => Some(plan_amount(g, s2, r, f1, accounts, assets)->Ok_0.1),
                        None => None,
                    };
                    lemma_ref_widen(li, s2.steps.len() as int, s3.steps.len() as int);
                    lemma_push_refs(
                        s3.steps,
                        StepView::Amount(copied_amount(row, 0, None, None, accounts, assets), li, ri),
                    );
                    assert(extends(s3, st2)) by {
                        assert(st2.steps.subrange(0, s3.steps.len() as int) =~= s3.steps);
                    }
                    lemma_extends_trans(st, s3, st2);
                },
                Err(_) => {},
            }
        }
    }
}

/// Whether an effect row has this id.
pub open spec fn effect_has_id(id: i64) -> spec_fn(EffectRowView) -> bool {
    |r: EffectRowView| r.id == id
}

/// The effect row a keyed table of effects keeps for `id`.
pub open spec fn effect_at(g: GraphView, id: i64) -> int {
    last_where(g.effects, effect_has_id(id))
}

/// Whether an effect row hangs in a slot of a parent.
pub open spec fn hangs_under(parent: i64, slot: Seq<char>) -> spec_fn(EffectRowView) -> bool {
    |r: EffectRowView| r.parent_id == Some(parent) && r.parent_slot == Some(slot)
}

/// The effect row a keyed table of branches keeps for a parent's slot.
pub open spec fn child_at(g: GraphView, parent: i64, slot: Seq<char>) -> int {
    last_where(g.effects, hangs_under(parent, slot))
}

/// Whether a source row belongs to an effect.
pub open spec fn source_for(effect: i64) -> spec_fn(SourceRowView) -> bool {
    |r: SourceRowView| r.0 == effect
}

/// The source row a keyed table of sources keeps for an effect.
pub open spec fn source_at(g: GraphView, effect: i64) -> int {
    last_where(g.sources, source_for(effect))
}

/// The first reference of a source row without a copy.
pub open spec fn source_copy_fault(v: SourceRowView, accounts: Map<i64, i64>, assets: Map<i64, i64>) -> Option<
    (Seq<char>, i64),
> {
    if !covered(accounts, v.2) {
        Some(("account"@, v.2->0))
    } else if !covered(assets, v.3) {
        Some(("asset"@, v.3->0))
    } else {
        None
    }
}

/// The first reference of an item row without a copy.
pub open spec fn item_copy_fault(v: ItemRowView, accounts: Map<i64, i64>, assets: Map<i64, i64>) -> Option<
    (Seq<char>, i64),
> {
    if !accounts.contains_key(v.3) {
        Some(("account"@, v.3))
    } else if !covered(assets, v.4) {
        Some(("asset"@, v.4->0))
    } else {
        None
    }
}

/// The first `n` of an effect's item rows planned after `st`, each hanging
/// on the effect's step.
pub open spec fn plan_items(
    items: Seq<ItemRowView>,
    st: PlanView,
    effect: int,
    accounts: Map<i64, i64>,
    assets: Map<i64, i64>,
    n: nat,
) -> Result<PlanView, CopyFault>
    decreases n,
{
    if n == 0 {
        Ok(st)
    } else {
        match plan_items(items, st, effect, accounts, assets, (n - 1) as nat) {
            Err(f) => Err(f),
            Ok(s) => {
                let v = items[n - 1];
                match item_copy_fault(v, accounts, assets) {
                    Some((w, x)) => Err(CopyFault::Dangling(w, x)),
                    None => Ok(
                        PlanView {
                            steps: s.steps.push(
                                StepView::Item((0i64, v.1, v.2, accounts[v.3], image(assets, v.4)), effect),
                            ),
                            ..s
                        },
                    ),
                }
            },
        }
    }
}

/// Plan an optional amount.
pub open spec fn plan_opt_amount(
    g: GraphView,
    st: PlanView,
    id: Option<i64>,
    fuel: nat,
    accounts: Map<i64, i64>,
    assets: Map<i64, i64>,
) -> Result<(PlanView, Option<int>), CopyFault> {
    match id {
        None => Ok((st, None)),
        Some(a) => match plan_amount(g, st, a, fuel, accounts, assets) {
            Ok((s, i)) => Ok((s, Some(i))),
            Err(f) => Err(f),
        },
    }
}

/// The copy of effect row `id` planned on top of `st`, and the step that
/// copies it: its amount, then its down payment; the step of its parent,
/// which must be copied already; the row; its withdrawal source and items;
/// then its true branch and its false one.
pub open spec fn plan_effect(
    g: GraphView,
    st: PlanView,
    id: i64,
    efuel: nat,
    afuel: nat,
    accounts: Map<i64, i64>,
    assets: Map<i64, i64>,
    events: Map<i64, i64>,
) -> Result<(PlanView, int), CopyFault>
    decreases efuel,
{
    if efuel == 0 {
        Err(CopyFault::Cyclic("effect"@))
    } else {
        let k = effect_at(g, id);
        if k < 0 {
            Err(CopyFault::Missing("effect"@, id))
        } else {
            let row = g.effects[k];
            match plan_opt_amount(g, st, row.amount_id, afuel, accounts, assets) {
                Err(f) => Err(f),
                Ok((s1, ai)) => match plan_opt_amount(g, s1, row.down_payment_amount_id, afuel, accounts, assets) {
                    Err(f) => Err(f),
                    Ok((s2, di)) => {
                        let parent: Result<Option<int>, CopyFault> = match row.parent_id {
                            None => Ok(None),
                            Some(p) => if s2.effects.contains_key(p) {
                                Ok(Some(s2.effects[p] as int))
                            } else {
                                Err(CopyFault::ParentNotCopied)
                            },
                        };
                        match parent {
                            Err(f) => Err(f),
                            Ok(pi) => match effect_copy_fault(row, accounts, assets, events) {
                                Some((w, x)) => Err(CopyFault::Dangling(w, x)),
                                None => if s2.steps.len() >= i64::MAX {
                                    Err(CopyFault::TooMany)
                                } else {
                                    let idx = s2.steps.len() as int;
                                    let s3 = PlanView {
                                        steps: s2.steps.push(
                                            StepView::Effect(
                                                copied_effect(row, 0, None, None, None, accounts, assets, events),
                                                pi,
                                                ai,
                                                di,
                                            ),
                                        ),
                                        effects: s2.effects.insert(id, idx as i64),
                                        ..s2
                                    };
                                    let si = source_at(g, id);
                                    let s4: Result<PlanView, CopyFault> = if si < 0 {
                                        Ok(s3)
                                    } else {
                                        let v = g.sources[si];
                                        match source_copy_fault(v, accounts, assets) {
                                            Some((w, x)) => Err(CopyFault::Dangling(w, x)),
                                            None => Ok(
                                                PlanView {
                                                    steps: s3.steps.push(
                                                        StepView::Source(
                                                            (0i64, v.1, image(accounts, v.2), image(assets, v.3), v.4),
                                                            idx,
                                                        ),
                                                    ),
                                                    ..s3
                                                },
                                            ),
                                        }
                                    };
                                    match s4 {
                                        Err(f) => Err(f),
                                        Ok(s4) => {
                                            let its = items_of(g.items, id);
                                            match plan_items(its, s4, idx, accounts, assets, its.len()) {
                                                Err(f) => Err(f),
                                                Ok(s5) => {
                                                    let t = child_at(g, id, "on_true"@);
                                                    let s6: Result<PlanView, CopyFault> = if t < 0 {
                                                        Ok(s5)
                                                    } else {
                                                        match plan_effect(
                                                            g,
                                                            s5,
                                                            g.effects[t].id,
                                                            (efuel - 1) as nat,
                                                            afuel,
                                                            accounts,
                                                            assets,
                                                            events,
                                                        ) {
                                                            Ok((s, _)) => Ok(s),
                                                            Err(f) => Err(f),
                                                        }
                                                    };
                                                    match s6 {
                                                        Err(f) => Err(f),
                                                        Ok(s6) => {
                                                            let fi = child_at(g, id, "on_false"@);
                                                            if fi < 0 {
                                                                Ok((s6, idx))
                                                            } else {
                                                                match plan_effect(
                                                                    g,
                                                                    s6,
                                                                    g.effects[fi].id,
                                                                    (efuel - 1) as nat,
                                                                    afuel,
                                                                    accounts,
                                                                    assets,
                                                                    events,
                                                                ) {
                                                                    Ok((s, _)) => Ok((s, idx)),
                                                                    Err(f) => Err(f),
                                                                }
                                                            }
                                                        },
                                                    }
                                                },
                                            }
                                        },
                                    }
                                },
                            },
                        }
                    },
                },
            }
        }
    }
}

proof fn lemma_plan_items(
    items: Seq<ItemRowView>,
    st: PlanView,
    effect: int,
    accounts: Map<i64, i64>,
    assets: Map<i64, i64>,
    n: nat,
)
    requires
        plan_ok(st),
        0 <= effect < st.steps.len(),
    ensures
        plan_items(items, st, effect, accounts, assets, n) matches Ok(s) ==> {
            &&& plan_ok(s)
            &&& extends(st, s)
            &&& s.amounts == st.amounts
            &&& s.effects == st.effects
            &&& s.triggers == st.triggers
        },
    decreases n,
{
    lemma_extends_refl(st);
    if n > 0 {
        lemma_plan_items(items, st, effect, accounts, assets, (n - 1) as nat);
        match plan_items(items, st, effect, accounts, assets, (n - 1) as nat) {
            Ok(s) => match plan_items(items, st, effect, accounts, assets, n) {
                Ok(s2) => {
                    let v = items[n - 1];
                    lemma_push_refs(
                        s.steps,
                        StepView::Item((0i64, v.1, v.2, accounts[v.3], image(assets, v.4)), effect),
                    );
                    assert(extends(s, s2)) by {
                        assert(s2.steps.subrange(0, s.steps.len() as int) =~= s.steps);
                    }
                    lemma_extends_trans(st, s, s2);
                },
                Err(_) => {},
            },
            Err(_) => {},
        }
    }
}

proof fn lemma_items_stop(
    items: Seq<ItemRowView>,
    st: PlanView,
    effect: int,
    accounts: Map<i64, i64>,
    assets: Map<i64, i64>,
    n: nat,
    m: nat,
)
    requires
        n <= m,
        plan_items(items, st, effect, accounts, assets, n) is Err,
    ensures
        plan_items(items, st, effect, accounts, assets, m) == plan_items(items, st, effect, accounts, assets, n),
    decreases m - n,
{
    if n < m {
        lemma_items_stop(items, st, effect, accounts, assets, n, (m - 1) as nat);
    }
}

proof fn lemma_plan_opt_amount(
    g: GraphView,
    st: PlanView,
    id: Option<i64>,
    fuel: nat,
    accounts: Map<i64, i64>,
    assets: Map<i64, i64>,
)
    requires
        plan_ok(st),
    ensures
        plan_opt_amount(g, st, id, fuel, accounts, assets) matches Ok((st2, i)) ==> {
            &&& plan_ok(st2)
            &&& extends(st, st2)
            &&& (i matches Some(x) ==> 0 <= x < st2.steps.len())
            &&& st2.effects == st.effects
            &&& st2.triggers == st.triggers
        },
{
    lemma_extends_refl(st);
    match id {
        Some(a) => lemma_plan_amount(g, st, a, fuel, accounts, assets),
        None => {},
    }
}

/// Planning an effect only adds steps, and hands back a planned step.
#[verifier::rlimit(40)]
proof fn lemma_plan_effect(
    g: GraphView,
    st: PlanView,
    id: i64,
    efuel: nat,
    afuel: nat,
    accounts: Map<i64, i64>,
    assets: Map<i64, i64>,
    events: Map<i64, i64>,
)
    requires
        plan_ok(st),
    ensures
        plan_effect(g, st, id, efuel, afuel, accounts, assets, events) matches Ok((st2, idx)) ==> {
            &&& plan_ok(st2)
            &&& extends(st, st2)
            &&& 0 <= idx < st2.steps.len()
            &&& st2.triggers == st.triggers
        },
    decreases efuel,
{
    if efuel > 0 {
        let k = effect_at(g, id);
        if k >= 0 {
            let row = g.effects[k];
            lemma_plan_opt_amount(g, st, row.amount_id, afuel, accounts, assets);
            match plan_opt_amount(g, st, row.amount_id, afuel, accounts, assets) {
                Ok((s1, ai)) => {
                    lemma_plan_opt_amount(g, s1, row.down_payment_amount_id, afuel, accounts, assets);
                    match plan_opt_amount(g, s1, row.down_payment_amount_id, afuel, accounts, assets) {
                        Ok((s2, di)) => {
                            lemma_extends_trans(st, s1, s2);
                            if s2.steps.len() < i64::MAX && effect_copy_fault(row, accounts, assets, events) is None
                                && (row.parent_id matches Some(p) ==> s2.effects.contains_key(p)) {
                                let idx = s2.steps.len() as int;
                                let pi: Option<int> = match row.parent_id {
                                    Some(p) => Some(s2.effects[p] as int),
                                    None => None,
                                };
                                let s3 = PlanView {
                                    steps: s2.steps.push(
                                        StepView::Effect(
                                            copied_effect(row, 0, None, None, None, accounts, assets, events),
                                            pi,
                                            ai,
                                            di,
                                        ),
                                    ),
                                    effects: s2.effects.insert(id, idx as i64),
                                    ..s2
                                };
                                lemma_ref_widen(ai, s1.steps.len() as int, s2.steps.len() as int);
                                lemma_push_refs(
                                    s2.steps,
                                    StepView::Effect(
                                        copied_effect(row, 0, None, None, None, accounts, assets, events),
                                        pi,
                                        ai,
                                        di,
                                    ),
                                );
                                assert(plan_ok(s3));
                                assert(extends(s2, s3)) by {
                                    assert(s3.steps.subrange(0, s2.steps.len() as int) =~= s2.steps);
                                }
                                lemma_extends_trans(st, s2, s3);
                                let si = source_at(g, id);
                                let s4 = if si < 0 {
                                    s3
                                } else {
                                    let v = g.sources[si];
                                    PlanView {
                                        steps: s3.steps.push(
                                            StepView::Source(
                                                (0i64, v.1, image(accounts, v.2), image(assets, v.3), v.4),
                                                idx,
                                            ),
                                        ),
                                        ..s3
                                    }
                                };
                                if si >= 0 {
                                    let v = g.sources[si];
                                    lemma_push_refs(
                                        s3.steps,
                                        StepView::Source(
                                            (0i64, v.1, image(accounts, v.2), image(assets, v.3), v.4),
                                            idx,
                                        ),
                                    );
                                }
                                assert(plan_ok(s4));
                                assert(extends(s3, s4)) by {
                                    assert(s4.steps.subrange(0, s3.steps.len() as int) =~= s3.steps);
                                }
                                lemma_extends_trans(st, s3, s4);
                                let its = items_of(g.items, id);
                                lemma_plan_items(its, s4, idx, accounts, assets, its.len());
                                match plan_items(its, s4, idx, accounts, assets, its.len()) {
                                    Ok(s5) => {
                                        lemma_extends_trans(st, s4, s5);
                                        let t = child_at(g, id, "on_true"@);
                                        let s6 = if t < 0 {
                                            s5
                                        } else {
                                            lemma_plan_effect(
                                                g,
                                                s5,
                                                g.effects[t].id,
                                                (efuel - 1) as nat,
                                                afuel,
                                                accounts,
                                                assets,
                                                events,
                                            );
                                            match plan_effect(
                                                g,
                                                s5,
                                                g.effects[t].id,
                                                (efuel - 1) as nat,
                                                afuel,
                                                accounts,
                                                assets,
                                                events,
                                            ) {
                                                Ok((s, _)) => s,
                                                Err(_) => s5,
                                            }
                                        };
                                        lemma_extends_refl(s5);
                                        lemma_extends_trans(st, s5, s6);
                                        let fi = child_at(g, id, "on_false"@);
                                        if fi >= 0 {
                                            lemma_plan_effect(
                                                g,
                                                s6,
                                                g.effects[fi].id,
                                                (efuel - 1) as nat,
                                                afuel,
                                                accounts,
                                                assets,
                                                events,
                                            );
                                            match plan_effect(
                                                g,
                                                s6,
                                                g.effects[fi].id,
                                                (efuel - 1) as nat,
                                                afuel,
                                                accounts,
                                                assets,
                                                events,
                                            ) {
                                                Ok((s7, _)) => lemma_extends_trans(st, s6, s7),
                                                Err(_) => {},
                                            }
                                        }
                                    },
                                    Err(_) => {},
                                }
                            }
                        },
                        Err(_) => {},
                    }
                },
                Err(_) => {},
            }
        }
    }
}

/// Whether a trigger row has this id.
pub open spec fn trigger_has_id(id: i64) -> spec_fn(TriggerRowView) -> bool {
    |r: TriggerRowView| r.id == id
}

/// The trigger row a keyed table of triggers keeps for `id`.
pub open spec fn trigger_at(g: GraphView, id: i64) -> int {
    last_where(g.triggers, trigger_has_id(id))
}

/// The ids of the rows under a parent, in the order given.
pub open spec fn children_ids(rows: Seq<TriggerRowView>, parent: i64) -> Seq<i64>
    decreases rows.len(),
{
    if rows.len() == 0 {
        Seq::empty()
    } else {
        let before = children_ids(rows.drop_last(), parent);
        if rows.last().parent_id == Some(parent) {
            before.push(rows.last().id)
        } else {
            before
        }
    }
}

/// The copy of trigger row `id` planned on top of `st`, and the step that
/// copies it: a row already copied is not copied again; otherwise its start
/// condition, its end condition and its parent are copied first, then the
/// row, then the rows under it in order.
pub open spec fn plan_trigger(
    g: GraphView,
    st: PlanView,
    id: i64,
    fuel: nat,
    events: Map<i64, i64>,
    accounts: Map<i64, i64>,
    assets: Map<i64, i64>,
    parameters: Map<i64, i64>,
) -> Result<(PlanView, int), CopyFault>
    decreases fuel, 0nat,
{
    if st.triggers.contains_key(id) {
        Ok((st, st.triggers[id] as int))
    } else if fuel == 0 {
        Err(CopyFault::Cyclic("trigger"@))
    } else {
        let k = trigger_at(g, id);
        if k < 0 {
            Err(CopyFault::Missing("trigger"@, id))
        } else {
            let row = g.triggers[k];
            let f1 = (fuel - 1) as nat;
            match plan_opt_trigger(g, st, row.start_trigger_id, f1, events, accounts, assets, parameters) {
                Err(f) => Err(f),
                Ok((s1, si)) => match plan_opt_trigger(
                    g,
                    s1,
                    row.end_trigger_id,
                    f1,
                    events,
                    accounts,
                    assets,
                    parameters,
                ) {
                    Err(f) => Err(f),
                    Ok((s2, ei)) => match plan_opt_trigger(
                        g,
                        s2,
                        row.parent_id,
                        f1,
                        events,
                        accounts,
                        assets,
                        parameters,
                    ) {
                        Err(f) => Err(f),
                        Ok((s3, pi)) => match trigger_copy_fault(row, events, accounts, assets, parameters) {
                            Some((w, x)) => Err(CopyFault::Dangling(w, x)),
                            None => if s3.steps.len() >= i64::MAX {
                                Err(CopyFault::TooMany)
                            } else {
                                let idx = s3.steps.len() as int;
                                let s4 = PlanView {
                                    steps: s3.steps.push(
                                        StepView::Trigger(
                                            copied_trigger(
                                                row,
                                                0,
                                                None,
                                                None,
                                                None,
                                                events,
                                                accounts,
                                                assets,
                                                parameters,
                                            ),
                                            si,
                                            ei,
                                            pi,
                                        ),
                                    ),
                                    triggers: s3.triggers.insert(id, idx as i64),
                                    ..s3
                                };
                                let kids = children_ids(g.triggers, id);
                                match plan_children(g, s4, kids, kids.len(), f1, events, accounts, assets, parameters) {
                                    Err(f) => Err(f),
                                    Ok(s5) => Ok((s5, idx)),
                                }
                            },
                        },
                    },
                },
            }
        }
    }
}

/// Plan an optional trigger.
pub open spec fn plan_opt_trigger(
    g: GraphView,
    st: PlanView,
    id: Option<i64>,
    fuel: nat,
    events: Map<i64, i64>,
    accounts: Map<i64, i64>,
    assets: Map<i64, i64>,
    parameters: Map<i64, i64>,
) -> Result<(PlanView, Option<int>), CopyFault>
    decreases fuel, 1nat,
{
    match id {
        None => Ok((st, None)),
        Some(t) => match plan_trigger(g, st, t, fuel, events, accounts, assets, parameters) {
            Ok((s, i)) => Ok((s, Some(i))),
            Err(f) => Err(f),
        },
    }
}

/// The first `n` of a row's children planned in order after `st`.
pub open spec fn plan_children(
    g: GraphView,
    st: PlanView,
    kids: Seq<i64>,
    n: nat,
    fuel: nat,
    events: Map<i64, i64>,
    accounts: Map<i64, i64>,
    assets: Map<i64, i64>,
    parameters: Map<i64, i64>,
) -> Result<PlanView, CopyFault>
    decreases fuel, n,
{
    if n == 0 {
        Ok(st)
    } else {
        match plan_children(g, st, kids, (n - 1) as nat, fuel, events, accounts, assets, parameters) {
            Err(f) => Err(f),
            Ok(s) => match plan_trigger(g, s, kids[n - 1], fuel, events, accounts, assets, parameters) {
                Ok((s2, _)) => Ok(s2),
                Err(f) => Err(f),
            },
        }
    }
}

proof fn lemma_plan_trigger(
    g: GraphView,
    st: PlanView,
    id: i64,
    fuel: nat,
    events: Map<i64, i64>,
    accounts: Map<i64, i64>,
    assets: Map<i64, i64>,
    parameters: Map<i64, i64>,
)
    requires
        plan_ok(st),
    ensures
        plan_trigger(g, st, id, fuel, events, accounts, assets, parameters) matches Ok((st2, idx)) ==> {
            &&& plan_ok(st2)
            &&& extends(st, st2)
            &&& 0 <= idx < st2.steps.len()
        },
    decreases fuel, 0nat,
{
    lemma_extends_refl(st);
    if !st.triggers.contains_key(id) && fuel > 0 {
        let k = trigger_at(g, id);
        if k >= 0 {
            let row = g.triggers[k];
            let f1 = (fuel - 1) as nat;
            lemma_plan_opt_trigger(g, st, row.start_trigger_id, f1, events, accounts, assets, parameters);
            match plan_opt_trigger(g, st, row.start_trigger_id, f1, events, accounts, assets, parameters) {
                Ok((s1, si)) => {
                    lemma_plan_opt_trigger(g, s1, row.end_trigger_id, f1, events, accounts, assets, parameters);
                    match plan_opt_trigger(g, s1, row.end_trigger_id, f1, events, accounts, assets, parameters) {
                        Ok((s2, ei)) => {
                            lemma_extends_trans(st, s1, s2);
                            lemma_plan_opt_trigger(g, s2, row.parent_id, f1, events, accounts, assets, parameters);
                            match plan_opt_trigger(g, s2, row.parent_id, f1, events, accounts, assets, parameters) {
                                Ok((s3, pi)) => {
                                    lemma_extends_trans(st, s2, s3);
                                    if trigger_copy_fault(row, events, accounts, assets, parameters) is None
                                        && s3.steps.len() < i64::MAX {
                                        let idx = s3.steps.len() as int;
                                        let s4 = PlanView {
                                            steps: s3.steps.push(
                                                StepView::Trigger(
                                                    copied_trigger(
                                                        row,
                                                        0,
                                                        None,
                                                        None,
                                                        None,
                                                        events,
                                                        accounts,
                                                        assets,
                                                        parameters,
                                                    ),
                                                    si,
                                                    ei,
                                                    pi,
                                                ),
                                            ),
                                            triggers: s3.triggers.insert(id, idx as i64),
                                            ..s3
                                        };
                                        lemma_ref_widen(si, s1.steps.len() as int, s3.steps.len() as int);
                                        lemma_ref_widen(ei, s2.steps.len() as int, s3.steps.len() as int);
                                        lemma_push_refs(
                                            s3.steps,
                                            StepView::Trigger(
                                                copied_trigger(
                                                    row,
                                                    0,
                                                    None,
                                                    None,
                                                    None,
                                                    events,
                                                    accounts,
                                                    assets,
                                                    parameters,
                                                ),
                                                si,
                                                ei,
                                                pi,
                                            ),
                                        );
                                        assert(plan_ok(s4));
                                        assert(extends(s3, s4)) by {
                                            assert(s4.steps.subrange(0, s3.steps.len() as int) =~= s3.steps);
                                        }
                                        lemma_extends_trans(st, s3, s4);
                                        let kids = children_ids(g.triggers, id);
                                        lemma_plan_children(g, s4, kids, kids.len(), f1, events, accounts, assets, parameters);
                                        match plan_children(g, s4, kids, kids.len(), f1, events, accounts, assets, parameters) {
                                            Ok(s5) => lemma_extends_trans(st, s4, s5),
                                            Err(_) => {},
                                        }
                                    }
                                },
                                Err(_) => {},
                            }
                        },
                        Err(_) => {},
                    }
                },
                Err(_) => {},
            }
        }
    }
}

proof fn lemma_plan_opt_trigger(
    g: GraphView,
    st: PlanView,
    id: Option<i64>,
    fuel: nat,
    events: Map<i64, i64>,
    accounts: Map<i64, i64>,
    assets: Map<i64, i64>,
    parameters: Map<i64, i64>,
)
    requires
        plan_ok(st),
    ensures
        plan_opt_trigger(g, st, id, fuel, events, accounts, assets, parameters) matches Ok((st2, i)) ==> {
            &&& plan_ok(st2)
            &&& extends(st, st2)
            &&& (i matches Some(x) ==> 0 <= x < st2.steps.len())
        },
    decreases fuel, 1nat,
{
    lemma_extends_refl(st);
    match id {
        Some(t) => lemma_plan_trigger(g, st, t, fuel, events, accounts, assets, parameters),
        None => {},
    }
}

proof fn lemma_plan_children(
    g: GraphView,
    st: PlanView,
    kids: Seq<i64>,
    n: nat,
    fuel: nat,
    events: Map<i64, i64>,
    accounts: Map<i64, i64>,
    assets: Map<i64, i64>,
    parameters: Map<i64, i64>,
)
    requires
        plan_ok(st),
    ensures
        plan_children(g, st, kids, n, fuel, events, accounts, assets, parameters) matches Ok(st2) ==> {
            &&& plan_ok(st2)
            &&& extends(st, st2)
        },
    decreases fuel, n,
{
    lemma_extends_refl(st);
    if n > 0 {
        lemma_plan_children(g, st, kids, (n - 1) as nat, fuel, events, accounts, assets, parameters);
        match plan_children(g, st, kids, (n - 1) as nat, fuel, events, accounts, assets, parameters) {
            Ok(s) => {
                lemma_plan_trigger(g, s, kids[n - 1], fuel, events, accounts, assets, parameters);
                match plan_trigger(g, s, kids[n - 1], fuel, events, accounts, assets, parameters) {
                    Ok((s2, _)) => lemma_extends_trans(st, s, s2),
                    Err(_) => {},
                }
            },
            Err(_) => {},
        }
    }
}

proof fn lemma_children_stop(
    g: GraphView,
    st: PlanView,
    kids: Seq<i64>,
    n: nat,
    m: nat,
    fuel: nat,
    events: Map<i64, i64>,
    accounts: Map<i64, i64>,
    assets: Map<i64, i64>,
    parameters: Map<i64, i64>,
)
    requires
        n <= m,
        plan_children(g, st, kids, n, fuel, events, accounts, assets, parameters) is Err,
    ensures
        plan_children(g, st, kids, m, fuel, events, accounts, assets, parameters) == plan_children(
            g,
            st,
            kids,
            n,
            fuel,
            events,
            accounts,
            assets,
            parameters,
        ),
    decreases m - n,
{
    if n < m {
        lemma_children_stop(g, st, kids, n, (m - 1) as nat, fuel, events, accounts, assets, parameters);
    }
}

/// Whether a trigger row is an event's root.
pub open spec fn roots_event(e: i64) -> spec_fn(TriggerRowView) -> bool {
    |r: TriggerRowView| r.event_id == Some(e)
}

/// The trigger row a keyed table of event roots keeps for an event.
pub open spec fn event_root(g: GraphView, e: i64) -> int {
    last_where(g.triggers, roots_event(e))
}

/// The ids of an event's own effects, in the order given.
pub open spec fn event_effect_ids(rows: Seq<EffectRowView>, e: i64) -> Seq<i64>
    decreases rows.len(),
{
    if rows.len() == 0 {
        Seq::empty()
    } else {
        let before = event_effect_ids(rows.drop_last(), e);
        if rows.last().event_id == Some(e) {
            before.push(rows.last().id)
        } else {
            before
        }
    }
}

/// How deep a copy may nest: twice the trigger rows (a row can be reached
/// again through its parent before it is copied), and once the effect and
/// amount rows, each with one to spare.
pub open spec fn nesting_limit(n: nat) -> nat {
    if n >= 0x3FFF_FFFF_FFFF_FFFF {
        0xFFFF_FFFF_FFFF_FFFF
    } else {
        2 * n + 2
    }
}

pub open spec fn depth_limit(n: nat) -> nat {
    if n >= 0xFFFF_FFFF_FFFF_FFFF {
        0xFFFF_FFFF_FFFF_FFFF
    } else {
        n + 1
    }
}

/// The first `n` of a list of effects planned in order after `st`.
pub open spec fn plan_effect_list(
    g: GraphView,
    st: PlanView,
    ids: Seq<i64>,
    n: nat,
    efuel: nat,
    afuel: nat,
    accounts: Map<i64, i64>,
    assets: Map<i64, i64>,
    events: Map<i64, i64>,
) -> Result<PlanView, CopyFault>
    decreases n,
{
    if n == 0 {
        Ok(st)
    } else {
        match plan_effect_list(g, st, ids, (n - 1) as nat, efuel, afuel, accounts, assets, events) {
            Err(f) => Err(f),
            Ok(s) => match plan_effect(g, s, ids[n - 1], efuel, afuel, accounts, assets, events) {
                Ok((s2, _)) => Ok(s2),
                Err(f) => Err(f),
            },
        }
    }
}

/// An event's copies planned after `st`: its root trigger, then its own
/// effects in order.
pub open spec fn plan_event(
    g: GraphView,
    st: PlanView,
    e: i64,
    events: Map<i64, i64>,
    accounts: Map<i64, i64>,
    assets: Map<i64, i64>,
    parameters: Map<i64, i64>,
) -> Result<PlanView, CopyFault> {
    let r = event_root(g, e);
    let s1: Result<PlanView, CopyFault> = if r < 0 {
        Ok(st)
    } else {
        match plan_trigger(
            g,
            st,
            g.triggers[r].id,
            nesting_limit(g.triggers.len()),
            events,
            accounts,
            assets,
            parameters,
        ) {
            Ok((s, _)) => Ok(s),
            Err(f) => Err(f),
        }
    };
    match s1 {
        Err(f) => Err(f),
        Ok(s1) => {
            let ids = event_effect_ids(g.effects, e);
            plan_effect_list(
                g,
                s1,
                ids,
                ids.len(),
                depth_limit(g.effects.len()),
                depth_limit(g.amounts.len()),
                accounts,
                assets,
                events,
            )
        },
    }
}

/// The first `n` events' copies planned in order after `st`.
pub open spec fn plan_events(
    g: GraphView,
    st: PlanView,
    evs: Seq<i64>,
    n: nat,
    events: Map<i64, i64>,
    accounts: Map<i64, i64>,
    assets: Map<i64, i64>,
    parameters: Map<i64, i64>,
) -> Result<PlanView, CopyFault>
    decreases n,
{
    if n == 0 {
        Ok(st)
    } else {
        match plan_events(g, st, evs, (n - 1) as nat, events, accounts, assets, parameters) {
            Err(f) => Err(f),
            Ok(s) => plan_event(g, s, evs[n - 1], events, accounts, assets, parameters),
        }
    }
}

pub open spec fn empty_plan() -> PlanView {
    PlanView {
        steps: Seq::empty(),
        amounts: Map::empty(),
        effects: Map::empty(),
        triggers: Map::empty(),
    }
}

/// The whole copy of the events `evs`, in order, with the copies of the
/// scenario's other rows (events, accounts, assets, parameters) already
/// known; a row reached again reuses its first copy where the original
/// does (amounts and triggers).
pub open spec fn planned_copy(
    g: GraphView,
    evs: Seq<i64>,
    events: Map<i64, i64>,
    accounts: Map<i64, i64>,
    assets: Map<i64, i64>,
    parameters: Map<i64, i64>,
) -> Result<PlanView, CopyFault> {
    plan_events(g, empty_plan(), evs, evs.len(), events, accounts, assets, parameters)
}

proof fn lemma_plan_effect_list(
    g: GraphView,
    st: PlanView,
    ids: Seq<i64>,
    n: nat,
    efuel: nat,
    afuel: nat,
    accounts: Map<i64, i64>,
    assets: Map<i64, i64>,
    events: Map<i64, i64>,
)
    requires
        plan_ok(st),
    ensures
        plan_effect_list(g, st, ids, n, efuel, afuel, accounts, assets, events) matches Ok(s) ==> plan_ok(s),
    decreases n,
{
    if n > 0 {
        lemma_plan_effect_list(g, st, ids, (n - 1) as nat, efuel, afuel, accounts, assets, events);
        match plan_effect_list(g, st, ids, (n - 1) as nat, efuel, afuel, accounts, assets, events) {
            Ok(s) => lemma_plan_effect(g, s, ids[n - 1], efuel, afuel, accounts, assets, events),
            Err(_) => {},
        }
    }
}

proof fn lemma_plan_event(
    g: GraphView,
    st: PlanView,
    e: i64,
    events: Map<i64, i64>,
    accounts: Map<i64, i64>,
    assets: Map<i64, i64>,
    parameters: Map<i64, i64>,
)
    requires
        plan_ok(st),
    ensures
        plan_event(g, st, e, events, accounts, assets, parameters) matches Ok(s) ==> plan_ok(s),
{
    let r = event_root(g, e);
    let s1 = if r < 0 {
        st
    } else {
        lemma_plan_trigger(
            g,
            st,
            g.triggers[r].id,
            nesting_limit(g.triggers.len()),
            events,
            accounts,
            assets,
            parameters,
        );
        match plan_trigger(
            g,
            st,
            g.triggers[r].id,
            nesting_limit(g.triggers.len()),
            events,
            accounts,
            assets,
            parameters,
        ) {
            Ok((s, _)) => s,
            Err(_) => st,
        }
    };
    let ids = event_effect_ids(g.effects, e);
    lemma_plan_effect_list(
        g,
        s1,
        ids,
        ids.len(),
        depth_limit(g.effects.len()),
        depth_limit(g.amounts.len()),
        accounts,
        assets,
        events,
    );
}

proof fn lemma_plan_events(
    g: GraphView,
    st: PlanView,
    evs: Seq<i64>,
    n: nat,
    events: Map<i64, i64>,
    accounts: Map<i64, i64>,
    assets: Map<i64, i64>,
    parameters: Map<i64, i64>,
)
    requires
        plan_ok(st),
    ensures
        plan_events(g, st, evs, n, events, accounts, assets, parameters) matches Ok(s) ==> plan_ok(s),
    decreases n,
{
    if n > 0 {
        lemma_plan_events(g, st, evs, (n - 1) as nat, events, accounts, assets, parameters);
        match plan_events(g, st, evs, (n - 1) as nat, events, accounts, assets, parameters) {
            Ok(s) => lemma_plan_event(g, s, evs[n - 1], events, accounts, assets, parameters),
            Err(_) => {},
        }
    }
}

proof fn lemma_effect_list_stop(
    g: GraphView,
    st: PlanView,
    ids: Seq<i64>,
    n: nat,
    m: nat,
    efuel: nat,
    afuel: nat,
    accounts: Map<i64, i64>,
    assets: Map<i64, i64>,
    events: Map<i64, i64>,
)
    requires
        n <= m,
        plan_effect_list(g, st, ids, n, efuel, afuel, accounts, assets, events) is Err,
    ensures
        plan_effect_list(g, st, ids, m, efuel, afuel, accounts, assets, events) == plan_effect_list(
            g,
            st,
            ids,
            n,
            efuel,
            afuel,
            accounts,
            assets,
            events,
        ),
    decreases m - n,
{
    if n < m {
        lemma_effect_list_stop(g, st, ids, n, (m - 1) as nat, efuel, afuel, accounts, assets, events);
    }
}

proof fn lemma_events_stop(
    g: GraphView,
    st: PlanView,
    evs: Seq<i64>,
    n: nat,
    m: nat,
    events: Map<i64, i64>,
    accounts: Map<i64, i64>,
    assets: Map<i64, i64>,
    parameters: Map<i64, i64>,
)
    requires
        n <= m,
        plan_events(g, st, evs, n, events, accounts, assets, parameters) is Err,
    ensures
        plan_events(g, st, evs, m, events, accounts, assets, parameters) == plan_events(
            g,
            st,
            evs,
            n,
            events,
            accounts,
            assets,
            parameters,
        ),
    decreases m - n,
{
    if n < m {
        lemma_events_stop(g, st, evs, n, (m - 1) as nat, events, accounts, assets, parameters);
    }
}

/// A planned copy can be inserted step by step: every step names only
/// steps before it, so each reference's new id is known when its row is
/// inserted; and each row the plan notes as copied is copied by one of its
/// steps.
pub proof fn copies_refer_back(
    g: GraphView,
    evs: Seq<i64>,
    events: Map<i64, i64>,
    accounts: Map<i64, i64>,
    assets: Map<i64, i64>,
    parameters: Map<i64, i64>,
)
    requires
        planned_copy(g, evs, events, accounts, assets, parameters) is Ok,
    ensures
        ({
            let st = planned_copy(g, evs, events, accounts, assets, parameters)->Ok_0;
            &&& forall|k: int| 0 <= k < st.steps.len() ==> refs_before(#[trigger] st.steps[k], k)
            &&& forall|id: i64| #[trigger] st.amounts.contains_key(id) ==> 0 <= st.amounts[id] < st.steps.len()
            &&& forall|id: i64| #[trigger] st.effects.contains_key(id) ==> 0 <= st.effects[id] < st.steps.len()
            &&& forall|id: i64| #[trigger] st.triggers.contains_key(id) ==> 0 <= st.triggers[id] < st.steps.len()
        }),
{
    assert(plan_ok(empty_plan()));
    lemma_plan_events(g, empty_plan(), evs, evs.len(), events, accounts, assets, parameters);
}

/// One planned insert: the copied row, with the columns that name another
/// copied row left for the step it names.
pub enum CopyStep {
    Amount { row: TransferAmountRow, left: Option<usize>, right: Option<usize> },
    Trigger { row: TriggerRow, start: Option<usize>, end: Option<usize>, parent: Option<usize> },
    Effect { row: EffectRow, parent: Option<usize>, amount: Option<usize>, down_payment: Option<usize> },
    Source { row: WithdrawalSourceRow, effect: usize },
    Item { row: WithdrawalItemRow, effect: usize },
}

pub open spec fn opt_index(o: Option<usize>) -> Option<int> {
    match o {
        Some(x) => Some(x as int),
        None => None,
    }
}

pub open spec fn step_view(s: CopyStep) -> StepView {
    match s {
        CopyStep::Amount { row, left, right } => StepView::Amount(
            amount_row_view(row),
            opt_index(left),
            opt_index(right),
        ),
        CopyStep::Trigger { row, start, end, parent } => StepView::Trigger(
            crate::triggers::trigger_row_view(row),
            opt_index(start),
            opt_index(end),
            opt_index(parent),
        ),
        CopyStep::Effect { row, parent, amount, down_payment } => StepView::Effect(
            crate::effects::effect_row_view(row),
            opt_index(parent),
            opt_index(amount),
            opt_index(down_payment),
        ),
        CopyStep::Source { row, effect } => StepView::Source(crate::specs::source_row(row), effect as int),
        CopyStep::Item { row, effect } => StepView::Item(crate::specs::item_row(row), effect as int),
    }
}

/// The rows a copy reads.
pub struct GraphRows {
    pub triggers: Vec<TriggerRow>,
    pub amounts: Vec<TransferAmountRow>,
    pub effects: Vec<EffectRow>,
    pub sources: Vec<WithdrawalSourceRow>,
    pub items: Vec<WithdrawalItemRow>,
}

impl View for GraphRows {
    type V = GraphView;

    open spec fn view(&self) -> GraphView {
        GraphView {
            triggers: crate::triggers::trigger_row_views(self.triggers@),
            amounts: amount_row_views(self.amounts@),
            effects: crate::effects::effect_row_views(self.effects@),
            sources: crate::effects::source_row_views(self.sources@),
            items: crate::specs::item_rows(self.items@),
        }
    }
}

/// A copy being planned: its steps so far, and which step copied each old
/// amount, effect and trigger.
pub struct CopyPlan {
    pub steps: Vec<CopyStep>,
    pub amounts: Remap,
    pub effects: Remap,
    pub triggers: Remap,
}

impl View for CopyPlan {
    type V = PlanView;

    open spec fn view(&self) -> PlanView {
        PlanView {
            steps: self.steps@.map_values(|s: CopyStep| step_view(s)),
            amounts: self.amounts@,
            effects: self.effects@,
            triggers: self.triggers@,
        }
    }
}

fn missing(what: &str, id: i64) -> (e: ApiError)
    ensures
        copy_error(CopyFault::Missing(what@, id), e),
{
    let mut m = joined("missing ", what);
    m.append(" ");
    let n = format_i64(id);
    m.append(n.as_str());
    ApiError::Internal(m)
}

fn cyclic(what: &str) -> (e: ApiError)
    ensures
        copy_error(CopyFault::Cyclic(what@), e),
{
    ApiError::Internal(joined(what, " graph is cyclic"))
}

/// The last amount row with this id.
fn find_amount(rows: &[TransferAmountRow], id: i64) -> (r: Option<usize>)
    ensures
        match r {
            Some(k) => k < rows@.len() && k as int == last_where(amount_row_views(rows@), amount_has_id(id)),
            None => last_where(amount_row_views(rows@), amount_has_id(id)) < 0,
        },
{
    let ghost v = amount_row_views(rows@);
    let ghost p = amount_has_id(id);
    let mut i: usize = rows.len();
    while i > 0
        invariant
            i <= rows@.len(),
            v == amount_row_views(rows@),
            p == amount_has_id(id),
            forall|j: int| i <= j < rows@.len() ==> !p(#[trigger] v[j]),
        decreases i,
    {
        i = i - 1;
        assert(v[i as int] == amount_row_view(rows@[i as int]));
        if rows[i].id == id {
            proof {
                lemma_last_where(v, p);
                let k = last_where(v, p);
                if k > i {
                    assert(!p(v[k]));
                } else if k < i {
                    assert(p(v[i as int]));
                }
            }
            return Some(i);
        }
    }
    proof {
        lemma_last_where(v, p);
        let k = last_where(v, p);
        if k >= 0 {
            assert(p(v[k]));
        }
    }
    None
}

/// The last effect row with a given id.
fn find_effect_last(rows: &[EffectRow], id: i64) -> (r: Option<usize>)
    ensures
        match r {
            Some(k) => k < rows@.len() && k as int == last_where(crate::effects::effect_row_views(rows@), effect_has_id(id)),
            None => last_where(crate::effects::effect_row_views(rows@), effect_has_id(id)) < 0,
        },
{
    let ghost v = crate::effects::effect_row_views(rows@);
    let ghost p = effect_has_id(id);
    let mut i: usize = rows.len();
    while i > 0
        invariant
            i <= rows@.len(),
            v == crate::effects::effect_row_views(rows@),
            p == effect_has_id(id),
            forall|j: int| i <= j < rows@.len() ==> !p(#[trigger] v[j]),
        decreases i,
    {
        i = i - 1;
        assert(v[i as int] == effect_row_view(rows@[i as int]));
        if rows[i].id == id {
            proof {
                lemma_last_where(v, p);
                let k = last_where(v, p);
                if k > i {
                    assert(!p(v[k]));
                } else if k < i {
                    assert(p(v[i as int]));
                }
            }
            return Some(i);
        }
    }
    proof {
        lemma_last_where(v, p);
        let k = last_where(v, p);
        if k >= 0 {
            assert(p(v[k]));
        }
    }
    None
}

/// The last effect row hanging in a slot of a parent.
fn find_child_last(rows: &[EffectRow], parent: i64, slot: &str) -> (r: Option<usize>)
    ensures
        match r {
            Some(k) => k < rows@.len() && k as int == last_where(
                crate::effects::effect_row_views(rows@),
                hangs_under(parent, slot@),
            ),
            None => last_where(crate::effects::effect_row_views(rows@), hangs_under(parent, slot@)) < 0,
        },
{
    let ghost v = crate::effects::effect_row_views(rows@);
    let ghost p = hangs_under(parent, slot@);
    let mut i: usize = rows.len();
    while i > 0
        invariant
            i <= rows@.len(),
            v == crate::effects::effect_row_views(rows@),
            p == hangs_under(parent, slot@),
            forall|j: int| i <= j < rows@.len() ==> !p(#[trigger] v[j]),
        decreases i,
    {
        i = i - 1;
        assert(v[i as int] == effect_row_view(rows@[i as int]));
        let row = &rows[i];
        let same_parent = match row.parent_id {
            Some(x) => x == parent,
            None => false,
        };
        let same_slot = match &row.parent_slot {
            Some(x) => same_text(x.as_str(), slot),
            None => false,
        };
        if same_parent && same_slot {
            proof {
                lemma_last_where(v, p);
                let k = last_where(v, p);
                if k > i {
                    assert(!p(v[k]));
                } else if k < i {
                    assert(p(v[i as int]));
                }
            }
            return Some(i);
        }
        assert(!p(v[i as int]));
    }
    proof {
        lemma_last_where(v, p);
        let k = last_where(v, p);
        if k >= 0 {
            assert(p(v[k]));
        }
    }
    None
}

/// The last source row of an effect.
fn find_source_last(rows: &[WithdrawalSourceRow], effect: i64) -> (r: Option<usize>)
    ensures
        match r {
            Some(k) => k < rows@.len() && k as int == last_where(crate::effects::source_row_views(rows@), source_for(effect)),
            None => last_where(crate::effects::source_row_views(rows@), source_for(effect)) < 0,
        },
{
    let ghost v = crate::effects::source_row_views(rows@);
    let ghost p = source_for(effect);
    let mut i: usize = rows.len();
    while i > 0
        invariant
            i <= rows@.len(),
            v == crate::effects::source_row_views(rows@),
            p == source_for(effect),
            forall|j: int| i <= j < rows@.len() ==> !p(#[trigger] v[j]),
        decreases i,
    {
        i = i - 1;
        assert(v[i as int] == source_row(rows@[i as int]));
        if rows[i].effect_id == effect {
            proof {
                lemma_last_where(v, p);
                let k = last_where(v, p);
                if k > i {
                    assert(!p(v[k]));
                } else if k < i {
                    assert(p(v[i as int]));
                }
            }
            return Some(i);
        }
    }
    proof {
        lemma_last_where(v, p);
        let k = last_where(v, p);
        if k >= 0 {
            assert(p(v[k]));
        }
    }
    None
}

impl CopyPlan {
    /// An empty plan.
    pub fn new() -> (r: Self)
        ensures
            r@.steps == Seq::<StepView>::empty(),
            r@.amounts == Map::<i64, i64>::empty(),
            r@.effects == Map::<i64, i64>::empty(),
            r@.triggers == Map::<i64, i64>::empty(),
    {
        let r = CopyPlan { steps: Vec::new(), amounts: Remap::new(), effects: Remap::new(), triggers: Remap::new() };
        assert(r@.steps =~= Seq::<StepView>::empty());
        r
    }

    fn push_step(&mut self, s: CopyStep) -> (idx: usize)
        requires
            refs_before(step_view(s), old(self)@.steps.len() as int),
        ensures
            refs_ok(old(self)@.steps) ==> refs_ok(final(self)@.steps),
            idx == old(self)@.steps.len(),
            final(self)@.steps == old(self)@.steps.push(step_view(s)),
            final(self)@.amounts == old(self)@.amounts,
            final(self)@.effects == old(self)@.effects,
            final(self)@.triggers == old(self)@.triggers,
    {
        let idx = self.steps.len();
        let ghost before = self.steps@;
        self.steps.push(s);
        assert(self.steps@.map_values(|s: CopyStep| step_view(s)) =~= before.map_values(
            |s: CopyStep| step_view(s),
        ).push(step_view(s)));
        proof {
            if refs_ok(before.map_values(|s: CopyStep| step_view(s))) {
                lemma_push_refs(before.map_values(|s: CopyStep| step_view(s)), step_view(s));
            }
        }
        idx
    }

    /// Plan the copy of amount row `id`, as [`plan_amount`] says.
    pub fn plan_amount(
        &mut self,
        g: &GraphRows,
        id: i64,
        fuel: u64,
        accounts: &Remap,
        assets: &Remap,
    ) -> (r: Result<usize, ApiError>)
        requires
            plan_ok(old(self)@),
        ensures
            match plan_amount(g@, old(self)@, id, fuel as nat, accounts@, assets@) {
                Ok((st, idx)) => r == Ok::<usize, ApiError>(idx as usize) && final(self)@ == st,
                Err(f) => r matches Err(e) && copy_error(f, e),
            },
        decreases fuel,
    {
        match self.amounts.get(id) {
            Some(k) => {
                return Ok(k as usize);
            },
            None => {},
        }
        if fuel == 0 {
            return Err(cyclic("transfer amount"));
        }
        let k = match find_amount(g.amounts.as_slice(), id) {
            Some(k) => k,
            None => return Err(missing("transfer amount", id)),
        };
        let row = &g.amounts[k];
        assert(g@.amounts[k as int] == amount_row_view(*row));
        proof {
            lemma_plan_amount(g@, self@, id, fuel as nat, accounts@, assets@);
            if row.left_id is Some {
                lemma_plan_amount(g@, self@, row.left_id->0, (fuel - 1) as nat, accounts@, assets@);
            }
        }
        let left = match row.left_id {
            None => None,
            Some(l) => match self.plan_amount(g, l, fuel - 1, accounts, assets) {
                Ok(i) => Some(i),
                Err(e) => return Err(e),
            },
        };
        proof {
            if row.right_id is Some {
                lemma_plan_amount(g@, self@, row.right_id->0, (fuel - 1) as nat, accounts@, assets@);
            }
        }
        let right = match row.right_id {
            None => None,
            Some(x) => match self.plan_amount(g, x, fuel - 1, accounts, assets) {
                Ok(i) => Some(i),
                Err(e) => return Err(e),
            },
        };
        let copy = match copy_amount_row(row, 0, None, None, accounts, assets) {
            Ok(c) => c,
            Err(e) => return Err(e),
        };
        if self.steps.len() as u64 >= 0x7FFF_FFFF_FFFF_FFFFu64 {
            return Err(ApiError::Internal(crate::error::owned("too many rows to copy")));
        }
        let idx = self.push_step(CopyStep::Amount { row: copy, left, right });
        self.amounts.insert(id, idx as i64);
        Ok(idx)
    }
}

impl CopyPlan {
    /// Plan an effect's item rows, each hanging on the effect's step.
    fn plan_items(
        &mut self,
        items: &[WithdrawalItemRow],
        effect: usize,
        accounts: &Remap,
        assets: &Remap,
    ) -> (r: Result<(), ApiError>)
        requires
            effect < old(self)@.steps.len(),
        ensures
            match plan_items(item_rows(items@), old(self)@, effect as int, accounts@, assets@, items@.len()) {
                Ok(s) => r is Ok && final(self)@ == s,
                Err(f) => r matches Err(e) && copy_error(f, e),
            },
    {
        let ghost v = item_rows(items@);
        let ghost st0 = self@;
        let mut i: usize = 0;
        while i < items.len()
            invariant
                i <= items@.len(),
                v == item_rows(items@),
                st0 == old(self)@,
                effect < self@.steps.len(),
                plan_items(v, st0, effect as int, accounts@, assets@, i as nat) == Ok::<PlanView, CopyFault>(self@),
            decreases items@.len() - i,
        {
            assert(v[i as int] == item_row(items@[i as int]));
            match copy_item_row(&items[i], 0, accounts, assets) {
                Ok(copy) => {
                    self.push_step(CopyStep::Item { row: copy, effect });
                },
                Err(e) => {
                    proof {
                        assert(item_copy_fault(v[i as int], accounts@, assets@) is Some);
                        assert(plan_items(v, st0, effect as int, accounts@, assets@, (i + 1) as nat) is Err);
                        lemma_items_stop(v, st0, effect as int, accounts@, assets@, (i + 1) as nat, v.len());
                    }
                    return Err(e);
                },
            }
            i = i + 1;
        }
        Ok(())
    }

    fn plan_opt_amount(
        &mut self,
        g: &GraphRows,
        id: Option<i64>,
        fuel: u64,
        accounts: &Remap,
        assets: &Remap,
    ) -> (r: Result<Option<usize>, ApiError>)
        requires
            plan_ok(old(self)@),
        ensures
            match plan_opt_amount(g@, old(self)@, id, fuel as nat, accounts@, assets@) {
                Ok((st, i)) => r == Ok::<Option<usize>, ApiError>(
                    match i {
                        Some(x) => Some(x as usize),
                        None => None,
                    },
                ) && final(self)@ == st,
                Err(f) => r matches Err(e) && copy_error(f, e),
            },
    {
        match id {
            None => Ok(None),
            Some(a) => match self.plan_amount(g, a, fuel, accounts, assets) {
                Ok(i) => Ok(Some(i)),
                Err(e) => Err(e),
            },
        }
    }

    /// Plan the copy of effect row `id`, as [`plan_effect`] says.
    #[verifier::rlimit(60)]
    pub fn plan_effect(
        &mut self,
        g: &GraphRows,
        id: i64,
        efuel: u64,
        afuel: u64,
        accounts: &Remap,
        assets: &Remap,
        events: &Remap,
    ) -> (r: Result<usize, ApiError>)
        requires
            plan_ok(old(self)@),
        ensures
            match plan_effect(g@, old(self)@, id, efuel as nat, afuel as nat, accounts@, assets@, events@) {
                Ok((st, idx)) => r == Ok::<usize, ApiError>(idx as usize) && final(self)@ == st,
                Err(f) => r matches Err(e) && copy_error(f, e),
            },
        decreases efuel,
    {
        if efuel == 0 {
            return Err(cyclic("effect"));
        }
        let k = match find_effect_last(g.effects.as_slice(), id) {
            Some(k) => k,
            None => return Err(missing("effect", id)),
        };
        let row = &g.effects[k];
        assert(g@.effects[k as int] == effect_row_view(*row));
        let ghost st0 = self@;
        proof {
            lemma_plan_effect(g@, st0, id, efuel as nat, afuel as nat, accounts@, assets@, events@);
            lemma_plan_opt_amount(g@, st0, row.amount_id, afuel as nat, accounts@, assets@);
        }
        let amount = match self.plan_opt_amount(g, row.amount_id, afuel, accounts, assets) {
            Ok(i) => i,
            Err(e) => return Err(e),
        };
        proof {
            lemma_plan_opt_amount(g@, self@, row.down_payment_amount_id, afuel as nat, accounts@, assets@);
        }
        let down_payment = match self.plan_opt_amount(g, row.down_payment_amount_id, afuel, accounts, assets) {
            Ok(i) => i,
            Err(e) => return Err(e),
        };
        let parent = match row.parent_id {
            None => None,
            Some(p) => match self.effects.get(p) {
                Some(x) => Some(x as usize),
                None => return Err(
                    ApiError::Internal(crate::error::owned("effect parent was not copied before its child")),
                ),
            },
        };
        let copy = match copy_effect_row(row, 0, None, None, None, accounts, assets, events) {
            Ok(c) => c,
            Err(e) => return Err(e),
        };
        if self.steps.len() as u64 >= 0x7FFF_FFFF_FFFF_FFFFu64 {
            return Err(ApiError::Internal(crate::error::owned("too many rows to copy")));
        }
        let idx = self.push_step(CopyStep::Effect { row: copy, parent, amount, down_payment });
        self.effects.insert(id, idx as i64);
        assert(plan_ok(self@));
        match find_source_last(g.sources.as_slice(), id) {
            None => {},
            Some(si) => {
                assert(g@.sources[si as int] == source_row(g.sources@[si as int]));
                match copy_source_row(&g.sources[si], 0, accounts, assets) {
                    Ok(c) => {
                        self.push_step(CopyStep::Source { row: c, effect: idx });
                    },
                    Err(e) => return Err(e),
                }
            },
        }
        assert(plan_ok(self@));
        let items = items_for(g.items.as_slice(), id);
        proof {
            lemma_plan_items(item_rows(items@), self@, idx as int, accounts@, assets@, items@.len());
        }
        match self.plan_items(items.as_slice(), idx, accounts, assets) {
            Ok(()) => {},
            Err(e) => return Err(e),
        }
        match find_child_last(g.effects.as_slice(), id, "on_true") {
            None => {},
            Some(t) => {
                let tid = g.effects[t].id;
                assert(g@.effects[t as int].id == tid);
                proof {
                    lemma_plan_effect(g@, self@, tid, (efuel - 1) as nat, afuel as nat, accounts@, assets@, events@);
                }
                match self.plan_effect(g, tid, efuel - 1, afuel, accounts, assets, events) {
                    Ok(_) => {},
                    Err(e) => return Err(e),
                }
            },
        }
        match find_child_last(g.effects.as_slice(), id, "on_false") {
            None => {},
            Some(f) => {
                let fid = g.effects[f].id;
                assert(g@.effects[f as int].id == fid);
                proof {
                    lemma_plan_effect(g@, self@, fid, (efuel - 1) as nat, afuel as nat, accounts@, assets@, events@);
                }
                match self.plan_effect(g, fid, efuel - 1, afuel, accounts, assets, events) {
                    Ok(_) => {},
                    Err(e) => return Err(e),
                }
            },
        }
        Ok(idx)
    }
}

/// The last trigger row with a given id.
fn find_trigger_last(rows: &[TriggerRow], id: i64) -> (r: Option<usize>)
    ensures
        match r {
            Some(k) => k < rows@.len() && k as int == last_where(trigger_row_views(rows@), trigger_has_id(id)),
            None => last_where(trigger_row_views(rows@), trigger_has_id(id)) < 0,
        },
{
    let ghost v = trigger_row_views(rows@);
    let ghost p = trigger_has_id(id);
    let mut i: usize = rows.len();
    while i > 0
        invariant
            i <= rows@.len(),
            v == trigger_row_views(rows@),
            p == trigger_has_id(id),
            forall|j: int| i <= j < rows@.len() ==> !p(#[trigger] v[j]),
        decreases i,
    {
        i = i - 1;
        assert(v[i as int] == trigger_row_view(rows@[i as int]));
        if rows[i].id == id {
            proof {
                lemma_last_where(v, p);
                let k = last_where(v, p);
                if k > i {
                    assert(!p(v[k]));
                } else if k < i {
                    assert(p(v[i as int]));
                }
            }
            return Some(i);
        }
    }
    proof {
        lemma_last_where(v, p);
        let k = last_where(v, p);
        if k >= 0 {
            assert(p(v[k]));
        }
    }
    None
}

/// The ids of the trigger rows under a parent, in the order given.
fn children_of(rows: &[TriggerRow], parent: i64) -> (r: Vec<i64>)
    ensures
        r@ == children_ids(trigger_row_views(rows@), parent),
{
    let ghost v = trigger_row_views(rows@);
    let mut out: Vec<i64> = Vec::new();
    let mut i: usize = 0;
    while i < rows.len()
        invariant
            i <= rows@.len(),
            v == trigger_row_views(rows@),
            out@ == children_ids(v.subrange(0, i as int), parent),
        decreases rows@.len() - i,
    {
        assert(v.subrange(0, i + 1).drop_last() == v.subrange(0, i as int));
        assert(v.subrange(0, i + 1).last() == trigger_row_view(rows@[i as int]));
        let under = match rows[i].parent_id {
            Some(x) => x == parent,
            None => false,
        };
        if under {
            out.push(rows[i].id);
        }
        i = i + 1;
    }
    assert(v.subrange(0, rows@.len() as int) == v);
    out
}

impl CopyPlan {
    /// Plan the copy of trigger row `id`, as [`plan_trigger`] says.
    #[verifier::rlimit(60)]
    pub fn plan_trigger(
        &mut self,
        g: &GraphRows,
        id: i64,
        fuel: u64,
        events: &Remap,
        accounts: &Remap,
        assets: &Remap,
        parameters: &Remap,
    ) -> (r: Result<usize, ApiError>)
        requires
            plan_ok(old(self)@),
        ensures
            match plan_trigger(g@, old(self)@, id, fuel as nat, events@, accounts@, assets@, parameters@) {
                Ok((st, idx)) => r == Ok::<usize, ApiError>(idx as usize) && final(self)@ == st,
                Err(f) => r matches Err(e) && copy_error(f, e),
            },
        decreases fuel,
    {
        match self.triggers.get(id) {
            Some(k) => {
                return Ok(k as usize);
            },
            None => {},
        }
        if fuel == 0 {
            return Err(cyclic("trigger"));
        }
        let k = match find_trigger_last(g.triggers.as_slice(), id) {
            Some(k) => k,
            None => return Err(missing("trigger", id)),
        };
        let row = &g.triggers[k];
        assert(g@.triggers[k as int] == trigger_row_view(*row));
        let f1 = fuel - 1;
        let ghost st0 = self@;
        proof {
            lemma_plan_trigger(g@, st0, id, fuel as nat, events@, accounts@, assets@, parameters@);
            lemma_plan_opt_trigger(g@, st0, row.start_trigger_id, f1 as nat, events@, accounts@, assets@, parameters@);
        }
        let start = match row.start_trigger_id {
            None => None,
            Some(x) => match self.plan_trigger(g, x, f1, events, accounts, assets, parameters) {
                Ok(i) => Some(i),
                Err(e) => return Err(e),
            },
        };
        proof {
            lemma_plan_opt_trigger(g@, self@, row.end_trigger_id, f1 as nat, events@, accounts@, assets@, parameters@);
        }
        let end = match row.end_trigger_id {
            None => None,
            Some(x) => match self.plan_trigger(g, x, f1, events, accounts, assets, parameters) {
                Ok(i) => Some(i),
                Err(e) => return Err(e),
            },
        };
        proof {
            lemma_plan_opt_trigger(g@, self@, row.parent_id, f1 as nat, events@, accounts@, assets@, parameters@);
        }
        let parent = match row.parent_id {
            None => None,
            Some(x) => match self.plan_trigger(g, x, f1, events, accounts, assets, parameters) {
                Ok(i) => Some(i),
                Err(e) => return Err(e),
            },
        };
        let copy = match copy_trigger_row(row, 0, None, None, None, events, accounts, assets, parameters) {
            Ok(c) => c,
            Err(e) => return Err(e),
        };
        if self.steps.len() as u64 >= 0x7FFF_FFFF_FFFF_FFFFu64 {
            return Err(ApiError::Internal(crate::error::owned("too many rows to copy")));
        }
        let idx = self.push_step(CopyStep::Trigger { row: copy, start, end, parent });
        self.triggers.insert(id, idx as i64);
        assert(plan_ok(self@));
        let kids = children_of(g.triggers.as_slice(), id);
        let ghost s4 = self@;
        let mut i: usize = 0;
        while i < kids.len()
            invariant
                i <= kids@.len(),
                kids@ == children_ids(g@.triggers, id),
                plan_children(g@, s4, kids@, i as nat, f1 as nat, events@, accounts@, assets@, parameters@)
                    == Ok::<PlanView, CopyFault>(self@),
                plan_ok(self@),
                plan_trigger(g@, st0, id, fuel as nat, events@, accounts@, assets@, parameters@) == match plan_children(
                    g@,
                    s4,
                    kids@,
                    kids@.len(),
                    f1 as nat,
                    events@,
                    accounts@,
                    assets@,
                    parameters@,
                ) {
                    Err(f) => Err(f),
                    Ok(s5) => Ok((s5, idx as int)),
                },
                st0 == old(self)@,
                f1 < fuel,
            decreases kids@.len() - i,
        {
            proof {
                lemma_plan_trigger(g@, self@, kids@[i as int], f1 as nat, events@, accounts@, assets@, parameters@);
            }
            match self.plan_trigger(g, kids[i], f1, events, accounts, assets, parameters) {
                Ok(_) => {},
                Err(e) => {
                    proof {
                        lemma_children_stop(
                            g@,
                            s4,
                            kids@,
                            (i + 1) as nat,
                            kids@.len(),
                            f1 as nat,
                            events@,
                            accounts@,
                            assets@,
                            parameters@,
                        );
                    }
                    return Err(e);
                },
            }
            i = i + 1;
        }
        Ok(idx)
    }
}

/// The last trigger row that is an event's root.
pub(crate) fn find_root_last(rows: &[TriggerRow], e: i64) -> (r: Option<usize>)
    ensures
        match r {
            Some(k) => k < rows@.len() && k as int == last_where(trigger_row_views(rows@), roots_event(e)),
            None => last_where(trigger_row_views(rows@), roots_event(e)) < 0,
        },
{
    let ghost v = trigger_row_views(rows@);
    let ghost p = roots_event(e);
    let mut i: usize = rows.len();
    while i > 0
        invariant
            i <= rows@.len(),
            v == trigger_row_views(rows@),
            p == roots_event(e),
            forall|j: int| i <= j < rows@.len() ==> !p(#[trigger] v[j]),
        decreases i,
    {
        i = i - 1;
        assert(v[i as int] == trigger_row_view(rows@[i as int]));
        let hit = match rows[i].event_id {
            Some(x) => x == e,
            None => false,
        };
        if hit {
            proof {
                lemma_last_where(v, p);
                let k = last_where(v, p);
                if k > i {
                    assert(!p(v[k]));
                } else if k < i {
                    assert(p(v[i as int]));
                }
            }
            return Some(i);
        }
    }
    proof {
        lemma_last_where(v, p);
        let k = last_where(v, p);
        if k >= 0 {
            assert(p(v[k]));
        }
    }
    None
}

/// The ids of an event's own effects, in the order given.
pub(crate) fn effects_of_event(rows: &[EffectRow], e: i64) -> (r: Vec<i64>)
    ensures
        r@ == event_effect_ids(crate::effects::effect_row_views(rows@), e),
{
    let ghost v = crate::effects::effect_row_views(rows@);
    let mut out: Vec<i64> = Vec::new();
    let mut i: usize = 0;
    while i < rows.len()
        invariant
            i <= rows@.len(),
            v == crate::effects::effect_row_views(rows@),
            out@ == event_effect_ids(v.subrange(0, i as int), e),
        decreases rows@.len() - i,
    {
        assert(v.subrange(0, i + 1).drop_last() == v.subrange(0, i as int));
        assert(v.subrange(0, i + 1).last() == effect_row_view(rows@[i as int]));
        let hit = match rows[i].event_id {
            Some(x) => x == e,
            None => false,
        };
        if hit {
            out.push(rows[i].id);
        }
        i = i + 1;
    }
    assert(v.subrange(0, rows@.len() as int) == v);
    out
}

fn nesting_limit_of(n: usize) -> (r: u64)
    ensures
        r == nesting_limit(n as nat),
{
    if n as u64 >= 0x3FFF_FFFF_FFFF_FFFFu64 {
        0xFFFF_FFFF_FFFF_FFFFu64
    } else {
        2 * (n as u64) + 2
    }
}

fn depth_limit_of(n: usize) -> (r: u64)
    ensures
        r == depth_limit(n as nat),
{
    if n as u64 >= 0xFFFF_FFFF_FFFF_FFFFu64 {
        0xFFFF_FFFF_FFFF_FFFFu64
    } else {
        n as u64 + 1
    }
}

impl CopyPlan {
    /// Plan an event's copies, as [`plan_event`] says.
    fn plan_event(
        &mut self,
        g: &GraphRows,
        e: i64,
        events: &Remap,
        accounts: &Remap,
        assets: &Remap,
        parameters: &Remap,
    ) -> (r: Result<(), ApiError>)
        requires
            plan_ok(old(self)@),
        ensures
            match plan_event(g@, old(self)@, e, events@, accounts@, assets@, parameters@) {
                Ok(st) => r is Ok && final(self)@ == st,
                Err(f) => r matches Err(x) && copy_error(f, x),
            },
    {
        let ghost st0 = self@;
        let tfuel = nesting_limit_of(g.triggers.len());
        assert(g@.triggers.len() == g.triggers@.len());
        match find_root_last(g.triggers.as_slice(), e) {
            None => {},
            Some(r) => {
                let root = g.triggers[r].id;
                assert(g@.triggers[r as int].id == root);
                proof {
                    lemma_plan_trigger(g@, self@, root, tfuel as nat, events@, accounts@, assets@, parameters@);
                }
                match self.plan_trigger(g, root, tfuel, events, accounts, assets, parameters) {
                    Ok(_) => {},
                    Err(x) => return Err(x),
                }
            },
        }
        let ids = effects_of_event(g.effects.as_slice(), e);
        let efuel = depth_limit_of(g.effects.len());
        let afuel = depth_limit_of(g.amounts.len());
        assert(g@.effects.len() == g.effects@.len());
        assert(g@.amounts.len() == g.amounts@.len());
        let ghost s1 = self@;
        assert(plan_event(g@, st0, e, events@, accounts@, assets@, parameters@) == plan_effect_list(
            g@,
            s1,
            ids@,
            ids@.len(),
            efuel as nat,
            afuel as nat,
            accounts@,
            assets@,
            events@,
        ));
        let mut i: usize = 0;
        while i < ids.len()
            invariant
                i <= ids@.len(),
                ids@ == event_effect_ids(g@.effects, e),
                plan_ok(self@),
                st0 == old(self)@,
                plan_event(g@, st0, e, events@, accounts@, assets@, parameters@) == plan_effect_list(
                    g@,
                    s1,
                    ids@,
                    ids@.len(),
                    efuel as nat,
                    afuel as nat,
                    accounts@,
                    assets@,
                    events@,
                ),
                plan_effect_list(g@, s1, ids@, i as nat, efuel as nat, afuel as nat, accounts@, assets@, events@)
                    == Ok::<PlanView, CopyFault>(self@),
            decreases ids@.len() - i,
        {
            proof {
                lemma_plan_effect(g@, self@, ids@[i as int], efuel as nat, afuel as nat, accounts@, assets@, events@);
            }
            match self.plan_effect(g, ids[i], efuel, afuel, accounts, assets, events) {
                Ok(_) => {},
                Err(x) => {
                    proof {
                        lemma_effect_list_stop(
                            g@,
                            s1,
                            ids@,
                            (i + 1) as nat,
                            ids@.len(),
                            efuel as nat,
                            afuel as nat,
                            accounts@,
                            assets@,
                            events@,
                        );
                    }
                    return Err(x);
                },
            }
            i = i + 1;
        }
        Ok(())
    }
}

/// Plan the copy of the events `event_ids`, in order, as [`planned_copy`] says:
/// `events`, `accounts`, `assets` and `parameters` map the scenario's other
/// rows to their copies.
pub fn plan_copy(
    g: &GraphRows,
    event_ids: &[i64],
    events: &Remap,
    accounts: &Remap,
    assets: &Remap,
    parameters: &Remap,
) -> (r: Result<CopyPlan, ApiError>)
    ensures
        match planned_copy(g@, event_ids@, events@, accounts@, assets@, parameters@) {
            Ok(st) => r matches Ok(p) && p@ == st,
            Err(f) => r matches Err(x) && copy_error(f, x),
        },
{
    let mut plan = CopyPlan::new();
    assert(plan@ == empty_plan());
    let mut i: usize = 0;
    while i < event_ids.len()
        invariant
            i <= event_ids@.len(),
            plan_ok(plan@),
            plan_events(g@, empty_plan(), event_ids@, i as nat, events@, accounts@, assets@, parameters@)
                == Ok::<PlanView, CopyFault>(plan@),
        decreases event_ids@.len() - i,
    {
        proof {
            lemma_plan_event(g@, plan@, event_ids@[i as int], events@, accounts@, assets@, parameters@);
        }
        match plan.plan_event(g, event_ids[i], events, accounts, assets, parameters) {
            Ok(()) => {},
            Err(x) => {
                proof {
                    lemma_events_stop(
                        g@,
                        empty_plan(),
                        event_ids@,
                        (i + 1) as nat,
                        event_ids@.len(),
                        events@,
                        accounts@,
                        assets@,
                        parameters@,
                    );
                }
                return Err(x);
            },
        }
        i = i + 1;
    }
    Ok(plan)
}

} // verus!

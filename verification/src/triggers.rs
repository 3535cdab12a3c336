//! Event triggers: the condition trees clients send, how a tree is laid out
//! as rows and how it is read back from them.
use vstd::prelude::*;

use crate::auth::routes::{date_field, date_text};
use crate::error::{owned, ApiError};
use crate::rows::TriggerRow;
use crate::specs::{check_depth, comparison_name, interval_name, unit_name, Comparison, Interval,
    OffsetUnit, TriggerParent, MAX_SPEC_DEPTH};
use crate::text::same_text;

verus! {

/// A trigger as a client sends it. Thresholds are carried as the bit
/// pattern of their IEEE 754 double: nothing here computes with them.
pub enum TriggerSpec {
    DateParameter { parameter_id: i64 },
    AgeParameter { parameter_id: i64 },
    Date { on_date: String },
    Age { years: u8, months: Option<u8> },
    RelativeToEvent { event_id: i64, unit: OffsetUnit, value: i32 },
    AccountBalance { account_id: i64, comparison: Comparison, threshold_bits: u64 },
    AssetBalance { account_id: i64, asset_id: i64, comparison: Comparison, threshold_bits: u64 },
    NetWorth { comparison: Comparison, threshold_bits: u64 },
    And { children: Vec<TriggerSpec> },
    Or { children: Vec<TriggerSpec> },
    Repeating {
        interval: Interval,
        start_condition: Option<Box<TriggerSpec>>,
        end_condition: Option<Box<TriggerSpec>>,
        max_occurrences: Option<u32>,
    },
    Manual,
}

/// A trigger as a value.
pub enum TriggerModel {
    DateParameter(i64),
    AgeParameter(i64),
    Date(Seq<char>),
    Age(u8, Option<u8>),
    RelativeToEvent(i64, OffsetUnit, i32),
    AccountBalance(i64, Comparison, u64),
    AssetBalance(i64, i64, Comparison, u64),
    NetWorth(Comparison, u64),
    And(Seq<TriggerModel>),
    Or(Seq<TriggerModel>),
    Repeating(Interval, Option<Box<TriggerModel>>, Option<Box<TriggerModel>>, Option<u32>),
    Manual,
}

pub open spec fn trigger_model(t: TriggerSpec) -> TriggerModel
    decreases t,
{
    match t {
        TriggerSpec::DateParameter { parameter_id } => TriggerModel::DateParameter(parameter_id),
        TriggerSpec::AgeParameter { parameter_id } => TriggerModel::AgeParameter(parameter_id),
        TriggerSpec::Date { on_date } => TriggerModel::Date(on_date@),
        TriggerSpec::Age { years, months } => TriggerModel::Age(years, months),
        TriggerSpec::RelativeToEvent { event_id, unit, value } => TriggerModel::RelativeToEvent(
            event_id,
            unit,
            value,
        ),
        TriggerSpec::AccountBalance { account_id, comparison, threshold_bits } =>
            TriggerModel::AccountBalance(account_id, comparison, threshold_bits),
        TriggerSpec::AssetBalance { account_id, asset_id, comparison, threshold_bits } =>
            TriggerModel::AssetBalance(account_id, asset_id, comparison, threshold_bits),
        TriggerSpec::NetWorth { comparison, threshold_bits } => TriggerModel::NetWorth(
            comparison,
            threshold_bits,
        ),
        TriggerSpec::And { children } => TriggerModel::And(trigger_models(children@)),
        TriggerSpec::Or { children } => TriggerModel::Or(trigger_models(children@)),
        TriggerSpec::Repeating { interval, start_condition, end_condition, max_occurrences } =>
            TriggerModel::Repeating(
            interval,
            match start_condition {
                Some(b) => Some(Box::new(trigger_model(*b))),
                None => None,
            },
            match end_condition {
                Some(b) => Some(Box::new(trigger_model(*b))),
                None => None,
            },
            max_occurrences,
        ),
        TriggerSpec::Manual => TriggerModel::Manual,
    }
}

pub open spec fn trigger_models(s: Seq<TriggerSpec>) -> Seq<TriggerModel>
    decreases s,
{
    if s.len() == 0 {
        Seq::empty()
    } else {
        trigger_models(s.subrange(0, s.len() - 1)).push(trigger_model(s[s.len() - 1]))
    }
}

impl View for TriggerSpec {
    type V = TriggerModel;

    open spec fn view(&self) -> TriggerModel {
        trigger_model(*self)
    }
}

/// A stored row as plain values.
pub struct TriggerRowView {
    pub id: i64,
    pub event_id: Option<i64>,
    pub kind: Seq<char>,
    pub on_date: Option<Seq<char>>,
    pub age_years: Option<i64>,
    pub age_months: Option<i64>,
    pub ref_event_id: Option<i64>,
    pub offset_unit: Option<Seq<char>>,
    pub offset_value: Option<i64>,
    pub account_id: Option<i64>,
    pub asset_id: Option<i64>,
    pub comparison: Option<Seq<char>>,
    pub threshold_bits: Option<u64>,
    pub interval: Option<Seq<char>>,
    pub start_trigger_id: Option<i64>,
    pub end_trigger_id: Option<i64>,
    pub max_occurrences: Option<i64>,
    pub parent_id: Option<i64>,
    pub position: i64,
    pub parameter_id: Option<i64>,
}

pub open spec fn text_of(o: Option<String>) -> Option<Seq<char>> {
    match o {
        Some(s) => Some(s@),
        None => None,
    }
}

pub open spec fn trigger_row_view(r: TriggerRow) -> TriggerRowView {
    TriggerRowView {
        id: r.id,
        event_id: r.event_id,
        kind: r.kind@,
        on_date: text_of(r.on_date),
        age_years: r.age_years,
        age_months: r.age_months,
        ref_event_id: r.ref_event_id,
        offset_unit: text_of(r.offset_unit),
        offset_value: r.offset_value,
        account_id: r.account_id,
        asset_id: r.asset_id,
        comparison: text_of(r.comparison),
        threshold_bits: r.threshold_bits,
        interval: text_of(r.interval),
        start_trigger_id: r.start_trigger_id,
        end_trigger_id: r.end_trigger_id,
        max_occurrences: r.max_occurrences,
        parent_id: r.parent_id,
        position: r.position,
        parameter_id: r.parameter_id,
    }
}

pub open spec fn trigger_row_views(v: Seq<TriggerRow>) -> Seq<TriggerRowView> {
    v.map_values(|r: TriggerRow| trigger_row_view(r))
}

/// Why a trigger cannot be written.
pub enum TriggerFault {
    TooDeep,
    /// A parameter trigger names no parameter of the right kind (`true`
    /// for a date, `false` for an age).
    WrongParameter(bool),
    /// A date that does not parse: the text and the parser's message.
    BadDate(Seq<char>, Seq<char>),
    /// An `And` or `Or` without children.
    EmptyGroup,
}

/// The kind of the first parameter with this id, as `(id, kind)` pairs
/// list them.
pub open spec fn param_kind(params: Seq<(i64, Seq<char>)>, id: i64) -> Option<Seq<char>>
    decreases params.len(),
{
    if params.len() == 0 {
        None
    } else {
        match param_kind(params.drop_last(), id) {
            Some(k) => Some(k),
            None => if params.last().0 == id {
                Some(params.last().1)
            } else {
                None
            },
        }
    }
}

pub open spec fn parameter_fits(t: TriggerModel, params: Seq<(i64, Seq<char>)>) -> bool {
    match t {
        TriggerModel::DateParameter(p) => param_kind(params, p) == Some("Date"@),
        TriggerModel::AgeParameter(p) => param_kind(params, p) == Some("Age"@),
        _ => true,
    }
}

pub open spec fn trigger_kind(t: TriggerModel) -> Seq<char> {
    match t {
        TriggerModel::DateParameter(_) => "Date"@,
        TriggerModel::AgeParameter(_) => "Age"@,
        TriggerModel::Date(_) => "Date"@,
        TriggerModel::Age(_, _) => "Age"@,
        TriggerModel::RelativeToEvent(_, _, _) => "RelativeToEvent"@,
        TriggerModel::AccountBalance(_, _, _) => "AccountBalance"@,
        TriggerModel::AssetBalance(_, _, _, _) => "AssetBalance"@,
        TriggerModel::NetWorth(_, _) => "NetWorth"@,
        TriggerModel::And(_) => "And"@,
        TriggerModel::Or(_) => "Or"@,
        TriggerModel::Repeating(_, _, _, _) => "Repeating"@,
        TriggerModel::Manual => "Manual"@,
    }
}

pub open spec fn parent_columns(p: TriggerParent) -> (Option<i64>, Option<i64>, i64) {
    match p {
        TriggerParent::Event(e) => (Some(e), None, 0),
        TriggerParent::Node { parent_id, position } => (None, Some(parent_id), position),
        TriggerParent::Detached => (None, None, 0),
    }
}

pub open spec fn comparison_of(t: TriggerModel) -> Option<(Comparison, u64)> {
    match t {
        TriggerModel::AccountBalance(_, c, b) => Some((c, b)),
        TriggerModel::AssetBalance(_, _, c, b) => Some((c, b)),
        TriggerModel::NetWorth(c, b) => Some((c, b)),
        _ => None,
    }
}

/// A node's own row: its id, where it hangs, the date it stores and its
/// conditions' ids, with every other column read off the node.
pub open spec fn node_row(
    t: TriggerModel,
    id: int,
    parent: TriggerParent,
    date: Option<Seq<char>>,
    start: Option<i64>,
    end: Option<i64>,
) -> TriggerRowView {
    TriggerRowView {
        id: id as i64,
        event_id: parent_columns(parent).0,
        kind: trigger_kind(t),
        on_date: date,
        age_years: match t {
            TriggerModel::AgeParameter(_) => Some(0i64),
            TriggerModel::Age(y, _) => Some(y as i64),
            _ => None,
        },
        age_months: match t {
            TriggerModel::Age(_, m) => match m {
                Some(x) => Some(x as i64),
                None => None,
            },
            _ => None,
        },
        ref_event_id: match t {
            TriggerModel::RelativeToEvent(e, _, _) => Some(e),
            _ => None,
        },
        offset_unit: match t {
            TriggerModel::RelativeToEvent(_, u, _) => Some(unit_name(u)),
            _ => None,
        },
        offset_value: match t {
            TriggerModel::RelativeToEvent(_, _, v) => Some(v as i64),
            _ => None,
        },
        account_id: match t {
            TriggerModel::AccountBalance(a, _, _) => Some(a),
            TriggerModel::AssetBalance(a, _, _, _) => Some(a),
            _ => None,
        },
        asset_id: match t {
            TriggerModel::AssetBalance(_, s, _, _) => Some(s),
            _ => None,
        },
        comparison: match comparison_of(t) {
            Some((c, _)) => Some(comparison_name(c)),
            None => None,
        },
        threshold_bits: match comparison_of(t) {
            Some((_, b)) => Some(b),
            None => None,
        },
        interval: match t {
            TriggerModel::Repeating(i, _, _, _) => Some(interval_name(i)),
            _ => None,
        },
        start_trigger_id: start,
        end_trigger_id: end,
        max_occurrences: match t {
            TriggerModel::Repeating(_, _, _, m) => match m {
                Some(x) => Some(x as i64),
                None => None,
            },
            _ => None,
        },
        parent_id: parent_columns(parent).1,
        position: parent_columns(parent).2,
        parameter_id: match t {
            TriggerModel::DateParameter(p) => Some(p),
            TriggerModel::AgeParameter(p) => Some(p),
            _ => None,
        },
    }
}

/// A trigger laid out as rows numbered from `base`, with the offset of its
/// own row among them. The order is the order of the writes: its depth is
/// checked, then the parameter it names; a repeating trigger writes its
/// start condition and then its end condition (each detached) before its
/// own row; a date is checked and stored in canonical form; an `And` or
/// `Or` writes its own row, must have a child, and then writes each child
/// under it at its position. A parameter trigger stores a placeholder date
/// or age beside the parameter.
pub open spec fn trigger_layout(
    t: TriggerModel,
    parent: TriggerParent,
    depth: nat,
    base: int,
    params: Seq<(i64, Seq<char>)>,
) -> Result<(Seq<TriggerRowView>, int), TriggerFault>
    decreases t, 0nat,
{
    if depth > MAX_SPEC_DEPTH {
        Err(TriggerFault::TooDeep)
    } else if !parameter_fits(t, params) {
        Err(TriggerFault::WrongParameter(t is DateParameter))
    } else {
        match t {
            TriggerModel::Repeating(_, s, e, _) => match condition_layout(s, depth + 1, base, params) {
                Err(f) => Err(f),
                Ok((sr, sid)) => match condition_layout(e, depth + 1, base + sr.len(), params) {
                    Err(f) => Err(f),
                    Ok((er, eid)) => Ok(
                        (
                            sr + er + seq![node_row(t, base + sr.len() + er.len(), parent, None, sid, eid)],
                            (sr.len() + er.len()) as int,
                        ),
                    ),
                },
            },
            TriggerModel::And(cs) => group_layout(t, cs, parent, depth, base, params),
            TriggerModel::Or(cs) => group_layout(t, cs, parent, depth, base, params),
            TriggerModel::Date(text) => match date_text(text) {
                Ok(c) => Ok((seq![node_row(t, base, parent, Some(c), None, None)], 0)),
                Err(msg) => Err(TriggerFault::BadDate(text, msg)),
            },
            TriggerModel::DateParameter(_) => Ok(
                (seq![node_row(t, base, parent, Some("2000-01-01"@), None, None)], 0),
            ),
            _ => Ok((seq![node_row(t, base, parent, None, None, None)], 0)),
        }
    }
}

pub open spec fn group_layout(
    t: TriggerModel,
    cs: Seq<TriggerModel>,
    parent: TriggerParent,
    depth: nat,
    base: int,
    params: Seq<(i64, Seq<char>)>,
) -> Result<(Seq<TriggerRowView>, int), TriggerFault>
    decreases cs, 2nat,
{
    if cs.len() == 0 {
        Err(TriggerFault::EmptyGroup)
    } else {
        match children_layout(cs, base as i64, depth + 1, base + 1, params) {
            Err(f) => Err(f),
            Ok(cr) => Ok((seq![node_row(t, base, parent, None, None, None)] + cr, 0)),
        }
    }
}

/// A repeating trigger's start or end condition, detached, and its row id.
pub open spec fn condition_layout(
    c: Option<Box<TriggerModel>>,
    depth: nat,
    base: int,
    params: Seq<(i64, Seq<char>)>,
) -> Result<(Seq<TriggerRowView>, Option<i64>), TriggerFault>
    decreases c, 0nat,
{
    match c {
        None => Ok((Seq::empty(), None)),
        Some(b) => match trigger_layout(*b, TriggerParent::Detached, depth, base, params) {
            Ok((r, off)) => Ok((r, Some((base + off) as i64))),
            Err(f) => Err(f),
        },
    }
}

/// Children written in order under `parent_id`, each at its position.
pub open spec fn children_layout(
    cs: Seq<TriggerModel>,
    parent_id: i64,
    depth: nat,
    base: int,
    params: Seq<(i64, Seq<char>)>,
) -> Result<Seq<TriggerRowView>, TriggerFault>
    decreases cs, 1nat,
{
    if cs.len() == 0 {
        Ok(Seq::empty())
    } else {
        match children_layout(cs.subrange(0, cs.len() - 1), parent_id, depth, base, params) {
            Err(f) => Err(f),
            Ok(p) => match trigger_layout(
                cs[cs.len() - 1],
                TriggerParent::Node { parent_id, position: (cs.len() - 1) as i64 },
                depth,
                base + p.len(),
                params,
            ) {
                Err(f) => Err(f),
                Ok((r, _)) => Ok(p + r),
            },
        }
    }
}

/// How many rows a trigger takes.
pub open spec fn trigger_count(t: TriggerModel) -> nat
    decreases t, 0nat,
{
    match t {
        TriggerModel::Repeating(_, s, e, _) => 1 + condition_count(s) + condition_count(e),
        TriggerModel::And(cs) => 1 + children_count(cs),
        TriggerModel::Or(cs) => 1 + children_count(cs),
        _ => 1,
    }
}

pub open spec fn condition_count(c: Option<Box<TriggerModel>>) -> nat
    decreases c, 0nat,
{
    match c {
        None => 0,
        Some(b) => trigger_count(*b),
    }
}

pub open spec fn children_count(cs: Seq<TriggerModel>) -> nat
    decreases cs, 1nat,
{
    if cs.len() == 0 {
        0
    } else {
        children_count(cs.subrange(0, cs.len() - 1)) + trigger_count(cs[cs.len() - 1])
    }
}

proof fn lemma_trigger_len(t: TriggerModel, parent: TriggerParent, depth: nat, base: int, params: Seq<(i64, Seq<char>)>)
    ensures
        trigger_layout(t, parent, depth, base, params) matches Ok((rows, off)) ==> rows.len()
            == trigger_count(t) && 0 <= off < rows.len(),
    decreases t, 0nat,
{
    match t {
        TriggerModel::Repeating(_, s, e, _) => {
            lemma_condition_len(s, depth + 1, base, params);
            match condition_layout(s, depth + 1, base, params) {
                Ok((sr, _)) => lemma_condition_len(e, depth + 1, base + sr.len(), params),
                Err(_) => {},
            }
        },
        TriggerModel::And(cs) => lemma_children_len(cs, base as i64, depth + 1, base + 1, params),
        TriggerModel::Or(cs) => lemma_children_len(cs, base as i64, depth + 1, base + 1, params),
        _ => {},
    }
}

proof fn lemma_condition_len(c: Option<Box<TriggerModel>>, depth: nat, base: int, params: Seq<(i64, Seq<char>)>)
    ensures
        condition_layout(c, depth, base, params) matches Ok((rows, _)) ==> rows.len() == condition_count(c),
    decreases c, 0nat,
{
    match c {
        Some(b) => lemma_trigger_len(*b, TriggerParent::Detached, depth, base, params),
        None => {},
    }
}

proof fn lemma_children_len(cs: Seq<TriggerModel>, parent_id: i64, depth: nat, base: int, params: Seq<(i64, Seq<char>)>)
    ensures
        children_layout(cs, parent_id, depth, base, params) matches Ok(rows) ==> rows.len() == children_count(cs),
    decreases cs, 1nat,
{
    if cs.len() > 0 {
        let pre = cs.subrange(0, cs.len() - 1);
        lemma_children_len(pre, parent_id, depth, base, params);
        match children_layout(pre, parent_id, depth, base, params) {
            Ok(p) => lemma_trigger_len(
                cs[cs.len() - 1],
                TriggerParent::Node { parent_id, position: (cs.len() - 1) as i64 },
                depth,
                base + p.len(),
                params,
            ),
            Err(_) => {},
        }
    }
}

proof fn lemma_models(s: Seq<TriggerSpec>)
    ensures
        trigger_models(s).len() == s.len(),
        forall|k: int| 0 <= k < s.len() ==> #[trigger] trigger_models(s)[k] == trigger_model(s[k]),
        forall|k: int| 0 <= k <= s.len() ==> #[trigger] trigger_models(s.subrange(0, k)) == trigger_models(s).subrange(0, k),
    decreases s.len(),
{
    if s.len() > 0 {
        let pre = s.subrange(0, s.len() - 1);
        lemma_models(pre);
        assert forall|k: int| 0 <= k <= s.len() implies #[trigger] trigger_models(s.subrange(0, k)) == trigger_models(s).subrange(0, k) by {
            if k < s.len() {
                assert(s.subrange(0, k) == pre.subrange(0, k));
            } else {
                assert(s.subrange(0, k) == s);
            }
        }
        assert forall|k: int| 0 <= k < s.len() implies #[trigger] trigger_models(s)[k] == trigger_model(s[k]) by {
            if k < s.len() - 1 {
                assert(pre[k] == s[k]);
            }
        }
    }
}

pub open spec fn param_views(p: Seq<(i64, String)>) -> Seq<(i64, Seq<char>)> {
    p.map_values(|e: (i64, String)| (e.0, e.1@))
}

pub open spec fn trigger_error(f: TriggerFault, e: ApiError) -> bool {
    match f {
        TriggerFault::TooDeep => e matches ApiError::BadRequest(m) && m@
            == "expression nests deeper than 64 levels"@,
        TriggerFault::WrongParameter(date) => e matches ApiError::BadRequest(m) && m@ == (if date {
            "Date trigger requires a Date parameter from this scenario"@
        } else {
            "Age trigger requires a Age parameter from this scenario"@
        }),
        TriggerFault::BadDate(text, msg) => e matches ApiError::BadRequest(m) && m@ == "invalid "@
            + "date"@ + " '"@ + text + "': "@ + msg,
        TriggerFault::EmptyGroup => e matches ApiError::BadRequest(m) && m@
            == "And/Or triggers need at least one child condition"@,
    }
}

/// The kind of the parameter with this id among the scenario's parameters.
fn parameter_kind<'a>(params: &'a [(i64, String)], id: i64) -> (r: Option<&'a str>)
    ensures
        match r {
            Some(k) => param_kind(param_views(params@), id) == Some(k@),
            None => param_kind(param_views(params@), id) is None,
        },
{
    let ghost v = param_views(params@);
    let mut i: usize = 0;
    while i < params.len()
        invariant
            i <= params@.len(),
            v == param_views(params@),
            param_kind(v.subrange(0, i as int), id) is None,
        decreases params@.len() - i,
    {
        assert(v.subrange(0, i + 1).drop_last() == v.subrange(0, i as int));
        if params[i].0 == id {
            proof {
                lemma_param_kind_prefix(v, id, i as int);
            }
            return Some(params[i].1.as_str());
        }
        i = i + 1;
    }
    assert(v.subrange(0, i as int) == v);
    None
}

proof fn lemma_param_kind_prefix(v: Seq<(i64, Seq<char>)>, id: i64, i: int)
    requires
        0 <= i < v.len(),
        param_kind(v.subrange(0, i), id) is None,
        v[i].0 == id,
    ensures
        param_kind(v, id) == Some(v[i].1),
    decreases v.len() - i,
{
    if i + 1 < v.len() {
        assert(v.drop_last().subrange(0, i) == v.subrange(0, i));
        lemma_param_kind_prefix(v.drop_last(), id, i);
    } else {
        assert(v.drop_last() == v.subrange(0, i));
    }
}

fn opt_i64_of_u8(m: Option<u8>) -> (r: Option<i64>)
    ensures
        r == (match m {
            Some(x) => Some(x as i64),
            None => None::<i64>,
        }),
{
    match m {
        Some(x) => Some(x as i64),
        None => None,
    }
}

/// A node's own row.
fn node_row_of(
    spec: &TriggerSpec,
    id: i64,
    parent: TriggerParent,
    date: Option<String>,
    start: Option<i64>,
    end: Option<i64>,
) -> (r: TriggerRow)
    ensures
        trigger_row_view(r) == node_row(spec@, id as int, parent, text_of(date), start, end),
{
    let (event_id, parent_id, position) = parent.columns();
    let kind = match spec {
        TriggerSpec::DateParameter { .. } => "Date",
        TriggerSpec::AgeParameter { .. } => "Age",
        TriggerSpec::Date { .. } => "Date",
        TriggerSpec::Age { .. } => "Age",
        TriggerSpec::RelativeToEvent { .. } => "RelativeToEvent",
        TriggerSpec::AccountBalance { .. } => "AccountBalance",
        TriggerSpec::AssetBalance { .. } => "AssetBalance",
        TriggerSpec::NetWorth { .. } => "NetWorth",
        TriggerSpec::And { .. } => "And",
        TriggerSpec::Or { .. } => "Or",
        TriggerSpec::Repeating { .. } => "Repeating",
        TriggerSpec::Manual => "Manual",
    };
    let (age_years, age_months) = match spec {
        TriggerSpec::AgeParameter { .. } => (Some(0i64), None),
        TriggerSpec::Age { years, months } => (Some(*years as i64), opt_i64_of_u8(*months)),
        _ => (None, None),
    };
    let (ref_event_id, offset_unit, offset_value) = match spec {
        TriggerSpec::RelativeToEvent { event_id, unit, value } => (
            Some(*event_id),
            Some(owned(unit.as_str())),
            Some(*value as i64),
        ),
        _ => (None, None, None),
    };
    let (account_id, asset_id) = match spec {
        TriggerSpec::AccountBalance { account_id, .. } => (Some(*account_id), None),
        TriggerSpec::AssetBalance { account_id, asset_id, .. } => (Some(*account_id), Some(*asset_id)),
        _ => (None, None),
    };
    let (comparison, threshold_bits) = match spec {
        TriggerSpec::AccountBalance { comparison, threshold_bits, .. } => (
            Some(owned(comparison.as_str())),
            Some(*threshold_bits),
        ),
        TriggerSpec::AssetBalance { comparison, threshold_bits, .. } => (
            Some(owned(comparison.as_str())),
            Some(*threshold_bits),
        ),
        TriggerSpec::NetWorth { comparison, threshold_bits } => (
            Some(owned(comparison.as_str())),
            Some(*threshold_bits),
        ),
        _ => (None, None),
    };
    let (interval, max_occurrences) = match spec {
        TriggerSpec::Repeating { interval, max_occurrences, .. } => (
            Some(owned(interval.as_str())),
            match max_occurrences {
                Some(m) => Some(*m as i64),
                None => None,
            },
        ),
        _ => (None, None),
    };
    let parameter_id = match spec {
        TriggerSpec::DateParameter { parameter_id } => Some(*parameter_id),
        TriggerSpec::AgeParameter { parameter_id } => Some(*parameter_id),
        _ => None,
    };
    TriggerRow {
        id,
        event_id,
        kind: owned(kind),
        on_date: date,
        age_years,
        age_months,
        ref_event_id,
        offset_unit,
        offset_value,
        account_id,
        asset_id,
        comparison,
        threshold_bits,
        interval,
        start_trigger_id: start,
        end_trigger_id: end,
        max_occurrences,
        parent_id,
        position,
        parameter_id,
    }
}

proof fn lemma_children_count_prefix(cs: Seq<TriggerModel>, k: int)
    requires
        0 <= k <= cs.len(),
    ensures
        children_count(cs.subrange(0, k)) <= children_count(cs),
        k < cs.len() ==> children_count(cs.subrange(0, k + 1)) == children_count(cs.subrange(0, k))
            + trigger_count(cs[k]),
    decreases cs.len(),
{
    if k < cs.len() {
        let pre = cs.subrange(0, cs.len() - 1);
        assert(cs.subrange(0, k + 1).subrange(0, k) == cs.subrange(0, k));
        if k < cs.len() - 1 {
            lemma_children_count_prefix(pre, k);
            assert(pre.subrange(0, k) == cs.subrange(0, k));
        } else {
            assert(pre == cs.subrange(0, k));
            assert(cs.subrange(0, k + 1) == cs);
        }
    } else {
        assert(cs.subrange(0, k) == cs);
    }
}

proof fn lemma_children_step(
    cs: Seq<TriggerModel>,
    k: int,
    parent_id: i64,
    depth: nat,
    base: int,
    params: Seq<(i64, Seq<char>)>,
)
    requires
        0 <= k < cs.len(),
    ensures
        children_layout(cs.subrange(0, k + 1), parent_id, depth, base, params) == (match children_layout(
            cs.subrange(0, k),
            parent_id,
            depth,
            base,
            params,
        ) {
            Err(f) => Err(f),
            Ok(p) => match trigger_layout(
                cs[k],
                TriggerParent::Node { parent_id, position: k as i64 },
                depth,
                base + p.len(),
                params,
            ) {
                Err(f) => Err(f),
                Ok((r, _)) => Ok(p + r),
            },
        }),
{
    assert(cs.subrange(0, k + 1).subrange(0, k) == cs.subrange(0, k));
    assert(cs.subrange(0, k + 1)[k] == cs[k]);
}

proof fn lemma_children_err_sticks(
    cs: Seq<TriggerModel>,
    j: int,
    parent_id: i64,
    depth: nat,
    base: int,
    params: Seq<(i64, Seq<char>)>,
)
    requires
        0 <= j <= cs.len(),
        children_layout(cs.subrange(0, j), parent_id, depth, base, params) is Err,
    ensures
        children_layout(cs, parent_id, depth, base, params) == children_layout(
            cs.subrange(0, j),
            parent_id,
            depth,
            base,
            params,
        ),
    decreases cs.len() - j,
{
    if j < cs.len() {
        lemma_children_step(cs, j, parent_id, depth, base, params);
        lemma_children_err_sticks(cs, j + 1, parent_id, depth, base, params);
    } else {
        assert(cs.subrange(0, j) == cs);
    }
}

/// Lay a trigger out as rows numbered from `base`, as [`trigger_layout`]
/// says, with the offset of its own row. `params` lists the scenario's
/// parameters as (id, kind) pairs.
pub fn trigger_rows(
    spec: &TriggerSpec,
    parent: TriggerParent,
    depth: usize,
    base: i64,
    params: &[(i64, String)],
) -> (r: Result<(Vec<TriggerRow>, usize), ApiError>)
    requires
        base >= 0,
        base + trigger_count(spec@) <= i64::MAX,
    ensures
        match trigger_layout(spec@, parent, depth as nat, base as int, param_views(params@)) {
            Ok((rows, off)) => r matches Ok((v, o)) && trigger_row_views(v@) == rows && o == off,
            Err(f) => r matches Err(e) && trigger_error(f, e),
        },
    decreases trigger_count(spec@),
{
    let ghost pv = param_views(params@);
    match check_depth(depth) {
        Ok(()) => {},
        Err(e) => return Err(e),
    }
    match spec {
        TriggerSpec::DateParameter { parameter_id } => {
            let ok = match parameter_kind(params, *parameter_id) {
                Some(k) => same_text(k, "Date"),
                None => false,
            };
            if !ok {
                return Err(
                    ApiError::bad_request("Date trigger requires a Date parameter from this scenario"),
                );
            }
        },
        TriggerSpec::AgeParameter { parameter_id } => {
            let ok = match parameter_kind(params, *parameter_id) {
                Some(k) => same_text(k, "Age"),
                None => false,
            };
            if !ok {
                return Err(
                    ApiError::bad_request("Age trigger requires a Age parameter from this scenario"),
                );
            }
        },
        _ => {},
    }
    proof {
        lemma_trigger_len(spec@, parent, depth as nat, base as int, pv);
    }
    match spec {
        TriggerSpec::Repeating { start_condition, end_condition, .. } => {
            let (mut rows, sid) = match start_condition {
                Some(b) => {
                    proof {
                        lemma_trigger_len(b@, TriggerParent::Detached, (depth + 1) as nat, base as int, pv);
                    }
                    match trigger_rows(b, TriggerParent::Detached, depth + 1, base, params) {
                        Ok((r, off)) => {
                            let id = base + off as i64;
                            (r, Some(id))
                        },
                        Err(e) => return Err(e),
                    }
                },
                None => (Vec::new(), None),
            };
            let next = base + rows.len() as i64;
            let (mut erows, eid) = match end_condition {
                Some(b) => {
                    proof {
                        lemma_trigger_len(b@, TriggerParent::Detached, (depth + 1) as nat, next as int, pv);
                    }
                    match trigger_rows(b, TriggerParent::Detached, depth + 1, next, params) {
                        Ok((r, off)) => {
                            let id = next + off as i64;
                            (r, Some(id))
                        },
                        Err(e) => return Err(e),
                    }
                },
                None => (Vec::new(), None),
            };
            let ghost sv = trigger_row_views(rows@);
            let ghost ev = trigger_row_views(erows@);
            rows.append(&mut erows);
            let off = rows.len();
            let id = base + off as i64;
            let node = node_row_of(spec, id, parent, None, sid, eid);
            rows.push(node);
            assert(trigger_row_views(rows@) == sv + ev + seq![trigger_row_view(node)]);
            Ok((rows, off))
        },
        TriggerSpec::And { children } | TriggerSpec::Or { children } => {
            let ghost ms = trigger_models(children@);
            proof {
                lemma_models(children@);
                assert(ms.subrange(0, 0) == Seq::<TriggerModel>::empty());
            }
            if children.len() == 0 {
                return Err(ApiError::bad_request("And/Or triggers need at least one child condition"));
            }
            let node = node_row_of(spec, base, parent, None, None, None);
            let mut rows = vec![node];
            let mut k: usize = 0;
            assert(trigger_row_views(rows@) == seq![trigger_row_view(node)]);
            while k < children.len()
                invariant
                    0 <= k <= children@.len(),
                    ms == trigger_models(children@),
                    ms.len() == children@.len(),
                    forall|j: int| 0 <= j < children@.len() ==> #[trigger] ms[j] == trigger_model(children@[j]),
                    base >= 0,
                    base + 1 + children_count(ms) <= i64::MAX,
                    depth <= MAX_SPEC_DEPTH,
                    pv == param_views(params@),
                    children_layout(ms.subrange(0, k as int), base as i64, (depth + 1) as nat, base + 1, pv)
                        matches Ok(cr) && trigger_row_views(rows@) == seq![trigger_row_view(node)] + cr,
                    rows@.len() == 1 + children_count(ms.subrange(0, k as int)),
                    trigger_count(spec@) == 1 + children_count(ms),
                    ms.len() > 0,
                    trigger_layout(spec@, parent, depth as nat, base as int, pv) == group_layout(
                        spec@,
                        ms,
                        parent,
                        depth as nat,
                        base as int,
                        pv,
                    ),
                decreases children@.len() - k,
            {
                proof {
                    lemma_children_count_prefix(ms, k as int);
                    lemma_children_count_prefix(ms, k + 1);
                    lemma_children_step(ms, k as int, base as i64, (depth + 1) as nat, base + 1, pv);
                    lemma_children_len(ms.subrange(0, k as int), base as i64, (depth + 1) as nat, base + 1, pv);
                }
                let next = base + rows.len() as i64;
                let ghost before = trigger_row_views(rows@);
                match trigger_rows(
                    &children[k],
                    TriggerParent::Node { parent_id: base, position: k as i64 },
                    depth + 1,
                    next,
                    params,
                ) {
                    Ok((mut r, _)) => {
                        let ghost rv = trigger_row_views(r@);
                        proof {
                            lemma_trigger_len(
                                ms[k as int],
                                TriggerParent::Node { parent_id: base as i64, position: k as i64 },
                                (depth + 1) as nat,
                                next as int,
                                pv,
                            );
                        }
                        rows.append(&mut r);
                        assert(trigger_row_views(rows@) == before + rv);
                    },
                    Err(e) => {
                        proof {
                            lemma_children_err_sticks(ms, k + 1, base as i64, (depth + 1) as nat, base + 1, pv);
                            assert(ms.subrange(0, ms.len() as int) == ms);
                        }
                        return Err(e);
                    },
                }
                k = k + 1;
            }
            assert(ms.subrange(0, k as int) == ms);
            Ok((rows, 0))
        },
        TriggerSpec::Date { on_date } => match date_field(on_date.as_str(), "date") {
            Ok(c) => {
                let v = vec![node_row_of(spec, base, parent, Some(c), None, None)];
                assert(trigger_row_views(v@) == seq![trigger_row_view(v@[0])]);
                Ok((v, 0))
            },
            Err(e) => Err(e),
        },
        TriggerSpec::DateParameter { .. } => {
            let v = vec![node_row_of(spec, base, parent, Some(owned("2000-01-01")), None, None)];
            assert(trigger_row_views(v@) == seq![trigger_row_view(v@[0])]);
            Ok((v, 0))
        },
        _ => {
            let v = vec![node_row_of(spec, base, parent, None, None, None)];
            assert(trigger_row_views(v@) == seq![trigger_row_view(v@[0])]);
            Ok((v, 0))
        },
    }
}

/// Why rows cannot be read back as a trigger.
pub enum TriggerReadFault {
    /// The walk went deeper than any written tree can: the rows loop.
    Cyclic,
    /// No row has the id asked for.
    Missing,
}

/// The position of the first row with this id, or -1.
pub open spec fn trigger_index(rows: Seq<TriggerRowView>, id: i64) -> int
    decreases rows.len(),
{
    if rows.len() == 0 {
        -1
    } else {
        let k = trigger_index(rows.drop_last(), id);
        if k >= 0 {
            k
        } else if rows.last().id == id {
            rows.len() - 1
        } else {
            -1
        }
    }
}

/// The ids of the rows that hang under `id`, in the order the rows come.
pub open spec fn child_ids(rows: Seq<TriggerRowView>, id: i64) -> Seq<i64>
    decreases rows.len(),
{
    if rows.len() == 0 {
        Seq::empty()
    } else {
        let p = child_ids(rows.drop_last(), id);
        if rows.last().parent_id == Some(id) {
            p.push(rows.last().id)
        } else {
            p
        }
    }
}

pub open spec fn or_zero(v: Option<i64>) -> i64 {
    match v {
        Some(x) => x,
        None => 0,
    }
}

pub open spec fn comparison_named(c: Option<Seq<char>>) -> Comparison {
    if c == Some("LessThanOrEqual"@) {
        Comparison::LessThanOrEqual
    } else {
        Comparison::GreaterThanOrEqual
    }
}

pub open spec fn unit_named(u: Option<Seq<char>>) -> OffsetUnit {
    if u == Some("Days"@) {
        OffsetUnit::Days
    } else if u == Some("Years"@) {
        OffsetUnit::Years
    } else {
        OffsetUnit::Months
    }
}

pub open spec fn interval_named(i: Option<Seq<char>>) -> Interval {
    if i == Some("Never"@) {
        Interval::Never
    } else if i == Some("Weekly"@) {
        Interval::Weekly
    } else if i == Some("BiWeekly"@) {
        Interval::BiWeekly
    } else if i == Some("Quarterly"@) {
        Interval::Quarterly
    } else if i == Some("Yearly"@) {
        Interval::Yearly
    } else {
        Interval::Monthly
    }
}

/// The trigger rooted at row `id`. Past depth 64 the rows are taken to
/// loop. A date or age row naming a parameter is a parameter trigger; a
/// missing column reads as empty or zero, a missing or unknown comparison as
/// at-least, unit as months and interval as monthly; an `And` or `Or` has
/// the rows hanging under it as children, in order; a repeating trigger
/// reads its start, then its end condition; an unknown kind is manual.
pub open spec fn read_trigger_model(rows: Seq<TriggerRowView>, id: i64, depth: nat) -> Result<
    TriggerModel,
    TriggerReadFault,
>
    decreases 65 - depth, 0nat,
{
    if depth > 64 {
        Err(TriggerReadFault::Cyclic)
    } else {
        let i = trigger_index(rows, id);
        if i < 0 {
            Err(TriggerReadFault::Missing)
        } else {
            let r = rows[i];
            let k = r.kind;
            if k == "Date"@ && r.parameter_id is Some {
                Ok(TriggerModel::DateParameter(r.parameter_id->0))
            } else if k == "Age"@ && r.parameter_id is Some {
                Ok(TriggerModel::AgeParameter(r.parameter_id->0))
            } else if k == "Date"@ {
                Ok(
                    TriggerModel::Date(
                        match r.on_date {
                            Some(d) => d,
                            None => Seq::empty(),
                        },
                    ),
                )
            } else if k == "Age"@ {
                Ok(
                    TriggerModel::Age(
                        or_zero(r.age_years) as u8,
                        match r.age_months {
                            Some(m) => Some(m as u8),
                            None => None,
                        },
                    ),
                )
            } else if k == "RelativeToEvent"@ {
                Ok(
                    TriggerModel::RelativeToEvent(
                        or_zero(r.ref_event_id),
                        unit_named(r.offset_unit),
                        or_zero(r.offset_value) as i32,
                    ),
                )
            } else if k == "AccountBalance"@ {
                Ok(
                    TriggerModel::AccountBalance(
                        or_zero(r.account_id),
                        comparison_named(r.comparison),
                        crate::amounts::bits_or(r.threshold_bits, 0),
                    ),
                )
            } else if k == "AssetBalance"@ {
                Ok(
                    TriggerModel::AssetBalance(
                        or_zero(r.account_id),
                        or_zero(r.asset_id),
                        comparison_named(r.comparison),
                        crate::amounts::bits_or(r.threshold_bits, 0),
                    ),
                )
            } else if k == "NetWorth"@ {
                Ok(
                    TriggerModel::NetWorth(
                        comparison_named(r.comparison),
                        crate::amounts::bits_or(r.threshold_bits, 0),
                    ),
                )
            } else if k == "And"@ || k == "Or"@ {
                match read_children(rows, child_ids(rows, id), depth + 1) {
                    Ok(cs) => Ok(
                        if k == "And"@ {
                            TriggerModel::And(cs)
                        } else {
                            TriggerModel::Or(cs)
                        },
                    ),
                    Err(f) => Err(f),
                }
            } else if k == "Repeating"@ {
                match read_condition(rows, r.start_trigger_id, depth + 1) {
                    Err(f) => Err(f),
                    Ok(s) => match read_condition(rows, r.end_trigger_id, depth + 1) {
                        Err(f) => Err(f),
                        Ok(e) => Ok(
                            TriggerModel::Repeating(
                                interval_named(r.interval),
                                s,
                                e,
                                match r.max_occurrences {
                                    Some(m) => Some(m as u32),
                                    None => None,
                                },
                            ),
                        ),
                    },
                }
            } else {
                Ok(TriggerModel::Manual)
            }
        }
    }
}

pub open spec fn read_condition(rows: Seq<TriggerRowView>, id: Option<i64>, depth: nat) -> Result<
    Option<Box<TriggerModel>>,
    TriggerReadFault,
>
    decreases 65 - depth, 1nat,
{
    match id {
        None => Ok(None),
        Some(x) => match read_trigger_model(rows, x, depth) {
            Ok(m) => Ok(Some(Box::new(m))),
            Err(f) => Err(f),
        },
    }
}

pub open spec fn read_children(rows: Seq<TriggerRowView>, ids: Seq<i64>, depth: nat) -> Result<
    Seq<TriggerModel>,
    TriggerReadFault,
>
    decreases 65 - depth, ids.len() + 1,
{
    if ids.len() == 0 {
        Ok(Seq::empty())
    } else {
        match read_children(rows, ids.drop_last(), depth) {
            Err(f) => Err(f),
            Ok(p) => match read_trigger_model(rows, ids.last(), depth) {
                Ok(m) => Ok(p.push(m)),
                Err(f) => Err(f),
            },
        }
    }
}

pub open spec fn read_trigger_error(f: TriggerReadFault, e: ApiError) -> bool {
    match f {
        TriggerReadFault::Cyclic => e matches ApiError::Internal(m) && m@ == "trigger graph is cyclic"@,
        TriggerReadFault::Missing => e == ApiError::NotFound("trigger"),
    }
}

proof fn lemma_trigger_index(rows: Seq<TriggerRowView>, id: i64)
    ensures
        trigger_index(rows, id) < rows.len(),
        trigger_index(rows, id) >= 0 ==> rows[trigger_index(rows, id)].id == id && forall|j: int|
            0 <= j < trigger_index(rows, id) ==> rows[j].id != id,
        trigger_index(rows, id) < 0 ==> (trigger_index(rows, id) == -1 && forall|j: int|
            0 <= j < rows.len() ==> rows[j].id != id),
    decreases rows.len(),
{
    if rows.len() > 0 {
        let d = rows.drop_last();
        lemma_trigger_index(d, id);
        assert forall|j: int| 0 <= j < d.len() implies d[j] == rows[j] by {}
    }
}

fn find_trigger_row(rows: &[TriggerRow], id: i64) -> (r: Option<usize>)
    ensures
        match r {
            Some(i) => i < rows@.len() && i as int == trigger_index(trigger_row_views(rows@), id),
            None => trigger_index(trigger_row_views(rows@), id) < 0,
        },
{
    let ghost v = trigger_row_views(rows@);
    let mut i: usize = 0;
    while i < rows.len()
        invariant
            i <= rows@.len(),
            v == trigger_row_views(rows@),
            forall|j: int| 0 <= j < i ==> v[j].id != id,
        decreases rows@.len() - i,
    {
        if rows[i].id == id {
            proof {
                lemma_trigger_index(v, id);
                let k = trigger_index(v, id);
                if k < 0 || k > i {
                    assert(v[i as int].id == id);
                }
            }
            return Some(i);
        }
        i = i + 1;
    }
    proof {
        lemma_trigger_index(v, id);
        let k = trigger_index(v, id);
        if k >= 0 {
            assert(v[k].id == id);
        }
    }
    None
}

/// The ids of the rows hanging under `id`, in row order.
fn children_of(rows: &[TriggerRow], id: i64) -> (r: Vec<i64>)
    ensures
        r@ == child_ids(trigger_row_views(rows@), id),
{
    let ghost v = trigger_row_views(rows@);
    let mut out: Vec<i64> = Vec::new();
    let mut i: usize = 0;
    while i < rows.len()
        invariant
            i <= rows@.len(),
            v == trigger_row_views(rows@),
            out@ == child_ids(v.subrange(0, i as int), id),
        decreases rows@.len() - i,
    {
        assert(v.subrange(0, i + 1).drop_last() == v.subrange(0, i as int));
        assert(v.subrange(0, i + 1).last() == trigger_row_view(rows@[i as int]));
        if rows[i].parent_id == Some(id) {
            out.push(rows[i].id);
        }
        i = i + 1;
    }
    assert(v.subrange(0, i as int) == v);
    out
}

proof fn lemma_read_children_err(rows: Seq<TriggerRowView>, ids: Seq<i64>, j: int, depth: nat)
    requires
        0 <= j <= ids.len(),
        read_children(rows, ids.subrange(0, j), depth) is Err,
    ensures
        read_children(rows, ids, depth) == read_children(rows, ids.subrange(0, j), depth),
    decreases ids.len() - j,
{
    if j < ids.len() {
        assert(ids.subrange(0, j + 1).drop_last() == ids.subrange(0, j));
        lemma_read_children_err(rows, ids, j + 1, depth);
    } else {
        assert(ids.subrange(0, j) == ids);
    }
}

fn text_or_empty(t: &Option<String>) -> (r: String)
    ensures
        r@ == (match text_of(*t) {
            Some(d) => d,
            None => Seq::<char>::empty(),
        }),
{
    match t {
        Some(d) => owned(d.as_str()),
        None => String::new(),
    }
}

fn comparison_from(c: &Option<String>) -> (r: Comparison)
    ensures
        r == comparison_named(text_of(*c)),
{
    match c {
        Some(t) => if same_text(t.as_str(), "LessThanOrEqual") {
            Comparison::LessThanOrEqual
        } else {
            Comparison::GreaterThanOrEqual
        },
        None => Comparison::GreaterThanOrEqual,
    }
}

fn unit_from(u: &Option<String>) -> (r: OffsetUnit)
    ensures
        r == unit_named(text_of(*u)),
{
    match u {
        Some(t) => if same_text(t.as_str(), "Days") {
            OffsetUnit::Days
        } else if same_text(t.as_str(), "Years") {
            OffsetUnit::Years
        } else {
            OffsetUnit::Months
        },
        None => OffsetUnit::Months,
    }
}

fn interval_from(i: &Option<String>) -> (r: Interval)
    ensures
        r == interval_named(text_of(*i)),
{
    match i {
        Some(t) => {
            let t = t.as_str();
            if same_text(t, "Never") {
                Interval::Never
            } else if same_text(t, "Weekly") {
                Interval::Weekly
            } else if same_text(t, "BiWeekly") {
                Interval::BiWeekly
            } else if same_text(t, "Quarterly") {
                Interval::Quarterly
            } else if same_text(t, "Yearly") {
                Interval::Yearly
            } else {
                Interval::Monthly
            }
        },
        None => Interval::Monthly,
    }
}

fn zero_or(v: Option<i64>) -> (r: i64)
    ensures
        r == or_zero(v),
{
    match v {
        Some(x) => x,
        None => 0,
    }
}

/// Read the trigger rooted at row `id` back, as [`read_trigger_model`]
/// says. The rows of a parent's children come in the order given, which
/// the store keeps by position.
pub fn read_trigger(rows: &[TriggerRow], id: i64, depth: usize) -> (r: Result<TriggerSpec, ApiError>)
    ensures
        match read_trigger_model(trigger_row_views(rows@), id, depth as nat) {
            Ok(m) => r matches Ok(t) && t@ == m,
            Err(f) => r matches Err(e) && read_trigger_error(f, e),
        },
    decreases 65 - depth,
{
    let ghost v = trigger_row_views(rows@);
    if depth > 64 {
        return Err(ApiError::internal("trigger graph is cyclic"));
    }
    let i = match find_trigger_row(rows, id) {
        Some(i) => i,
        None => return Err(ApiError::NotFound("trigger")),
    };
    let row = &rows[i];
    assert(v[i as int] == trigger_row_view(*row));
    let k = row.kind.as_str();
    let is_date = same_text(k, "Date");
    let is_age = same_text(k, "Age");
    if is_date && row.parameter_id.is_some() {
        return Ok(TriggerSpec::DateParameter { parameter_id: row.parameter_id.unwrap() });
    }
    if is_age && row.parameter_id.is_some() {
        return Ok(TriggerSpec::AgeParameter { parameter_id: row.parameter_id.unwrap() });
    }
    if is_date {
        return Ok(TriggerSpec::Date { on_date: text_or_empty(&row.on_date) });
    }
    if is_age {
        let months = match row.age_months {
            Some(m) => Some(m as u8),
            None => None,
        };
        return Ok(TriggerSpec::Age { years: zero_or(row.age_years) as u8, months });
    }
    if same_text(k, "RelativeToEvent") {
        return Ok(
            TriggerSpec::RelativeToEvent {
                event_id: zero_or(row.ref_event_id),
                unit: unit_from(&row.offset_unit),
                value: zero_or(row.offset_value) as i32,
            },
        );
    }
    let threshold_bits = match row.threshold_bits {
        Some(b) => b,
        None => 0,
    };
    if same_text(k, "AccountBalance") {
        return Ok(
            TriggerSpec::AccountBalance {
                account_id: zero_or(row.account_id),
                comparison: comparison_from(&row.comparison),
                threshold_bits,
            },
        );
    }
    if same_text(k, "AssetBalance") {
        return Ok(
            TriggerSpec::AssetBalance {
                account_id: zero_or(row.account_id),
                asset_id: zero_or(row.asset_id),
                comparison: comparison_from(&row.comparison),
                threshold_bits,
            },
        );
    }
    if same_text(k, "NetWorth") {
        return Ok(
            TriggerSpec::NetWorth { comparison: comparison_from(&row.comparison), threshold_bits },
        );
    }
    let is_and = same_text(k, "And");
    if is_and || same_text(k, "Or") {
        let ids = children_of(rows, id);
        let mut children: Vec<TriggerSpec> = Vec::new();
        let mut j: usize = 0;
        while j < ids.len()
            invariant
                j <= ids@.len(),
                v == trigger_row_views(rows@),
                ids@ == child_ids(v, id),
                depth <= 64,
                read_children(v, ids@.subrange(0, j as int), (depth + 1) as nat) == Ok::<
                    Seq<TriggerModel>,
                    TriggerReadFault,
                >(trigger_models(children@)),
                read_trigger_model(v, id, depth as nat) == (match read_children(
                    v,
                    ids@,
                    (depth + 1) as nat,
                ) {
                    Ok(cs) => Ok(
                        if is_and {
                            TriggerModel::And(cs)
                        } else {
                            TriggerModel::Or(cs)
                        },
                    ),
                    Err(f) => Err(f),
                }),
            decreases ids@.len() - j,
        {
            assert(ids@.subrange(0, j + 1).drop_last() == ids@.subrange(0, j as int));
            assert(ids@.subrange(0, j + 1).last() == ids@[j as int]);
            match read_trigger(rows, ids[j], depth + 1) {
                Ok(t) => {
                    let ghost before = children@;
                    children.push(t);
                    assert(children@.subrange(0, children@.len() - 1) == before);
                },
                Err(e) => {
                    proof {
                        lemma_read_children_err(v, ids@, j + 1, (depth + 1) as nat);
                    }
                    return Err(e);
                },
            }
            j = j + 1;
        }
        assert(ids@.subrange(0, j as int) == ids@);
        if is_and {
            return Ok(TriggerSpec::And { children });
        }
        return Ok(TriggerSpec::Or { children });
    }
    if same_text(k, "Repeating") {
        let start_condition = match row.start_trigger_id {
            Some(x) => match read_trigger(rows, x, depth + 1) {
                Ok(t) => Some(Box::new(t)),
                Err(e) => return Err(e),
            },
            None => None,
        };
        let end_condition = match row.end_trigger_id {
            Some(x) => match read_trigger(rows, x, depth + 1) {
                Ok(t) => Some(Box::new(t)),
                Err(e) => return Err(e),
            },
            None => None,
        };
        return Ok(
            TriggerSpec::Repeating {
                interval: interval_from(&row.interval),
                start_condition,
                end_condition,
                max_occurrences: match row.max_occurrences {
                    Some(m) => Some(m as u32),
                    None => None,
                },
            },
        );
    }
    Ok(TriggerSpec::Manual)
}

/// A trigger as it reads back: every date in canonical form.
pub open spec fn normalized(t: TriggerModel) -> TriggerModel
    decreases t, 0nat,
{
    match t {
        TriggerModel::Date(text) => TriggerModel::Date(
            match date_text(text) {
                Ok(c) => c,
                Err(_) => text,
            },
        ),
        TriggerModel::And(cs) => TriggerModel::And(normalized_all(cs)),
        TriggerModel::Or(cs) => TriggerModel::Or(normalized_all(cs)),
        TriggerModel::Repeating(i, s, e, m) => TriggerModel::Repeating(
            i,
            normalized_condition(s),
            normalized_condition(e),
            m,
        ),
        _ => t,
    }
}

pub open spec fn normalized_condition(c: Option<Box<TriggerModel>>) -> Option<Box<TriggerModel>>
    decreases c, 0nat,
{
    match c {
        Some(b) => Some(Box::new(normalized(*b))),
        None => None,
    }
}

pub open spec fn normalized_all(cs: Seq<TriggerModel>) -> Seq<TriggerModel>
    decreases cs, 1nat,
{
    if cs.len() == 0 {
        Seq::empty()
    } else {
        normalized_all(cs.subrange(0, cs.len() - 1)).push(normalized(cs[cs.len() - 1]))
    }
}

pub open spec fn numbered(rows: Seq<TriggerRowView>, b: int) -> bool {
    forall|i: int| 0 <= i < rows.len() ==> #[trigger] rows[i].id == b + i
}

pub open spec fn inside(x: Option<i64>, lo: int, hi: int) -> bool {
    x matches Some(p) && lo <= p < hi
}

/// No row outside the ids `[lo, hi)` hangs under a row inside them.
pub open spec fn closed(all: Seq<TriggerRowView>, lo: int, hi: int) -> bool {
    forall|i: int|
        0 <= i < all.len() && !(lo <= all[i].id < hi) ==> !inside(#[trigger] all[i].parent_id, lo, hi)
}

pub(crate) proof fn lemma_trigger_shape(
    t: TriggerModel,
    parent: TriggerParent,
    depth: nat,
    base: int,
    params: Seq<(i64, Seq<char>)>,
)
    requires
        base >= 0,
        base + trigger_count(t) <= i64::MAX,
    ensures
        trigger_layout(t, parent, depth, base, params) matches Ok((rows, off)) ==> {
            &&& numbered(rows, base)
            &&& rows.len() == trigger_count(t)
            &&& 0 <= off < rows.len()
            &&& rows[off].parent_id == parent_columns(parent).1
            &&& forall|i: int|
                0 <= i < rows.len() && i != off ==> (#[trigger] rows[i].parent_id is None || inside(
                    rows[i].parent_id,
                    base,
                    base + rows.len(),
                ))
        },
    decreases t, 0nat,
{
    lemma_trigger_len(t, parent, depth, base, params);
    match t {
        TriggerModel::Repeating(_, s, e, _) => {
            lemma_condition_shape(s, depth + 1, base, params);
            lemma_condition_len(s, depth + 1, base, params);
            match condition_layout(s, depth + 1, base, params) {
                Ok((sr, _)) => {
                    lemma_condition_shape(e, depth + 1, base + sr.len(), params);
                    lemma_condition_len(e, depth + 1, base + sr.len(), params);
                    match condition_layout(e, depth + 1, base + sr.len(), params) {
                        Ok((er, _)) => {
                            if trigger_layout(t, parent, depth, base, params) is Ok {
                                let rows = sr + er + seq![
                                    node_row(t, base + sr.len() + er.len(), parent, None, None, None),
                                ];
                                let full = trigger_layout(t, parent, depth, base, params)->Ok_0.0;
                                assert forall|i: int| 0 <= i < full.len() implies #[trigger] full[i].id == base + i by {
                                    if i < sr.len() {
                                        assert(full[i] == sr[i]);
                                    } else if i < sr.len() + er.len() {
                                        assert(full[i] == er[i - sr.len()]);
                                    }
                                }
                                assert forall|i: int|
                                    0 <= i < full.len() && i != sr.len() + er.len() implies (
                                    #[trigger] full[i].parent_id is None || inside(
                                        full[i].parent_id,
                                        base,
                                        base + full.len(),
                                    )) by {
                                    if i < sr.len() {
                                        assert(full[i] == sr[i]);
                                    } else {
                                        assert(full[i] == er[i - sr.len()]);
                                    }
                                }
                            }
                        },
                        Err(_) => {},
                    }
                },
                Err(_) => {},
            }
        },
        TriggerModel::And(cs) | TriggerModel::Or(cs) => {
            lemma_children_shape(cs, base as i64, depth + 1, base + 1, params);
            lemma_children_len(cs, base as i64, depth + 1, base + 1, params);
            if trigger_layout(t, parent, depth, base, params) is Ok {
                let cr = children_layout(cs, base as i64, depth + 1, base + 1, params)->Ok_0;
                let full = trigger_layout(t, parent, depth, base, params)->Ok_0.0;
                assert(full == seq![node_row(t, base, parent, None, None, None)] + cr);
                assert forall|i: int| 0 <= i < full.len() implies #[trigger] full[i].id == base + i by {
                    if i > 0 {
                        assert(full[i] == cr[i - 1]);
                    }
                }
                assert forall|i: int| 0 <= i < full.len() && i != 0 implies (
                #[trigger] full[i].parent_id is None || inside(full[i].parent_id, base, base + full.len())) by {
                    assert(full[i] == cr[i - 1]);
                }
            }
        },
        _ => {},
    }
}

/// A trigger's own row names the event it is written in; no other of its
/// rows names one.
pub(crate) proof fn lemma_trigger_events(
    t: TriggerModel,
    parent: TriggerParent,
    depth: nat,
    base: int,
    params: Seq<(i64, Seq<char>)>,
)
    ensures
        trigger_layout(t, parent, depth, base, params) matches Ok((rows, off)) ==> {
            &&& 0 <= off < rows.len()
            &&& rows[off].event_id == parent_columns(parent).0
            &&& forall|i: int| 0 <= i < rows.len() && i != off ==> (#[trigger] rows[i]).event_id is None
        },
    decreases t, 0nat,
{
    match t {
        TriggerModel::Repeating(_, s, e, _) => {
            lemma_condition_events(s, depth + 1, base, params);
            match condition_layout(s, depth + 1, base, params) {
                Ok((sr, _)) => {
                    lemma_condition_events(e, depth + 1, base + sr.len(), params);
                    match condition_layout(e, depth + 1, base + sr.len(), params) {
                        Ok((er, _)) => {
                            if trigger_layout(t, parent, depth, base, params) is Ok {
                                let full = trigger_layout(t, parent, depth, base, params)->Ok_0.0;
                                assert forall|i: int|
                                    0 <= i < full.len() && i != sr.len() + er.len() implies (
                                    #[trigger] full[i]).event_id is None by {
                                    if i < sr.len() {
                                        assert(full[i] == sr[i]);
                                    } else {
                                        assert(full[i] == er[i - sr.len()]);
                                    }
                                }
                            }
                        },
                        Err(_) => {},
                    }
                },
                Err(_) => {},
            }
        },
        TriggerModel::And(cs) | TriggerModel::Or(cs) => {
            lemma_children_events(cs, base as i64, depth + 1, base + 1, params);
            if trigger_layout(t, parent, depth, base, params) is Ok {
                let cr = children_layout(cs, base as i64, depth + 1, base + 1, params)->Ok_0;
                let full = trigger_layout(t, parent, depth, base, params)->Ok_0.0;
                assert(full == seq![node_row(t, base, parent, None, None, None)] + cr);
                assert forall|i: int| 0 <= i < full.len() && i != 0 implies (#[trigger] full[i]).event_id is None by {
                    assert(full[i] == cr[i - 1]);
                }
            }
        },
        _ => {},
    }
}

proof fn lemma_condition_events(c: Option<Box<TriggerModel>>, depth: nat, base: int, params: Seq<(i64, Seq<char>)>)
    ensures
        condition_layout(c, depth, base, params) matches Ok((rows, _)) ==> forall|i: int|
            0 <= i < rows.len() ==> (#[trigger] rows[i]).event_id is None,
    decreases c, 0nat,
{
    match c {
        Some(b) => {
            lemma_trigger_events(*b, TriggerParent::Detached, depth, base, params);
        },
        None => {},
    }
}

proof fn lemma_children_events(
    cs: Seq<TriggerModel>,
    parent_id: i64,
    depth: nat,
    base: int,
    params: Seq<(i64, Seq<char>)>,
)
    ensures
        children_layout(cs, parent_id, depth, base, params) matches Ok(rows) ==> forall|i: int|
            0 <= i < rows.len() ==> (#[trigger] rows[i]).event_id is None,
    decreases cs, 1nat,
{
    if cs.len() > 0 {
        let pre = cs.subrange(0, cs.len() - 1);
        lemma_children_events(pre, parent_id, depth, base, params);
        match children_layout(pre, parent_id, depth, base, params) {
            Ok(p) => {
                let last = cs[cs.len() - 1];
                let par = TriggerParent::Node { parent_id, position: (cs.len() - 1) as i64 };
                lemma_trigger_events(last, par, depth, base + p.len(), params);
                match trigger_layout(last, par, depth, base + p.len(), params) {
                    Ok((r, _)) => {
                        let full = p + r;
                        assert forall|i: int| 0 <= i < full.len() implies (#[trigger] full[i]).event_id is None by {
                            if i >= p.len() {
                                assert(full[i] == r[i - p.len()]);
                            } else {
                                assert(full[i] == p[i]);
                            }
                        }
                    },
                    Err(_) => {},
                }
            },
            Err(_) => {},
        }
    }
}

proof fn lemma_condition_shape(c: Option<Box<TriggerModel>>, depth: nat, base: int, params: Seq<(i64, Seq<char>)>)
    requires
        base >= 0,
        base + condition_count(c) <= i64::MAX,
    ensures
        condition_layout(c, depth, base, params) matches Ok((rows, id)) ==> {
            &&& numbered(rows, base)
            &&& rows.len() == condition_count(c)
            &&& (c is Some ==> (id is Some && base <= id->0 < base + rows.len() && rows[id->0 - base].parent_id is None))
            &&& (c is None ==> id is None)
            &&& forall|i: int|
                0 <= i < rows.len() ==> (#[trigger] rows[i].parent_id is None || inside(
                    rows[i].parent_id,
                    base,
                    base + rows.len(),
                ))
        },
    decreases c, 0nat,
{
    match c {
        Some(b) => {
            lemma_trigger_shape(*b, TriggerParent::Detached, depth, base, params);
        },
        None => {},
    }
}

proof fn lemma_children_shape(
    cs: Seq<TriggerModel>,
    parent_id: i64,
    depth: nat,
    base: int,
    params: Seq<(i64, Seq<char>)>,
)
    requires
        base >= 0,
        base + children_count(cs) <= i64::MAX,
    ensures
        children_layout(cs, parent_id, depth, base, params) matches Ok(rows) ==> {
            &&& numbered(rows, base)
            &&& rows.len() == children_count(cs)
            &&& forall|i: int|
                0 <= i < rows.len() ==> (#[trigger] rows[i].parent_id is None || rows[i].parent_id
                    == Some(parent_id) || inside(rows[i].parent_id, base, base + rows.len()))
        },
    decreases cs, 1nat,
{
    if cs.len() > 0 {
        let pre = cs.subrange(0, cs.len() - 1);
        lemma_children_count_prefix(cs, cs.len() - 1);
        assert(cs.subrange(0, cs.len() as int) == cs);
        lemma_children_shape(pre, parent_id, depth, base, params);
        lemma_children_len(pre, parent_id, depth, base, params);
        match children_layout(pre, parent_id, depth, base, params) {
            Ok(p) => {
                let last = cs[cs.len() - 1];
                let par = TriggerParent::Node { parent_id, position: (cs.len() - 1) as i64 };
                lemma_trigger_shape(last, par, depth, base + p.len(), params);
                match trigger_layout(last, par, depth, base + p.len(), params) {
                    Ok((r, off)) => {
                        let full = p + r;
                        assert forall|i: int| 0 <= i < full.len() implies #[trigger] full[i].id == base + i by {
                            if i >= p.len() {
                                assert(full[i] == r[i - p.len()]);
                            } else {
                                assert(full[i] == p[i]);
                            }
                        }
                        assert forall|i: int| 0 <= i < full.len() implies (#[trigger] full[i].parent_id is None
                            || full[i].parent_id == Some(parent_id) || inside(
                            full[i].parent_id,
                            base,
                            base + full.len(),
                        )) by {
                            if i >= p.len() {
                                assert(full[i] == r[i - p.len()]);
                            } else {
                                assert(full[i] == p[i]);
                            }
                        }
                    },
                    Err(_) => {},
                }
            },
            Err(_) => {},
        }
    }
}

/// The stored names of kinds, units, comparisons and intervals are all
/// different within each set.
proof fn lemma_trigger_names()
    ensures
        "Date"@ != "Age"@,
        "Date"@ != "RelativeToEvent"@,
        "Date"@ != "AccountBalance"@,
        "Date"@ != "AssetBalance"@,
        "Date"@ != "NetWorth"@,
        "Date"@ != "And"@,
        "Date"@ != "Or"@,
        "Date"@ != "Repeating"@,
        "Date"@ != "Manual"@,
        "Age"@ != "RelativeToEvent"@,
        "Age"@ != "AccountBalance"@,
        "Age"@ != "AssetBalance"@,
        "Age"@ != "NetWorth"@,
        "Age"@ != "And"@,
        "Age"@ != "Or"@,
        "Age"@ != "Repeating"@,
        "Age"@ != "Manual"@,
        "RelativeToEvent"@ != "AccountBalance"@,
        "RelativeToEvent"@ != "AssetBalance"@,
        "RelativeToEvent"@ != "NetWorth"@,
        "RelativeToEvent"@ != "And"@,
        "RelativeToEvent"@ != "Or"@,
        "RelativeToEvent"@ != "Repeating"@,
        "RelativeToEvent"@ != "Manual"@,
        "AccountBalance"@ != "AssetBalance"@,
        "AccountBalance"@ != "NetWorth"@,
        "AccountBalance"@ != "And"@,
        "AccountBalance"@ != "Or"@,
        "AccountBalance"@ != "Repeating"@,
        "AccountBalance"@ != "Manual"@,
        "AssetBalance"@ != "NetWorth"@,
        "AssetBalance"@ != "And"@,
        "AssetBalance"@ != "Or"@,
        "AssetBalance"@ != "Repeating"@,
        "AssetBalance"@ != "Manual"@,
        "NetWorth"@ != "And"@,
        "NetWorth"@ != "Or"@,
        "NetWorth"@ != "Repeating"@,
        "NetWorth"@ != "Manual"@,
        "And"@ != "Or"@,
        "And"@ != "Repeating"@,
        "And"@ != "Manual"@,
        "Or"@ != "Repeating"@,
        "Or"@ != "Manual"@,
        "Repeating"@ != "Manual"@,
        "Days"@ != "Months"@,
        "Days"@ != "Years"@,
        "Months"@ != "Years"@,
        "GreaterThanOrEqual"@ != "LessThanOrEqual"@,
        "Never"@ != "Weekly"@,
        "Never"@ != "BiWeekly"@,
        "Never"@ != "Monthly"@,
        "Never"@ != "Quarterly"@,
        "Never"@ != "Yearly"@,
        "Weekly"@ != "BiWeekly"@,
        "Weekly"@ != "Monthly"@,
        "Weekly"@ != "Quarterly"@,
        "Weekly"@ != "Yearly"@,
        "BiWeekly"@ != "Monthly"@,
        "BiWeekly"@ != "Quarterly"@,
        "BiWeekly"@ != "Yearly"@,
        "Monthly"@ != "Quarterly"@,
        "Monthly"@ != "Yearly"@,
        "Quarterly"@ != "Yearly"@,
{
    reveal_strlit("Date");
    reveal_strlit("Age");
    reveal_strlit("RelativeToEvent");
    reveal_strlit("AccountBalance");
    reveal_strlit("AssetBalance");
    reveal_strlit("NetWorth");
    reveal_strlit("And");
    reveal_strlit("Or");
    reveal_strlit("Repeating");
    reveal_strlit("Manual");
    reveal_strlit("Days");
    reveal_strlit("Months");
    reveal_strlit("Years");
    reveal_strlit("GreaterThanOrEqual");
    reveal_strlit("LessThanOrEqual");
    reveal_strlit("Never");
    reveal_strlit("Weekly");
    reveal_strlit("BiWeekly");
    reveal_strlit("Monthly");
    reveal_strlit("Quarterly");
    reveal_strlit("Yearly");
    assert("Date"@.len() == 4);
    assert("Age"@.len() == 3);
    assert("RelativeToEvent"@.len() == 15);
    assert("AccountBalance"@.len() == 14);
    assert("AssetBalance"@.len() == 12);
    assert("NetWorth"@.len() == 8);
    assert("And"@.len() == 3);
    assert("Or"@.len() == 2);
    assert("Repeating"@.len() == 9);
    assert("Manual"@.len() == 6);
    assert("Days"@.len() == 4);
    assert("Months"@.len() == 6);
    assert("Years"@.len() == 5);
    assert("GreaterThanOrEqual"@.len() == 18);
    assert("LessThanOrEqual"@.len() == 15);
    assert("Never"@.len() == 5);
    assert("Weekly"@.len() == 6);
    assert("BiWeekly"@.len() == 8);
    assert("Monthly"@.len() == 7);
    assert("Quarterly"@.len() == 9);
    assert("Yearly"@.len() == 6);
    assert("Age"@[1] != "And"@[1]);
    assert("Weekly"@[0] != "Yearly"@[0]);
}

proof fn lemma_child_ids_concat(a: Seq<TriggerRowView>, b: Seq<TriggerRowView>, n: i64)
    ensures
        child_ids(a + b, n) == child_ids(a, n) + child_ids(b, n),
    decreases b.len(),
{
    if b.len() == 0 {
        assert(a + b == a);
    } else {
        lemma_child_ids_concat(a, b.drop_last(), n);
        assert((a + b).drop_last() == a + b.drop_last());
        assert((a + b).last() == b.last());
    }
}

proof fn lemma_child_ids_none(rows: Seq<TriggerRowView>, n: i64)
    requires
        forall|i: int| 0 <= i < rows.len() ==> #[trigger] rows[i].parent_id != Some(n),
    ensures
        child_ids(rows, n) == Seq::<i64>::empty(),
    decreases rows.len(),
{
    if rows.len() > 0 {
        let d = rows.drop_last();
        assert forall|i: int| 0 <= i < d.len() implies #[trigger] d[i].parent_id != Some(n) by {
            assert(d[i] == rows[i]);
        }
        lemma_child_ids_none(d, n);
        assert(rows.last() == rows[rows.len() - 1]);
    }
}

proof fn lemma_child_ids_single(rows: Seq<TriggerRowView>, n: i64, off: int)
    requires
        0 <= off < rows.len(),
        rows[off].parent_id == Some(n),
        forall|i: int| 0 <= i < rows.len() && i != off ==> #[trigger] rows[i].parent_id != Some(n),
    ensures
        child_ids(rows, n) == seq![rows[off].id],
{
    let a = rows.subrange(0, off);
    let m = seq![rows[off]];
    let b = rows.subrange(off + 1, rows.len() as int);
    assert(rows == a + m + b);
    assert forall|i: int| 0 <= i < a.len() implies #[trigger] a[i].parent_id != Some(n) by {
        assert(a[i] == rows[i]);
    }
    assert forall|i: int| 0 <= i < b.len() implies #[trigger] b[i].parent_id != Some(n) by {
        assert(b[i] == rows[off + 1 + i]);
    }
    lemma_child_ids_none(a, n);
    lemma_child_ids_none(b, n);
    lemma_child_ids_concat(a + m, b, n);
    lemma_child_ids_concat(a, m, n);
    assert(m.drop_last() == Seq::<TriggerRowView>::empty());
    assert(m.last() == rows[off]);
    assert(child_ids(m.drop_last(), n) == Seq::<i64>::empty());
    assert(child_ids(m, n) == seq![rows[off].id]);
    assert(child_ids(a, n) + child_ids(m, n) + child_ids(b, n) == seq![rows[off].id]);
}

/// The ids of the children's own rows, in order, where children are laid
/// out from `b` under `n`.
spec fn children_roots(
    cs: Seq<TriggerModel>,
    n: i64,
    d: nat,
    b: int,
    params: Seq<(i64, Seq<char>)>,
) -> Seq<i64>
    decreases cs.len(),
{
    if cs.len() == 0 {
        Seq::empty()
    } else {
        let pre = cs.subrange(0, cs.len() - 1);
        let p = children_layout(pre, n, d, b, params)->Ok_0;
        let off = trigger_layout(
            cs[cs.len() - 1],
            TriggerParent::Node { parent_id: n, position: (cs.len() - 1) as i64 },
            d,
            b + p.len(),
            params,
        )->Ok_0.1;
        children_roots(pre, n, d, b, params).push((b + p.len() + off) as i64)
    }
}

proof fn lemma_children_child_ids(
    cs: Seq<TriggerModel>,
    n: i64,
    d: nat,
    b: int,
    params: Seq<(i64, Seq<char>)>,
)
    requires
        n < b,
        b >= 0,
        b + children_count(cs) <= i64::MAX,
        children_layout(cs, n, d, b, params) is Ok,
    ensures
        child_ids(children_layout(cs, n, d, b, params)->Ok_0, n) == children_roots(cs, n, d, b, params),
    decreases cs.len(),
{
    if cs.len() > 0 {
        let pre = cs.subrange(0, cs.len() - 1);
        lemma_children_count_prefix(cs, cs.len() - 1);
        assert(cs.subrange(0, cs.len() as int) == cs);
        lemma_children_len(pre, n, d, b, params);
        let p = children_layout(pre, n, d, b, params)->Ok_0;
        lemma_children_child_ids(pre, n, d, b, params);
        let par = TriggerParent::Node { parent_id: n, position: (cs.len() - 1) as i64 };
        let last = cs[cs.len() - 1];
        lemma_trigger_shape(last, par, d, b + p.len(), params);
        let (r, off) = trigger_layout(last, par, d, b + p.len(), params)->Ok_0;
        assert forall|i: int| 0 <= i < r.len() && i != off implies #[trigger] r[i].parent_id != Some(n) by {
        }
        lemma_child_ids_single(r, n, off);
        lemma_child_ids_concat(p, r, n);
    }
}

proof fn lemma_index_numbered(all: Seq<TriggerRowView>, b0: int, id: i64)
    requires
        numbered(all, b0),
        b0 <= id < b0 + all.len(),
    ensures
        trigger_index(all, id) == id - b0,
{
    lemma_trigger_index(all, id);
    let k = trigger_index(all, id);
    assert(all[id - b0].id == id);
    if k >= 0 {
        assert(all[k].id == id);
    }
}

proof fn lemma_closed_part(
    all: Seq<TriggerRowView>,
    b0: int,
    base: int,
    rows: Seq<TriggerRowView>,
    lo: int,
    hi: int,
)
    requires
        numbered(all, b0),
        b0 <= base,
        base + rows.len() <= b0 + all.len(),
        all.subrange(base - b0, base - b0 + rows.len()) == rows,
        closed(all, base, base + rows.len()),
        base <= lo <= hi <= base + rows.len(),
        forall|j: int|
            0 <= j < rows.len() && !(lo <= base + j < hi) ==> !inside(#[trigger] rows[j].parent_id, lo, hi),
    ensures
        closed(all, lo, hi),
{
    assert forall|i: int| 0 <= i < all.len() && !(lo <= all[i].id < hi) implies !inside(
        #[trigger] all[i].parent_id,
        lo,
        hi,
    ) by {
        if base <= all[i].id < base + rows.len() {
            let j = i - (base - b0);
            assert(all.subrange(base - b0, base - b0 + rows.len())[j] == all[i]);
            assert(rows[j] == all[i]);
        }
    }
}

/// A leaf trigger's row reads back as the leaf, its date canonical.
#[verifier::rlimit(30)]
proof fn lemma_read_leaf_trigger(
    all: Seq<TriggerRowView>,
    b0: int,
    t: TriggerModel,
    parent: TriggerParent,
    depth: nat,
    base: int,
    params: Seq<(i64, Seq<char>)>,
)
    requires
        !(t is Repeating || t is And || t is Or),
        numbered(all, b0),
        b0 >= 0,
        b0 <= base < b0 + all.len(),
        base <= i64::MAX,
        trigger_layout(t, parent, depth, base, params) is Ok,
        all[base - b0] == trigger_layout(t, parent, depth, base, params)->Ok_0.0[0],
    ensures
        trigger_layout(t, parent, depth, base, params)->Ok_0.1 == 0,
        read_trigger_model(all, base as i64, depth) == Ok::<TriggerModel, TriggerReadFault>(normalized(t)),
{
    lemma_trigger_names();
    lemma_index_numbered(all, b0, base as i64);
    match t {
        TriggerModel::RelativeToEvent(_, u, _) => {
            assert(unit_named(Some(unit_name(u))) == u);
        },
        _ => {},
    }
}

/// A repeating trigger's row reads back, given its conditions do.
#[verifier::rlimit(30)]
proof fn lemma_read_repeating_node(
    all: Seq<TriggerRowView>,
    b0: int,
    t: TriggerModel,
    parent: TriggerParent,
    depth: nat,
    base: int,
    params: Seq<(i64, Seq<char>)>,
    at: int,
)
    requires
        t is Repeating,
        numbered(all, b0),
        b0 >= 0,
        b0 <= at < b0 + all.len(),
        at <= i64::MAX,
        depth <= 64,
        match t {
            TriggerModel::Repeating(i, s, e, m) => match condition_layout(s, depth + 1, base, params) {
                Ok((sr, sid)) => match condition_layout(e, depth + 1, base + sr.len(), params) {
                    Ok((er, eid)) => {
                        &&& all[at - b0] == node_row(t, at, parent, None, sid, eid)
                        &&& read_condition(all, sid, depth + 1) == Ok::<
                            Option<Box<TriggerModel>>,
                            TriggerReadFault,
                        >(normalized_condition(s))
                        &&& read_condition(all, eid, depth + 1) == Ok::<
                            Option<Box<TriggerModel>>,
                            TriggerReadFault,
                        >(normalized_condition(e))
                    },
                    Err(_) => false,
                },
                Err(_) => false,
            },
            _ => false,
        },
    ensures
        read_trigger_model(all, at as i64, depth) == Ok::<TriggerModel, TriggerReadFault>(normalized(t)),
{
    lemma_trigger_names();
    lemma_index_numbered(all, b0, at as i64);
    match t {
        TriggerModel::Repeating(i, _, _, _) => {
            assert(interval_named(Some(interval_name(i))) == i);
        },
        _ => {},
    }
}

/// A group's row reads back, given its children do.
#[verifier::rlimit(30)]
proof fn lemma_read_group_node(
    all: Seq<TriggerRowView>,
    b0: int,
    t: TriggerModel,
    parent: TriggerParent,
    depth: nat,
    base: int,
    params: Seq<(i64, Seq<char>)>,
)
    requires
        t is And || t is Or,
        numbered(all, b0),
        b0 >= 0,
        b0 <= base < b0 + all.len(),
        base <= i64::MAX,
        depth <= 64,
        all[base - b0] == node_row(t, base, parent, None, None, None),
        match t {
            TriggerModel::And(cs) | TriggerModel::Or(cs) => read_children(
                all,
                child_ids(all, base as i64),
                depth + 1,
            ) == Ok::<Seq<TriggerModel>, TriggerReadFault>(normalized_all(cs)),
            _ => false,
        },
    ensures
        read_trigger_model(all, base as i64, depth) == Ok::<TriggerModel, TriggerReadFault>(normalized(t)),
{
    lemma_trigger_names();
    lemma_index_numbered(all, b0, base as i64);
}

#[verifier::rlimit(40)]
proof fn lemma_read_tree(
    all: Seq<TriggerRowView>,
    b0: int,
    t: TriggerModel,
    parent: TriggerParent,
    depth: nat,
    base: int,
    params: Seq<(i64, Seq<char>)>,
)
    requires
        numbered(all, b0),
        b0 >= 0,
        b0 <= base,
        base + trigger_count(t) <= b0 + all.len(),
        base + trigger_count(t) <= i64::MAX,
        trigger_layout(t, parent, depth, base, params) is Ok,
        all.subrange(base - b0, base - b0 + trigger_count(t)) == trigger_layout(
            t,
            parent,
            depth,
            base,
            params,
        )->Ok_0.0,
        closed(all, base, base + trigger_count(t)),
        parent_columns(parent).1 is None || parent_columns(parent).1->0 < base,
    ensures
        read_trigger_model(
            all,
            (base + trigger_layout(t, parent, depth, base, params)->Ok_0.1) as i64,
            depth,
        ) == Ok::<TriggerModel, TriggerReadFault>(normalized(t)),
    decreases t, 0nat,
{
    lemma_trigger_shape(t, parent, depth, base, params);
    let (rows, off) = trigger_layout(t, parent, depth, base, params)->Ok_0;
    let n = rows.len() as int;
    let lo = base - b0;
    assert(all.subrange(lo, lo + n)[off] == all[lo + off]);
    assert(all[lo + off] == rows[off]);
    match t {
        TriggerModel::Repeating(iv, s, e, m) => {
            lemma_condition_shape(s, depth + 1, base, params);
            let (sr, sid) = condition_layout(s, depth + 1, base, params)->Ok_0;
            let ns = sr.len() as int;
            lemma_condition_shape(e, depth + 1, base + ns, params);
            let (er, eid) = condition_layout(e, depth + 1, base + ns, params)->Ok_0;
            let ne = er.len() as int;
            assert(rows == sr + er + seq![node_row(t, base + ns + ne, parent, None, sid, eid)]);
            assert(all.subrange(lo, lo + ns) == sr) by {
                assert forall|j: int| 0 <= j < ns implies all.subrange(lo, lo + ns)[j] == sr[j] by {
                    assert(all.subrange(lo, lo + n)[j] == rows[j]);
                }
            }
            assert(all.subrange(lo + ns, lo + ns + ne) == er) by {
                assert forall|j: int| 0 <= j < ne implies all.subrange(lo + ns, lo + ns + ne)[j] == er[j] by {
                    assert(all.subrange(lo, lo + n)[ns + j] == rows[ns + j]);
                }
            }
            lemma_closed_part(all, b0, base, rows, base, base + ns);
            lemma_closed_part(all, b0, base, rows, base + ns, base + ns + ne);
            lemma_read_condition(all, b0, s, depth + 1, base, params);
            lemma_read_condition(all, b0, e, depth + 1, base + ns, params);
            lemma_read_repeating_node(all, b0, t, parent, depth, base, params, base + off);
        },
        TriggerModel::And(cs) | TriggerModel::Or(cs) => {
            let n_id = base as i64;
            lemma_children_shape(cs, n_id, depth + 1, base + 1, params);
            lemma_children_len(cs, n_id, depth + 1, base + 1, params);
            let cr = children_layout(cs, n_id, depth + 1, base + 1, params)->Ok_0;
            assert(rows == seq![node_row(t, base, parent, None, None, None)] + cr);
            assert(all.subrange(lo + 1, lo + n) == cr) by {
                assert forall|j: int| 0 <= j < n - 1 implies all.subrange(lo + 1, lo + n)[j] == cr[j] by {
                    assert(all.subrange(lo, lo + n)[1 + j] == rows[1 + j]);
                }
            }
            lemma_closed_part(all, b0, base, rows, base + 1, base + n);
            lemma_children_child_ids(cs, n_id, depth + 1, base + 1, params);
            // The rows under the group's row are exactly its children's own rows.
            let before = all.subrange(0, lo);
            let after = all.subrange(lo + n, all.len() as int);
            assert(all == before + rows + after) by {
                assert(all.subrange(lo, lo + n) == rows);
            }
            assert forall|i: int| 0 <= i < before.len() implies #[trigger] before[i].parent_id != Some(n_id) by {
                assert(before[i] == all[i]);
            }
            assert forall|i: int| 0 <= i < after.len() implies #[trigger] after[i].parent_id != Some(n_id) by {
                assert(after[i] == all[lo + n + i]);
            }
            lemma_child_ids_none(before, n_id);
            lemma_child_ids_none(after, n_id);
            let head = seq![node_row(t, base, parent, None, None, None)];
            assert forall|i: int| 0 <= i < head.len() implies #[trigger] head[i].parent_id != Some(n_id) by {}
            lemma_child_ids_none(head, n_id);
            lemma_child_ids_concat(head, cr, n_id);
            lemma_child_ids_concat(before, rows, n_id);
            lemma_child_ids_concat(before + rows, after, n_id);
            assert(child_ids(all, n_id) == children_roots(cs, n_id, depth + 1, base + 1, params));
            lemma_read_children(all, b0, cs, n_id, depth + 1, base + 1, params);
            lemma_read_group_node(all, b0, t, parent, depth, base, params);
        },
        _ => {
            lemma_read_leaf_trigger(all, b0, t, parent, depth, base, params);
        },
    }
}

proof fn lemma_read_condition(
    all: Seq<TriggerRowView>,
    b0: int,
    c: Option<Box<TriggerModel>>,
    depth: nat,
    base: int,
    params: Seq<(i64, Seq<char>)>,
)
    requires
        numbered(all, b0),
        b0 >= 0,
        b0 <= base,
        base + condition_count(c) <= b0 + all.len(),
        base + condition_count(c) <= i64::MAX,
        condition_layout(c, depth, base, params) is Ok,
        all.subrange(base - b0, base - b0 + condition_count(c)) == condition_layout(
            c,
            depth,
            base,
            params,
        )->Ok_0.0,
        closed(all, base, base + condition_count(c)),
    ensures
        read_condition(all, condition_layout(c, depth, base, params)->Ok_0.1, depth) == Ok::<
            Option<Box<TriggerModel>>,
            TriggerReadFault,
        >(normalized_condition(c)),
    decreases c, 0nat,
{
    match c {
        Some(b) => {
            lemma_read_tree(all, b0, *b, TriggerParent::Detached, depth, base, params);
        },
        None => {},
    }
}

proof fn lemma_read_children(
    all: Seq<TriggerRowView>,
    b0: int,
    cs: Seq<TriggerModel>,
    n: i64,
    d: nat,
    b: int,
    params: Seq<(i64, Seq<char>)>,
)
    requires
        numbered(all, b0),
        b0 >= 0,
        b0 <= b,
        n < b,
        b + children_count(cs) <= b0 + all.len(),
        b + children_count(cs) <= i64::MAX,
        children_layout(cs, n, d, b, params) is Ok,
        all.subrange(b - b0, b - b0 + children_count(cs)) == children_layout(cs, n, d, b, params)->Ok_0,
        closed(all, b, b + children_count(cs)),
    ensures
        read_children(all, children_roots(cs, n, d, b, params), d) == Ok::<
            Seq<TriggerModel>,
            TriggerReadFault,
        >(normalized_all(cs)),
    decreases cs, 1nat,
{
    if cs.len() > 0 {
        let pre = cs.subrange(0, cs.len() - 1);
        let last = cs[cs.len() - 1];
        lemma_children_count_prefix(cs, cs.len() - 1);
        assert(cs.subrange(0, cs.len() as int) == cs);
        lemma_children_shape(pre, n, d, b, params);
        lemma_children_len(pre, n, d, b, params);
        let p = children_layout(pre, n, d, b, params)->Ok_0;
        let np = p.len() as int;
        let par = TriggerParent::Node { parent_id: n, position: (cs.len() - 1) as i64 };
        lemma_trigger_shape(last, par, d, b + np, params);
        let (r, off) = trigger_layout(last, par, d, b + np, params)->Ok_0;
        let nr = r.len() as int;
        let whole = p + r;
        assert(children_layout(cs, n, d, b, params)->Ok_0 == whole);
        let lo = b - b0;
        assert(all.subrange(lo, lo + np) == p) by {
            assert forall|j: int| 0 <= j < np implies all.subrange(lo, lo + np)[j] == p[j] by {
                assert(all.subrange(lo, lo + np + nr)[j] == whole[j]);
            }
        }
        assert(all.subrange(lo + np, lo + np + nr) == r) by {
            assert forall|j: int| 0 <= j < nr implies all.subrange(lo + np, lo + np + nr)[j] == r[j] by {
                assert(all.subrange(lo, lo + np + nr)[np + j] == whole[np + j]);
            }
        }
        assert forall|j: int| 0 <= j < whole.len() && !(b <= b + j < b + np) implies !inside(
            #[trigger] whole[j].parent_id,
            b,
            b + np,
        ) by {
            assert(whole[j] == r[j - np]);
        }
        lemma_closed_part(all, b0, b, whole, b, b + np);
        assert forall|j: int| 0 <= j < whole.len() && !(b + np <= b + j < b + np + nr) implies !inside(
            #[trigger] whole[j].parent_id,
            b + np,
            b + np + nr,
        ) by {
            assert(whole[j] == p[j]);
        }
        lemma_closed_part(all, b0, b, whole, b + np, b + np + nr);
        lemma_read_children(all, b0, pre, n, d, b, params);
        lemma_read_tree(all, b0, last, par, d, b + np, params);
        let ids = children_roots(cs, n, d, b, params);
        assert(ids.drop_last() == children_roots(pre, n, d, b, params));
        assert(ids.last() == (b + np + off) as i64);
    }
}

/// What is written is read back: a trigger laid out as rows numbered from
/// `base` reads back from those rows, at its own row, as the same trigger
/// with its dates in canonical form.
pub proof fn trigger_round_trip(
    t: TriggerModel,
    parent: TriggerParent,
    depth: nat,
    base: int,
    params: Seq<(i64, Seq<char>)>,
)
    requires
        base >= 0,
        base + trigger_count(t) <= i64::MAX,
        trigger_layout(t, parent, depth, base, params) is Ok,
        parent_columns(parent).1 is None || parent_columns(parent).1->0 < base,
    ensures
        read_trigger_model(
            trigger_layout(t, parent, depth, base, params)->Ok_0.0,
            (base + trigger_layout(t, parent, depth, base, params)->Ok_0.1) as i64,
            depth,
        ) == Ok::<TriggerModel, TriggerReadFault>(normalized(t)),
{
    lemma_trigger_shape(t, parent, depth, base, params);
    let rows = trigger_layout(t, parent, depth, base, params)->Ok_0.0;
    assert(rows.subrange(0, rows.len() as int) == rows);
    assert forall|i: int| 0 <= i < rows.len() && !(base <= rows[i].id < base + trigger_count(t)) implies !inside(
        #[trigger] rows[i].parent_id,
        base,
        base + trigger_count(t),
    ) by {}
    lemma_read_tree(rows, base, t, parent, depth, base, params);
}

} // verus!

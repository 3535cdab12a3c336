//! Copying a scenario: every copied row gets a fresh id, and each reference
//! it holds to another copied row is rewritten through the map from old ids
//! to new ones, so the copy shares nothing with the original.
use vstd::prelude::*;

use crate::amounts::{amount_row_view, AmountRowView};
use crate::effects::{effect_row_view, EffectRowView};
use crate::error::{owned, ApiError};
use crate::rows::{EffectRow, TransferAmountRow, TriggerRow, WithdrawalItemRow, WithdrawalSourceRow};
use crate::specs::{item_row, source_row};
use crate::text::{format_i64, signed_decimal};
use crate::triggers::{text_of, trigger_row_view, TriggerRowView};

verus! {

/// The map from a row's old id to its copy's, as old/new pairs in the order
/// they were recorded.
pub open spec fn pairs_map(s: Seq<(i64, i64)>) -> Map<i64, i64>
    decreases s.len(),
{
    if s.len() == 0 {
        Map::empty()
    } else {
        pairs_map(s.drop_last()).insert(s.last().0, s.last().1)
    }
}

/// Old ids mapped to the ids of their copies; recording an old id again
/// replaces its copy.
pub struct Remap {
    pairs: Vec<(i64, i64)>,
}

impl View for Remap {
    type V = Map<i64, i64>;

    closed spec fn view(&self) -> Map<i64, i64> {
        pairs_map(self.pairs@)
    }
}

impl Remap {
    pub fn new() -> (r: Self)
        ensures
            r@ == Map::<i64, i64>::empty(),
    {
        Remap { pairs: Vec::new() }
    }

    /// Record that row `from` was copied as row `to`.
    pub fn insert(&mut self, from: i64, to: i64)
        ensures
            final(self)@ == old(self)@.insert(from, to),
    {
        let ghost before = self.pairs@;
        self.pairs.push((from, to));
        assert(self.pairs@.drop_last() == before);
    }

    /// The copy of row `key`, where one was recorded.
    pub fn get(&self, key: i64) -> (r: Option<i64>)
        ensures
            match r {
                Some(v) => self@.contains_key(key) && v == self@[key],
                None => !self@.contains_key(key),
            },
    {
        let ghost s = self.pairs@;
        let mut found: Option<i64> = None;
        let mut i: usize = 0;
        while i < self.pairs.len()
            invariant
                i <= s.len(),
                s == self.pairs@,
                match found {
                    Some(v) => pairs_map(s.take(i as int)).contains_key(key) && v == pairs_map(
                        s.take(i as int),
                    )[key],
                    None => !pairs_map(s.take(i as int)).contains_key(key),
                },
            decreases s.len() - i,
        {
            assert(s.take(i + 1).drop_last() == s.take(i as int));
            assert(s.take(i + 1).last() == s[i as int]);
            let (k, v) = self.pairs[i];
            if k == key {
                found = Some(v);
            }
            i = i + 1;
        }
        assert(s.take(s.len() as int) == s);
        found
    }
}

/// The message for a reference to a row that was not copied.
pub open spec fn dangling_message(what: Seq<char>, old: i64) -> Seq<char> {
    "dangling "@ + what + " reference "@ + signed_decimal(old as int) + " while cloning"@
}

pub open spec fn dangling_error(e: ApiError, what: Seq<char>, old: i64) -> bool {
    e matches ApiError::Internal(m) && m@ == dangling_message(what, old)
}

/// The copy of a referenced row; a row that was not copied is an error.
pub fn remap(map: &Remap, old: i64, what: &str) -> (r: Result<i64, ApiError>)
    ensures
        match r {
            Ok(v) => map@.contains_key(old) && v == map@[old],
            Err(e) => !map@.contains_key(old) && dangling_error(e, what@, old),
        },
{
    match map.get(old) {
        Some(v) => Ok(v),
        None => {
            let mut m = owned("dangling ");
            m.append(what);
            m.append(" reference ");
            let n = format_i64(old);
            m.append(n.as_str());
            m.append(" while cloning");
            Err(ApiError::Internal(m))
        },
    }
}

/// An optional reference, copied as [`remap`] does.
fn remap_opt(map: &Remap, old: Option<i64>, what: &str) -> (r: Result<Option<i64>, ApiError>)
    ensures
        match r {
            Ok(v) => covered(map@, old) && v == image(map@, old),
            Err(e) => !covered(map@, old) && dangling_error(e, what@, old->0),
        },
{
    match old {
        None => Ok(None),
        Some(id) => match remap(map, id, what) {
            Ok(v) => Ok(Some(v)),
            Err(e) => Err(e),
        },
    }
}

/// An optional reference has a copy, or is empty.
pub open spec fn covered(m: Map<i64, i64>, o: Option<i64>) -> bool {
    match o {
        Some(x) => m.contains_key(x),
        None => true,
    }
}

/// An optional reference's copy.
pub open spec fn image(m: Map<i64, i64>, o: Option<i64>) -> Option<i64> {
    match o {
        Some(x) => Some(m[x]),
        None => None,
    }
}

pub(crate) fn copy_text(o: &Option<String>) -> (r: Option<String>)
    ensures
        text_of(r) == text_of(*o),
{
    match o {
        Some(s) => Some(owned(s.as_str())),
        None => None,
    }
}

/// The first reference of an amount row without a copy: its account, then
/// its asset.
pub open spec fn amount_copy_fault(r: AmountRowView, accounts: Map<i64, i64>, assets: Map<i64, i64>) -> Option<
    (Seq<char>, i64),
> {
    if !covered(accounts, r.3) {
        Some(("account"@, r.3->0))
    } else if !covered(assets, r.4) {
        Some(("asset"@, r.4->0))
    } else {
        None
    }
}

/// An amount row's copy: a fresh id, its operands' copies, its account and
/// asset rewritten, the rest as it was.
pub open spec fn copied_amount(
    r: AmountRowView,
    id: i64,
    left: Option<i64>,
    right: Option<i64>,
    accounts: Map<i64, i64>,
    assets: Map<i64, i64>,
) -> AmountRowView {
    (id, r.1, r.2, image(accounts, r.3), image(assets, r.4), left, right, r.7)
}

/// Copy an amount row under a fresh id, its operands already copied.
pub fn copy_amount_row(
    row: &TransferAmountRow,
    id: i64,
    left: Option<i64>,
    right: Option<i64>,
    accounts: &Remap,
    assets: &Remap,
) -> (r: Result<TransferAmountRow, ApiError>)
    ensures
        match amount_copy_fault(amount_row_view(*row), accounts@, assets@) {
            None => r matches Ok(n) && amount_row_view(n) == copied_amount(
                amount_row_view(*row),
                id,
                left,
                right,
                accounts@,
                assets@,
            ),
            Some((what, old)) => r matches Err(e) && dangling_error(e, what, old),
        },
{
    let account_id = match remap_opt(accounts, row.account_id, "account") {
        Ok(v) => v,
        Err(e) => return Err(e),
    };
    let asset_id = match remap_opt(assets, row.asset_id, "asset") {
        Ok(v) => v,
        Err(e) => return Err(e),
    };
    Ok(
        TransferAmountRow {
            id,
            kind: owned(row.kind.as_str()),
            value_bits: row.value_bits,
            account_id,
            asset_id,
            left_id: left,
            right_id: right,
            expression_source: copy_text(&row.expression_source),
        },
    )
}

/// The first reference of a trigger row without a copy: its event, the
/// event it is relative to, its account, its asset, then its parameter.
pub open spec fn trigger_copy_fault(
    r: TriggerRowView,
    events: Map<i64, i64>,
    accounts: Map<i64, i64>,
    assets: Map<i64, i64>,
    parameters: Map<i64, i64>,
) -> Option<(Seq<char>, i64)> {
    if !covered(events, r.event_id) {
        Some(("event"@, r.event_id->0))
    } else if !covered(events, r.ref_event_id) {
        Some(("event"@, r.ref_event_id->0))
    } else if !covered(accounts, r.account_id) {
        Some(("account"@, r.account_id->0))
    } else if !covered(assets, r.asset_id) {
        Some(("asset"@, r.asset_id->0))
    } else if !covered(parameters, r.parameter_id) {
        Some(("parameter"@, r.parameter_id->0))
    } else {
        None
    }
}

/// A trigger row's copy: a fresh id, its sub-conditions' and parent's
/// copies, its events, account, asset and parameter rewritten, the rest as it
/// was.
pub open spec fn copied_trigger(
    r: TriggerRowView,
    id: i64,
    start: Option<i64>,
    end: Option<i64>,
    parent: Option<i64>,
    events: Map<i64, i64>,
    accounts: Map<i64, i64>,
    assets: Map<i64, i64>,
    parameters: Map<i64, i64>,
) -> TriggerRowView {
    TriggerRowView {
        id,
        event_id: image(events, r.event_id),
        ref_event_id: image(events, r.ref_event_id),
        account_id: image(accounts, r.account_id),
        asset_id: image(assets, r.asset_id),
        start_trigger_id: start,
        end_trigger_id: end,
        parent_id: parent,
        parameter_id: image(parameters, r.parameter_id),
        ..r
    }
}

/// Copy a trigger row under a fresh id, its sub-conditions and parent
/// already copied.
pub fn copy_trigger_row(
    row: &TriggerRow,
    id: i64,
    start: Option<i64>,
    end: Option<i64>,
    parent: Option<i64>,
    events: &Remap,
    accounts: &Remap,
    assets: &Remap,
    parameters: &Remap,
) -> (r: Result<TriggerRow, ApiError>)
    ensures
        match trigger_copy_fault(trigger_row_view(*row), events@, accounts@, assets@, parameters@) {
            None => r matches Ok(n) && trigger_row_view(n) == copied_trigger(
                trigger_row_view(*row),
                id,
                start,
                end,
                parent,
                events@,
                accounts@,
                assets@,
                parameters@,
            ),
            Some((what, old)) => r matches Err(e) && dangling_error(e, what, old),
        },
{
    let event_id = match remap_opt(events, row.event_id, "event") {
        Ok(v) => v,
        Err(e) => return Err(e),
    };
    let ref_event_id = match remap_opt(events, row.ref_event_id, "event") {
        Ok(v) => v,
        Err(e) => return Err(e),
    };
    let account_id = match remap_opt(accounts, row.account_id, "account") {
        Ok(v) => v,
        Err(e) => return Err(e),
    };
    let asset_id = match remap_opt(assets, row.asset_id, "asset") {
        Ok(v) => v,
        Err(e) => return Err(e),
    };
    let parameter_id = match remap_opt(parameters, row.parameter_id, "parameter") {
        Ok(v) => v,
        Err(e) => return Err(e),
    };
    Ok(
        TriggerRow {
            id,
            event_id,
            kind: owned(row.kind.as_str()),
            on_date: copy_text(&row.on_date),
            age_years: row.age_years,
            age_months: row.age_months,
            ref_event_id,
            offset_unit: copy_text(&row.offset_unit),
            offset_value: row.offset_value,
            account_id,
            asset_id,
            comparison: copy_text(&row.comparison),
            threshold_bits: row.threshold_bits,
            interval: copy_text(&row.interval),
            start_trigger_id: start,
            end_trigger_id: end,
            max_occurrences: row.max_occurrences,
            parent_id: parent,
            position: row.position,
            parameter_id,
        },
    )
}

/// The first reference of an effect row without a copy: its event, the
/// accounts it moves from and to, its asset, the event it targets, then its
/// loan account.
pub open spec fn effect_copy_fault(
    r: EffectRowView,
    accounts: Map<i64, i64>,
    assets: Map<i64, i64>,
    events: Map<i64, i64>,
) -> Option<(Seq<char>, i64)> {
    if !covered(events, r.event_id) {
        Some(("event"@, r.event_id->0))
    } else if !covered(accounts, r.from_account_id) {
        Some(("account"@, r.from_account_id->0))
    } else if !covered(accounts, r.to_account_id) {
        Some(("account"@, r.to_account_id->0))
    } else if !covered(assets, r.asset_id) {
        Some(("asset"@, r.asset_id->0))
    } else if !covered(events, r.target_event_id) {
        Some(("event"@, r.target_event_id->0))
    } else if !covered(accounts, r.loan_account_id) {
        Some(("account"@, r.loan_account_id->0))
    } else {
        None
    }
}

/// An effect row's copy: a fresh id, its parent's and amounts' copies, its
/// events, accounts and asset rewritten, the rest (a market shock's drop
/// among it) as it was.
pub open spec fn copied_effect(
    r: EffectRowView,
    id: i64,
    parent: Option<i64>,
    amount: Option<i64>,
    down_payment: Option<i64>,
    accounts: Map<i64, i64>,
    assets: Map<i64, i64>,
    events: Map<i64, i64>,
) -> EffectRowView {
    EffectRowView {
        id,
        event_id: image(events, r.event_id),
        parent_id: parent,
        from_account_id: image(accounts, r.from_account_id),
        to_account_id: image(accounts, r.to_account_id),
        asset_id: image(assets, r.asset_id),
        amount_id: amount,
        target_event_id: image(events, r.target_event_id),
        loan_account_id: image(accounts, r.loan_account_id),
        down_payment_amount_id: down_payment,
        ..r
    }
}

/// Copy an effect row under a fresh id, its parent and amounts already
/// copied.
pub fn copy_effect_row(
    row: &EffectRow,
    id: i64,
    parent: Option<i64>,
    amount: Option<i64>,
    down_payment: Option<i64>,
    accounts: &Remap,
    assets: &Remap,
    events: &Remap,
) -> (r: Result<EffectRow, ApiError>)
    ensures
        match effect_copy_fault(effect_row_view(*row), accounts@, assets@, events@) {
            None => r matches Ok(n) && effect_row_view(n) == copied_effect(
                effect_row_view(*row),
                id,
                parent,
                amount,
                down_payment,
                accounts@,
                assets@,
                events@,
            ),
            Some((what, old)) => r matches Err(e) && dangling_error(e, what, old),
        },
{
    let event_id = match remap_opt(events, row.event_id, "event") {
        Ok(v) => v,
        Err(e) => return Err(e),
    };
    let from_account_id = match remap_opt(accounts, row.from_account_id, "account") {
        Ok(v) => v,
        Err(e) => return Err(e),
    };
    let to_account_id = match remap_opt(accounts, row.to_account_id, "account") {
        Ok(v) => v,
        Err(e) => return Err(e),
    };
    let asset_id = match remap_opt(assets, row.asset_id, "asset") {
        Ok(v) => v,
        Err(e) => return Err(e),
    };
    let target_event_id = match remap_opt(events, row.target_event_id, "event") {
        Ok(v) => v,
        Err(e) => return Err(e),
    };
    let loan_account_id = match remap_opt(accounts, row.loan_account_id, "account") {
        Ok(v) => v,
        Err(e) => return Err(e),
    };
    Ok(
        EffectRow {
            id,
            event_id,
            parent_id: parent,
            parent_slot: copy_text(&row.parent_slot),
            position: row.position,
            kind: owned(row.kind.as_str()),
            from_account_id,
            to_account_id,
            asset_id,
            amount_id: amount,
            target_event_id,
            amount_mode: copy_text(&row.amount_mode),
            income_type: copy_text(&row.income_type),
            lot_method: copy_text(&row.lot_method),
            probability_bits: row.probability_bits,
            units_bits: row.units_bits,
            sell_to_cover: row.sell_to_cover,
            loan_account_id,
            down_payment_amount_id: down_payment,
            term_months: row.term_months,
            selling_cost_rate_bits: row.selling_cost_rate_bits,
            gain_exclusion_bits: row.gain_exclusion_bits,
            shock_drop_bits: row.shock_drop_bits,
        },
    )
}

/// Copy an effect's withdrawal source row onto the effect's copy, its
/// account, then its asset, rewritten.
pub fn copy_source_row(row: &WithdrawalSourceRow, effect_id: i64, accounts: &Remap, assets: &Remap) -> (r:
    Result<WithdrawalSourceRow, ApiError>)
    ensures
        ({
            let v = source_row(*row);
            if !covered(accounts@, v.2) {
                r matches Err(e) && dangling_error(e, "account"@, v.2->0)
            } else if !covered(assets@, v.3) {
                r matches Err(e) && dangling_error(e, "asset"@, v.3->0)
            } else {
                r matches Ok(n) && source_row(n) == (effect_id, v.1, image(accounts@, v.2), image(assets@, v.3), v.4)
            }
        }),
{
    let account_id = match remap_opt(accounts, row.account_id, "account") {
        Ok(v) => v,
        Err(e) => return Err(e),
    };
    let asset_id = match remap_opt(assets, row.asset_id, "asset") {
        Ok(v) => v,
        Err(e) => return Err(e),
    };
    Ok(
        WithdrawalSourceRow {
            effect_id,
            mode: owned(row.mode.as_str()),
            account_id,
            asset_id,
            strategy: copy_text(&row.strategy),
        },
    )
}

/// Copy one of an effect's withdrawal items onto the effect's copy, its
/// account, then its asset, rewritten.
pub fn copy_item_row(row: &WithdrawalItemRow, effect_id: i64, accounts: &Remap, assets: &Remap) -> (r: Result<
    WithdrawalItemRow,
    ApiError,
>)
    ensures
        ({
            let v = item_row(*row);
            if !accounts@.contains_key(v.3) {
                r matches Err(e) && dangling_error(e, "account"@, v.3)
            } else if !covered(assets@, v.4) {
                r matches Err(e) && dangling_error(e, "asset"@, v.4->0)
            } else {
                r matches Ok(n) && item_row(n) == (effect_id, v.1, v.2, accounts@[v.3], image(assets@, v.4))
            }
        }),
{
    let account_id = match remap(accounts, row.account_id, "account") {
        Ok(v) => v,
        Err(e) => return Err(e),
    };
    let asset_id = match remap_opt(assets, row.asset_id, "asset") {
        Ok(v) => v,
        Err(e) => return Err(e),
    };
    Ok(WithdrawalItemRow { effect_id, role: owned(row.role.as_str()), position: row.position, account_id, asset_id })
}

} // verus!

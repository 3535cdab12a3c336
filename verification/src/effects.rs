//! Event effects: what an event does when it fires, how an effect is laid
//! out as rows (its amounts, its withdrawal source, its branches) and how it
//! is read back.
use vstd::prelude::*;

use crate::amounts::{
    amount_layout, amount_row_views, amount_rows, bits_or, id_or_zero,
    lemma_layout_ids, lemma_layout_len, lemma_read_within, node_count,
    read_amount, read_error, read_model, write_error, AmountModel, AmountRowView, AmountSpec, ReadFault,
    WriteFault,
};
use crate::error::{owned, ApiError};
use crate::rows::{EffectRow, TransferAmountRow, WithdrawalItemRow, WithdrawalSourceRow};
use crate::specs::{
    check_depth, income_name, income_str, item_row, item_rows, lot_name, lot_str, mode_name, mode_str,
    read_sources, read_withdrawal_sources, source_row, source_rows, withdrawal_rows,
    withdrawal_sources_round_trip, AmountMode, EffectParent, IncomeType, LotMethod, SourcesModel,
    WithdrawalSourcesSpec, MAX_SPEC_DEPTH,
};
use crate::text::same_text;
use crate::triggers::text_of;

verus! {

/// How a property purchase is financed: the loan account drawn for the
/// price less the down payment, and the months it amortizes over.
pub struct FinancingSpec {
    pub loan_account_id: i64,
    pub down_payment: AmountSpec,
    pub term_months: u32,
}

/// An effect as a client sends it. Numbers are carried as the bit pattern
/// of their IEEE 754 double.
pub enum EffectSpec {
    Income { to_account_id: i64, amount: AmountSpec, amount_mode: AmountMode, income_type: IncomeType },
    Expense { from_account_id: i64, amount: AmountSpec },
    AssetPurchase { from_account_id: i64, to_account_id: i64, asset_id: i64, amount: AmountSpec },
    AssetSale {
        from_account_id: i64,
        asset_id: Option<i64>,
        amount: AmountSpec,
        amount_mode: AmountMode,
        lot_method: LotMethod,
    },
    Sweep {
        to_account_id: i64,
        amount: AmountSpec,
        sources: Option<WithdrawalSourcesSpec>,
        amount_mode: AmountMode,
        lot_method: LotMethod,
        income_type: IncomeType,
    },
    AdjustBalance { account_id: i64, amount: AmountSpec },
    CashTransfer { from_account_id: i64, to_account_id: i64, amount: AmountSpec },
    TriggerEvent { target_event_id: i64 },
    PauseEvent { target_event_id: i64 },
    ResumeEvent { target_event_id: i64 },
    TerminateEvent { target_event_id: i64 },
    DeleteAccount { account_id: i64 },
    ApplyRmd { to_account_id: i64, lot_method: LotMethod },
    RsuVesting {
        to_account_id: i64,
        asset_id: i64,
        units_bits: u64,
        sell_to_cover: bool,
        lot_method: LotMethod,
    },
    Random { probability_bits: u64, on_true: Box<EffectSpec>, on_false: Option<Box<EffectSpec>> },
    BuyProperty {
        property_account_id: i64,
        from_account_id: i64,
        price: AmountSpec,
        financing: Option<FinancingSpec>,
    },
    SellProperty {
        property_account_id: i64,
        to_account_id: i64,
        selling_cost_rate_bits: u64,
        gain_exclusion_bits: u64,
        payoff_account_id: Option<i64>,
    },
    MarketShock { drop_bits: u64 },
}

/// An effect as a value.
pub enum EffectModel {
    Income(i64, AmountModel, AmountMode, IncomeType),
    Expense(i64, AmountModel),
    AssetPurchase(i64, i64, i64, AmountModel),
    AssetSale(i64, Option<i64>, AmountModel, AmountMode, LotMethod),
    Sweep(i64, AmountModel, Option<SourcesModel>, AmountMode, LotMethod, IncomeType),
    AdjustBalance(i64, AmountModel),
    CashTransfer(i64, i64, AmountModel),
    TriggerEvent(i64),
    PauseEvent(i64),
    ResumeEvent(i64),
    TerminateEvent(i64),
    DeleteAccount(i64),
    ApplyRmd(i64, LotMethod),
    RsuVesting(i64, i64, u64, bool, LotMethod),
    Random(u64, Box<EffectModel>, Option<Box<EffectModel>>),
    BuyProperty(i64, i64, AmountModel, Option<(i64, AmountModel, u32)>),
    SellProperty(i64, i64, u64, u64, Option<i64>),
    MarketShock(u64),
}

pub open spec fn effect_model(e: EffectSpec) -> EffectModel
    decreases e,
{
    match e {
        EffectSpec::Income { to_account_id, amount, amount_mode, income_type } => EffectModel::Income(
            to_account_id,
            amount@,
            amount_mode,
            income_type,
        ),
        EffectSpec::Expense { from_account_id, amount } => EffectModel::Expense(from_account_id, amount@),
        EffectSpec::AssetPurchase { from_account_id, to_account_id, asset_id, amount } =>
            EffectModel::AssetPurchase(from_account_id, to_account_id, asset_id, amount@),
        EffectSpec::AssetSale { from_account_id, asset_id, amount, amount_mode, lot_method } =>
            EffectModel::AssetSale(from_account_id, asset_id, amount@, amount_mode, lot_method),
        EffectSpec::Sweep { to_account_id, amount, sources, amount_mode, lot_method, income_type } =>
            EffectModel::Sweep(
            to_account_id,
            amount@,
            match sources {
                Some(s) => Some(s@),
                None => None,
            },
            amount_mode,
            lot_method,
            income_type,
        ),
        EffectSpec::AdjustBalance { account_id, amount } => EffectModel::AdjustBalance(account_id, amount@),
        EffectSpec::CashTransfer { from_account_id, to_account_id, amount } => EffectModel::CashTransfer(
            from_account_id,
            to_account_id,
            amount@,
        ),
        EffectSpec::TriggerEvent { target_event_id } => EffectModel::TriggerEvent(target_event_id),
        EffectSpec::PauseEvent { target_event_id } => EffectModel::PauseEvent(target_event_id),
        EffectSpec::ResumeEvent { target_event_id } => EffectModel::ResumeEvent(target_event_id),
        EffectSpec::TerminateEvent { target_event_id } => EffectModel::TerminateEvent(target_event_id),
        EffectSpec::DeleteAccount { account_id } => EffectModel::DeleteAccount(account_id),
        EffectSpec::ApplyRmd { to_account_id, lot_method } => EffectModel::ApplyRmd(to_account_id, lot_method),
        EffectSpec::RsuVesting { to_account_id, asset_id, units_bits, sell_to_cover, lot_method } =>
            EffectModel::RsuVesting(to_account_id, asset_id, units_bits, sell_to_cover, lot_method),
        EffectSpec::Random { probability_bits, on_true, on_false } => EffectModel::Random(
            probability_bits,
            Box::new(effect_model(*on_true)),
            match on_false {
                Some(b) => Some(Box::new(effect_model(*b))),
                None => None,
            },
        ),
        EffectSpec::BuyProperty { property_account_id, from_account_id, price, financing } =>
            EffectModel::BuyProperty(
            property_account_id,
            from_account_id,
            price@,
            match financing {
                Some(f) => Some((f.loan_account_id, f.down_payment@, f.term_months)),
                None => None,
            },
        ),
        EffectSpec::SellProperty {
            property_account_id,
            to_account_id,
            selling_cost_rate_bits,
            gain_exclusion_bits,
            payoff_account_id,
        } => EffectModel::SellProperty(
            property_account_id,
            to_account_id,
            selling_cost_rate_bits,
            gain_exclusion_bits,
            payoff_account_id,
        ),
        EffectSpec::MarketShock { drop_bits } => EffectModel::MarketShock(drop_bits),
    }
}

impl View for EffectSpec {
    type V = EffectModel;

    open spec fn view(&self) -> EffectModel {
        effect_model(*self)
    }
}

/// The amount an effect moves, where it has one.
pub open spec fn amount_of(m: EffectModel) -> Option<AmountModel> {
    match m {
        EffectModel::Income(_, a, _, _) => Some(a),
        EffectModel::Expense(_, a) => Some(a),
        EffectModel::AssetPurchase(_, _, _, a) => Some(a),
        EffectModel::AssetSale(_, _, a, _, _) => Some(a),
        EffectModel::Sweep(_, a, _, _, _, _) => Some(a),
        EffectModel::AdjustBalance(_, a) => Some(a),
        EffectModel::CashTransfer(_, _, a) => Some(a),
        EffectModel::BuyProperty(_, _, a, _) => Some(a),
        _ => None,
    }
}

/// A financed purchase's down payment.
pub open spec fn down_payment_of(m: EffectModel) -> Option<AmountModel> {
    match m {
        EffectModel::BuyProperty(_, _, _, Some((_, d, _))) => Some(d),
        _ => None,
    }
}

pub open spec fn amount_nodes(a: Option<AmountModel>) -> nat {
    match a {
        Some(x) => node_count(x),
        None => 0,
    }
}

/// How many effect rows an effect takes.
pub open spec fn effect_count(m: EffectModel) -> nat
    decreases m,
{
    match m {
        EffectModel::Random(_, t, f) => 1 + effect_count(*t) + match f {
            Some(b) => effect_count(*b),
            None => 0,
        },
        _ => 1,
    }
}

/// How many amount rows an effect takes.
pub open spec fn effect_amount_count(m: EffectModel) -> nat
    decreases m,
{
    match m {
        EffectModel::Random(_, t, f) => effect_amount_count(*t) + match f {
            Some(b) => effect_amount_count(*b),
            None => 0,
        },
        _ => amount_nodes(amount_of(m)) + amount_nodes(down_payment_of(m)),
    }
}

/// Every withdrawal list an effect carries has a length that fits a
/// position column.
pub open spec fn sources_fit(m: EffectModel) -> bool
    decreases m,
{
    match m {
        EffectModel::Random(_, t, f) => sources_fit(*t) && match f {
            Some(b) => sources_fit(*b),
            None => true,
        },
        EffectModel::Sweep(_, _, Some(s), _, _, _) => match s {
            SourcesModel::Strategy(_, e) => e.len() <= i64::MAX,
            SourcesModel::Custom(e) => e.len() <= i64::MAX,
            _ => true,
        },
        _ => true,
    }
}

/// A double's bits say it lies in `[0, 1]` (negative zero included).
pub open spec fn unit_interval_closed(bits: u64) -> bool {
    bits <= 0x3FF0_0000_0000_0000u64 || bits == 0x8000_0000_0000_0000u64
}

/// A double's bits say it is below zero (not negative zero, not NaN).
pub open spec fn below_zero(bits: u64) -> bool {
    0x8000_0000_0000_0001u64 <= bits <= 0xFFF0_0000_0000_0000u64
}

/// A double's bits say it lies in `(0, 1)`.
pub open spec fn unit_interval_open(bits: u64) -> bool {
    0 < bits < 0x3FF0_0000_0000_0000u64
}

/// Why an effect cannot be written.
pub enum EffectFault {
    TooDeep,
    Amount(WriteFault),
    SellingCost,
    GainExclusion,
    ShockDrop,
    MortgageTerm,
    EmptyCustomSource,
}

pub open spec fn effect_error(f: EffectFault, e: ApiError) -> bool {
    match f {
        EffectFault::TooDeep => e matches ApiError::BadRequest(m) && m@
            == "expression nests deeper than 64 levels"@,
        EffectFault::Amount(w) => write_error(w, e),
        EffectFault::SellingCost => e matches ApiError::BadRequest(m) && m@
            == "selling costs are a share of the price, between 0 and 1"@,
        EffectFault::GainExclusion => e matches ApiError::BadRequest(m) && m@
            == "the gain exclusion cannot be negative"@,
        EffectFault::ShockDrop => e matches ApiError::BadRequest(m) && m@
            == "a market shock's drop is a fraction between 0 and 1"@,
        EffectFault::MortgageTerm => e matches ApiError::BadRequest(m) && m@
            == "a mortgage term must be at least one month"@,
        EffectFault::EmptyCustomSource => e matches ApiError::BadRequest(m) && m@
            == "a Custom withdrawal source needs at least one entry"@,
    }
}

/// The check on an effect's own numbers, after its amounts are written and
/// before its row is.
pub open spec fn number_fault(m: EffectModel) -> Option<EffectFault> {
    match m {
        EffectModel::SellProperty(_, _, rate, gain, _) => if !unit_interval_closed(rate) {
            Some(EffectFault::SellingCost)
        } else if below_zero(gain) {
            Some(EffectFault::GainExclusion)
        } else {
            None
        },
        EffectModel::MarketShock(drop) => if !unit_interval_open(drop) {
            Some(EffectFault::ShockDrop)
        } else {
            None
        },
        EffectModel::BuyProperty(_, _, _, Some((_, _, term))) => if term == 0 {
            Some(EffectFault::MortgageTerm)
        } else {
            None
        },
        _ => None,
    }
}

/// A stored effect row as plain values.
pub struct EffectRowView {
    pub id: i64,
    pub event_id: Option<i64>,
    pub parent_id: Option<i64>,
    pub parent_slot: Option<Seq<char>>,
    pub position: i64,
    pub kind: Seq<char>,
    pub from_account_id: Option<i64>,
    pub to_account_id: Option<i64>,
    pub asset_id: Option<i64>,
    pub amount_id: Option<i64>,
    pub target_event_id: Option<i64>,
    pub amount_mode: Option<Seq<char>>,
    pub income_type: Option<Seq<char>>,
    pub lot_method: Option<Seq<char>>,
    pub probability_bits: Option<u64>,
    pub units_bits: Option<u64>,
    pub sell_to_cover: Option<i64>,
    pub loan_account_id: Option<i64>,
    pub down_payment_amount_id: Option<i64>,
    pub term_months: Option<i64>,
    pub selling_cost_rate_bits: Option<u64>,
    pub gain_exclusion_bits: Option<u64>,
    pub shock_drop_bits: Option<u64>,
}

pub open spec fn effect_row_view(r: EffectRow) -> EffectRowView {
    EffectRowView {
        id: r.id,
        event_id: r.event_id,
        parent_id: r.parent_id,
        parent_slot: text_of(r.parent_slot),
        position: r.position,
        kind: r.kind@,
        from_account_id: r.from_account_id,
        to_account_id: r.to_account_id,
        asset_id: r.asset_id,
        amount_id: r.amount_id,
        target_event_id: r.target_event_id,
        amount_mode: text_of(r.amount_mode),
        income_type: text_of(r.income_type),
        lot_method: text_of(r.lot_method),
        probability_bits: r.probability_bits,
        units_bits: r.units_bits,
        sell_to_cover: r.sell_to_cover,
        loan_account_id: r.loan_account_id,
        down_payment_amount_id: r.down_payment_amount_id,
        term_months: r.term_months,
        selling_cost_rate_bits: r.selling_cost_rate_bits,
        gain_exclusion_bits: r.gain_exclusion_bits,
        shock_drop_bits: r.shock_drop_bits,
    }
}

pub open spec fn effect_row_views(v: Seq<EffectRow>) -> Seq<EffectRowView> {
    v.map_values(|r: EffectRow| effect_row_view(r))
}

pub open spec fn effect_parent_columns(p: EffectParent) -> (Option<i64>, Option<i64>, Option<Seq<char>>, i64) {
    match p {
        EffectParent::Event { event_id, position } => (Some(event_id), None, None, position),
        EffectParent::Branch { parent_id, on_true } => (
            None,
            Some(parent_id),
            Some(
                if on_true {
                    "on_true"@
                } else {
                    "on_false"@
                },
            ),
            0,
        ),
    }
}

pub open spec fn effect_kind(m: EffectModel) -> Seq<char> {
    match m {
        EffectModel::Income(..) => "Income"@,
        EffectModel::Expense(..) => "Expense"@,
        EffectModel::AssetPurchase(..) => "AssetPurchase"@,
        EffectModel::AssetSale(..) => "AssetSale"@,
        EffectModel::Sweep(..) => "Sweep"@,
        EffectModel::AdjustBalance(..) => "AdjustBalance"@,
        EffectModel::CashTransfer(..) => "CashTransfer"@,
        EffectModel::TriggerEvent(..) => "TriggerEvent"@,
        EffectModel::PauseEvent(..) => "PauseEvent"@,
        EffectModel::ResumeEvent(..) => "ResumeEvent"@,
        EffectModel::TerminateEvent(..) => "TerminateEvent"@,
        EffectModel::DeleteAccount(..) => "DeleteAccount"@,
        EffectModel::ApplyRmd(..) => "ApplyRmd"@,
        EffectModel::RsuVesting(..) => "RsuVesting"@,
        EffectModel::Random(..) => "Random"@,
        EffectModel::BuyProperty(..) => "BuyProperty"@,
        EffectModel::SellProperty(..) => "SellProperty"@,
        EffectModel::MarketShock(..) => "MarketShock"@,
    }
}

/// An effect's own row: its id, where it hangs and its amounts' ids, with
/// every other column read off the effect.
pub open spec fn effect_row(
    m: EffectModel,
    id: int,
    parent: EffectParent,
    amount_id: Option<i64>,
    down_payment_id: Option<i64>,
) -> EffectRowView {
    let (event_id, parent_id, parent_slot, position) = effect_parent_columns(parent);
    EffectRowView {
        id: id as i64,
        event_id,
        parent_id,
        parent_slot,
        position,
        kind: effect_kind(m),
        from_account_id: match m {
            EffectModel::Expense(f, _) => Some(f),
            EffectModel::AssetPurchase(f, _, _, _) => Some(f),
            EffectModel::AssetSale(f, _, _, _, _) => Some(f),
            EffectModel::CashTransfer(f, _, _) => Some(f),
            EffectModel::BuyProperty(_, f, _, _) => Some(f),
            EffectModel::SellProperty(p, _, _, _, _) => Some(p),
            _ => None,
        },
        to_account_id: match m {
            EffectModel::Income(t, _, _, _) => Some(t),
            EffectModel::AssetPurchase(_, t, _, _) => Some(t),
            EffectModel::Sweep(t, _, _, _, _, _) => Some(t),
            EffectModel::AdjustBalance(a, _) => Some(a),
            EffectModel::CashTransfer(_, t, _) => Some(t),
            EffectModel::DeleteAccount(a) => Some(a),
            EffectModel::ApplyRmd(t, _) => Some(t),
            EffectModel::RsuVesting(t, _, _, _, _) => Some(t),
            EffectModel::BuyProperty(p, _, _, _) => Some(p),
            EffectModel::SellProperty(_, t, _, _, _) => Some(t),
            _ => None,
        },
        asset_id: match m {
            EffectModel::AssetPurchase(_, _, a, _) => Some(a),
            EffectModel::AssetSale(_, a, _, _, _) => a,
            EffectModel::RsuVesting(_, a, _, _, _) => Some(a),
            _ => None,
        },
        amount_id,
        target_event_id: match m {
            EffectModel::TriggerEvent(t) => Some(t),
            EffectModel::PauseEvent(t) => Some(t),
            EffectModel::ResumeEvent(t) => Some(t),
            EffectModel::TerminateEvent(t) => Some(t),
            _ => None,
        },
        amount_mode: match m {
            EffectModel::Income(_, _, a, _) => Some(mode_name(a)),
            EffectModel::AssetSale(_, _, _, a, _) => Some(mode_name(a)),
            EffectModel::Sweep(_, _, _, a, _, _) => Some(mode_name(a)),
            _ => None,
        },
        income_type: match m {
            EffectModel::Income(_, _, _, i) => Some(income_name(i)),
            EffectModel::Sweep(_, _, _, _, _, i) => Some(income_name(i)),
            _ => None,
        },
        lot_method: match m {
            EffectModel::AssetSale(_, _, _, _, l) => Some(lot_name(l)),
            EffectModel::Sweep(_, _, _, _, l, _) => Some(lot_name(l)),
            EffectModel::ApplyRmd(_, l) => Some(lot_name(l)),
            EffectModel::RsuVesting(_, _, _, _, l) => Some(lot_name(l)),
            _ => None,
        },
        probability_bits: match m {
            EffectModel::Random(p, _, _) => Some(p),
            _ => None,
        },
        units_bits: match m {
            EffectModel::RsuVesting(_, _, u, _, _) => Some(u),
            _ => None,
        },
        sell_to_cover: match m {
            EffectModel::RsuVesting(_, _, _, s, _) => Some(
                if s {
                    1i64
                } else {
                    0i64
                },
            ),
            _ => None,
        },
        loan_account_id: match m {
            EffectModel::BuyProperty(_, _, _, Some((l, _, _))) => Some(l),
            EffectModel::SellProperty(_, _, _, _, p) => p,
            _ => None,
        },
        down_payment_amount_id: down_payment_id,
        term_months: match m {
            EffectModel::BuyProperty(_, _, _, Some((_, _, t))) => Some(t as i64),
            _ => None,
        },
        selling_cost_rate_bits: match m {
            EffectModel::SellProperty(_, _, r, _, _) => Some(r),
            _ => None,
        },
        gain_exclusion_bits: match m {
            EffectModel::SellProperty(_, _, _, g, _) => Some(g),
            _ => None,
        },
        shock_drop_bits: match m {
            EffectModel::MarketShock(d) => Some(d),
            _ => None,
        },
    }
}

pub type SourceRowView = (i64, Seq<char>, Option<i64>, Option<i64>, Option<Seq<char>>);

pub type ItemRowView = (i64, Seq<char>, i64, i64, Option<i64>);

/// The rows an effect takes: effect rows, amount rows, withdrawal source
/// rows and their item rows.
pub struct EffectLayout {
    pub effects: Seq<EffectRowView>,
    pub amounts: Seq<AmountRowView>,
    pub sources: Seq<SourceRowView>,
    pub items: Seq<ItemRowView>,
}

/// An effect's amount and down payment, laid out from `abase`, and their
/// root ids.
pub open spec fn amount_stage(m: EffectModel, depth: nat, abase: int) -> Result<
    (Seq<AmountRowView>, Option<i64>, Option<i64>),
    EffectFault,
> {
    let first: Result<(Seq<AmountRowView>, Option<i64>), EffectFault> = match amount_of(m) {
        None => Ok((Seq::empty(), None)),
        Some(a) => match amount_layout(a, depth, abase) {
            Ok(r) => Ok((r, Some((abase + r.len() - 1) as i64))),
            Err(w) => Err(EffectFault::Amount(w)),
        },
    };
    match first {
        Err(f) => Err(f),
        Ok((ar, aid)) => match down_payment_of(m) {
            None => Ok((ar, aid, None)),
            Some(d) => match amount_layout(d, depth, abase + ar.len()) {
                Ok(r) => Ok((ar + r, aid, Some((abase + ar.len() + r.len() - 1) as i64))),
                Err(w) => Err(EffectFault::Amount(w)),
            },
        },
    }
}

/// An effect laid out as rows: effect ids numbered from `ebase`, amount ids
/// from `abase`. Its depth is checked; its amount and then its down payment
/// are written; its own numbers are checked; its row is written, then its
/// withdrawal source (a custom one needs an entry), or its branches: the
/// true branch, then the false one, each under it.
pub open spec fn effect_layout(m: EffectModel, parent: EffectParent, depth: nat, ebase: int, abase: int) -> Result<
    EffectLayout,
    EffectFault,
>
    decreases m,
{
    if depth > MAX_SPEC_DEPTH {
        Err(EffectFault::TooDeep)
    } else {
        match amount_stage(m, depth, abase) {
            Err(f) => Err(f),
            Ok((ar, aid, did)) => match number_fault(m) {
                Some(f) => Err(f),
                None => {
                    let row = effect_row(m, ebase, parent, aid, did);
                    match m {
                        EffectModel::Sweep(_, _, Some(s), _, _, _) => if s matches SourcesModel::Custom(e)
                            && e.len() == 0 {
                            Err(EffectFault::EmptyCustomSource)
                        } else {
                            Ok(
                                EffectLayout {
                                    effects: seq![row],
                                    amounts: ar,
                                    sources: seq![source_rows(ebase as i64, s).0],
                                    items: source_rows(ebase as i64, s).1,
                                },
                            )
                        },
                        EffectModel::Random(_, t, f) => match effect_layout(
                            *t,
                            EffectParent::Branch { parent_id: ebase as i64, on_true: true },
                            depth + 1,
                            ebase + 1,
                            abase + ar.len(),
                        ) {
                            Err(x) => Err(x),
                            Ok(tl) => match f {
                                None => Ok(
                                    EffectLayout {
                                        effects: seq![row] + tl.effects,
                                        amounts: ar + tl.amounts,
                                        sources: tl.sources,
                                        items: tl.items,
                                    },
                                ),
                                Some(b) => match effect_layout(
                                    *b,
                                    EffectParent::Branch { parent_id: ebase as i64, on_true: false },
                                    depth + 1,
                                    ebase + 1 + tl.effects.len(),
                                    abase + ar.len() + tl.amounts.len(),
                                ) {
                                    Err(x) => Err(x),
                                    Ok(fl) => Ok(
                                        EffectLayout {
                                            effects: seq![row] + tl.effects + fl.effects,
                                            amounts: ar + tl.amounts + fl.amounts,
                                            sources: tl.sources + fl.sources,
                                            items: tl.items + fl.items,
                                        },
                                    ),
                                },
                            },
                        },
                        _ => Ok(
                            EffectLayout {
                                effects: seq![row],
                                amounts: ar,
                                sources: Seq::empty(),
                                items: Seq::empty(),
                            },
                        ),
                    }
                },
            },
        }
    }
}


/// An effect's own row hangs where it was written; the rows of its branches
/// belong to no event.
proof fn lemma_layout_events(m: EffectModel, parent: EffectParent, depth: nat, ebase: int, abase: int)
    requires
        effect_layout(m, parent, depth, ebase, abase) is Ok,
    ensures
        ({
            let l = effect_layout(m, parent, depth, ebase, abase)->Ok_0;
            &&& l.effects.len() >= 1
            &&& l.effects[0].event_id == effect_parent_columns(parent).0
            &&& l.effects[0].parent_id == effect_parent_columns(parent).1
            &&& forall|i: int| 1 <= i < l.effects.len() ==> (#[trigger] l.effects[i]).event_id is None
        }),
    decreases m,
{
    let l = effect_layout(m, parent, depth, ebase, abase)->Ok_0;
    match m {
        EffectModel::Random(_, t, f) => {
            let ar = amount_stage(m, depth, abase)->Ok_0.0;
            let tp = EffectParent::Branch { parent_id: ebase as i64, on_true: true };
            lemma_layout_events(*t, tp, depth + 1, ebase + 1, abase + ar.len());
            let tl = effect_layout(*t, tp, depth + 1, ebase + 1, abase + ar.len())->Ok_0;
            match f {
                None => {
                    assert forall|i: int| 1 <= i < l.effects.len() implies (#[trigger] l.effects[i]).event_id is None by {
                        assert(l.effects[i] == tl.effects[i - 1]);
                    }
                },
                Some(b) => {
                    let fp = EffectParent::Branch { parent_id: ebase as i64, on_true: false };
                    let fb = ebase + 1 + tl.effects.len();
                    let fa = abase + ar.len() + tl.amounts.len();
                    lemma_layout_events(*b, fp, depth + 1, fb, fa);
                    let fl = effect_layout(*b, fp, depth + 1, fb, fa)->Ok_0;
                    assert forall|i: int| 1 <= i < l.effects.len() implies (#[trigger] l.effects[i]).event_id is None by {
                        if i < 1 + tl.effects.len() {
                            assert(l.effects[i] == tl.effects[i - 1]);
                        } else {
                            assert(l.effects[i] == fl.effects[i - 1 - tl.effects.len()]);
                        }
                    }
                },
            }
        },
        _ => {},
    }
}

proof fn lemma_stage_len(m: EffectModel, depth: nat, abase: int)
    ensures
        amount_stage(m, depth, abase) matches Ok((ar, aid, did)) ==> ar.len() == amount_nodes(amount_of(m))
            + amount_nodes(down_payment_of(m)),
{
    match amount_of(m) {
        Some(a) => lemma_layout_len(a, depth, abase),
        None => {},
    }
    match amount_stage(m, depth, abase) {
        Ok((ar0, _, _)) => {
            let first_len: int = match amount_of(m) {
                Some(a) => node_count(a) as int,
                None => 0,
            };
            match down_payment_of(m) {
                Some(d) => lemma_layout_len(d, depth, abase + first_len),
                None => {},
            }
        },
        Err(_) => {},
    }
}

proof fn lemma_effect_layout_len(m: EffectModel, parent: EffectParent, depth: nat, ebase: int, abase: int)
    ensures
        effect_layout(m, parent, depth, ebase, abase) matches Ok(l) ==> l.effects.len() == effect_count(m)
            && l.amounts.len() == effect_amount_count(m),
    decreases m,
{
    lemma_stage_len(m, depth, abase);
    if depth <= MAX_SPEC_DEPTH {
        match amount_stage(m, depth, abase) {
            Ok((ar, aid, did)) => match m {
                EffectModel::Random(_, t, f) => {
                    lemma_effect_layout_len(
                        *t,
                        EffectParent::Branch { parent_id: ebase as i64, on_true: true },
                        depth + 1,
                        ebase + 1,
                        abase + ar.len(),
                    );
                    match effect_layout(
                        *t,
                        EffectParent::Branch { parent_id: ebase as i64, on_true: true },
                        depth + 1,
                        ebase + 1,
                        abase + ar.len(),
                    ) {
                        Ok(tl) => match f {
                            Some(b) => lemma_effect_layout_len(
                                *b,
                                EffectParent::Branch { parent_id: ebase as i64, on_true: false },
                                depth + 1,
                                ebase + 1 + tl.effects.len(),
                                abase + ar.len() + tl.amounts.len(),
                            ),
                            None => {},
                        },
                        Err(_) => {},
                    }
                },
                _ => {},
            },
            Err(_) => {},
        }
    }
}

impl EffectSpec {
    /// The amount the effect moves, where it has one: a purchase's price
    /// counts as its amount.
    pub fn amount_spec(&self) -> (r: Option<&AmountSpec>)
        ensures
            match r {
                Some(a) => amount_of(self@) == Some(a@),
                None => amount_of(self@) is None,
            },
    {
        match self {
            EffectSpec::Income { amount, .. } => Some(amount),
            EffectSpec::Expense { amount, .. } => Some(amount),
            EffectSpec::AssetPurchase { amount, .. } => Some(amount),
            EffectSpec::AssetSale { amount, .. } => Some(amount),
            EffectSpec::Sweep { amount, .. } => Some(amount),
            EffectSpec::AdjustBalance { amount, .. } => Some(amount),
            EffectSpec::CashTransfer { amount, .. } => Some(amount),
            EffectSpec::BuyProperty { price, .. } => Some(price),
            _ => None,
        }
    }
}

fn some_text(s: &str) -> (r: Option<String>)
    ensures
        text_of(r) == Some(s@),
{
    Some(owned(s))
}

/// A row with the columns every effect has, and none of the others.
fn blank_row(
    id: i64,
    parent: EffectParent,
    kind: &str,
    amount_id: Option<i64>,
    down_payment_id: Option<i64>,
) -> (r: EffectRow)
    ensures
        ({
            let (event_id, parent_id, parent_slot, position) = effect_parent_columns(parent);
            let v = effect_row_view(r);
            &&& v.id == id && v.event_id == event_id && v.parent_id == parent_id
            &&& v.parent_slot == parent_slot && v.position == position && v.kind == kind@
            &&& v.amount_id == amount_id && v.down_payment_amount_id == down_payment_id
            &&& v.from_account_id is None && v.to_account_id is None && v.asset_id is None
            &&& v.target_event_id is None && v.amount_mode is None && v.income_type is None
            &&& v.lot_method is None && v.probability_bits is None && v.units_bits is None
            &&& v.sell_to_cover is None && v.loan_account_id is None && v.term_months is None
            &&& v.selling_cost_rate_bits is None && v.gain_exclusion_bits is None
            &&& v.shock_drop_bits is None
        }),
{
    let (event_id, parent_id, slot, position) = parent.columns();
    let parent_slot = match slot {
        Some(s) => some_text(s),
        None => None,
    };
    EffectRow {
        id,
        event_id,
        parent_id,
        parent_slot,
        position,
        kind: owned(kind),
        from_account_id: None,
        to_account_id: None,
        asset_id: None,
        amount_id,
        target_event_id: None,
        amount_mode: None,
        income_type: None,
        lot_method: None,
        probability_bits: None,
        units_bits: None,
        sell_to_cover: None,
        loan_account_id: None,
        down_payment_amount_id: down_payment_id,
        term_months: None,
        selling_cost_rate_bits: None,
        gain_exclusion_bits: None,
        shock_drop_bits: None,
    }
}

/// An effect's own row, as [`effect_row`] says: the flat columns of its
/// kind, the rest empty.
fn effect_row_for(
    spec: &EffectSpec,
    id: i64,
    parent: EffectParent,
    amount_id: Option<i64>,
    down_payment_id: Option<i64>,
) -> (r: EffectRow)
    ensures
        effect_row_view(r) == effect_row(spec@, id as int, parent, amount_id, down_payment_id),
{
    match spec {
        EffectSpec::Income { to_account_id, amount_mode, income_type, .. } => {
            let b = blank_row(id, parent, "Income", amount_id, down_payment_id);
            EffectRow {
                to_account_id: Some(*to_account_id),
                amount_mode: some_text(mode_str(*amount_mode)),
                income_type: some_text(income_str(*income_type)),
                ..b
            }
        },
        EffectSpec::Expense { from_account_id, .. } => {
            let b = blank_row(id, parent, "Expense", amount_id, down_payment_id);
            EffectRow { from_account_id: Some(*from_account_id), ..b }
        },
        EffectSpec::AssetPurchase { from_account_id, to_account_id, asset_id, .. } => {
            let b = blank_row(id, parent, "AssetPurchase", amount_id, down_payment_id);
            EffectRow {
                from_account_id: Some(*from_account_id),
                to_account_id: Some(*to_account_id),
                asset_id: Some(*asset_id),
                ..b
            }
        },
        EffectSpec::AssetSale { from_account_id, asset_id, amount_mode, lot_method, .. } => {
            let b = blank_row(id, parent, "AssetSale", amount_id, down_payment_id);
            EffectRow {
                from_account_id: Some(*from_account_id),
                asset_id: *asset_id,
                amount_mode: some_text(mode_str(*amount_mode)),
                lot_method: some_text(lot_str(*lot_method)),
                ..b
            }
        },
        EffectSpec::Sweep { to_account_id, amount_mode, lot_method, income_type, .. } => {
            let b = blank_row(id, parent, "Sweep", amount_id, down_payment_id);
            EffectRow {
                to_account_id: Some(*to_account_id),
                amount_mode: some_text(mode_str(*amount_mode)),
                lot_method: some_text(lot_str(*lot_method)),
                income_type: some_text(income_str(*income_type)),
                ..b
            }
        },
        EffectSpec::AdjustBalance { account_id, .. } => {
            let b = blank_row(id, parent, "AdjustBalance", amount_id, down_payment_id);
            EffectRow { to_account_id: Some(*account_id), ..b }
        },
        EffectSpec::CashTransfer { from_account_id, to_account_id, .. } => {
            let b = blank_row(id, parent, "CashTransfer", amount_id, down_payment_id);
            EffectRow { from_account_id: Some(*from_account_id), to_account_id: Some(*to_account_id), ..b }
        },
        EffectSpec::TriggerEvent { target_event_id } => {
            let b = blank_row(id, parent, "TriggerEvent", amount_id, down_payment_id);
            EffectRow { target_event_id: Some(*target_event_id), ..b }
        },
        EffectSpec::PauseEvent { target_event_id } => {
            let b = blank_row(id, parent, "PauseEvent", amount_id, down_payment_id);
            EffectRow { target_event_id: Some(*target_event_id), ..b }
        },
        EffectSpec::ResumeEvent { target_event_id } => {
            let b = blank_row(id, parent, "ResumeEvent", amount_id, down_payment_id);
            EffectRow { target_event_id: Some(*target_event_id), ..b }
        },
        EffectSpec::TerminateEvent { target_event_id } => {
            let b = blank_row(id, parent, "TerminateEvent", amount_id, down_payment_id);
            EffectRow { target_event_id: Some(*target_event_id), ..b }
        },
        EffectSpec::DeleteAccount { account_id } => {
            let b = blank_row(id, parent, "DeleteAccount", amount_id, down_payment_id);
            EffectRow { to_account_id: Some(*account_id), ..b }
        },
        EffectSpec::ApplyRmd { to_account_id, lot_method } => {
            let b = blank_row(id, parent, "ApplyRmd", amount_id, down_payment_id);
            EffectRow {
                to_account_id: Some(*to_account_id),
                lot_method: some_text(lot_str(*lot_method)),
                ..b
            }
        },
        EffectSpec::RsuVesting { to_account_id, asset_id, units_bits, sell_to_cover, lot_method } => {
            let b = blank_row(id, parent, "RsuVesting", amount_id, down_payment_id);
            EffectRow {
                to_account_id: Some(*to_account_id),
                asset_id: Some(*asset_id),
                units_bits: Some(*units_bits),
                sell_to_cover: Some(
                    if *sell_to_cover {
                        1i64
                    } else {
                        0i64
                    },
                ),
                lot_method: some_text(lot_str(*lot_method)),
                ..b
            }
        },
        EffectSpec::Random { probability_bits, .. } => {
            let b = blank_row(id, parent, "Random", amount_id, down_payment_id);
            EffectRow { probability_bits: Some(*probability_bits), ..b }
        },
        EffectSpec::BuyProperty { property_account_id, from_account_id, financing, .. } => {
            let b = blank_row(id, parent, "BuyProperty", amount_id, down_payment_id);
            let (loan, term) = match financing {
                Some(f) => (Some(f.loan_account_id), Some(f.term_months as i64)),
                None => (None, None),
            };
            EffectRow {
                from_account_id: Some(*from_account_id),
                to_account_id: Some(*property_account_id),
                loan_account_id: loan,
                term_months: term,
                ..b
            }
        },
        EffectSpec::SellProperty {
            property_account_id,
            to_account_id,
            selling_cost_rate_bits,
            gain_exclusion_bits,
            payoff_account_id,
        } => {
            let b = blank_row(id, parent, "SellProperty", amount_id, down_payment_id);
            EffectRow {
                from_account_id: Some(*property_account_id),
                to_account_id: Some(*to_account_id),
                loan_account_id: *payoff_account_id,
                selling_cost_rate_bits: Some(*selling_cost_rate_bits),
                gain_exclusion_bits: Some(*gain_exclusion_bits),
                ..b
            }
        },
        EffectSpec::MarketShock { drop_bits } => {
            let b = blank_row(id, parent, "MarketShock", amount_id, down_payment_id);
            EffectRow { shock_drop_bits: Some(*drop_bits), ..b }
        },
    }
}

/// The rows written for an effect: effect rows, amount rows, withdrawal
/// source rows and their item rows.
pub struct EffectRows {
    pub effects: Vec<EffectRow>,
    pub amounts: Vec<TransferAmountRow>,
    pub sources: Vec<WithdrawalSourceRow>,
    pub items: Vec<WithdrawalItemRow>,
}

pub open spec fn source_row_views(v: Seq<WithdrawalSourceRow>) -> Seq<SourceRowView> {
    v.map_values(|r: WithdrawalSourceRow| source_row(r))
}

impl View for EffectRows {
    type V = EffectLayout;

    open spec fn view(&self) -> EffectLayout {
        EffectLayout {
            effects: effect_row_views(self.effects@),
            amounts: amount_row_views(self.amounts@),
            sources: source_row_views(self.sources@),
            items: item_rows(self.items@),
        }
    }
}

/// Append `more` to `acc`, keeping the view of each table the concatenation.
fn extend_rows(acc: &mut EffectRows, more: EffectRows)
    ensures
        final(acc)@.effects == old(acc)@.effects + more@.effects,
        final(acc)@.amounts == old(acc)@.amounts + more@.amounts,
        final(acc)@.sources == old(acc)@.sources + more@.sources,
        final(acc)@.items == old(acc)@.items + more@.items,
{
    let EffectRows { effects: mut e, amounts: mut a, sources: mut s, items: mut i } = more;
    let ghost (e0, a0, s0, i0) = (acc.effects@, acc.amounts@, acc.sources@, acc.items@);
    let ghost (e1, a1, s1, i1) = (e@, a@, s@, i@);
    acc.effects.append(&mut e);
    acc.amounts.append(&mut a);
    acc.sources.append(&mut s);
    acc.items.append(&mut i);
    assert(effect_row_views(e0 + e1) =~= effect_row_views(e0) + effect_row_views(e1));
    assert(amount_row_views(a0 + a1) =~= amount_row_views(a0) + amount_row_views(a1));
    assert(source_row_views(s0 + s1) =~= source_row_views(s0) + source_row_views(s1));
    assert(item_rows(i0 + i1) =~= item_rows(i0) + item_rows(i1));
}

/// An effect's amount, then its down payment, written from `abase`, as
/// [`amount_stage`] says.
fn write_amounts(spec: &EffectSpec, depth: usize, abase: i64) -> (r: Result<
    (Vec<TransferAmountRow>, Option<i64>, Option<i64>),
    ApiError,
>)
    requires
        abase >= 0,
        abase + amount_nodes(amount_of(spec@)) + amount_nodes(down_payment_of(spec@)) <= i64::MAX,
    ensures
        match amount_stage(spec@, depth as nat, abase as int) {
            Ok((ar, aid, did)) => r matches Ok((v, a, d)) && amount_row_views(v@) == ar && a == aid
                && d == did,
            Err(f) => r matches Err(e) && effect_error(f, e),
        },
{
    let mut amounts: Vec<TransferAmountRow> = Vec::new();
    let mut amount_id: Option<i64> = None;
    match spec.amount_spec() {
        Some(a) => {
            proof {
                lemma_layout_len(a@, depth as nat, abase as int);
            }
            match amount_rows(a, depth, abase) {
                Ok(v) => {
                    amount_id = Some(abase + v.len() as i64 - 1);
                    amounts = v;
                },
                Err(e) => return Err(e),
            }
        },
        None => {
            assert(amount_row_views(amounts@) =~= Seq::<AmountRowView>::empty());
        },
    }
    let ghost first = amount_row_views(amounts@);
    assert(first.len() == amounts@.len());
    match spec {
        EffectSpec::BuyProperty { financing: Some(f), .. } => {
            let next = abase + amounts.len() as i64;
            proof {
                lemma_layout_len(f.down_payment@, depth as nat, next as int);
            }
            match amount_rows(&f.down_payment, depth, next) {
                Ok(mut v) => {
                    let down = Some(next + v.len() as i64 - 1);
                    let ghost (before, more) = (amounts@, v@);
                    amounts.append(&mut v);
                    assert(amount_row_views(before + more) =~= amount_row_views(before)
                        + amount_row_views(more));
                    Ok((amounts, amount_id, down))
                },
                Err(e) => Err(e),
            }
        },
        _ => Ok((amounts, amount_id, None)),
    }
}

/// The checks on an effect's own numbers, as [`number_fault`] says.
fn check_numbers(spec: &EffectSpec) -> (r: Result<(), ApiError>)
    ensures
        match number_fault(spec@) {
            None => r is Ok,
            Some(f) => r matches Err(e) && effect_error(f, e),
        },
{
    match spec {
        EffectSpec::SellProperty { selling_cost_rate_bits, gain_exclusion_bits, .. } => {
            let rate = *selling_cost_rate_bits;
            let gain = *gain_exclusion_bits;
            if !(rate <= 0x3FF0_0000_0000_0000u64 || rate == 0x8000_0000_0000_0000u64) {
                return Err(ApiError::bad_request("selling costs are a share of the price, between 0 and 1"));
            }
            if 0x8000_0000_0000_0001u64 <= gain && gain <= 0xFFF0_0000_0000_0000u64 {
                return Err(ApiError::bad_request("the gain exclusion cannot be negative"));
            }
            Ok(())
        },
        EffectSpec::MarketShock { drop_bits } => {
            if !(0 < *drop_bits && *drop_bits < 0x3FF0_0000_0000_0000u64) {
                return Err(ApiError::bad_request("a market shock's drop is a fraction between 0 and 1"));
            }
            Ok(())
        },
        EffectSpec::BuyProperty { financing: Some(f), .. } => {
            if f.term_months == 0 {
                return Err(ApiError::bad_request("a mortgage term must be at least one month"));
            }
            Ok(())
        },
        _ => Ok(()),
    }
}

/// Lay an effect out as rows, as [`effect_layout`] says: effect ids numbered
/// from `ebase`, amount ids from `abase`.
pub fn effect_rows(spec: &EffectSpec, parent: EffectParent, depth: usize, ebase: i64, abase: i64) -> (r:
    Result<EffectRows, ApiError>)
    requires
        ebase >= 0,
        abase >= 0,
        ebase + effect_count(spec@) <= i64::MAX,
        abase + effect_amount_count(spec@) <= i64::MAX,
        sources_fit(spec@),
    ensures
        match effect_layout(spec@, parent, depth as nat, ebase as int, abase as int) {
            Ok(l) => r matches Ok(v) && v@ == l,
            Err(f) => r matches Err(e) && effect_error(f, e),
        },
    decreases spec,
{
    match check_depth(depth) {
        Ok(()) => {},
        Err(e) => return Err(e),
    }
    let ghost m = spec@;
    proof {
        lemma_stage_len(m, depth as nat, abase as int);
    }
    let (amounts, amount_id, down_payment_id) = match write_amounts(spec, depth, abase) {
        Ok(x) => x,
        Err(e) => return Err(e),
    };
    match check_numbers(spec) {
        Ok(()) => {},
        Err(e) => return Err(e),
    }
    let row = effect_row_for(spec, ebase, parent, amount_id, down_payment_id);
    let ghost rv = effect_row_view(row);
    let effects = vec![row];
    assert(effect_row_views(effects@) =~= seq![rv]);
    match spec {
        EffectSpec::Sweep { sources: Some(s), .. } => {
            match withdrawal_rows(ebase, s) {
                Ok((source, items)) => {
                    let sources = vec![source];
                    assert(source_row_views(sources@) =~= seq![source_row(source)]);
                    Ok(EffectRows { effects, amounts, sources, items })
                },
                Err(e) => Err(e),
            }
        },
        EffectSpec::Random { on_true, on_false, .. } => {
            let mut acc = EffectRows { effects, amounts, sources: Vec::new(), items: Vec::new() };
            assert(acc@.sources =~= Seq::<SourceRowView>::empty());
            assert(acc@.items =~= Seq::<ItemRowView>::empty());
            let ghost ar = acc@.amounts;
            let next_a = abase + acc.amounts.len() as i64;
            let tparent = EffectParent::Branch { parent_id: ebase, on_true: true };
            proof {
                lemma_effect_layout_len(on_true@, tparent, (depth + 1) as nat, ebase + 1, next_a as int);
            }
            let t = match effect_rows(on_true, tparent, depth + 1, ebase + 1, next_a) {
                Ok(t) => t,
                Err(e) => return Err(e),
            };
            let ghost tl = t@;
            let next_e = ebase + 1 + t.effects.len() as i64;
            let next_a2 = next_a + t.amounts.len() as i64;
            assert(effect_row_views(t.effects@).len() == t.effects@.len());
            assert(amount_row_views(t.amounts@).len() == t.amounts@.len());
            extend_rows(&mut acc, t);
            match on_false {
                None => {
                    assert(acc@.sources =~= tl.sources);
                    assert(acc@.items =~= tl.items);
                    Ok(acc)
                },
                Some(b) => {
                    let fparent = EffectParent::Branch { parent_id: ebase, on_true: false };
                    let f = match effect_rows(b, fparent, depth + 1, next_e, next_a2) {
                        Ok(f) => f,
                        Err(e) => return Err(e),
                    };
                    extend_rows(&mut acc, f);
                    assert(acc@.sources =~= tl.sources + f@.sources) by {
                        assert(Seq::<SourceRowView>::empty() + tl.sources =~= tl.sources);
                    }
                    assert(acc@.items =~= tl.items + f@.items) by {
                        assert(Seq::<ItemRowView>::empty() + tl.items =~= tl.items);
                    }
                    Ok(acc)
                },
            }
        },
        _ => {
            let sources: Vec<WithdrawalSourceRow> = Vec::new();
            let items: Vec<WithdrawalItemRow> = Vec::new();
            assert(source_row_views(sources@) =~= Seq::<SourceRowView>::empty());
            assert(item_rows(items@) =~= Seq::<ItemRowView>::empty());
            Ok(EffectRows { effects, amounts, sources, items })
        },
    }
}

/// Why an effect cannot be read back from its rows.
pub enum EffectReadFault {
    /// The walk went deeper than any written effect can: the rows loop.
    Cyclic,
    /// No effect row has the id.
    Missing,
    /// A kind that moves an amount has none.
    NoAmount,
    /// The amount's rows cannot be read back.
    Amount(ReadFault),
    /// A random effect has no true branch.
    NoOnTrue,
}

pub open spec fn effect_read_error(f: EffectReadFault, e: ApiError) -> bool {
    match f {
        EffectReadFault::Cyclic => e matches ApiError::Internal(m) && m@ == "effect graph is cyclic"@,
        EffectReadFault::Missing => e == ApiError::NotFound("effect"),
        EffectReadFault::NoAmount => e matches ApiError::Internal(m) && m@
            == "effect is missing its amount"@,
        EffectReadFault::Amount(r) => read_error(r, e),
        EffectReadFault::NoOnTrue => e matches ApiError::Internal(m) && m@
            == "Random effect has no on_true branch"@,
    }
}

/// The position of the first element that satisfies `p`, or -1.
pub open spec fn first_where<T>(s: Seq<T>, p: spec_fn(T) -> bool) -> int
    decreases s.len(),
{
    if s.len() == 0 {
        -1
    } else {
        let k = first_where(s.drop_last(), p);
        if k >= 0 {
            k
        } else if p(s.last()) {
            s.len() - 1
        } else {
            -1
        }
    }
}

proof fn lemma_first_where<T>(s: Seq<T>, p: spec_fn(T) -> bool)
    ensures
        -1 <= first_where(s, p) < s.len(),
        first_where(s, p) >= 0 ==> p(s[first_where(s, p)]) && forall|j: int|
            0 <= j < first_where(s, p) ==> !p(#[trigger] s[j]),
        first_where(s, p) < 0 ==> forall|j: int| 0 <= j < s.len() ==> !p(#[trigger] s[j]),
    decreases s.len(),
{
    if s.len() > 0 {
        let d = s.drop_last();
        lemma_first_where(d, p);
        assert forall|j: int| 0 <= j < d.len() implies d[j] == s[j] by {}
    }
}

/// The first effect row with this id.
pub open spec fn effect_index(rows: Seq<EffectRowView>, id: i64) -> int {
    first_where(rows, |r: EffectRowView| r.id == id)
}

/// The first effect row hanging in a slot of a parent.
pub open spec fn child_index(rows: Seq<EffectRowView>, parent: i64, slot: Seq<char>) -> int {
    first_where(rows, |r: EffectRowView| r.parent_id == Some(parent) && r.parent_slot == Some(slot))
}

/// Whether a source row belongs to an effect.
pub open spec fn source_of(effect: i64) -> spec_fn(SourceRowView) -> bool {
    |r: SourceRowView| r.0 == effect
}

/// The first withdrawal source row of an effect.
pub open spec fn source_index(rows: Seq<SourceRowView>, effect: i64) -> int {
    first_where(rows, source_of(effect))
}

/// An effect's item rows, in stored order.
pub open spec fn items_of(items: Seq<ItemRowView>, effect: i64) -> Seq<ItemRowView>
    decreases items.len(),
{
    if items.len() == 0 {
        items
    } else {
        let before = items_of(items.drop_last(), effect);
        if items.last().0 == effect {
            before.push(items.last())
        } else {
            before
        }
    }
}

/// An effect's withdrawal source, where a row stores one.
pub open spec fn sources_of(g: EffectLayout, effect: i64) -> Option<SourcesModel> {
    let i = source_index(g.sources, effect);
    if i < 0 {
        None
    } else {
        Some(read_sources(g.sources[i], items_of(g.items, effect)))
    }
}

/// A stored amount mode: gross only when it says so.
pub open spec fn read_mode(o: Option<Seq<char>>) -> AmountMode {
    if o == Some("Gross"@) {
        AmountMode::Gross
    } else {
        AmountMode::Net
    }
}

/// A stored income type: tax free only when it says so.
pub open spec fn read_income(o: Option<Seq<char>>) -> IncomeType {
    if o == Some("TaxFree"@) {
        IncomeType::TaxFree
    } else {
        IncomeType::Taxable
    }
}

/// A stored lot method; anything unknown is first in, first out.
pub open spec fn read_lot(o: Option<Seq<char>>) -> LotMethod {
    if o == Some("Lifo"@) {
        LotMethod::Lifo
    } else if o == Some("HighestCost"@) {
        LotMethod::HighestCost
    } else if o == Some("LowestCost"@) {
        LotMethod::LowestCost
    } else if o == Some("AverageCost"@) {
        LotMethod::AverageCost
    } else {
        LotMethod::Fifo
    }
}

/// The stored kinds whose effect moves an amount.
pub open spec fn moves_amount(k: Seq<char>) -> bool {
    k == "Income"@ || k == "Expense"@ || k == "AssetPurchase"@ || k == "AssetSale"@ || k == "Sweep"@
        || k == "AdjustBalance"@ || k == "CashTransfer"@
}

/// An effect that moves an amount, read from its row, its amount and its
/// withdrawal source; missing ids read as zero.
pub open spec fn amount_effect(r: EffectRowView, a: AmountModel, s: Option<SourcesModel>) -> EffectModel {
    let to = id_or_zero(r.to_account_id);
    let from = id_or_zero(r.from_account_id);
    let k = r.kind;
    if k == "Income"@ {
        EffectModel::Income(to, a, read_mode(r.amount_mode), read_income(r.income_type))
    } else if k == "Expense"@ {
        EffectModel::Expense(from, a)
    } else if k == "AssetPurchase"@ {
        EffectModel::AssetPurchase(from, to, id_or_zero(r.asset_id), a)
    } else if k == "AssetSale"@ {
        EffectModel::AssetSale(from, r.asset_id, a, read_mode(r.amount_mode), read_lot(r.lot_method))
    } else if k == "Sweep"@ {
        EffectModel::Sweep(
            to,
            a,
            s,
            read_mode(r.amount_mode),
            read_lot(r.lot_method),
            read_income(r.income_type),
        )
    } else if k == "AdjustBalance"@ {
        EffectModel::AdjustBalance(to, a)
    } else {
        EffectModel::CashTransfer(from, to, a)
    }
}

/// An effect read from its row alone, for the kinds that need nothing
/// else; `None` for a kind read as a random effect.
pub open spec fn row_effect(r: EffectRowView) -> Option<EffectModel> {
    let k = r.kind;
    let target = id_or_zero(r.target_event_id);
    if k == "TriggerEvent"@ {
        Some(EffectModel::TriggerEvent(target))
    } else if k == "PauseEvent"@ {
        Some(EffectModel::PauseEvent(target))
    } else if k == "ResumeEvent"@ {
        Some(EffectModel::ResumeEvent(target))
    } else if k == "TerminateEvent"@ {
        Some(EffectModel::TerminateEvent(target))
    } else if k == "DeleteAccount"@ {
        Some(EffectModel::DeleteAccount(id_or_zero(r.to_account_id)))
    } else if k == "ApplyRmd"@ {
        Some(EffectModel::ApplyRmd(id_or_zero(r.to_account_id), read_lot(r.lot_method)))
    } else if k == "RsuVesting"@ {
        Some(
            EffectModel::RsuVesting(
                id_or_zero(r.to_account_id),
                id_or_zero(r.asset_id),
                bits_or(r.units_bits, 0),
                id_or_zero(r.sell_to_cover) != 0,
                read_lot(r.lot_method),
            ),
        )
    } else {
        None
    }
}

/// The effect rooted at row `id`: past depth 64 the rows are taken to loop;
/// a kind that moves an amount reads it at the same depth (and a sweep its
/// withdrawal source); any kind not known otherwise is read as a random
/// effect, whose true branch must be there and whose false branch may be.
pub open spec fn read_effect_model(g: EffectLayout, id: i64, depth: nat) -> Result<EffectModel, EffectReadFault>
    decreases 65 - depth,
{
    if depth > 64 {
        Err(EffectReadFault::Cyclic)
    } else {
        let i = effect_index(g.effects, id);
        if i < 0 {
            Err(EffectReadFault::Missing)
        } else {
            let r = g.effects[i];
            if moves_amount(r.kind) {
                match r.amount_id {
                    None => Err(EffectReadFault::NoAmount),
                    Some(a) => match read_model(g.amounts, a, depth) {
                        Ok(am) => Ok(amount_effect(r, am, sources_of(g, id))),
                        Err(f) => Err(EffectReadFault::Amount(f)),
                    },
                }
            } else {
                match row_effect(r) {
                    Some(e) => Ok(e),
                    None => {
                        let t = child_index(g.effects, id, "on_true"@);
                        if t < 0 {
                            Err(EffectReadFault::NoOnTrue)
                        } else {
                            match read_effect_model(g, g.effects[t].id, depth + 1) {
                                Err(f) => Err(f),
                                Ok(tm) => {
                                    let p = bits_or(r.probability_bits, 0);
                                    let fi = child_index(g.effects, id, "on_false"@);
                                    if fi < 0 {
                                        Ok(EffectModel::Random(p, Box::new(tm), None))
                                    } else {
                                        match read_effect_model(g, g.effects[fi].id, depth + 1) {
                                            Ok(fm) => Ok(
                                                EffectModel::Random(p, Box::new(tm), Some(Box::new(fm))),
                                            ),
                                            Err(f) => Err(f),
                                        }
                                    }
                                }
                            }
                        }
                    },
                }
            }
        }
    }
}

/// The first effect row with a given id.
fn find_effect(rows: &[EffectRow], id: i64) -> (r: Option<usize>)
    ensures
        match r {
            Some(i) => i < rows@.len() && i as int == effect_index(effect_row_views(rows@), id),
            None => effect_index(effect_row_views(rows@), id) < 0,
        },
{
    let ghost v = effect_row_views(rows@);
    let ghost p = |r: EffectRowView| r.id == id;
    assert(effect_index(v, id) == first_where(v, p));
    let mut i: usize = 0;
    while i < rows.len()
        invariant
            i <= rows@.len(),
            v == effect_row_views(rows@),
            p == (|r: EffectRowView| r.id == id),
            forall|j: int| 0 <= j < i ==> !p(#[trigger] v[j]),
        decreases rows@.len() - i,
    {
        if rows[i].id == id {
            proof {
                lemma_first_where(v, p);
                assert(p(v[i as int]));
            }
            return Some(i);
        }
        i = i + 1;
    }
    proof {
        lemma_first_where(v, p);
        let k = first_where(v, p);
        if k >= 0 {
            assert(p(v[k]));
        }
    }
    None
}

/// The first effect row hanging in a slot of a parent.
fn find_child(rows: &[EffectRow], parent: i64, slot: &str) -> (r: Option<usize>)
    ensures
        match r {
            Some(i) => i < rows@.len() && i as int == child_index(effect_row_views(rows@), parent, slot@),
            None => child_index(effect_row_views(rows@), parent, slot@) < 0,
        },
{
    let ghost v = effect_row_views(rows@);
    let ghost p = |r: EffectRowView| r.parent_id == Some(parent) && r.parent_slot == Some(slot@);
    assert(child_index(v, parent, slot@) == first_where(v, p));
    let mut i: usize = 0;
    while i < rows.len()
        invariant
            i <= rows@.len(),
            v == effect_row_views(rows@),
            p == (|r: EffectRowView| r.parent_id == Some(parent) && r.parent_slot == Some(slot@)),
            forall|j: int| 0 <= j < i ==> !p(#[trigger] v[j]),
        decreases rows@.len() - i,
    {
        let row = &rows[i];
        let same_parent = match row.parent_id {
            Some(x) => x == parent,
            None => false,
        };
        let same_slot = match &row.parent_slot {
            Some(s) => same_text(s.as_str(), slot),
            None => false,
        };
        assert(v[i as int] == effect_row_view(rows@[i as int]));
        if same_parent && same_slot {
            proof {
                lemma_first_where(v, p);
                assert(p(v[i as int]));
            }
            return Some(i);
        }
        assert(!p(v[i as int]));
        i = i + 1;
    }
    proof {
        lemma_first_where(v, p);
        let k = first_where(v, p);
        if k >= 0 {
            assert(p(v[k]));
        }
    }
    None
}

/// The first withdrawal source row of an effect.
fn find_source(rows: &[WithdrawalSourceRow], effect: i64) -> (r: Option<usize>)
    ensures
        match r {
            Some(i) => i < rows@.len() && i as int == source_index(source_row_views(rows@), effect),
            None => source_index(source_row_views(rows@), effect) < 0,
        },
{
    let ghost v = source_row_views(rows@);
    let ghost p = source_of(effect);
    let mut i: usize = 0;
    while i < rows.len()
        invariant
            i <= rows@.len(),
            v == source_row_views(rows@),
            p == source_of(effect),
            forall|j: int| 0 <= j < i ==> !p(#[trigger] v[j]),
        decreases rows@.len() - i,
    {
        assert(v[i as int] == source_row(rows@[i as int]));
        if rows[i].effect_id == effect {
            proof {
                lemma_first_where(v, p);
                assert(p(v[i as int]));
            }
            return Some(i);
        }
        i = i + 1;
    }
    proof {
        lemma_first_where(v, p);
        let k = first_where(v, p);
        if k >= 0 {
            assert(p(v[k]));
        }
    }
    None
}

/// An effect's item rows, in stored order.
pub(crate) fn items_for(items: &[WithdrawalItemRow], effect: i64) -> (r: Vec<WithdrawalItemRow>)
    ensures
        item_rows(r@) == items_of(item_rows(items@), effect),
{
    let ghost v = item_rows(items@);
    let mut out: Vec<WithdrawalItemRow> = Vec::new();
    let mut i: usize = 0;
    while i < items.len()
        invariant
            i <= items@.len(),
            v == item_rows(items@),
            item_rows(out@) == items_of(v.subrange(0, i as int), effect),
        decreases items@.len() - i,
    {
        assert(v.subrange(0, i + 1).drop_last() == v.subrange(0, i as int));
        assert(v.subrange(0, i + 1).last() == item_row(items@[i as int]));
        let it = &items[i];
        if it.effect_id == effect {
            let ghost before = out@;
            let copy = WithdrawalItemRow {
                effect_id: it.effect_id,
                role: owned(it.role.as_str()),
                position: it.position,
                account_id: it.account_id,
                asset_id: it.asset_id,
            };
            out.push(copy);
            assert(item_rows(out@) == item_rows(before).push(item_row(copy)));
        }
        i = i + 1;
    }
    assert(v.subrange(0, items@.len() as int) == v);
    out
}

pub open spec fn sources_view(s: Option<WithdrawalSourcesSpec>) -> Option<SourcesModel> {
    match s {
        Some(x) => Some(x@),
        None => None,
    }
}

/// An effect's withdrawal source, where a row stores one.
fn sources_for(rows: &EffectRows, effect: i64) -> (r: Option<WithdrawalSourcesSpec>)
    ensures
        sources_view(r) == sources_of(rows@, effect),
{
    match find_source(rows.sources.as_slice(), effect) {
        None => None,
        Some(i) => {
            let items = items_for(rows.items.as_slice(), effect);
            Some(read_withdrawal_sources(&rows.sources[i], items.as_slice()))
        },
    }
}

fn text_is(o: &Option<String>, s: &str) -> (r: bool)
    ensures
        r == (text_of(*o) == Some(s@)),
{
    match o {
        Some(x) => same_text(x.as_str(), s),
        None => false,
    }
}

fn mode_read(o: &Option<String>) -> (r: AmountMode)
    ensures
        r == read_mode(text_of(*o)),
{
    if text_is(o, "Gross") {
        AmountMode::Gross
    } else {
        AmountMode::Net
    }
}

fn income_read(o: &Option<String>) -> (r: IncomeType)
    ensures
        r == read_income(text_of(*o)),
{
    if text_is(o, "TaxFree") {
        IncomeType::TaxFree
    } else {
        IncomeType::Taxable
    }
}

fn lot_read(o: &Option<String>) -> (r: LotMethod)
    ensures
        r == read_lot(text_of(*o)),
{
    if text_is(o, "Lifo") {
        LotMethod::Lifo
    } else if text_is(o, "HighestCost") {
        LotMethod::HighestCost
    } else if text_is(o, "LowestCost") {
        LotMethod::LowestCost
    } else if text_is(o, "AverageCost") {
        LotMethod::AverageCost
    } else {
        LotMethod::Fifo
    }
}

fn or_zero(o: Option<i64>) -> (r: i64)
    ensures
        r == id_or_zero(o),
{
    match o {
        Some(v) => v,
        None => 0,
    }
}

/// An effect that moves an amount, built as [`amount_effect`] says.
fn amount_effect_of(row: &EffectRow, amount: AmountSpec, sources: Option<WithdrawalSourcesSpec>) -> (r:
    EffectSpec)
    ensures
        r@ == amount_effect(effect_row_view(*row), amount@, sources_view(sources)),
{
    let k = row.kind.as_str();
    let to = or_zero(row.to_account_id);
    let from = or_zero(row.from_account_id);
    if same_text(k, "Income") {
        EffectSpec::Income {
            to_account_id: to,
            amount,
            amount_mode: mode_read(&row.amount_mode),
            income_type: income_read(&row.income_type),
        }
    } else if same_text(k, "Expense") {
        EffectSpec::Expense { from_account_id: from, amount }
    } else if same_text(k, "AssetPurchase") {
        EffectSpec::AssetPurchase {
            from_account_id: from,
            to_account_id: to,
            asset_id: or_zero(row.asset_id),
            amount,
        }
    } else if same_text(k, "AssetSale") {
        EffectSpec::AssetSale {
            from_account_id: from,
            asset_id: row.asset_id,
            amount,
            amount_mode: mode_read(&row.amount_mode),
            lot_method: lot_read(&row.lot_method),
        }
    } else if same_text(k, "Sweep") {
        EffectSpec::Sweep {
            to_account_id: to,
            amount,
            sources,
            amount_mode: mode_read(&row.amount_mode),
            lot_method: lot_read(&row.lot_method),
            income_type: income_read(&row.income_type),
        }
    } else if same_text(k, "AdjustBalance") {
        EffectSpec::AdjustBalance { account_id: to, amount }
    } else {
        EffectSpec::CashTransfer { from_account_id: from, to_account_id: to, amount }
    }
}

/// An effect read from its row alone, as [`row_effect`] says.
fn row_effect_of(row: &EffectRow) -> (r: Option<EffectSpec>)
    ensures
        match row_effect(effect_row_view(*row)) {
            Some(m) => r matches Some(e) && e@ == m,
            None => r is None,
        },
{
    let k = row.kind.as_str();
    let target = or_zero(row.target_event_id);
    if same_text(k, "TriggerEvent") {
        Some(EffectSpec::TriggerEvent { target_event_id: target })
    } else if same_text(k, "PauseEvent") {
        Some(EffectSpec::PauseEvent { target_event_id: target })
    } else if same_text(k, "ResumeEvent") {
        Some(EffectSpec::ResumeEvent { target_event_id: target })
    } else if same_text(k, "TerminateEvent") {
        Some(EffectSpec::TerminateEvent { target_event_id: target })
    } else if same_text(k, "DeleteAccount") {
        Some(EffectSpec::DeleteAccount { account_id: or_zero(row.to_account_id) })
    } else if same_text(k, "ApplyRmd") {
        Some(
            EffectSpec::ApplyRmd {
                to_account_id: or_zero(row.to_account_id),
                lot_method: lot_read(&row.lot_method),
            },
        )
    } else if same_text(k, "RsuVesting") {
        Some(
            EffectSpec::RsuVesting {
                to_account_id: or_zero(row.to_account_id),
                asset_id: or_zero(row.asset_id),
                units_bits: match row.units_bits {
                    Some(u) => u,
                    None => 0,
                },
                sell_to_cover: or_zero(row.sell_to_cover) != 0,
                lot_method: lot_read(&row.lot_method),
            },
        )
    } else {
        None
    }
}

fn kind_moves_amount(k: &str) -> (r: bool)
    ensures
        r == moves_amount(k@),
{
    same_text(k, "Income") || same_text(k, "Expense") || same_text(k, "AssetPurchase") || same_text(
        k,
        "AssetSale",
    ) || same_text(k, "Sweep") || same_text(k, "AdjustBalance") || same_text(k, "CashTransfer")
}

/// Read the effect rooted at row `id` back, as [`read_effect_model`] says.
pub fn read_effect(rows: &EffectRows, id: i64, depth: usize) -> (r: Result<EffectSpec, ApiError>)
    ensures
        match read_effect_model(rows@, id, depth as nat) {
            Ok(m) => r matches Ok(e) && e@ == m,
            Err(f) => r matches Err(e) && effect_read_error(f, e),
        },
    decreases 65 - depth,
{
    if depth > 64 {
        return Err(ApiError::internal("effect graph is cyclic"));
    }
    let i = match find_effect(rows.effects.as_slice(), id) {
        Some(i) => i,
        None => return Err(ApiError::NotFound("effect")),
    };
    let row = &rows.effects[i];
    let ghost rv = effect_row_view(*row);
    assert(rows@.effects[i as int] == rv);
    let k = row.kind.as_str();
    if kind_moves_amount(k) {
        let a = match row.amount_id {
            Some(a) => a,
            None => return Err(ApiError::internal("effect is missing its amount")),
        };
        let amount = match read_amount(rows.amounts.as_slice(), a, depth) {
            Ok(x) => x,
            Err(e) => return Err(e),
        };
        let sources = if same_text(k, "Sweep") {
            sources_for(rows, id)
        } else {
            None
        };
        proof {
            if rv.kind != "Sweep"@ {
                assert(amount_effect(rv, amount@, sources_view(sources)) == amount_effect(
                    rv,
                    amount@,
                    sources_of(rows@, id),
                ));
            }
        }
        return Ok(amount_effect_of(row, amount, sources));
    }
    match row_effect_of(row) {
        Some(e) => return Ok(e),
        None => {},
    }
    let t = match find_child(rows.effects.as_slice(), id, "on_true") {
        Some(t) => t,
        None => return Err(ApiError::internal("Random effect has no on_true branch")),
    };
    let tid = rows.effects[t].id;
    assert(rows@.effects[t as int].id == tid);
    let on_true = match read_effect(rows, tid, depth + 1) {
        Ok(e) => e,
        Err(e) => return Err(e),
    };
    let probability_bits = match row.probability_bits {
        Some(p) => p,
        None => 0,
    };
    let on_false = match find_child(rows.effects.as_slice(), id, "on_false") {
        None => None,
        Some(f) => {
            let fid = rows.effects[f].id;
            assert(rows@.effects[f as int].id == fid);
            match read_effect(rows, fid, depth + 1) {
                Ok(e) => Some(Box::new(e)),
                Err(e) => return Err(e),
            }
        },
    };
    Ok(EffectSpec::Random { probability_bits, on_true: Box::new(on_true), on_false })
}

/// Where rows hang, ids and amounts within a layout: effect ids run on from
/// `ebase` and amount ids from `abase`; every row but the first hangs under
/// a row before it; every source and item row names an effect of the
/// layout.
#[verifier::rlimit(40)]
proof fn lemma_layout_shape(m: EffectModel, parent: EffectParent, depth: nat, ebase: int, abase: int)
    requires
        ebase >= 0,
        abase >= 0,
        ebase + effect_count(m) <= i64::MAX,
        abase + effect_amount_count(m) <= i64::MAX,
        effect_layout(m, parent, depth, ebase, abase) is Ok,
    ensures
        ({
            let l = effect_layout(m, parent, depth, ebase, abase)->Ok_0;
            &&& l.effects.len() == effect_count(m)
            &&& l.amounts.len() == effect_amount_count(m)
            &&& forall|i: int| 0 <= i < l.effects.len() ==> #[trigger] l.effects[i].id == ebase + i
            &&& forall|i: int|
                1 <= i < l.effects.len() ==> (#[trigger] l.effects[i].parent_id) is Some && ebase
                    <= l.effects[i].parent_id->0 < ebase + i
            &&& forall|i: int| 0 <= i < l.amounts.len() ==> #[trigger] l.amounts[i].0 == abase + i
            &&& forall|i: int|
                0 <= i < l.sources.len() ==> ebase <= #[trigger] l.sources[i].0 < ebase + effect_count(m)
            &&& forall|i: int|
                0 <= i < l.items.len() ==> ebase <= #[trigger] l.items[i].0 < ebase + effect_count(m)
        }),
    decreases m,
{
    lemma_effect_layout_len(m, parent, depth, ebase, abase);
    lemma_stage_len(m, depth, abase);
    let l = effect_layout(m, parent, depth, ebase, abase)->Ok_0;
    let (ar, aid, did) = amount_stage(m, depth, abase)->Ok_0;
    let first_len: int = match amount_of(m) {
        Some(a) => node_count(a) as int,
        None => 0,
    };
    match amount_of(m) {
        Some(a) => {
            lemma_layout_ids(a, depth, abase);
            lemma_layout_len(a, depth, abase);
        },
        None => {},
    }
    match down_payment_of(m) {
        Some(d) => {
            lemma_layout_ids(d, depth, abase + first_len);
            lemma_layout_len(d, depth, abase + first_len);
        },
        None => {},
    }
    assert forall|i: int| 0 <= i < ar.len() implies #[trigger] ar[i].0 == abase + i by {
        match amount_of(m) {
            Some(a) => {
                let r1 = amount_layout(a, depth, abase)->Ok_0;
                match down_payment_of(m) {
                    Some(d) => {
                        let r2 = amount_layout(d, depth, abase + first_len)->Ok_0;
                        assert(ar == r1 + r2);
                        if i < r1.len() {
                            assert(ar[i] == r1[i]);
                        } else {
                            assert(ar[i] == r2[i - r1.len()]);
                        }
                    },
                    None => {},
                }
            },
            None => {
                match down_payment_of(m) {
                    Some(d) => {
                        let r2 = amount_layout(d, depth, abase)->Ok_0;
                        assert(ar == Seq::<AmountRowView>::empty() + r2);
                        assert(ar[i] == r2[i]);
                    },
                    None => {},
                }
            },
        }
    }
    match m {
        EffectModel::Random(_, t, f) => {
            let tp = EffectParent::Branch { parent_id: ebase as i64, on_true: true };
            let tl = effect_layout(*t, tp, depth + 1, ebase + 1, abase + ar.len())->Ok_0;
            lemma_layout_shape(*t, tp, depth + 1, ebase + 1, abase + ar.len());
            let ct = effect_count(*t) as int;
            match f {
                None => {
                    assert(l.effects == seq![l.effects[0]] + tl.effects);
                    assert forall|i: int| 1 <= i < l.effects.len() implies (#[trigger] l.effects[i].parent_id) is Some
                        && ebase <= l.effects[i].parent_id->0 < ebase + i by {
                        assert(l.effects[i] == tl.effects[i - 1]);
                    }
                    assert forall|i: int| 0 <= i < l.effects.len() implies #[trigger] l.effects[i].id == ebase + i by {
                        if i > 0 {
                            assert(l.effects[i] == tl.effects[i - 1]);
                        }
                    }
                    assert forall|i: int| 0 <= i < l.amounts.len() implies #[trigger] l.amounts[i].0 == abase + i by {
                        if i >= ar.len() {
                            assert(l.amounts[i] == tl.amounts[i - ar.len()]);
                        } else {
                            assert(l.amounts[i] == ar[i]);
                        }
                    }
                },
                Some(b) => {
                    let fp = EffectParent::Branch { parent_id: ebase as i64, on_true: false };
                    let fe = ebase + 1 + tl.effects.len();
                    let fa = abase + ar.len() + tl.amounts.len();
                    let fl = effect_layout(*b, fp, depth + 1, fe, fa)->Ok_0;
                    lemma_layout_shape(*b, fp, depth + 1, fe, fa);
                    assert forall|i: int| 1 <= i < l.effects.len() implies (#[trigger] l.effects[i].parent_id) is Some
                        && ebase <= l.effects[i].parent_id->0 < ebase + i by {
                        if i <= ct {
                            assert(l.effects[i] == tl.effects[i - 1]);
                        } else {
                            assert(l.effects[i] == fl.effects[i - 1 - ct]);
                        }
                    }
                    assert forall|i: int| 0 <= i < l.effects.len() implies #[trigger] l.effects[i].id == ebase + i by {
                        if i > 0 && i <= ct {
                            assert(l.effects[i] == tl.effects[i - 1]);
                        } else if i > ct {
                            assert(l.effects[i] == fl.effects[i - 1 - ct]);
                        }
                    }
                    assert forall|i: int| 0 <= i < l.amounts.len() implies #[trigger] l.amounts[i].0 == abase + i by {
                        if i < ar.len() {
                            assert(l.amounts[i] == ar[i]);
                        } else if i < ar.len() + tl.amounts.len() {
                            assert(l.amounts[i] == tl.amounts[i - ar.len()]);
                        } else {
                            assert(l.amounts[i] == fl.amounts[i - ar.len() - tl.amounts.len()]);
                        }
                    }
                    assert forall|i: int| 0 <= i < l.sources.len() implies ebase <= #[trigger] l.sources[i].0
                        < ebase + effect_count(m) by {
                        if i < tl.sources.len() {
                            assert(l.sources[i] == tl.sources[i]);
                        } else {
                            assert(l.sources[i] == fl.sources[i - tl.sources.len()]);
                        }
                    }
                    assert forall|i: int| 0 <= i < l.items.len() implies ebase <= #[trigger] l.items[i].0 < ebase
                        + effect_count(m) by {
                        if i < tl.items.len() {
                            assert(l.items[i] == tl.items[i]);
                        } else {
                            assert(l.items[i] == fl.items[i - tl.items.len()]);
                        }
                    }
                },
            }
        },
        EffectModel::Sweep(_, _, Some(s), _, _, _) => {
            assert(l.amounts == ar);
        },
        _ => {
            assert(l.amounts == ar);
        },
    }
}

pub(crate) proof fn lemma_first_at<T>(s: Seq<T>, p: spec_fn(T) -> bool, k: int)
    requires
        0 <= k < s.len(),
        p(s[k]),
        forall|j: int| 0 <= j < k ==> !p(#[trigger] s[j]),
    ensures
        first_where(s, p) == k,
{
    lemma_first_where(s, p);
    let f = first_where(s, p);
    if f < 0 {
        assert(!p(s[k]));
    } else if f > k {
        assert(!p(s[k]));
    } else if f < k {
        assert(!p(s[f]));
    }
}

pub(crate) proof fn lemma_first_none<T>(s: Seq<T>, p: spec_fn(T) -> bool)
    requires
        forall|j: int| 0 <= j < s.len() ==> !p(#[trigger] s[j]),
    ensures
        first_where(s, p) < 0,
{
    lemma_first_where(s, p);
    let f = first_where(s, p);
    if f >= 0 {
        assert(p(s[f]));
    }
}

proof fn lemma_items_of_concat(a: Seq<ItemRowView>, b: Seq<ItemRowView>, e: i64)
    ensures
        items_of(a + b, e) == items_of(a, e) + items_of(b, e),
    decreases b.len(),
{
    if b.len() == 0 {
        assert(a + b == a);
        assert(items_of(b, e) == b);
    } else {
        lemma_items_of_concat(a, b.drop_last(), e);
        assert((a + b).drop_last() == a + b.drop_last());
        assert((a + b).last() == b.last());
    }
}

proof fn lemma_items_of_none(a: Seq<ItemRowView>, e: i64)
    requires
        forall|i: int| 0 <= i < a.len() ==> (#[trigger] a[i]).0 != e,
    ensures
        items_of(a, e) == Seq::<ItemRowView>::empty(),
    decreases a.len(),
{
    if a.len() > 0 {
        lemma_items_of_none(a.drop_last(), e);
    }
}

proof fn lemma_items_of_all(a: Seq<ItemRowView>, e: i64)
    requires
        forall|i: int| 0 <= i < a.len() ==> (#[trigger] a[i]).0 == e,
    ensures
        items_of(a, e) == a,
    decreases a.len(),
{
    if a.len() > 0 {
        lemma_items_of_all(a.drop_last(), e);
        assert(a.drop_last().push(a.last()) == a);
    }
}

/// The stored names the reader tells apart.
proof fn lemma_stored_names()
    ensures
        "Income"@.len() == 6 && "Income"@[0] == 'I',
        "Expense"@.len() == 7,
        "AssetPurchase"@.len() == 13 && "AssetPurchase"@[0] == 'A' && "AssetPurchase"@[1] == 's',
        "AssetSale"@.len() == 9,
        "Sweep"@.len() == 5,
        "AdjustBalance"@.len() == 13 && "AdjustBalance"@[0] == 'A' && "AdjustBalance"@[1] == 'd',
        "CashTransfer"@.len() == 12 && "CashTransfer"@[0] == 'C',
        "TriggerEvent"@.len() == 12 && "TriggerEvent"@[0] == 'T',
        "PauseEvent"@.len() == 10 && "PauseEvent"@[0] == 'P',
        "ResumeEvent"@.len() == 11,
        "TerminateEvent"@.len() == 14,
        "DeleteAccount"@.len() == 13 && "DeleteAccount"@[0] == 'D',
        "ApplyRmd"@.len() == 8,
        "RsuVesting"@.len() == 10 && "RsuVesting"@[0] == 'R',
        "Random"@.len() == 6 && "Random"@[0] == 'R',
        "Gross"@.len() == 5,
        "Net"@.len() == 3,
        "Taxable"@.len() == 7 && "Taxable"@[3] == 'a',
        "TaxFree"@.len() == 7 && "TaxFree"@[3] == 'F',
        "Fifo"@.len() == 4 && "Fifo"@[0] == 'F',
        "Lifo"@.len() == 4 && "Lifo"@[0] == 'L',
        "HighestCost"@.len() == 11 && "HighestCost"@[0] == 'H',
        "LowestCost"@.len() == 10,
        "AverageCost"@.len() == 11 && "AverageCost"@[0] == 'A',
        "on_true"@.len() == 7,
        "on_false"@.len() == 8,
{
    reveal_strlit("Income");
    reveal_strlit("Expense");
    reveal_strlit("AssetPurchase");
    reveal_strlit("AssetSale");
    reveal_strlit("Sweep");
    reveal_strlit("AdjustBalance");
    reveal_strlit("CashTransfer");
    reveal_strlit("TriggerEvent");
    reveal_strlit("PauseEvent");
    reveal_strlit("ResumeEvent");
    reveal_strlit("TerminateEvent");
    reveal_strlit("DeleteAccount");
    reveal_strlit("ApplyRmd");
    reveal_strlit("RsuVesting");
    reveal_strlit("Random");
    reveal_strlit("Gross");
    reveal_strlit("Net");
    reveal_strlit("Taxable");
    reveal_strlit("TaxFree");
    reveal_strlit("Fifo");
    reveal_strlit("Lifo");
    reveal_strlit("HighestCost");
    reveal_strlit("LowestCost");
    reveal_strlit("AverageCost");
    reveal_strlit("on_true");
    reveal_strlit("on_false");
}

/// An effect every part of which the reader rebuilds: property purchases
/// and sales and market shocks are stored but not read back.
pub open spec fn read_back_kinds(m: EffectModel) -> bool
    decreases m,
{
    match m {
        EffectModel::BuyProperty(..) => false,
        EffectModel::SellProperty(..) => false,
        EffectModel::MarketShock(..) => false,
        EffectModel::Random(_, t, f) => read_back_kinds(*t) && match f {
            Some(b) => read_back_kinds(*b),
            None => true,
        },
        _ => true,
    }
}

proof fn lemma_names_read_back()
    ensures
        forall|i: IncomeType| read_income(Some(#[trigger] income_name(i))) == i,
        forall|l: LotMethod| read_lot(Some(#[trigger] lot_name(l))) == l,
        forall|a: AmountMode| read_mode(Some(#[trigger] mode_name(a))) == a,
{
    lemma_stored_names();
    assert forall|i: IncomeType| read_income(Some(#[trigger] income_name(i))) == i by {
        match i {
            IncomeType::Taxable => assert(Some("Taxable"@) != Some("TaxFree"@)),
            IncomeType::TaxFree => {},
        }
    }
    assert forall|l: LotMethod| read_lot(Some(#[trigger] lot_name(l))) == l by {}
    assert forall|a: AmountMode| read_mode(Some(#[trigger] mode_name(a))) == a by {}
}

spec fn hangs_in(p: Option<i64>, lo: int, hi: int) -> bool {
    p matches Some(x) && lo <= x < hi
}

spec fn parent_in(parent: EffectParent, lo: int, hi: int) -> bool {
    parent matches EffectParent::Branch { parent_id, .. } && lo <= parent_id < hi
}

/// The rows `l` of effects `[ebase, ebase + |l.effects|)` sit in `g`: effect
/// and amount ids run on in `g` from `b0` and `a0`, `l`'s effects and amounts
/// are the slices at their ids, its source and item rows the slices from `si`
/// and `ii`; no other row of `g` hangs under one of `l`'s effects or stores a
/// source or item for one.
spec fn sits_within(g: EffectLayout, b0: int, a0: int, si: int, ii: int, l: EffectLayout, ebase: int, abase: int) -> bool {
    let ne = l.effects.len() as int;
    let na = l.amounts.len() as int;
    let ns = l.sources.len() as int;
    let ni = l.items.len() as int;
    &&& b0 <= ebase && ebase + ne <= b0 + g.effects.len()
    &&& forall|i: int| 0 <= i < g.effects.len() ==> #[trigger] g.effects[i].id == b0 + i
    &&& g.effects.subrange(ebase - b0, ebase - b0 + ne) == l.effects
    &&& forall|j: int|
        0 <= j < g.effects.len() && !(ebase - b0 <= j < ebase - b0 + ne) ==> !hangs_in(
            #[trigger] g.effects[j].parent_id,
            ebase,
            ebase + ne,
        )
    &&& 0 <= a0 <= abase && abase + na <= a0 + g.amounts.len()
    &&& forall|i: int| 0 <= i < g.amounts.len() ==> #[trigger] g.amounts[i].0 == a0 + i
    &&& g.amounts.subrange(abase - a0, abase - a0 + na) == l.amounts
    &&& 0 <= si && si + ns <= g.sources.len() && g.sources.subrange(si, si + ns) == l.sources
    &&& forall|j: int|
        0 <= j < g.sources.len() && !(si <= j < si + ns) ==> !(ebase <= #[trigger] g.sources[j].0 < ebase
            + ne)
    &&& 0 <= ii && ii + ni <= g.items.len() && g.items.subrange(ii, ii + ni) == l.items
    &&& forall|j: int|
        0 <= j < g.items.len() && !(ii <= j < ii + ni) ==> !(ebase <= #[trigger] g.items[j].0 < ebase + ne)
}

/// A sweep's withdrawal source is found again among all source rows.
proof fn lemma_sweep_sources(
    g: EffectLayout,
    si: int,
    ii: int,
    ebase: int,
    ne: int,
    src: Option<SourcesModel>,
    ls: Seq<SourceRowView>,
    li: Seq<ItemRowView>,
)
    requires
        0 <= ebase <= i64::MAX,
        ne >= 1,
        ls == (match src {
            Some(x) => seq![source_rows(ebase as i64, x).0],
            None => Seq::<SourceRowView>::empty(),
        }),
        li == (match src {
            Some(x) => source_rows(ebase as i64, x).1,
            None => Seq::<ItemRowView>::empty(),
        }),
        src matches Some(x) ==> !(x matches SourcesModel::Custom(e) && e.len() == 0) && match x {
            SourcesModel::Strategy(_, e) => e.len() <= i64::MAX,
            SourcesModel::Custom(e) => e.len() <= i64::MAX,
            _ => true,
        },
        0 <= si && si + ls.len() <= g.sources.len() && g.sources.subrange(si, si + ls.len()) == ls,
        forall|j: int|
            0 <= j < g.sources.len() && !(si <= j < si + ls.len()) ==> !(ebase <= #[trigger] g.sources[j].0
                < ebase + ne),
        0 <= ii && ii + li.len() <= g.items.len() && g.items.subrange(ii, ii + li.len()) == li,
        forall|j: int|
            0 <= j < g.items.len() && !(ii <= j < ii + li.len()) ==> !(ebase <= #[trigger] g.items[j].0 < ebase
                + ne),
    ensures
        sources_of(g, ebase as i64) == src,
{
    let e = ebase as i64;
    let p = source_of(e);
    match src {
        None => {
            assert forall|j: int| 0 <= j < g.sources.len() implies !p(#[trigger] g.sources[j]) by {}
            lemma_first_none(g.sources, p);
        },
        Some(x) => {
            assert(g.sources[si] == ls[0]);
            assert forall|j: int| 0 <= j < si implies !p(#[trigger] g.sources[j]) by {}
            lemma_first_at(g.sources, p, si);
            let (row, items) = source_rows(e, x);
            let pre = g.items.subrange(0, ii);
            let post = g.items.subrange(ii + li.len(), g.items.len() as int);
            assert(g.items == pre + li + post);
            assert forall|i: int| 0 <= i < pre.len() implies (#[trigger] pre[i]).0 != e by {
                assert(pre[i] == g.items[i]);
            }
            assert forall|i: int| 0 <= i < post.len() implies (#[trigger] post[i]).0 != e by {
                assert(post[i] == g.items[ii + li.len() + i]);
            }
            assert forall|i: int| 0 <= i < li.len() implies (#[trigger] li[i]).0 == e by {}
            lemma_items_of_none(pre, e);
            lemma_items_of_none(post, e);
            lemma_items_of_all(li, e);
            lemma_items_of_concat(pre, li, e);
            lemma_items_of_concat(pre + li, post, e);
            assert(items_of(g.items, e) == li);
            withdrawal_sources_round_trip(e, x);
        },
    }
}

/// The requirements shared by the read-back lemmas: the effect's layout
/// exists within the id ranges, and it sits within `g`.
spec fn placed(
    g: EffectLayout,
    b0: int,
    a0: int,
    si: int,
    ii: int,
    m: EffectModel,
    parent: EffectParent,
    depth: nat,
    ebase: int,
    abase: int,
) -> bool {
    &&& ebase >= 0
    &&& abase >= 0
    &&& ebase + effect_count(m) <= i64::MAX
    &&& abase + effect_amount_count(m) <= i64::MAX
    &&& effect_layout(m, parent, depth, ebase, abase) is Ok
    &&& !parent_in(parent, ebase, ebase + effect_count(m))
    &&& sits_within(g, b0, a0, si, ii, effect_layout(m, parent, depth, ebase, abase)->Ok_0, ebase, abase)
}

/// The amount of an effect that is not a branch is read back from its rows.
proof fn lemma_root_amount(
    g: EffectLayout,
    b0: int,
    a0: int,
    si: int,
    ii: int,
    m: EffectModel,
    parent: EffectParent,
    depth: nat,
    ebase: int,
    abase: int,
)
    requires
        placed(g, b0, a0, si, ii, m, parent, depth, ebase, abase),
        read_back_kinds(m),
        !(m is Random),
        amount_of(m) is Some,
    ensures
        read_model(g.amounts, (abase + node_count(amount_of(m)->0) - 1) as i64, depth) == Ok::<
            AmountModel,
            ReadFault,
        >(amount_of(m)->0),
        amount_stage(m, depth, abase)->Ok_0.1 == Some((abase + node_count(amount_of(m)->0) - 1) as i64),
{
    let l = effect_layout(m, parent, depth, ebase, abase)->Ok_0;
    let a = amount_of(m)->0;
    lemma_layout_len(a, depth, abase);
    let rows = amount_layout(a, depth, abase)->Ok_0;
    assert(down_payment_of(m) is None);
    assert(l.amounts == rows);
    assert(effect_amount_count(m) == node_count(a));
    lemma_read_within(g.amounts, a0, a, depth, abase);
}

/// A layout made of a lead, a middle part `c` and a rest sits within `g`:
/// then so does `c`, at its own ids, where nothing in the lead or the rest
/// hangs under or stores rows for one of `c`'s effects.
#[verifier::rlimit(40)]
proof fn lemma_slice_sits(
    g: EffectLayout,
    b0: int,
    a0: int,
    si: int,
    ii: int,
    l: EffectLayout,
    ebase: int,
    abase: int,
    lead: EffectLayout,
    c: EffectLayout,
    rest: EffectLayout,
)
    requires
        sits_within(g, b0, a0, si, ii, l, ebase, abase),
        l.effects == lead.effects + c.effects + rest.effects,
        l.amounts == lead.amounts + c.amounts + rest.amounts,
        l.sources == lead.sources + c.sources + rest.sources,
        l.items == lead.items + c.items + rest.items,
        forall|i: int|
            0 <= i < lead.effects.len() ==> !hangs_in(
                #[trigger] lead.effects[i].parent_id,
                ebase + lead.effects.len(),
                ebase + lead.effects.len() + c.effects.len(),
            ),
        forall|i: int|
            0 <= i < rest.effects.len() ==> !hangs_in(
                #[trigger] rest.effects[i].parent_id,
                ebase + lead.effects.len(),
                ebase + lead.effects.len() + c.effects.len(),
            ),
        forall|i: int|
            0 <= i < lead.sources.len() ==> !(ebase + lead.effects.len() <= #[trigger] lead.sources[i].0
                < ebase + lead.effects.len() + c.effects.len()),
        forall|i: int|
            0 <= i < rest.sources.len() ==> !(ebase + lead.effects.len() <= #[trigger] rest.sources[i].0
                < ebase + lead.effects.len() + c.effects.len()),
        forall|i: int|
            0 <= i < lead.items.len() ==> !(ebase + lead.effects.len() <= #[trigger] lead.items[i].0 < ebase
                + lead.effects.len() + c.effects.len()),
        forall|i: int|
            0 <= i < rest.items.len() ==> !(ebase + lead.effects.len() <= #[trigger] rest.items[i].0 < ebase
                + lead.effects.len() + c.effects.len()),
    ensures
        sits_within(
            g,
            b0,
            a0,
            si + lead.sources.len(),
            ii + lead.items.len(),
            c,
            ebase + lead.effects.len(),
            abase + lead.amounts.len(),
        ),
{
    let ne = l.effects.len() as int;
    let r0 = ebase - b0;
    let le = lead.effects.len() as int;
    let ce = c.effects.len() as int;
    let lo = ebase + le;
    let hi = ebase + le + ce;
    assert(forall|i: int| 0 <= i < ne ==> g.effects[r0 + i] == #[trigger] l.effects[i]);
    assert(g.effects.subrange(r0 + le, r0 + le + ce) =~= c.effects) by {
        assert forall|k: int| 0 <= k < ce implies g.effects.subrange(r0 + le, r0 + le + ce)[k] == c.effects[k] by {
            assert(l.effects[le + k] == c.effects[k]);
        }
    }
    assert forall|j: int| 0 <= j < g.effects.len() && !(r0 + le <= j < r0 + le + ce) implies !hangs_in(
        #[trigger] g.effects[j].parent_id,
        lo,
        hi,
    ) by {
        if r0 <= j < r0 + le {
            assert(l.effects[j - r0] == lead.effects[j - r0]);
            assert(g.effects[j] == lead.effects[j - r0]);
        } else if r0 + le + ce <= j < r0 + ne {
            assert(l.effects[j - r0] == rest.effects[j - r0 - le - ce]);
            assert(g.effects[j] == rest.effects[j - r0 - le - ce]);
        }
    }
    let la = lead.amounts.len() as int;
    let ca = c.amounts.len() as int;
    let ra0 = abase - a0;
    assert(forall|i: int| 0 <= i < l.amounts.len() ==> g.amounts[ra0 + i] == #[trigger] l.amounts[i]);
    assert(g.amounts.subrange(ra0 + la, ra0 + la + ca) =~= c.amounts) by {
        assert forall|k: int| 0 <= k < ca implies g.amounts.subrange(ra0 + la, ra0 + la + ca)[k] == c.amounts[k] by {
            assert(l.amounts[la + k] == c.amounts[k]);
        }
    }
    let ls = lead.sources.len() as int;
    let cs = c.sources.len() as int;
    assert(forall|i: int| 0 <= i < l.sources.len() ==> g.sources[si + i] == #[trigger] l.sources[i]);
    assert(g.sources.subrange(si + ls, si + ls + cs) =~= c.sources) by {
        assert forall|k: int| 0 <= k < cs implies g.sources.subrange(si + ls, si + ls + cs)[k] == c.sources[k] by {
            assert(l.sources[ls + k] == c.sources[k]);
        }
    }
    assert forall|j: int| 0 <= j < g.sources.len() && !(si + ls <= j < si + ls + cs) implies !(lo
        <= #[trigger] g.sources[j].0 < hi) by {
        if si <= j < si + ls {
            assert(l.sources[j - si] == lead.sources[j - si]);
            assert(g.sources[j] == lead.sources[j - si]);
        } else if si + ls + cs <= j < si + l.sources.len() {
            assert(l.sources[j - si] == rest.sources[j - si - ls - cs]);
            assert(g.sources[j] == rest.sources[j - si - ls - cs]);
        }
    }
    let li = lead.items.len() as int;
    let ci = c.items.len() as int;
    assert(forall|i: int| 0 <= i < l.items.len() ==> g.items[ii + i] == #[trigger] l.items[i]);
    assert(g.items.subrange(ii + li, ii + li + ci) =~= c.items) by {
        assert forall|k: int| 0 <= k < ci implies g.items.subrange(ii + li, ii + li + ci)[k] == c.items[k] by {
            assert(l.items[li + k] == c.items[k]);
        }
    }
    assert forall|j: int| 0 <= j < g.items.len() && !(ii + li <= j < ii + li + ci) implies !(lo
        <= #[trigger] g.items[j].0 < hi) by {
        if ii <= j < ii + li {
            assert(l.items[j - ii] == lead.items[j - ii]);
            assert(g.items[j] == lead.items[j - ii]);
        } else if ii + li + ci <= j < ii + l.items.len() {
            assert(l.items[j - ii] == rest.items[j - ii - li - ci]);
            assert(g.items[j] == rest.items[j - ii - li - ci]);
        }
    }
}

/// The false branch of a random effect as a layout: empty where there is
/// none.
spec fn false_layout(m: EffectModel, depth: nat, ebase: int, abase: int) -> EffectLayout {
    let t = *(m->Random_1);
    let tp = EffectParent::Branch { parent_id: ebase as i64, on_true: true };
    let tl = effect_layout(t, tp, depth + 1, ebase + 1, abase)->Ok_0;
    match m->Random_2 {
        Some(b) => effect_layout(
            *b,
            EffectParent::Branch { parent_id: ebase as i64, on_true: false },
            depth + 1,
            ebase + 1 + tl.effects.len(),
            abase + tl.amounts.len(),
        )->Ok_0,
        None => EffectLayout {
            effects: Seq::empty(),
            amounts: Seq::empty(),
            sources: Seq::empty(),
            items: Seq::empty(),
        },
    }
}

/// A random effect's layout is its row, its true branch's rows and its
/// false branch's rows.
proof fn lemma_random_parts(m: EffectModel, parent: EffectParent, depth: nat, ebase: int, abase: int)
    requires
        m is Random,
        ebase >= 0,
        abase >= 0,
        ebase + effect_count(m) <= i64::MAX,
        abase + effect_amount_count(m) <= i64::MAX,
        effect_layout(m, parent, depth, ebase, abase) is Ok,
    ensures
        ({
            let l = effect_layout(m, parent, depth, ebase, abase)->Ok_0;
            let t = *(m->Random_1);
            let tp = EffectParent::Branch { parent_id: ebase as i64, on_true: true };
            let tl = effect_layout(t, tp, depth + 1, ebase + 1, abase)->Ok_0;
            let fl = false_layout(m, depth, ebase, abase);
            let row = effect_row(m, ebase, parent, None, None);
            &&& effect_layout(t, tp, depth + 1, ebase + 1, abase) is Ok
            &&& ebase + 1 + effect_count(t) <= i64::MAX
            &&& abase + effect_amount_count(t) <= i64::MAX
            &&& l.effects == seq![row] + tl.effects + fl.effects
            &&& l.amounts == Seq::<AmountRowView>::empty() + tl.amounts + fl.amounts
            &&& l.sources == Seq::<SourceRowView>::empty() + tl.sources + fl.sources
            &&& l.items == Seq::<ItemRowView>::empty() + tl.items + fl.items
            &&& tl.effects.len() == effect_count(t)
            &&& forall|i: int|
                0 <= i < fl.effects.len() ==> (#[trigger] fl.effects[i].parent_id) is Some && ebase
                    <= fl.effects[i].parent_id->0 && (i > 0 ==> ebase + 1 + tl.effects.len()
                    <= fl.effects[i].parent_id->0)
            &&& forall|i: int|
                0 <= i < fl.sources.len() ==> ebase + 1 + tl.effects.len() <= #[trigger] fl.sources[i].0
            &&& forall|i: int|
                0 <= i < fl.items.len() ==> ebase + 1 + tl.effects.len() <= #[trigger] fl.items[i].0
            &&& m->Random_2 matches Some(b) ==> {
                &&& effect_layout(
                    *b,
                    EffectParent::Branch { parent_id: ebase as i64, on_true: false },
                    depth + 1,
                    ebase + 1 + tl.effects.len(),
                    abase + tl.amounts.len(),
                ) is Ok
                &&& ebase + 1 + tl.effects.len() + effect_count(*b) <= i64::MAX
                &&& abase + tl.amounts.len() + effect_amount_count(*b) <= i64::MAX
                &&& fl.effects.len() == effect_count(*b)
            }
        }),
{
    let l = effect_layout(m, parent, depth, ebase, abase)->Ok_0;
    let t = *(m->Random_1);
    let tp = EffectParent::Branch { parent_id: ebase as i64, on_true: true };
    let (ar, aid, did) = amount_stage(m, depth, abase)->Ok_0;
    assert(ar.len() == 0 && aid is None && did is None);
    assert(abase + ar.len() == abase);
    lemma_layout_shape(t, tp, depth + 1, ebase + 1, abase);
    let tl = effect_layout(t, tp, depth + 1, ebase + 1, abase)->Ok_0;
    lemma_effect_layout_len(m, parent, depth, ebase, abase);
    match m->Random_2 {
        Some(b) => {
            let fp = EffectParent::Branch { parent_id: ebase as i64, on_true: false };
            lemma_layout_shape(*b, fp, depth + 1, ebase + 1 + tl.effects.len(), abase + tl.amounts.len());
            let fl = false_layout(m, depth, ebase, abase);
            assert(fl.effects[0].parent_id == Some(ebase as i64));
            assert(l.effects == seq![l.effects[0]] + tl.effects + fl.effects);
            assert(l.amounts == ar + tl.amounts + fl.amounts);
        },
        None => {
            assert(l.effects == seq![l.effects[0]] + tl.effects + Seq::<EffectRowView>::empty());
            assert(l.amounts == ar + tl.amounts + Seq::<AmountRowView>::empty());
            assert(l.sources == Seq::<SourceRowView>::empty() + tl.sources + Seq::<SourceRowView>::empty());
            assert(l.items == Seq::<ItemRowView>::empty() + tl.items + Seq::<ItemRowView>::empty());
        },
    }
}

/// A random effect's true branch sits within `g` right after it, and is the
/// first row of `g` in its true slot.
#[verifier::rlimit(40)]
proof fn lemma_true_branch(
    g: EffectLayout,
    b0: int,
    a0: int,
    si: int,
    ii: int,
    m: EffectModel,
    parent: EffectParent,
    depth: nat,
    ebase: int,
    abase: int,
)
    requires
        placed(g, b0, a0, si, ii, m, parent, depth, ebase, abase),
        m is Random,
    ensures
        ({
            let t = *(m->Random_1);
            let tp = EffectParent::Branch { parent_id: ebase as i64, on_true: true };
            &&& placed(g, b0, a0, si, ii, t, tp, depth + 1, ebase + 1, abase)
            &&& child_index(g.effects, ebase as i64, "on_true"@) == ebase - b0 + 1
            &&& g.effects[ebase - b0 + 1].id == ebase + 1
        }),
{
    let l = effect_layout(m, parent, depth, ebase, abase)->Ok_0;
    lemma_random_parts(m, parent, depth, ebase, abase);
    lemma_stored_names();
    let t = *(m->Random_1);
    let e = ebase as i64;
    let tp = EffectParent::Branch { parent_id: e, on_true: true };
    let tl = effect_layout(t, tp, depth + 1, ebase + 1, abase)->Ok_0;
    let fl = false_layout(m, depth, ebase, abase);
    let row = effect_row(m, ebase, parent, None, None);
    let ct = tl.effects.len() as int;
    let lead = EffectLayout {
        effects: seq![row],
        amounts: Seq::empty(),
        sources: Seq::empty(),
        items: Seq::empty(),
    };
    assert(!hangs_in(row.parent_id, ebase + 1, ebase + 1 + ct));
    lemma_slice_sits(g, b0, a0, si, ii, l, ebase, abase, lead, tl, fl);
    let r0 = ebase - b0;
    let ne = l.effects.len() as int;
    assert(forall|i: int| 0 <= i < ne ==> g.effects[r0 + i] == #[trigger] l.effects[i]);
    assert(g.effects[r0] == l.effects[0]);
    assert(g.effects[r0 + 1] == l.effects[1]);
    assert(l.effects[1] == tl.effects[0]);
    lemma_layout_shape(t, tp, depth + 1, ebase + 1, abase);
    let pt = |r: EffectRowView| r.parent_id == Some(e) && r.parent_slot == Some("on_true"@);
    assert(child_index(g.effects, e, "on_true"@) == first_where(g.effects, pt));
    assert forall|j: int| 0 <= j < r0 + 1 implies !pt(#[trigger] g.effects[j]) by {
        if j < r0 {
            assert(!hangs_in(g.effects[j].parent_id, ebase, ebase + ne));
        }
    }
    lemma_first_at(g.effects, pt, r0 + 1);
}

/// A random effect's false branch, where it has one, sits within `g` after
/// its true branch, and is the first row of `g` in its false slot; where it
/// has none, no row of `g` is in that slot.
#[verifier::rlimit(60)]
proof fn lemma_false_branch(
    g: EffectLayout,
    b0: int,
    a0: int,
    si: int,
    ii: int,
    m: EffectModel,
    parent: EffectParent,
    depth: nat,
    ebase: int,
    abase: int,
)
    requires
        placed(g, b0, a0, si, ii, m, parent, depth, ebase, abase),
        m is Random,
    ensures
        ({
            let t = *(m->Random_1);
            let tp = EffectParent::Branch { parent_id: ebase as i64, on_true: true };
            let tl = effect_layout(t, tp, depth + 1, ebase + 1, abase)->Ok_0;
            let fe = ebase + 1 + tl.effects.len();
            match m->Random_2 {
                Some(b) => {
                    &&& placed(
                        g,
                        b0,
                        a0,
                        si + tl.sources.len(),
                        ii + tl.items.len(),
                        *b,
                        EffectParent::Branch { parent_id: ebase as i64, on_true: false },
                        depth + 1,
                        fe,
                        abase + tl.amounts.len(),
                    )
                    &&& child_index(g.effects, ebase as i64, "on_false"@) == fe - b0
                    &&& g.effects[fe - b0].id == fe
                },
                None => child_index(g.effects, ebase as i64, "on_false"@) < 0,
            }
        }),
{
    let l = effect_layout(m, parent, depth, ebase, abase)->Ok_0;
    lemma_random_parts(m, parent, depth, ebase, abase);
    lemma_stored_names();
    let t = *(m->Random_1);
    let e = ebase as i64;
    let tp = EffectParent::Branch { parent_id: e, on_true: true };
    let tl = effect_layout(t, tp, depth + 1, ebase + 1, abase)->Ok_0;
    lemma_layout_shape(t, tp, depth + 1, ebase + 1, abase);
    let fl = false_layout(m, depth, ebase, abase);
    let row = effect_row(m, ebase, parent, None, None);
    let ct = tl.effects.len() as int;
    let r0 = ebase - b0;
    let ne = l.effects.len() as int;
    let pf = |r: EffectRowView| r.parent_id == Some(e) && r.parent_slot == Some("on_false"@);
    assert(child_index(g.effects, e, "on_false"@) == first_where(g.effects, pf));
    assert(forall|i: int| 0 <= i < ne ==> g.effects[r0 + i] == #[trigger] l.effects[i]);
    assert(l.effects[0] == row);
    assert(forall|i: int| 0 <= i < ct ==> l.effects[1 + i] == #[trigger] tl.effects[i]);
    assert forall|j: int| 0 <= j < r0 + 1 + ct implies !pf(#[trigger] g.effects[j]) by {
        if j < r0 {
            assert(!hangs_in(g.effects[j].parent_id, ebase, ebase + ne));
        } else if j == r0 {
            assert(g.effects[j] == l.effects[0]);
        } else {
            assert(g.effects[j] == l.effects[j - r0]);
            assert(l.effects[1 + (j - r0 - 1)] == tl.effects[j - r0 - 1]);
        }
    }
    match m->Random_2 {
        Some(b) => {
            let fp = EffectParent::Branch { parent_id: e, on_true: false };
            let lead = EffectLayout {
                effects: seq![row] + tl.effects,
                amounts: Seq::<AmountRowView>::empty() + tl.amounts,
                sources: Seq::<SourceRowView>::empty() + tl.sources,
                items: Seq::<ItemRowView>::empty() + tl.items,
            };
            let none = EffectLayout {
                effects: Seq::empty(),
                amounts: Seq::empty(),
                sources: Seq::empty(),
                items: Seq::empty(),
            };
            assert(!hangs_in(row.parent_id, ebase + 1 + ct, ebase + ne));
            assert forall|i: int| 0 <= i < lead.effects.len() implies !hangs_in(
                #[trigger] lead.effects[i].parent_id,
                ebase + lead.effects.len(),
                ebase + lead.effects.len() + fl.effects.len(),
            ) by {
                if i > 0 {
                    assert(lead.effects[i] == tl.effects[i - 1]);
                }
            }
            assert(l.effects == lead.effects + fl.effects + none.effects);
            assert(l.amounts == lead.amounts + fl.amounts + none.amounts);
            assert(l.sources == lead.sources + fl.sources + none.sources);
            assert(l.items == lead.items + fl.items + none.items);
            lemma_slice_sits(g, b0, a0, si, ii, l, ebase, abase, lead, fl, none);
            lemma_layout_shape(*b, fp, depth + 1, ebase + 1 + ct, abase + tl.amounts.len());
            assert(g.effects[r0 + 1 + ct] == fl.effects[0]);
            lemma_first_at(g.effects, pf, r0 + 1 + ct);
        },
        None => {
            assert forall|j: int| 0 <= j < g.effects.len() implies !pf(#[trigger] g.effects[j]) by {
                if j >= r0 + ne {
                    assert(!hangs_in(g.effects[j].parent_id, ebase, ebase + ne));
                }
            }
            lemma_first_none(g.effects, pf);
        },
    }
}

#[verifier::rlimit(60)]
proof fn lemma_read_back(
    g: EffectLayout,
    b0: int,
    a0: int,
    si: int,
    ii: int,
    m: EffectModel,
    parent: EffectParent,
    depth: nat,
    ebase: int,
    abase: int,
)
    requires
        placed(g, b0, a0, si, ii, m, parent, depth, ebase, abase),
        read_back_kinds(m),
        sources_fit(m),
    ensures
        read_effect_model(g, ebase as i64, depth) == Ok::<EffectModel, EffectReadFault>(m),
    decreases m,
{
    let l = effect_layout(m, parent, depth, ebase, abase)->Ok_0;
    lemma_layout_shape(m, parent, depth, ebase, abase);
    lemma_stored_names();
    lemma_names_read_back();
    let e = ebase as i64;
    let r0 = ebase - b0;
    let ne = l.effects.len() as int;
    assert(forall|i: int| 0 <= i < ne ==> g.effects[r0 + i] == #[trigger] l.effects[i]);
    assert(g.effects[r0] == l.effects[0]);
    let pid = |r: EffectRowView| r.id == e;
    assert(effect_index(g.effects, e) == first_where(g.effects, pid));
    assert forall|j: int| 0 <= j < r0 implies !pid(#[trigger] g.effects[j]) by {}
    lemma_first_at(g.effects, pid, r0);
    if m is Random {
        lemma_random_parts(m, parent, depth, ebase, abase);
        lemma_true_branch(g, b0, a0, si, ii, m, parent, depth, ebase, abase);
        lemma_false_branch(g, b0, a0, si, ii, m, parent, depth, ebase, abase);
        let t = *(m->Random_1);
        let tp = EffectParent::Branch { parent_id: e, on_true: true };
        let tl = effect_layout(t, tp, depth + 1, ebase + 1, abase)->Ok_0;
        lemma_read_back(g, b0, a0, si, ii, t, tp, depth + 1, ebase + 1, abase);
        match m->Random_2 {
            Some(b) => {
                let fp = EffectParent::Branch { parent_id: e, on_true: false };
                lemma_read_back(
                    g,
                    b0,
                    a0,
                    si + tl.sources.len(),
                    ii + tl.items.len(),
                    *b,
                    fp,
                    depth + 1,
                    ebase + 1 + tl.effects.len(),
                    abase + tl.amounts.len(),
                );
            },
            None => {},
        }
        assert(l.effects[0] == effect_row(m, ebase, parent, None, None));
    } else {
        let (ar, aid, did) = amount_stage(m, depth, abase)->Ok_0;
        assert(l.effects[0] == effect_row(m, ebase, parent, aid, did));
        if amount_of(m) is Some {
            lemma_root_amount(g, b0, a0, si, ii, m, parent, depth, ebase, abase);
        }
        match m {
            EffectModel::Sweep(_, _, src, _, _, _) => {
                lemma_sweep_sources(g, si, ii, ebase, ne, src, l.sources, l.items);
            },
            _ => {},
        }
    }
}

/// What is written is read back: an effect whose every part is of a kind
/// the reader rebuilds, laid out as rows hanging in an event or under a row
/// written before it, reads back from those rows, at its own id, as the same
/// effect.
pub proof fn effect_round_trip(m: EffectModel, parent: EffectParent, depth: nat, ebase: int, abase: int)
    requires
        ebase >= 0,
        abase >= 0,
        ebase + effect_count(m) <= i64::MAX,
        abase + effect_amount_count(m) <= i64::MAX,
        sources_fit(m),
        read_back_kinds(m),
        parent matches EffectParent::Branch { parent_id, .. } ==> parent_id < ebase,
        effect_layout(m, parent, depth, ebase, abase) is Ok,
    ensures
        read_effect_model(effect_layout(m, parent, depth, ebase, abase)->Ok_0, ebase as i64, depth) == Ok::<
            EffectModel,
            EffectReadFault,
        >(m),
{
    let l = effect_layout(m, parent, depth, ebase, abase)->Ok_0;
    lemma_layout_shape(m, parent, depth, ebase, abase);
    assert(l.effects.subrange(0, l.effects.len() as int) == l.effects);
    assert(l.amounts.subrange(0, l.amounts.len() as int) == l.amounts);
    assert(l.sources.subrange(0, l.sources.len() as int) == l.sources);
    assert(l.items.subrange(0, l.items.len() as int) == l.items);
    assert(sits_within(l, ebase, abase, 0, 0, l, ebase, abase));
    lemma_read_back(l, ebase, abase, 0, 0, m, parent, depth, ebase, abase);
}


/// Two layouts' rows, the first's before the second's.
pub open spec fn join(a: EffectLayout, b: EffectLayout) -> EffectLayout {
    EffectLayout {
        effects: a.effects + b.effects,
        amounts: a.amounts + b.amounts,
        sources: a.sources + b.sources,
        items: a.items + b.items,
    }
}

pub open spec fn no_rows() -> EffectLayout {
    EffectLayout { effects: Seq::empty(), amounts: Seq::empty(), sources: Seq::empty(), items: Seq::empty() }
}

/// An event's effects laid out one after another, the `k`-th at position
/// `k`, each numbering its effect and amount rows on from the one before.
pub open spec fn effect_list_layout(ms: Seq<EffectModel>, e: i64, ebase: int, abase: int) -> Result<
    EffectLayout,
    EffectFault,
>
    decreases ms.len(),
{
    if ms.len() == 0 {
        Ok(no_rows())
    } else {
        match effect_list_layout(ms.drop_last(), e, ebase, abase) {
            Err(f) => Err(f),
            Ok(pre) => match effect_layout(
                ms.last(),
                EffectParent::Event { event_id: e, position: (ms.len() - 1) as i64 },
                0,
                ebase + pre.effects.len(),
                abase + pre.amounts.len(),
            ) {
                Err(f) => Err(f),
                Ok(l) => Ok(join(pre, l)),
            },
        }
    }
}


/// Rows added after a layout's own leave it sitting where it sat, so long as
/// they number on and none of them hangs under, or stores sources or items
/// for, one of its effects.
proof fn lemma_sits_extend(
    g: EffectLayout,
    x: EffectLayout,
    b0: int,
    a0: int,
    si: int,
    ii: int,
    l: EffectLayout,
    eb: int,
    ab: int,
)
    requires
        sits_within(g, b0, a0, si, ii, l, eb, ab),
        forall|i: int| 0 <= i < x.effects.len() ==> #[trigger] x.effects[i].id == b0 + g.effects.len() + i,
        forall|i: int| 0 <= i < x.amounts.len() ==> #[trigger] x.amounts[i].0 == a0 + g.amounts.len() + i,
        forall|i: int|
            0 <= i < x.effects.len() ==> !hangs_in(#[trigger] x.effects[i].parent_id, eb, eb + l.effects.len()),
        forall|i: int| 0 <= i < x.sources.len() ==> !(eb <= #[trigger] x.sources[i].0 < eb + l.effects.len()),
        forall|i: int| 0 <= i < x.items.len() ==> !(eb <= #[trigger] x.items[i].0 < eb + l.effects.len()),
    ensures
        sits_within(join(g, x), b0, a0, si, ii, l, eb, ab),
{
    let j = join(g, x);
    let ne = l.effects.len() as int;
    let na = l.amounts.len() as int;
    let ns = l.sources.len() as int;
    let ni = l.items.len() as int;
    assert(j.effects.subrange(eb - b0, eb - b0 + ne) =~= g.effects.subrange(eb - b0, eb - b0 + ne));
    assert(j.amounts.subrange(ab - a0, ab - a0 + na) =~= g.amounts.subrange(ab - a0, ab - a0 + na));
    assert(j.sources.subrange(si, si + ns) =~= g.sources.subrange(si, si + ns));
    assert(j.items.subrange(ii, ii + ni) =~= g.items.subrange(ii, ii + ni));
    assert forall|i: int| 0 <= i < j.effects.len() implies #[trigger] j.effects[i].id == b0 + i by {
        if i < g.effects.len() {
            assert(j.effects[i] == g.effects[i]);
        } else {
            assert(j.effects[i] == x.effects[i - g.effects.len()]);
        }
    }
    assert forall|i: int|
        0 <= i < j.effects.len() && !(eb - b0 <= i < eb - b0 + ne) implies !hangs_in(
        #[trigger] j.effects[i].parent_id,
        eb,
        eb + ne,
    ) by {
        if i < g.effects.len() {
            assert(j.effects[i] == g.effects[i]);
        } else {
            assert(j.effects[i] == x.effects[i - g.effects.len()]);
        }
    }
    assert forall|i: int| 0 <= i < j.amounts.len() implies #[trigger] j.amounts[i].0 == a0 + i by {
        if i < g.amounts.len() {
            assert(j.amounts[i] == g.amounts[i]);
        } else {
            assert(j.amounts[i] == x.amounts[i - g.amounts.len()]);
        }
    }
    assert forall|i: int| 0 <= i < j.sources.len() && !(si <= i < si + ns) implies !(eb <= #[trigger] j.sources[
        i
    ].0 < eb + ne) by {
        if i < g.sources.len() {
            assert(j.sources[i] == g.sources[i]);
        } else {
            assert(j.sources[i] == x.sources[i - g.sources.len()]);
        }
    }
    assert forall|i: int| 0 <= i < j.items.len() && !(ii <= i < ii + ni) implies !(eb <= #[trigger] j.items[
        i
    ].0 < eb + ne) by {
        if i < g.items.len() {
            assert(j.items[i] == g.items[i]);
        } else {
            assert(j.items[i] == x.items[i - g.items.len()]);
        }
    }
}

/// A layout laid after rows that number up to it, none of which hangs under
/// or stores sources or items for a later effect, sits at the end of them.
proof fn lemma_sits_new(g: EffectLayout, x: EffectLayout, b0: int, a0: int)
    requires
        0 <= a0,
        forall|i: int| 0 <= i < g.effects.len() ==> #[trigger] g.effects[i].id == b0 + i,
        forall|i: int| 0 <= i < g.amounts.len() ==> #[trigger] g.amounts[i].0 == a0 + i,
        forall|i: int|
            0 <= i < g.effects.len() ==> !hangs_in(
                #[trigger] g.effects[i].parent_id,
                b0 + g.effects.len(),
                b0 + g.effects.len() + x.effects.len(),
            ),
        forall|i: int| 0 <= i < g.sources.len() ==> #[trigger] g.sources[i].0 < b0 + g.effects.len(),
        forall|i: int| 0 <= i < g.items.len() ==> #[trigger] g.items[i].0 < b0 + g.effects.len(),
        forall|i: int| 0 <= i < x.effects.len() ==> #[trigger] x.effects[i].id == b0 + g.effects.len() + i,
        forall|i: int| 0 <= i < x.amounts.len() ==> #[trigger] x.amounts[i].0 == a0 + g.amounts.len() + i,
    ensures
        sits_within(
            join(g, x),
            b0,
            a0,
            g.sources.len() as int,
            g.items.len() as int,
            x,
            b0 + g.effects.len(),
            a0 + g.amounts.len(),
        ),
{
    let j = join(g, x);
    let eb = b0 + g.effects.len();
    let ab = a0 + g.amounts.len();
    let ne = x.effects.len() as int;
    assert(j.effects.subrange(eb - b0, eb - b0 + ne) =~= x.effects);
    assert(j.amounts.subrange(ab - a0, ab - a0 + x.amounts.len()) =~= x.amounts);
    assert(j.sources.subrange(g.sources.len() as int, (g.sources.len() + x.sources.len()) as int) =~= x.sources);
    assert(j.items.subrange(g.items.len() as int, (g.items.len() + x.items.len()) as int) =~= x.items);
    assert forall|i: int| 0 <= i < j.effects.len() implies #[trigger] j.effects[i].id == b0 + i by {
        if i < g.effects.len() {
            assert(j.effects[i] == g.effects[i]);
        } else {
            assert(j.effects[i] == x.effects[i - g.effects.len()]);
        }
    }
    assert forall|i: int|
        0 <= i < j.effects.len() && !(eb - b0 <= i < eb - b0 + ne) implies !hangs_in(
        #[trigger] j.effects[i].parent_id,
        eb,
        eb + ne,
    ) by {
        assert(j.effects[i] == g.effects[i]);
    }
    assert forall|i: int| 0 <= i < j.amounts.len() implies #[trigger] j.amounts[i].0 == a0 + i by {
        if i < g.amounts.len() {
            assert(j.amounts[i] == g.amounts[i]);
        } else {
            assert(j.amounts[i] == x.amounts[i - g.amounts.len()]);
        }
    }
    assert forall|i: int|
        0 <= i < j.sources.len() && !(g.sources.len() <= i < g.sources.len() + x.sources.len()) implies !(eb
        <= #[trigger] j.sources[i].0 < eb + ne) by {
        assert(j.sources[i] == g.sources[i]);
    }
    assert forall|i: int|
        0 <= i < j.items.len() && !(g.items.len() <= i < g.items.len() + x.items.len()) implies !(eb
        <= #[trigger] j.items[i].0 < eb + ne) by {
        assert(j.items[i] == g.items[i]);
    }
}


/// The rows of the first `k` effects of a list.
pub open spec fn list_prefix(ms: Seq<EffectModel>, e: i64, ebase: int, abase: int, k: int) -> EffectLayout {
    effect_list_layout(ms.take(k), e, ebase, abase)->Ok_0
}

/// Where the `k`-th effect of a list is written: after the rows of those
/// before it, at position `k` of its event.
spec fn list_placed(g: EffectLayout, ms: Seq<EffectModel>, e: i64, ebase: int, abase: int, k: int) -> bool {
    let p = list_prefix(ms, e, ebase, abase, k);
    &&& effect_list_layout(ms.take(k), e, ebase, abase) is Ok
    &&& placed(
        g,
        ebase,
        abase,
        p.sources.len() as int,
        p.items.len() as int,
        ms[k],
        EffectParent::Event { event_id: e, position: k as i64 },
        0,
        ebase + p.effects.len(),
        abase + p.amounts.len(),
    )
}

/// The ids of the event's own rows in a laid-out list are those of each
/// effect's own row, in order.
proof fn lemma_event_ids_join(a: Seq<EffectRowView>, b: Seq<EffectRowView>, e: i64)
    ensures
        crate::copy_plan::event_effect_ids(a + b, e) == crate::copy_plan::event_effect_ids(a, e)
            + crate::copy_plan::event_effect_ids(b, e),
    decreases b.len(),
{
    if b.len() == 0 {
        assert(a + b == a);
        assert(crate::copy_plan::event_effect_ids(b, e) == Seq::<i64>::empty());
        assert(crate::copy_plan::event_effect_ids(a, e) + Seq::<i64>::empty() == crate::copy_plan::event_effect_ids(a, e));
    } else {
        assert((a + b).drop_last() == a + b.drop_last());
        assert((a + b).last() == b.last());
        lemma_event_ids_join(a, b.drop_last(), e);
    }
}

/// Only an effect's own row names its event.
proof fn lemma_event_ids_single(l: Seq<EffectRowView>, e: i64)
    requires
        l.len() >= 1,
        l[0].event_id == Some(e),
        forall|i: int| 1 <= i < l.len() ==> (#[trigger] l[i]).event_id is None,
    ensures
        crate::copy_plan::event_effect_ids(l, e) == seq![l[0].id],
    decreases l.len(),
{
    if l.len() > 1 {
        let d = l.drop_last();
        assert forall|i: int| 1 <= i < d.len() implies (#[trigger] d[i]).event_id is None by {
            assert(d[i] == l[i]);
        }
        lemma_event_ids_single(d, e);
        assert(l.last() == l[l.len() - 1]);
        assert(l[l.len() - 1].event_id is None);
        assert(d[0] == l[0]);
    } else {
        assert(l.drop_last() == Seq::<EffectRowView>::empty());
        assert(l.last() == l[0]);
        assert(crate::copy_plan::event_effect_ids(l.drop_last(), e) == Seq::<i64>::empty());
    }
}

/// The rows of an event's effect list: ids numbered on from the bases, every
/// row hanging under an earlier one or in the event, each effect placed
/// where the reader finds it, and the event's own rows those of each effect.
#[verifier::rlimit(60)]
proof fn lemma_list_layout(ms: Seq<EffectModel>, e: i64, ebase: int, abase: int)
    requires
        ebase >= 0,
        abase >= 0,
        effect_list_layout(ms, e, ebase, abase) is Ok,
        ebase + effect_list_layout(ms, e, ebase, abase)->Ok_0.effects.len() <= i64::MAX,
        abase + effect_list_layout(ms, e, ebase, abase)->Ok_0.amounts.len() <= i64::MAX,
    ensures
        ({
            let g = effect_list_layout(ms, e, ebase, abase)->Ok_0;
            let ids = crate::copy_plan::event_effect_ids(g.effects, e);
            &&& forall|i: int| 0 <= i < g.effects.len() ==> #[trigger] g.effects[i].id == ebase + i
            &&& forall|i: int| 0 <= i < g.amounts.len() ==> #[trigger] g.amounts[i].0 == abase + i
            &&& forall|i: int|
                0 <= i < g.effects.len() ==> !hangs_in(
                    #[trigger] g.effects[i].parent_id,
                    ebase + g.effects.len(),
                    i64::MAX + 1,
                )
            &&& forall|i: int| 0 <= i < g.sources.len() ==> #[trigger] g.sources[i].0 < ebase + g.effects.len()
            &&& forall|i: int| 0 <= i < g.items.len() ==> #[trigger] g.items[i].0 < ebase + g.effects.len()
            &&& forall|k: int| 0 <= k < ms.len() ==> #[trigger] list_placed(g, ms, e, ebase, abase, k)
            &&& ids.len() == ms.len()
            &&& forall|k: int|
                0 <= k < ms.len() ==> #[trigger] ids[k] == ebase + list_prefix(ms, e, ebase, abase, k).effects.len()
        }),
    decreases ms.len(),
{
    let g = effect_list_layout(ms, e, ebase, abase)->Ok_0;
    if ms.len() == 0 {
        assert(crate::copy_plan::event_effect_ids(g.effects, e) == Seq::<i64>::empty());
    } else {
        let n = ms.len() as int;
        let pre = ms.drop_last();
        let lp = effect_list_layout(pre, e, ebase, abase)->Ok_0;
        let m = ms.last();
        let par = EffectParent::Event { event_id: e, position: (n - 1) as i64 };
        let eb = ebase + lp.effects.len();
        let ab = abase + lp.amounts.len();
        let l = effect_layout(m, par, 0, eb, ab)->Ok_0;
        assert(g == join(lp, l));
        lemma_list_layout(pre, e, ebase, abase);
        lemma_effect_layout_len(m, par, 0, eb, ab);
        lemma_layout_shape(m, par, 0, eb, ab);
        lemma_layout_events(m, par, 0, eb, ab);
        let ne = l.effects.len() as int;
        // The earlier effects stay where they were.
        assert forall|i: int| 0 <= i < l.effects.len() implies !hangs_in(
            #[trigger] l.effects[i].parent_id,
            ebase,
            eb,
        ) by {
            if i == 0 {
            } else {
            }
        }
        assert forall|k: int| 0 <= k < ms.len() implies #[trigger] list_placed(g, ms, e, ebase, abase, k) by {
            if k < n - 1 {
                assert(ms.take(k) == pre.take(k));
                assert(list_placed(lp, pre, e, ebase, abase, k));
                assert(pre[k] == ms[k]);
                let p = list_prefix(pre, e, ebase, abase, k);
                let lk = effect_layout(ms[k], EffectParent::Event { event_id: e, position: k as i64 }, 0, ebase + p.effects.len(), abase + p.amounts.len())->Ok_0;
                lemma_effect_layout_len(ms[k], EffectParent::Event { event_id: e, position: k as i64 }, 0, ebase + p.effects.len(), abase + p.amounts.len());
                assert forall|i: int| 0 <= i < l.effects.len() implies !hangs_in(
                    #[trigger] l.effects[i].parent_id,
                    ebase + p.effects.len(),
                    ebase + p.effects.len() + lk.effects.len(),
                ) by {
                    assert(!hangs_in(l.effects[i].parent_id, ebase, eb));
                }
                lemma_sits_extend(lp, l, ebase, abase, p.sources.len() as int, p.items.len() as int, lk, ebase + p.effects.len(), abase + p.amounts.len());
            } else {
                assert(ms.take(k) == pre);
                lemma_sits_new(lp, l, ebase, abase);
            }
        }
        let ids = crate::copy_plan::event_effect_ids(g.effects, e);
        let pids = crate::copy_plan::event_effect_ids(lp.effects, e);
        lemma_event_ids_join(lp.effects, l.effects, e);
        lemma_event_ids_single(l.effects, e);
        assert(ids == pids.push(eb as i64));
        assert forall|k: int| 0 <= k < ms.len() implies #[trigger] ids[k] == ebase + list_prefix(ms, e, ebase, abase, k).effects.len() by {
            if k < n - 1 {
                assert(ms.take(k) == pre.take(k));
                assert(ids[k] == pids[k]);
            } else {
                assert(ms.take(k) == pre);
            }
        }
        assert forall|i: int| 0 <= i < g.effects.len() implies #[trigger] g.effects[i].id == ebase + i by {
            if i < lp.effects.len() {
                assert(g.effects[i] == lp.effects[i]);
            } else {
                assert(g.effects[i] == l.effects[i - lp.effects.len()]);
            }
        }
        assert forall|i: int| 0 <= i < g.amounts.len() implies #[trigger] g.amounts[i].0 == abase + i by {
            if i < lp.amounts.len() {
                assert(g.amounts[i] == lp.amounts[i]);
            } else {
                assert(g.amounts[i] == l.amounts[i - lp.amounts.len()]);
            }
        }
        assert forall|i: int| 0 <= i < g.effects.len() implies !hangs_in(
            #[trigger] g.effects[i].parent_id,
            ebase + g.effects.len(),
            i64::MAX + 1,
        ) by {
            if i < lp.effects.len() {
                assert(g.effects[i] == lp.effects[i]);
            } else {
                assert(g.effects[i] == l.effects[i - lp.effects.len()]);
            }
        }
        assert forall|i: int| 0 <= i < g.sources.len() implies #[trigger] g.sources[i].0 < ebase + g.effects.len() by {
            if i < lp.sources.len() {
                assert(g.sources[i] == lp.sources[i]);
            } else {
                assert(g.sources[i] == l.sources[i - lp.sources.len()]);
            }
        }
        assert forall|i: int| 0 <= i < g.items.len() implies #[trigger] g.items[i].0 < ebase + g.effects.len() by {
            if i < lp.items.len() {
                assert(g.items[i] == lp.items[i]);
            } else {
                assert(g.items[i] == l.items[i - lp.items.len()]);
            }
        }
    }
}


/// The effects with these ids read back in order, or the first that cannot be.
pub open spec fn read_effect_list(g: EffectLayout, ids: Seq<i64>) -> Result<Seq<EffectModel>, EffectReadFault>
    decreases ids.len(),
{
    if ids.len() == 0 {
        Ok(Seq::empty())
    } else {
        match read_effect_list(g, ids.drop_last()) {
            Err(f) => Err(f),
            Ok(s) => match read_effect_model(g, ids.last(), 0) {
                Ok(m) => Ok(s.push(m)),
                Err(f) => Err(f),
            },
        }
    }
}

proof fn lemma_list_reads(ms: Seq<EffectModel>, e: i64, ebase: int, abase: int, n: int)
    requires
        0 <= n <= ms.len(),
        forall|k: int| 0 <= k < ms.len() ==> read_back_kinds(#[trigger] ms[k]) && sources_fit(ms[k]),
        ({
            let g = effect_list_layout(ms, e, ebase, abase)->Ok_0;
            let ids = crate::copy_plan::event_effect_ids(g.effects, e);
            &&& forall|k: int| 0 <= k < ms.len() ==> #[trigger] list_placed(g, ms, e, ebase, abase, k)
            &&& ids.len() == ms.len()
            &&& forall|k: int|
                0 <= k < ms.len() ==> #[trigger] ids[k] == ebase + list_prefix(ms, e, ebase, abase, k).effects.len()
        }),
    ensures
        ({
            let g = effect_list_layout(ms, e, ebase, abase)->Ok_0;
            let ids = crate::copy_plan::event_effect_ids(g.effects, e);
            read_effect_list(g, ids.take(n)) == Ok::<Seq<EffectModel>, EffectReadFault>(ms.take(n))
        }),
    decreases n,
{
    let g = effect_list_layout(ms, e, ebase, abase)->Ok_0;
    let ids = crate::copy_plan::event_effect_ids(g.effects, e);
    if n == 0 {
        assert(ids.take(0) == Seq::<i64>::empty());
        assert(ms.take(0) == Seq::<EffectModel>::empty());
    } else {
        lemma_list_reads(ms, e, ebase, abase, n - 1);
        let k = n - 1;
        assert(ids.take(n).drop_last() == ids.take(k));
        assert(ids.take(n).last() == ids[k]);
        assert(list_placed(g, ms, e, ebase, abase, k));
        assert(read_back_kinds(ms[k]) && sources_fit(ms[k]));
        let p = list_prefix(ms, e, ebase, abase, k);
        lemma_read_back(
            g,
            ebase,
            abase,
            p.sources.len() as int,
            p.items.len() as int,
            ms[k],
            EffectParent::Event { event_id: e, position: k as i64 },
            0,
            ebase + p.effects.len(),
            abase + p.amounts.len(),
        );
        assert(ms.take(n) == ms.take(k).push(ms[k]));
    }
}

/// What is written is read back: an event's effects, each of a kind the
/// reader rebuilds, laid out one after another in the event, read back from
/// those rows, in the order of the rows that name the event, as the same
/// effects.
pub proof fn effect_list_round_trip(ms: Seq<EffectModel>, e: i64, ebase: int, abase: int)
    requires
        ebase >= 0,
        abase >= 0,
        forall|k: int| 0 <= k < ms.len() ==> read_back_kinds(#[trigger] ms[k]) && sources_fit(ms[k]),
        effect_list_layout(ms, e, ebase, abase) is Ok,
        ebase + effect_list_layout(ms, e, ebase, abase)->Ok_0.effects.len() <= i64::MAX,
        abase + effect_list_layout(ms, e, ebase, abase)->Ok_0.amounts.len() <= i64::MAX,
    ensures
        ({
            let g = effect_list_layout(ms, e, ebase, abase)->Ok_0;
            read_effect_list(g, crate::copy_plan::event_effect_ids(g.effects, e)) == Ok::<
                Seq<EffectModel>,
                EffectReadFault,
            >(ms)
        }),
{
    let g = effect_list_layout(ms, e, ebase, abase)->Ok_0;
    let ids = crate::copy_plan::event_effect_ids(g.effects, e);
    lemma_list_layout(ms, e, ebase, abase);
    lemma_list_reads(ms, e, ebase, abase, ms.len() as int);
    assert(ids.take(ms.len() as int) == ids);
    assert(ms.take(ms.len() as int) == ms);
}


/// How many effect rows and amount rows a list of effects takes.
pub open spec fn list_counts(ms: Seq<EffectModel>) -> (nat, nat)
    decreases ms.len(),
{
    if ms.len() == 0 {
        (0, 0)
    } else {
        let (a, b) = list_counts(ms.drop_last());
        (a + effect_count(ms.last()), b + effect_amount_count(ms.last()))
    }
}

proof fn lemma_counts_grow(ms: Seq<EffectModel>, k: int)
    requires
        0 <= k <= ms.len(),
    ensures
        list_counts(ms.take(k)).0 <= list_counts(ms).0,
        list_counts(ms.take(k)).1 <= list_counts(ms).1,
        list_counts(ms).0 >= ms.len(),
    decreases ms.len() - k,
{
    if k < ms.len() {
        lemma_counts_grow(ms, k + 1);
        assert(ms.take(k + 1).drop_last() == ms.take(k));
    } else {
        assert(ms.take(k) == ms);
        lemma_counts_len(ms);
    }
}

proof fn lemma_counts_len(ms: Seq<EffectModel>)
    ensures
        list_counts(ms).0 >= ms.len(),
    decreases ms.len(),
{
    if ms.len() > 0 {
        lemma_counts_len(ms.drop_last());
    }
}

/// Once an effect of a list cannot be laid out, the list reports why.
proof fn lemma_list_layout_stop(ms: Seq<EffectModel>, e: i64, ebase: int, abase: int, k: int)
    requires
        0 <= k < ms.len(),
        effect_list_layout(ms.take(k), e, ebase, abase) is Ok,
        effect_layout(
            ms[k],
            EffectParent::Event { event_id: e, position: k as i64 },
            0,
            ebase + effect_list_layout(ms.take(k), e, ebase, abase)->Ok_0.effects.len(),
            abase + effect_list_layout(ms.take(k), e, ebase, abase)->Ok_0.amounts.len(),
        ) is Err,
    ensures
        effect_list_layout(ms, e, ebase, abase) == Err::<EffectLayout, EffectFault>(
            effect_layout(
                ms[k],
                EffectParent::Event { event_id: e, position: k as i64 },
                0,
                ebase + effect_list_layout(ms.take(k), e, ebase, abase)->Ok_0.effects.len(),
                abase + effect_list_layout(ms.take(k), e, ebase, abase)->Ok_0.amounts.len(),
            )->Err_0,
        ),
    decreases ms.len() - k,
{
    let n = ms.len() as int;
    let prev = ms.take(n - 1);
    assert(ms.drop_last() == prev);
    if k == n - 1 {
        assert(prev == ms.take(k));
    } else {
        assert(prev.take(k) == ms.take(k));
        assert(prev[k] == ms[k]);
        lemma_list_layout_stop(prev, e, ebase, abase, k);
    }
}

/// The rows of an event's effects, the `k`-th at position `k`, numbered on
/// from `ebase` and `abase`, as [`effect_list_layout`] says.
pub fn effect_list_rows(specs: &[EffectSpec], event_id: i64, ebase: i64, abase: i64) -> (r: Result<
    EffectRows,
    ApiError,
>)
    requires
        ebase >= 0,
        abase >= 0,
        ebase + list_counts(specs@.map_values(|s: EffectSpec| s@)).0 <= i64::MAX,
        abase + list_counts(specs@.map_values(|s: EffectSpec| s@)).1 <= i64::MAX,
        forall|k: int| 0 <= k < specs@.len() ==> sources_fit(#[trigger] specs@[k]@),
    ensures
        match effect_list_layout(specs@.map_values(|s: EffectSpec| s@), event_id, ebase as int, abase as int) {
            Ok(l) => r matches Ok(v) && v@ == l,
            Err(f) => r matches Err(e) && effect_error(f, e),
        },
{
    let ghost ms = specs@.map_values(|s: EffectSpec| s@);
    let mut all = EffectRows { effects: Vec::new(), amounts: Vec::new(), sources: Vec::new(), items: Vec::new() };
    let mut k: usize = 0;
    proof {
        assert(ms.take(0) == Seq::<EffectModel>::empty());
        assert(all@.effects =~= no_rows().effects);
        assert(all@.amounts =~= no_rows().amounts);
        assert(all@.sources =~= no_rows().sources);
        assert(all@.items =~= no_rows().items);
        lemma_counts_grow(ms, 0);
    }
    while k < specs.len()
        invariant
            k <= specs@.len(),
            ms == specs@.map_values(|s: EffectSpec| s@),
            ebase >= 0,
            abase >= 0,
            ebase + list_counts(ms).0 <= i64::MAX,
            abase + list_counts(ms).1 <= i64::MAX,
            forall|j: int| 0 <= j < specs@.len() ==> sources_fit(#[trigger] specs@[j]@),
            effect_list_layout(ms.take(k as int), event_id, ebase as int, abase as int) == Ok::<
                EffectLayout,
                EffectFault,
            >(all@),
            all@.effects.len() == list_counts(ms.take(k as int)).0,
            all@.amounts.len() == list_counts(ms.take(k as int)).1,
        decreases specs@.len() - k,
    {
        proof {
            lemma_counts_grow(ms, k + 1);
            assert(ms.take(k + 1).drop_last() == ms.take(k as int));
            assert(ms.take(k + 1).last() == ms[k as int]);
            assert(ms[k as int] == specs@[k as int]@);
            assert(sources_fit(specs@[k as int]@));
        }
        let eb = ebase + all.effects.len() as i64;
        let ab = abase + all.amounts.len() as i64;
        let pos = k as i64;
        let par = EffectParent::Event { event_id, position: pos };
        match effect_rows(&specs[k], par, 0, eb, ab) {
            Ok(rows) => {
                let ghost before = all@;
                proof {
                    lemma_effect_layout_len(ms[k as int], par, 0, eb as int, ab as int);
                }
                extend_rows(&mut all, rows);
                assert(all@ == join(before, rows@));
            },
            Err(x) => {
                proof {
                    lemma_list_layout_stop(ms, event_id, ebase as int, abase as int, k as int);
                }
                return Err(x);
            },
        }
        k = k + 1;
    }
    assert(ms.take(specs@.len() as int) == ms);
    Ok(all)
}

} // verus!

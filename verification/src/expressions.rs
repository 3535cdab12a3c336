//! Amount expressions: which amount of an effect is checked, which ends of
//! the transfer an expression may read, and which compiler messages depend
//! on where the expression is used rather than on its text.
use vstd::prelude::*;

use crate::amounts::AmountSpec;
use crate::effects::{amount_of, EffectModel, EffectSpec};
use crate::specs::{SourcesModel, WithdrawalSourcesSpec};
use crate::text::{contains_text, has_substring};

verus! {

/// A diagnostic on an expression's text, with the span it covers.
pub struct ExpressionDiagnostic {
    pub message: String,
    pub start: usize,
    pub end: usize,
}

pub open spec fn contextual(message: Seq<char>) -> bool {
    has_substring(message, "no single account"@) || has_substring(message, "no single endpoint"@)
        || has_substring(message, "no cash"@) || has_substring(message, "unavailable"@)
}

/// Whether a compiler message is about the expression's context (no single
/// account or endpoint, no cash, something unavailable).
pub fn context_error(message: &str) -> (r: bool)
    ensures
        r == contextual(message@),
{
    contains_text(message, "no single account") || contains_text(message, "no single endpoint")
        || contains_text(message, "no cash") || contains_text(message, "unavailable")
}

/// The amount of an effect an expression can stand in: the one it moves, a
/// purchase's price included.
pub fn effect_amount(effect: &EffectSpec) -> (r: Option<&AmountSpec>)
    ensures
        match r {
            Some(a) => amount_of(effect@) == Some(a@),
            None => amount_of(effect@) is None,
        },
{
    effect.amount_spec()
}

/// Which ends of an effect's transfer an expression may name: whether there
/// is a single source account, a single source endpoint, a single target
/// account and a single target endpoint.
pub open spec fn availability(m: EffectModel) -> (bool, bool, bool, bool) {
    match m {
        EffectModel::Income(..) => (false, false, true, true),
        EffectModel::Expense(..) => (true, true, false, false),
        EffectModel::CashTransfer(..) => (true, true, true, true),
        EffectModel::AssetPurchase(..) => (true, true, true, true),
        EffectModel::AssetSale(_, asset, _, _, _) => (true, asset is Some, true, true),
        EffectModel::Sweep(_, _, sources, _, _, _) => match sources {
            Some(SourcesModel::SingleAccount(_)) => (true, false, true, true),
            Some(SourcesModel::SingleAsset(_, _)) => (true, true, true, true),
            _ => (false, false, true, true),
        },
        EffectModel::AdjustBalance(..) => (false, false, true, true),
        _ => (false, false, false, false),
    }
}

/// The ends of an effect's transfer an expression may name, as
/// [`availability`] says: an account's identity and a single transferable
/// endpoint differ for sales and sweeps.
pub fn effect_availability(effect: &EffectSpec) -> (r: (bool, bool, bool, bool))
    ensures
        r == availability(effect@),
{
    match effect {
        EffectSpec::Income { .. } => (false, false, true, true),
        EffectSpec::Expense { .. } => (true, true, false, false),
        EffectSpec::CashTransfer { .. } | EffectSpec::AssetPurchase { .. } => (true, true, true, true),
        EffectSpec::AssetSale { asset_id, .. } => (true, asset_id.is_some(), true, true),
        EffectSpec::Sweep { sources, .. } => match sources {
            Some(WithdrawalSourcesSpec::SingleAccount { .. }) => (true, false, true, true),
            Some(WithdrawalSourcesSpec::SingleAsset { .. }) => (true, true, true, true),
            _ => (false, false, true, true),
        },
        EffectSpec::AdjustBalance { .. } => (false, false, true, true),
        _ => (false, false, false, false),
    }
}

} // verus!

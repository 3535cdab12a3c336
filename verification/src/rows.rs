//! Rows of the schema that the library reads as plain values.
use vstd::prelude::*;

verus! {

pub struct ScenarioRow {
    pub id: i64,
    pub user_id: String,
    pub name: String,
    pub description: Option<String>,
    pub start_date: String,
    pub birth_date: Option<String>,
    pub duration_years: i64,
    pub inflation_profile_id: Option<i64>,
    pub tax_config_id: Option<i64>,
    pub collect_ledger: i64,
    pub created_at: String,
    pub updated_at: String,
}

pub struct ReturnProfileRow {
    pub id: i64,
    pub name: String,
    pub description: Option<String>,
    pub distribution_id: i64,
}

pub struct AccountRow {
    pub id: i64,
    pub name: String,
    pub description: Option<String>,
    pub flavor: String,
    pub sort_order: i64,
}

pub struct EventRow {
    pub id: i64,
    pub name: String,
    pub description: Option<String>,
    pub fires_once: i64,
    pub enabled: i64,
    pub sort_order: i64,
}

/// How an effect draws its withdrawals.
pub struct WithdrawalSourceRow {
    pub effect_id: i64,
    pub mode: String,
    pub account_id: Option<i64>,
    pub asset_id: Option<i64>,
    pub strategy: Option<String>,
}

/// One ordered entry of a withdrawal source: an excluded account, or a
/// custom (account, asset) pair.
pub struct WithdrawalItemRow {
    pub effect_id: i64,
    pub role: String,
    pub position: i64,
    pub account_id: i64,
    pub asset_id: Option<i64>,
}

/// One node of a transfer amount's expression tree. A number is held as the
/// bit pattern of its IEEE 754 double; children are named by row id.
pub struct TransferAmountRow {
    pub id: i64,
    pub kind: String,
    pub value_bits: Option<u64>,
    pub account_id: Option<i64>,
    pub asset_id: Option<i64>,
    pub left_id: Option<i64>,
    pub right_id: Option<i64>,
    pub expression_source: Option<String>,
}

/// One node of an event's trigger tree. A threshold is held as the bit
/// pattern of its IEEE 754 double. A node sits at an event's root, under a
/// parent at a position, or detached (a repeating trigger's start or end
/// condition, named from its parent's own columns).
pub struct TriggerRow {
    pub id: i64,
    pub event_id: Option<i64>,
    pub kind: String,
    pub on_date: Option<String>,
    pub age_years: Option<i64>,
    pub age_months: Option<i64>,
    pub ref_event_id: Option<i64>,
    pub offset_unit: Option<String>,
    pub offset_value: Option<i64>,
    pub account_id: Option<i64>,
    pub asset_id: Option<i64>,
    pub comparison: Option<String>,
    pub threshold_bits: Option<u64>,
    pub interval: Option<String>,
    pub start_trigger_id: Option<i64>,
    pub end_trigger_id: Option<i64>,
    pub max_occurrences: Option<i64>,
    pub parent_id: Option<i64>,
    pub position: i64,
    pub parameter_id: Option<i64>,
}

/// One node of a return distribution's tree. Numbers are held as the bit
/// patterns of their IEEE 754 doubles; a regime model names its two
/// distributions by row id.
pub struct DistributionRow {
    pub id: i64,
    pub kind: String,
    pub rate_bits: Option<u64>,
    pub mean_bits: Option<u64>,
    pub std_dev_bits: Option<u64>,
    pub scale_bits: Option<u64>,
    pub df_bits: Option<u64>,
    pub bull_id: Option<i64>,
    pub bear_id: Option<i64>,
    pub bull_to_bear_bits: Option<u64>,
    pub bear_to_bull_bits: Option<u64>,
    pub history_preset: Option<String>,
    pub block_size: Option<i64>,
}

/// One effect of an event, in the event's ordered list or in a branch slot
/// of a random effect. Numbers are held as the bit patterns of their IEEE 754
/// doubles; amounts are named by their root row's id.
pub struct EffectRow {
    pub id: i64,
    pub event_id: Option<i64>,
    pub parent_id: Option<i64>,
    pub parent_slot: Option<String>,
    pub position: i64,
    pub kind: String,
    pub from_account_id: Option<i64>,
    pub to_account_id: Option<i64>,
    pub asset_id: Option<i64>,
    pub amount_id: Option<i64>,
    pub target_event_id: Option<i64>,
    pub amount_mode: Option<String>,
    pub income_type: Option<String>,
    pub lot_method: Option<String>,
    pub probability_bits: Option<u64>,
    pub units_bits: Option<u64>,
    pub sell_to_cover: Option<i64>,
    pub loan_account_id: Option<i64>,
    pub down_payment_amount_id: Option<i64>,
    pub term_months: Option<i64>,
    pub selling_cost_rate_bits: Option<u64>,
    pub gain_exclusion_bits: Option<u64>,
    pub shock_drop_bits: Option<u64>,
}

/// A named parameter of a plan. A number is held as the bit pattern of its
/// IEEE 754 double.
pub struct ParameterRow {
    pub id: i64,
    pub name: String,
    pub kind: String,
    pub number_bits: Option<u64>,
    pub date_value: Option<String>,
    pub age_years: Option<i64>,
    pub age_months: Option<i64>,
}

} // verus!

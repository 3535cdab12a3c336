//! The recursive parts of the model as clients send them, and how they are
//! laid out in the flat tables: enum names as stored, where a row hangs, and
//! how a withdrawal source becomes rows and is read back.
use vstd::prelude::*;

use crate::error::{owned, ApiError};
use crate::rows::{WithdrawalItemRow, WithdrawalSourceRow};
use crate::text::same_text;

verus! {

/// Deepest nesting a client may send; a deeper payload is refused when it is
/// written rather than when it is simulated.
pub const MAX_SPEC_DEPTH: usize = 64;

pub fn check_depth(depth: usize) -> (r: Result<(), ApiError>)
    ensures
        r is Ok <==> depth <= MAX_SPEC_DEPTH,
        r is Err ==> (r matches Err(ApiError::BadRequest(m)) && m@
            == "expression nests deeper than 64 levels"@),
{
    if depth > MAX_SPEC_DEPTH {
        return Err(ApiError::bad_request("expression nests deeper than 64 levels"));
    }
    Ok(())
}

#[derive(Debug, Clone, Copy, PartialEq, Eq, Structural)]
pub enum Comparison {
    GreaterThanOrEqual,
    LessThanOrEqual,
}

pub open spec fn comparison_name(c: Comparison) -> Seq<char> {
    match c {
        Comparison::GreaterThanOrEqual => "GreaterThanOrEqual"@,
        Comparison::LessThanOrEqual => "LessThanOrEqual"@,
    }
}

impl Comparison {
    pub fn as_str(self) -> (r: &'static str)
        ensures
            r@ == comparison_name(self),
    {
        match self {
            Comparison::GreaterThanOrEqual => "GreaterThanOrEqual",
            Comparison::LessThanOrEqual => "LessThanOrEqual",
        }
    }
}

#[derive(Debug, Clone, Copy, PartialEq, Eq, Structural)]
pub enum OffsetUnit {
    Days,
    Months,
    Years,
}

pub open spec fn unit_name(u: OffsetUnit) -> Seq<char> {
    match u {
        OffsetUnit::Days => "Days"@,
        OffsetUnit::Months => "Months"@,
        OffsetUnit::Years => "Years"@,
    }
}

impl OffsetUnit {
    pub fn as_str(self) -> (r: &'static str)
        ensures
            r@ == unit_name(self),
    {
        match self {
            OffsetUnit::Days => "Days",
            OffsetUnit::Months => "Months",
            OffsetUnit::Years => "Years",
        }
    }
}

#[derive(Debug, Clone, Copy, PartialEq, Eq, Structural)]
pub enum Interval {
    Never,
    Weekly,
    BiWeekly,
    Monthly,
    Quarterly,
    Yearly,
}

pub open spec fn interval_name(i: Interval) -> Seq<char> {
    match i {
        Interval::Never => "Never"@,
        Interval::Weekly => "Weekly"@,
        Interval::BiWeekly => "BiWeekly"@,
        Interval::Monthly => "Monthly"@,
        Interval::Quarterly => "Quarterly"@,
        Interval::Yearly => "Yearly"@,
    }
}

impl Interval {
    pub fn as_str(self) -> (r: &'static str)
        ensures
            r@ == interval_name(self),
    {
        match self {
            Interval::Never => "Never",
            Interval::Weekly => "Weekly",
            Interval::BiWeekly => "BiWeekly",
            Interval::Monthly => "Monthly",
            Interval::Quarterly => "Quarterly",
            Interval::Yearly => "Yearly",
        }
    }
}

/// Where a trigger row hangs: at the root of an event, inside a parent, or
/// detached (a repeating trigger's start or end condition, linked from the
/// parent's own column).
#[derive(Debug, Clone, Copy, PartialEq, Eq, Structural)]
pub enum TriggerParent {
    Event(i64),
    Node { parent_id: i64, position: i64 },
    Detached,
}

impl TriggerParent {
    /// The row's event, parent and position columns.
    pub fn columns(self) -> (r: (Option<i64>, Option<i64>, i64))
        ensures
            r == (match self {
                TriggerParent::Event(e) => (Some(e), None, 0),
                TriggerParent::Node { parent_id, position } => (None, Some(parent_id), position),
                TriggerParent::Detached => (None, None, 0),
            }),
    {
        match self {
            TriggerParent::Event(e) => (Some(e), None, 0),
            TriggerParent::Node { parent_id, position } => (None, Some(parent_id), position),
            TriggerParent::Detached => (None, None, 0),
        }
    }
}

/// Where an effect row hangs: in an event's ordered list, or in a branch
/// slot of a parent effect.
#[derive(Debug, Clone, Copy, PartialEq, Eq, Structural)]
pub enum EffectParent {
    Event { event_id: i64, position: i64 },
    Branch { parent_id: i64, on_true: bool },
}

impl EffectParent {
    /// The row's event, parent, slot and position columns.
    pub fn columns(self) -> (r: (Option<i64>, Option<i64>, Option<&'static str>, i64))
        ensures
            match self {
                EffectParent::Event { event_id, position } => r.0 == Some(event_id) && r.1 is None
                    && r.2 is None && r.3 == position,
                EffectParent::Branch { parent_id, on_true } => r.0 is None && r.1 == Some(parent_id)
                    && r.2 is Some && r.2->0@ == (if on_true {
                    "on_true"@
                } else {
                    "on_false"@
                }) && r.3 == 0,
            },
    {
        match self {
            EffectParent::Event { event_id, position } => (Some(event_id), None, None, position),
            EffectParent::Branch { parent_id, on_true } => (
                None,
                Some(parent_id),
                Some(
                    if on_true {
                        "on_true"
                    } else {
                        "on_false"
                    },
                ),
                0,
            ),
        }
    }
}

#[derive(Debug, Clone, Copy, PartialEq, Eq, Structural)]
pub enum AmountMode {
    Gross,
    Net,
}

impl AmountMode {
    /// `Net` unless a request says otherwise.
    pub fn default_mode() -> (r: Self)
        ensures
            r == AmountMode::Net,
    {
        AmountMode::Net
    }
}

#[derive(Debug, Clone, Copy, PartialEq, Eq, Structural)]
pub enum IncomeType {
    Taxable,
    TaxFree,
}

#[derive(Debug, Clone, Copy, PartialEq, Eq, Structural)]
pub enum LotMethod {
    Fifo,
    Lifo,
    HighestCost,
    LowestCost,
    AverageCost,
}

impl LotMethod {
    /// `Fifo` unless a request says otherwise.
    pub fn default_method() -> (r: Self)
        ensures
            r == LotMethod::Fifo,
    {
        LotMethod::Fifo
    }
}

pub open spec fn mode_name(mode: AmountMode) -> Seq<char> {
    match mode {
        AmountMode::Gross => "Gross"@,
        AmountMode::Net => "Net"@,
    }
}

pub open spec fn income_name(income: IncomeType) -> Seq<char> {
    match income {
        IncomeType::Taxable => "Taxable"@,
        IncomeType::TaxFree => "TaxFree"@,
    }
}

pub open spec fn lot_name(lot: LotMethod) -> Seq<char> {
    match lot {
        LotMethod::Fifo => "Fifo"@,
        LotMethod::Lifo => "Lifo"@,
        LotMethod::HighestCost => "HighestCost"@,
        LotMethod::LowestCost => "LowestCost"@,
        LotMethod::AverageCost => "AverageCost"@,
    }
}

pub fn mode_str(mode: AmountMode) -> (r: &'static str)
    ensures
        r@ == mode_name(mode),
{
    match mode {
        AmountMode::Gross => "Gross",
        AmountMode::Net => "Net",
    }
}

pub fn income_str(income: IncomeType) -> (r: &'static str)
    ensures
        r@ == income_name(income),
{
    match income {
        IncomeType::Taxable => "Taxable",
        IncomeType::TaxFree => "TaxFree",
    }
}

pub fn lot_str(lot: LotMethod) -> (r: &'static str)
    ensures
        r@ == lot_name(lot),
{
    match lot {
        LotMethod::Fifo => "Fifo",
        LotMethod::Lifo => "Lifo",
        LotMethod::HighestCost => "HighestCost",
        LotMethod::LowestCost => "LowestCost",
        LotMethod::AverageCost => "AverageCost",
    }
}

#[derive(Debug, Clone, Copy, PartialEq, Eq, Structural)]
pub enum WithdrawalStrategy {
    TaxEfficientEarly,
    TaxDeferredFirst,
    TaxFreeFirst,
    ProRata,
    PenaltyAware,
}

pub open spec fn strategy_name(s: WithdrawalStrategy) -> Seq<char> {
    match s {
        WithdrawalStrategy::TaxEfficientEarly => "TaxEfficientEarly"@,
        WithdrawalStrategy::TaxDeferredFirst => "TaxDeferredFirst"@,
        WithdrawalStrategy::TaxFreeFirst => "TaxFreeFirst"@,
        WithdrawalStrategy::ProRata => "ProRata"@,
        WithdrawalStrategy::PenaltyAware => "PenaltyAware"@,
    }
}

/// A stored strategy name read back; anything unknown or missing reads as
/// `TaxEfficientEarly`.
pub open spec fn strategy_named(name: Option<Seq<char>>) -> WithdrawalStrategy {
    match name {
        Some(n) => if n == "TaxDeferredFirst"@ {
            WithdrawalStrategy::TaxDeferredFirst
        } else if n == "TaxFreeFirst"@ {
            WithdrawalStrategy::TaxFreeFirst
        } else if n == "ProRata"@ {
            WithdrawalStrategy::ProRata
        } else if n == "PenaltyAware"@ {
            WithdrawalStrategy::PenaltyAware
        } else {
            WithdrawalStrategy::TaxEfficientEarly
        },
        None => WithdrawalStrategy::TaxEfficientEarly,
    }
}

pub fn strategy_str(s: WithdrawalStrategy) -> (r: &'static str)
    ensures
        r@ == strategy_name(s),
{
    match s {
        WithdrawalStrategy::TaxEfficientEarly => "TaxEfficientEarly",
        WithdrawalStrategy::TaxDeferredFirst => "TaxDeferredFirst",
        WithdrawalStrategy::TaxFreeFirst => "TaxFreeFirst",
        WithdrawalStrategy::ProRata => "ProRata",
        WithdrawalStrategy::PenaltyAware => "PenaltyAware",
    }
}

pub fn strategy_from(name: Option<&str>) -> (r: WithdrawalStrategy)
    ensures
        r == strategy_named(match name {
            Some(n) => Some(n@),
            None => None,
        }),
{
    match name {
        Some(n) => if same_text(n, "TaxDeferredFirst") {
            WithdrawalStrategy::TaxDeferredFirst
        } else if same_text(n, "TaxFreeFirst") {
            WithdrawalStrategy::TaxFreeFirst
        } else if same_text(n, "ProRata") {
            WithdrawalStrategy::ProRata
        } else if same_text(n, "PenaltyAware") {
            WithdrawalStrategy::PenaltyAware
        } else {
            WithdrawalStrategy::TaxEfficientEarly
        },
        None => WithdrawalStrategy::TaxEfficientEarly,
    }
}

#[derive(Debug, Clone, Copy, PartialEq, Eq, Structural)]
pub struct AssetRef {
    pub account_id: i64,
    pub asset_id: i64,
}

/// Where an effect's withdrawals are drawn from.
pub enum WithdrawalSourcesSpec {
    SingleAsset { account_id: i64, asset_id: i64 },
    SingleAccount { account_id: i64 },
    Strategy { strategy: WithdrawalStrategy, exclude_accounts: Vec<i64> },
    /// Ordered (account, asset) pairs to draw from.
    Custom { entries: Vec<AssetRef> },
}

/// A withdrawal source as a value.
pub enum SourcesModel {
    SingleAsset(i64, i64),
    SingleAccount(i64),
    Strategy(WithdrawalStrategy, Seq<i64>),
    Custom(Seq<AssetRef>),
}

impl View for WithdrawalSourcesSpec {
    type V = SourcesModel;

    open spec fn view(&self) -> SourcesModel {
        match self {
            WithdrawalSourcesSpec::SingleAsset { account_id, asset_id } => SourcesModel::SingleAsset(
                *account_id,
                *asset_id,
            ),
            WithdrawalSourcesSpec::SingleAccount { account_id } => SourcesModel::SingleAccount(
                *account_id,
            ),
            WithdrawalSourcesSpec::Strategy { strategy, exclude_accounts } => SourcesModel::Strategy(
                *strategy,
                exclude_accounts@,
            ),
            WithdrawalSourcesSpec::Custom { entries } => SourcesModel::Custom(entries@),
        }
    }
}

/// A stored source row as a value: effect, mode, account, asset, strategy.
pub open spec fn source_row(r: WithdrawalSourceRow) -> (i64, Seq<char>, Option<i64>, Option<i64>, Option<Seq<char>>) {
    (r.effect_id, r.mode@, r.account_id, r.asset_id, match r.strategy {
        Some(s) => Some(s@),
        None => None,
    })
}

/// A stored item row as a value: effect, role, position, account, asset.
pub open spec fn item_row(r: WithdrawalItemRow) -> (i64, Seq<char>, i64, i64, Option<i64>) {
    (r.effect_id, r.role@, r.position, r.account_id, r.asset_id)
}

pub open spec fn item_rows(v: Seq<WithdrawalItemRow>) -> Seq<(i64, Seq<char>, i64, i64, Option<i64>)> {
    v.map_values(|r: WithdrawalItemRow| item_row(r))
}

/// The rows that store a withdrawal source for `effect`.
pub open spec fn source_rows(effect: i64, s: SourcesModel) -> (
    (i64, Seq<char>, Option<i64>, Option<i64>, Option<Seq<char>>),
    Seq<(i64, Seq<char>, i64, i64, Option<i64>)>,
) {
    match s {
        SourcesModel::SingleAsset(account, asset) => (
            (effect, "SingleAsset"@, Some(account), Some(asset), None),
            Seq::empty(),
        ),
        SourcesModel::SingleAccount(account) => (
            (effect, "SingleAccount"@, Some(account), None, None),
            Seq::empty(),
        ),
        SourcesModel::Strategy(strategy, exclude) => (
            (effect, "Strategy"@, None, None, Some(strategy_name(strategy))),
            Seq::new(exclude.len(), |i: int| (effect, "exclude"@, i as i64, exclude[i], None::<i64>)),
        ),
        SourcesModel::Custom(entries) => (
            (effect, "Custom"@, None, None, None),
            Seq::new(
                entries.len(),
                |i: int| (effect, "custom"@, i as i64, entries[i].account_id, Some(entries[i].asset_id)),
            ),
        ),
    }
}

/// The rows storing a withdrawal source. A custom source needs at least one
/// entry.
pub fn withdrawal_rows(effect_id: i64, spec: &WithdrawalSourcesSpec) -> (r: Result<
    (WithdrawalSourceRow, Vec<WithdrawalItemRow>),
    ApiError,
>)
    requires
        match spec@ {
            SourcesModel::Strategy(_, e) => e.len() <= i64::MAX,
            SourcesModel::Custom(e) => e.len() <= i64::MAX,
            _ => true,
        },
    ensures
        match r {
            Ok((row, items)) => (source_row(row), item_rows(items@)) == source_rows(effect_id, spec@)
                && !(spec@ matches SourcesModel::Custom(e) && e.len() == 0),
            Err(e) => spec@ matches SourcesModel::Custom(entries) && entries.len() == 0 && (e matches ApiError::BadRequest(
                m,
            ) && m@ == "a Custom withdrawal source needs at least one entry"@),
        },
{
    match spec {
        WithdrawalSourcesSpec::SingleAsset { account_id, asset_id } => {
            let row = WithdrawalSourceRow {
                effect_id,
                mode: owned("SingleAsset"),
                account_id: Some(*account_id),
                asset_id: Some(*asset_id),
                strategy: None,
            };
            let items: Vec<WithdrawalItemRow> = Vec::new();
            assert(item_rows(items@) == Seq::<(i64, Seq<char>, i64, i64, Option<i64>)>::empty());
            Ok((row, items))
        },
        WithdrawalSourcesSpec::SingleAccount { account_id } => {
            let row = WithdrawalSourceRow {
                effect_id,
                mode: owned("SingleAccount"),
                account_id: Some(*account_id),
                asset_id: None,
                strategy: None,
            };
            let items: Vec<WithdrawalItemRow> = Vec::new();
            assert(item_rows(items@) == Seq::<(i64, Seq<char>, i64, i64, Option<i64>)>::empty());
            Ok((row, items))
        },
        WithdrawalSourcesSpec::Strategy { strategy, exclude_accounts } => {
            let row = WithdrawalSourceRow {
                effect_id,
                mode: owned("Strategy"),
                account_id: None,
                asset_id: None,
                strategy: Some(owned(strategy_str(*strategy))),
            };
            let mut items: Vec<WithdrawalItemRow> = Vec::new();
            let mut i: usize = 0;
            while i < exclude_accounts.len()
                invariant
                    i <= exclude_accounts@.len(),
                    exclude_accounts@.len() <= i64::MAX,
                    item_rows(items@) == Seq::new(
                        i as nat,
                        |k: int| (effect_id, "exclude"@, k as i64, exclude_accounts@[k], None::<i64>),
                    ),
                decreases exclude_accounts@.len() - i,
            {
                let ghost before = items@;
                let it = WithdrawalItemRow {
                    effect_id,
                    role: owned("exclude"),
                    position: i as i64,
                    account_id: exclude_accounts[i],
                    asset_id: None,
                };
                items.push(it);
                assert(item_rows(items@) == item_rows(before).push(item_row(it)));
                assert(Seq::new(
                    (i + 1) as nat,
                    |k: int| (effect_id, "exclude"@, k as i64, exclude_accounts@[k], None::<i64>),
                ) == Seq::new(
                    i as nat,
                    |k: int| (effect_id, "exclude"@, k as i64, exclude_accounts@[k], None::<i64>),
                ).push(item_row(it)));
                i = i + 1;
            }
            Ok((row, items))
        },
        WithdrawalSourcesSpec::Custom { entries } => {
            if entries.len() == 0 {
                return Err(ApiError::bad_request("a Custom withdrawal source needs at least one entry"));
            }
            let row = WithdrawalSourceRow {
                effect_id,
                mode: owned("Custom"),
                account_id: None,
                asset_id: None,
                strategy: None,
            };
            let mut items: Vec<WithdrawalItemRow> = Vec::new();
            let mut i: usize = 0;
            while i < entries.len()
                invariant
                    i <= entries@.len(),
                    entries@.len() <= i64::MAX,
                    item_rows(items@) == Seq::new(
                        i as nat,
                        |k: int| (effect_id, "custom"@, k as i64, entries@[k].account_id, Some(entries@[k].asset_id)),
                    ),
                decreases entries@.len() - i,
            {
                let e = entries[i];
                let ghost before = items@;
                let it = WithdrawalItemRow {
                    effect_id,
                    role: owned("custom"),
                    position: i as i64,
                    account_id: e.account_id,
                    asset_id: Some(e.asset_id),
                };
                items.push(it);
                assert(item_rows(items@) == item_rows(before).push(item_row(it)));
                assert(Seq::new(
                    (i + 1) as nat,
                    |k: int| (effect_id, "custom"@, k as i64, entries@[k].account_id, Some(entries@[k].asset_id)),
                ) == Seq::new(
                    i as nat,
                    |k: int| (effect_id, "custom"@, k as i64, entries@[k].account_id, Some(entries@[k].asset_id)),
                ).push(item_row(it)));
                i = i + 1;
            }
            Ok((row, items))
        },
    }
}

/// The items of a role, in the order given.
pub open spec fn with_role(items: Seq<(i64, Seq<char>, i64, i64, Option<i64>)>, role: Seq<char>) -> Seq<
    (i64, Seq<char>, i64, i64, Option<i64>),
>
    decreases items.len(),
{
    if items.len() == 0 {
        items
    } else {
        let before = with_role(items.drop_last(), role);
        if items.last().1 == role {
            before.push(items.last())
        } else {
            before
        }
    }
}

pub open spec fn unwrap_or_zero(o: Option<i64>) -> i64 {
    match o {
        Some(v) => v,
        None => 0,
    }
}

/// A withdrawal source read back from its rows (items in stored order):
/// unknown modes read as a strategy, missing ids as zero.
pub open spec fn read_sources(
    row: (i64, Seq<char>, Option<i64>, Option<i64>, Option<Seq<char>>),
    items: Seq<(i64, Seq<char>, i64, i64, Option<i64>)>,
) -> SourcesModel {
    if row.1 == "SingleAsset"@ {
        SourcesModel::SingleAsset(unwrap_or_zero(row.2), unwrap_or_zero(row.3))
    } else if row.1 == "SingleAccount"@ {
        SourcesModel::SingleAccount(unwrap_or_zero(row.2))
    } else if row.1 == "Custom"@ {
        let c = with_role(items, "custom"@);
        SourcesModel::Custom(
            Seq::new(c.len(), |i: int| AssetRef { account_id: c[i].3, asset_id: unwrap_or_zero(c[i].4) }),
        )
    } else {
        let x = with_role(items, "exclude"@);
        SourcesModel::Strategy(strategy_named(row.4), Seq::new(x.len(), |i: int| x[i].3))
    }
}

/// Rebuild a withdrawal source from its stored rows.
pub fn read_withdrawal_sources(row: &WithdrawalSourceRow, items: &[WithdrawalItemRow]) -> (r:
    WithdrawalSourcesSpec)
    ensures
        r@ == read_sources(source_row(*row), item_rows(items@)),
{
    let mode = row.mode.as_str();
    if same_text(mode, "SingleAsset") {
        return WithdrawalSourcesSpec::SingleAsset {
            account_id: match row.account_id {
                Some(v) => v,
                None => 0,
            },
            asset_id: match row.asset_id {
                Some(v) => v,
                None => 0,
            },
        };
    }
    if same_text(mode, "SingleAccount") {
        return WithdrawalSourcesSpec::SingleAccount {
            account_id: match row.account_id {
                Some(v) => v,
                None => 0,
            },
        };
    }
    let custom = same_text(mode, "Custom");
    let role = if custom {
        "custom"
    } else {
        "exclude"
    };
    let mut entries: Vec<AssetRef> = Vec::new();
    let mut excluded: Vec<i64> = Vec::new();
    let mut i: usize = 0;
    while i < items.len()
        invariant
            i <= items@.len(),
            role@ == (if custom {
                "custom"@
            } else {
                "exclude"@
            }),
            ({
                let c = with_role(item_rows(items@).subrange(0, i as int), role@);
                &&& entries@ == Seq::new(
                    c.len(),
                    |k: int| AssetRef { account_id: c[k].3, asset_id: unwrap_or_zero(c[k].4) },
                )
                &&& excluded@ == Seq::new(c.len(), |k: int| c[k].3)
            }),
        decreases items@.len() - i,
    {
        assert(item_rows(items@).subrange(0, i + 1).drop_last() == item_rows(items@).subrange(
            0,
            i as int,
        ));
        assert(item_rows(items@).subrange(0, i + 1).last() == item_row(items@[i as int]));
        let it = &items[i];
        if same_text(it.role.as_str(), role) {
            entries.push(
                AssetRef {
                    account_id: it.account_id,
                    asset_id: match it.asset_id {
                        Some(v) => v,
                        None => 0,
                    },
                },
            );
            excluded.push(it.account_id);
        }
        i = i + 1;
    }
    assert(item_rows(items@).subrange(0, items@.len() as int) == item_rows(items@));
    if custom {
        WithdrawalSourcesSpec::Custom { entries }
    } else {
        WithdrawalSourcesSpec::Strategy {
            strategy: strategy_from(
                match &row.strategy {
                    Some(s) => Some(s.as_str()),
                    None => None,
                },
            ),
            exclude_accounts: excluded,
        }
    }
}

proof fn lemma_strategy_names(s: WithdrawalStrategy)
    ensures
        strategy_named(Some(strategy_name(s))) == s,
{
    reveal_strlit("TaxEfficientEarly");
    reveal_strlit("TaxDeferredFirst");
    reveal_strlit("TaxFreeFirst");
    reveal_strlit("ProRata");
    reveal_strlit("PenaltyAware");
    assert("TaxEfficientEarly"@.len() == 17);
    assert("TaxDeferredFirst"@.len() == 16);
    assert("TaxFreeFirst"@.len() == 12);
    assert("ProRata"@.len() == 7);
    assert("PenaltyAware"@.len() == 12);
    assert("TaxFreeFirst"@[0] != "PenaltyAware"@[0]);
}

proof fn lemma_with_role_uniform(
    items: Seq<(i64, Seq<char>, i64, i64, Option<i64>)>,
    role: Seq<char>,
)
    requires
        forall|i: int| 0 <= i < items.len() ==> (#[trigger] items[i]).1 == role,
    ensures
        with_role(items, role) == items,
    decreases items.len(),
{
    if items.len() > 0 {
        lemma_with_role_uniform(items.drop_last(), role);
        assert(items.drop_last().push(items.last()) == items);
    }
}

/// Storing a withdrawal source and reading it back gives the same source.
pub proof fn withdrawal_sources_round_trip(effect: i64, s: SourcesModel)
    requires
        !(s matches SourcesModel::Custom(e) && e.len() == 0),
        match s {
            SourcesModel::Strategy(_, e) => e.len() <= i64::MAX,
            SourcesModel::Custom(e) => e.len() <= i64::MAX,
            _ => true,
        },
    ensures
        read_sources(source_rows(effect, s).0, source_rows(effect, s).1) == s,
{
    reveal_strlit("SingleAsset");
    reveal_strlit("SingleAccount");
    reveal_strlit("Custom");
    reveal_strlit("Strategy");
    reveal_strlit("custom");
    reveal_strlit("exclude");
    assert("SingleAsset"@.len() == 11);
    assert("SingleAccount"@.len() == 13);
    assert("Custom"@.len() == 6);
    assert("Strategy"@.len() == 8);
    let (row, items) = source_rows(effect, s);
    match s {
        SourcesModel::Strategy(strategy, exclude) => {
            lemma_with_role_uniform(items, "exclude"@);
            lemma_strategy_names(strategy);
            assert(Seq::new(items.len(), |i: int| items[i].3) == exclude);
        },
        SourcesModel::Custom(entries) => {
            lemma_with_role_uniform(items, "custom"@);
            assert(Seq::new(
                items.len(),
                |i: int| AssetRef { account_id: items[i].3, asset_id: unwrap_or_zero(items[i].4) },
            ) == entries);
        },
        _ => {},
    }
}

} // verus!

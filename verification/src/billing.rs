//! Provider-neutral access policy: who has full planning capabilities, what a
//! free account may change, and how much compute may be in flight at once.
use vstd::prelude::*;

use crate::config::{HostedAccessMode, ServerConfig};
use crate::error::{owned, ApiError};
use crate::text::{parse_i64, parsed_i64, same_text, split_char, split_on, strip_all,
    strip_all_prefix, views};

verus! {

#[derive(Debug, Clone, Copy, PartialEq, Eq, Structural)]
pub enum AccessMode {
    SelfHosted,
    Beta,
    Subscription,
}

pub open spec fn access_mode_of(config: ServerConfig) -> AccessMode {
    if !config.hosted {
        AccessMode::SelfHosted
    } else if config.access_mode == HostedAccessMode::Beta {
        AccessMode::Beta
    } else {
        AccessMode::Subscription
    }
}

impl AccessMode {
    pub fn from_config(config: &ServerConfig) -> (r: Self)
        ensures
            r == access_mode_of(*config),
    {
        if !config.hosted {
            AccessMode::SelfHosted
        } else if config.access_mode == HostedAccessMode::Beta {
            AccessMode::Beta
        } else {
            AccessMode::Subscription
        }
    }
}

/// What an account may do.
pub struct Entitlements {
    /// Full planning capabilities, including beta and self-hosted access.
    pub pro: bool,
    pub access_mode: AccessMode,
    pub hosted: bool,
    pub goal_seeks_used_this_month: i64,
    pub max_iterations: usize,
    pub saved_plan_limit: Option<usize>,
    pub goal_seeks_per_month: Option<usize>,
    pub editable_scenario_id: Option<i64>,
    pub annual_price_usd: u32,
    pub monthly_price_usd: u32,
}

/// Whether an account has full capabilities: always outside a subscription
/// deployment, else while its subscription grants access.
pub open spec fn pro_of(config: ServerConfig, subscribed: bool) -> bool {
    access_mode_of(config) != AccessMode::Subscription || subscribed
}

/// The iteration cap: the configured one, and on a hosted deployment no more
/// than 50 000 with full access or 1 000 without.
pub open spec fn iteration_cap(config: ServerConfig, pro: bool) -> usize {
    if !config.hosted {
        config.max_iterations
    } else {
        let tier: usize = if pro {
            50_000
        } else {
            1_000
        };
        if config.max_iterations < tier {
            config.max_iterations
        } else {
            tier
        }
    }
}

pub fn is_pro(config: &ServerConfig, subscribed: bool) -> (r: bool)
    ensures
        r == pro_of(*config, subscribed),
{
    AccessMode::from_config(config) != AccessMode::Subscription || subscribed
}

/// An account's entitlements, from whether its subscription grants access,
/// the plan a free account may edit (its chosen one, else its oldest), and
/// the goal seeks it used this month.
pub fn entitlements_for(
    config: &ServerConfig,
    subscribed: bool,
    editable: Option<i64>,
    used: i64,
) -> (e: Entitlements)
    ensures
        e.pro == pro_of(*config, subscribed),
        e.access_mode == access_mode_of(*config),
        e.hosted == config.hosted,
        e.goal_seeks_used_this_month == used,
        e.max_iterations == iteration_cap(*config, e.pro),
        e.saved_plan_limit == (if e.pro {
            None
        } else {
            Some(1usize)
        }),
        e.goal_seeks_per_month == (if e.pro {
            None
        } else {
            Some(1usize)
        }),
        e.editable_scenario_id == (if e.pro {
            None
        } else {
            editable
        }),
        e.annual_price_usd == 80,
        e.monthly_price_usd == 10,
{
    let access_mode = AccessMode::from_config(config);
    let pro = is_pro(config, subscribed);
    let max_iterations = if !config.hosted {
        config.max_iterations
    } else {
        let tier: usize = if pro {
            50_000
        } else {
            1_000
        };
        if config.max_iterations < tier {
            config.max_iterations
        } else {
            tier
        }
    };
    Entitlements {
        pro,
        access_mode,
        hosted: config.hosted,
        goal_seeks_used_this_month: used,
        max_iterations,
        saved_plan_limit: if pro {
            None
        } else {
            Some(1)
        },
        goal_seeks_per_month: if pro {
            None
        } else {
            Some(1)
        },
        editable_scenario_id: if pro {
            None
        } else {
            editable
        },
        annual_price_usd: 80,
        monthly_price_usd: 10,
    }
}

pub open spec fn pro_required_message() -> Seq<char> {
    "This action requires Pro. Your existing plans and exports remain available."@
}

pub open spec fn editable_required_message() -> Seq<char> {
    "Free includes one editable plan. Existing plans remain readable and exportable."@
}

pub open spec fn goal_seek_message() -> Seq<char> {
    "Free includes one goal seek per calendar month (UTC). Try next month or upgrade to Pro."@
}

pub open spec fn plan_slot_message() -> Seq<char> {
    "Free includes one saved plan. Existing plans remain readable and exportable."@
}

pub open spec fn locked_definition_message() -> Seq<char> {
    "This definition is used by a read-only plan. Create a separate definition for your editable plan."@
}

/// Actions only a full account may take.
pub fn require_pro(e: &Entitlements) -> (r: Result<(), ApiError>)
    ensures
        r is Ok <==> e.pro,
        r matches Err(ApiError::Forbidden(m)) ==> m@ == pro_required_message(),
        r is Err ==> r matches Err(ApiError::Forbidden(_)),
{
    if e.pro {
        Ok(())
    } else {
        Err(
            ApiError::Forbidden(
                owned(
                    "This action requires Pro. Your existing plans and exports remain available.",
                ),
            ),
        )
    }
}

/// Edits of a plan: a full account edits any plan, a free one only the plan
/// it may edit.
pub fn require_editable(e: &Entitlements, scenario: i64) -> (r: Result<(), ApiError>)
    ensures
        r is Ok <==> (e.pro || e.editable_scenario_id == Some(scenario)),
        r is Err ==> (r matches Err(ApiError::Forbidden(m)) && m@ == editable_required_message()),
{
    if e.pro || e.editable_scenario_id == Some(scenario) {
        Ok(())
    } else {
        Err(
            ApiError::Forbidden(
                owned(
                    "Free includes one editable plan. Existing plans remain readable and exportable.",
                ),
            ),
        )
    }
}

/// Whether a goal seek is accepted: a full account always; a free one when
/// the month's reservation took (`reserved` rows were written).
pub fn goal_seek_admission(pro: bool, reserved: u64) -> (r: Result<(), ApiError>)
    ensures
        r is Ok <==> (pro || reserved > 0),
        r is Err ==> (r matches Err(ApiError::Forbidden(m)) && m@ == goal_seek_message()),
{
    if pro || reserved > 0 {
        Ok(())
    } else {
        Err(
            ApiError::Forbidden(
                owned(
                    "Free includes one goal seek per calendar month (UTC). Try next month or upgrade to Pro.",
                ),
            ),
        )
    }
}

/// Whether a free account may hold `additional` more plans beside the
/// `count` it holds: at most one plan in all, on a subscription deployment.
pub fn check_plan_slot(config: &ServerConfig, subscribed: bool, count: i64, additional: i64) -> (r:
    Result<(), ApiError>)
    ensures
        r is Ok <==> (access_mode_of(*config) != AccessMode::Subscription || subscribed
            || count + additional <= 1),
        r is Err ==> (r matches Err(ApiError::Forbidden(m)) && m@ == plan_slot_message()),
{
    if AccessMode::from_config(config) != AccessMode::Subscription {
        return Ok(());
    }
    if subscribed {
        return Ok(());
    }
    if (count as i128) + (additional as i128) > 1 {
        return Err(
            ApiError::Forbidden(
                owned(
                    "Free includes one saved plan. Existing plans remain readable and exportable.",
                ),
            ),
        );
    }
    Ok(())
}

/// A library definition in use by a plan a free account may no longer edit
/// is locked.
pub fn check_library_edit(e: &Entitlements, locked: bool) -> (r: Result<(), ApiError>)
    ensures
        r is Ok <==> (e.pro || !locked),
        r is Err ==> (r matches Err(ApiError::Forbidden(m)) && m@ == locked_definition_message()),
{
    if !e.pro && locked {
        return Err(
            ApiError::Forbidden(
                owned(
                    "This definition is used by a read-only plan. Create a separate definition for your editable plan.",
                ),
            ),
        );
    }
    Ok(())
}

#[derive(Debug, Clone, Copy, PartialEq, Eq, Structural)]
pub enum SubscriptionState {
    Active,
    Canceling,
    PastDue,
    Expired,
}

pub open spec fn state_name(s: SubscriptionState) -> Seq<char> {
    match s {
        SubscriptionState::Active => "active"@,
        SubscriptionState::Canceling => "canceling"@,
        SubscriptionState::PastDue => "past_due"@,
        SubscriptionState::Expired => "expired"@,
    }
}

impl SubscriptionState {
    pub fn as_str(&self) -> (r: &'static str)
        ensures
            r@ == state_name(*self),
    {
        match self {
            SubscriptionState::Active => "active",
            SubscriptionState::Canceling => "canceling",
            SubscriptionState::PastDue => "past_due",
            SubscriptionState::Expired => "expired",
        }
    }
}

/// A normalized, authoritative provider snapshot of a subscription.
pub struct ProviderSnapshot {
    pub provider: String,
    pub event_id: String,
    pub user_id: String,
    pub subscription_id: String,
    pub state: SubscriptionState,
    pub access_until: i64,
    pub revision: i64,
}

pub open spec fn snapshot_valid(e: ProviderSnapshot) -> bool {
    e.revision >= 0 && e.provider@.len() > 0 && e.event_id@.len() > 0
        && e.subscription_id@.len() > 0
}

/// A snapshot is refused before anything is written unless it carries a
/// revision, a provider, an event id and a subscription id.
pub fn check_snapshot(e: &ProviderSnapshot) -> (r: Result<(), ApiError>)
    ensures
        r is Ok <==> snapshot_valid(*e),
        r is Err ==> (r matches Err(ApiError::BadRequest(m)) && m@
            == "invalid provider snapshot"@),
{
    if e.revision < 0 || e.provider.as_str().unicode_len() == 0
        || e.event_id.as_str().unicode_len() == 0 || e.subscription_id.as_str().unicode_len()
        == 0 {
        return Err(ApiError::bad_request("invalid provider snapshot"));
    }
    Ok(())
}

/// A subscription stays pinned to the account that first held it.
pub fn check_owner(owner: Option<&str>, e: &ProviderSnapshot) -> (r: Result<(), ApiError>)
    ensures
        r is Ok <==> (match owner {
            Some(o) => o@ == e.user_id@,
            None => true,
        }),
        r is Err ==> (r matches Err(ApiError::Forbidden(m)) && m@
            == "subscription belongs to another account"@),
{
    match owner {
        Some(o) => {
            if same_text(o, e.user_id.as_str()) {
                Ok(())
            } else {
                Err(ApiError::Forbidden(owned("subscription belongs to another account")))
            }
        },
        None => Ok(()),
    }
}

/// What a reconciled snapshot reports: whether it changed the subscription.
/// A replayed event (its receipt already stored) changes nothing, and
/// neither does one older than the stored revision.
pub fn reconciled_change(receipt_rows: u64, changed_rows: u64) -> (r: bool)
    ensures
        r == (receipt_rows > 0 && changed_rows == 1),
{
    receipt_rows > 0 && changed_rows == 1
}

/// The subscription row an account holds: at most one per account.
pub struct SubscriptionRecord {
    pub provider: String,
    pub subscription_id: String,
    pub state: SubscriptionState,
    pub access_until: i64,
    pub revision: i64,
}

/// A stored subscription row as plain values: provider, subscription id,
/// state, end of paid access (seconds since the epoch) and revision.
pub type SubscriptionRow = (Seq<char>, Seq<char>, SubscriptionState, i64, i64);

pub open spec fn row_of(r: SubscriptionRecord) -> SubscriptionRow {
    (r.provider@, r.subscription_id@, r.state, r.access_until, r.revision)
}

pub open spec fn stored_row(r: Option<&SubscriptionRecord>) -> Option<SubscriptionRow> {
    match r {
        Some(x) => Some(row_of(*x)),
        None => None,
    }
}

/// A row grants paid access while it is active, canceling or past due and
/// its access has not run out.
pub open spec fn grants_access(row: SubscriptionRow, now: i64) -> bool {
    row.2 != SubscriptionState::Expired && row.3 > now
}

/// Whether an account's stored subscription grants access at `now`.
pub fn subscription_grants(stored: Option<&SubscriptionRecord>, now: i64) -> (r: bool)
    ensures
        r == (match stored_row(stored) {
            Some(row) => grants_access(row, now),
            None => false,
        }),
{
    match stored {
        Some(rec) => {
            let live = match rec.state {
                SubscriptionState::Expired => false,
                _ => true,
            };
            live && rec.access_until > now
        },
        None => false,
    }
}

/// The row a snapshot leaves for its account: a first snapshot creates it;
/// later ones update state, access and revision only when they name the same
/// provider and subscription and carry a newer revision; otherwise nothing
/// is written.
pub open spec fn upserted(stored: Option<SubscriptionRow>, e: ProviderSnapshot) -> Option<SubscriptionRow> {
    match stored {
        None => Some((e.provider@, e.subscription_id@, e.state, e.access_until, e.revision)),
        Some(row) => if row.0 == e.provider@ && row.1 == e.subscription_id@ && row.4 < e.revision {
            Some((row.0, row.1, e.state, e.access_until, e.revision))
        } else {
            None
        },
    }
}

/// The row to write for a snapshot, given the account's stored row; `None`
/// when the snapshot changes nothing.
pub fn subscription_upsert(stored: Option<&SubscriptionRecord>, e: &ProviderSnapshot) -> (r: Option<SubscriptionRecord>)
    ensures
        (match r {
            Some(x) => Some(row_of(x)),
            None => None,
        }) == upserted(stored_row(stored), *e),
{
    match stored {
        None => Some(SubscriptionRecord {
            provider: owned(e.provider.as_str()),
            subscription_id: owned(e.subscription_id.as_str()),
            state: e.state,
            access_until: e.access_until,
            revision: e.revision,
        }),
        Some(rec) => {
            if same_text(rec.provider.as_str(), e.provider.as_str()) && same_text(
                rec.subscription_id.as_str(),
                e.subscription_id.as_str(),
            ) && rec.revision < e.revision {
                Some(SubscriptionRecord {
                    provider: owned(rec.provider.as_str()),
                    subscription_id: owned(rec.subscription_id.as_str()),
                    state: e.state,
                    access_until: e.access_until,
                    revision: e.revision,
                })
            } else {
                None
            }
        },
    }
}

/// The billing records: the receipts of events already applied, keyed by
/// provider and event id, and each account's subscription row.
pub type BillingLedger = (Set<(Seq<char>, Seq<char>)>, Map<Seq<char>, SubscriptionRow>);

/// The account holding a provider's subscription, if any does.
pub open spec fn owner_of(rows: Map<Seq<char>, SubscriptionRow>, provider: Seq<char>, sub: Seq<char>) -> Option<Seq<char>> {
    if exists|u: Seq<char>| #[trigger] rows.dom().contains(u) && rows[u].0 == provider && rows[u].1 == sub {
        Some(choose|u: Seq<char>| #[trigger] rows.dom().contains(u) && rows[u].0 == provider && rows[u].1 == sub)
    } else {
        None
    }
}

/// No subscription is held by two accounts.
pub open spec fn ledger_wf(rows: Map<Seq<char>, SubscriptionRow>) -> bool {
    forall|u: Seq<char>, v: Seq<char>|
        #[trigger] rows.dom().contains(u) && #[trigger] rows.dom().contains(v) && u != v ==> !(rows[u].0
            == rows[v].0 && rows[u].1 == rows[v].1)
}

/// One reconciliation, in the order the checks run: an invalid snapshot and
/// one naming another account's subscription are refused (`None`) and
/// change nothing; a replayed event reports no change; otherwise its receipt
/// is kept and the account's row is upserted, reporting whether it changed.
pub open spec fn reconcile_step(l: BillingLedger, e: ProviderSnapshot) -> (BillingLedger, Option<bool>) {
    let (receipts, rows) = l;
    if !snapshot_valid(e) {
        (l, None)
    } else if owner_of(rows, e.provider@, e.subscription_id@) is Some && owner_of(
        rows,
        e.provider@,
        e.subscription_id@,
    )->0 != e.user_id@ {
        (l, None)
    } else if receipts.contains((e.provider@, e.event_id@)) {
        (l, Some(false))
    } else {
        let kept = receipts.insert((e.provider@, e.event_id@));
        let stored = if rows.dom().contains(e.user_id@) {
            Some(rows[e.user_id@])
        } else {
            None
        };
        match upserted(stored, e) {
            Some(row) => ((kept, rows.insert(e.user_id@, row)), Some(true)),
            None => ((kept, rows), Some(false)),
        }
    }
}

/// Reconciliation keeps every subscription with one account, and an
/// account's row keeps its provider and subscription while its revision
/// never goes back.
pub proof fn reconcile_pins_and_orders(l: BillingLedger, e: ProviderSnapshot)
    requires
        ledger_wf(l.1),
    ensures
        ledger_wf(reconcile_step(l, e).0.1),
        forall|u: Seq<char>| #[trigger] l.1.dom().contains(u) ==> {
            let rows = reconcile_step(l, e).0.1;
            &&& rows.dom().contains(u)
            &&& rows[u].0 == l.1[u].0
            &&& rows[u].1 == l.1[u].1
            &&& rows[u].4 >= l.1[u].4
        },
        l.0.subset_of(reconcile_step(l, e).0.0),
{
    let (receipts, rows) = l;
    let p = e.provider@;
    let s = e.subscription_id@;
    let user = e.user_id@;
    if snapshot_valid(e) && !(owner_of(rows, p, s) is Some && owner_of(rows, p, s)->0 != user)
        && !receipts.contains((p, e.event_id@)) {
        let stored = if rows.dom().contains(user) {
            Some(rows[user])
        } else {
            None
        };
        if let Some(row) = upserted(stored, e) {
            let rows2 = rows.insert(user, row);
            assert forall|u: Seq<char>, v: Seq<char>|
                #[trigger] rows2.dom().contains(u) && #[trigger] rows2.dom().contains(v) && u != v
                    implies !(rows2[u].0 == rows2[v].0 && rows2[u].1 == rows2[v].1) by {
                if u == user && !rows.dom().contains(user) {
                    if rows[v].0 == p && rows[v].1 == s {
                        assert(rows.dom().contains(v) && rows[v].0 == p && rows[v].1 == s);
                        let o = owner_of(rows, p, s)->0;
                        assert(rows.dom().contains(o) && rows[o].0 == p && rows[o].1 == s);
                    }
                } else if v == user && !rows.dom().contains(user) {
                    if rows[u].0 == p && rows[u].1 == s {
                        assert(rows.dom().contains(u) && rows[u].0 == p && rows[u].1 == s);
                        let o = owner_of(rows, p, s)->0;
                        assert(rows.dom().contains(o) && rows[o].0 == p && rows[o].1 == s);
                    }
                }
            }
        }
    }
}

/// A valid snapshot for a subscription no other account owns is applied
/// exactly when its event was not seen before and the account holds no
/// subscription, or holds this one at an older revision. Then the account's
/// row takes the snapshot's state, end of access and revision, and the event
/// is noted; otherwise the rows are unchanged, and a replayed event changes
/// nothing at all.
pub proof fn reconcile_applies_new_and_newer(l: BillingLedger, e: ProviderSnapshot)
    requires
        snapshot_valid(e),
        !(owner_of(l.1, e.provider@, e.subscription_id@) is Some && owner_of(
            l.1,
            e.provider@,
            e.subscription_id@,
        )->0 != e.user_id@),
    ensures
        ({
            let (receipts, rows) = l;
            let user = e.user_id@;
            let (l2, r) = reconcile_step(l, e);
            let seen = receipts.contains((e.provider@, e.event_id@));
            let applies = !seen && (!rows.dom().contains(user) || (rows[user].0 == e.provider@
                && rows[user].1 == e.subscription_id@ && rows[user].4 < e.revision));
            &&& r == Some(applies)
            &&& applies ==> l2.1 == rows.insert(
                user,
                (e.provider@, e.subscription_id@, e.state, e.access_until, e.revision),
            )
            &&& !applies ==> l2.1 == rows
            &&& seen ==> l2 == l
            &&& !seen ==> l2.0 == receipts.insert((e.provider@, e.event_id@))
        }),
{
}

/// Applying the same snapshot twice: the second time changes nothing and
/// reports no change, or is refused again as the first was.
pub proof fn reconcile_replay_is_a_no_op(l: BillingLedger, e: ProviderSnapshot)
    requires
        ledger_wf(l.1),
    ensures
        ({
            let (l1, r1) = reconcile_step(l, e);
            let (l2, r2) = reconcile_step(l1, e);
            &&& l2 == l1
            &&& r2 == (if r1 is Some {
                Some(false)
            } else {
                None::<bool>
            })
        }),
{
    let (receipts, rows) = l;
    let p = e.provider@;
    let s = e.subscription_id@;
    let user = e.user_id@;
    reconcile_pins_and_orders(l, e);
    let (l1, r1) = reconcile_step(l, e);
    if snapshot_valid(e) && !(owner_of(rows, p, s) is Some && owner_of(rows, p, s)->0 != user)
        && !receipts.contains((p, e.event_id@)) {
        let rows1 = l1.1;
        assert(l1.0.contains((p, e.event_id@)));
        // The second call passes the owner check as the first did.
        if owner_of(rows1, p, s) is Some {
            let o = owner_of(rows1, p, s)->0;
            assert(rows1.dom().contains(o) && rows1[o].0 == p && rows1[o].1 == s);
            if o != user {
                if rows.dom().contains(o) {
                    assert(rows1[o].0 == rows[o].0 && rows1[o].1 == rows[o].1);
                    assert(rows.dom().contains(o) && rows[o].0 == p && rows[o].1 == s);
                    let w = owner_of(rows, p, s)->0;
                    assert(rows.dom().contains(w) && rows[w].0 == p && rows[w].1 == s);
                    assert(w == user);
                    assert(rows1.dom().contains(user));
                    assert(rows1[user].0 == rows[user].0 && rows1[user].1 == rows[user].1);
                } else {
                    assert(rows1.dom().contains(o));
                    assert(o == user);
                }
            }
        }
    }
}

/// A snapshot naming a subscription another account holds is refused and
/// changes nothing.
pub proof fn foreign_snapshot_is_refused(l: BillingLedger, e: ProviderSnapshot, holder: Seq<char>)
    requires
        ledger_wf(l.1),
        snapshot_valid(e),
        l.1.dom().contains(holder),
        holder != e.user_id@,
        l.1[holder].0 == e.provider@,
        l.1[holder].1 == e.subscription_id@,
    ensures
        reconcile_step(l, e) == (l, None::<bool>),
{
    let rows = l.1;
    let p = e.provider@;
    let s = e.subscription_id@;
    assert(rows.dom().contains(holder) && rows[holder].0 == p && rows[holder].1 == s);
    let o = owner_of(rows, p, s)->0;
    assert(rows.dom().contains(o) && rows[o].0 == p && rows[o].1 == s);
    assert(o == holder);
}

/// Which library a definition route names.
#[derive(Debug, Clone, Copy, PartialEq, Eq, Structural)]
pub enum LibraryKind {
    ReturnProfiles,
    InflationProfiles,
    TaxConfigs,
}

/// What a mutating request must be checked against before it runs.
#[derive(Debug, Clone, Copy, PartialEq, Eq, Structural)]
pub enum MutationGuard {
    /// Nothing: reads, exports, validation and whole-plan deletion stay open.
    Open,
    /// The caller must own and be allowed to edit this plan.
    Scenario(i64),
    /// The caller must be allowed to edit this library definition.
    Library(LibraryKind, i64),
}

pub open spec fn library_kind(s: Seq<char>) -> Option<LibraryKind> {
    if s == "return-profiles"@ {
        Some(LibraryKind::ReturnProfiles)
    } else if s == "inflation-profiles"@ {
        Some(LibraryKind::InflationProfiles)
    } else if s == "tax-configs"@ {
        Some(LibraryKind::TaxConfigs)
    } else {
        None
    }
}

pub open spec fn read_method(m: Seq<char>) -> bool {
    m == "GET"@ || m == "HEAD"@ || m == "OPTIONS"@
}

/// The guard on a request, from the deployment, its method and its path.
pub open spec fn guard_of(hosted: bool, method: Seq<char>, path: Seq<char>) -> MutationGuard {
    let segs = split_on(strip_all(path, "/api/"@), '/');
    let id = if segs.len() > 1 {
        parsed_i64(segs[1])
    } else {
        None
    };
    let scenario = segs[0] == "scenarios"@ && id is Some;
    let library = library_kind(segs[0]) is Some && id is Some;
    if !hosted || read_method(method) || (!scenario && !library) {
        MutationGuard::Open
    } else if scenario {
        if (segs.len() == 2 && method == "DELETE"@) || (segs.len() > 2 && (segs[2] == "compile"@
            || segs[2] == "preflight"@ || segs[2] == "archive"@)) {
            MutationGuard::Open
        } else {
            MutationGuard::Scenario(id->0)
        }
    } else {
        MutationGuard::Library(library_kind(segs[0])->0, id->0)
    }
}

fn library_kind_of(s: &str) -> (r: Option<LibraryKind>)
    ensures
        r == library_kind(s@),
{
    if same_text(s, "return-profiles") {
        Some(LibraryKind::ReturnProfiles)
    } else if same_text(s, "inflation-profiles") {
        Some(LibraryKind::InflationProfiles)
    } else if same_text(s, "tax-configs") {
        Some(LibraryKind::TaxConfigs)
    } else {
        None
    }
}

/// Which check a request must pass before it may change anything, on a
/// hosted deployment.
pub fn mutation_guard(hosted: bool, method: &str, path: &str) -> (g: MutationGuard)
    ensures
        g == guard_of(hosted, method@, path@),
{
    let segs = split_char(strip_all_prefix(path, "/api/"), '/');
    proof {
        crate::text::lemma_split_nonempty(strip_all(path@, "/api/"@), '/');
    }
    assert(views(segs@)[0] == segs@[0]@);
    let id = if segs.len() > 1 {
        assert(views(segs@)[1] == segs@[1]@);
        parse_i64(segs[1].as_str())
    } else {
        None
    };
    let scenario = same_text(segs[0].as_str(), "scenarios") && id.is_some();
    let kind = library_kind_of(segs[0].as_str());
    let library = kind.is_some() && id.is_some();
    let read = same_text(method, "GET") || same_text(method, "HEAD") || same_text(
        method,
        "OPTIONS",
    );
    if !hosted || read || (!scenario && !library) {
        return MutationGuard::Open;
    }
    if scenario {
        let delete_plan = segs.len() == 2 && same_text(method, "DELETE");
        let open_action = if segs.len() > 2 {
            assert(views(segs@)[2] == segs@[2]@);
            same_text(segs[2].as_str(), "compile") || same_text(segs[2].as_str(), "preflight")
                || same_text(segs[2].as_str(), "archive")
        } else {
            false
        };
        if delete_plan || open_action {
            MutationGuard::Open
        } else {
            MutationGuard::Scenario(id.unwrap())
        }
    } else {
        MutationGuard::Library(kind.unwrap(), id.unwrap())
    }
}

/// How many compute jobs may be admitted at once, queued and running
/// together.
pub const COMPUTE_LIMIT: usize = 16;

/// How many compute jobs one account may have admitted at once.
pub const USER_COMPUTE_LIMIT: usize = 2;

/// Why compute admission was refused.
#[derive(Debug, Clone, Copy, PartialEq, Eq, Structural)]
pub enum RejectionReason {
    GlobalLimit,
    UserLimit,
}

/// One account's admitted compute.
pub struct UserCount {
    pub user: String,
    pub count: usize,
}

/// Admitted compute: a total, and a count per account holding any.
pub struct ComputeGate {
    total: usize,
    users: Vec<UserCount>,
}

/// A claim on one unit of admitted compute, held through the job's terminal
/// state and handed back with [`ComputeGate::release`].
pub struct ComputePermit {
    user: String,
}

impl ComputePermit {
    pub closed spec fn holder(&self) -> Seq<char> {
        self.user@
    }
}

pub open spec fn user_views(v: Seq<UserCount>) -> Seq<(Seq<char>, usize)> {
    v.map_values(|u: UserCount| (u.user@, u.count))
}

pub open spec fn sum_counts(v: Seq<(Seq<char>, usize)>) -> nat
    decreases v.len(),
{
    if v.len() == 0 {
        0
    } else {
        sum_counts(v.drop_last()) + v.last().1 as nat
    }
}

/// The count an account holds.
pub open spec fn count_of(v: Seq<(Seq<char>, usize)>, user: Seq<char>) -> nat {
    if exists|i: int| 0 <= i < v.len() && v[i].0 == user {
        v[choose|i: int| 0 <= i < v.len() && v[i].0 == user].1 as nat
    } else {
        0
    }
}

impl ComputeGate {
    pub closed spec fn admitted(&self) -> nat {
        self.total as nat
    }

    pub closed spec fn accounts(&self) -> Seq<(Seq<char>, usize)> {
        user_views(self.users@)
    }

    /// The total is the sum of the accounts' counts; each account appears
    /// once, with a positive count within its limit; the total is within
    /// the global limit.
    pub open spec fn wf(&self) -> bool {
        &&& self.admitted() == sum_counts(self.accounts())
        &&& self.admitted() <= COMPUTE_LIMIT
        &&& forall|i: int, j: int|
            0 <= i < j < self.accounts().len() ==> #[trigger] self.accounts()[i].0
                != #[trigger] self.accounts()[j].0
        &&& forall|i: int|
            0 <= i < self.accounts().len() ==> 0 < #[trigger] self.accounts()[i].1
                <= USER_COMPUTE_LIMIT
    }

    pub fn new() -> (g: Self)
        ensures
            g.wf(),
            g.admitted() == 0,
            g.accounts() == Seq::<(Seq<char>, usize)>::empty(),
    {
        let g = ComputeGate { total: 0, users: Vec::new() };
        assert(g.accounts() == Seq::<(Seq<char>, usize)>::empty());
        g
    }

    /// How much compute is admitted right now.
    pub fn compute_admitted(&self) -> (n: usize)
        ensures
            n == self.admitted(),
    {
        self.total
    }

    fn position(&self, user: &str) -> (r: Option<usize>)
        requires
            self.wf(),
        ensures
            match r {
                Some(i) => i < self.accounts().len() && self.accounts()[i as int].0 == user@,
                None => forall|i: int|
                    0 <= i < self.accounts().len() ==> self.accounts()[i].0 != user@,
            },
    {
        let mut i: usize = 0;
        while i < self.users.len()
            invariant
                i <= self.users@.len(),
                self.accounts().len() == self.users@.len(),
                forall|j: int| 0 <= j < i ==> self.accounts()[j].0 != user@,
            decreases self.users@.len() - i,
        {
            if same_text(self.users[i].user.as_str(), user) {
                return Some(i);
            }
            i = i + 1;
        }
        None
    }

    /// Admit one unit of compute for `user`, unless the global limit or the
    /// account's own limit is reached.
    pub fn admit_compute_inner(&mut self, user: &str) -> (r: Result<ComputePermit, RejectionReason>)
        requires
            old(self).wf(),
        ensures
            final(self).wf(),
            match r {
                Ok(p) => {
                    &&& old(self).admitted() < COMPUTE_LIMIT
                    &&& count_of(old(self).accounts(), user@) < USER_COMPUTE_LIMIT
                    &&& final(self).admitted() == old(self).admitted() + 1
                    &&& count_of(final(self).accounts(), user@) == count_of(
                        old(self).accounts(),
                        user@,
                    ) + 1
                    &&& forall|u: Seq<char>|
                        u != user@ ==> count_of(final(self).accounts(), u) == count_of(
                            old(self).accounts(),
                            u,
                        )
                    &&& p.holder() == user@
                    &&& final(self).accounts() == admitted_view(old(self).accounts(), user@)
                },
                Err(reason) => {
                    &&& final(self).admitted() == old(self).admitted()
                    &&& final(self).accounts() == old(self).accounts()
                    &&& (reason == RejectionReason::GlobalLimit <==> old(self).admitted()
                        >= COMPUTE_LIMIT)
                    &&& (reason == RejectionReason::UserLimit ==> count_of(
                        old(self).accounts(),
                        user@,
                    ) >= USER_COMPUTE_LIMIT)
                },
            },
    {
        if self.total >= COMPUTE_LIMIT {
            return Err(RejectionReason::GlobalLimit);
        }
        let ghost before = self.accounts();
        match self.position(user) {
            Some(i) => {
                proof {
                    lemma_count_at(before, i as int);
                }
                if self.users[i].count >= USER_COMPUTE_LIMIT {
                    return Err(RejectionReason::UserLimit);
                }
                let mut u = self.users.remove(i);
                u.count = u.count + 1;
                self.users.insert(i, u);
                proof {
                    lemma_sum_update(before, i as int, (before[i as int].0, (before[i as int].1 + 1) as usize));
                    assert(self.accounts() == before.update(
                        i as int,
                        (before[i as int].0, (before[i as int].1 + 1) as usize),
                    ));
                    lemma_count_at(self.accounts(), i as int);
                    assert forall|v: Seq<char>| v != user@ implies count_of(self.accounts(), v)
                        == count_of(before, v) by {
                        lemma_count_update_other(before, i as int, (before[i as int].0, (before[i as int].1 + 1) as usize), v);
                    }
                }
                self.total = self.total + 1;
            },
            None => {
                proof {
                    lemma_count_absent(before, user@);
                }
                self.users.push(UserCount { user: owned(user), count: 1 });
                proof {
                    assert(self.accounts() == before.push((user@, 1usize)));
                    assert(self.accounts().drop_last() == before);
                    lemma_count_at(self.accounts(), before.len() as int);
                    assert forall|v: Seq<char>| v != user@ implies count_of(self.accounts(), v)
                        == count_of(before, v) by {
                        lemma_count_push_other(before, (user@, 1usize), v);
                    }
                }
                self.total = self.total + 1;
            },
        }
        Ok(ComputePermit { user: owned(user) })
    }

    /// Admission as the API answers it: a refusal is a conflict the caller
    /// can retry.
    pub fn admit_compute(&mut self, user: &str) -> (r: Result<ComputePermit, ApiError>)
        requires
            old(self).wf(),
        ensures
            final(self).wf(),
            r is Ok <==> (old(self).admitted() < COMPUTE_LIMIT && count_of(
                old(self).accounts(),
                user@,
            ) < USER_COMPUTE_LIMIT),
            r matches Ok(p) ==> p.holder() == user@ && final(self).admitted() == old(
                self,
            ).admitted() + 1,
            r is Err ==> final(self).accounts() == old(self).accounts() && final(self).admitted()
                == old(self).admitted() && (r matches Err(ApiError::Conflict(m)) && m@
                == capacity_message()),
    {
        match self.admit_compute_inner(user) {
            Ok(p) => Ok(p),
            Err(_) => Err(
                ApiError::Conflict(
                    owned(
                        "Compute capacity is busy. Wait for an existing run or analysis to finish, or cancel it, then retry.",
                    ),
                ),
            ),
        }
    }

    /// Hand a permit back: its account's count drops by one, and an account
    /// left with none is forgotten.
    pub fn release(&mut self, permit: ComputePermit)
        requires
            old(self).wf(),
            count_of(old(self).accounts(), permit.holder()) > 0,
        ensures
            final(self).wf(),
            final(self).admitted() == old(self).admitted() - 1,
            count_of(final(self).accounts(), permit.holder()) == count_of(
                old(self).accounts(),
                permit.holder(),
            ) - 1,
            forall|u: Seq<char>|
                u != permit.holder() ==> count_of(final(self).accounts(), u) == count_of(
                    old(self).accounts(),
                    u,
                ),
            final(self).accounts() == released(old(self).accounts(), permit.holder()),
    {
        let ghost before = self.accounts();
        let i = match self.position(permit.user.as_str()) {
            Some(i) => i,
            None => {
                proof {
                    lemma_count_absent(before, permit.holder());
                }
                return ;
            },
        };
        proof {
            lemma_count_at(before, i as int);
            lemma_sum_update(before, i as int, (before[i as int].0, (before[i as int].1 - 1) as usize));
            lemma_sum_ge(before, i as int);
        }
        let mut u = self.users.remove(i);
        if u.count > 1 {
            u.count = u.count - 1;
            self.users.insert(i, u);
            proof {
                assert(self.accounts() == before.update(
                    i as int,
                    (before[i as int].0, (before[i as int].1 - 1) as usize),
                ));
                lemma_count_at(self.accounts(), i as int);
                assert forall|v: Seq<char>| v != permit.holder() implies count_of(self.accounts(), v)
                    == count_of(before, v) by {
                    lemma_count_update_other(before, i as int, (before[i as int].0, (before[i as int].1 - 1) as usize), v);
                }
            }
        } else {
            proof {
                assert(self.accounts() == before.remove(i as int));
                lemma_sum_remove(before, i as int);
                lemma_count_remove(before, i as int);
                assert forall|v: Seq<char>| v != permit.holder() implies count_of(self.accounts(), v)
                    == count_of(before, v) by {
                    lemma_count_remove_other(before, i as int, v);
                }
            }
        }
        self.total = self.total - 1;
    }
}

pub open spec fn capacity_message() -> Seq<char> {
    "Compute capacity is busy. Wait for an existing run or analysis to finish, or cancel it, then retry."@
}

proof fn lemma_count_at(v: Seq<(Seq<char>, usize)>, i: int)
    requires
        0 <= i < v.len(),
        forall|a: int, b: int| 0 <= a < b < v.len() ==> #[trigger] v[a].0 != #[trigger] v[b].0,
    ensures
        count_of(v, v[i].0) == v[i].1,
        (choose|k: int| 0 <= k < v.len() && v[k].0 == v[i].0) == i,
{
    let k = choose|k: int| 0 <= k < v.len() && v[k].0 == v[i].0;
    if k != i {
        if k < i {
            assert(v[k].0 != v[i].0);
        } else {
            assert(v[i].0 != v[k].0);
        }
    }
}

proof fn lemma_count_absent(v: Seq<(Seq<char>, usize)>, u: Seq<char>)
    requires
        forall|i: int| 0 <= i < v.len() ==> v[i].0 != u,
    ensures
        count_of(v, u) == 0,
{
}

proof fn lemma_count_update_other(v: Seq<(Seq<char>, usize)>, i: int, x: (Seq<char>, usize), u: Seq<char>)
    requires
        0 <= i < v.len(),
        x.0 == v[i].0,
        u != v[i].0,
        forall|a: int, b: int| 0 <= a < b < v.len() ==> #[trigger] v[a].0 != #[trigger] v[b].0,
    ensures
        count_of(v.update(i, x), u) == count_of(v, u),
{
    let w = v.update(i, x);
    if exists|k: int| 0 <= k < v.len() && v[k].0 == u {
        let k = choose|k: int| 0 <= k < v.len() && v[k].0 == u;
        assert(w[k].0 == u);
        let kw = choose|k: int| 0 <= k < w.len() && w[k].0 == u;
        assert(v[kw].0 == u);
        if kw != k {
            if kw < k {
                assert(v[kw].0 != v[k].0);
            } else {
                assert(v[k].0 != v[kw].0);
            }
        }
    } else {
        assert forall|k: int| 0 <= k < w.len() implies w[k].0 != u by {
            assert(k != i ==> w[k] == v[k]);
        }
    }
}

proof fn lemma_count_push_other(v: Seq<(Seq<char>, usize)>, x: (Seq<char>, usize), u: Seq<char>)
    requires
        u != x.0,
        forall|a: int, b: int| 0 <= a < b < v.len() ==> #[trigger] v[a].0 != #[trigger] v[b].0,
        forall|a: int| 0 <= a < v.len() ==> #[trigger] v[a].0 != x.0,
    ensures
        count_of(v.push(x), u) == count_of(v, u),
{
    let w = v.push(x);
    if exists|k: int| 0 <= k < v.len() && v[k].0 == u {
        let k = choose|k: int| 0 <= k < v.len() && v[k].0 == u;
        assert(w[k].0 == u);
        let kw = choose|k: int| 0 <= k < w.len() && w[k].0 == u;
        assert(kw < v.len());
        assert(v[kw].0 == u);
        if kw != k {
            if kw < k {
                assert(v[kw].0 != v[k].0);
            } else {
                assert(v[k].0 != v[kw].0);
            }
        }
    } else {
        assert forall|k: int| 0 <= k < w.len() implies w[k].0 != u by {
            if k < v.len() {
                assert(w[k] == v[k]);
            }
        }
    }
}

proof fn lemma_count_remove(v: Seq<(Seq<char>, usize)>, i: int)
    requires
        0 <= i < v.len(),
        forall|a: int, b: int| 0 <= a < b < v.len() ==> #[trigger] v[a].0 != #[trigger] v[b].0,
    ensures
        count_of(v.remove(i), v[i].0) == 0,
{
    let w = v.remove(i);
    assert forall|k: int| 0 <= k < w.len() implies w[k].0 != v[i].0 by {
        if k < i {
            assert(w[k] == v[k]);
            assert(v[k].0 != v[i].0);
        } else {
            assert(w[k] == v[k + 1]);
            assert(v[i].0 != v[k + 1].0);
        }
    }
}

proof fn lemma_count_remove_other(v: Seq<(Seq<char>, usize)>, i: int, u: Seq<char>)
    requires
        0 <= i < v.len(),
        u != v[i].0,
        forall|a: int, b: int| 0 <= a < b < v.len() ==> #[trigger] v[a].0 != #[trigger] v[b].0,
    ensures
        count_of(v.remove(i), u) == count_of(v, u),
{
    let w = v.remove(i);
    if exists|k: int| 0 <= k < v.len() && v[k].0 == u {
        let k = choose|k: int| 0 <= k < v.len() && v[k].0 == u;
        assert(k != i);
        let kk = if k < i { k } else { k - 1 };
        assert(w[kk].0 == u);
        let kw = choose|k: int| 0 <= k < w.len() && w[k].0 == u;
        let kv = if kw < i { kw } else { kw + 1 };
        assert(v[kv] == w[kw]);
        if kv != k {
            if kv < k {
                assert(v[kv].0 != v[k].0);
            } else {
                assert(v[k].0 != v[kv].0);
            }
        }
    } else {
        assert forall|k: int| 0 <= k < w.len() implies w[k].0 != u by {
            let kv = if k < i { k } else { k + 1 };
            assert(w[k] == v[kv]);
        }
    }
}

proof fn lemma_sum_update(v: Seq<(Seq<char>, usize)>, i: int, x: (Seq<char>, usize))
    requires
        0 <= i < v.len(),
    ensures
        sum_counts(v.update(i, x)) == sum_counts(v) - v[i].1 + x.1,
    decreases v.len(),
{
    let w = v.update(i, x);
    if i == v.len() - 1 {
        assert(w.drop_last() == v.drop_last());
    } else {
        assert(w.drop_last() == v.drop_last().update(i, x));
        lemma_sum_update(v.drop_last(), i, x);
    }
}

proof fn lemma_sum_ge(v: Seq<(Seq<char>, usize)>, i: int)
    requires
        0 <= i < v.len(),
    ensures
        sum_counts(v) >= v[i].1,
    decreases v.len(),
{
    if i < v.len() - 1 {
        lemma_sum_ge(v.drop_last(), i);
    }
}

proof fn lemma_sum_remove(v: Seq<(Seq<char>, usize)>, i: int)
    requires
        0 <= i < v.len(),
    ensures
        sum_counts(v.remove(i)) == sum_counts(v) - v[i].1,
    decreases v.len(),
{
    let w = v.remove(i);
    if i == v.len() - 1 {
        assert(w == v.drop_last());
    } else {
        assert(w.drop_last() == v.drop_last().remove(i));
        assert(w.last() == v.last());
        lemma_sum_remove(v.drop_last(), i);
    }
}

/// Admitting compute for an account and then releasing that permit restores
/// the accounts' counts exactly.
pub proof fn admit_then_release_restores(before: Seq<(Seq<char>, usize)>, user: Seq<char>)
    requires
        forall|a: int, b: int|
            0 <= a < b < before.len() ==> #[trigger] before[a].0 != #[trigger] before[b].0,
        forall|a: int| 0 <= a < before.len() ==> 0 < #[trigger] before[a].1 <= USER_COMPUTE_LIMIT,
        count_of(before, user) < USER_COMPUTE_LIMIT,
    ensures
        released(admitted_view(before, user), user) == before,
{
    lemma_round_trip(before, user);
}

/// The accounts after one more unit for `user`, as admission writes them.
pub open spec fn admitted_view(v: Seq<(Seq<char>, usize)>, user: Seq<char>) -> Seq<(Seq<char>, usize)> {
    if exists|i: int| 0 <= i < v.len() && v[i].0 == user {
        let i = choose|i: int| 0 <= i < v.len() && v[i].0 == user;
        v.update(i, (user, (v[i].1 + 1) as usize))
    } else {
        v.push((user, 1usize))
    }
}

/// The accounts after `user` hands one unit back, as release writes them.
pub open spec fn released(v: Seq<(Seq<char>, usize)>, user: Seq<char>) -> Seq<(Seq<char>, usize)> {
    if exists|i: int| 0 <= i < v.len() && v[i].0 == user {
        let i = choose|i: int| 0 <= i < v.len() && v[i].0 == user;
        if v[i].1 > 1 {
            v.update(i, (user, (v[i].1 - 1) as usize))
        } else {
            v.remove(i)
        }
    } else {
        v
    }
}

proof fn lemma_round_trip(v: Seq<(Seq<char>, usize)>, user: Seq<char>)
    requires
        forall|a: int, b: int| 0 <= a < b < v.len() ==> #[trigger] v[a].0 != #[trigger] v[b].0,
        forall|a: int| 0 <= a < v.len() ==> 0 < #[trigger] v[a].1 <= USER_COMPUTE_LIMIT,
        count_of(v, user) < USER_COMPUTE_LIMIT,
    ensures
        released(admitted_view(v, user), user) == v,
{
    if exists|i: int| 0 <= i < v.len() && v[i].0 == user {
        let i = choose|i: int| 0 <= i < v.len() && v[i].0 == user;
        let w = v.update(i, (user, (v[i].1 + 1) as usize));
        assert(w[i].0 == user);
        let j = choose|j: int| 0 <= j < w.len() && w[j].0 == user;
        if j != i {
            if j < i {
                assert(v[j].0 != v[i].0);
            } else {
                assert(v[i].0 != v[j].0);
            }
        }
        assert(w.update(i, (user, (w[i].1 - 1) as usize)) == v);
    } else {
        let w = v.push((user, 1usize));
        assert(w[v.len() as int].0 == user);
        let j = choose|j: int| 0 <= j < w.len() && w[j].0 == user;
        if j < v.len() {
            assert(w[j] == v[j]);
        }
        assert(w.remove(v.len() as int) == v);
    }
}

/// A stored subscription grants paid access exactly while it is active,
/// canceling or past due and its paid access runs past `now`: an expired
/// subscription grants nothing, whatever its end of access says, and no
/// subscription grants nothing.
pub proof fn only_live_subscriptions_grant(stored: Option<SubscriptionRow>, now: i64)
    ensures
        (match stored {
            Some(row) => grants_access(row, now),
            None => false,
        }) <==> (stored matches Some(row) && (row.2 == SubscriptionState::Active || row.2
            == SubscriptionState::Canceling || row.2 == SubscriptionState::PastDue) && row.3 > now),
        forall|row: SubscriptionRow| #[trigger] grants_access(row, now) ==> row.2 != SubscriptionState::Expired,
{
}

} // verus!

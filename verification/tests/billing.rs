use finplan_server::billing::{
    check_library_edit, check_owner, check_plan_slot, check_snapshot, entitlements_for,
    goal_seek_admission, is_pro, mutation_guard, reconciled_change, require_editable, require_pro,
    AccessMode, ComputeGate, LibraryKind, MutationGuard, ProviderSnapshot, RejectionReason,
    SubscriptionState, COMPUTE_LIMIT, subscription_grants, subscription_upsert, SubscriptionRecord,
};
use finplan_server::config::{HostedAccessMode, ServerConfig};
use finplan_server::error::ApiError;

fn config(hosted: bool, mode: HostedAccessMode, max_iterations: usize) -> ServerConfig {
    ServerConfig {
        hosted,
        access_mode: mode,
        local_mail_sink: None,
        bind: "127.0.0.1:8080".to_string(),
        database_url: "sqlite://finplan.db".to_string(),
        db_pool_size: 8,
        sim_workers: 2,
        max_iterations,
        secure_cookies: false,
        cors_origins: vec!["http://localhost:3000".to_string()],
    }
}

fn snapshot() -> ProviderSnapshot {
    ProviderSnapshot {
        provider: "fake".to_string(),
        event_id: "first".to_string(),
        user_id: "u".to_string(),
        subscription_id: "sub".to_string(),
        state: SubscriptionState::Active,
        access_until: 4_000_000_000,
        revision: 1,
    }
}

#[test]
fn access_modes_follow_the_deployment() {
    assert_eq!(AccessMode::from_config(&config(false, HostedAccessMode::Subscription, 1)), AccessMode::SelfHosted);
    assert_eq!(AccessMode::from_config(&config(true, HostedAccessMode::Beta, 1)), AccessMode::Beta);
    assert_eq!(AccessMode::from_config(&config(true, HostedAccessMode::Subscription, 1)), AccessMode::Subscription);
}

#[test]
fn free_hosted_account_is_limited() {
    let c = config(true, HostedAccessMode::Subscription, 50_000);
    let free = entitlements_for(&c, false, Some(3), 0);
    assert_eq!(free.access_mode, AccessMode::Subscription);
    assert!(!free.pro);
    assert_eq!(free.saved_plan_limit, Some(1));
    assert_eq!(free.goal_seeks_per_month, Some(1));
    assert_eq!(free.max_iterations, 1_000);
    assert_eq!(free.editable_scenario_id, Some(3));
    assert_eq!(free.annual_price_usd, 80);
    assert_eq!(free.monthly_price_usd, 10);
}

#[test]
fn beta_and_self_hosted_are_full_access() {
    let beta = entitlements_for(&config(true, HostedAccessMode::Beta, 100_000), false, Some(3), 2);
    assert_eq!(beta.access_mode, AccessMode::Beta);
    assert!(beta.pro);
    assert_eq!(beta.max_iterations, 50_000);
    assert_eq!(beta.editable_scenario_id, None);
    assert_eq!(beta.goal_seeks_used_this_month, 2);
    let local = entitlements_for(&config(false, HostedAccessMode::Subscription, 100_000), false, None, 0);
    assert_eq!(local.access_mode, AccessMode::SelfHosted);
    assert!(local.pro);
    assert_eq!(local.max_iterations, 100_000);
    assert!(is_pro(&config(true, HostedAccessMode::Subscription, 1), true));
}

#[test]
fn requirements_refuse_free_accounts() {
    let c = config(true, HostedAccessMode::Subscription, 50_000);
    let free = entitlements_for(&c, false, Some(3), 0);
    assert!(matches!(require_pro(&free), Err(ApiError::Forbidden(_))));
    assert!(require_editable(&free, 3).is_ok());
    match require_editable(&free, 4) {
        Err(ApiError::Forbidden(m)) => assert_eq!(
            m,
            "Free includes one editable plan. Existing plans remain readable and exportable."
        ),
        _ => panic!("expected a refusal"),
    }
    assert!(check_library_edit(&free, false).is_ok());
    assert!(check_library_edit(&free, true).is_err());
    let pro = entitlements_for(&c, true, None, 0);
    assert!(require_pro(&pro).is_ok());
    assert!(require_editable(&pro, 4).is_ok());
    assert!(check_library_edit(&pro, true).is_ok());
}

#[test]
fn goal_seek_needs_a_reservation_when_free() {
    assert!(goal_seek_admission(true, 0).is_ok());
    assert!(goal_seek_admission(false, 1).is_ok());
    assert!(matches!(goal_seek_admission(false, 0), Err(ApiError::Forbidden(_))));
}

#[test]
fn free_plan_slot_is_one() {
    let c = config(true, HostedAccessMode::Subscription, 1);
    assert!(check_plan_slot(&c, false, 0, 1).is_ok());
    assert!(check_plan_slot(&c, false, 1, 1).is_err());
    assert!(check_plan_slot(&c, true, 5, 1).is_ok());
    assert!(check_plan_slot(&config(false, HostedAccessMode::Subscription, 1), false, 5, 1).is_ok());
    assert!(check_plan_slot(&c, false, i64::MAX, i64::MAX).is_err());
}

#[test]
fn snapshots_are_checked_before_anything_is_written() {
    assert!(check_snapshot(&snapshot()).is_ok());
    let mut bad = snapshot();
    bad.revision = -1;
    assert!(matches!(check_snapshot(&bad), Err(ApiError::BadRequest(_))));
    let mut bad = snapshot();
    bad.event_id = String::new();
    assert!(check_snapshot(&bad).is_err());
    assert!(check_owner(None, &snapshot()).is_ok());
    assert!(check_owner(Some("u"), &snapshot()).is_ok());
    match check_owner(Some("v"), &snapshot()) {
        Err(ApiError::Forbidden(m)) => assert_eq!(m, "subscription belongs to another account"),
        _ => panic!("expected a refusal"),
    }
    assert!(reconciled_change(1, 1));
    assert!(!reconciled_change(0, 1));
    assert!(!reconciled_change(1, 0));
    assert_eq!(SubscriptionState::PastDue.as_str(), "past_due");
    assert_eq!(SubscriptionState::Expired.as_str(), "expired");
}

#[test]
fn mutation_routes_are_classified() {
    assert_eq!(mutation_guard(false, "POST", "/api/scenarios/4/accounts"), MutationGuard::Open);
    assert_eq!(mutation_guard(true, "GET", "/api/scenarios/4/accounts"), MutationGuard::Open);
    assert_eq!(mutation_guard(true, "POST", "/api/scenarios/4/accounts"), MutationGuard::Scenario(4));
    assert_eq!(mutation_guard(true, "DELETE", "/api/scenarios/4"), MutationGuard::Open);
    assert_eq!(mutation_guard(true, "PATCH", "/api/scenarios/4"), MutationGuard::Scenario(4));
    assert_eq!(mutation_guard(true, "POST", "/api/scenarios/4/compile"), MutationGuard::Open);
    assert_eq!(mutation_guard(true, "GET", "/api/scenarios/4/archive"), MutationGuard::Open);
    assert_eq!(mutation_guard(true, "POST", "/api/scenarios/4/archive"), MutationGuard::Open);
    assert_eq!(mutation_guard(true, "POST", "/api/scenarios/setup"), MutationGuard::Open);
    assert_eq!(
        mutation_guard(true, "PUT", "/api/tax-configs/9"),
        MutationGuard::Library(LibraryKind::TaxConfigs, 9)
    );
    assert_eq!(
        mutation_guard(true, "PUT", "/api/return-profiles/-2/x"),
        MutationGuard::Library(LibraryKind::ReturnProfiles, -2)
    );
    assert_eq!(mutation_guard(true, "POST", "/api/archives/import"), MutationGuard::Open);
}

#[test]
fn compute_admission_limits_and_release() {
    let mut gate = ComputeGate::new();
    assert_eq!(gate.compute_admitted(), 0);
    let a = gate.admit_compute_inner("alice").ok().unwrap();
    let b = gate.admit_compute_inner("alice").ok().unwrap();
    assert!(matches!(gate.admit_compute_inner("alice"), Err(RejectionReason::UserLimit)));
    assert_eq!(gate.compute_admitted(), 2);
    gate.release(a);
    assert_eq!(gate.compute_admitted(), 1);
    let c = gate.admit_compute_inner("alice").ok().unwrap();
    gate.release(b);
    gate.release(c);
    assert_eq!(gate.compute_admitted(), 0);
}

#[test]
fn compute_admission_has_a_global_limit() {
    let mut gate = ComputeGate::new();
    let mut permits = Vec::new();
    for i in 0..COMPUTE_LIMIT {
        permits.push(gate.admit_compute_inner(&format!("user{i}")).ok().unwrap());
    }
    assert!(matches!(gate.admit_compute_inner("late"), Err(RejectionReason::GlobalLimit)));
    match gate.admit_compute("late") {
        Err(ApiError::Conflict(m)) => assert!(m.starts_with("Compute capacity is busy.")),
        _ => panic!("expected a conflict"),
    }
    for p in permits {
        gate.release(p);
    }
    assert_eq!(gate.compute_admitted(), 0);
    assert!(gate.admit_compute("late").is_ok());
}

/// A small stand-in for the billing tables, driven by the library's decisions
/// in the order the server applies them.
struct Ledger {
    receipts: Vec<(String, String)>,
    rows: Vec<(String, SubscriptionRecord)>,
}

impl Ledger {
    fn reconcile(&mut self, e: &ProviderSnapshot) -> Result<bool, ApiError> {
        check_snapshot(e)?;
        let owner = self
            .rows
            .iter()
            .find(|(_, r)| r.provider == e.provider && r.subscription_id == e.subscription_id)
            .map(|(u, _)| u.clone());
        check_owner(owner.as_deref(), e)?;
        let receipt = (e.provider.clone(), e.event_id.clone());
        let receipt_rows = if self.receipts.contains(&receipt) {
            0
        } else {
            self.receipts.push(receipt);
            1
        };
        if receipt_rows == 0 {
            return Ok(reconciled_change(0, 0));
        }
        let pos = self.rows.iter().position(|(u, _)| *u == e.user_id);
        let stored = pos.map(|i| &self.rows[i].1);
        let changed_rows = match subscription_upsert(stored, e) {
            Some(row) => {
                match pos {
                    Some(i) => self.rows[i].1 = row,
                    None => self.rows.push((e.user_id.clone(), row)),
                }
                1
            }
            None => 0,
        };
        Ok(reconciled_change(receipt_rows, changed_rows))
    }

    fn subscribed(&self, user: &str, now: i64) -> bool {
        subscription_grants(self.rows.iter().find(|(u, _)| u == user).map(|(_, r)| r), now)
    }
}

#[test]
fn subscription_lifecycle_is_idempotent_ordered_and_pinned() {
    let now = 1_700_000_000;
    let mut ledger = Ledger { receipts: Vec::new(), rows: Vec::new() };
    let mut e = snapshot();
    assert!(ledger.reconcile(&e).unwrap());
    assert!(!ledger.reconcile(&e).unwrap());
    assert!(ledger.subscribed("u", now));
    e.event_id = "cancel".to_string();
    e.revision = 2;
    e.state = SubscriptionState::Canceling;
    assert!(ledger.reconcile(&e).unwrap());
    assert!(ledger.subscribed("u", now));
    e.event_id = "late".to_string();
    e.revision = 1;
    assert!(!ledger.reconcile(&e).unwrap());
    e.event_id = "failed".to_string();
    e.revision = 3;
    e.state = SubscriptionState::PastDue;
    assert!(ledger.reconcile(&e).unwrap());
    e.event_id = "expired".to_string();
    e.revision = 4;
    e.access_until = 0;
    e.state = SubscriptionState::Expired;
    assert!(ledger.reconcile(&e).unwrap());
    assert!(!ledger.subscribed("u", now));
    e.user_id = "v".to_string();
    e.event_id = "steal".to_string();
    e.revision = 5;
    assert!(matches!(ledger.reconcile(&e), Err(ApiError::Forbidden(_))));
    assert!(!ledger.subscribed("v", now));
}

#[test]
fn upserts_keep_the_account_subscription() {
    let e = snapshot();
    let first = subscription_upsert(None, &e).unwrap();
    assert_eq!(first.provider, "fake");
    assert_eq!(first.subscription_id, "sub");
    assert_eq!(first.revision, 1);
    let mut other = snapshot();
    other.subscription_id = "another".to_string();
    other.revision = 9;
    assert!(subscription_upsert(Some(&first), &other).is_none());
    let mut newer = snapshot();
    newer.revision = 2;
    newer.state = SubscriptionState::PastDue;
    let second = subscription_upsert(Some(&first), &newer).unwrap();
    assert_eq!(second.revision, 2);
    assert_eq!(second.state, SubscriptionState::PastDue);
    assert!(subscription_upsert(Some(&second), &newer).is_none());
    assert!(subscription_grants(Some(&second), 3_999_999_999));
    assert!(!subscription_grants(Some(&second), 4_000_000_000));
    assert!(!subscription_grants(None, 0));
}

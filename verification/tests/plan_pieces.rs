use finplan_server::parameters::{validate, ParameterValueSpec};
use finplan_server::accounts::{check_account_update, check_payer, repayment_of, ContributionPeriod, RepaymentSpec, TaxStatus};
use finplan_server::analysis_api::{
    check_axes, check_axis_list, check_parameters_available, check_varied, iterations_or_default,
    solve_steps, Analysis, AxisCheck, ConstraintRequest, ParamKind,
};
use finplan_server::config::{HostedAccessMode, ServerConfig};
use finplan_server::contact::{check_contact_rate, prepare_message, ContactTopic};
use finplan_server::db::{copy_complete, integrity_ok, quote_identifier, retains_current_details, schema_difference};
use finplan_server::error::ApiError;
use finplan_server::expressions::context_error;
use finplan_server::idmap::{DenseIds, IdMap};
use finplan_server::jobs::{JobKind, JobStatus, JobView};
use finplan_server::onboarding::{
    check_setup_basics, check_setup_confirmation, review, setup_replay, AssetLabel, EffectLabel, EventLabel,
    PlanOutline,
};
use finplan_server::parameters::{belongs, check_deletable};
use finplan_server::archives::TriggerShape;
use finplan_server::profiles::AssetClass;
use finplan_server::scenarios::{check_new_scenario, check_update_name, default_duration, CreateScenario};
use finplan_server::specs::{
    check_depth, income_str, lot_str, mode_str, read_withdrawal_sources, strategy_from,
    withdrawal_rows, AmountMode, AssetRef, Comparison, EffectParent, IncomeType, Interval,
    LotMethod, OffsetUnit, TriggerParent, WithdrawalSourcesSpec, WithdrawalStrategy,
};
use finplan_server::what_if::unique_name;

#[test]
fn stored_enum_names() {
    assert_eq!(Comparison::GreaterThanOrEqual.as_str(), "GreaterThanOrEqual");
    assert_eq!(OffsetUnit::Months.as_str(), "Months");
    assert_eq!(Interval::BiWeekly.as_str(), "BiWeekly");
    assert_eq!(mode_str(AmountMode::Gross), "Gross");
    assert_eq!(income_str(IncomeType::TaxFree), "TaxFree");
    assert_eq!(lot_str(LotMethod::HighestCost), "HighestCost");
    assert_eq!(TaxStatus::TaxDeferred.as_str(), "TaxDeferred");
    assert_eq!(TaxStatus::from_stored("bogus"), TaxStatus::Taxable);
    assert_eq!(ContributionPeriod::Yearly.as_str(), "Yearly");
    assert_eq!(ContributionPeriod::from_stored(Some("Monthly")), Some(ContributionPeriod::Monthly));
    assert_eq!(ContributionPeriod::from_stored(Some("Weekly")), None);
    assert_eq!(ParamKind::Date.as_str(), "date");
    assert_eq!(ContactTopic::BugReport.as_str(), "bug_report");
    assert_eq!(strategy_from(Some("ProRata")), WithdrawalStrategy::ProRata);
    assert_eq!(strategy_from(Some("???")), WithdrawalStrategy::TaxEfficientEarly);
    assert_eq!(strategy_from(None), WithdrawalStrategy::TaxEfficientEarly);
}

#[test]
fn asset_classes_read_back() {
    assert_eq!(AssetClass::Reit.as_str(), "Reit");
    assert_eq!(AssetClass::parse("UsSmallCap"), Some(AssetClass::UsSmallCap));
    assert_eq!(AssetClass::parse("usequity"), None);
    for c in [AssetClass::UsEquity, AssetClass::Cash, AssetClass::Balanced, AssetClass::Crypto] {
        assert_eq!(AssetClass::parse(c.as_str()), Some(c));
    }
}

#[test]
fn row_placement_columns() {
    assert_eq!(TriggerParent::Event(4).columns(), (Some(4), None, 0));
    assert_eq!(TriggerParent::Node { parent_id: 2, position: 3 }.columns(), (None, Some(2), 3));
    assert_eq!(TriggerParent::Detached.columns(), (None, None, 0));
    assert_eq!(EffectParent::Event { event_id: 1, position: 5 }.columns(), (Some(1), None, None, 5));
    assert_eq!(EffectParent::Branch { parent_id: 7, on_true: false }.columns(), (None, Some(7), Some("on_false"), 0));
    assert!(check_depth(64).is_ok());
    match check_depth(65) {
        Err(ApiError::BadRequest(m)) => assert_eq!(m, "expression nests deeper than 64 levels"),
        _ => panic!("expected a refusal"),
    }
}

#[test]
fn withdrawal_sources_round_trip_through_rows() {
    let specs = vec![
        WithdrawalSourcesSpec::SingleAsset { account_id: 1, asset_id: 2 },
        WithdrawalSourcesSpec::SingleAccount { account_id: 3 },
        WithdrawalSourcesSpec::Strategy { strategy: WithdrawalStrategy::PenaltyAware, exclude_accounts: vec![4, 5] },
        WithdrawalSourcesSpec::Custom { entries: vec![AssetRef { account_id: 6, asset_id: 7 }, AssetRef { account_id: 8, asset_id: 9 }] },
    ];
    for spec in specs {
        let (row, items) = withdrawal_rows(11, &spec).ok().unwrap();
        assert_eq!(row.effect_id, 11);
        let back = read_withdrawal_sources(&row, &items);
        match (&spec, &back) {
            (WithdrawalSourcesSpec::SingleAsset { account_id: a, asset_id: b }, WithdrawalSourcesSpec::SingleAsset { account_id: c, asset_id: d }) => assert_eq!((a, b), (c, d)),
            (WithdrawalSourcesSpec::SingleAccount { account_id: a }, WithdrawalSourcesSpec::SingleAccount { account_id: c }) => assert_eq!(a, c),
            (WithdrawalSourcesSpec::Strategy { strategy: s, exclude_accounts: x }, WithdrawalSourcesSpec::Strategy { strategy: t, exclude_accounts: y }) => {
                assert_eq!(s, t);
                assert_eq!(x, y);
            }
            (WithdrawalSourcesSpec::Custom { entries: x }, WithdrawalSourcesSpec::Custom { entries: y }) => assert_eq!(x, y),
            _ => panic!("mode changed"),
        }
    }
    match withdrawal_rows(1, &WithdrawalSourcesSpec::Custom { entries: vec![] }) {
        Err(ApiError::BadRequest(m)) => assert_eq!(m, "a Custom withdrawal source needs at least one entry"),
        _ => panic!("expected a refusal"),
    }
}

#[test]
fn loan_repayment_and_updates() {
    assert_eq!(repayment_of(Some(3), Some(360)), Some(RepaymentSpec { from_account_id: 3, term_months: 360 }));
    assert_eq!(repayment_of(None, Some(360)), None);
    assert_eq!(repayment_of(Some(3), Some(0)), None);
    assert_eq!(repayment_of(Some(3), Some(-1)), None);
    assert_eq!(repayment_of(Some(3), Some(5_000_000_000)), None);
    assert!(check_payer(Some("Bank")).is_ok());
    assert!(check_payer(Some("Investment")).is_ok());
    assert!(check_payer(Some("Property")).is_err());
    assert!(check_payer(None).is_err());
    assert!(check_account_update(None, "Bank", Some("Bank")).is_ok());
    match check_account_update(Some("  "), "Bank", None) {
        Err(ApiError::BadRequest(m)) => assert_eq!(m, "an account needs a name"),
        _ => panic!("expected a refusal"),
    }
    match check_account_update(Some("Checking"), "Bank", Some("Liability")) {
        Err(ApiError::Conflict(m)) => assert_eq!(m, "cannot change account flavor from Bank to Liability; create a new account instead"),
        _ => panic!("expected a conflict"),
    }
}

#[test]
fn analysis_requests() {
    assert_eq!(iterations_or_default(None, 250).ok(), Some(250));
    assert_eq!(iterations_or_default(Some(25), 250).ok(), Some(25));
    match iterations_or_default(Some(24), 250) {
        Err(ApiError::BadRequest(m)) => assert_eq!(m, "iterations must be between 25 and 2000"),
        _ => panic!("expected a refusal"),
    }
    assert!(iterations_or_default(Some(2001), 250).is_err());
    assert!(check_parameters_available(0).is_err());
    assert!(check_axes(1).is_ok() && check_axes(2).is_ok() && check_axes(0).is_err() && check_axes(3).is_err());
    assert!(check_varied(3).is_ok() && check_varied(4).is_err());
    assert_eq!(solve_steps(1), 2);
    assert_eq!(solve_steps(3), 5);
    assert_eq!(ConstraintRequest::or_default(None), ConstraintRequest::SuccessRate);
    let available = vec!["a".to_string(), "b".to_string()];
    let ok = vec![AxisCheck { parameter_id: "a".into(), range_ok: true, steps: None }];
    assert!(check_axis_list(&available, &ok, 6).is_ok());
    let missing = vec![AxisCheck { parameter_id: "z".into(), range_ok: true, steps: None }];
    assert!(matches!(check_axis_list(&available, &missing, 6), Err(ApiError::NotFound("parameter"))));
    let twice = vec![
        AxisCheck { parameter_id: "a".into(), range_ok: true, steps: None },
        AxisCheck { parameter_id: "a".into(), range_ok: true, steps: None },
    ];
    match check_axis_list(&available, &twice, 6) {
        Err(ApiError::BadRequest(m)) => assert_eq!(m, "a is named twice; each axis needs its own parameter"),
        _ => panic!("expected a refusal"),
    }
    let range = vec![AxisCheck { parameter_id: "b".into(), range_ok: false, steps: None }];
    match check_axis_list(&available, &range, 6) {
        Err(ApiError::BadRequest(m)) => assert_eq!(m, "b needs a range with max above min"),
        _ => panic!("expected a refusal"),
    }
    let steps = vec![AxisCheck { parameter_id: "b".into(), range_ok: true, steps: Some(13) }];
    match check_axis_list(&available, &steps, 6) {
        Err(ApiError::BadRequest(m)) => assert_eq!(m, "steps must be between 2 and 12"),
        _ => panic!("expected a refusal"),
    }
    let view = JobView { id: 3, scenario_id: 4, kind: JobKind::WhatIf, status: JobStatus::Running, completed: 5, total: 10, error: None, elapsed_ms: Some(7) };
    let a = Analysis::from_view(view);
    assert_eq!((a.kind.as_str(), a.status.as_str(), a.completed, a.total, a.elapsed_ms), ("what-if", "running", 5, 10, Some(7)));
}

#[test]
fn contact_messages() {
    assert_eq!(prepare_message("  hello ").ok(), Some("hello"));
    assert!(matches!(prepare_message("   "), Err(ApiError::BadRequest(_))));
    assert!(prepare_message(&"é".repeat(2000)).is_ok());
    match prepare_message(&"é".repeat(2001)) {
        Err(ApiError::BadRequest(m)) => assert_eq!(m, "message cannot exceed 2000 characters"),
        _ => panic!("expected a refusal"),
    }
    assert!(check_contact_rate(4).is_ok());
    let limited = check_contact_rate(5).err().unwrap();
    assert_eq!(limited.retry_after_seconds, 3600);
    assert_eq!(limited.message, "Too many messages. Try again in an hour.");
}

#[test]
fn rebuild_helpers() {
    assert_eq!(quote_identifier("runs"), "\"runs\"");
    assert_eq!(quote_identifier("we\"ird"), "\"we\"\"ird\"");
    assert!(retains_current_details("run_ledger"));
    assert!(retains_current_details("run_cash_flows"));
    assert!(!retains_current_details("runs"));
    assert!(copy_complete(3, 3));
    assert!(!copy_complete(2, 3));
    assert!(integrity_ok("ok", 0));
    assert!(!integrity_ok("ok", 1));
    assert!(!integrity_ok("corrupt", 0));
    let t = vec!["a".to_string(), "b".to_string(), "c".to_string()];
    let s = vec!["b".to_string(), "d".to_string()];
    let (missing, extra) = schema_difference(&t, &s).unwrap();
    assert_eq!(missing, vec!["a", "c"]);
    assert_eq!(extra, vec!["d"]);
    assert!(schema_difference(&t, &t).is_none());
}

#[test]
fn dense_ids_are_gapless_and_stable() {
    let mut d = DenseIds::new();
    assert_eq!(d.intern(40, "accounts").ok(), Some(0));
    assert_eq!(d.intern(17, "accounts").ok(), Some(1));
    assert_eq!(d.intern(40, "accounts").ok(), Some(0));
    assert_eq!(d.db_id(1), Some(17));
    assert_eq!(d.db_id(2), None);
    let mut map = IdMap::new();
    map.events.intern(9, "events").ok().unwrap();
    assert_eq!(map.event(9).ok(), Some(0));
    match map.account(-5) {
        Err(ApiError::Unprocessable(m)) => assert_eq!(m, "account -5 is not part of this scenario"),
        _ => panic!("expected a miss"),
    }
    match map.profile(3) {
        Err(ApiError::Unprocessable(m)) => assert_eq!(m, "return profile 3 is not available"),
        _ => panic!("expected a miss"),
    }
}

#[test]
fn what_if_names_are_unique() {
    let mut taken = vec!["Windfall $40k at 58".to_string()];
    assert_eq!(unique_name(&mut taken, "Windfall $40k at 58".into()), "Windfall $40k at 58 (2)");
    assert_eq!(unique_name(&mut taken, "Windfall $40k at 58".into()), "Windfall $40k at 58 (3)");
    assert_eq!(unique_name(&mut taken, "Other".into()), "Other");
    assert_eq!(taken.len(), 4);
}

#[test]
fn preflight_review_lists_findings() {
    let outline = PlanOutline {
        compiler_message: None,
        assets: vec![AssetLabel { id: 1, name: "Gold".into(), has_return_profile: false }],
        events: vec![
            EventLabel { id: 2, name: "Salary".into(), enabled: true, effect_count: 1 },
            EventLabel { id: 3, name: "Empty".into(), enabled: true, effect_count: 0 },
        ],
        effects: vec![EffectLabel { event_id: Some(2), kind: "Income".into() }],
        start_date: "2026-01-15".into(),
        birth_date: Some("1980-06-01".into()),
        duration_years: 40,
        has_inflation: false,
        tax_profile: Some("US 2026".into()),
    };
    let report = review(&outline);
    assert!(report.can_run);
    let codes: Vec<&str> = report.issues.iter().map(|i| i.code.as_str()).collect();
    assert_eq!(codes, vec!["unmapped_asset", "empty_event", "missing_spending", "funding_intent", "horizon", "no_inflation", "assumptions"]);
    assert_eq!(report.issues[0].record_id, Some(1));
    assert_eq!(report.issues[1].message, "Empty is enabled but has no effects.");
    assert_eq!(report.issues[4].message, "The modeled horizon ends around age 85. Confirm that it covers your household's intended planning lifetime.");
    assert!(report.issues[6].message.starts_with("Review tax assumptions: US 2026."));
    let broken = PlanOutline { compiler_message: Some("bad plan".into()), effects: vec![EffectLabel { event_id: Some(2), kind: "Expense".into() }, EffectLabel { event_id: Some(2), kind: "Sweep".into() }], birth_date: None, has_inflation: true, tax_profile: None, ..outline };
    let report = review(&broken);
    assert!(!report.can_run);
    let codes: Vec<&str> = report.issues.iter().map(|i| i.code.as_str()).collect();
    assert_eq!(codes, vec!["invalid_plan", "unmapped_asset", "empty_event", "missing_birth", "assumptions"]);
    assert!(report.issues[4].message.contains("no tax profile"));
}

#[test]
fn scenario_checks() {
    assert_eq!(default_duration(), 30);
    let body = CreateScenario { name: " Plan ".into(), description: None, start_date: "2026-01-01".into(), birth_date: Some("1980-02-29".into()), duration_years: 30, inflation_profile_id: None, tax_config_id: None };
    let f = check_new_scenario(&body).ok().unwrap();
    assert_eq!((f.name.as_str(), f.start_date.as_str(), f.birth_date.as_deref()), ("Plan", "2026-01-01", Some("1980-02-29")));
    let bad = CreateScenario { start_date: "2026-13-01".into(), ..body };
    match check_new_scenario(&bad) {
        Err(ApiError::BadRequest(m)) => assert!(m.starts_with("invalid start_date '2026-13-01': ")),
        _ => panic!("expected a refusal"),
    }
    assert!(check_update_name(Some("  ")).is_err());
    assert!(check_update_name(None).is_ok());
}

#[test]
fn parameter_usage_walks_up_the_tree() {
    let t = vec![
        TriggerShape { key: 1, id: 1, event_id: Some(100), parent_id: None, start_id: Some(3), end_id: None },
        TriggerShape { key: 2, id: 2, event_id: None, parent_id: Some(1), start_id: None, end_id: None },
        TriggerShape { key: 3, id: 3, event_id: None, parent_id: None, start_id: None, end_id: None },
        TriggerShape { key: 4, id: 4, event_id: None, parent_id: None, start_id: None, end_id: None },
    ];
    assert!(belongs(&t, 2, 100));
    assert!(belongs(&t, 3, 100));
    assert!(!belongs(&t, 4, 100));
    assert!(!belongs(&t, 2, 200));
    assert!(check_deletable(false).is_ok());
    assert!(matches!(check_deletable(true), Err(ApiError::Conflict(_))));
}

#[test]
fn context_errors_are_recognized() {
    assert!(context_error("there is no single account to draw from"));
    assert!(context_error("parameter unavailable here"));
    assert!(!context_error("syntax error at 3"));
}

#[test]
fn hosted_configuration_rules() {
    let mut c = ServerConfig {
        hosted: true,
        access_mode: HostedAccessMode::Subscription,
        local_mail_sink: None,
        bind: "0.0.0.0:8080".into(),
        database_url: "sqlite://finplan.db".into(),
        db_pool_size: 8,
        sim_workers: 2,
        max_iterations: 50_000,
        secure_cookies: true,
        cors_origins: vec!["https://app.example".into()],
    };
    assert!(c.validate().is_ok());
    for bad in ["http://app.example", "https://app.example/", "https://user@app.example", "https://*.example", "https://app.example/x", "https://app.example?q=1", " https://app.example", "not a uri"] {
        c.cors_origins = vec![bad.into()];
        assert_eq!(
            c.validate(),
            Err("hosted mode requires secure cookies, explicit HTTPS origins, and no local mail sink".to_string()),
            "{bad}"
        );
    }
    c.cors_origins = vec![];
    assert!(c.validate().is_err());
    c.hosted = false;
    c.sim_workers = 0;
    assert_eq!(c.validate(), Err("simulation workers must be positive".to_string()));
}

fn bad_request_text(r: Result<(), ApiError>) -> String {
    match r {
        Err(ApiError::BadRequest(m)) => m,
        _ => panic!("expected a bad request"),
    }
}

#[test]
fn guided_setup_checks_run_in_order() {
    assert!(check_setup_basics("request-1", "Plan", "2026-01-01", "1980-06-15", 40, 65).is_ok());
    assert_eq!(
        bad_request_text(check_setup_basics("request-1", "Plan", "2026-13-01", "not a date", 40, 65)),
        "Invalid start date"
    );
    assert_eq!(
        bad_request_text(check_setup_basics("request-1", "Plan", "2026-01-01", "1980-02-30", 40, 65)),
        "Enter a valid birth date"
    );
    let review_text = "Review the plan name, dates and retirement age";
    assert_eq!(bad_request_text(check_setup_basics("request-1", "  ", "2026-01-01", "1980-06-15", 40, 65)), review_text);
    assert_eq!(bad_request_text(check_setup_basics("short", "Plan", "2026-01-01", "1980-06-15", 40, 65)), review_text);
    assert_eq!(bad_request_text(check_setup_basics(&"x".repeat(129), "Plan", "2026-01-01", "1980-06-15", 40, 65)), review_text);
    assert!(check_setup_basics(&"x".repeat(128), "Plan", "2026-01-01", "1980-06-15", 40, 65).is_ok());
    assert_eq!(bad_request_text(check_setup_basics("request-1", "Plan", "2026-01-01", "1980-06-15", 0, 65)), review_text);
    assert_eq!(bad_request_text(check_setup_basics("request-1", "Plan", "2026-01-01", "1980-06-15", 121, 65)), review_text);
    assert_eq!(bad_request_text(check_setup_basics("request-1", "Plan", "2026-01-01", "2026-01-02", 40, 65)), review_text);
    assert!(check_setup_basics("request-1", "Plan", "2026-01-01", "2026-01-01", 40, 65).is_ok());
    assert_eq!(bad_request_text(check_setup_basics("request-1", "Plan", "2026-01-01", "1980-06-15", 40, 121)), review_text);
    assert!(check_setup_basics("request-1", "Plan", "2026-01-01", "1980-06-15", 40, 120).is_ok());
}

#[test]
fn guided_setup_needs_confirmed_assumptions() {
    assert!(check_setup_confirmation(true, "Taxable").is_ok());
    assert!(check_setup_confirmation(true, "TaxDeferred").is_ok());
    assert!(check_setup_confirmation(true, "TaxFree").is_ok());
    let text = "Confirm assumptions and select an investment account type";
    assert_eq!(bad_request_text(check_setup_confirmation(false, "Taxable")), text);
    assert_eq!(bad_request_text(check_setup_confirmation(true, "Roth")), text);
}

fn setup_amounts() -> finplan_server::onboarding::SetupAmounts {
    finplan_server::onboarding::SetupAmounts {
        cash_bits: 20_000.0f64.to_bits(),
        retirement_401k_bits: 150_000.0f64.to_bits(),
        investments_bits: 0.0f64.to_bits(),
        annual_income_bits: 95_000.0f64.to_bits(),
        contribution_percent_bits: 6.0f64.to_bits(),
        annual_spending_bits: 60_000.0f64.to_bits(),
        retirement_spending_bits: 55_000.0f64.to_bits(),
        stock_percent_bits: 70.0f64.to_bits(),
        fund_from_investments: true,
    }
}

fn setup_refusal(a: &finplan_server::onboarding::SetupAmounts) -> String {
    match finplan_server::onboarding::check_setup_amounts(a) {
        Err(finplan_server::error::ApiError::BadRequest(m)) => m,
        other => panic!("expected a refusal, got {other:?}"),
    }
}

#[test]
fn setup_numbers_are_checked_in_order() {
    assert!(finplan_server::onboarding::check_setup_amounts(&setup_amounts()).is_ok());
    let range = "Amounts must be finite and nonnegative; percentage fields must be 0\u{2013}100%";
    let mut a = setup_amounts();
    a.cash_bits = (-1.0f64).to_bits();
    assert_eq!(setup_refusal(&a), range);
    let mut a = setup_amounts();
    a.annual_spending_bits = f64::NAN.to_bits();
    assert_eq!(setup_refusal(&a), range);
    let mut a = setup_amounts();
    a.stock_percent_bits = 100.5f64.to_bits();
    assert_eq!(setup_refusal(&a), range);
    let mut a = setup_amounts();
    a.stock_percent_bits = 100.0f64.to_bits();
    a.cash_bits = (-0.0f64).to_bits();
    assert!(finplan_server::onboarding::check_setup_amounts(&a).is_ok());
    let mut a = setup_amounts();
    a.annual_income_bits = 0.0f64.to_bits();
    assert_eq!(setup_refusal(&a), "A 401(k) contribution requires positive annual salary");
    let mut a = setup_amounts();
    a.retirement_401k_bits = 0.0f64.to_bits();
    a.contribution_percent_bits = 0.0f64.to_bits();
    assert_eq!(setup_refusal(&a), "Investment funding requires a 401(k) or another investment account");
    a.fund_from_investments = false;
    assert!(finplan_server::onboarding::check_setup_amounts(&a).is_ok());
}

fn flavor_refusal(f: &finplan_server::accounts::FlavorSpec) -> String {
    match f.validate() {
        Err(finplan_server::error::ApiError::BadRequest(m)) => m,
        other => panic!("expected a refusal, got {other:?}"),
    }
}

#[test]
fn account_flavors_are_checked() {
    let investment = |limit: Option<f64>, period| finplan_server::accounts::FlavorSpec::Investment {
        tax_status: finplan_server::accounts::TaxStatus::TaxDeferred,
        cash_value_bits: 0,
        cash_return_profile_id: 1,
        contribution_limit_bits: limit.map(f64::to_bits),
        contribution_period: period,
    };
    let annual = Some(finplan_server::accounts::ContributionPeriod::Yearly);
    assert!(investment(Some(23_000.0), annual).validate().is_ok());
    assert!(investment(None, None).validate().is_ok());
    assert_eq!(
        flavor_refusal(&investment(Some(23_000.0), None)),
        "contribution_limit and contribution_period must be set together"
    );
    assert_eq!(investment(None, annual).name(), "Investment");
    let loan = |principal: f64, term: Option<u32>| finplan_server::accounts::FlavorSpec::Liability {
        principal_bits: principal.to_bits(),
        interest_rate_bits: 0.05f64.to_bits(),
        repayment: term.map(|t| finplan_server::accounts::RepaymentSpec { from_account_id: 2, term_months: t }),
    };
    assert!(loan(300_000.0, Some(360)).validate().is_ok());
    assert!(loan(-0.0, None).validate().is_ok());
    assert_eq!(flavor_refusal(&loan(-5.0, Some(360))), "liability principal is stored as a positive amount owed");
    assert_eq!(flavor_refusal(&loan(5.0, Some(0))), "a repayment term must be at least one month");
    assert_eq!(loan(1.0, None).name(), "Liability");
}

#[test]
fn parameter_values_are_checked_and_stored() {
    let money = ParameterValueSpec::Money { value_bits: 1_500.0f64.to_bits() };
    assert_eq!(validate("  Salary  ", &money).unwrap(), "Salary");
    assert_eq!(money.fields(), ("Money", Some(1_500.0f64.to_bits()), None, None, None));
    let bad_rate = ParameterValueSpec::Rate { value_bits: f64::INFINITY.to_bits() };
    assert!(matches!(validate("Growth", &bad_rate),
        Err(finplan_server::error::ApiError::BadRequest(m)) if m == "parameter must be finite"));
    assert!(matches!(validate("   ", &money),
        Err(finplan_server::error::ApiError::BadRequest(m)) if m == "parameter name must be 1\u{2013}120 characters"));
    let date = ParameterValueSpec::Date { value: "2031-02-30".to_string() };
    assert!(matches!(date.validate(),
        Err(finplan_server::error::ApiError::BadRequest(m)) if m == "invalid parameter date"));
    let age = ParameterValueSpec::Age { years: 67, months: 12 };
    assert!(matches!(age.validate(),
        Err(finplan_server::error::ApiError::BadRequest(m)) if m == "invalid calendar age"));
    assert_eq!(ParameterValueSpec::Age { years: 67, months: 6 }.fields(), ("Age", None, None, Some(67), Some(6)));
    let row = finplan_server::rows::ParameterRow {
        id: 1,
        name: "Retire".to_string(),
        kind: "Age".to_string(),
        number_bits: None,
        date_value: None,
        age_years: Some(65),
        age_months: Some(3),
    };
    assert!(matches!(ParameterValueSpec::try_from(&row), Ok(ParameterValueSpec::Age { years: 65, months: 3 })));
    let broken = finplan_server::rows::ParameterRow { kind: "Money".to_string(), ..row };
    assert!(matches!(ParameterValueSpec::try_from(&broken),
        Err(finplan_server::error::ApiError::Internal(m)) if m == "missing parameter value"));
}

#[test]
fn a_replayed_setup_gives_back_its_plan() {
    assert_eq!(setup_replay(&None, "{\"a\":1}").ok(), Some(None));
    let saved = Some(("{\"a\":1}".to_string(), 42));
    assert_eq!(setup_replay(&saved, "{\"a\":1}").ok(), Some(Some(42)));
    match setup_replay(&saved, "{\"a\":2}") {
        Err(ApiError::BadRequest(m)) => {
            assert_eq!(m, "This setup was already saved with different inputs; start a new setup")
        }
        _ => panic!("expected a refusal"),
    }
}

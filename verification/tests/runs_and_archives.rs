use finplan_server::archives::{
    check_archive_dates, check_plan_dates,
    check_archive, check_dag, check_import_request, check_import_slots, check_replay,
    import_name, EffectChild, EffectShape, GraphShape, LinkRow, TriggerShape,
};
use finplan_server::error::ApiError;
use finplan_server::runs::{
    cancel_action, check_destroy, check_ledger_available, check_results_available, default_batch, default_iterations,
    default_parallel, ledger_page, ledger_years, plan_run, year_of, yes, CancelAction,
};

#[test]
fn run_defaults() {
    assert_eq!(default_iterations(), 1000);
    assert_eq!(default_batch(), 100);
    assert_eq!(default_parallel(), 4);
    assert!(yes());
}

#[test]
fn run_requests_are_checked_and_clamped() {
    match plan_run(0, false, 100, 4, 50_000) {
        Err(ApiError::BadRequest(m)) => assert_eq!(m, "iterations must be at least 1"),
        _ => panic!("expected a refusal"),
    }
    match plan_run(60_000, false, 100, 4, 50_000) {
        Err(ApiError::BadRequest(m)) => assert_eq!(m, "iterations must not exceed 50000"),
        _ => panic!("expected a refusal"),
    }
    let fixed = plan_run(2_000, false, 0, -3, 50_000).ok().unwrap();
    assert_eq!(fixed.iterations, 2_000);
    assert_eq!(fixed.ceiling, None);
    assert_eq!(fixed.batch_size, 1);
    assert_eq!(fixed.parallel_batches, 1);
    let converging = plan_run(20_000, true, 100, 4, 50_000).ok().unwrap();
    assert_eq!(converging.ceiling, Some(10_000));
    assert_eq!(converging.iterations, 10_000);
    let small_cap = plan_run(800, true, 100, 4, 1_000).ok().unwrap();
    assert_eq!(small_cap.ceiling, Some(1_000));
    assert_eq!(small_cap.iterations, 800);
}

#[test]
fn run_state_decisions() {
    assert_eq!(cancel_action("running").ok(), Some(CancelAction::SignalWorker));
    assert_eq!(cancel_action("queued").ok(), Some(CancelAction::MarkCanceled));
    match cancel_action("succeeded") {
        Err(ApiError::Conflict(m)) => assert_eq!(m, "run has already finished with status 'succeeded'"),
        _ => panic!("expected a conflict"),
    }
    assert!(check_destroy("failed").is_ok());
    assert!(matches!(check_destroy("running"), Err(ApiError::Conflict(_))));
    assert!(check_ledger_available("succeeded").is_ok());
    match check_ledger_available("failed") {
        Err(ApiError::Conflict(m)) => assert_eq!(m, "run is 'failed'; the ledger is only available once it has succeeded"),
        _ => panic!("expected a conflict"),
    }
    assert!(check_results_available("succeeded").is_ok());
    match check_results_available("running") {
        Err(ApiError::Conflict(m)) => assert_eq!(m, "run is 'running'; results are only available once it has succeeded"),
        _ => panic!("expected a conflict"),
    }
}

#[test]
fn ledger_pages_are_bounded() {
    assert_eq!(ledger_page(None, None, None).ok(), Some((500, 0)));
    assert_eq!(ledger_page(Some("cash"), Some(0), Some(-5)).ok(), Some((1, 0)));
    assert_eq!(ledger_page(Some("tax"), Some(10_000), Some(20)).ok(), Some((500, 20)));
    assert!(matches!(ledger_page(Some("other"), None, None), Err(ApiError::BadRequest(_))));
}

#[test]
fn year_of_reads_the_first_four_characters() {
    assert_eq!(year_of("2031-04-01"), 2031);
    assert_eq!(year_of("20"), 0);
    assert_eq!(year_of("abcd-01-01"), 0);
    assert_eq!(year_of("éééé"), 0);
    assert_eq!(year_of("-123"), -123);
}

#[test]
fn ledger_rolls_up_by_year_and_tags_first_events() {
    let rows = vec![
        (2030, "cash".to_string(), 3),
        (2030, "tax".to_string(), 2),
        (2031, "asset".to_string(), 1),
        (2031, "event".to_string(), 4),
        (2031, "other".to_string(), 5),
        (2033, "cash".to_string(), 1),
    ];
    let firsts = vec![
        (2031, "Retire".to_string()),
        (2031, "Pension".to_string()),
        (2030, "Salary".to_string()),
        (2040, "Never seen".to_string()),
    ];
    let years = ledger_years(&rows, &firsts);
    assert_eq!(years.len(), 3);
    assert_eq!((years[0].year, years[0].cash, years[0].tax, years[0].total), (2030, 3, 2, 5));
    assert_eq!((years[1].year, years[1].asset, years[1].event, years[1].total), (2031, 1, 4, 10));
    assert_eq!(years[0].tag.as_deref(), Some("Salary"));
    assert_eq!(years[1].tag.as_deref(), Some("Retire"));
    assert_eq!(years[2].tag, None);
    assert_eq!(years[2].total, 1);
}

#[test]
fn archive_headers_and_requests() {
    assert!(check_archive("finplan.inputs", 2, 1).is_ok());
    assert!(matches!(check_archive("finplan.inputs", 1, 1), Err(ApiError::BadRequest(_))));
    assert!(matches!(check_archive("other", 2, 1), Err(ApiError::BadRequest(_))));
    match check_archive("finplan.inputs", 2, 0) {
        Err(ApiError::BadRequest(m)) => assert_eq!(m, "An import must contain 1–100 plans."),
        _ => panic!("expected a refusal"),
    }
    assert!(check_archive("finplan.inputs", 2, 101).is_err());
    assert!(check_import_request("req-1", "Imported ").is_ok());
    assert!(check_import_request("", "x").is_err());
    assert!(check_import_request(&"r".repeat(101), "x").is_err());
    assert!(check_import_request("r", &"p".repeat(81)).is_err());
    assert!(check_replay("abc", "abc").is_ok());
    assert!(matches!(check_replay("abc", "abd"), Err(ApiError::Conflict(_))));
    assert!(check_import_slots(None, 10, 10).is_ok());
    assert!(check_import_slots(Some(1), 0, 1).is_ok());
    assert!(matches!(check_import_slots(Some(1), 1, 1), Err(ApiError::Forbidden(_))));
    assert_eq!(import_name("Copy of ", "Plan"), "Copy of Plan");
}

#[test]
fn reference_graphs_must_be_shallow_and_acyclic() {
    assert!(check_dag(&[(1, vec![2]), (2, vec![])]).is_ok());
    match check_dag(&[(1, vec![3])]) {
        Err(ApiError::BadRequest(m)) => assert_eq!(m, "Archive contains a missing reference."),
        _ => panic!("expected a refusal"),
    }
    assert!(check_dag(&[(1, vec![2]), (2, vec![1])]).is_err());
    assert!(check_dag(&[(1, vec![1])]).is_err());
    // A chain of 32 references is allowed; 33 is not.
    let chain = |n: i64| (0..=n).map(|i| (i, if i < n { vec![i + 1] } else { vec![] })).collect::<Vec<_>>();
    assert!(check_dag(&chain(32)).is_ok());
    assert!(check_dag(&chain(33)).is_err());
}

fn shape() -> GraphShape {
    GraphShape {
        duration_years: 30,
        accounts: vec![1, 2],
        assets: vec![5],
        events: vec![10],
        distributions: vec![LinkRow { key: 3, id: 3, left: None, right: None }],
        return_profiles: vec![LinkRow { key: 4, id: 4, left: None, right: None }],
        amounts: vec![LinkRow { key: 6, id: 6, left: None, right: None }],
        effects: vec![
            EffectShape { key: 20, id: 20, event_id: Some(10), parent_id: None, parent_slot: None },
            EffectShape { key: 21, id: 21, event_id: None, parent_id: Some(20), parent_slot: Some("on_true".into()) },
        ],
        triggers: vec![
            TriggerShape { key: 30, id: 30, event_id: Some(10), parent_id: None, start_id: None, end_id: None },
            TriggerShape { key: 31, id: 31, event_id: None, parent_id: Some(30), start_id: None, end_id: None },
        ],
        trigger_children: vec![(30, vec![31])],
        event_trigger: vec![(10, 30)],
        event_effects: vec![(10, vec![20])],
        effect_children: vec![EffectChild { parent: 20, slot: "on_true".into(), child: 21 }],
        other_rows: 0,
    }
}

#[test]
fn consistent_graph_is_restorable() {
    assert!(shape().validate_shape().is_ok());
}

#[test]
fn graph_faults_are_refused() {
    let mut g = shape();
    g.duration_years = 121;
    match g.validate_shape() {
        Err(ApiError::BadRequest(m)) => assert_eq!(m, "Archive exceeds the plan size or horizon limit."),
        _ => panic!("expected a refusal"),
    }
    let mut g = shape();
    g.other_rows = 10_000;
    assert!(g.validate_shape().is_err());
    let mut g = shape();
    g.accounts = vec![1, 1];
    match g.validate_shape() {
        Err(ApiError::BadRequest(m)) => assert_eq!(m, "Archive contains inconsistent record identifiers or tree ownership."),
        _ => panic!("expected a refusal"),
    }
    let mut g = shape();
    g.triggers[1].parent_id = None;
    assert!(g.validate_shape().is_err());
    let mut g = shape();
    g.effect_children[0].slot = "sideways".into();
    assert!(g.validate_shape().is_err());
    let mut g = shape();
    g.distributions = vec![
        LinkRow { key: 3, id: 3, left: Some(7), right: None },
        LinkRow { key: 7, id: 7, left: None, right: Some(3) },
    ];
    assert!(g.validate_shape().is_err());
}

#[test]
fn plan_dates_must_read_as_civil_dates() {
    assert!(check_plan_dates("2026-01-01", None).is_ok());
    assert!(check_plan_dates("2026-01-01", Some("1970-06-15")).is_ok());
    let jiff_error = |t: &str| t.parse::<jiff::civil::Date>().unwrap_err().to_string();
    match check_plan_dates("2026-02-30", Some("nonsense")) {
        Err(ApiError::Unprocessable(m)) => {
            assert_eq!(m, format!("invalid start_date '2026-02-30': {}", jiff_error("2026-02-30")))
        }
        _ => panic!("expected the start date to be refused"),
    }
    match check_plan_dates("2026-01-01", Some("nonsense")) {
        Err(ApiError::Unprocessable(m)) => {
            assert_eq!(m, format!("invalid birth_date 'nonsense': {}", jiff_error("nonsense")))
        }
        _ => panic!("expected the birth date to be refused"),
    }
    match check_archive_dates("soon", None) {
        Err(ApiError::BadRequest(m)) => assert_eq!(
            m,
            format!("Archive plan cannot be compiled: invalid start_date 'soon': {}", jiff_error("soon"))
        ),
        _ => panic!("expected a bad request"),
    }
}

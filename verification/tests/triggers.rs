use finplan_server::error::ApiError;
use finplan_server::rows::TriggerRow;
use finplan_server::specs::{Comparison, Interval, OffsetUnit, TriggerParent};
use finplan_server::triggers::{read_trigger, trigger_rows, TriggerSpec};

fn describe(t: &TriggerSpec) -> String {
    match t {
        TriggerSpec::DateParameter { parameter_id } => format!("date_param({parameter_id})"),
        TriggerSpec::AgeParameter { parameter_id } => format!("age_param({parameter_id})"),
        TriggerSpec::Date { on_date } => format!("date({on_date})"),
        TriggerSpec::Age { years, months } => format!("age({years},{months:?})"),
        TriggerSpec::RelativeToEvent { event_id, unit, value } => {
            format!("relative({event_id},{},{value})", unit.as_str())
        }
        TriggerSpec::AccountBalance { account_id, comparison, threshold_bits } => format!(
            "account({account_id},{},{})",
            comparison.as_str(),
            f64::from_bits(*threshold_bits)
        ),
        TriggerSpec::AssetBalance { account_id, asset_id, comparison, threshold_bits } => format!(
            "asset({account_id},{asset_id},{},{})",
            comparison.as_str(),
            f64::from_bits(*threshold_bits)
        ),
        TriggerSpec::NetWorth { comparison, threshold_bits } => {
            format!("net_worth({},{})", comparison.as_str(), f64::from_bits(*threshold_bits))
        }
        TriggerSpec::And { children } => {
            format!("and[{}]", children.iter().map(describe).collect::<Vec<_>>().join(","))
        }
        TriggerSpec::Or { children } => {
            format!("or[{}]", children.iter().map(describe).collect::<Vec<_>>().join(","))
        }
        TriggerSpec::Repeating { interval, start_condition, end_condition, max_occurrences } => format!(
            "repeat({},{},{},{max_occurrences:?})",
            interval.as_str(),
            start_condition.as_deref().map(describe).unwrap_or_default(),
            end_condition.as_deref().map(describe).unwrap_or_default()
        ),
        TriggerSpec::Manual => "manual".to_string(),
    }
}

fn params() -> Vec<(i64, String)> {
    vec![(3, "Date".to_string()), (4, "Age".to_string()), (5, "Money".to_string())]
}

fn paycheck() -> TriggerSpec {
    TriggerSpec::Repeating {
        interval: Interval::BiWeekly,
        start_condition: Some(Box::new(TriggerSpec::Date { on_date: "2026-01-05".to_string() })),
        end_condition: Some(Box::new(TriggerSpec::Or {
            children: vec![
                TriggerSpec::AgeParameter { parameter_id: 4 },
                TriggerSpec::And {
                    children: vec![
                        TriggerSpec::NetWorth {
                            comparison: Comparison::GreaterThanOrEqual,
                            threshold_bits: 2_000_000f64.to_bits(),
                        },
                        TriggerSpec::Age { years: 55, months: Some(6) },
                    ],
                },
                TriggerSpec::RelativeToEvent { event_id: 9, unit: OffsetUnit::Years, value: -2 },
            ],
        })),
        max_occurrences: Some(400),
    }
}

#[test]
fn triggers_are_written_in_order() {
    let (rows, off) = trigger_rows(&paycheck(), TriggerParent::Event(77), 0, 100, &params()).unwrap();
    let kinds: Vec<&str> = rows.iter().map(|r| r.kind.as_str()).collect();
    assert_eq!(kinds, ["Date", "Or", "Age", "And", "NetWorth", "Age", "RelativeToEvent", "Repeating"]);
    assert_eq!(off, 7);
    let ids: Vec<i64> = rows.iter().map(|r| r.id).collect();
    assert_eq!(ids, [100, 101, 102, 103, 104, 105, 106, 107]);
    let repeating = &rows[7];
    assert_eq!(repeating.event_id, Some(77));
    assert_eq!((repeating.start_trigger_id, repeating.end_trigger_id), (Some(100), Some(101)));
    assert_eq!(repeating.interval.as_deref(), Some("BiWeekly"));
    assert_eq!(repeating.max_occurrences, Some(400));
    // Conditions are detached.
    assert_eq!(rows[0].on_date.as_deref(), Some("2026-01-05"));
    assert_eq!((rows[0].event_id, rows[0].parent_id), (None, None));
    // Children hang under their group at their positions.
    assert_eq!((rows[2].parent_id, rows[2].position), (Some(101), 0));
    assert_eq!((rows[3].parent_id, rows[3].position), (Some(101), 1));
    assert_eq!((rows[6].parent_id, rows[6].position), (Some(101), 2));
    assert_eq!((rows[4].parent_id, rows[5].parent_id), (Some(103), Some(103)));
    // A parameter trigger stores a placeholder beside the parameter.
    assert_eq!((rows[2].age_years, rows[2].parameter_id), (Some(0), Some(4)));
    assert_eq!(rows[4].threshold_bits, Some(2_000_000f64.to_bits()));
    assert_eq!(rows[4].comparison.as_deref(), Some("GreaterThanOrEqual"));
    assert_eq!((rows[6].offset_unit.as_deref(), rows[6].offset_value), (Some("Years"), Some(-2)));
}

#[test]
fn triggers_read_back_as_written() {
    let spec = paycheck();
    let (rows, off) = trigger_rows(&spec, TriggerParent::Event(1), 0, 1, &params()).unwrap();
    let back = read_trigger(&rows, rows[off].id, 0).unwrap();
    assert_eq!(
        describe(&back),
        "repeat(BiWeekly,date(2026-01-05),or[age_param(4),and[net_worth(GreaterThanOrEqual,2000000),age(55,Some(6))],relative(9,Years,-2)],Some(400))"
    );
    let date_param = TriggerSpec::DateParameter { parameter_id: 3 };
    let (rows, off) = trigger_rows(&date_param, TriggerParent::Event(1), 0, 0, &params()).unwrap();
    assert_eq!(rows[off].on_date.as_deref(), Some("2000-01-01"));
    assert_eq!(describe(&read_trigger(&rows, 0, 0).unwrap()), "date_param(3)");
}

fn bad_request(r: Result<(Vec<TriggerRow>, usize), ApiError>) -> String {
    match r {
        Err(ApiError::BadRequest(m)) => m,
        _ => panic!("expected a refusal"),
    }
}

#[test]
fn malformed_triggers_are_refused() {
    let empty = TriggerSpec::And { children: Vec::new() };
    assert_eq!(
        bad_request(trigger_rows(&empty, TriggerParent::Event(1), 0, 0, &params())),
        "And/Or triggers need at least one child condition"
    );
    let wrong = TriggerSpec::DateParameter { parameter_id: 5 };
    assert_eq!(
        bad_request(trigger_rows(&wrong, TriggerParent::Event(1), 0, 0, &params())),
        "Date trigger requires a Date parameter from this scenario"
    );
    let missing = TriggerSpec::AgeParameter { parameter_id: 42 };
    assert_eq!(
        bad_request(trigger_rows(&missing, TriggerParent::Event(1), 0, 0, &params())),
        "Age trigger requires a Age parameter from this scenario"
    );
    let bad_date = TriggerSpec::Or { children: vec![TriggerSpec::Date { on_date: "someday".to_string() }] };
    let m = bad_request(trigger_rows(&bad_date, TriggerParent::Event(1), 0, 0, &params()));
    assert!(m.starts_with("invalid date 'someday': "), "{m}");
    let mut deep = TriggerSpec::Manual;
    for _ in 0..65 {
        deep = TriggerSpec::And { children: vec![deep] };
    }
    assert_eq!(
        bad_request(trigger_rows(&deep, TriggerParent::Event(1), 0, 0, &params())),
        "expression nests deeper than 64 levels"
    );
}

fn row(id: i64, kind: &str, parent_id: Option<i64>) -> TriggerRow {
    TriggerRow {
        id,
        event_id: None,
        kind: kind.to_string(),
        on_date: None,
        age_years: None,
        age_months: None,
        ref_event_id: None,
        offset_unit: None,
        offset_value: None,
        account_id: None,
        asset_id: None,
        comparison: None,
        threshold_bits: None,
        interval: None,
        start_trigger_id: None,
        end_trigger_id: None,
        max_occurrences: None,
        parent_id,
        position: 0,
        parameter_id: None,
    }
}

#[test]
fn stored_triggers_read_with_defaults() {
    match read_trigger(&[], 1, 0) {
        Err(ApiError::NotFound(what)) => assert_eq!(what, "trigger"),
        _ => panic!("expected a missing row"),
    }
    let mut looped = row(1, "Repeating", None);
    looped.start_trigger_id = Some(1);
    match read_trigger(&[looped], 1, 0) {
        Err(ApiError::Internal(m)) => assert_eq!(m, "trigger graph is cyclic"),
        _ => panic!("expected a loop"),
    }
    let rows = vec![
        row(1, "Or", None),
        row(2, "AccountBalance", Some(1)),
        row(3, "Mystery", Some(1)),
        row(4, "RelativeToEvent", Some(1)),
        row(5, "Repeating", Some(1)),
    ];
    assert_eq!(
        describe(&read_trigger(&rows, 1, 0).unwrap()),
        "or[account(0,GreaterThanOrEqual,0),manual,relative(0,Months,0),repeat(Monthly,,,None)]"
    );
}

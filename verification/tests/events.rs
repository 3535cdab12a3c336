use finplan_server::amounts::AmountSpec;
use finplan_server::effects::{effect_list_rows, EffectRows, EffectSpec};
use finplan_server::error::ApiError;
use finplan_server::events::read_event;
use finplan_server::rows::{EventRow, TriggerRow};
use finplan_server::specs::TriggerParent;
use finplan_server::triggers::{trigger_rows, TriggerSpec};

fn fixed(v: f64) -> AmountSpec {
    AmountSpec::Fixed { value_bits: v.to_bits() }
}

fn event_row(id: i64, name: &str) -> EventRow {
    EventRow { id, name: name.to_string(), description: Some("yearly".to_string()), fires_once: 0, enabled: 1, sort_order: 3 }
}

/// The rows an editor writes for event 7: its trigger from row 10, and two
/// effects, the second a coin flip between an expense and nothing.
fn written() -> (Vec<EventRow>, Vec<TriggerRow>, EffectRows) {
    let trigger = TriggerSpec::Age { years: 65, months: None };
    let (triggers, _) = trigger_rows(&trigger, TriggerParent::Event(7), 0, 10, &[]).unwrap();
    let first = EffectSpec::Expense { from_account_id: 4, amount: fixed(250.0) };
    let second = EffectSpec::Random {
        probability_bits: 0.5f64.to_bits(),
        on_true: Box::new(EffectSpec::Expense { from_account_id: 5, amount: fixed(40.0) }),
        on_false: None,
    };
    let all = effect_list_rows(&[first, second], 7, 100, 500).unwrap();
    (vec![event_row(6, "other"), event_row(7, "Retire")], triggers, all)
}

#[test]
fn an_event_reads_back_with_its_trigger_and_effects() {
    let (events, triggers, rows) = written();
    let e = read_event(&events, &triggers, &rows, 7).unwrap();
    assert_eq!(e.id, 7);
    assert_eq!(e.name, "Retire");
    assert_eq!(e.description.as_deref(), Some("yearly"));
    assert!(!e.fires_once);
    assert!(e.enabled);
    assert_eq!(e.sort_order, 3);
    assert!(matches!(e.trigger, TriggerSpec::Age { years: 65, months: None }));
    // Only the event's own effects, not the expense inside the coin flip.
    assert_eq!(e.effects.len(), 2);
    assert!(matches!(&e.effects[0], EffectSpec::Expense { from_account_id: 4, .. }));
    match &e.effects[1] {
        EffectSpec::Random { on_true, on_false, .. } => {
            assert!(matches!(**on_true, EffectSpec::Expense { from_account_id: 5, .. }));
            assert!(on_false.is_none());
        }
        _ => panic!("expected the coin flip"),
    }
}

#[test]
fn an_event_without_effects_reads_back_empty() {
    let (events, triggers, _) = written();
    let none = EffectRows { effects: vec![], amounts: vec![], sources: vec![], items: vec![] };
    assert!(read_event(&events, &triggers, &none, 7).unwrap().effects.is_empty());
}

#[test]
fn unreadable_events_are_reported() {
    let (events, triggers, rows) = written();
    assert!(matches!(read_event(&events, &triggers, &rows, 8), Err(ApiError::NotFound("event"))));
    match read_event(&events, &[], &rows, 7) {
        Err(ApiError::Internal(m)) => assert_eq!(m, "event has no trigger"),
        other => panic!("unexpected {:?}", other.err()),
    }
    // An effect whose amount row is gone.
    let mut broken = rows;
    broken.amounts.clear();
    match read_event(&events, &triggers, &broken, 7) {
        Err(ApiError::NotFound(what)) => assert_eq!(what, "transfer amount"),
        other => panic!("unexpected {:?}", other.err()),
    }
}

#[test]
fn an_event_s_effects_are_written_in_order() {
    let (_, _, rows) = written();
    // Effect ids run on from 100: the expense, the coin flip, its branch.
    let ids: Vec<i64> = rows.effects.iter().map(|r| r.id).collect();
    assert_eq!(ids, vec![100, 101, 102]);
    let positions: Vec<(Option<i64>, i64)> = rows.effects.iter().map(|r| (r.event_id, r.position)).collect();
    assert_eq!(positions, vec![(Some(7), 0), (Some(7), 1), (None, 0)]);
    assert_eq!(rows.effects[2].parent_id, Some(101));
    // Amount ids run on from 500, one per moved amount.
    let amounts: Vec<i64> = rows.amounts.iter().map(|a| a.id).collect();
    assert_eq!(amounts, vec![500, 501]);
    assert_eq!(rows.effects[0].amount_id, Some(500));
    assert_eq!(rows.effects[2].amount_id, Some(501));
}

#[test]
fn a_bad_effect_stops_the_list() {
    let good = EffectSpec::Expense { from_account_id: 4, amount: fixed(250.0) };
    let bad = EffectSpec::MarketShock { drop_bits: 1.5f64.to_bits() };
    match effect_list_rows(&[good, bad], 7, 1, 1) {
        Err(ApiError::BadRequest(m)) => assert_eq!(m, "a market shock's drop is a fraction between 0 and 1"),
        other => panic!("unexpected {:?}", other.err()),
    }
    let none: Vec<EffectSpec> = vec![];
    assert!(effect_list_rows(&none, 7, 1, 1).unwrap().effects.is_empty());
}

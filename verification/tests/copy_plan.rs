use finplan_server::cloning::Remap;
use finplan_server::copy_plan::{plan_copy, CopyStep, GraphRows};
use finplan_server::error::ApiError;
use finplan_server::rows::{EffectRow, TransferAmountRow, TriggerRow, WithdrawalItemRow, WithdrawalSourceRow};

fn map(pairs: &[(i64, i64)]) -> Remap {
    let mut m = Remap::new();
    for (a, b) in pairs {
        m.insert(*a, *b);
    }
    m
}

fn trigger(id: i64, event_id: Option<i64>, kind: &str, parent_id: Option<i64>, position: i64) -> TriggerRow {
    TriggerRow {
        id,
        event_id,
        kind: kind.to_string(),
        on_date: None,
        age_years: Some(65),
        age_months: None,
        ref_event_id: None,
        offset_unit: None,
        offset_value: None,
        account_id: None,
        asset_id: None,
        comparison: None,
        threshold_bits: None,
        interval: None,
        start_trigger_id: None,
        end_trigger_id: None,
        max_occurrences: None,
        parent_id,
        position,
        parameter_id: None,
    }
}

fn amount(id: i64, kind: &str, left: Option<i64>, right: Option<i64>, account_id: Option<i64>) -> TransferAmountRow {
    TransferAmountRow {
        id,
        kind: kind.to_string(),
        value_bits: Some(1.0f64.to_bits()),
        account_id,
        asset_id: None,
        left_id: left,
        right_id: right,
        expression_source: None,
    }
}

fn effect(id: i64, event_id: Option<i64>, parent: Option<(i64, &str)>, kind: &str, amount_id: Option<i64>) -> EffectRow {
    EffectRow {
        id,
        event_id,
        parent_id: parent.map(|p| p.0),
        parent_slot: parent.map(|p| p.1.to_string()),
        position: 0,
        kind: kind.to_string(),
        from_account_id: Some(1),
        to_account_id: None,
        asset_id: None,
        amount_id,
        target_event_id: None,
        amount_mode: None,
        income_type: None,
        lot_method: None,
        probability_bits: None,
        units_bits: None,
        sell_to_cover: None,
        loan_account_id: None,
        down_payment_amount_id: None,
        term_months: None,
        selling_cost_rate_bits: None,
        gain_exclusion_bits: None,
        shock_drop_bits: None,
    }
}

fn graph() -> GraphRows {
    let mut start = trigger(31, None, "Age", None, 0);
    start.age_years = Some(60);
    let mut repeating = trigger(32, None, "Repeating", Some(30), 1);
    repeating.start_trigger_id = Some(31);
    GraphRows {
        triggers: vec![
            trigger(30, Some(5), "And", None, 0),
            start,
            trigger(33, None, "Age", Some(30), 0),
            repeating,
        ],
        amounts: vec![
            amount(40, "Fixed", None, None, None),
            amount(41, "AccountCashBalance", None, None, Some(1)),
            amount(42, "Min", Some(40), Some(41), None),
            amount(43, "Fixed", None, None, None),
        ],
        effects: vec![
            effect(50, Some(5), None, "Random", None),
            effect(51, None, Some((50, "on_true")), "Expense", Some(42)),
            effect(52, None, Some((50, "on_false")), "Sweep", Some(43)),
        ],
        sources: vec![WithdrawalSourceRow {
            effect_id: 52,
            mode: "Custom".to_string(),
            account_id: None,
            asset_id: None,
            strategy: None,
        }],
        items: vec![
            WithdrawalItemRow { effect_id: 52, role: "custom".to_string(), position: 0, account_id: 1, asset_id: Some(2) },
            WithdrawalItemRow { effect_id: 99, role: "custom".to_string(), position: 0, account_id: 1, asset_id: None },
        ],
    }
}

fn kind(s: &CopyStep) -> String {
    match s {
        CopyStep::Amount { row, left, right } => format!("amount {} {:?} {:?}", row.kind, left, right),
        CopyStep::Trigger { row, start, end, parent } => {
            format!("trigger {} {:?} {:?} {:?}", row.kind, start, end, parent)
        }
        CopyStep::Effect { row, parent, amount, .. } => format!("effect {} {:?} {:?}", row.kind, parent, amount),
        CopyStep::Source { row, effect } => format!("source {} {}", row.mode, effect),
        CopyStep::Item { row, effect } => format!("item {} {}", row.account_id, effect),
    }
}

#[test]
fn a_copy_is_planned_parents_and_operands_first() {
    let plan = plan_copy(
        &graph(),
        &[5],
        &map(&[(5, 500)]),
        &map(&[(1, 100)]),
        &map(&[(2, 200)]),
        &map(&[]),
    )
    .unwrap();
    let steps: Vec<String> = plan.steps.iter().map(kind).collect();
    assert_eq!(
        steps,
        [
            "trigger And None None None",
            "trigger Age None None Some(0)",
            "trigger Age None None None",
            "trigger Repeating Some(2) None Some(0)",
            "effect Random None None",
            "amount Fixed None None",
            "amount AccountCashBalance None None",
            "amount Min Some(5) Some(6)",
            "effect Expense Some(4) Some(7)",
            "amount Fixed None None",
            "effect Sweep Some(4) Some(9)",
            "source Custom 10",
            "item 100 10",
        ]
    );
    match &plan.steps[0] {
        CopyStep::Trigger { row, .. } => assert_eq!(row.event_id, Some(500)),
        _ => panic!("expected the root trigger first"),
    }
    match &plan.steps[6] {
        CopyStep::Amount { row, .. } => assert_eq!(row.account_id, Some(100)),
        _ => panic!("expected the balance amount"),
    }
    match &plan.steps[12] {
        CopyStep::Item { row, .. } => assert_eq!((row.account_id, row.asset_id), (100, Some(200))),
        _ => panic!("expected the item"),
    }
}

fn internal(r: Result<impl Sized, ApiError>) -> String {
    match r {
        Err(ApiError::Internal(m)) => m,
        Err(e) => panic!("unexpected error {e:?}"),
        Ok(_) => panic!("expected an error"),
    }
}

#[test]
fn broken_rows_stop_the_copy() {
    let events = map(&[(5, 500)]);
    let accounts = map(&[(1, 100)]);
    let assets = map(&[(2, 200)]);
    let none = map(&[]);
    let mut g = graph();
    g.amounts.remove(3);
    assert_eq!(internal(plan_copy(&g, &[5], &events, &accounts, &assets, &none)), "missing transfer amount 43");
    let g = graph();
    assert_eq!(
        internal(plan_copy(&g, &[5], &events, &none, &assets, &none)),
        "dangling account reference 1 while cloning"
    );
    let mut g = graph();
    g.effects[1].parent_id = Some(77);
    g.effects.push(effect(53, Some(5), Some((77, "on_true")), "Expense", None));
    assert_eq!(
        internal(plan_copy(&g, &[5], &events, &accounts, &assets, &none)),
        "effect parent was not copied before its child"
    );
    let mut g = graph();
    g.amounts[0].left_id = Some(42);
    assert_eq!(internal(plan_copy(&g, &[5], &events, &accounts, &assets, &none)), "transfer amount graph is cyclic");
}

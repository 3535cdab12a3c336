use finplan_server::cloning::{
    copy_amount_row, copy_effect_row, copy_item_row, copy_source_row, copy_trigger_row, remap, Remap,
};
use finplan_server::error::ApiError;
use finplan_server::rows::{EffectRow, TransferAmountRow, TriggerRow, WithdrawalItemRow, WithdrawalSourceRow};

fn map(pairs: &[(i64, i64)]) -> Remap {
    let mut m = Remap::new();
    for (a, b) in pairs {
        m.insert(*a, *b);
    }
    m
}

fn internal(r: Result<impl Sized, ApiError>) -> String {
    match r {
        Err(ApiError::Internal(m)) => m,
        Err(e) => panic!("unexpected error {e:?}"),
        Ok(_) => panic!("expected a dangling reference"),
    }
}

#[test]
fn remap_finds_the_latest_copy() {
    let m = map(&[(1, 10), (2, 20), (1, 11)]);
    assert_eq!(m.get(1), Some(11));
    assert_eq!(m.get(2), Some(20));
    assert_eq!(m.get(3), None);
    assert_eq!(remap(&m, 2, "asset").unwrap(), 20);
    assert_eq!(internal(remap(&m, -7, "asset")), "dangling asset reference -7 while cloning");
}

#[test]
fn a_copied_amount_points_at_copies() {
    let row = TransferAmountRow {
        id: 5,
        kind: "AssetBalance".to_string(),
        value_bits: Some(2.5f64.to_bits()),
        account_id: Some(1),
        asset_id: Some(2),
        left_id: Some(3),
        right_id: None,
        expression_source: Some("x".to_string()),
    };
    let accounts = map(&[(1, 101)]);
    let assets = map(&[(2, 202)]);
    let copy = copy_amount_row(&row, 55, Some(33), None, &accounts, &assets).unwrap();
    assert_eq!((copy.id, copy.account_id, copy.asset_id), (55, Some(101), Some(202)));
    assert_eq!((copy.left_id, copy.right_id), (Some(33), None));
    assert_eq!(copy.kind, "AssetBalance");
    assert_eq!(copy.value_bits, Some(2.5f64.to_bits()));
    assert_eq!(copy.expression_source.as_deref(), Some("x"));
    let none = map(&[]);
    assert_eq!(
        internal(copy_amount_row(&row, 55, None, None, &none, &none)),
        "dangling account reference 1 while cloning"
    );
    assert_eq!(
        internal(copy_amount_row(&row, 55, None, None, &accounts, &none)),
        "dangling asset reference 2 while cloning"
    );
}

fn trigger() -> TriggerRow {
    TriggerRow {
        id: 9,
        event_id: Some(1),
        kind: "RelativeToEvent".to_string(),
        on_date: None,
        age_years: None,
        age_months: None,
        ref_event_id: Some(2),
        offset_unit: Some("Months".to_string()),
        offset_value: Some(6),
        account_id: None,
        asset_id: None,
        comparison: None,
        threshold_bits: None,
        interval: None,
        start_trigger_id: Some(7),
        end_trigger_id: None,
        max_occurrences: Some(3),
        parent_id: Some(8),
        position: 2,
        parameter_id: Some(4),
    }
}

#[test]
fn a_copied_trigger_points_at_copies() {
    let events = map(&[(1, 11), (2, 12)]);
    let parameters = map(&[(4, 14)]);
    let none = map(&[]);
    let copy = copy_trigger_row(&trigger(), 99, Some(77), None, Some(88), &events, &none, &none, &parameters)
        .unwrap();
    assert_eq!((copy.id, copy.event_id, copy.ref_event_id), (99, Some(11), Some(12)));
    assert_eq!((copy.start_trigger_id, copy.parent_id, copy.parameter_id), (Some(77), Some(88), Some(14)));
    assert_eq!((copy.offset_value, copy.max_occurrences, copy.position), (Some(6), Some(3), 2));
    assert_eq!(copy.offset_unit.as_deref(), Some("Months"));
    let only_first = map(&[(1, 11)]);
    assert_eq!(
        internal(copy_trigger_row(&trigger(), 99, None, None, None, &only_first, &none, &none, &parameters)),
        "dangling event reference 2 while cloning"
    );
    assert_eq!(
        internal(copy_trigger_row(&trigger(), 99, None, None, None, &events, &none, &none, &none)),
        "dangling parameter reference 4 while cloning"
    );
}

fn effect() -> EffectRow {
    EffectRow {
        id: 30,
        event_id: None,
        parent_id: Some(29),
        parent_slot: Some("on_true".to_string()),
        position: 0,
        kind: "MarketShock".to_string(),
        from_account_id: Some(1),
        to_account_id: Some(2),
        asset_id: None,
        amount_id: Some(5),
        target_event_id: None,
        amount_mode: Some("Net".to_string()),
        income_type: None,
        lot_method: None,
        probability_bits: None,
        units_bits: None,
        sell_to_cover: None,
        loan_account_id: Some(3),
        down_payment_amount_id: None,
        term_months: Some(360),
        selling_cost_rate_bits: None,
        gain_exclusion_bits: None,
        shock_drop_bits: Some(0.3f64.to_bits()),
    }
}

#[test]
fn a_copied_effect_points_at_copies() {
    let accounts = map(&[(1, 101), (2, 102), (3, 103)]);
    let none = map(&[]);
    let copy = copy_effect_row(&effect(), 300, Some(290), Some(50), None, &accounts, &none, &none).unwrap();
    assert_eq!((copy.id, copy.parent_id, copy.amount_id), (300, Some(290), Some(50)));
    assert_eq!((copy.from_account_id, copy.to_account_id, copy.loan_account_id), (Some(101), Some(102), Some(103)));
    assert_eq!(copy.parent_slot.as_deref(), Some("on_true"));
    assert_eq!(copy.term_months, Some(360));
    assert_eq!(copy.shock_drop_bits, Some(0.3f64.to_bits()));
    let no_loan = map(&[(1, 101), (2, 102)]);
    assert_eq!(
        internal(copy_effect_row(&effect(), 300, None, None, None, &no_loan, &none, &none)),
        "dangling account reference 3 while cloning"
    );
}

#[test]
fn copied_withdrawal_rows_hang_on_the_copied_effect() {
    let accounts = map(&[(1, 101)]);
    let assets = map(&[(2, 202)]);
    let source = WithdrawalSourceRow {
        effect_id: 30,
        mode: "SingleAsset".to_string(),
        account_id: Some(1),
        asset_id: Some(2),
        strategy: None,
    };
    let s = copy_source_row(&source, 300, &accounts, &assets).unwrap();
    assert_eq!((s.effect_id, s.account_id, s.asset_id), (300, Some(101), Some(202)));
    assert_eq!(s.mode, "SingleAsset");
    let item = WithdrawalItemRow { effect_id: 30, role: "custom".to_string(), position: 1, account_id: 1, asset_id: Some(2) };
    let i = copy_item_row(&item, 300, &accounts, &assets).unwrap();
    assert_eq!((i.effect_id, i.position, i.account_id, i.asset_id), (300, 1, 101, Some(202)));
    let none = map(&[]);
    assert_eq!(internal(copy_item_row(&item, 300, &none, &assets)), "dangling account reference 1 while cloning");
    assert_eq!(internal(copy_source_row(&source, 300, &accounts, &none)), "dangling asset reference 2 while cloning");
}

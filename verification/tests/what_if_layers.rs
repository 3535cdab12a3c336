use finplan_server::error::ApiError;
use finplan_server::rows::AccountRow;
use finplan_server::what_if::{check_shape, check_stack, resolve, ResolvedLayer, WhatIfEntry, WhatIfLayer, WhatIfStack};

fn account(id: i64, flavor: &str, sort_order: i64) -> AccountRow {
    AccountRow { id, name: format!("a{id}"), description: None, flavor: flavor.to_string(), sort_order }
}

fn refused(r: Result<impl Sized, ApiError>) -> String {
    match r {
        Err(ApiError::BadRequest(m)) => m,
        Err(e) => panic!("unexpected error {e:?}"),
        Ok(_) => panic!("expected a refusal"),
    }
}

fn one_off(amount: f64, account_id: Option<i64>) -> WhatIfLayer {
    WhatIfLayer::OneOff { age: 70, amount_bits: amount.to_bits(), account_id }
}

#[test]
fn layer_shapes_are_checked() {
    let p = |v: f64| WhatIfLayer::Parameter { parameter_id: 1, value_bits: v.to_bits() };
    assert!(check_shape(&p(62.5)).is_ok());
    assert_eq!(refused(check_shape(&p(f64::INFINITY))), "a parameter override must be finite");
    assert_eq!(refused(check_shape(&p(f64::NAN))), "a parameter override must be finite");
    let shock = |d: f64| WhatIfLayer::MarketShock { age: 66, drop_bits: d.to_bits() };
    assert!(check_shape(&shock(0.35)).is_ok());
    for d in [0.0, 1.0, -0.1, f64::NAN] {
        assert_eq!(refused(check_shape(&shock(d))), "a market shock's drop is a fraction between 0 and 1");
    }
    assert!(check_shape(&one_off(-5000.0, None)).is_ok());
    for a in [0.0, -0.0, f64::NEG_INFINITY] {
        assert_eq!(refused(check_shape(&one_off(a, None))), "a one-off needs a non-zero amount");
    }
}

#[test]
fn layers_are_matched_to_the_plan() {
    let accounts = vec![account(4, "Investment", 0), account(7, "Bank", 2), account(3, "Bank", 1), account(9, "Property", 0)];
    let layers = vec![
        WhatIfLayer::Parameter { parameter_id: 12, value_bits: 65.0f64.to_bits() },
        WhatIfLayer::MarketShock { age: 70, drop_bits: 0.3f64.to_bits() },
        one_off(10_000.0, None),
        one_off(-2_000.0, Some(4)),
    ];
    let typed = vec![None, None, None, None];
    let r = resolve(&layers, true, &accounts, &[11, 12], &typed).unwrap();
    assert_eq!(
        r,
        vec![
            ResolvedLayer::Parameter { index: 1, value_bits: 65.0f64.to_bits() },
            ResolvedLayer::MarketShock { age: 70, drop_bits: 0.3f64.to_bits() },
            ResolvedLayer::OneOff { age: 70, amount_bits: 10_000.0f64.to_bits(), account_id: 3 },
            ResolvedLayer::OneOff { age: 70, amount_bits: (-2_000.0f64).to_bits(), account_id: 4 },
        ]
    );
}

#[test]
fn layers_that_do_not_fit_the_plan_are_refused() {
    let accounts = vec![account(4, "Investment", 0), account(9, "Property", 0)];
    let none = vec![None];
    let p = WhatIfLayer::Parameter { parameter_id: -3, value_bits: 1.0f64.to_bits() };
    assert_eq!(refused(resolve(&[p], true, &accounts, &[1], &none)), "parameter -3 is not in this plan");
    let typed = vec![Some("Retirement age has an invalid age bound".to_string())];
    let p = WhatIfLayer::Parameter { parameter_id: 1, value_bits: 1.0f64.to_bits() };
    assert_eq!(refused(resolve(&[p], true, &accounts, &[1], &typed)), "Retirement age has an invalid age bound");
    let shock = WhatIfLayer::MarketShock { age: 70, drop_bits: 0.3f64.to_bits() };
    assert_eq!(
        refused(resolve(&[shock], false, &accounts, &[], &none)),
        "age-based what-if layers need the scenario's birth date; set it on the plan first"
    );
    assert_eq!(refused(resolve(&[one_off(5.0, Some(8))], true, &accounts, &[], &none)), "account 8 is not in this plan");
    assert_eq!(
        refused(resolve(&[one_off(5.0, Some(9))], true, &accounts, &[], &none)),
        "a one-off moves cash, so it needs a cash or investment account"
    );
    assert_eq!(
        refused(resolve(&[one_off(5.0, None)], true, &accounts, &[], &none)),
        "this plan has no cash account for a one-off; name an account"
    );
    let many = vec![shock; 9];
    assert_eq!(refused(resolve(&many, true, &accounts, &[], &[])), "a what-if applies at most 8 layers");
    // The first layer that fails is the one reported.
    let bad_first = vec![one_off(0.0, None), WhatIfLayer::Parameter { parameter_id: 99, value_bits: 0 }];
    assert_eq!(refused(resolve(&bad_first, true, &accounts, &[], &[])), "a one-off needs a non-zero amount");
}

#[test]
fn stored_stacks_are_checked() {
    let entry = |id: &str, layer: WhatIfLayer| WhatIfEntry { id: id.to_string(), enabled: true, layer };
    let ok = one_off(100.0, None);
    assert!(check_stack(&WhatIfStack { entries: vec![] }).is_ok());
    let full = || -> Vec<WhatIfEntry> { (0..16).map(|k| entry(&format!("row-{k}"), ok)).collect() };
    assert!(check_stack(&WhatIfStack { entries: full() }).is_ok());
    let mut over = full();
    over.push(entry("row-16", ok));
    assert_eq!(refused(check_stack(&WhatIfStack { entries: over })), "a what-if stack holds at most 16 layers");
    let id_msg = "each layer needs an id of 1\u{2013}64 characters";
    assert_eq!(refused(check_stack(&WhatIfStack { entries: vec![entry("", ok)] })), id_msg);
    assert!(check_stack(&WhatIfStack { entries: vec![entry(&"k".repeat(64), ok)] }).is_ok());
    assert_eq!(refused(check_stack(&WhatIfStack { entries: vec![entry(&"k".repeat(65), ok)] })), id_msg);
    // Keys are measured in bytes: 32 two-byte letters fit, 33 do not.
    assert!(check_stack(&WhatIfStack { entries: vec![entry(&"\u{e9}".repeat(32), ok)] }).is_ok());
    assert_eq!(refused(check_stack(&WhatIfStack { entries: vec![entry(&"\u{e9}".repeat(33), ok)] })), id_msg);
    // The first faulty row decides, key before layer.
    let bad_shape = one_off(0.0, None);
    let rows = vec![entry("a", ok), entry("b", bad_shape), entry("", ok)];
    assert_eq!(refused(check_stack(&WhatIfStack { entries: rows })), "a one-off needs a non-zero amount");
    assert_eq!(refused(check_stack(&WhatIfStack { entries: vec![entry("", bad_shape)] })), id_msg);
}

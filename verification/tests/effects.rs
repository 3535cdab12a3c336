use finplan_server::amounts::AmountSpec;
use finplan_server::effects::{effect_rows, read_effect, EffectRows, EffectSpec, FinancingSpec};
use finplan_server::error::ApiError;
use finplan_server::expressions::{effect_amount, effect_availability};
use finplan_server::specs::{
    AmountMode, AssetRef, EffectParent, IncomeType, LotMethod, WithdrawalSourcesSpec, WithdrawalStrategy,
};

fn fixed(v: f64) -> AmountSpec {
    AmountSpec::Fixed { value_bits: v.to_bits() }
}

fn describe(e: &EffectSpec) -> String {
    match e {
        EffectSpec::Income { to_account_id, amount_mode, income_type, .. } => {
            format!("income({to_account_id},{amount_mode:?},{income_type:?})")
        }
        EffectSpec::Expense { from_account_id, .. } => format!("expense({from_account_id})"),
        EffectSpec::Sweep { to_account_id, sources, lot_method, .. } => {
            let s = match sources {
                None => "none".to_string(),
                Some(WithdrawalSourcesSpec::Custom { entries }) => format!("custom{}", entries.len()),
                Some(WithdrawalSourcesSpec::Strategy { exclude_accounts, .. }) => {
                    format!("strategy{:?}", exclude_accounts)
                }
                Some(_) => "single".to_string(),
            };
            format!("sweep({to_account_id},{s},{lot_method:?})")
        }
        EffectSpec::RsuVesting { to_account_id, asset_id, units_bits, sell_to_cover, .. } => format!(
            "rsu({to_account_id},{asset_id},{},{sell_to_cover})",
            f64::from_bits(*units_bits)
        ),
        EffectSpec::Random { probability_bits, on_true, on_false } => format!(
            "random({},{},{})",
            f64::from_bits(*probability_bits),
            describe(on_true),
            on_false.as_ref().map(|b| describe(b)).unwrap_or_else(|| "-".to_string())
        ),
        EffectSpec::PauseEvent { target_event_id } => format!("pause({target_event_id})"),
        _ => "other".to_string(),
    }
}

fn bad_request(r: Result<EffectRows, ApiError>) -> String {
    match r {
        Err(ApiError::BadRequest(m)) => m,
        Err(e) => panic!("unexpected error {e:?}"),
        Ok(_) => panic!("expected a refusal"),
    }
}

fn branching() -> EffectSpec {
    EffectSpec::Random {
        probability_bits: 0.25f64.to_bits(),
        on_true: Box::new(EffectSpec::Expense { from_account_id: 4, amount: fixed(100.0) }),
        on_false: Some(Box::new(EffectSpec::Sweep {
            to_account_id: 9,
            amount: fixed(50.0),
            sources: Some(WithdrawalSourcesSpec::Custom {
                entries: vec![
                    AssetRef { account_id: 1, asset_id: 2 },
                    AssetRef { account_id: 3, asset_id: 4 },
                ],
            }),
            amount_mode: AmountMode::Net,
            lot_method: LotMethod::HighestCost,
            income_type: IncomeType::Taxable,
        })),
    }
}

#[test]
fn an_effect_row_carries_its_kind_columns() {
    let spec = EffectSpec::Income {
        to_account_id: 3,
        amount: fixed(1200.0),
        amount_mode: AmountMode::Gross,
        income_type: IncomeType::TaxFree,
    };
    let rows = effect_rows(&spec, EffectParent::Event { event_id: 5, position: 2 }, 0, 100, 10).unwrap();
    assert_eq!(rows.effects.len(), 1);
    let r = &rows.effects[0];
    assert_eq!((r.id, r.event_id, r.parent_id, r.position), (100, Some(5), None, 2));
    assert_eq!(r.kind, "Income");
    assert_eq!(r.to_account_id, Some(3));
    assert_eq!(r.from_account_id, None);
    assert_eq!(r.amount_id, Some(10));
    assert_eq!(r.amount_mode.as_deref(), Some("Gross"));
    assert_eq!(r.income_type.as_deref(), Some("TaxFree"));
    assert_eq!(r.lot_method, None);
    assert_eq!(rows.amounts.len(), 1);
    assert_eq!(rows.amounts[0].id, 10);
    assert_eq!(rows.amounts[0].value_bits, Some(1200.0f64.to_bits()));
    assert!(rows.sources.is_empty() && rows.items.is_empty());
}

#[test]
fn branches_hang_under_their_random_effect() {
    let rows = effect_rows(&branching(), EffectParent::Event { event_id: 1, position: 0 }, 0, 100, 10).unwrap();
    let ids: Vec<i64> = rows.effects.iter().map(|r| r.id).collect();
    assert_eq!(ids, [100, 101, 102]);
    let kinds: Vec<&str> = rows.effects.iter().map(|r| r.kind.as_str()).collect();
    assert_eq!(kinds, ["Random", "Expense", "Sweep"]);
    assert_eq!(rows.effects[0].probability_bits, Some(0.25f64.to_bits()));
    assert_eq!(rows.effects[1].parent_id, Some(100));
    assert_eq!(rows.effects[1].parent_slot.as_deref(), Some("on_true"));
    assert_eq!(rows.effects[1].event_id, None);
    assert_eq!(rows.effects[2].parent_slot.as_deref(), Some("on_false"));
    assert_eq!((rows.effects[1].amount_id, rows.effects[2].amount_id), (Some(10), Some(11)));
    assert_eq!(rows.sources.len(), 1);
    assert_eq!(rows.sources[0].effect_id, 102);
    assert_eq!(rows.sources[0].mode, "Custom");
    let positions: Vec<(i64, i64)> = rows.items.iter().map(|i| (i.position, i.account_id)).collect();
    assert_eq!(positions, [(0, 1), (1, 3)]);
    assert_eq!(rows.effects[2].lot_method.as_deref(), Some("HighestCost"));
}

#[test]
fn effects_read_back_as_written() {
    let spec = branching();
    let rows = effect_rows(&spec, EffectParent::Event { event_id: 1, position: 0 }, 0, 100, 10).unwrap();
    let back = read_effect(&rows, 100, 0).unwrap();
    assert_eq!(describe(&back), describe(&spec));
    assert_eq!(describe(&back), "random(0.25,expense(4),sweep(9,custom2,HighestCost))");
    let rsu = EffectSpec::RsuVesting {
        to_account_id: 2,
        asset_id: 8,
        units_bits: 40.0f64.to_bits(),
        sell_to_cover: true,
        lot_method: LotMethod::Lifo,
    };
    let rows = effect_rows(&rsu, EffectParent::Event { event_id: 1, position: 0 }, 0, 7, 0).unwrap();
    assert_eq!(rows.effects[0].sell_to_cover, Some(1));
    assert_eq!(describe(&read_effect(&rows, 7, 0).unwrap()), "rsu(2,8,40,true)");
    let sweep = EffectSpec::Sweep {
        to_account_id: 1,
        amount: AmountSpec::SourceBalance,
        sources: Some(WithdrawalSourcesSpec::Strategy {
            strategy: WithdrawalStrategy::ProRata,
            exclude_accounts: vec![5, 6],
        }),
        amount_mode: AmountMode::Gross,
        lot_method: LotMethod::AverageCost,
        income_type: IncomeType::TaxFree,
    };
    let rows = effect_rows(&sweep, EffectParent::Event { event_id: 1, position: 0 }, 0, 3, 0).unwrap();
    assert_eq!(describe(&read_effect(&rows, 3, 0).unwrap()), "sweep(1,strategy[5, 6],AverageCost)");
}

#[test]
fn a_financed_purchase_writes_price_then_down_payment() {
    let spec = EffectSpec::BuyProperty {
        property_account_id: 11,
        from_account_id: 12,
        price: fixed(400_000.0),
        financing: Some(FinancingSpec { loan_account_id: 13, down_payment: fixed(80_000.0), term_months: 360 }),
    };
    let rows = effect_rows(&spec, EffectParent::Event { event_id: 1, position: 0 }, 0, 50, 20).unwrap();
    let r = &rows.effects[0];
    assert_eq!(r.kind, "BuyProperty");
    assert_eq!((r.from_account_id, r.to_account_id), (Some(12), Some(11)));
    assert_eq!((r.amount_id, r.down_payment_amount_id), (Some(20), Some(21)));
    assert_eq!((r.loan_account_id, r.term_months), (Some(13), Some(360)));
    assert_eq!(rows.amounts[1].value_bits, Some(80_000.0f64.to_bits()));
}

#[test]
fn property_and_shock_numbers_are_checked() {
    let parent = EffectParent::Event { event_id: 1, position: 0 };
    let sell = |rate: f64, gain: f64| EffectSpec::SellProperty {
        property_account_id: 1,
        to_account_id: 2,
        selling_cost_rate_bits: rate.to_bits(),
        gain_exclusion_bits: gain.to_bits(),
        payoff_account_id: Some(3),
    };
    assert_eq!(
        bad_request(effect_rows(&sell(1.5, 0.0), parent, 0, 1, 1)),
        "selling costs are a share of the price, between 0 and 1"
    );
    assert_eq!(
        bad_request(effect_rows(&sell(f64::NAN, 0.0), parent, 0, 1, 1)),
        "selling costs are a share of the price, between 0 and 1"
    );
    assert_eq!(
        bad_request(effect_rows(&sell(0.06, -1.0), parent, 0, 1, 1)),
        "the gain exclusion cannot be negative"
    );
    let ok = effect_rows(&sell(-0.0, 250_000.0), parent, 0, 1, 1).unwrap();
    assert_eq!(ok.effects[0].loan_account_id, Some(3));
    assert_eq!(ok.effects[0].gain_exclusion_bits, Some(250_000.0f64.to_bits()));
    for drop in [0.0, 1.0, -0.2, f64::NAN] {
        assert_eq!(
            bad_request(effect_rows(&EffectSpec::MarketShock { drop_bits: drop.to_bits() }, parent, 0, 1, 1)),
            "a market shock's drop is a fraction between 0 and 1"
        );
    }
    let shock = effect_rows(&EffectSpec::MarketShock { drop_bits: 0.3f64.to_bits() }, parent, 0, 1, 1).unwrap();
    assert_eq!(shock.effects[0].shock_drop_bits, Some(0.3f64.to_bits()));
    let buy = EffectSpec::BuyProperty {
        property_account_id: 1,
        from_account_id: 2,
        price: fixed(1.0),
        financing: Some(FinancingSpec { loan_account_id: 3, down_payment: fixed(0.5), term_months: 0 }),
    };
    assert_eq!(bad_request(effect_rows(&buy, parent, 0, 1, 1)), "a mortgage term must be at least one month");
}

#[test]
fn effects_are_refused_too_deep_or_with_an_empty_custom_source() {
    let parent = EffectParent::Event { event_id: 1, position: 0 };
    let pause = EffectSpec::PauseEvent { target_event_id: 4 };
    assert_eq!(bad_request(effect_rows(&pause, parent, 65, 1, 1)), "expression nests deeper than 64 levels");
    assert!(effect_rows(&pause, parent, 64, 1, 1).is_ok());
    let sweep = EffectSpec::Sweep {
        to_account_id: 1,
        amount: fixed(1.0),
        sources: Some(WithdrawalSourcesSpec::Custom { entries: vec![] }),
        amount_mode: AmountMode::Net,
        lot_method: LotMethod::Fifo,
        income_type: IncomeType::Taxable,
    };
    assert_eq!(
        bad_request(effect_rows(&sweep, parent, 0, 1, 1)),
        "a Custom withdrawal source needs at least one entry"
    );
}

#[test]
fn broken_effect_rows_are_reported() {
    let rows = effect_rows(&branching(), EffectParent::Event { event_id: 1, position: 0 }, 0, 100, 10).unwrap();
    assert!(matches!(read_effect(&rows, 7, 0), Err(ApiError::NotFound("effect"))));
    match read_effect(&rows, 100, 65) {
        Err(ApiError::Internal(m)) => assert_eq!(m, "effect graph is cyclic"),
        other => panic!("unexpected {:?}", other.map(|e| describe(&e))),
    }
    let mut orphan = effect_rows(&branching(), EffectParent::Event { event_id: 1, position: 0 }, 0, 100, 10).unwrap();
    orphan.effects[1].parent_slot = Some("elsewhere".to_string());
    match read_effect(&orphan, 100, 0) {
        Err(ApiError::Internal(m)) => assert_eq!(m, "Random effect has no on_true branch"),
        other => panic!("unexpected {:?}", other.map(|e| describe(&e))),
    }
    let mut no_amount = effect_rows(&branching(), EffectParent::Event { event_id: 1, position: 0 }, 0, 100, 10).unwrap();
    no_amount.effects[1].amount_id = None;
    match read_effect(&no_amount, 101, 0) {
        Err(ApiError::Internal(m)) => assert_eq!(m, "effect is missing its amount"),
        other => panic!("unexpected {:?}", other.map(|e| describe(&e))),
    }
}

#[test]
fn expressions_see_the_ends_each_effect_has() {
    let sale = |asset_id| EffectSpec::AssetSale {
        from_account_id: 1,
        asset_id,
        amount: fixed(1.0),
        amount_mode: AmountMode::Net,
        lot_method: LotMethod::Fifo,
    };
    assert_eq!(effect_availability(&sale(None)), (true, false, true, true));
    assert_eq!(effect_availability(&sale(Some(3))), (true, true, true, true));
    let sweep = |sources| EffectSpec::Sweep {
        to_account_id: 1,
        amount: fixed(1.0),
        sources,
        amount_mode: AmountMode::Net,
        lot_method: LotMethod::Fifo,
        income_type: IncomeType::Taxable,
    };
    assert_eq!(
        effect_availability(&sweep(Some(WithdrawalSourcesSpec::SingleAccount { account_id: 2 }))),
        (true, false, true, true)
    );
    assert_eq!(effect_availability(&sweep(None)), (false, false, true, true));
    assert_eq!(effect_availability(&EffectSpec::Expense { from_account_id: 1, amount: fixed(1.0) }), (true, true, false, false));
    assert_eq!(effect_availability(&EffectSpec::PauseEvent { target_event_id: 1 }), (false, false, false, false));
    let buy = EffectSpec::BuyProperty { property_account_id: 1, from_account_id: 2, price: fixed(9.0), financing: None };
    assert!(matches!(effect_amount(&buy), Some(AmountSpec::Fixed { value_bits }) if *value_bits == 9.0f64.to_bits()));
    assert!(effect_amount(&EffectSpec::MarketShock { drop_bits: 0 }).is_none());
}

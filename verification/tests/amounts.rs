use finplan_server::amounts::{amount_rows, read_amount, AmountSpec, ONE_BITS};
use finplan_server::error::ApiError;
use finplan_server::rows::TransferAmountRow;

fn fixed(v: f64) -> Box<AmountSpec> {
    Box::new(AmountSpec::Fixed { value_bits: v.to_bits() })
}

fn describe(a: &AmountSpec) -> String {
    match a {
        AmountSpec::Expression { source } => format!("expr({source})"),
        AmountSpec::Fixed { value_bits } => format!("{}", f64::from_bits(*value_bits)),
        AmountSpec::InflationAdjusted { inner } => format!("real({})", describe(inner)),
        AmountSpec::SourceBalance => "source".to_string(),
        AmountSpec::ZeroTargetBalance => "zero_target".to_string(),
        AmountSpec::TargetToBalance { value_bits } => format!("target({})", f64::from_bits(*value_bits)),
        AmountSpec::AssetBalance { account_id, asset_id } => format!("asset({account_id},{asset_id})"),
        AmountSpec::AccountTotalBalance { account_id } => format!("total({account_id})"),
        AmountSpec::AccountCashBalance { account_id } => format!("cash({account_id})"),
        AmountSpec::Min { left, right } => format!("min({},{})", describe(left), describe(right)),
        AmountSpec::Max { left, right } => format!("max({},{})", describe(left), describe(right)),
        AmountSpec::Sub { left, right } => format!("sub({},{})", describe(left), describe(right)),
        AmountSpec::Add { left, right } => format!("add({},{})", describe(left), describe(right)),
        AmountSpec::Mul { left, right } => format!("mul({},{})", describe(left), describe(right)),
        AmountSpec::Scale { factor_bits, inner } => {
            format!("scale({},{})", f64::from_bits(*factor_bits), describe(inner))
        }
    }
}

fn sweep_amount() -> AmountSpec {
    // max(0, sub(target, cash(7))) scaled, as guided setup writes it.
    AmountSpec::Scale {
        factor_bits: 0.5f64.to_bits(),
        inner: Box::new(AmountSpec::Max {
            left: fixed(0.0),
            right: Box::new(AmountSpec::Sub {
                left: Box::new(AmountSpec::InflationAdjusted { inner: fixed(20_000.0) }),
                right: Box::new(AmountSpec::AccountCashBalance { account_id: 7 }),
            }),
        }),
    }
}

#[test]
fn amounts_are_written_children_first() {
    let rows = amount_rows(&sweep_amount(), 0, 10).unwrap();
    let kinds: Vec<&str> = rows.iter().map(|r| r.kind.as_str()).collect();
    assert_eq!(kinds, ["Fixed", "Fixed", "InflationAdjusted", "AccountCashBalance", "Sub", "Max", "Scale"]);
    let ids: Vec<i64> = rows.iter().map(|r| r.id).collect();
    assert_eq!(ids, [10, 11, 12, 13, 14, 15, 16]);
    assert_eq!(rows[2].left_id, Some(11));
    assert_eq!((rows[4].left_id, rows[4].right_id), (Some(12), Some(13)));
    assert_eq!((rows[5].left_id, rows[5].right_id), (Some(10), Some(14)));
    assert_eq!(rows[6].left_id, Some(15));
    assert_eq!(rows[6].value_bits, Some(0.5f64.to_bits()));
    assert_eq!(rows[3].account_id, Some(7));
}

#[test]
fn amounts_read_back_as_written() {
    let spec = sweep_amount();
    let rows = amount_rows(&spec, 0, 1).unwrap();
    let root = rows.last().unwrap().id;
    let back = read_amount(&rows, root, 0).unwrap();
    assert_eq!(describe(&back), describe(&spec));
    assert_eq!(describe(&back), "scale(0.5,max(0,sub(real(20000),cash(7))))");
    let expr = AmountSpec::Expression { source: "balance(source) * 2".to_string() };
    let rows = amount_rows(&expr, 3, 0).unwrap();
    assert_eq!(rows.len(), 1);
    assert_eq!(rows[0].kind, "Fixed");
    assert_eq!(rows[0].value_bits, Some(0));
    assert_eq!(describe(&read_amount(&rows, 0, 3).unwrap()), "expr(balance(source) * 2)");
}

#[test]
fn expressions_only_at_the_root() {
    let spec = AmountSpec::Add {
        left: fixed(1.0),
        right: Box::new(AmountSpec::Expression { source: "1".to_string() }),
    };
    match amount_rows(&spec, 0, 0) {
        Err(ApiError::BadRequest(m)) => assert_eq!(
            m,
            "an Expression must be the root amount; put the full calculation in its source"
        ),
        _ => panic!("expected a refusal"),
    }
}

#[test]
fn deep_amounts_are_refused() {
    let mut spec = AmountSpec::SourceBalance;
    for _ in 0..65 {
        spec = AmountSpec::InflationAdjusted { inner: Box::new(spec) };
    }
    match amount_rows(&spec, 0, 0) {
        Err(ApiError::BadRequest(m)) => assert_eq!(m, "expression nests deeper than 64 levels"),
        _ => panic!("expected a refusal"),
    }
    let mut ok = AmountSpec::SourceBalance;
    for _ in 0..64 {
        ok = AmountSpec::InflationAdjusted { inner: Box::new(ok) };
    }
    assert_eq!(amount_rows(&ok, 0, 0).unwrap().len(), 65);
}

fn bare(id: i64, kind: &str, left: Option<i64>, right: Option<i64>) -> TransferAmountRow {
    TransferAmountRow {
        id,
        kind: kind.to_string(),
        value_bits: None,
        account_id: None,
        asset_id: None,
        left_id: left,
        right_id: right,
        expression_source: None,
    }
}

#[test]
fn broken_amount_rows_are_reported() {
    match read_amount(&[], 4, 0) {
        Err(ApiError::NotFound(what)) => assert_eq!(what, "transfer amount"),
        _ => panic!("expected a missing row"),
    }
    let looped = vec![bare(1, "InflationAdjusted", Some(1), None)];
    match read_amount(&looped, 1, 0) {
        Err(ApiError::Internal(m)) => assert_eq!(m, "transfer amount graph is cyclic"),
        _ => panic!("expected a loop"),
    }
    match read_amount(&[bare(1, "Scale", None, None)], 1, 0) {
        Err(ApiError::Internal(m)) => assert_eq!(m, "amount is missing its operand"),
        _ => panic!("expected a missing operand"),
    }
    let half = vec![bare(1, "SourceBalance", None, None), bare(2, "Min", Some(1), None)];
    match read_amount(&half, 2, 0) {
        Err(ApiError::Internal(m)) => assert_eq!(m, "amount is missing its right operand"),
        _ => panic!("expected a missing right operand"),
    }
    // A scale without a stored factor reads as one; an unknown kind as a product.
    let rows = vec![
        bare(1, "ZeroTargetBalance", None, None),
        bare(2, "Scale", Some(1), None),
        bare(3, "Whatever", Some(1), Some(2)),
    ];
    match read_amount(&rows, 2, 0).unwrap() {
        AmountSpec::Scale { factor_bits, .. } => assert_eq!(factor_bits, ONE_BITS),
        _ => panic!("expected a scale"),
    }
    assert_eq!(describe(&read_amount(&rows, 3, 0).unwrap()), "mul(zero_target,scale(1,zero_target))");
    assert_eq!(f64::from_bits(ONE_BITS), 1.0);
}

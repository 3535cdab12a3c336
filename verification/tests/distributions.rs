use finplan_server::distributions::{
    check_inflation_kind, distribution_rows, read_distribution, DistributionSpec, FIVE_BITS,
};
use finplan_server::error::ApiError;
use finplan_server::rows::DistributionRow;

fn describe(d: &DistributionSpec) -> String {
    let f = |b: u64| f64::from_bits(b);
    match d {
        DistributionSpec::NoDistribution => "none".to_string(),
        DistributionSpec::Fixed { rate_bits } => format!("fixed({})", f(*rate_bits)),
        DistributionSpec::Normal { mean_bits, std_dev_bits } => {
            format!("normal({},{})", f(*mean_bits), f(*std_dev_bits))
        }
        DistributionSpec::LogNormal { mean_bits, std_dev_bits } => {
            format!("lognormal({},{})", f(*mean_bits), f(*std_dev_bits))
        }
        DistributionSpec::StudentT { mean_bits, scale_bits, df_bits } => {
            format!("t({},{},{})", f(*mean_bits), f(*scale_bits), f(*df_bits))
        }
        DistributionSpec::RegimeSwitching { bull, bear, bull_to_bear_bits, bear_to_bull_bits } => format!(
            "regime({},{},{},{})",
            describe(bull),
            describe(bear),
            f(*bull_to_bear_bits),
            f(*bear_to_bull_bits)
        ),
        DistributionSpec::Bootstrap { preset, block_size } => format!("bootstrap({preset},{block_size:?})"),
    }
}

fn regime() -> DistributionSpec {
    DistributionSpec::RegimeSwitching {
        bull: Box::new(DistributionSpec::Normal { mean_bits: 0.1f64.to_bits(), std_dev_bits: 0.15f64.to_bits() }),
        bear: Box::new(DistributionSpec::StudentT {
            mean_bits: (-0.05f64).to_bits(),
            scale_bits: 0.2f64.to_bits(),
            df_bits: 4.0f64.to_bits(),
        }),
        bull_to_bear_bits: 0.1f64.to_bits(),
        bear_to_bull_bits: 0.3f64.to_bits(),
    }
}

#[test]
fn regime_models_are_written_after_their_regimes() {
    let rows = distribution_rows(&regime(), 0, 20).unwrap();
    let kinds: Vec<&str> = rows.iter().map(|r| r.kind.as_str()).collect();
    assert_eq!(kinds, ["Normal", "StudentT", "RegimeSwitching"]);
    assert_eq!((rows[2].id, rows[2].bull_id, rows[2].bear_id), (22, Some(20), Some(21)));
    let back = read_distribution(&rows, 22, 0).unwrap();
    assert_eq!(describe(&back), describe(&regime()));
    assert_eq!(describe(&back), "regime(normal(0.1,0.15),t(-0.05,0.2,4),0.1,0.3)");
}

#[test]
fn bootstraps_need_a_known_preset() {
    let ok = DistributionSpec::Bootstrap { preset: "reits".to_string(), block_size: Some(5) };
    let rows = distribution_rows(&ok, 0, 0).unwrap();
    assert_eq!(rows[0].history_preset.as_deref(), Some("reits"));
    assert_eq!(describe(&read_distribution(&rows, 0, 0).unwrap()), "bootstrap(reits,Some(5))");
    let bad = DistributionSpec::Bootstrap { preset: "bitcoin".to_string(), block_size: None };
    match distribution_rows(&bad, 0, 0) {
        Err(ApiError::BadRequest(m)) => assert_eq!(
            m,
            "unknown history preset 'bitcoin'; expected one of sp500, us_small_cap, us_tbills, us_long_bonds, intl_developed, emerging_markets, reits, gold, us_agg_bonds, us_corporate_bonds, tips"
        ),
        _ => panic!("expected a refusal"),
    }
}

#[test]
fn regime_models_nest_at_most_eight_deep() {
    let mut d = DistributionSpec::NoDistribution;
    for _ in 0..8 {
        d = DistributionSpec::RegimeSwitching {
            bull: Box::new(d),
            bear: Box::new(DistributionSpec::NoDistribution),
            bull_to_bear_bits: 0,
            bear_to_bull_bits: 0,
        };
    }
    assert_eq!(distribution_rows(&d, 0, 0).unwrap().len(), 17);
    let deeper = DistributionSpec::RegimeSwitching {
        bull: Box::new(d),
        bear: Box::new(DistributionSpec::NoDistribution),
        bull_to_bear_bits: 0,
        bear_to_bull_bits: 0,
    };
    match distribution_rows(&deeper, 0, 0) {
        Err(ApiError::BadRequest(m)) => assert_eq!(
            m,
            "distribution nests too deeply; regime models may not be recursive beyond 8 levels"
        ),
        _ => panic!("expected a refusal"),
    }
}

fn bare(id: i64, kind: &str) -> DistributionRow {
    DistributionRow {
        id,
        kind: kind.to_string(),
        rate_bits: None,
        mean_bits: None,
        std_dev_bits: None,
        scale_bits: None,
        df_bits: None,
        bull_id: None,
        bear_id: None,
        bull_to_bear_bits: None,
        bear_to_bull_bits: None,
        history_preset: None,
        block_size: None,
    }
}

#[test]
fn stored_distributions_read_with_defaults() {
    match read_distribution(&[], 3, 0) {
        Err(ApiError::NotFound(what)) => assert_eq!(what, "distribution"),
        _ => panic!("expected a missing row"),
    }
    let mut looped = bare(1, "RegimeSwitching");
    looped.bull_id = Some(1);
    match read_distribution(&[looped], 1, 0) {
        Err(ApiError::Internal(m)) => assert_eq!(m, "distribution graph is cyclic"),
        _ => panic!("expected a loop"),
    }
    let rows = vec![bare(1, "StudentT"), bare(2, "Bootstrap"), bare(3, "Whatever")];
    match read_distribution(&rows, 1, 0).unwrap() {
        DistributionSpec::StudentT { df_bits, .. } => assert_eq!(df_bits, FIVE_BITS),
        _ => panic!("expected a Student-t"),
    }
    assert_eq!(f64::from_bits(FIVE_BITS), 5.0);
    assert_eq!(describe(&read_distribution(&rows, 2, 0).unwrap()), "bootstrap(sp500,None)");
    assert_eq!(describe(&read_distribution(&rows, 3, 0).unwrap()), "none");
}

#[test]
fn inflation_profiles_take_simple_shapes() {
    assert!(check_inflation_kind(&DistributionSpec::Fixed { rate_bits: 0.03f64.to_bits() }).is_ok());
    assert!(check_inflation_kind(&DistributionSpec::NoDistribution).is_ok());
    match check_inflation_kind(&regime()) {
        Err(ApiError::BadRequest(m)) => {
            assert_eq!(m, "inflation profiles support None, Fixed, Normal, LogNormal or Bootstrap")
        }
        _ => panic!("expected a refusal"),
    }
}

use finplan_server::cloning::Remap;
use finplan_server::error::ApiError;
use finplan_server::restore::{distribution_order, restored_id, DistributionLinks};

fn row(id: i64, bull_id: Option<i64>, bear_id: Option<i64>) -> DistributionLinks {
    DistributionLinks { id, bull_id, bear_id }
}

fn ids(r: Result<Vec<DistributionLinks>, ApiError>) -> Vec<i64> {
    r.unwrap().iter().map(|d| d.id).collect()
}

#[test]
fn distributions_are_written_after_their_parts() {
    assert_eq!(ids(distribution_order(&[row(9, None, None), row(3, None, None)])), [3, 9]);
    // A regime model naming later rows waits for them; rows it enables in a
    // pass are written in that pass.
    let rows = [row(1, Some(4), Some(2)), row(2, None, None), row(4, None, None), row(5, Some(1), None)];
    assert_eq!(ids(distribution_order(&rows)), [2, 4, 1, 5]);
    let rows = [row(7, Some(8), None), row(8, Some(9), None), row(9, None, None)];
    assert_eq!(ids(distribution_order(&rows)), [9, 8, 7]);
    assert!(distribution_order(&[]).unwrap().is_empty());
}

#[test]
fn unresolvable_distribution_references_are_refused() {
    let cycle = [row(1, Some(2), None), row(2, None, Some(1)), row(3, None, None)];
    match distribution_order(&cycle) {
        Err(ApiError::BadRequest(m)) => assert_eq!(m, "Invalid distribution references."),
        other => panic!("unexpected {other:?}"),
    }
    let missing = [row(1, Some(42), None)];
    assert!(matches!(distribution_order(&missing), Err(ApiError::BadRequest(_))));
}

#[test]
fn restored_references_map_to_new_rows() {
    let mut m = Remap::new();
    m.insert(5, 50);
    assert_eq!(restored_id(&m, 5, "Missing return profile.").unwrap(), 50);
    match restored_id(&m, 6, "Missing return profile.") {
        Err(ApiError::BadRequest(msg)) => assert_eq!(msg, "Missing return profile."),
        other => panic!("unexpected {other:?}"),
    }
}

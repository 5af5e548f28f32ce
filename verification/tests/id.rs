use authority_fabric::id::{fresh_id, EpId, IdOracle, NoneTaken, Retirement};
use std::collections::HashSet;

#[test]
fn fresh_ids_are_nonzero_and_distinct() {
    let mut seen = HashSet::new();
    for _ in 0..1000 {
        let id = fresh_id(&NoneTaken).unwrap();
        assert_ne!(id, EpId([0; 16]));
        assert!(seen.insert(id.0), "collision drawn from entropy");
    }
}

#[test]
fn retirement_prevents_reissue() {
    let mut r = Retirement::new();
    let taken: HashSet<u128> = [42u128].into_iter().collect();
    let oracle = IdOracle { extra: &taken };
    // Force a collision path deterministically is not possible with real
    // entropy; instead verify retire/is_retired semantics.
    let id = fresh_id(&oracle).unwrap();
    assert!(!r.is_retired(id));
    r.retire(id);
    assert!(r.is_retired(id));
    assert_eq!(r.len(), 1);
}

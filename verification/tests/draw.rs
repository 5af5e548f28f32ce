use authority_fabric::data_pipe::PipeId;
use authority_fabric::id::{drawn16, settle_id, settle_transfer_id, DrawError, EpId, NoneTaken, TransferId};
use authority_fabric::native::{settle_resource_id, ResourceId};
use authority_fabric::shared::{settle_region_id, RegionId};
use std::collections::HashSet;

/// The identity whose number is 42.
fn raw42() -> [u8; 16] {
    let mut b = [0u8; 16];
    b[0] = 42;
    b
}

#[test]
fn a_failed_source_is_an_entropy_failure() {
    assert_eq!(drawn16(Err(getrandom::Error::UNSUPPORTED)), Err(DrawError::EntropyFailed));
    assert_eq!(drawn16(Ok(raw42())), Ok(raw42()));
    assert_eq!(drawn16(Ok([0; 16])), Ok([0; 16]));
}

#[test]
fn a_failed_draw_ends_the_search() {
    let e = Err(DrawError::EntropyFailed);
    assert_eq!(settle_id(e, &NoneTaken), Some(Err(DrawError::EntropyFailed)));
    assert_eq!(settle_transfer_id(e, &NoneTaken), Some(Err(DrawError::EntropyFailed)));
    assert_eq!(settle_resource_id(e, &NoneTaken), Some(Err(DrawError::EntropyFailed)));
    let none: HashSet<u128> = HashSet::new();
    assert_eq!(settle_region_id(e, &none), Some(Err(DrawError::EntropyFailed)));
}

#[test]
fn zero_is_drawn_again() {
    assert_eq!(settle_id(Ok([0; 16]), &NoneTaken), None);
    assert_eq!(settle_transfer_id(Ok([0; 16]), &NoneTaken), None);
    assert_eq!(settle_resource_id(Ok([0; 16]), &NoneTaken), None);
    let none: HashSet<u128> = HashSet::new();
    assert_eq!(settle_region_id(Ok([0; 16]), &none), None);
}

#[test]
fn a_taken_identity_is_drawn_again() {
    let taken: HashSet<u128> = [42u128].into_iter().collect();
    assert_eq!(settle_id(Ok(raw42()), &taken), None);
    assert_eq!(settle_region_id(Ok(raw42()), &taken), None);
    assert_eq!(settle_id(Ok([7; 16]), &taken), Some(Ok(EpId([7; 16]))));
    assert_eq!(settle_region_id(Ok([7; 16]), &taken), Some(Ok(RegionId([7; 16]))));
}

#[test]
fn a_new_identity_is_the_one() {
    assert_eq!(settle_id(Ok(raw42()), &NoneTaken), Some(Ok(EpId(raw42()))));
    assert_eq!(settle_transfer_id(Ok(raw42()), &NoneTaken), Some(Ok(TransferId(raw42()))));
    assert_eq!(settle_resource_id(Ok(raw42()), &NoneTaken), Some(Ok(ResourceId(raw42()))));
}

#[test]
fn any_bytes_name_a_pipe() {
    assert_eq!(PipeId::of_draw(Ok([0; 16])), Ok(PipeId([0; 16])));
    assert_eq!(PipeId::of_draw(Ok(raw42())), Ok(PipeId(raw42())));
    assert_eq!(PipeId::of_draw(Err(DrawError::EntropyFailed)), Err(DrawError::EntropyFailed));
    assert_ne!(PipeId::fresh().unwrap(), PipeId::fresh().unwrap());
}

use authority_fabric::data_pipe::registry::{PipeReject, PipeRole, PipeTable, MAX_LIVE_PIPES};
use authority_fabric::data_pipe::{PipeId, MAX_PIPE_CAPACITY};
use authority_fabric::id::TransferId;
use authority_fabric::router::PeerId;

fn pid(n: u8) -> PipeId {
    let mut b = [0u8; 16];
    b[0] = n;
    PipeId(b)
}
fn peer(n: u32) -> PeerId {
    PeerId(n)
}
fn tid(n: u8) -> TransferId {
    TransferId([n; 16])
}

const CAP: usize = 4096;

#[test]
fn create_registers_single_holders() {
    let mut t = PipeTable::new();
    t.create(pid(1), CAP, peer(1), peer(2)).unwrap();
    assert_eq!(t.producer_holder(&pid(1)), Some(peer(1)));
    assert_eq!(t.consumer_holder(&pid(1)), Some(peer(2)));
    assert_eq!(t.capacity_of(&pid(1)), Some(CAP));
    assert!(t.in_transfer(&pid(1), PipeRole::Producer).is_none());
}

#[test]
fn h6_forged_capacity_rejected() {
    let mut t = PipeTable::new();
    assert!(t.create(pid(1), 0, peer(1), peer(2)).is_err());
    assert!(t
        .create(pid(1), MAX_PIPE_CAPACITY + 1, peer(1), peer(2))
        .is_err());
    assert!(t.capacity_of(&pid(1)).is_none());
}

#[test]
fn h1_unknown_pipe_fails_closed() {
    let mut t = PipeTable::new();
    assert_eq!(
        t.offer_transfer(&pid(9), PipeRole::Producer, tid(1), peer(1), peer(2)),
        Err(PipeReject("unknown pipe"))
    );
    assert_eq!(
        t.commit_transfer(PipeRole::Producer, tid(42)),
        Err(PipeReject("stale or foreign transfer"))
    );
}

#[test]
fn h2_h3_wrong_holder_rejected_no_state_change() {
    let mut t = PipeTable::new();
    t.create(pid(1), CAP, peer(1), peer(2)).unwrap();
    // Non-holder tries to offer the producer (H2).
    assert_eq!(
        t.offer_transfer(&pid(1), PipeRole::Producer, tid(1), peer(3), peer(4)),
        Err(PipeReject("wrong holder"))
    );
    // Consumer holder tries to offer the producer role (H3).
    assert_eq!(
        t.offer_transfer(&pid(1), PipeRole::Producer, tid(1), peer(2), peer(3)),
        Err(PipeReject("wrong holder"))
    );
    assert_eq!(t.producer_holder(&pid(1)), Some(peer(1)));
    assert!(t.in_transfer(&pid(1), PipeRole::Producer).is_none());
}

#[test]
fn producer_transfer_moves_sole_authority() {
    let mut t = PipeTable::new();
    t.create(pid(1), CAP, peer(1), peer(2)).unwrap();
    t.offer_transfer(&pid(1), PipeRole::Producer, tid(7), peer(1), peer(3))
        .unwrap();
    // Sender lost it while escrowed.
    assert_eq!(t.producer_holder(&pid(1)), None);
    assert_eq!(
        t.in_transfer(&pid(1), PipeRole::Producer),
        Some((tid(7), peer(3)))
    );
    // Sender cannot re-offer while escrowed.
    assert_eq!(
        t.offer_transfer(&pid(1), PipeRole::Producer, tid(8), peer(1), peer(4)),
        Err(PipeReject("stale or foreign transfer"))
    );
    // Recipient commits: exactly one mint.
    assert_eq!(t.commit_transfer(PipeRole::Producer, tid(7)), Ok(pid(1)));
    assert_eq!(t.producer_holder(&pid(1)), Some(peer(3)));
    assert_eq!(t.consumer_holder(&pid(1)), Some(peer(2)));
}

#[test]
fn abort_restores_sender_with_identical_state() {
    let mut t = PipeTable::new();
    t.create(pid(1), CAP, peer(1), peer(2)).unwrap();
    t.offer_transfer(&pid(1), PipeRole::Producer, tid(7), peer(1), peer(3))
        .unwrap();
    assert_eq!(
        t.abort_transfer(PipeRole::Producer, tid(7), peer(1)),
        Ok(pid(1))
    );
    assert_eq!(t.producer_holder(&pid(1)), Some(peer(1)));
    assert!(t.in_transfer(&pid(1), PipeRole::Producer).is_none());
    // Restored sender can re-offer under a fresh tid.
    t.offer_transfer(&pid(1), PipeRole::Producer, tid(8), peer(1), peer(4))
        .unwrap();
    assert_eq!(t.commit_transfer(PipeRole::Producer, tid(8)), Ok(pid(1)));
    assert_eq!(t.producer_holder(&pid(1)), Some(peer(4)));
}

#[test]
fn post_commit_abort_finds_nothing() {
    let mut t = PipeTable::new();
    t.create(pid(1), CAP, peer(1), peer(2)).unwrap();
    t.offer_transfer(&pid(1), PipeRole::Consumer, tid(5), peer(2), peer(3))
        .unwrap();
    t.commit_transfer(PipeRole::Consumer, tid(5)).unwrap();
    // Commit point passed: neither late abort nor replay commits work.
    assert_eq!(
        t.abort_transfer(PipeRole::Consumer, tid(5), peer(2)),
        Err(PipeReject("stale or foreign transfer"))
    );
    assert_eq!(
        t.commit_transfer(PipeRole::Consumer, tid(5)),
        Err(PipeReject("stale or foreign transfer"))
    );
    assert_eq!(t.consumer_holder(&pid(1)), Some(peer(3)));
}

#[test]
fn h7_stale_or_duplicate_commit_is_noop_failure() {
    let mut t = PipeTable::new();
    t.create(pid(1), CAP, peer(1), peer(2)).unwrap();
    t.offer_transfer(&pid(1), PipeRole::Consumer, tid(5), peer(2), peer(3))
        .unwrap();
    t.commit_transfer(PipeRole::Consumer, tid(5)).unwrap();
    assert_eq!(
        t.commit_transfer(PipeRole::Consumer, tid(5)),
        Err(PipeReject("stale or foreign transfer"))
    );
    assert_eq!(t.consumer_holder(&pid(1)), Some(peer(3)));
    assert_eq!(
        t.abort_transfer(PipeRole::Consumer, tid(6), peer(2)),
        Err(PipeReject("stale or foreign transfer"))
    );
}

#[test]
fn late_operation_after_abort_cannot_mint() {
    let mut t = PipeTable::new();
    t.create(pid(1), CAP, peer(1), peer(2)).unwrap();
    t.offer_transfer(&pid(1), PipeRole::Producer, tid(9), peer(1), peer(3))
        .unwrap();
    t.abort_transfer(PipeRole::Producer, tid(9), peer(1))
        .unwrap();
    assert_eq!(
        t.commit_transfer(PipeRole::Producer, tid(9)),
        Err(PipeReject("stale or foreign transfer"))
    );
    assert_eq!(t.producer_holder(&pid(1)), Some(peer(1)));
}

#[test]
fn retire_then_everything_fails_closed() {
    let mut t = PipeTable::new();
    t.create(pid(1), CAP, peer(1), peer(2)).unwrap();
    t.retire(&pid(1), peer(1)).unwrap();
    assert_eq!(t.producer_holder(&pid(1)), None);
    assert_eq!(t.consumer_holder(&pid(1)), None);
    assert_eq!(
        t.offer_transfer(&pid(1), PipeRole::Producer, tid(1), peer(1), peer(2)),
        Err(PipeReject("already retired"))
    );
}

#[test]
fn non_holder_cannot_retire() {
    let mut t = PipeTable::new();
    t.create(pid(1), CAP, peer(1), peer(2)).unwrap();
    assert_eq!(t.retire(&pid(1), peer(9)), Err(PipeReject("wrong holder")));
    assert_eq!(t.producer_holder(&pid(1)), Some(peer(1)));
}

#[test]
fn resource_exhaustion_bounded_table() {
    let mut t = PipeTable::new();
    for i in 0..MAX_LIVE_PIPES {
        let mut b = [0u8; 16];
        b[..4].copy_from_slice(&(i as u32).to_be_bytes());
        t.create(PipeId(b), CAP, peer(1), peer(2)).unwrap();
    }
    let mut b = [0u8; 16];
    b[..4].copy_from_slice(&u32::MAX.to_be_bytes());
    assert_eq!(
        t.create(PipeId(b), CAP, peer(1), peer(2)),
        Err(PipeReject("pipe table full"))
    );
    // Retirement frees room again.
    let mut b0 = [0u8; 16];
    b0[..4].copy_from_slice(&0u32.to_be_bytes());
    t.retire(&PipeId(b0), peer(1)).unwrap();
    assert_eq!(t.create(PipeId(b), CAP, peer(1), peer(2)), Ok(()));
}

#[test]
fn concurrent_roles_transfer_independently() {
    let mut t = PipeTable::new();
    t.create(pid(1), CAP, peer(1), peer(2)).unwrap();
    t.offer_transfer(&pid(1), PipeRole::Producer, tid(1), peer(1), peer(3))
        .unwrap();
    // Consumer side stays fully visible/operable during producer flight.
    assert_eq!(t.consumer_holder(&pid(1)), Some(peer(2)));
    t.offer_transfer(&pid(1), PipeRole::Consumer, tid(2), peer(2), peer(4))
        .unwrap();
    assert_eq!(t.producer_holder(&pid(1)), None);
    // Commit in REVERSE order: join must be order-independent.
    t.commit_transfer(PipeRole::Consumer, tid(2)).unwrap();
    t.commit_transfer(PipeRole::Producer, tid(1)).unwrap();
    assert_eq!(
        (t.producer_holder(&pid(1)), t.consumer_holder(&pid(1))),
        (Some(peer(3)), Some(peer(4)))
    );
}

#[test]
fn opposite_role_abort_preserves_other_flight() {
    let mut t = PipeTable::new();
    t.create(pid(1), CAP, peer(1), peer(2)).unwrap();
    t.offer_transfer(&pid(1), PipeRole::Producer, tid(1), peer(1), peer(3))
        .unwrap();
    t.offer_transfer(&pid(1), PipeRole::Consumer, tid(2), peer(2), peer(4))
        .unwrap();
    // Abort consumer only: producer arc must stay armed.
    t.abort_transfer(PipeRole::Consumer, tid(2), peer(2))
        .unwrap();
    assert_eq!(
        t.in_transfer(&pid(1), PipeRole::Producer),
        Some((tid(1), peer(3)))
    );
    t.commit_transfer(PipeRole::Producer, tid(1)).unwrap();
    assert_eq!(
        (t.producer_holder(&pid(1)), t.consumer_holder(&pid(1))),
        (Some(peer(3)), Some(peer(2)))
    );
}

#[test]
fn duplicate_pipe_id_rejected_even_after_retire() {
    let mut t = PipeTable::new();
    t.create(pid(1), CAP, peer(1), peer(2)).unwrap();
    t.retire(&pid(1), peer(1)).unwrap();
    assert_eq!(
        t.create(pid(1), CAP, peer(1), peer(2)),
        Err(PipeReject("duplicate pipe id"))
    );
}

use authority_fabric::data_pipe::credit::{CreditError, CreditTracker};

#[test]
fn accepts_up_to_capacity_then_blocks_independently_of_kernel() {
    let mut t = CreditTracker::new(64).unwrap();
    // Kernel buffers would happily take far more; the tracker refuses.
    assert_eq!(t.try_accept(1 << 20).unwrap(), 64);
    t.commit_accepted(64).unwrap();
    assert_eq!(t.available_credit(), 0);
    // Credit gate accepts NOTHING when full — even if the kernel buffer
    // below could physically take more. That is the whole point.
    assert_eq!(t.try_accept(10).unwrap(), 0);
}

#[test]
fn partial_accept_at_boundary() {
    let mut t = CreditTracker::new(300).unwrap();
    assert_eq!(t.try_accept(1000).unwrap(), 300);
    t.commit_accepted(300).unwrap();
    assert_eq!(t.outstanding(), 300);
}

#[test]
fn credits_restore_capacity_exactly() {
    let mut t = CreditTracker::new(64).unwrap();
    let n = t.try_accept(64).unwrap();
    t.commit_accepted(n).unwrap();
    for _ in 0..4 {
        t.return_credit(16).unwrap();
    }
    assert_eq!(t.available_credit(), 64);
}

#[test]
fn forged_credit_is_clamped_and_reported() {
    let mut t = CreditTracker::new(64).unwrap();
    let n = t.try_accept(10).unwrap();
    t.commit_accepted(n).unwrap();
    // Hostile peer claims it read 100 bytes when only 10 were sent.
    assert_eq!(t.return_credit(100), Err(CreditError::ForgedCredit));
    // Invariant survived: outstanding unchanged by the forged report.
    assert_eq!(t.outstanding(), 10);
}

#[test]
fn zero_capacity_rejected() {
    assert_eq!(CreditTracker::new(0).err(), Some(CreditError::InvalidDelta));
}

#[test]
fn outstanding_never_exceeds_capacity_under_churn() {
    let mut t = CreditTracker::new(64).unwrap();
    for i in 0..10_000u32 {
        let want = ((i % 97) + 1) as usize;
        let n = t.try_accept(want).unwrap();
        t.commit_accepted(n).unwrap();
        // deterministic consumer drain
        let back = n.min(37);
        let _ = t.return_credit(back).unwrap_or_else(|e| match e {
            CreditError::ForgedCredit => 0,
            _ => 0,
        });
        assert!(t.outstanding() <= t.capacity());
    }
}

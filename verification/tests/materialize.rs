use authority_fabric::data_pipe::materialize::{
    EndpointKind, JoinReject, MaterializeMeta, Materializer, NativeEndpoint,
};
use authority_fabric::data_pipe::PipeId;
use authority_fabric::id::TransferId;

fn pid(n: u8) -> PipeId {
    PipeId([n; 16])
}
fn tid(n: u8) -> TransferId {
    TransferId([n; 16])
}
fn ep(v: usize) -> NativeEndpoint {
    NativeEndpoint {
        raw: v,
    }
}
fn meta(n: u8, kind: EndpointKind) -> MaterializeMeta {
    MaterializeMeta {
        pid: pid(n),
        kind,
        tid: tid(n),
    }
}

const P: EndpointKind = EndpointKind::Producer;
const C: EndpointKind = EndpointKind::Consumer;

#[test]
fn t3_join_order_independent_exactly_once() {
    for order in [[true, false], [false, true]] {
        let mut m = Materializer::new();
        m.arm(meta(1, P), true).unwrap();
        if order[0] {
            m.on_committed(&tid(1), P);
            m.on_native(&tid(1), P, ep(7));
        } else {
            m.on_native(&tid(1), P, ep(7));
            m.on_committed(&tid(1), P);
        }
        let got = m.try_materialize(&meta(1, P)).unwrap();
        assert_eq!(got.raw, 7);
        // Second attempt must never re-mint.
        assert_eq!(
            m.try_materialize(&meta(1, P)),
            Err(JoinReject::AlreadyMaterialized)
        );
    }
}

#[test]
fn h8_forged_metadata_rejected() {
    let mut m = Materializer::new();
    // No armed slot: peer-emitted commit/native for unknown transfer.
    m.on_committed(&tid(9), P);
    m.on_native(&tid(9), P, ep(3));
    assert_eq!(
        m.try_materialize(&meta(9, P)),
        Err(JoinReject::NotAuthorized)
    );
    assert_eq!(m.pending(), 0);
}

#[test]
fn h9_wrong_correlation_rejected() {
    let mut m = Materializer::new();
    m.arm(meta(1, P), true).unwrap();
    // Native endpoint arrives correlated to a DIFFERENT kind/tid than
    // the armed metadata claims: it lands nowhere near the slot.
    m.on_native(&tid(2), C, ep(5));
    assert!(!m.on_committed(&tid(1), P).then_some(()).is_none());
    // Commit arrived but native for THIS (tid,kind) never did.
    assert_eq!(
        m.try_materialize(&meta(1, P)),
        Err(JoinReject::NotAuthorized)
    );
    // And the mis-correlated endpoint cannot be joined either way.
    m.on_native(&tid(1), P, ep(6)); // correct one arrives late
    assert!(m.try_materialize(&meta(1, P)).is_ok());
}

#[test]
fn h10_duplicate_native_closes_single_mint() {
    let mut m = Materializer::new();
    m.arm(meta(1, P), true).unwrap();
    m.on_committed(&tid(1), P);
    m.on_native(&tid(1), P, ep(7));
    m.on_native(&tid(1), P, ep(8)); // duplicate delivery
    assert_eq!(m.closed_junk(), 1);
    let got = m.try_materialize(&meta(1, P)).unwrap();
    assert_eq!(got.raw, 7); // first valid endpoint wins
    assert_eq!(
        m.try_materialize(&meta(1, P)),
        Err(JoinReject::AlreadyMaterialized)
    );
}

#[test]
fn late_native_after_abort_never_mints() {
    let mut m = Materializer::new();
    m.arm(meta(1, P), true).unwrap();
    m.on_native(&tid(1), P, ep(7));
    let junk = m.on_aborted(&tid(1), P);
    assert_eq!(junk.map(|j| j.raw), Some(7)); // caller closes it
    m.on_native(&tid(1), P, ep(9)); // late straggler
    m.on_committed(&tid(1), P);
    assert_eq!(
        m.try_materialize(&meta(1, P)),
        Err(JoinReject::NotAuthorized)
    );
    assert!(m.closed_junk() >= 1);
}

#[test]
fn unauthorized_target_never_mints() {
    let mut m = Materializer::new();
    m.arm(meta(1, P), false).unwrap(); // recipient != authorized target
    m.on_committed(&tid(1), P);
    m.on_native(&tid(1), P, ep(7));
    assert_eq!(
        m.try_materialize(&meta(1, P)),
        Err(JoinReject::NotAuthorized)
    );
}

#[test]
fn consumer_role_independent_of_producer_role() {
    let mut m = Materializer::new();
    m.arm(meta(1, P), true).unwrap();
    m.arm(meta(1, C), true).unwrap();
    m.on_committed(&tid(1), P);
    m.on_native(&tid(1), C, ep(11));
    // Producer arc missing native: cannot mint; consumer missing commit:
    // cannot mint; each role joins independently.
    assert_eq!(
        m.try_materialize(&meta(1, P)),
        Err(JoinReject::NotAuthorized)
    );
    assert_eq!(
        m.try_materialize(&meta(1, C)),
        Err(JoinReject::NotAuthorized)
    );
    m.on_native(&tid(1), P, ep(10));
    m.on_committed(&tid(1), C);
    assert_eq!(m.try_materialize(&meta(1, P)).unwrap().raw, 10);
    assert_eq!(m.try_materialize(&meta(1, C)).unwrap().raw, 11);
    m.reap();
    assert_eq!(m.pending(), 0);
    // Post-reap replay fails closed.
    m.arm(meta(1, P), true).unwrap_err();
}

/// whatever comes after an abort, and in whatever order, nothing is handed
/// out.
#[test]
fn aborted_join_stays_aborted_over_any_series() {
    let mut m = Materializer::new();
    m.arm(meta(1, P), true).unwrap();
    m.on_native(&tid(1), P, ep(7));
    assert_eq!(m.on_aborted(&tid(1), P), Some(ep(7)));
    for i in 0..20 {
        match i % 5 {
            0 => assert!(!m.on_committed(&tid(1), P)),
            1 => m.on_native(&tid(1), P, ep(i)),
            2 => assert!(m.arm(meta(1, P), true).is_err()),
            3 => assert_eq!(m.on_aborted(&tid(1), P), None),
            _ => m.reap(),
        }
        assert!(m.try_materialize(&meta(1, P)).is_err());
    }
    assert_eq!(m.pending(), 0);
}

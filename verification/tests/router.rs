use authority_fabric::fabric_error::Cause;
use authority_fabric::frame::{
    Attachment, DataInner, Frame, XferMsg, ERR_CAPACITY, XFER_ST_ABORTED, XFER_ST_COMMITTED, XFER_ST_UNKNOWN,
};
use authority_fabric::id::{fresh_transfer_id, EpId, NoneTaken, TransferId};
use authority_fabric::limits::Limits;
use authority_fabric::native::ResourceId;
use authority_fabric::router::{Holder, HostEvent, PeerId, Poison, Router, HOST_PEER};
use authority_fabric::shared::{RegionId, Rights};

fn hello_ok(r: &mut Router, p: PeerId) {
    r.on_hello(
        p,
        Limits::default().hello_magic,
        Limits::default().hello_version,
    )
    .unwrap();
}

fn grant_commit(r: &mut Router, to: PeerId, ep: EpId) {
    let f = r.grant(to, ep).unwrap();
    let tid = match f {
        Frame::Grant { tid, .. } => tid,
        other => panic!("grant produced {other:?}"),
    };
    r.on_xfer(to, XferMsg::Accept { tid }).unwrap();
    // retire terminal result (real peers ack via ResultAck)
    r.on_xfer(to, XferMsg::ResultAck { tid }).unwrap();
    assert_eq!(r.holder_of(ep), Some(Holder::Peer(to)));
    assert!(r.authority_mass_ok());
    assert_eq!(r.accounting().unacked_results, 0);
}

fn att(id: EpId, partner: EpId) -> Attachment {
    Attachment {
        tid: TransferId(id.0),
        id,
        partner,
    }
}

/// Two accepted, hello'd peers; root pair granted A=x, B=y.
fn primed() -> (Router, PeerId, PeerId, EpId, EpId) {
    let mut r = Router::new(Limits::default());
    let a = r.accept_peer();
    let b = r.accept_peer();
    hello_ok(&mut r, a);
    hello_ok(&mut r, b);
    let (x, y) = r.create_host_pair().unwrap();
    grant_commit(&mut r, a, x);
    grant_commit(&mut r, b, y);
    (r, a, b, x, y)
}

fn data(target: EpId, atts: Vec<Attachment>) -> DataInner {
    DataInner {
        target,
        corr: 1,
        attachments: atts,
        payload: b"x".to_vec(),
        native: None,
        shared: None,
    }
}

fn shared_data(target: EpId, rid: RegionId, rights: u8) -> DataInner {
    DataInner {
        target,
        corr: 1,
        attachments: vec![],
        payload: b"meta".to_vec(),
        native: None,
        shared: Some(authority_fabric::frame::SharedAttachment {
            tid: fresh_transfer_id(&NoneTaken).unwrap(),
            rid,
            rights,
            handle_value: 777,
        }),
    }
}

// ---- shared-region authority  ----

fn region() -> RegionId {
    RegionId([9; 16])
}

#[test]
fn host_grant_rw_commits_and_moves_writer_authority() {
    let lim = Limits::default();
    let (mut r, a, b, x, y) = primed();
    let rid = region();
    r.region_create(rid, 4096, &lim).unwrap();
    let ra = r.region_accounting();
    assert_eq!(ra.writable_authorities, 1);
    assert_eq!(ra.readonly_authorities, 0);

    // Grant RW to peer a.
    let (_tid, oc) = r
        .host_grant_region(a, x, 1, rid, Rights::ReadWrite)
        .unwrap();
    assert!(matches!(
        oc.send.as_slice(),
        [(_, Frame::Data(d))] if d.shared.is_some()
    ));
    r.on_xfer(a, XferMsg::Accept { tid: _tid }).unwrap();
    let out = r.xfer_accept(a, _tid).unwrap(); // idempotent re-accept
    assert!(out.send.is_empty());

    // Writer moved off the Host sentinel onto the peer.
    assert_eq!(r.region_accounting().writable_authorities, 1);
    assert_eq!(r.region_size(rid), Some(4096));

    // Second writer grant is rejected (write_authority_count <= 1).
    assert!(r
        .host_grant_region(b, y, 2, rid, Rights::ReadWrite)
        .is_err());
}

#[test]
fn host_grant_ro_adds_reader_without_touching_writer() {
    let lim = Limits::default();
    let (mut r, a, b, x, y) = primed();
    let rid = region();
    r.region_create(rid, 4096, &lim).unwrap();
    let (t1, _) = r
        .host_grant_region(a, x, 1, rid, Rights::ReadWrite)
        .unwrap();
    r.on_xfer(a, XferMsg::Accept { tid: t1 }).unwrap();

    let before = r.region_accounting();
    let (t2, _) = r.host_grant_region(b, y, 2, rid, Rights::ReadOnly).unwrap();
    r.on_xfer(b, XferMsg::Accept { tid: t2 }).unwrap();
    let after = r.region_accounting();
    assert_eq!(after.writable_authorities, before.writable_authorities);
    assert_eq!(after.readonly_authorities, before.readonly_authorities + 1);
}

#[test]
fn unknown_region_offer_poisons() {
    let (mut r, a, _, x, _) = primed();
    let err = r
        .on_data(a, shared_data(x, RegionId([1; 16]), 1))
        .unwrap_err();
    assert_eq!(err.0, "unknown region id");
}

#[test]
fn rights_claim_from_non_holder_poisons() {
    let lim = Limits::default();
    let (mut r, a, b, _x, y) = primed();
    let rid = region();
    r.region_create(rid, 4096, &lim).unwrap();
    // Host holds RW; peer b claims it -> denied.
    let err = r.on_data(b, shared_data(y, rid, 1)).unwrap_err();
    assert_eq!(err.0, "shared rights claim denied");
    // Unknown rights byte -> poison.
    let err = r.on_data(a, shared_data(_x, rid, 9)).unwrap_err();
    assert_eq!(err.0, "unknown shared rights byte");
}

#[test]
fn rw_transfer_commit_moves_writer_between_peers() {
    let lim = Limits::default();
    let (mut r, a, b, x, _y) = primed();
    let rid = region();
    r.region_create(rid, 4096, &lim).unwrap();
    let (t0, _) = r
        .host_grant_region(a, x, 1, rid, Rights::ReadWrite)
        .unwrap();
    r.on_xfer(a, XferMsg::Accept { tid: t0 }).unwrap();
    r.on_xfer(a, XferMsg::ResultAck { tid: t0 }).unwrap();

    // a stages RW toward b (dest resolved by target ep ownership).
    let oc = r.on_data(a, shared_data(x, rid, 1)).unwrap();
    assert!(oc
        .send
        .iter()
        .all(|(_, f)| matches!(f, Frame::Data(d) if d.shared.is_some()))); // offer forwarded to dest
    let tid = r.shared_pending_ids()
        .first()
        .copied()
        .expect("staged pending");
    let out = r.on_xfer(b, XferMsg::Accept { tid }).unwrap();
    // Commit frame carries Host-authoritative rights+size.
    assert!(out.send.iter().any(|(_, f)| matches!(
        f,
        Frame::Xfer(XferMsg::SharedCommit {
            rights: 1,
            size: 4096,
            ..
        })
    )));
    assert_eq!(r.accounting().shared_pending, 0);
    assert_eq!(r.accounting().shared_unacked, 1);

    // Sender ack retires result + live rid slot.
    r.on_xfer(a, XferMsg::ResultAck { tid }).unwrap();
    let acct = r.accounting();
    assert_eq!(acct.shared_unacked, 0);
    assert_eq!(acct.shared_pending, 0);
}

#[test]
fn rw_transfer_abort_restores_sender_authority_unchanged() {
    let lim = Limits::default();
    let (mut r, a, b, x, _y) = primed();
    let rid = region();
    r.region_create(rid, 4096, &lim).unwrap();
    let (t0, _) = r
        .host_grant_region(a, x, 1, rid, Rights::ReadWrite)
        .unwrap();
    r.on_xfer(a, XferMsg::Accept { tid: t0 }).unwrap();
    r.on_xfer(a, XferMsg::ResultAck { tid: t0 }).unwrap();

    let _oc = r.on_data(a, shared_data(x, rid, 1)).unwrap();
    let tid = r.shared_pending_ids()
        .first()
        .copied()
        .expect("staged pending");
    // Recipient rejects pre-commit.
    let out = r.on_xfer(b, XferMsg::Reject { tid }).unwrap();
    assert!(out
        .send
        .iter()
        .any(|(_, f)| matches!(f, Frame::Xfer(XferMsg::Abort { .. }))));
    // Authority never moved: writer is still peer a. Result retained
    // until the sender acknowledges.
    assert_eq!(r.accounting().shared_unacked, 1);
    r.on_xfer(a, XferMsg::ResultAck { tid }).unwrap();
    assert_eq!(r.accounting().shared_unacked, 0);
}

#[test]
fn ro_holder_cannot_stage_rw_claim() {
    let lim = Limits::default();
    let (mut r, a, b, x, y) = primed();
    let rid = region();
    r.region_create(rid, 4096, &lim).unwrap();
    let (t0, _) = r
        .host_grant_region(a, x, 1, rid, Rights::ReadWrite)
        .unwrap();
    r.on_xfer(a, XferMsg::Accept { tid: t0 }).unwrap();
    r.on_xfer(a, XferMsg::ResultAck { tid: t0 }).unwrap();
    let (t1, _) = r.host_grant_region(b, y, 2, rid, Rights::ReadOnly).unwrap();
    r.on_xfer(b, XferMsg::Accept { tid: t1 }).unwrap();

    // Reader attempts escalation to RW -> fail closed.
    let err = r.on_data(b, shared_data(y, rid, 1)).unwrap_err();
    assert_eq!(err.0, "shared rights claim denied");
}

#[test]
fn ro_transfer_moves_reader_authority() {
    let lim = Limits::default();
    let (mut r, a, b, x, y) = primed();
    let rid = region();
    r.region_create(rid, 4096, &lim).unwrap();
    let (t0, _) = r
        .host_grant_region(a, x, 1, rid, Rights::ReadWrite)
        .unwrap();
    r.on_xfer(a, XferMsg::Accept { tid: t0 }).unwrap();
    r.on_xfer(a, XferMsg::ResultAck { tid: t0 }).unwrap();
    let (t1, _) = r.host_grant_region(b, y, 2, rid, Rights::ReadOnly).unwrap();
    r.on_xfer(b, XferMsg::Accept { tid: t1 }).unwrap();
    assert_eq!(r.region_accounting().readonly_authorities, 1);

    // b hands its RO view onward to a (pair-routing: target y, partner x
    // resolves dest=a). Rights byte 0 = ReadOnly claim, validated against
    // b's recorded RO authority.
    let oc = r.on_data(b, shared_data(y, rid, 0)).unwrap();
    assert!(oc
        .send
        .iter()
        .all(|(_, f)| matches!(f, Frame::Data(d) if d.shared.is_some())));
    let tid = r.shared_pending_ids()
        .first()
        .copied()
        .expect("staged RO pending");
    r.on_xfer(a, XferMsg::Accept { tid }).unwrap();
    // Reader count unchanged by a move (b lost it, a gained it).
    assert_eq!(r.region_accounting().readonly_authorities, 1);
    r.on_xfer(b, XferMsg::ResultAck { tid }).unwrap();
}

/// The grant->materialize transition must be deterministic. 100
/// consecutive grant/commit/ack cycles with zero timing dependence; the
/// writer holder flips Host-sentinel -> peer -> (next cycle) sentinel.
#[test]
fn hundred_grant_materialize_cycles_deterministic() {
    let lim = Limits::default();
    let (mut r, a, b, x, y) = primed();
    let rid = region();
    r.region_create(rid, 4096, &lim).unwrap();
    // Establish: Host -> a (the grant/materialize/ack conjunction).
    let (tid0, _) = r
        .host_grant_region(a, x, 0, rid, Rights::ReadWrite)
        .unwrap();
    r.on_xfer(a, XferMsg::Accept { tid: tid0 }).unwrap();
    r.on_xfer(a, XferMsg::ResultAck { tid: tid0 }).unwrap();

    // 100 deterministic writer flips through the peer-staging path:
    // every cycle is offer -> accept -> commit -> materialize-ack with
    // zero timing dependence.
    for i in 0..100u32 {
        let (from, to, from_ep) = if i % 2 == 0 { (a, b, x) } else { (b, a, y) };
        let _oc = r
            .on_data(from, shared_data(from_ep, rid, 1))
            .unwrap_or_else(|e| panic!("cycle {i} stage: {e:?}"));
        assert_eq!(r.accounting().shared_pending, 1);
        assert_eq!(r.region_writable_holder(rid), Some(from));
        let tid = *r.shared_pending_ids().first().expect("pending");
        r.on_xfer(to, XferMsg::Accept { tid }).unwrap();
        assert_eq!(r.region_writable_holder(rid), Some(to), "cycle {i}: holder");
        r.on_xfer(from, XferMsg::ResultAck { tid }).unwrap();
        assert_eq!(r.accounting().shared_unacked, 0, "cycle {i}");
        assert_eq!(r.accounting().shared_pending, 0, "cycle {i}");
    }
}

/// The Host sentinel is not claimable. Peers cannot be granted as
/// the sentinel, cannot stage offers from it, and host-only shared
/// frames sent BY a peer are poisoned like their native twins.
#[test]
fn host_sentinel_cannot_be_impersonated() {
    let lim = Limits::default();
    let (mut r, a, b, x, y) = primed();
    let rid = region();
    r.region_create(rid, 4096, &lim).unwrap();

    // Granting TO the sentinel is nonsense and rejected outright.
    assert!(r
        .host_grant_region(PeerId(HOST_PEER), x, 0, rid, Rights::ReadWrite)
        .is_err());

    // A peer staging an offer is bound by its wire peer id: even a
    // hand-crafted SharedRec with sender=HOST would never enter through
    // on_data, whose `from` is connection-assigned. Prove the claim
    // validation rejects a peer offering when the table records HOST:
    let err = r.on_data(a, shared_data(x, rid, 1)).unwrap_err();
    assert_eq!(err.0, "shared rights claim denied");

    // Peer-sent SharedCommit / SharedAbort are host-only frames.
    let tid = fresh_transfer_id(&NoneTaken).unwrap();
    let p1 = r.on_xfer(
        b,
        XferMsg::SharedCommit {
            tid,
            rid,
            rights: 1,
            size: 4096,
            handle_value: 5,
        },
    );
    assert_eq!(p1.unwrap_err().0, "peer sent host-only xfer");
    let p2 = r.on_xfer(
        b,
        XferMsg::SharedAbort {
            tid,
            rid,
            handle_value: 5,
        },
    );
    assert_eq!(p2.unwrap_err().0, "peer sent host-only xfer");

    // Sanity after hostility: table untouched.
    assert_eq!(r.region_accounting().writable_authorities, 1);
    assert_eq!(
        r.region_writable_holder(rid),
        Some(PeerId(HOST_PEER))
    );
    let _ = y;
}

#[test]
fn sender_death_drops_staged_shared_and_keeps_table_consistent() {
    let lim = Limits::default();
    let (mut r, a, _b, x, _y) = primed();
    let rid = region();
    r.region_create(rid, 4096, &lim).unwrap();
    let (t0, _) = r
        .host_grant_region(a, x, 1, rid, Rights::ReadWrite)
        .unwrap();
    r.on_xfer(a, XferMsg::Accept { tid: t0 }).unwrap();
    let _ = r.on_data(a, shared_data(x, rid, 1)).unwrap();
    assert_eq!(r.accounting().shared_pending, 1);
    // Sender dies pre-commit: escrow bookkeeping aborts, writer stays a.
    r.on_eof(a);
    assert_eq!(r.accounting().shared_pending, 0);
    // Writer died too: slot vacated, no auto re-mint.
    assert_eq!(r.region_accounting().writable_authorities, 0);
}

#[test]
fn unknown_target_quarantines() {
    let (mut r, a, _, _, _) = primed();
    let err = r
        .on_data(a, data(EpId::from_raw([0x01; 16]), vec![]))
        .unwrap_err();
    assert_eq!(err, Poison("unknown endpoint identity"));
}

#[test]
fn stale_target_soft_rejected() {
    let (mut r, a, _, x, y) = primed();
    r.on_close(a, x).unwrap();
    let oc = r.on_data(a, data(x, vec![])).expect("stale is not poison");
    assert!(
        oc.send.iter().any(|(dest, f)| {
            *dest == a
                && matches!(f, Frame::ClosedNotify { entries } if entries.iter().any(|(id, _)| *id == x))
        }),
        "corrective ClosedNotify to former holder: {oc:?}"
    );
    assert!(r.holder_of(x).is_none());
    assert!(r.holder_of(y).is_none());
    assert!(r.is_retired(x));
    assert!(r.is_retired(y));
    // Identity never resurrects.
    assert!(r.holder_of(x).is_none());
}

#[test]
fn unauthorized_use_quarantines() {
    let (mut r, _, b, x, _) = primed();
    let err = r.on_data(b, data(x, vec![])).unwrap_err();
    assert_eq!(err, Poison("identity not held by sender"));
}

#[test]
fn forged_attachment_quarantines() {
    let (mut r, a, _, x, y) = primed();
    // y is held by B; A attaching it is forgery.
    let err = r
        .on_data(a, data(x, vec![att(y, r.partner_of(y).unwrap())]))
        .unwrap_err();
    assert_eq!(err, Poison("identity not held by sender"));
}

#[test]
fn topology_lie_quarantines() {
    let (mut r, a, _, x, _) = primed();
    let oc = r.on_create(a).unwrap();
    let (imp, tra) = match &oc.send[0].1 {
        Frame::CreateAck {
            impl_ep,
            transferable_ep,
        } => (*impl_ep, *transferable_ep),
        other => panic!("expected CreateAck, got {other:?}"),
    };
    let err = r
        .on_data(
            a,
            data(
                x,
                vec![Attachment {
                    tid: TransferId(tra.0),
                    id: tra,
                    partner: {
                        let mut p = imp.0;
                        p[0] ^= 1;
                        EpId(p)
                    },
                }],
            ),
        )
        .unwrap_err();
    assert_eq!(
        err,
        Poison("attachment partner metadata contradicts fabric")
    );
    let _ = imp;
}

#[test]
fn transfer_moves_ownership() {
    let (mut r, a, b, x, _) = primed();
    let oc = r.on_create(a).unwrap();
    let (imp, tra) = match &oc.send[0].1 {
        Frame::CreateAck {
            impl_ep,
            transferable_ep,
        } => (*impl_ep, *transferable_ep),
        other => panic!("expected CreateAck, got {other:?}"),
    };
    let partner = r.partner_of(tra).unwrap();
    assert_eq!(partner, imp);
    assert_eq!(r.holder_of(tra), Some(Holder::Peer(a)));

    let oc = r.on_data(a, data(x, vec![att(tra, imp)])).unwrap();
    assert!(matches!(r.holder_of(tra), Some(Holder::Escrow(_))));
    assert!(
        oc.send.iter().any(|(dest, f)| {
            *dest == b
                && matches!(
                    f,
                    Frame::Data(d) if d.attachments.iter().any(|att| att.id == tra)
                )
        }),
        "forwarded DATA with attachment must reach recipient: {oc:?}"
    );
    let tid = match r.holder_of(tra) {
        Some(Holder::Escrow(t)) => t,
        other => panic!("{other:?}"),
    };
    r.on_xfer(b, XferMsg::Accept { tid }).unwrap();
    assert_eq!(r.holder_of(tra), Some(Holder::Peer(b)));
    assert!(r.authority_mass_ok());

    let err = r.on_data(a, data(x, vec![att(tra, imp)])).unwrap_err();
    assert_eq!(err, Poison("identity not held by sender"));
}

#[test]
fn peer_host_only_frame_poisons() {
    let (mut r, a, _, _, _) = primed();
    let p = r.on_illegal(a, "peer sent host-only frame");
    assert_eq!(p, Poison("peer sent host-only frame"));
}

#[test]
fn create_capacity_yields_error_frame() {
    let mut r = Router::new(Limits {
        max_live_endpoints: 4,
        ..Limits::default()
    });
    let a = r.accept_peer();
    hello_ok(&mut r, a);
    let _ = r.create_host_pair().unwrap(); // 2 live
    let oc = r.on_create(a).unwrap(); // 4 live
    assert!(matches!(oc.send[0].1, Frame::CreateAck { .. }));
    let oc = r.on_create(a).unwrap();
    assert!(
        matches!(oc.send[0].1, Frame::Error(ERR_CAPACITY)),
        "expected capacity error, got {oc:?}"
    );
    assert_eq!(r.accounting().live_endpoints, 4);
}

#[test]
fn eof_notifies_survivor_and_retires_both() {
    let (mut r, a, b, x, y) = primed();
    let (h1, h2) = r.create_host_pair().unwrap();
    grant_commit(&mut r, a, h1);
    let oc = r.on_eof(a);
    assert!(
        oc.send.iter().any(|(dest, f)| {
            *dest == b
                && matches!(
                    f,
                    Frame::ClosedNotify { entries }
                        if entries.iter().any(|(id, c)| *id == y && *c == Cause::PeerLost)
                )
        }),
        "survivor ClosedNotify PeerLost: {oc:?}"
    );
    assert!(r.holder_of(x).is_none());
    assert!(r.holder_of(y).is_none());
    assert!(r.is_retired(x) && r.is_retired(y));
    let ev = r.take_host_events();
    assert!(
        ev.iter().any(|e| matches!(
            e,
            HostEvent::EndpointClosed { ep, cause: Cause::PeerLost } if *ep == h2
        )),
        "host-held partner surfaces: {ev:?}"
    );
}

#[test]
fn shutdown_is_graceful() {
    let (mut r, a, b, _, y) = primed();
    let oc = r.on_shutdown(a);
    assert!(oc.send.iter().any(|(dest, f)| {
        *dest == b
            && matches!(
                f,
                Frame::ClosedNotify { entries }
                    if entries.iter().any(|(id, c)| *id == y && *c == Cause::Graceful)
            )
    }));
    assert_eq!(r.accounting().peers, 1);
    let err = r.on_data(a, data(y, vec![])).unwrap_err();
    assert_eq!(err, Poison("frame from unknown peer"));
}

#[test]
fn hello_gating() {
    let mut r = Router::new(Limits::default());
    let a = r.accept_peer();
    let err = r
        .on_data(a, data(EpId::from_raw([1; 16]), vec![]))
        .unwrap_err();
    assert_eq!(err, Poison("traffic before hello"));

    hello_ok(&mut r, a);
    let err = r
        .on_hello(
            a,
            Limits::default().hello_magic,
            Limits::default().hello_version,
        )
        .unwrap_err();
    assert_eq!(err, Poison("duplicate hello"));

    let b = r.accept_peer();
    let err = r.on_hello(b, 0x0000, 1).unwrap_err();
    assert_eq!(err, Poison("bad hello magic"));
    let c = r.accept_peer();
    let err = r
        .on_hello(c, Limits::default().hello_magic, 99)
        .unwrap_err();
    assert_eq!(err, Poison("bad protocol version"));
}

#[test]
fn results_retained_until_sender_ack_and_bounds_new_work() {
    let mut r = Router::new(Limits {
        max_pending_transfers: 2,
        max_live_endpoints: 4096,
        ..Limits::default()
    });
    let a = r.accept_peer();
    let b = r.accept_peer();
    hello_ok(&mut r, a);
    hello_ok(&mut r, b);
    let (x, y) = r.create_host_pair().unwrap();
    grant_commit(&mut r, a, x);
    grant_commit(&mut r, b, y);
    // first transfer A->B
    let oc = r.on_create(a).unwrap();
    let (imp1, tra1) = match &oc.send[0].1 {
        Frame::CreateAck {
            impl_ep,
            transferable_ep,
        } => (*impl_ep, *transferable_ep),
        other => panic!("{other:?}"),
    };
    let oc = r.on_data(a, data(x, vec![att(tra1, imp1)])).unwrap();
    let tid1 = match r.holder_of(tra1) {
        Some(Holder::Escrow(t)) => t,
        other => panic!("{other:?}"),
    };
    let _ = oc; // forwarded
    r.on_xfer(b, XferMsg::Accept { tid: tid1 }).unwrap();
    assert_eq!(r.accounting().unacked_results, 1);
    assert_eq!(r.xfer_status(tid1), authority_fabric::frame::XFER_ST_COMMITTED);
    // second transfer
    let oc = r.on_create(a).unwrap();
    let (imp2, tra2) = match &oc.send[0].1 {
        Frame::CreateAck {
            impl_ep,
            transferable_ep,
        } => (*impl_ep, *transferable_ep),
        other => panic!("{other:?}"),
    };
    let oc = r.on_data(a, data(x, vec![att(tra2, imp2)])).unwrap();
    let tid2 = match r.holder_of(tra2) {
        Some(Holder::Escrow(t)) => t,
        other => panic!("{other:?}"),
    };
    let _ = oc;
    r.on_xfer(b, XferMsg::Accept { tid: tid2 }).unwrap();
    assert_eq!(r.accounting().unacked_results, 2);
    // bounded: next grant/create must be rejected, not silently queued
    let (h1, _h2) = r.create_host_pair().unwrap();
    // grant should fail due to results table full (pending+results >= cap)
    let err = r.grant(b, h1).unwrap_err();
    assert_eq!(err, Poison("pending transfer table full"));
    // create path also surfaces capacity error, not poison
    let oc = r.on_create(a).unwrap();
    assert!(matches!(oc.send[0].1, Frame::Error(ERR_CAPACITY)));
    // sender ack retires one slot, new work can proceed
    r.on_xfer(a, XferMsg::ResultAck { tid: tid1 }).unwrap();
    assert_eq!(r.accounting().unacked_results, 1);
    let (h3, _) = r.create_host_pair().unwrap();
    // now grant should succeed
    assert!(r.grant(b, h3).is_ok());
    assert!(r.authority_mass_ok());
}

#[test]
fn result_ack_idempotent_and_sender_bound() {
    let (mut r, a, b, x, _) = primed();
    let oc = r.on_create(a).unwrap();
    let (imp, tra) = match &oc.send[0].1 {
        Frame::CreateAck {
            impl_ep,
            transferable_ep,
        } => (*impl_ep, *transferable_ep),
        other => panic!("{other:?}"),
    };
    let oc = r.on_data(a, data(x, vec![att(tra, imp)])).unwrap();
    let tid = match r.holder_of(tra) {
        Some(Holder::Escrow(t)) => t,
        other => panic!("{other:?}"),
    };
    let _ = oc;
    r.on_xfer(b, XferMsg::Accept { tid }).unwrap();
    assert_eq!(r.xfer_status(tid), authority_fabric::frame::XFER_ST_COMMITTED);
    // third-party ack is no-op
    r.on_xfer(b, XferMsg::ResultAck { tid }).unwrap();
    assert_eq!(r.accounting().unacked_results, 1);
    assert_eq!(r.xfer_status(tid), authority_fabric::frame::XFER_ST_COMMITTED);
    // sender ack retires
    r.on_xfer(a, XferMsg::ResultAck { tid }).unwrap();
    assert_eq!(r.accounting().unacked_results, 0);
    assert_eq!(r.xfer_status(tid), authority_fabric::frame::XFER_ST_UNKNOWN);
    // duplicate is idempotent no-op
    r.on_xfer(a, XferMsg::ResultAck { tid }).unwrap();
    assert_eq!(r.accounting().unacked_results, 0);
    // abort case also idempotent
    let oc = r.on_create(a).unwrap();
    let (imp2, tra2) = match &oc.send[0].1 {
        Frame::CreateAck {
            impl_ep,
            transferable_ep,
        } => (*impl_ep, *transferable_ep),
        other => panic!("{other:?}"),
    };
    let oc = r.on_data(a, data(x, vec![att(tra2, imp2)])).unwrap();
    let tid2 = match r.holder_of(tra2) {
        Some(Holder::Escrow(t)) => t,
        other => panic!("{other:?}"),
    };
    let _ = oc;
    r.on_xfer(b, XferMsg::Reject { tid: tid2 }).unwrap();
    assert_eq!(r.xfer_status(tid2), authority_fabric::frame::XFER_ST_ABORTED);
    r.on_xfer(b, XferMsg::ResultAck { tid: tid2 }).unwrap();
    assert_eq!(r.accounting().unacked_results, 1); // not retired by dest
    r.on_xfer(a, XferMsg::ResultAck { tid: tid2 }).unwrap();
    assert_eq!(r.accounting().unacked_results, 0);
}

#[test]
fn lost_committed_still_reported_as_committed_via_status() {
    let (mut r, a, b, x, _) = primed();
    r.inject.drop_committed = true;
    let oc = r.on_create(a).unwrap();
    let (imp, tra) = match &oc.send[0].1 {
        Frame::CreateAck {
            impl_ep,
            transferable_ep,
        } => (*impl_ep, *transferable_ep),
        other => panic!("{other:?}"),
    };
    let oc = r.on_data(a, data(x, vec![att(tra, imp)])).unwrap();
    let tid = match r.holder_of(tra) {
        Some(Holder::Escrow(t)) => t,
        other => panic!("{other:?}"),
    };
    let _ = oc;
    let out = r.on_xfer(b, XferMsg::Accept { tid }).unwrap();
    // Committed dropped, but status still COMMITTED via retained result
    assert!(out
        .send
        .iter()
        .all(|(_, f)| !matches!(f, Frame::Xfer(XferMsg::Committed { .. }))));
    assert_eq!(r.xfer_status(tid), authority_fabric::frame::XFER_ST_COMMITTED);
    let oc = r.on_xfer(a, XferMsg::Status { tid }).unwrap();
    assert!(oc.send.iter().any(|(dest, f)| {
        *dest == a && matches!(f, Frame::Xfer(XferMsg::StatusAck { tid: t, status }) if *t==tid && *status==authority_fabric::frame::XFER_ST_COMMITTED)
    }));
    // sender ack retires
    r.on_xfer(a, XferMsg::ResultAck { tid }).unwrap();
    assert_eq!(r.accounting().unacked_results, 0);
    let oc = r.on_xfer(a, XferMsg::Status { tid }).unwrap();
    assert!(oc.send.iter().any(|(_, f)| matches!(f, Frame::Xfer(XferMsg::StatusAck { status, .. }) if *status==authority_fabric::frame::XFER_ST_UNKNOWN)));
    r.inject.drop_committed = false;
}

#[test]
fn abort_restores_to_sender_and_commit_does_not() {
    let (mut r, a, b, x, y) = primed();
    // Pre-commit abort: dest Rejects -> holder returns to sender
    let oc = r.on_create(a).unwrap();
    let (imp, tra) = match &oc.send[0].1 {
        Frame::CreateAck {
            impl_ep,
            transferable_ep,
        } => (*impl_ep, *transferable_ep),
        other => panic!("{other:?}"),
    };
    let oc = r.on_data(a, data(x, vec![att(tra, imp)])).unwrap();
    let tid = match r.holder_of(tra) {
        Some(Holder::Escrow(t)) => t,
        other => panic!("{other:?}"),
    };
    let _ = oc;
    r.on_xfer(b, XferMsg::Reject { tid }).unwrap();
    assert_eq!(r.holder_of(tra), Some(Holder::Peer(a)));
    assert_eq!(r.xfer_status(tid), authority_fabric::frame::XFER_ST_ABORTED);
    r.on_xfer(a, XferMsg::ResultAck { tid }).unwrap();
    // Post-commit death: authority dies with dest, not restored
    let oc = r.on_create(a).unwrap();
    let (imp2, tra2) = match &oc.send[0].1 {
        Frame::CreateAck {
            impl_ep,
            transferable_ep,
        } => (*impl_ep, *transferable_ep),
        other => panic!("{other:?}"),
    };
    let oc = r.on_data(a, data(x, vec![att(tra2, imp2)])).unwrap();
    let tid2 = match r.holder_of(tra2) {
        Some(Holder::Escrow(t)) => t,
        other => panic!("{other:?}"),
    };
    let _ = oc;
    r.on_xfer(b, XferMsg::Accept { tid: tid2 }).unwrap();
    assert_eq!(r.holder_of(tra2), Some(Holder::Peer(b)));
    // kill dest
    let _ = r.on_eof(b);
    // y's pair was B-held, tra2 dies with B if we killed B after commit
    // tra2 was also B-held; after peer gone, its conversation is closed
    assert!(r.holder_of(tra2).is_none());
    // tid2 still terminal COMMITTED in results until sender ack, but authority not restored
    assert_eq!(r.xfer_status(tid2), authority_fabric::frame::XFER_ST_COMMITTED);
    // sender ack retires
    r.on_xfer(a, XferMsg::ResultAck { tid: tid2 }).unwrap();
    assert_eq!(r.holder_of(tra2), None);
    let _ = y;
}

#[test]
fn churn_and_drop_storm_keep_accounting_clean() {
    let mut r = Router::new(Limits {
        max_live_endpoints: 64,
        max_pending_transfers: 256,
        ..Limits::default()
    });
    let a = r.accept_peer();
    let b = r.accept_peer();
    hello_ok(&mut r, a);
    hello_ok(&mut r, b);
    let (x, y) = r.create_host_pair().unwrap();
    grant_commit(&mut r, a, x);
    grant_commit(&mut r, b, y);
    // churn 500 transfers
    for _ in 0..500 {
        let oc = r.on_create(a).unwrap();
        let (imp, tra) = match &oc.send[0].1 {
            Frame::CreateAck {
                impl_ep,
                transferable_ep,
            } => (*impl_ep, *transferable_ep),
            other => panic!("{other:?}"),
        };
        let oc = r.on_data(a, data(x, vec![att(tra, imp)])).unwrap();
        let tid = match r.holder_of(tra) {
            Some(Holder::Escrow(t)) => t,
            other => panic!("{other:?}"),
        };
        let _ = oc;
        r.on_xfer(b, XferMsg::Accept { tid }).unwrap();
        assert_eq!(r.holder_of(tra), Some(Holder::Peer(b)));
        r.on_xfer(a, XferMsg::ResultAck { tid }).unwrap();
        // simulate recipient closing then mass stays ok
        let _ = r.on_close(b, tra);
        assert!(r.authority_mass_ok());
    }
    assert_eq!(r.accounting().unacked_results, 0);
    assert!(r.authority_mass_ok());
    assert!(r.accounting().retired_identities <= Limits::default().max_retired);
    // ancient replay: unknown tid Accept should be Poison, not silent success
    let fake = TransferId([0xFF; 16]);
    let err = r.on_xfer(b, XferMsg::Accept { tid: fake }).unwrap_err();
    assert_eq!(err, Poison("unknown transfer id"));
}

#[test]
fn capacity_abort_reports_aborted_and_no_parked_hang() {
    let (_r, _a, _b, _x, _) = primed();
    // Abort via explicit Reject must restore to sender and be ackable.
    let mut r2 = Router::new(Limits::default());
    let a2 = r2.accept_peer();
    let b2 = r2.accept_peer();
    hello_ok(&mut r2, a2);
    hello_ok(&mut r2, b2);
    let (x2, y2) = r2.create_host_pair().unwrap();
    grant_commit(&mut r2, a2, x2);
    grant_commit(&mut r2, b2, y2);
    let oc = r2.on_create(a2).unwrap();
    let (imp, tra) = match &oc.send[0].1 {
        Frame::CreateAck {
            impl_ep,
            transferable_ep,
        } => (*impl_ep, *transferable_ep),
        other => panic!("{other:?}"),
    };
    let oc = r2.on_data(a2, data(x2, vec![att(tra, imp)])).unwrap();
    let tid = match r2.holder_of(tra) {
        Some(Holder::Escrow(t)) => t,
        other => panic!("{other:?}"),
    };
    let _ = oc;
    let out = r2.on_xfer(b2, XferMsg::Reject { tid }).unwrap();
    assert_eq!(r2.holder_of(tra), Some(Holder::Peer(a2)));
    assert_eq!(r2.xfer_status(tid), authority_fabric::frame::XFER_ST_ABORTED);
    let _ = out;
    r2.on_xfer(a2, XferMsg::ResultAck { tid }).unwrap();
    assert_eq!(r2.accounting().unacked_results, 0);
    assert!(r2.authority_mass_ok());
    // pending table full also surfaces as capacity Error, not hang
    let mut r3 = Router::new(Limits {
        max_pending_transfers: 1,
        ..Limits::default()
    });
    let a3 = r3.accept_peer();
    let b3 = r3.accept_peer();
    hello_ok(&mut r3, a3);
    hello_ok(&mut r3, b3);
    let (x3, y3) = r3.create_host_pair().unwrap();
    grant_commit(&mut r3, a3, x3);
    grant_commit(&mut r3, b3, y3);
    let oc = r3.on_create(a3).unwrap();
    let (imp3, tra3) = match &oc.send[0].1 {
        Frame::CreateAck {
            impl_ep,
            transferable_ep,
        } => (*impl_ep, *transferable_ep),
        other => panic!("{other:?}"),
    };
    let oc = r3.on_data(a3, data(x3, vec![att(tra3, imp3)])).unwrap();
    let tid3 = match r3.holder_of(tra3) {
        Some(Holder::Escrow(t)) => t,
        other => panic!("{other:?}"),
    };
    let _ = oc;
    assert_eq!(r3.accounting().pending_transfers, 1);
    // next transfer must be rejected via Error, not queued
    let oc2 = r3.on_create(a3).unwrap();
    let (imp4, tra4) = match &oc2.send[0].1 {
        Frame::CreateAck {
            impl_ep,
            transferable_ep,
        } => (*impl_ep, *transferable_ep),
        other => panic!("{other:?}"),
    };
    let oc = r3.on_data(a3, data(x3, vec![att(tra4, imp4)])).unwrap();
    assert!(matches!(oc.send[0].1, Frame::Error(ERR_CAPACITY)));
    let _ = tid3;
}

#[test]
fn native_happy_path() {
    let (mut r, a, b, x, _) = primed();
    let rid = ResourceId([9u8; 16]);
    let tid = TransferId([10u8; 16]);
    let native = authority_fabric::frame::NativeAttachment {
        tid,
        rid,
        handle_value: 12345,
    };
    let f = DataInner {
        target: x,
        corr: 1,
        attachments: vec![],
        payload: b"x".to_vec(),
        native: Some(native),
        shared: None,
    };
    let out = r.on_data(a, f).unwrap();
    assert!(out
        .send
        .iter()
        .any(|(dest, f)| *dest == b && matches!(f, Frame::Data(d) if d.native.is_some())));
    assert_eq!(r.accounting().native_pending, 1);
    r.on_xfer(b, XferMsg::Accept { tid }).unwrap();
    assert_eq!(r.native_holder(rid), Some(b));
    assert_eq!(r.accounting().native_unacked, 1);
    r.on_xfer(a, XferMsg::ResultAck { tid }).unwrap();
    assert_eq!(r.accounting().native_unacked, 0);
}

/// what the host granted is retired by its recipient, and by nobody else.
#[test]
fn host_granted_region_is_retired_by_its_recipient() {
    let lim = Limits::default();
    let (mut r, a, b, x, y) = primed();
    let rid = region();
    r.region_create(rid, 4096, &lim).unwrap();
    let (tid, _) = r.host_grant_region(a, x, 1, rid, Rights::ReadWrite).unwrap();
    r.on_xfer(a, XferMsg::Accept { tid }).unwrap();
    assert_eq!(r.xfer_status(tid), XFER_ST_COMMITTED);
    assert_eq!(r.accounting().shared_unacked, 1);
    // A third party's word does nothing.
    assert!(r.on_xfer(b, XferMsg::ResultAck { tid }).unwrap().send.is_empty());
    assert_eq!(r.xfer_status(tid), XFER_ST_COMMITTED);
    assert_eq!(r.accounting().shared_unacked, 1);
    // The recipient's retires it, once.
    assert!(r.on_xfer(a, XferMsg::ResultAck { tid }).unwrap().send.is_empty());
    assert_eq!(r.xfer_status(tid), XFER_ST_UNKNOWN);
    assert_eq!(r.accounting().shared_unacked, 0);
    r.on_xfer(a, XferMsg::ResultAck { tid }).unwrap();
    assert_eq!(r.accounting().shared_unacked, 0);
    // A grant that was called off is retired in the same way.
    let (tid, _) = r.host_grant_region(b, y, 2, rid, Rights::ReadOnly).unwrap();
    r.on_xfer(b, XferMsg::Reject { tid }).unwrap();
    assert_eq!(r.xfer_status(tid), XFER_ST_ABORTED);
    r.on_xfer(a, XferMsg::ResultAck { tid }).unwrap();
    assert_eq!(r.xfer_status(tid), XFER_ST_ABORTED);
    r.on_xfer(b, XferMsg::ResultAck { tid }).unwrap();
    assert_eq!(r.xfer_status(tid), XFER_ST_UNKNOWN);
}

/// Each refusal of a region offer, in the order in which they are looked at.
#[test]
fn region_offers_are_refused_in_order() {
    let lim = Limits { max_resources_in_escrow: 1, ..Limits::default() };
    let mut r = Router::new(lim);
    let a = r.accept_peer();
    hello_ok(&mut r, a);
    let (x, _) = r.create_host_pair().unwrap();
    let rid = region();
    let host = PeerId(HOST_PEER);
    assert!(matches!(
        r.host_grant_region(host, x, 1, rid, Rights::ReadWrite),
        Err(Poison("unknown region id"))
    ));
    r.region_create(rid, 4096, &lim).unwrap();
    assert!(matches!(
        r.host_grant_region(host, x, 1, rid, Rights::ReadWrite),
        Err(Poison("cannot grant to host sentinel"))
    ));
    let (tid, _) = r.host_grant_region(a, x, 1, rid, Rights::ReadWrite).unwrap();
    assert!(matches!(
        r.host_grant_region(a, x, 1, rid, Rights::ReadOnly),
        Err(Poison("shared escrow capacity"))
    ));
    assert_eq!(r.shared_pending_ids(), vec![tid]);
    r.on_xfer(a, XferMsg::Accept { tid }).unwrap();
    assert!(matches!(
        r.host_grant_region(a, x, 1, rid, Rights::ReadWrite),
        Err(Poison("second writer denied"))
    ));
    assert!(r.host_grant_region(a, x, 1, rid, Rights::ReadOnly).is_ok());
}

/// Each refusal of an endpoint offer; none of them changes anything.
#[test]
fn endpoint_offers_are_refused_in_order() {
    let lim = Limits { max_pending_transfers: 1, ..Limits::default() };
    let mut r = Router::new(lim);
    let a = r.accept_peer();
    hello_ok(&mut r, a);
    let (x, y) = r.create_host_pair().unwrap();
    assert!(matches!(
        r.grant(a, EpId([9; 16])),
        Err(Poison("grant of unknown/closed endpoint"))
    ));
    grant_commit(&mut r, a, x);
    assert!(matches!(
        r.grant(a, x),
        Err(Poison("grant of endpoint not held by host"))
    ));
    assert!(r.grant(a, y).is_ok());
    assert!(matches!(r.grant(a, x), Err(Poison("pending transfer table full"))));
}

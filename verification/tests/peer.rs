//! The runtime of one peer, fed by hand.

use authority_fabric::frame::{Attachment, DataInner, Frame, XferMsg, ERR_CAPACITY, XFER_ST_ABORTED, XFER_ST_COMMITTED, XFER_ST_PENDING};
use authority_fabric::id::TransferId;
use authority_fabric::peer::{Endpoint, Inbound, Outgoing, Polled, Reply, ReplyTurn, Runtime, TransferOutcome};
use authority_fabric::shared::{RegionId, Rights};
use authority_fabric::{Cause, EpId, FabError, Limits};

fn ep(n: u8) -> EpId {
    let mut b = [0u8; 16];
    b[15] = n;
    EpId(b)
}

fn tid(n: u8) -> TransferId {
    let mut b = [0u8; 16];
    b[15] = n;
    TransferId(b)
}

fn data(target: EpId, corr: u32, payload: &[u8]) -> Frame {
    Frame::Data(DataInner {
        target,
        corr,
        attachments: vec![],
        payload: payload.to_vec(),
        native: None,
        shared: None,
    })
}

fn sent(rt: &mut Runtime) -> Vec<Frame> {
    let mut v = Vec::new();
    while let Outgoing::Send(f) = rt.pop_out() {
        v.push(f);
    }
    v
}

/// A runtime that was granted the endpoint `a`, whose partner is `b`.
fn granted(a: u8, b: u8) -> Runtime {
    let mut rt = Runtime::new(Limits::default());
    assert!(rt.process(Frame::Grant { ep: ep(a), partner: ep(b), tid: tid(a) }));
    let out = sent(&mut rt);
    assert!(out.contains(&Frame::Xfer(XferMsg::Accept { tid: tid(a) })), "{out:?}");
    rt.process(Frame::Xfer(XferMsg::Commit { tid: tid(a), ep: ep(a), partner: ep(b) }));
    sent(&mut rt);
    rt
}

fn request(rt: &mut Runtime, on: u8, corr: u32) -> Inbound {
    // Messages carry the sender's endpoint; ours is its partner.
    assert!(rt.process(data(ep(on), corr, b"req")));
    match rt.wait_inbound(0, 0) {
        Ok(Polled::Ready(i)) => i,
        other => panic!("no message: {other:?}"),
    }
}

#[test]
fn greeting_carries_the_limits() {
    let l = Limits::default();
    let rt = Runtime::new(Limits::default());
    assert_eq!(rt.greeting(), Frame::Hello { magic: l.hello_magic, version: l.hello_version });
    assert_eq!(rt.limits().max_frame_body, l.max_frame_body);
}

#[test]
fn grant_gives_authority_only_at_commit() {
    let mut rt = Runtime::new(Limits::default());
    assert!(rt.process(Frame::Grant { ep: ep(1), partner: ep(2), tid: tid(1) }));
    assert!(rt.endpoint_for(ep(1)).is_none());
    assert!(matches!(rt.next_new_handle(&[], 0, 5), Ok(Polled::Wait(5))));
    rt.process(Frame::Xfer(XferMsg::Commit { tid: tid(1), ep: ep(1), partner: ep(2) }));
    assert_eq!(rt.endpoint_for(ep(1)).map(|e| e.id()), Some(ep(1)));
    assert_eq!(rt.live_handles(), vec![ep(1)]);
    assert!(matches!(rt.next_new_handle(&[], 0, 0), Ok(Polled::Ready(e)) if e == ep(1)));
    assert!(matches!(rt.next_new_handle(&[ep(1)], 7, 7), Err(FabError::Timeout)));
}

#[test]
fn call_is_answered_by_its_number() {
    let mut rt = granted(1, 2);
    let e = rt.endpoint_for(ep(1)).unwrap();
    assert!(rt.can_call());
    let corr = e.call(&mut rt, vec![9]).unwrap();
    assert_eq!(sent(&mut rt), vec![data(ep(1), corr, &[9])]);
    assert!(matches!(rt.poll_call(corr, 0, 4), Ok(Polled::Wait(4))));
    assert!(rt.process(data(ep(2), corr, b"yes")));
    match rt.poll_call(corr, 0, 4) {
        Ok(Polled::Ready(c)) => assert_eq!(c.payload, b"yes"),
        other => panic!("{other:?}"),
    }
}

#[test]
fn unanswered_call_times_out_once() {
    let mut rt = granted(1, 2);
    let e = rt.endpoint_for(ep(1)).unwrap();
    let corr = e.call(&mut rt, vec![]).unwrap();
    assert!(matches!(rt.poll_call(corr, 10, 10), Err(FabError::Timeout)));
    // The answer that comes too late is a request of its own kind now.
    let before = rt.accounting().inbound_backlog_msgs;
    assert!(rt.process(data(ep(2), corr, b"late")));
    assert_eq!(rt.accounting().inbound_backlog_msgs, before + 1);
}

#[test]
fn too_many_calls_are_pushed_back() {
    let lim = Limits { max_outstanding_requests: 2, ..Limits::default() };
    let mut rt = Runtime::new(lim);
    rt.process(Frame::Grant { ep: ep(1), partner: ep(2), tid: tid(1) });
    rt.process(Frame::Xfer(XferMsg::Commit { tid: tid(1), ep: ep(1), partner: ep(2) }));
    let e = rt.endpoint_for(ep(1)).unwrap();
    e.call(&mut rt, vec![]).unwrap();
    e.call(&mut rt, vec![]).unwrap();
    assert!(matches!(
        e.call(&mut rt, vec![]),
        Err(FabError::Backpressured { queued_msgs: 2, queued_bytes: 0 })
    ));
}

#[test]
fn closed_endpoint_answers_every_call() {
    let mut rt = granted(1, 2);
    let e = rt.endpoint_for(ep(1)).unwrap();
    let corr = e.call(&mut rt, vec![]).unwrap();
    rt.process(Frame::ClosedNotify { entries: vec![(ep(1), Cause::PeerLost)] });
    assert!(matches!(rt.poll_call(corr, 0, 9), Err(FabError::Closed(Cause::PeerLost))));
    assert!(matches!(e.call(&mut rt, vec![]), Err(FabError::Closed(Cause::PeerLost))));
    assert!(rt.live_handles().is_empty());
}

#[test]
fn closing_consumes_the_authority() {
    let mut rt = granted(1, 2);
    let e = rt.endpoint_for(ep(1)).unwrap();
    e.close(&mut rt).unwrap();
    assert_eq!(sent(&mut rt), vec![Frame::Close { target: ep(1) }]);
    assert!(rt.live_handles().is_empty());
}

#[test]
fn loss_of_the_fabric_fails_everything_and_stays() {
    let mut rt = granted(1, 2);
    let e = rt.endpoint_for(ep(1)).unwrap();
    let corr = e.call(&mut rt, vec![]).unwrap();
    rt.go_terminal(Cause::PeerLost);
    assert_eq!(rt.fabric_terminal(), Some(Cause::PeerLost));
    assert!(rt.poll_call(corr, 0, 9).is_err());
    assert!(e.call(&mut rt, vec![]).is_err());
    assert!(matches!(rt.create_endpoint(), Err(FabError::FabricLost)));
    assert!(matches!(rt.next_new_handle(&[], 0, 9), Err(FabError::FabricLost)));
    assert!(matches!(rt.wait_inbound(0, 9), Err(FabError::FabricLost)));
    assert!(rt.accounting().terminal);
    rt.go_terminal(Cause::Graceful);
    assert_eq!(rt.fabric_terminal(), Some(Cause::PeerLost));
}

#[test]
fn created_pair_belongs_to_its_creator() {
    let mut rt = Runtime::new(Limits::default());
    let ticket = rt.create_endpoint().unwrap();
    assert_eq!(sent(&mut rt), vec![Frame::Create]);
    // One at a time.
    assert!(matches!(rt.create_endpoint(), Err(FabError::Backpressured { .. })));
    assert!(matches!(rt.poll_create(ticket, 0, 3), Ok(Polled::Wait(3))));
    rt.process(Frame::CreateAck { impl_ep: ep(5), transferable_ep: ep(6) });
    match rt.poll_create(ticket, 0, 3) {
        Ok(Polled::Ready((a, b))) => assert_eq!((a.id(), b.id()), (ep(5), ep(6))),
        other => panic!("{other:?}"),
    }
    let mut live = rt.live_handles();
    live.sort();
    assert_eq!(live, vec![ep(5), ep(6)]);
}

#[test]
fn refused_creation_is_an_error() {
    let mut rt = Runtime::new(Limits::default());
    let ticket = rt.create_endpoint().unwrap();
    rt.process(Frame::Error(ERR_CAPACITY));
    assert!(matches!(rt.poll_create(ticket, 0, 3), Err(_)));
    // The next one can be tried.
    let t2 = rt.create_endpoint().unwrap();
    assert!(matches!(rt.poll_create(t2, 3, 3), Err(FabError::Timeout)));
}

fn offer(rt: &mut Runtime, req: &Inbound) -> (Endpoint, Vec<TransferId>, Reply) {
    let ticket = rt.create_endpoint().unwrap();
    rt.process(Frame::CreateAck { impl_ep: ep(5), transferable_ep: ep(6) });
    let (imp, tra) = match rt.poll_create(ticket, 0, 3) {
        Ok(Polled::Ready(p)) => p,
        other => panic!("{other:?}"),
    };
    sent(rt);
    let caps = vec![tra];
    assert!(rt.holds_all(&caps));
    let r = rt.reply(req, b"here".to_vec(), caps, 0).unwrap();
    let tids = match &sent(rt)[0] {
        Frame::Data(d) => {
            assert_eq!(d.payload, b"here");
            d.attachments.iter().map(|a: &Attachment| a.tid).collect::<Vec<_>>()
        }
        other => panic!("{other:?}"),
    };
    // What is given away is no longer held.
    assert!(rt.endpoint_for(ep(6)).is_none());
    (imp, tids, r)
}

fn finish(rt: &mut Runtime, mut r: Reply, now: u64) -> Result<TransferOutcome, FabError> {
    loop {
        match rt.poll_reply(r, now) {
            ReplyTurn::Again(n) => r = n,
            ReplyTurn::Wait(_, _) => panic!("undecided"),
            ReplyTurn::Done(d) => return d,
        }
    }
}

#[test]
fn plain_reply_goes_out_on_the_request_handle() {
    let mut rt = granted(1, 2);
    let req = request(&mut rt, 2, 40);
    assert_eq!((req.from, req.local, req.corr), (ep(2), ep(1), 40));
    let r = rt.reply(&req, b"ok".to_vec(), vec![], 0).unwrap();
    assert_eq!(sent(&mut rt), vec![data(ep(1), 40, b"ok")]);
    assert!(matches!(finish(&mut rt, r, 0), Ok(TransferOutcome::Committed)));
}

#[test]
fn committed_transfer_is_acknowledged() {
    let mut rt = granted(1, 2);
    let req = request(&mut rt, 2, 1);
    let (_imp, tids, r) = offer(&mut rt, &req);
    assert_eq!(tids.len(), 1);
    assert!(!tids[0].is_zero());
    assert!(matches!(rt.poll_reply(r, 0), ReplyTurn::Wait(_, 10000)));
}

#[test]
fn commit_ends_the_reply() {
    let mut rt = granted(1, 2);
    let req = request(&mut rt, 2, 1);
    let (_imp, tids, r) = offer(&mut rt, &req);
    rt.process(Frame::Xfer(XferMsg::Committed { tid: tids[0] }));
    assert!(matches!(finish(&mut rt, r, 0), Ok(TransferOutcome::Committed)));
    // The result is acknowledged as it arrives and again as it is taken.
    let ack = Frame::Xfer(XferMsg::ResultAck { tid: tids[0] });
    assert_eq!(sent(&mut rt), vec![ack.clone(), ack]);
    assert!(rt.endpoint_for(ep(6)).is_none());
}

#[test]
fn abort_gives_the_same_endpoint_back() {
    let mut rt = granted(1, 2);
    let req = request(&mut rt, 2, 1);
    let (_imp, tids, r) = offer(&mut rt, &req);
    rt.process(Frame::Xfer(XferMsg::Abort { tid: tids[0] }));
    match finish(&mut rt, r, 0) {
        Ok(TransferOutcome::Aborted(back)) => {
            assert_eq!(back.iter().map(|e| e.id()).collect::<Vec<_>>(), vec![ep(6)]);
        }
        other => panic!("{other:?}"),
    }
    // The result is acknowledged as it arrives and again as it is taken.
    let ack = Frame::Xfer(XferMsg::ResultAck { tid: tids[0] });
    assert_eq!(sent(&mut rt), vec![ack.clone(), ack]);
    assert!(rt.endpoint_for(ep(6)).is_some());
}

#[test]
fn lost_result_is_asked_for() {
    for (status, committed) in [(XFER_ST_COMMITTED, true), (XFER_ST_ABORTED, false)] {
        let mut rt = granted(1, 2);
        let req = request(&mut rt, 2, 1);
        let (_imp, tids, r) = offer(&mut rt, &req);
        // Time is up: the host is asked.
        let r = match rt.poll_reply(r, 10000) {
            ReplyTurn::Wait(r, 2000) => r,
            other => panic!("{other:?}"),
        };
        assert_eq!(sent(&mut rt), vec![Frame::Xfer(XferMsg::Status { tid: tids[0] })]);
        rt.process(Frame::Xfer(XferMsg::StatusAck { tid: tids[0], status }));
        match finish(&mut rt, r, 10000) {
            Ok(TransferOutcome::Committed) => assert!(committed),
            Ok(TransferOutcome::Aborted(_)) => assert!(!committed),
            other => panic!("{other:?}"),
        }
    }
}

#[test]
fn pending_transfer_is_asked_for_again_and_silence_is_unknown() {
    let mut rt = granted(1, 2);
    let req = request(&mut rt, 2, 1);
    let (_imp, tids, r) = offer(&mut rt, &req);
    let r = match rt.poll_reply(r, 10000) {
        ReplyTurn::Wait(r, 2000) => r,
        other => panic!("{other:?}"),
    };
    rt.process(Frame::Xfer(XferMsg::StatusAck { tid: tids[0], status: XFER_ST_PENDING }));
    let r = match rt.poll_reply(r, 10000) {
        ReplyTurn::Wait(r, 50) => r,
        other => panic!("{other:?}"),
    };
    let r = match rt.poll_reply(r, 10050) {
        ReplyTurn::Wait(r, 2000) => r,
        other => panic!("{other:?}"),
    };
    // No answer twice over: nobody knows.
    let r = match rt.poll_reply(r, 12050) {
        ReplyTurn::Again(r) => r,
        other => panic!("{other:?}"),
    };
    let r = match rt.poll_reply(r, 12050) {
        ReplyTurn::Wait(r, 2000) => r,
        other => panic!("{other:?}"),
    };
    assert!(matches!(
        rt.poll_reply(r, 14050),
        ReplyTurn::Done(Err(FabError::TransferUnknown))
    ));
}

#[test]
fn failed_endpoint_cannot_be_given_away() {
    let mut rt = granted(1, 2);
    let req = request(&mut rt, 2, 1);
    let ticket = rt.create_endpoint().unwrap();
    rt.process(Frame::CreateAck { impl_ep: ep(5), transferable_ep: ep(6) });
    let (imp, tra) = match rt.poll_create(ticket, 0, 3) {
        Ok(Polled::Ready(p)) => p,
        other => panic!("{other:?}"),
    };
    rt.process(Frame::ClosedNotify { entries: vec![(ep(6), Cause::PeerLost)] });
    let _ = sent(&mut rt);
    let r = rt.reply(&req, vec![], vec![imp, tra], 0);
    assert!(matches!(r, Err(FabError::Closed(Cause::PeerLost))));
    // What was given to the reply is closed, so that nothing stays live
    // without a holder.
    assert_eq!(
        sent(&mut rt),
        vec![Frame::Close { target: ep(5) }, Frame::Close { target: ep(6) }]
    );
    assert!(rt.endpoint_for(ep(5)).is_none());
}

#[test]
fn region_rides_a_reply_with_its_rights() {
    let mut rt = granted(1, 2);
    let req = request(&mut rt, 2, 3);
    let rid = RegionId([7; 16]);
    let out = rt.reply_with_shared(&req, b"r".to_vec(), rid, Rights::ReadWrite, 11).unwrap();
    assert!(matches!(out, TransferOutcome::Committed));
    match &sent(&mut rt)[0] {
        Frame::Data(d) => {
            let s = d.shared.unwrap();
            assert_eq!((s.rid, s.rights, s.handle_value), (rid, 1, 11));
            assert!(!s.tid.is_zero());
            assert!(d.attachments.is_empty() && d.native.is_none());
        }
        other => panic!("{other:?}"),
    }
}

#[test]
fn offered_endpoints_arrive_with_the_message_once_all_commit() {
    let mut rt = granted(1, 2);
    let at = |n: u8| Attachment { tid: tid(n), id: ep(n), partner: ep(n + 1) };
    assert!(rt.process(Frame::Data(DataInner {
        target: ep(2),
        corr: 70,
        attachments: vec![at(10), at(20)],
        payload: b"two".to_vec(),
        native: None,
        shared: None,
    })));
    // Each offer is accepted, in order; nothing is delivered yet.
    assert_eq!(
        sent(&mut rt),
        vec![
            Frame::Xfer(XferMsg::Accept { tid: tid(10) }),
            Frame::Xfer(XferMsg::Accept { tid: tid(20) }),
        ]
    );
    assert!(matches!(rt.wait_inbound(0, 1), Ok(Polled::Wait(1))));
    rt.process(Frame::Xfer(XferMsg::Commit { tid: tid(20), ep: ep(20), partner: ep(21) }));
    assert!(matches!(rt.wait_inbound(0, 1), Ok(Polled::Wait(1))));
    rt.process(Frame::Xfer(XferMsg::Commit { tid: tid(10), ep: ep(10), partner: ep(11) }));
    match rt.wait_inbound(0, 1) {
        Ok(Polled::Ready(i)) => {
            let mut got: Vec<EpId> = i.received.iter().map(|e| e.id()).collect();
            got.sort();
            assert_eq!(got, vec![ep(10), ep(20)]);
            assert_eq!(i.payload, b"two");
        }
        other => panic!("{other:?}"),
    }
}

#[test]
fn offers_are_answered_before_anything_is_delivered() {
    let at = |n: u8| Attachment { tid: tid(n), id: ep(n), partner: ep(n + 1) };
    let offering = |target: EpId| DataInner {
        target,
        corr: 70,
        attachments: vec![at(10), at(20)],
        payload: b"two".to_vec(),
        native: None,
        shared: None,
    };
    let mut rt = granted(1, 2);
    rt.process_data(offering(ep(2)));
    assert_eq!(
        sent(&mut rt),
        vec![
            Frame::Xfer(XferMsg::Accept { tid: tid(10) }),
            Frame::Xfer(XferMsg::Accept { tid: tid(20) }),
        ]
    );
    assert!(matches!(rt.wait_inbound(0, 1), Ok(Polled::Wait(1))));
    rt.process(Frame::Xfer(XferMsg::Commit { tid: tid(10), ep: ep(10), partner: ep(11) }));
    rt.process(Frame::Xfer(XferMsg::Commit { tid: tid(20), ep: ep(20), partner: ep(21) }));
    assert!(matches!(rt.wait_inbound(0, 1), Ok(Polled::Ready(i)) if i.payload == b"two"));

    // From a conversation that is not known, it is not kept.
    let mut rt = granted(1, 2);
    rt.process_data(offering(ep(9)));
    rt.process(Frame::Xfer(XferMsg::Commit { tid: tid(10), ep: ep(10), partner: ep(11) }));
    rt.process(Frame::Xfer(XferMsg::Commit { tid: tid(20), ep: ep(20), partner: ep(21) }));
    assert!(matches!(rt.wait_inbound(0, 1), Ok(Polled::Wait(1))));
}

#[test]
fn message_without_room_for_its_endpoints_is_never_delivered() {
    let mut rt = Runtime::new(Limits { max_live_endpoints: 2, ..Limits::default() });
    rt.process(Frame::Grant { ep: ep(1), partner: ep(2), tid: tid(1) });
    rt.process(Frame::Xfer(XferMsg::Commit { tid: tid(1), ep: ep(1), partner: ep(2) }));
    sent(&mut rt);
    let at = |n: u8| Attachment { tid: tid(n), id: ep(n), partner: ep(n + 1) };
    rt.process(Frame::Data(DataInner {
        target: ep(2),
        corr: 70,
        attachments: vec![at(10), at(20)],
        payload: b"two".to_vec(),
        native: None,
        shared: None,
    }));
    assert_eq!(
        sent(&mut rt),
        vec![
            Frame::Xfer(XferMsg::Reject { tid: tid(10) }),
            Frame::Xfer(XferMsg::Reject { tid: tid(20) }),
        ]
    );
    rt.process(Frame::Xfer(XferMsg::Abort { tid: tid(10) }));
    rt.process(Frame::Xfer(XferMsg::Abort { tid: tid(20) }));
    assert!(matches!(rt.wait_inbound(0, 1), Ok(Polled::Wait(1))));
}

#[test]
fn shutdown_says_goodbye_and_ends() {
    let mut rt = granted(1, 2);
    rt.shutdown();
    let out = sent(&mut rt);
    assert!(out.contains(&Frame::Shutdown), "{out:?}");
    assert!(matches!(rt.pop_out(), Outgoing::Wait));
    assert!(rt.fabric_terminal().is_none());
    // Once the goodbye is out, everything is closed.
    rt.go_terminal(Cause::Graceful);
    assert!(matches!(rt.pop_out(), Outgoing::End));
    assert_eq!(rt.fabric_terminal(), Some(Cause::Graceful));
}

#[test]
fn frames_are_counted() {
    let mut rt = granted(1, 2);
    let a = rt.accounting();
    let e = rt.endpoint_for(ep(1)).unwrap();
    e.call(&mut rt, vec![]).unwrap();
    let b = rt.accounting();
    assert_eq!(b.sent_frames, a.sent_frames + 1);
    rt.process(data(ep(2), 99, b""));
    assert_eq!(rt.accounting().received_frames, b.received_frames + 1);
    assert_eq!(rt.accounting().inbound_backlog_msgs, 1);
}

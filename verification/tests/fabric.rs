//! A whole fabric in one process: a host, a service and a client, with the
//! frames carried from one to the other by hand.

use std::collections::BTreeMap;

use authority_fabric::drill::{holds, restored, settled, Check, Facts};
use authority_fabric::frame::{DataInner, Frame, XferMsg};
use authority_fabric::host::{settled_frame, Actions, Host, NativeOp, Note};
use authority_fabric::native::{fresh_resource_id, ResourceId};
use authority_fabric::id::{NoneTaken, TransferId};
use authority_fabric::peer::{
    CallResult, Endpoint, Inbound, Outgoing, Polled, Reply, ReplyTurn, Runtime, TransferOutcome,
};
use authority_fabric::proto::{encode_control, encode_control_ack, ControlAck, ControlMsg};
use authority_fabric::script::{refusal_of, stages, Act, Ask, Refusal, Report, Run, Script, Seen, Slot};
use authority_fabric::service::{native_nonce, Mode, Serve, Service, Stock};
use authority_fabric::{Cause, EpId, FabError, Limits, PeerId};

struct Svc {
    service: Service,
    creating: Option<(u64, Inbound, Vec<u8>)>,
    replies: Vec<Reply>,
    held: Vec<Endpoint>,
    restored: Vec<Endpoint>,
    outcomes: Vec<&'static str>,
}

struct World {
    host: Host,
    peers: BTreeMap<u32, Runtime>,
    svc_peer: PeerId,
    cli_peer: PeerId,
    svc: Option<Svc>,
    ctrl_host: EpId,
    now: u64,
    native: Vec<(NativeOp, TransferId)>,
    notes: Vec<Note>,
    /// Tell the client nothing but keep its frames.
    reject_native: bool,
}

fn polled<T>(r: Result<Polled<T>, FabError>) -> Option<Result<T, FabError>> {
    match r {
        Ok(Polled::Ready(v)) => Some(Ok(v)),
        Ok(Polled::Wait(_)) => None,
        Err(e) => Some(Err(e)),
    }
}

impl World {
    fn start(mode: Mode, client: Limits) -> World {
        let mut host = Host::new(Limits::default());
        assert!(host.can_connect());
        let svc_peer = host.connect();
        let cli_peer = host.connect();
        let mut peers = BTreeMap::new();
        peers.insert(
            svc_peer.0,
            Runtime::new(Limits { max_live_endpoints: 4096, ..Limits::default() }),
        );
        peers.insert(cli_peer.0, Runtime::new(client));
        let mut w = World {
            host,
            peers,
            svc_peer,
            cli_peer,
            svc: None,
            ctrl_host: EpId([0; 16]),
            now: 0,
            native: Vec::new(),
            notes: Vec::new(),
            reject_native: false,
        };
        for p in [svc_peer, cli_peer] {
            let f = w.peers[&p.0].greeting();
            let a = w.host.on_frame(p, f);
            w.perform(p, a);
        }
        assert_eq!(w.host.hello_count(), 2);
        let (a, b) = w.host.router_mut().create_host_pair().unwrap();
        w.grant(cli_peer, a);
        w.grant(svc_peer, b);
        w.pump();
        assert!(settled(&w.host.router().accounting()));
        let (cc, ch) = w.host.router_mut().create_host_pair().unwrap();
        w.grant(cli_peer, cc);
        w.pump();
        assert!(settled(&w.host.router().accounting()));
        w.ctrl_host = ch;
        let root = polled(w.peers[&svc_peer.0].next_new_handle(&[], 0, 0)).unwrap().unwrap();
        assert_eq!(root, b);
        w.svc = Some(Svc {
            service: Service::new(root, mode),
            creating: None,
            replies: Vec::new(),
            held: Vec::new(),
            restored: Vec::new(),
            outcomes: Vec::new(),
        });
        w
    }

    fn grant(&mut self, to: PeerId, ep: EpId) {
        let f = self.host.router_mut().grant(to, ep).unwrap();
        self.deliver(to, f);
    }

    fn deliver(&mut self, to: PeerId, f: Frame) {
        if self.reject_native && to == self.cli_peer {
            if let Frame::Data(DataInner { native: Some(n), .. }) = &f {
                let reject = Frame::Xfer(XferMsg::Reject { tid: n.tid });
                let a = self.host.on_frame(to, reject);
                self.perform(to, a);
                return;
            }
        }
        if let Some(rt) = self.peers.get_mut(&to.0) {
            assert!(rt.process(f));
        }
    }

    fn perform(&mut self, from: PeerId, a: Actions) {
        if let Some(n) = a.stage {
            assert!(self.host.on_staged(from, n, n.tid, n.rid));
        }
        if a.note != Note::Nothing {
            self.notes.push(a.note);
        }
        for s in a.sends {
            let tid = match &s.frame {
                Frame::Xfer(XferMsg::NativeCommit { tid, .. }) => *tid,
                Frame::Xfer(XferMsg::Abort { tid }) => *tid,
                _ => TransferId([0; 16]),
            };
            if s.native != NativeOp::Keep {
                self.native.push((s.native, tid));
            }
            let f = settled_frame(s.frame, s.native, Some(77));
            if s.connected {
                self.deliver(s.to, f);
            }
        }
        if a.teardown {
            if let Some(mut rt) = self.peers.remove(&from.0) {
                rt.go_terminal(Cause::PeerLost);
            }
        }
    }

    /// Carries frames until nothing is left to carry.
    fn pump(&mut self) {
        loop {
            let mut moved = false;
            let ids: Vec<u32> = self.peers.keys().copied().collect();
            for id in ids {
                loop {
                    let out = match self.peers.get_mut(&id) {
                        Some(rt) => rt.pop_out(),
                        None => Outgoing::Wait,
                    };
                    match out {
                        Outgoing::Send(f) => {
                            moved = true;
                            let a = self.host.on_frame(PeerId(id), f);
                            self.perform(PeerId(id), a);
                        }
                        _ => break,
                    }
                }
            }
            if !moved {
                break;
            }
        }
    }

    /// One round of everything: carry, serve, carry.
    fn tick(&mut self) {
        self.now += 1;
        self.pump();
        self.serve();
        self.pump();
    }

    fn serve(&mut self) {
        let now = self.now;
        let rt = match self.peers.get_mut(&self.svc_peer.0) {
            Some(rt) => rt,
            None => return,
        };
        let svc = self.svc.as_mut().unwrap();
        let mut waiting = Vec::new();
        for r in svc.replies.drain(..) {
            match rt.poll_reply(r, now) {
                ReplyTurn::Again(r) => waiting.push(r),
                ReplyTurn::Wait(r, _) => waiting.push(r),
                ReplyTurn::Done(Ok(TransferOutcome::Committed)) => svc.outcomes.push("committed"),
                ReplyTurn::Done(Ok(TransferOutcome::Aborted(back))) => {
                    svc.outcomes.push("aborted");
                    svc.restored.extend(back);
                }
                ReplyTurn::Done(other) => panic!("unexpected outcome {other:?}"),
            }
        }
        svc.replies = waiting;
        if !svc.replies.is_empty() {
            return; // a reply is seen through before the next request
        }
        if let Some((ticket, req, reply)) = svc.creating.take() {
            match polled(rt.poll_create(ticket, now, now + 5000)) {
                Some(Ok((imp, tra))) => {
                    svc.service.created(imp.id());
                    svc.held.push(imp);
                    let caps = vec![tra];
                    assert!(rt.holds_all(&caps));
                    svc.replies.push(rt.reply(&req, reply, caps, now).unwrap());
                }
                Some(Err(e)) => panic!("create failed: {}", e.message()),
                None => svc.creating = Some((ticket, req, reply)),
            }
            return;
        }
        let req = match polled(rt.wait_inbound(now, now)) {
            Some(Ok(r)) => r,
            _ => return,
        };
        let stock = Stock { regions: 0, natives: 0, endpoints: svc.restored.len() };
        let region = req.received_shared.is_some();
        match svc.service.on_request(req.local, &req.payload, region, stock, true) {
            Serve::Ignore => {}
            Serve::Pong(b) | Serve::Answer(b) => {
                svc.replies.push(rt.reply(&req, b, vec![], now).unwrap());
            }
            Serve::GiveNew(b) => {
                let ticket = rt.create_endpoint().unwrap();
                svc.creating = Some((ticket, req, b));
            }
            Serve::GiveRestored(b) => {
                let caps = vec![svc.restored.pop().unwrap()];
                assert!(rt.holds_all(&caps));
                svc.replies.push(rt.reply(&req, b, caps, now).unwrap());
            }
            Serve::GiveNative { reply, fresh } => {
                assert!(fresh);
                let rid = fresh_resource_id(&NoneTaken).unwrap();
                let out = rt.reply_with_native(&req, reply, Some((rid, 5))).unwrap();
                assert!(matches!(out, TransferOutcome::Committed));
            }
            other => panic!("unexpected {other:?}"),
        }
    }

    fn kill_service(&mut self) {
        self.peers.remove(&self.svc_peer.0);
        let a = self.host.on_lost(self.svc_peer);
        self.perform(self.svc_peer, a);
    }

    fn call(&mut self, ep: &Endpoint, payload: Vec<u8>, ms: u64) -> Result<CallResult, FabError> {
        let cli = self.cli_peer.0;
        let killing = payload == encode_control(ControlMsg::ReadyToKill);
        let corr = {
            let rt = self.peers.get_mut(&cli).unwrap();
            assert!(rt.can_call());
            ep.call(rt, payload)?
        };
        let deadline = self.now + ms;
        for _ in 0..200 {
            let now = self.now;
            let rt = self.peers.get_mut(&cli).unwrap();
            if let Some(r) = polled(rt.poll_call(corr, now, deadline)) {
                return r;
            }
            self.tick();
            let want = if killing { ControlMsg::ReadyToKill } else { ControlMsg::Done };
            if let Some(corr) = self.host.take_control(want) {
                if killing {
                    self.kill_service();
                }
                self.ack(corr);
            }
        }
        // Nobody answers: let the time pass.
        self.now = deadline;
        let rt = self.peers.get_mut(&cli).unwrap();
        polled(rt.poll_call(corr, deadline, deadline)).unwrap()
    }

    fn ack(&mut self, corr: u32) {
        let sends = self
            .host
            .host_send(self.ctrl_host, corr, encode_control_ack(ControlAck::Ack))
            .unwrap();
        let a = Actions {
            stage: None,
            sends,
            events: Vec::new(),
            note: Note::Nothing,
            teardown: false,
        };
        self.perform(self.cli_peer, a);
    }

    /// Runs a script; the marks that it said, and how it ended.
    fn run(&mut self, script: Script) -> (Vec<&'static str>, Result<(), &'static str>) {
        let mut run = Run::new(stages(script));
        let mut slots: BTreeMap<u8, Vec<Endpoint>> = BTreeMap::new();
        let key = |s: Slot| s as u8;
        let mut seen_ids: Vec<EpId> = Vec::new();
        let mut marks = Vec::new();
        while let Some(stage) = run.stage() {
            let seen = match stage.act {
                Act::Claim(slot) => {
                    let now = self.now;
                    let rt = self.peers.get_mut(&self.cli_peer.0).unwrap();
                    match polled(rt.next_new_handle(&seen_ids, now, now)) {
                        Some(Ok(id)) => {
                            seen_ids.push(id);
                            match rt.endpoint_for(id) {
                                Some(e) => {
                                    slots.entry(key(slot)).or_default().push(e);
                                    Seen::Claimed
                                }
                                None => Seen::Stale,
                            }
                        }
                        Some(Err(e)) => Seen::Refused(refusal_of(&e)),
                        None => Seen::Refused(Refusal::Timeout),
                    }
                }
                Act::Call { on, ask, ms, keep } => {
                    let ep = slots.get_mut(&key(on)).unwrap().pop().unwrap();
                    let r = self.call(&ep, ask.encode(), ms);
                    slots.get_mut(&key(on)).unwrap().push(ep);
                    match r {
                        Ok(c) => {
                            let caps = c.received.len();
                            let native = c.received_native.map(|_| native_nonce());
                            let mut it = c.received.into_iter();
                            if let (Some(k), Some(e)) = (keep, it.next()) {
                                slots.entry(key(k)).or_default().push(e);
                            }
                            Seen::Reply { payload: c.payload, caps, native }
                        }
                        Err(e) => Seen::Refused(refusal_of(&e)),
                    }
                }
                Act::Close(slot) | Act::Release(slot) => {
                    let ep = slots.get_mut(&key(slot)).unwrap().pop().unwrap();
                    let rt = self.peers.get_mut(&self.cli_peer.0).unwrap();
                    match ep.close(rt) {
                        Ok(()) => Seen::Through,
                        Err(_) => Seen::Failed,
                    }
                }
                Act::StopRejecting(_) => {
                    self.reject_native = false;
                    Seen::Through
                }
                Act::PollLoss(_) => {
                    let rt = self.peers.get(&self.cli_peer.0).unwrap();
                    if rt.fabric_terminal().is_some() {
                        Seen::Lost
                    } else {
                        Seen::Quiet
                    }
                }
                _ => Seen::Through,
            };
            match run.on_seen(&seen) {
                Report::Say(m) => {
                    if !m.is_empty() {
                        marks.push(m);
                    }
                }
                Report::Fail(why) => return (marks, Err(why)),
            }
        }
        (marks, Ok(()))
    }

    fn facts(&self) -> Facts {
        Facts {
            accounting: self.host.router().accounting(),
            max_retired: Limits::default().max_retired,
            client: Some(0),
            service: Some(0),
        }
    }

    /// Everybody says goodbye.
    fn shut_down(&mut self) {
        for p in [self.svc_peer, self.cli_peer] {
            if self.peers.contains_key(&p.0) {
                let a = self.host.on_frame(p, Frame::Shutdown);
                assert_eq!(a.note, Note::Shutdown);
                assert!(a.teardown);
                self.perform(p, a);
            }
        }
    }
}

#[test]
fn demonstration_runs_from_grant_to_failure() {
    let mut w = World::start(Mode::Normal, Limits::default());
    let (marks, end) = w.run(Script::FullDemo);
    assert_eq!(end, Ok(()), "{marks:?}");
    assert_eq!(
        marks,
        vec![
            "CLIENT_HAS_ROOT_CAPABILITY",
            "CLIENT_RECEIVED_NESTED_CAPABILITY",
            "CLIENT_NESTED_INVOCATION_SUCCEEDED",
            "CLIENT_ROOT_FAILURE_OBSERVED",
            "CLIENT_NESTED_FAILURE_OBSERVED",
            "CLIENT_DONE_ACKED",
            "CLIENT_OK",
        ]
    );
    assert!(w.host.router().authority_mass_ok());
    w.shut_down();
    assert!(holds(Check::CleanAcked, &w.facts()));
}

#[test]
fn service_death_fails_both_capabilities() {
    let mut w = World::start(Mode::Normal, Limits::default());
    let (marks, end) = w.run(Script::KillAfterFirstIncrement);
    assert_eq!(end, Ok(()), "{marks:?}");
    assert!(marks.contains(&"CLIENT_ROOT_FAILURE_OBSERVED"));
    assert!(marks.contains(&"CLIENT_NESTED_FAILURE_OBSERVED"));
}

#[test]
fn graceful_run_leaves_nothing() {
    let mut w = World::start(Mode::Normal, Limits::default());
    let (marks, end) = w.run(Script::GracefulDone);
    assert_eq!(end, Ok(()), "{marks:?}");
    w.shut_down();
    let a = w.host.router().accounting();
    assert_eq!((a.peers, a.live_endpoints, a.unacked_results), (0, 0, 0));
    assert!(holds(Check::BothOk, &w.facts()));
}

#[test]
fn churn_retires_within_bounds() {
    let mut w = World::start(Mode::Normal, Limits::default());
    let (marks, end) = w.run(Script::Churn { n: 300 });
    assert_eq!(end, Ok(()), "{marks:?}");
    assert_eq!(marks, vec!["CHURN_DONE", "CLIENT_OK"]);
    let f = w.facts();
    assert!(holds(Check::AtScale, &f), "{:?}", f.accounting);
    assert_eq!(f.accounting.live_endpoints, 4);
    assert_eq!(w.svc.as_ref().unwrap().outcomes.iter().filter(|o| **o == "aborted").count(), 0);
    w.shut_down();
    assert!(holds(Check::Clean, &w.facts()));
}

#[test]
fn transfer_beyond_capacity_aborts_and_is_repeated() {
    let lim = Limits { max_live_endpoints: 4, ..Limits::default() };
    let mut w = World::start(Mode::Normal, lim);
    let (marks, end) = w.run(Script::AbortCycle);
    assert_eq!(end, Ok(()), "{marks:?} {:?}", w.svc.as_ref().unwrap().outcomes);
    assert!(marks.contains(&"CLIENT_ABORT_RESTORED_USABLE"));
    assert!(marks.contains(&"CLIENT_ABORT_CYCLE_OK"));
    // The sender got its endpoint back, and gave the same one away again.
    assert!(w.svc.as_ref().unwrap().outcomes.contains(&"aborted"));
    assert!(w.svc.as_ref().unwrap().restored.is_empty());
    assert!(w.host.router().authority_mass_ok());
    w.shut_down();
    assert!(holds(Check::CleanAcked, &w.facts()));
}

#[test]
fn one_transfer_commits() {
    let mut w = World::start(Mode::Normal, Limits::default());
    let (marks, end) = w.run(Script::TxnOnce);
    assert_eq!(end, Ok(()));
    assert_eq!(marks, vec!["CLIENT_TXN_ONCE_COMMITTED", "CLIENT_TXN_ONCE_OK"]);
    let a = w.host.router().accounting();
    assert!(restored(false, &a));
}

#[test]
fn silent_service_times_out() {
    let mut w = World::start(Mode::Hold, Limits::default());
    let (_, end) = w.run(Script::FullDemo);
    assert_eq!(end, Err("ping"));
}

#[test]
fn killed_service_closes_the_root() {
    for strict in [false, true] {
        let mut w = World::start(Mode::Hold, Limits::default());
        let mut run = Run::new(stages(Script::RootClosed { strict }));
        let rt = w.peers.get_mut(&w.cli_peer.0).unwrap();
        let id = polled(rt.next_new_handle(&[], 0, 0)).unwrap().unwrap();
        let root = rt.endpoint_for(id).unwrap();
        run.on_seen(&Seen::Claimed);
        run.on_seen(&Seen::Through);
        w.kill_service();
        let e = w.call(&root, vec![1], 10).unwrap_err();
        assert_eq!(refusal_of(&e), Refusal::Closed);
        assert!(matches!(e, FabError::Closed(Cause::PeerLost)));
        assert_eq!(
            run.on_seen(&Seen::Refused(Refusal::Closed)),
            Report::Say("CLIENT_ROOT_CLOSED_OBSERVED")
        );
    }
}

#[test]
fn lost_fabric_is_observed() {
    let mut w = World::start(Mode::Hold, Limits::default());
    w.peers.get_mut(&w.cli_peer.0).unwrap().go_terminal(Cause::PeerLost);
    let (marks, end) = w.run(Script::Watchdog);
    assert_eq!(end, Ok(()));
    assert_eq!(marks, vec!["CLIENT_FABRIC_LOST_OBSERVED", "CLIENT_OK"]);
}

#[test]
fn native_file_is_delivered_at_commit() {
    let mut w = World::start(Mode::Native, Limits::default());
    let rt = w.peers.get_mut(&w.cli_peer.0).unwrap();
    let id = polled(rt.next_new_handle(&[], 0, 0)).unwrap().unwrap();
    let root = rt.endpoint_for(id).unwrap();
    let c = w.call(&root, Ask::OpenCounter.encode(), 50).unwrap();
    let n = c.received_native.unwrap();
    assert_eq!(w.host.router().accounting().native_pending, 1);
    assert!(w.native.is_empty());
    // The recipient accepts: now, and only now, the object changes hands.
    let cli = w.cli_peer;
    let a = w.host.on_frame(cli, Frame::Xfer(XferMsg::Accept { tid: n.tid }));
    w.perform(cli, a);
    assert_eq!(w.native, vec![(NativeOp::Deliver, n.tid)]);
    assert_eq!(w.host.router().accounting().native_pending, 0);
    assert_eq!(w.host.router().native_holder(n.rid), Some(cli));
    // It is spent: accepting again delivers nothing.
    let a = w.host.on_frame(cli, Frame::Xfer(XferMsg::Accept { tid: n.tid }));
    assert!(a.sends.iter().all(|s| s.native != NativeOp::Deliver));
}

#[test]
fn native_script_takes_the_nonce() {
    let mut w = World::start(Mode::Native, Limits::default());
    let (marks, end) = w.run(Script::NativeHappy);
    assert_eq!(end, Ok(()));
    assert_eq!(marks, vec!["CLIENT_NATIVE_HAPPY_OK"]);
}

#[test]
fn refused_native_file_goes_back_to_its_sender() {
    let mut w = World::start(Mode::Native, Limits::default());
    w.reject_native = true;
    let rt = w.peers.get_mut(&w.cli_peer.0).unwrap();
    let id = polled(rt.next_new_handle(&[], 0, 0)).unwrap().unwrap();
    let root = rt.endpoint_for(id).unwrap();
    let e = w.call(&root, Ask::OpenCounter.encode(), 50).unwrap_err();
    assert!(matches!(e, FabError::Timeout));
    let ops: Vec<NativeOp> = w.native.iter().map(|n| n.0).collect();
    assert!(matches!(ops[..], [NativeOp::Restore(_)]));
}

#[test]
fn hostile_peer_is_cut_off() {
    let mut w = World::start(Mode::Normal, Limits::default());
    // A frame that only the host may send.
    let a = w.host.on_frame(w.cli_peer, Frame::Error(1));
    assert!(matches!(a.note, Note::Quarantined(_)));
    assert!(a.teardown);
    w.perform(w.cli_peer, a);
    assert_eq!(w.host.connected(), vec![w.svc_peer]);
    // The others are told, and the host goes on.
    assert!(w.host.router_mut().create_host_pair().is_ok());
    let q = w.host.on_quarantine(w.svc_peer, "oversized frame");
    assert!(matches!(q.note, Note::Quarantined(p) if p.0 == "oversized frame"));
    assert!(w.host.connected().is_empty());
    assert_eq!(w.host.router().accounting().peers, 0);
}

#[test]
fn host_only_stages_what_was_offered() {
    let mut w = World::start(Mode::Normal, Limits::default());
    let want = authority_fabric::frame::NativeAttachment {
        tid: TransferId([1; 16]),
        rid: ResourceId([2; 16]),
        handle_value: 0,
    };
    let p = w.svc_peer;
    assert!(!w.host.on_staged(p, want, TransferId([3; 16]), want.rid));
    assert!(!w.host.on_staged(p, want, want.tid, ResourceId([3; 16])));
    assert!(w.host.on_staged(p, want, want.tid, want.rid));
}

#[test]
fn restored_object_keeps_its_identity_and_gets_its_value() {
    let (tid, rid) = (TransferId([1; 16]), ResourceId([2; 16]));
    let abort = || Frame::Xfer(XferMsg::Abort { tid });
    assert_eq!(
        settled_frame(abort(), NativeOp::Restore(rid), Some(9)),
        Frame::Xfer(XferMsg::NativeAbort { tid, object: Some((rid, 9)) })
    );
    // Without a value in the sender's process the abort goes out as it is.
    assert_eq!(settled_frame(abort(), NativeOp::Restore(rid), None), abort());
    assert_eq!(settled_frame(abort(), NativeOp::Discard, Some(9)), abort());
    assert_eq!(
        settled_frame(
            Frame::Xfer(XferMsg::NativeCommit { tid, rid, handle_value: 0 }),
            NativeOp::Deliver,
            Some(9)
        ),
        Frame::Xfer(XferMsg::NativeCommit { tid, rid, handle_value: 9 })
    );
}

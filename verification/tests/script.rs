use authority_fabric::drill::{
    done_line, holds, moves, report_line, restored, settled, Barrier, Check, Drill, Facts, Move,
    Tally,
};
use authority_fabric::proto::{
    encode_control_ack, encode_counter_response, encode_root_response, ControlAck, ControlMsg,
    CounterResponse, RootResponse,
};
use authority_fabric::script::{
    judge, refusal_of, stages, Act, Ask, Otherwise, Refusal, Report, Run, Script, Seen, Slot, Verdict, Want,
};
use authority_fabric::service::REGION_SIZE;
use authority_fabric::shared::Rights;
use authority_fabric::{Cause, FabError, RouterAccounting};

fn reply(payload: Vec<u8>, caps: usize) -> Seen {
    Seen::Reply { payload, caps, native: None }
}

fn file(d: &[u8]) -> Seen {
    Seen::Reply { payload: vec![], caps: 0, native: Some(d.to_vec()) }
}

#[test]
fn wants_are_judged() {
    let pong = encode_root_response(RootResponse::Pong);
    let counter = encode_root_response(RootResponse::Counter);
    let first = encode_counter_response(CounterResponse::Incremented(1));
    let second = encode_counter_response(CounterResponse::Incremented(2));
    let ack = encode_control_ack(ControlAck::Ack);
    let aborted = Seen::Refused(Refusal::Aborted);
    let closed = Seen::Refused(Refusal::Closed);
    for (want, seen, verdict) in [
        (Want::Pong, reply(pong.clone(), 0), Verdict::Met),
        (Want::Pong, reply(counter.clone(), 0), Verdict::Unmet),
        (Want::CounterCap, reply(counter.clone(), 1), Verdict::Met),
        (Want::CounterCap, reply(counter.clone(), 0), Verdict::Unmet),
        (Want::CounterCap, reply(pong.clone(), 1), Verdict::Unmet),
        (Want::CounterCapOrAbort, reply(counter.clone(), 2), Verdict::Met),
        (
            Want::CounterCapOrAbort,
            aborted.clone(),
            Verdict::Alternative("CLIENT_TXN_ONCE_ABORTED"),
        ),
        (Want::Cap, reply(pong.clone(), 1), Verdict::Met),
        (Want::Cap, reply(pong.clone(), 0), Verdict::Unmet),
        (Want::AbortOrEmpty, aborted.clone(), Verdict::Met),
        (
            Want::AbortOrEmpty,
            reply(counter.clone(), 0),
            Verdict::Alternative("CLIENT_ABORT_OBSERVED_EMPTY"),
        ),
        (Want::AbortOrEmpty, reply(counter, 1), Verdict::Unmet),
        (Want::First, reply(first, 0), Verdict::Met),
        (Want::First, reply(second, 0), Verdict::Unmet),
        (Want::Closed, closed.clone(), Verdict::Met),
        (Want::Closed, Seen::Refused(Refusal::Timeout), Verdict::Unmet),
        (Want::Closed, reply(pong.clone(), 0), Verdict::Unmet),
        (Want::Ack, reply(ack, 0), Verdict::Met),
        (Want::Ack, reply(vec![], 0), Verdict::Unmet),
        (Want::AnyReply, reply(vec![], 0), Verdict::Met),
        (Want::AnyReply, closed.clone(), Verdict::Unmet),
        (Want::Nonce, file(b"SEAM_NATIVE_NONCE"), Verdict::Met),
        (Want::Nonce, file(b"else"), Verdict::Unmet),
        (Want::NonceIfAny, reply(pong, 0), Verdict::Alternative("")),
        (Want::NonceIfAny, closed.clone(), Verdict::Unmet),
        (Want::RestoredFile, file(b"SEAM_NATIVE_NONCE_RESTORED"), Verdict::Met),
        (Want::RestoredFile, file(b"SEAM_NATIVE_NONCE"), Verdict::Unmet),
        (
            Want::UsableRegion,
            Seen::Region { rights: Rights::ReadWrite, size: REGION_SIZE },
            Verdict::Met,
        ),
        (
            Want::UsableRegion,
            Seen::Region { rights: Rights::ReadOnly, size: REGION_SIZE },
            Verdict::Unmet,
        ),
        (Want::Loss, Seen::Lost, Verdict::Met),
        (Want::Loss, Seen::Quiet, Verdict::Alternative("")),
        (Want::Loss, Seen::Expired, Verdict::Unmet),
        (Want::GrantOrGone, Seen::Stale, Verdict::Alternative("")),
        (Want::GrantOrGone, closed, Verdict::Alternative("")),
        (Want::GrantOrGone, Seen::Refused(Refusal::Timeout), Verdict::Unmet),
        (Want::GrantOrLoss { strict: true }, Seen::Refused(Refusal::Timeout), Verdict::Unmet),
        (
            Want::GrantOrLoss { strict: false },
            Seen::Refused(Refusal::Timeout),
            Verdict::Alternative("CLIENT_GRANT_NEVER_ARRIVED"),
        ),
        (
            Want::GrantOrLoss { strict: true },
            Seen::Refused(Refusal::Lost),
            Verdict::Alternative("CLIENT_FABRIC_LOST_WAITING_GRANT"),
        ),
        (
            Want::GrantOrLoss { strict: true },
            Seen::Stale,
            Verdict::Alternative("CLIENT_ROOT_CLOSED_OBSERVED"),
        ),
        (Want::Claimed, Seen::Claimed, Verdict::Met),
        (Want::Claimed, Seen::Stale, Verdict::Unmet),
        (Want::Through, Seen::Through, Verdict::Met),
        (Want::Through, Seen::Failed, Verdict::Unmet),
        (Want::Anything, Seen::Failed, Verdict::Met),
        (Want::Elsewhere, Seen::Through, Verdict::Alternative("")),
    ] {
        assert_eq!(judge(want, &seen), verdict, "{want:?} {seen:?}");
    }
}

#[test]
fn errors_are_sorted_for_scripts() {
    assert_eq!(refusal_of(&FabError::Closed(Cause::Graceful)), Refusal::Closed);
    assert_eq!(refusal_of(&FabError::Timeout), Refusal::Timeout);
    assert_eq!(refusal_of(&FabError::FabricLost), Refusal::Lost);
    assert_eq!(refusal_of(&FabError::TransferAborted("x")), Refusal::Aborted);
    assert_eq!(refusal_of(&FabError::StaleEndpoint), Refusal::Unexpected);
}

#[test]
fn asks_have_distinct_bytes_per_interface() {
    assert_ne!(Ask::Ping.encode(), Ask::OpenCounter.encode());
    assert_ne!(Ask::Increment.encode(), Ask::Get.encode());
    assert_ne!(Ask::ReadyToKill.encode(), Ask::Done.encode());
}

#[test]
fn demo_fails_when_the_root_stays_healthy() {
    let mut run = Run::new(stages(Script::FullDemo));
    let ok = [
        Seen::Claimed,
        reply(encode_root_response(RootResponse::Pong), 0),
        reply(encode_root_response(RootResponse::Counter), 1),
        reply(encode_counter_response(CounterResponse::Incremented(1)), 0),
        Seen::Claimed,
        Seen::Refused(Refusal::Timeout),
    ];
    for s in &ok {
        assert!(matches!(run.on_seen(s), Report::Say(_)));
    }
    assert_eq!(run.at(), 6);
    let healthy = reply(encode_root_response(RootResponse::Pong), 0);
    assert_eq!(run.on_seen(&healthy), Report::Fail("expected Closed on root"));
    assert_eq!(run.at(), 6);
}

#[test]
fn aborted_transfer_skips_to_the_end() {
    let mut run = Run::new(stages(Script::TxnOnce));
    run.on_seen(&Seen::Claimed);
    run.on_seen(&Seen::Claimed);
    assert_eq!(
        run.on_seen(&Seen::Refused(Refusal::Aborted)),
        Report::Say("CLIENT_TXN_ONCE_ABORTED")
    );
    assert!(matches!(
        run.stage().unwrap().act,
        Act::Call { on: Slot::Ctrl, ask: Ask::Done, .. }
    ));
    run.on_seen(&Seen::Failed);
    assert!(run.stage().is_none());
}

#[test]
fn repetition_takes_as_many_rounds_as_asked() {
    for n in [0u64, 1, 3] {
        let mut run = Run::new(stages(Script::NativeStress { n }));
        run.on_seen(&Seen::Claimed);
        run.on_seen(&Seen::Claimed);
        let mut rounds = 0;
        while let Some(s) = run.stage() {
            if !matches!(s.act, Act::Call { ask: Ask::OpenCounter, .. }) {
                break;
            }
            rounds += 1;
            assert_eq!(run.on_seen(&file(b"SEAM_NATIVE_NONCE")), Report::Say(""));
        }
        assert_eq!(rounds, n);
        assert_eq!(run.on_seen(&Seen::Through), Report::Say("NATIVE_STRESS_DONE"));
        run.on_seen(&Seen::Through);
        assert!(run.stage().is_none());
    }
    let mut run = Run::new(stages(Script::NativeStress { n: 2 }));
    run.on_seen(&Seen::Claimed);
    run.on_seen(&Seen::Claimed);
    assert_eq!(run.on_seen(&file(b"junk")), Report::Fail("stress"));
}

#[test]
fn every_script_starts_with_something_it_needs() {
    for s in [
        Script::FullDemo,
        Script::RootClosed { strict: true },
        Script::OutstandingRequest,
        Script::KillAfterFirstIncrement,
        Script::GracefulDone,
        Script::Watchdog,
        Script::Churn { n: 2 },
        Script::Perf,
        Script::AbortCycle,
        Script::TxnOnce,
        Script::NativeHappy,
        Script::NativeAbort,
        Script::NativeStress { n: 2 },
        Script::SharedProduce,
        Script::CommittedThenKilled,
    ] {
        let v = stages(s);
        assert!(matches!(v[0].unmet, Otherwise::Stop(_)), "{s:?}");
        for st in &v {
            assert!(st.other <= v.len() && st.back <= v.len(), "{s:?}");
        }
    }
}

fn acc() -> RouterAccounting {
    RouterAccounting {
        peers: 0,
        live_endpoints: 0,
        retired_identities: 0,
        host_held: 0,
        pending_transfers: 0,
        escrowed: 0,
        unacked_results: 0,
        native_live: 0,
        native_pending: 0,
        native_unacked: 0,
        shared_pending: 0,
        shared_unacked: 0,
    }
}

fn facts(a: RouterAccounting) -> Facts {
    Facts { accounting: a, max_retired: 10, client: None, service: None }
}

#[test]
fn checks_are_decided() {
    assert!(holds(Check::Clean, &facts(acc())));
    assert!(holds(Check::CleanAcked, &facts(acc())));
    let mut a = acc();
    a.unacked_results = 1;
    assert!(holds(Check::Clean, &facts(a)));
    assert!(!holds(Check::CleanAcked, &facts(a)));
    a.live_endpoints = 4;
    assert!(!holds(Check::Clean, &facts(a)));
    assert!(holds(Check::NoPeers, &facts(a)));
    a.retired_identities = 10;
    assert!(holds(Check::AtScale, &facts(a)));
    a.retired_identities = 11;
    assert!(!holds(Check::AtScale, &facts(a)));
    a.live_endpoints = 2;
    assert!(holds(Check::Survived, &facts(a)));
    a.native_unacked = 1;
    assert!(!holds(Check::NoPeersNativeAcked, &facts(a)));
    a.peers = 1;
    assert!(!holds(Check::NoPeers, &facts(a)));
    let f = facts(acc());
    assert!(!holds(Check::ClientOk, &f));
    assert!(holds(Check::ClientOk, &Facts { client: Some(0), ..f }));
    assert!(!holds(Check::ClientOk, &Facts { client: Some(1), ..f }));
    assert!(!holds(Check::BothOk, &Facts { client: Some(0), ..f }));
    assert!(holds(Check::BothOk, &Facts { client: Some(0), service: Some(0), ..f }));
}

#[test]
fn transfer_is_undone_when_nothing_is_out() {
    let mut a = acc();
    assert!(settled(&a));
    assert!(restored(false, &a));
    a.escrowed = 1;
    assert!(!settled(&a));
    assert!(!restored(false, &a));
    assert!(restored(true, &a));
    a.unacked_results = 1;
    a.pending_transfers = 1;
    assert!(!restored(true, &a));
}

#[test]
fn scale_reports_its_accounting() {
    let mut a = acc();
    a.live_endpoints = 4;
    a.retired_identities = 4000;
    assert_eq!(
        report_line(Tally::BeforeTeardown, &a),
        "SCALE_FINAL before_teardown live_eps=4 retired=4000"
    );
    assert_eq!(report_line(Tally::Total, &a), "SCALE_DONE retired_total=4000");
    a.live_endpoints = 0;
    a.host_held = 1;
    assert_eq!(
        report_line(Tally::Final, &a),
        format!("HOST_ACCOUNTING tag=final peers={} live_eps=0 retired=4000 host_held=1", a.peers)
    );
    let m = moves(Drill::Scale);
    assert_eq!(m[3], Move::Report(Tally::BeforeTeardown));
    assert_eq!(m.last(), Some(&Move::Report(Tally::Total)));
    assert!(moves(Drill::Demo).contains(&Move::Report(Tally::Final)));
}

#[test]
fn drills_end_with_their_line() {
    assert_eq!(done_line(Drill::Demo, 7, true), "DEMO_OK");
    assert_eq!(done_line(Drill::KilledAtSpawn, 7, true), "CASE_A_OK");
    assert_eq!(done_line(Drill::KilledBeforeAccept, 7, true), "PREFLIGHT_P1_OK restored=true");
    assert_eq!(done_line(Drill::KilledBeforeAccept, 7, false), "PREFLIGHT_P1_OK restored=false");
    assert_eq!(done_line(Drill::Scale, 10_000, true), "SCALE_OK n=10000");
    assert_eq!(done_line(Drill::Perf, 7, true), "");
    let d = moves(Drill::Demo);
    assert_eq!(d[1], Move::Timing("BOOTSTRAP_MS"));
    assert_eq!(d[2], Move::AwaitControl { msg: ControlMsg::ReadyToKill, ms: 30000 });
    assert_eq!(d.last(), Some(&Move::Say("CLEANUP_COMPLETED")));
    assert_eq!(moves(Drill::HostDie).last(), Some(&Move::Die(9)));
    let kill = |at: Barrier, ms: u64| Move::KillClientAt { at, ms };
    assert!(moves(Drill::KilledBeforeAccept).contains(&kill(Barrier::AfterEscrow, 50)));
    assert!(moves(Drill::KilledBeforeCommit).contains(&kill(Barrier::BeforeCommit, 30)));
    assert!(moves(Drill::KilledAfterCommit).contains(&kill(Barrier::AfterCommit, 30)));
}

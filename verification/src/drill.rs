//! The host role's drills: what the host does to its peers, step by step,
//! and what must hold afterwards.
//!
//! A drill is a table. Whoever runs it performs the moves one after the
//! other; the checks are decided here.

use vstd::prelude::*;

use crate::proto::ControlMsg;
use crate::id::EpId;
use crate::router::{Accounting, EpEntry, PeerId};
use crate::router_inv::inv;
use crate::router_model::State;
use crate::text::{dec_text, push_dec};

verus! {

/// A point in a transfer at which the host can be made to pause.
#[derive(Clone, Copy, Debug, PartialEq, Eq, Structural)]
pub enum Barrier {
    AfterEscrow,
    BeforeCommit,
    AfterCommit,
}

/// What a pair of peers is started with besides its modes.
#[derive(Clone, Copy, Debug, PartialEq, Eq, Structural)]
pub enum Extra {
    Plain,
    /// The service answers pings after eight seconds.
    SlowReplies,
    /// The client may hold four endpoints.
    FourEndpoints,
    /// The client refuses native offers at first.
    RejectNative,
    /// The client goes through as many cycles as the host was asked for.
    Cycles,
    /// The client pauses before it answers an offer.
    PauseAtOffer,
}

/// What must hold.
#[derive(Clone, Copy, Debug, PartialEq, Eq, Structural)]
pub enum Check {
    /// No peer and no endpoint is left.
    Clean,
    /// The same, and every result is acknowledged.
    CleanAcked,
    NoPeers,
    /// No peer is left, and every native result is acknowledged.
    NoPeersNativeAcked,
    /// The root pair and the control pair are live, and what is retired stays
    /// within its bound.
    AtScale,
    /// No peer is left, and the host can still make endpoints.
    Survived,
    ClientOk,
    BothOk,
}

/// What the host reports of its accounting.
#[derive(Clone, Copy, Debug, PartialEq, Eq, Structural)]
pub enum Tally {
    /// Everything, at the end of the story.
    Final,
    /// What is live and what is retired, before the peers are shut down.
    BeforeTeardown,
    /// What is retired, after they are.
    Total,
}

/// One move. Times are in milliseconds.
#[derive(Clone, Copy, Debug, PartialEq, Eq)]
pub enum Move {
    SpawnService,
    SpawnRawPeer,
    AwaitHellos(usize),
    /// Start a service and a client, exchange hellos, and hand out the root
    /// and control capabilities. Where that is not strict, it goes on though
    /// the transfers do not settle in time.
    Bootstrap { service: &'static str, client: &'static str, extra: Extra, strict: bool },
    /// Wait for a control message.
    AwaitControl { msg: ControlMsg, ms: u64 },
    /// The same, but go on without it.
    ExpectControl { msg: ControlMsg, ms: u64 },
    /// Acknowledge the control message waited for last, if it came.
    Acknowledge,
    /// Kill the service and tell everybody.
    KillService,
    /// Wait for the client to exit.
    AwaitClient(u64),
    /// The same, but go on though it does not.
    ExpectClient(u64),
    PauseAt(Barrier),
    /// Kill the client so long after the host has paused there.
    KillClientAt { at: Barrier, ms: u64 },
    /// Work until the transfer is undone or the client is gone.
    AwaitRestore(u64),
    /// Work until the client is gone.
    AwaitClientGone(u64),
    ResumeAll,
    /// Keep the next commit result from its sender.
    DropCommitted,
    AwaitQuarantine(u64),
    CreatePair,
    Sleep(u64),
    ShutDown,
    Say(&'static str),
    /// Say how long the bootstrap took, under this name.
    Timing(&'static str),
    Report(Tally),
    Require { check: Check, complaint: &'static str },
    /// End this process at once.
    Die(i32),
}

/// What a check looks at.
#[derive(Clone, Copy, Debug)]
pub struct Facts {
    pub accounting: Accounting,
    pub max_retired: usize,
    pub client: Option<i32>,
    pub service: Option<i32>,
}

/// Does a check hold of the facts?
pub open spec fn check_holds(check: Check, f: Facts) -> bool {
    let a = f.accounting;
    match check {
        Check::Clean => a.peers == 0 && a.live_endpoints == 0,
        Check::CleanAcked => a.peers == 0 && a.live_endpoints == 0 && a.unacked_results == 0,
        Check::NoPeers => a.peers == 0,
        Check::NoPeersNativeAcked => a.peers == 0 && a.native_unacked == 0,
        Check::AtScale => a.live_endpoints == 4 && a.retired_identities <= f.max_retired,
        Check::Survived => a.peers == 0 && a.live_endpoints == 2,
        Check::ClientOk => f.client == Some(0i32),
        Check::BothOk => f.client == Some(0i32) && f.service == Some(0i32),
    }
}

/// Does a process that ended end well?
fn ended_well(code: Option<i32>) -> (r: bool)
    ensures
        r == (code == Some(0i32)),
{
    match code {
        Some(c) => c == 0,
        None => false,
    }
}

/// Does a check hold of the facts?
pub fn holds(check: Check, f: &Facts) -> (r: bool)
    ensures
        r == check_holds(check, *f),
{
    let a = &f.accounting;
    match check {
        Check::Clean => a.peers == 0 && a.live_endpoints == 0,
        Check::CleanAcked => a.peers == 0 && a.live_endpoints == 0 && a.unacked_results == 0,
        Check::NoPeers => a.peers == 0,
        Check::NoPeersNativeAcked => a.peers == 0 && a.native_unacked == 0,
        Check::AtScale => a.live_endpoints == 4 && a.retired_identities <= f.max_retired,
        Check::Survived => a.peers == 0 && a.live_endpoints == 2,
        Check::ClientOk => ended_well(f.client),
        Check::BothOk => ended_well(f.client) && ended_well(f.service),
    }
}

/// Is a transfer undone? The client is gone or nothing is in escrow any more,
/// and no result or no transfer is outstanding.
pub fn restored(client_gone: bool, a: &Accounting) -> (r: bool)
    ensures
        r == ((client_gone || a.escrowed == 0) && (a.unacked_results == 0 || a.pending_transfers
            == 0)),
{
    (client_gone || a.escrowed == 0) && (a.unacked_results == 0 || a.pending_transfers == 0)
}

/// Is nothing of a grant in flight?
pub fn settled(a: &Accounting) -> (r: bool)
    ensures
        r == (a.escrowed == 0),
{
    a.escrowed == 0
}

// ----------------------------------------------------------------- drills ---

/// A strict bootstrap without extras.
#[verifier::allow_in_spec]
pub fn boot(service: &'static str, client: &'static str) -> Move
    returns
        (Move::Bootstrap { service, client, extra: Extra::Plain, strict: true }),
{
    Move::Bootstrap { service, client, extra: Extra::Plain, strict: true }
}

/// A strict bootstrap.
#[verifier::allow_in_spec]
pub fn boot_with(service: &'static str, client: &'static str, extra: Extra) -> Move
    returns
        (Move::Bootstrap { service, client, extra, strict: true }),
{
    Move::Bootstrap { service, client, extra, strict: true }
}

/// A bootstrap that does not wait for the transfers to settle.
#[verifier::allow_in_spec]
pub fn boot_loosely(client: &'static str, extra: Extra) -> Move
    returns
        (Move::Bootstrap { service: "normal", client, extra, strict: false }),
{
    Move::Bootstrap { service: "normal", client, extra, strict: false }
}

/// Something that must hold.
#[verifier::allow_in_spec]
pub fn require(check: Check, complaint: &'static str) -> Move
    returns
        (Move::Require { check, complaint }),
{
    Move::Require { check, complaint }
}

/// Waiting for a control message.
#[verifier::allow_in_spec]
pub fn await_control(msg: ControlMsg, ms: u64) -> Move
    returns
        (Move::AwaitControl { msg, ms }),
{
    Move::AwaitControl { msg, ms }
}

/// Which drill the host runs.
#[derive(Clone, Copy, Debug, PartialEq, Eq, Structural)]
pub enum Drill {
    Demo,
    KilledAtSpawn,
    KilledAfterHello,
    KilledAfterGrant,
    KilledAfterSettling,
    KilledWithRequest,
    KilledAfterUse,
    Graceful,
    Perf,
    Scale,
    HostDie,
    Quarantine,
    AbortCycle,
    KilledBeforeAccept,
    KilledBeforeCommit,
    KilledAfterCommit,
    ResultLost,
    NativeHappy,
    NativeAbort,
}

/// The whole story: a nested capability works, the service dies, and both
/// capabilities fail.
pub open spec fn demo_moves() -> Seq<Move> {
    seq![
        boot("normal", "full"),
        Move::Timing("BOOTSTRAP_MS"),
        await_control(ControlMsg::ReadyToKill, 30000),
        Move::Say("REQUEST_SUCCEEDED"),
        Move::Say("NESTED_CAPABILITY_TRANSFERRED"),
        Move::Say("NESTED_CAPABILITY_INVOKED"),
        Move::Say("KILLING_SERVICE"),
        Move::KillService,
        Move::Say("PEER_FAILURE_OBSERVED_BY_FABRIC"),
        Move::Acknowledge,
        await_control(ControlMsg::Done, 20000),
        Move::Acknowledge,
        Move::Say("CLIENT_ACKNOWLEDGED_FAILURES"),
        Move::ExpectClient(20000),
        Move::ShutDown,
        Move::Report(Tally::Final),
        require(Check::Clean, "cleanup left live state"),
        Move::Say("CLEANUP_COMPLETED"),
    ]
}

fn demo() -> (r: Vec<Move>)
    ensures
        r@ == demo_moves(),
{
    vec![
        boot("normal", "full"),
        Move::Timing("BOOTSTRAP_MS"),
        await_control(ControlMsg::ReadyToKill, 30000),
        Move::Say("REQUEST_SUCCEEDED"),
        Move::Say("NESTED_CAPABILITY_TRANSFERRED"),
        Move::Say("NESTED_CAPABILITY_INVOKED"),
        Move::Say("KILLING_SERVICE"),
        Move::KillService,
        Move::Say("PEER_FAILURE_OBSERVED_BY_FABRIC"),
        Move::Acknowledge,
        await_control(ControlMsg::Done, 20000),
        Move::Acknowledge,
        Move::Say("CLIENT_ACKNOWLEDGED_FAILURES"),
        Move::ExpectClient(20000),
        Move::ShutDown,
        Move::Report(Tally::Final),
        require(Check::Clean, "cleanup left live state"),
        Move::Say("CLEANUP_COMPLETED"),
    ]
}

/// The service is killed before it says anything.
pub open spec fn killed_at_spawn_moves() -> Seq<Move> {
    seq![
        Move::SpawnService,
        Move::KillService,
        require(Check::Clean, "state leaked"),
    ]
}

fn killed_at_spawn() -> (r: Vec<Move>)
    ensures
        r@ == killed_at_spawn_moves(),
{
    vec![
        Move::SpawnService,
        Move::KillService,
        require(Check::Clean, "state leaked"),
    ]
}

/// The service is killed before any capability is handed out.
pub open spec fn killed_after_hello_moves() -> Seq<Move> {
    seq![
        Move::SpawnService,
        Move::AwaitHellos(1),
        Move::KillService,
    ]
}

fn killed_after_hello() -> (r: Vec<Move>)
    ensures
        r@ == killed_after_hello_moves(),
{
    vec![
        Move::SpawnService,
        Move::AwaitHellos(1),
        Move::KillService,
    ]
}

/// The service is killed as soon as the grants are out.
pub open spec fn killed_after_grant_moves() -> Seq<Move> {
    seq![
        boot("hold", "root_closed_tolerant"),
        Move::KillService,
        Move::AwaitClient(15000),
        require(Check::ClientOk, "client exit"),
    ]
}

fn killed_after_grant() -> (r: Vec<Move>)
    ensures
        r@ == killed_after_grant_moves(),
{
    vec![
        boot("hold", "root_closed_tolerant"),
        Move::KillService,
        Move::AwaitClient(15000),
        require(Check::ClientOk, "client exit"),
    ]
}

/// The grants have settled; the client must see the root close.
pub open spec fn killed_after_settling_moves() -> Seq<Move> {
    seq![
        boot("hold", "root_closed_strict"),
        Move::Sleep(250),
        Move::KillService,
        Move::AwaitClient(15000),
        require(Check::ClientOk, "client exit"),
    ]
}

fn killed_after_settling() -> (r: Vec<Move>)
    ensures
        r@ == killed_after_settling_moves(),
{
    vec![
        boot("hold", "root_closed_strict"),
        Move::Sleep(250),
        Move::KillService,
        Move::AwaitClient(15000),
        require(Check::ClientOk, "client exit"),
    ]
}

/// A request is outstanding when the service dies.
pub open spec fn killed_with_request_moves() -> Seq<Move> {
    seq![
        boot_with("normal", "outstanding_request", Extra::SlowReplies),
        Move::Sleep(400),
        Move::KillService,
        Move::AwaitClient(15000),
        require(Check::ClientOk, "client exit"),
    ]
}

fn killed_with_request() -> (r: Vec<Move>)
    ensures
        r@ == killed_with_request_moves(),
{
    vec![
        boot_with("normal", "outstanding_request", Extra::SlowReplies),
        Move::Sleep(400),
        Move::KillService,
        Move::AwaitClient(15000),
        require(Check::ClientOk, "client exit"),
    ]
}

/// A nested capability was used once when the service dies.
pub open spec fn killed_after_use_moves() -> Seq<Move> {
    seq![
        boot("normal", "kill_after_first_increment"),
        await_control(ControlMsg::ReadyToKill, 30000),
        Move::KillService,
        Move::Acknowledge,
        Move::AwaitClient(20000),
        require(Check::ClientOk, "client exit"),
    ]
}

fn killed_after_use() -> (r: Vec<Move>)
    ensures
        r@ == killed_after_use_moves(),
{
    vec![
        boot("normal", "kill_after_first_increment"),
        await_control(ControlMsg::ReadyToKill, 30000),
        Move::KillService,
        Move::Acknowledge,
        Move::AwaitClient(20000),
        require(Check::ClientOk, "client exit"),
    ]
}

/// Nothing is killed, and nothing is left.
pub open spec fn graceful_moves() -> Seq<Move> {
    seq![
        boot("normal", "graceful_done"),
        await_control(ControlMsg::Done, 30000),
        Move::Acknowledge,
        Move::ExpectClient(20000),
        Move::ShutDown,
        require(Check::Clean, "leak"),
        require(Check::BothOk, "exit codes"),
    ]
}

fn graceful() -> (r: Vec<Move>)
    ensures
        r@ == graceful_moves(),
{
    vec![
        boot("normal", "graceful_done"),
        await_control(ControlMsg::Done, 30000),
        Move::Acknowledge,
        Move::ExpectClient(20000),
        Move::ShutDown,
        require(Check::Clean, "leak"),
        require(Check::BothOk, "exit codes"),
    ]
}

/// The client measures.
pub open spec fn perf_moves() -> Seq<Move> {
    seq![
        boot("normal", "perf"),
        Move::Timing("PERF_BOOTSTRAP_MS"),
        await_control(ControlMsg::Done, 300000),
        Move::Acknowledge,
        Move::ExpectClient(20000),
        Move::ShutDown,
        Move::Say("PERF_DONE"),
    ]
}

fn perf() -> (r: Vec<Move>)
    ensures
        r@ == perf_moves(),
{
    vec![
        boot("normal", "perf"),
        Move::Timing("PERF_BOOTSTRAP_MS"),
        await_control(ControlMsg::Done, 300000),
        Move::Acknowledge,
        Move::ExpectClient(20000),
        Move::ShutDown,
        Move::Say("PERF_DONE"),
    ]
}

/// Endpoints are made, transferred and closed many times over.
pub open spec fn scale_moves() -> Seq<Move> {
    seq![
        boot_with("normal", "churn", Extra::Cycles),
        await_control(ControlMsg::Done, 1800000),
        Move::Acknowledge,
        Move::Report(Tally::BeforeTeardown),
        require(Check::AtScale, "scale accounting wrong"),
        Move::ExpectClient(20000),
        Move::ShutDown,
        require(Check::Clean, "cleanup left live state"),
        Move::Report(Tally::Total),
    ]
}

fn scale() -> (r: Vec<Move>)
    ensures
        r@ == scale_moves(),
{
    vec![
        boot_with("normal", "churn", Extra::Cycles),
        await_control(ControlMsg::Done, 1800000),
        Move::Acknowledge,
        Move::Report(Tally::BeforeTeardown),
        require(Check::AtScale, "scale accounting wrong"),
        Move::ExpectClient(20000),
        Move::ShutDown,
        require(Check::Clean, "cleanup left live state"),
        Move::Report(Tally::Total),
    ]
}

/// The host dies; its peers must notice.
pub open spec fn host_die_moves() -> Seq<Move> {
    seq![
        boot("hold", "watchdog"),
        Move::Die(9),
    ]
}

fn host_die() -> (r: Vec<Move>)
    ensures
        r@ == host_die_moves(),
{
    vec![
        boot("hold", "watchdog"),
        Move::Die(9),
    ]
}

/// A hostile peer is cut off, and the host survives.
pub open spec fn quarantine_moves() -> Seq<Move> {
    seq![
        Move::SpawnRawPeer,
        Move::AwaitQuarantine(10000),
        Move::CreatePair,
        require(Check::Survived, "host state damaged by hostile peer"),
        Move::Say("HOST_SURVIVED_QUARANTINE"),
    ]
}

fn quarantine() -> (r: Vec<Move>)
    ensures
        r@ == quarantine_moves(),
{
    vec![
        Move::SpawnRawPeer,
        Move::AwaitQuarantine(10000),
        Move::CreatePair,
        require(Check::Survived, "host state damaged by hostile peer"),
        Move::Say("HOST_SURVIVED_QUARANTINE"),
    ]
}

/// A transfer beyond the capacity aborts and is repeated.
pub open spec fn abort_cycle_moves() -> Seq<Move> {
    seq![
        boot_with("normal", "abort_cycle", Extra::FourEndpoints),
        await_control(ControlMsg::Done, 30000),
        Move::Acknowledge,
        Move::ExpectClient(20000),
        Move::ShutDown,
        require(Check::CleanAcked, "leak"),
    ]
}

fn abort_cycle() -> (r: Vec<Move>)
    ensures
        r@ == abort_cycle_moves(),
{
    vec![
        boot_with("normal", "abort_cycle", Extra::FourEndpoints),
        await_control(ControlMsg::Done, 30000),
        Move::Acknowledge,
        Move::ExpectClient(20000),
        Move::ShutDown,
        require(Check::CleanAcked, "leak"),
    ]
}

/// The recipient is killed before it accepts: the sender gets its endpoint
/// back.
pub open spec fn killed_before_accept_moves() -> Seq<Move> {
    seq![
        Move::PauseAt(Barrier::AfterEscrow),
        boot_loosely("txn_once", Extra::PauseAtOffer),
        Move::KillClientAt { at: Barrier::AfterEscrow, ms: 50 },
        Move::AwaitRestore(15000),
        Move::ResumeAll,
        Move::ExpectClient(5000),
        Move::ShutDown,
        require(Check::NoPeers, "p1 leak"),
        Move::Say("PREFLIGHT_P1_OK"),
    ]
}

fn killed_before_accept() -> (r: Vec<Move>)
    ensures
        r@ == killed_before_accept_moves(),
{
    vec![
        Move::PauseAt(Barrier::AfterEscrow),
        boot_loosely("txn_once", Extra::PauseAtOffer),
        Move::KillClientAt { at: Barrier::AfterEscrow, ms: 50 },
        Move::AwaitRestore(15000),
        Move::ResumeAll,
        Move::ExpectClient(5000),
        Move::ShutDown,
        require(Check::NoPeers, "p1 leak"),
        Move::Say("PREFLIGHT_P1_OK"),
    ]
}

/// The recipient is killed between its acceptance and the commit.
pub open spec fn killed_before_commit_moves() -> Seq<Move> {
    seq![
        Move::PauseAt(Barrier::BeforeCommit),
        boot_loosely("txn_once", Extra::Plain),
        Move::KillClientAt { at: Barrier::BeforeCommit, ms: 30 },
        Move::AwaitClientGone(15000),
        Move::ResumeAll,
        Move::ExpectClient(5000),
        Move::ShutDown,
        require(Check::NoPeers, "p2 leak"),
        Move::Say("PREFLIGHT_P2_OK"),
    ]
}

fn killed_before_commit() -> (r: Vec<Move>)
    ensures
        r@ == killed_before_commit_moves(),
{
    vec![
        Move::PauseAt(Barrier::BeforeCommit),
        boot_loosely("txn_once", Extra::Plain),
        Move::KillClientAt { at: Barrier::BeforeCommit, ms: 30 },
        Move::AwaitClientGone(15000),
        Move::ResumeAll,
        Move::ExpectClient(5000),
        Move::ShutDown,
        require(Check::NoPeers, "p2 leak"),
        Move::Say("PREFLIGHT_P2_OK"),
    ]
}

/// The recipient is killed after the commit: nothing goes back.
pub open spec fn killed_after_commit_moves() -> Seq<Move> {
    seq![
        Move::PauseAt(Barrier::AfterCommit),
        boot_loosely("preflight_p3_client", Extra::Plain),
        Move::KillClientAt { at: Barrier::AfterCommit, ms: 30 },
        Move::AwaitClientGone(15000),
        Move::ResumeAll,
        Move::ExpectClient(5000),
        Move::ShutDown,
        require(Check::NoPeers, "p3 leak"),
        Move::Say("PREFLIGHT_P3_OK"),
    ]
}

fn killed_after_commit() -> (r: Vec<Move>)
    ensures
        r@ == killed_after_commit_moves(),
{
    vec![
        Move::PauseAt(Barrier::AfterCommit),
        boot_loosely("preflight_p3_client", Extra::Plain),
        Move::KillClientAt { at: Barrier::AfterCommit, ms: 30 },
        Move::AwaitClientGone(15000),
        Move::ResumeAll,
        Move::ExpectClient(5000),
        Move::ShutDown,
        require(Check::NoPeers, "p3 leak"),
        Move::Say("PREFLIGHT_P3_OK"),
    ]
}

/// The sender does not hear of the commit and asks for it.
pub open spec fn result_lost_moves() -> Seq<Move> {
    seq![
        Move::DropCommitted,
        boot_loosely("txn_once", Extra::Plain),
        Move::ExpectControl { msg: ControlMsg::Done, ms: 20000 },
        Move::Acknowledge,
        Move::ExpectClient(10000),
        require(Check::ClientOk, "p4 client exit"),
        Move::ShutDown,
        Move::Say("PREFLIGHT_P4_OK"),
    ]
}

fn result_lost() -> (r: Vec<Move>)
    ensures
        r@ == result_lost_moves(),
{
    vec![
        Move::DropCommitted,
        boot_loosely("txn_once", Extra::Plain),
        Move::ExpectControl { msg: ControlMsg::Done, ms: 20000 },
        Move::Acknowledge,
        Move::ExpectClient(10000),
        require(Check::ClientOk, "p4 client exit"),
        Move::ShutDown,
        Move::Say("PREFLIGHT_P4_OK"),
    ]
}

/// A native file is handed over.
pub open spec fn native_happy_moves() -> Seq<Move> {
    seq![
        boot("native", "native_happy"),
        await_control(ControlMsg::Done, 20000),
        Move::Acknowledge,
        Move::ExpectClient(10000),
        require(Check::ClientOk, "native_happy client exit"),
        Move::ShutDown,
        require(Check::NoPeers, "native_happy leak"),
        Move::Say("NATIVE_HAPPY_OK"),
    ]
}

fn native_happy() -> (r: Vec<Move>)
    ensures
        r@ == native_happy_moves(),
{
    vec![
        boot("native", "native_happy"),
        await_control(ControlMsg::Done, 20000),
        Move::Acknowledge,
        Move::ExpectClient(10000),
        require(Check::ClientOk, "native_happy client exit"),
        Move::ShutDown,
        require(Check::NoPeers, "native_happy leak"),
        Move::Say("NATIVE_HAPPY_OK"),
    ]
}

/// A native file is refused, goes back and is handed over again.
pub open spec fn native_abort_moves() -> Seq<Move> {
    seq![
        boot_with("native", "native_abort", Extra::RejectNative),
        await_control(ControlMsg::Done, 30000),
        Move::Acknowledge,
        Move::ExpectClient(15000),
        require(Check::ClientOk, "native_abort client exit"),
        Move::ShutDown,
        require(Check::NoPeersNativeAcked, "native_abort leak"),
        Move::Say("NATIVE_ABORT_OK"),
    ]
}

fn native_abort() -> (r: Vec<Move>)
    ensures
        r@ == native_abort_moves(),
{
    vec![
        boot_with("native", "native_abort", Extra::RejectNative),
        await_control(ControlMsg::Done, 30000),
        Move::Acknowledge,
        Move::ExpectClient(15000),
        require(Check::ClientOk, "native_abort client exit"),
        Move::ShutDown,
        require(Check::NoPeersNativeAcked, "native_abort leak"),
        Move::Say("NATIVE_ABORT_OK"),
    ]
}

/// The moves of a drill.
pub open spec fn moves_of(drill: Drill) -> Seq<Move> {
    match drill {
        Drill::Demo => demo_moves(),
        Drill::KilledAtSpawn => killed_at_spawn_moves(),
        Drill::KilledAfterHello => killed_after_hello_moves(),
        Drill::KilledAfterGrant => killed_after_grant_moves(),
        Drill::KilledAfterSettling => killed_after_settling_moves(),
        Drill::KilledWithRequest => killed_with_request_moves(),
        Drill::KilledAfterUse => killed_after_use_moves(),
        Drill::Graceful => graceful_moves(),
        Drill::Perf => perf_moves(),
        Drill::Scale => scale_moves(),
        Drill::HostDie => host_die_moves(),
        Drill::Quarantine => quarantine_moves(),
        Drill::AbortCycle => abort_cycle_moves(),
        Drill::KilledBeforeAccept => killed_before_accept_moves(),
        Drill::KilledBeforeCommit => killed_before_commit_moves(),
        Drill::KilledAfterCommit => killed_after_commit_moves(),
        Drill::ResultLost => result_lost_moves(),
        Drill::NativeHappy => native_happy_moves(),
        Drill::NativeAbort => native_abort_moves(),
    }
}

/// The moves of a drill.
pub fn moves(drill: Drill) -> (r: Vec<Move>)
    ensures
        r@ == moves_of(drill),
{
    match drill {
        Drill::Demo => demo(),
        Drill::KilledAtSpawn => killed_at_spawn(),
        Drill::KilledAfterHello => killed_after_hello(),
        Drill::KilledAfterGrant => killed_after_grant(),
        Drill::KilledAfterSettling => killed_after_settling(),
        Drill::KilledWithRequest => killed_with_request(),
        Drill::KilledAfterUse => killed_after_use(),
        Drill::Graceful => graceful(),
        Drill::Perf => perf(),
        Drill::Scale => scale(),
        Drill::HostDie => host_die(),
        Drill::Quarantine => quarantine(),
        Drill::AbortCycle => abort_cycle(),
        Drill::KilledBeforeAccept => killed_before_accept(),
        Drill::KilledBeforeCommit => killed_before_commit(),
        Drill::KilledAfterCommit => killed_after_commit(),
        Drill::ResultLost => result_lost(),
        Drill::NativeHappy => native_happy(),
        Drill::NativeAbort => native_abort(),
    }
}

/// What the line of a drill that has gone through begins with; nothing for
/// some.
pub open spec fn done_head(drill: Drill) -> Seq<char> {
    match drill {
        Drill::Demo => "DEMO_OK"@,
        Drill::KilledAtSpawn => "CASE_A_OK"@,
        Drill::KilledAfterHello => "CASE_B_OK"@,
        Drill::KilledAfterGrant => "CASE_C_OK"@,
        Drill::KilledAfterSettling => "CASE_D_OK"@,
        Drill::KilledWithRequest => "CASE_E_OK"@,
        Drill::KilledAfterUse => "CASE_F_OK"@,
        Drill::Graceful => "CASE_G_OK"@,
        Drill::Perf => ""@,
        Drill::Scale => "SCALE_OK n="@,
        Drill::HostDie => ""@,
        Drill::Quarantine => ""@,
        Drill::AbortCycle => "ABORT_CYCLE_OK"@,
        Drill::KilledBeforeAccept => "PREFLIGHT_P1_OK restored="@,
        Drill::KilledBeforeCommit => "PREFLIGHT_P2_OK"@,
        Drill::KilledAfterCommit => "PREFLIGHT_P3_OK"@,
        Drill::ResultLost => "PREFLIGHT_P4_OK"@,
        Drill::NativeHappy => "NATIVE_HAPPY_OK"@,
        Drill::NativeAbort => "NATIVE_ABORT_OK"@,
    }
}

/// The line that is printed when a drill has gone through, empty for some: it
/// says how many cycles were asked for, or whether the transfer was undone,
/// where that is what the drill is about.
pub open spec fn done_text(drill: Drill, cycles: u64, undone: bool) -> Seq<char> {
    done_head(drill) + match drill {
        Drill::Scale => dec_text(cycles as nat),
        Drill::KilledBeforeAccept => if undone {
            "true"@
        } else {
            "false"@
        },
        _ => Seq::empty(),
    }
}

fn done_words(drill: Drill) -> (r: &'static str)
    ensures
        r@ == done_head(drill),
{
    match drill {
        Drill::Demo => "DEMO_OK",
        Drill::KilledAtSpawn => "CASE_A_OK",
        Drill::KilledAfterHello => "CASE_B_OK",
        Drill::KilledAfterGrant => "CASE_C_OK",
        Drill::KilledAfterSettling => "CASE_D_OK",
        Drill::KilledWithRequest => "CASE_E_OK",
        Drill::KilledAfterUse => "CASE_F_OK",
        Drill::Graceful => "CASE_G_OK",
        Drill::Perf => "",
        Drill::Scale => "SCALE_OK n=",
        Drill::HostDie => "",
        Drill::Quarantine => "",
        Drill::AbortCycle => "ABORT_CYCLE_OK",
        Drill::KilledBeforeAccept => "PREFLIGHT_P1_OK restored=",
        Drill::KilledBeforeCommit => "PREFLIGHT_P2_OK",
        Drill::KilledAfterCommit => "PREFLIGHT_P3_OK",
        Drill::ResultLost => "PREFLIGHT_P4_OK",
        Drill::NativeHappy => "NATIVE_HAPPY_OK",
        Drill::NativeAbort => "NATIVE_ABORT_OK",
    }
}

/// The line that is printed when a drill has gone through; empty for some.
pub fn done_line(drill: Drill, cycles: u64, undone: bool) -> (r: String)
    ensures
        r@ == done_text(drill, cycles, undone),
{
    let mut s = String::from_str(done_words(drill));
    match drill {
        Drill::Scale => push_dec(&mut s, cycles),
        Drill::KilledBeforeAccept => s.append(
            if undone {
                "true"
            } else {
                "false"
            },
        ),
        _ => {},
    }
    assert(s@ =~= done_text(drill, cycles, undone));
    s
}

/// The line that a report is.
pub open spec fn report_text(tally: Tally, a: Accounting) -> Seq<char> {
    match tally {
        Tally::Final => "HOST_ACCOUNTING tag=final peers="@ + dec_text(a.peers as nat) + " live_eps="@
            + dec_text(a.live_endpoints as nat) + " retired="@ + dec_text(a.retired_identities as nat)
            + " host_held="@ + dec_text(a.host_held as nat),
        Tally::BeforeTeardown => "SCALE_FINAL before_teardown live_eps="@ + dec_text(
            a.live_endpoints as nat,
        ) + " retired="@ + dec_text(a.retired_identities as nat),
        Tally::Total => "SCALE_DONE retired_total="@ + dec_text(a.retired_identities as nat),
    }
}

/// The line that a report is.
pub fn report_line(tally: Tally, a: &Accounting) -> (r: String)
    ensures
        r@ == report_text(tally, *a),
{
    match tally {
        Tally::Final => {
            let mut s = String::from_str("HOST_ACCOUNTING tag=final peers=");
            push_dec(&mut s, a.peers as u64);
            s.append(" live_eps=");
            push_dec(&mut s, a.live_endpoints as u64);
            s.append(" retired=");
            push_dec(&mut s, a.retired_identities as u64);
            s.append(" host_held=");
            push_dec(&mut s, a.host_held as u64);
            s
        },
        Tally::BeforeTeardown => {
            let mut s = String::from_str("SCALE_FINAL before_teardown live_eps=");
            push_dec(&mut s, a.live_endpoints as u64);
            s.append(" retired=");
            push_dec(&mut s, a.retired_identities as u64);
            s
        },
        Tally::Total => {
            let mut s = String::from_str("SCALE_DONE retired_total=");
            push_dec(&mut s, a.retired_identities as u64);
            s
        },
    }
}

// ------------------------------------------------------------------- laws ---

/// What the host reports clean is clean: the router has no peer and no
/// endpoint left.
pub proof fn law_clean_is_empty(s: State, f: Facts)
    requires
        inv(s),
        f.accounting.peers == s.peers.len(),
        f.accounting.live_endpoints == s.eps.len(),
        check_holds(Check::Clean, f),
    ensures
        s.peers == Map::<PeerId, bool>::empty(),
        s.eps == Map::<EpId, EpEntry>::empty(),
{
    assert(s.peers =~= Map::<PeerId, bool>::empty());
    assert(s.eps =~= Map::<EpId, EpEntry>::empty());
}

/// What is left over fails a check that asks for nothing of the kind to be
/// left: a peer, a live endpoint, a result that nobody acknowledged. An exit
/// code counts only if it is nought.
pub proof fn law_leftovers_fail_a_check(f: Facts)
    ensures
        f.accounting.peers > 0 ==> {
            &&& !check_holds(Check::Clean, f)
            &&& !check_holds(Check::CleanAcked, f)
            &&& !check_holds(Check::NoPeers, f)
            &&& !check_holds(Check::NoPeersNativeAcked, f)
            &&& !check_holds(Check::Survived, f)
        },
        f.accounting.live_endpoints > 0 ==> !check_holds(Check::Clean, f) && !check_holds(
            Check::CleanAcked,
            f,
        ),
        f.accounting.unacked_results > 0 ==> !check_holds(Check::CleanAcked, f),
        f.accounting.native_unacked > 0 ==> !check_holds(Check::NoPeersNativeAcked, f),
        check_holds(Check::NoPeers, f) <==> f.accounting.peers == 0,
        check_holds(Check::Clean, f) <==> check_holds(Check::NoPeers, f) && f.accounting.live_endpoints
            == 0,
        check_holds(Check::CleanAcked, f) <==> check_holds(Check::Clean, f)
            && f.accounting.unacked_results == 0,
        check_holds(Check::NoPeersNativeAcked, f) <==> check_holds(Check::NoPeers, f)
            && f.accounting.native_unacked == 0,
        check_holds(Check::Survived, f) <==> check_holds(Check::NoPeers, f)
            && f.accounting.live_endpoints == 2,
        check_holds(Check::AtScale, f) <==> f.accounting.live_endpoints == 4
            && f.accounting.retired_identities <= f.max_retired,
        check_holds(Check::ClientOk, f) <==> (f.client matches Some(c) && c == 0),
        check_holds(Check::BothOk, f) <==> check_holds(Check::ClientOk, f) && (
        f.service matches Some(c) && c == 0),
{
}

} // verus!

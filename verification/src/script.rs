//! The client role: scripts of steps, each with what is wanted of it.
//!
//! A script is a table. Whoever runs it performs the step at hand and hands
//! back what came of it; what that means for the run is decided here.

use vstd::prelude::*;

use crate::fabric_error::FabError;
use crate::proto::{
    control_ack_of, counter_response_of, decode_control_ack, decode_counter_response,
    decode_root_response, encode_control, encode_counter_request, encode_root_request,
    root_response_of, ControlMsg, CounterRequest, CounterResponse, RootRequest, RootResponse,
};
use crate::service::{
    has_nonce, is_restored, nonce_bytes, region_usable, restored_bytes, REGION_SIZE,
};
use crate::shared::Rights;

verus! {

// ------------------------------------------------------------------ steps ---

/// Under which name a run keeps an endpoint.
#[derive(Clone, Copy, Debug, PartialEq, Eq, Structural)]
pub enum Slot {
    Root,
    Ctrl,
    Counter,
    /// A stack of endpoints that are only kept alive.
    Held,
}

/// What is asked in a call.
#[derive(Clone, Copy, Debug, PartialEq, Eq, Structural)]
pub enum Ask {
    Ping,
    OpenCounter,
    Increment,
    Get,
    ReadyToKill,
    Done,
}

impl Ask {
    /// The bytes of the request.
    pub open spec fn bytes(self) -> Seq<u8> {
        seq![
            match self {
                Ask::Ping => RootRequest::Ping.tag(),
                Ask::OpenCounter => RootRequest::OpenCounter.tag(),
                Ask::Increment => CounterRequest::Increment.tag(),
                Ask::Get => CounterRequest::Get.tag(),
                Ask::ReadyToKill => ControlMsg::ReadyToKill.tag(),
                Ask::Done => ControlMsg::Done.tag(),
            },
        ]
    }

    /// The bytes of the request.
    pub fn encode(self) -> (r: Vec<u8>)
        ensures
            r@ == self.bytes(),
    {
        match self {
            Ask::Ping => encode_root_request(RootRequest::Ping),
            Ask::OpenCounter => encode_root_request(RootRequest::OpenCounter),
            Ask::Increment => encode_counter_request(CounterRequest::Increment),
            Ask::Get => encode_counter_request(CounterRequest::Get),
            Ask::ReadyToKill => encode_control(ControlMsg::ReadyToKill),
            Ask::Done => encode_control(ControlMsg::Done),
        }
    }
}

/// One step. Times are in milliseconds.
#[derive(Clone, Copy, Debug, PartialEq, Eq, Structural)]
pub enum Act {
    /// Wait for a granted endpoint that was not claimed yet.
    Claim(Slot),
    /// Call, and keep the first endpoint that the reply brings, if any is to
    /// be kept.
    Call { on: Slot, ask: Ask, ms: u64, keep: Option<Slot> },
    Close(Slot),
    /// Let the endpoint kept last go.
    Release(Slot),
    Sleep(u64),
    /// Wait, and refuse native offers no longer.
    StopRejecting(u64),
    /// Look whether the fabric is gone, and ping if it is not.
    PollLoss(u64),
    /// Wait for a message that brings a region.
    AwaitRegion(u64),
    /// Fill the region with the pattern of this seed and hash it.
    FillRegion(u64),
    /// Report the hash on the endpoint that the region came on.
    ReportHash(u64),
    /// Take messages in until the fabric is gone.
    HoldOn(u64),
    Nothing,
}

/// Why a call or a wait failed.
#[derive(Clone, Copy, Debug, PartialEq, Eq, Structural)]
pub enum Refusal {
    Closed,
    Timeout,
    Lost,
    Aborted,
    Unexpected,
}

/// What an error is to a script.
pub open spec fn refusal_for(e: FabError) -> Refusal {
    match e {
        FabError::Closed(_) => Refusal::Closed,
        FabError::Timeout => Refusal::Timeout,
        FabError::FabricLost => Refusal::Lost,
        FabError::TransferAborted(_) => Refusal::Aborted,
        _ => Refusal::Unexpected,
    }
}

/// What an error is to a script.
pub fn refusal_of(e: &FabError) -> (r: Refusal)
    ensures
        r == refusal_for(*e),
{
    match e {
        FabError::Closed(_) => Refusal::Closed,
        FabError::Timeout => Refusal::Timeout,
        FabError::FabricLost => Refusal::Lost,
        FabError::TransferAborted(_) => Refusal::Aborted,
        _ => Refusal::Unexpected,
    }
}

/// What came of a step.
#[derive(Clone, Debug, PartialEq, Eq)]
pub enum Seen {
    /// The step went through.
    Through,
    /// The step could not be taken.
    Failed,
    Claimed,
    /// What was claimed is not live any more.
    Stale,
    /// A reply, with the number of endpoints that it brought and the contents
    /// of the native file that it brought.
    Reply { payload: Vec<u8>, caps: usize, native: Option<Vec<u8>> },
    Refused(Refusal),
    Region { rights: Rights, size: u64 },
    /// The fabric is still there.
    Quiet,
    /// The fabric is gone.
    Lost,
    /// The fabric is still there, and the time for that is up.
    Expired,
}

// ------------------------------------------------------------------ wants ---

/// What is wanted of a step.
#[derive(Clone, Copy, Debug, PartialEq, Eq, Structural)]
pub enum Want {
    Anything,
    Through,
    Claimed,
    /// A grant, or an explicit loss; without a strict demand for the grant,
    /// also none in time.
    GrantOrLoss { strict: bool },
    /// A grant, or a fabric that is gone.
    GrantOrGone,
    AnyReply,
    Pong,
    /// A counter reply that brings an endpoint.
    CounterCap,
    /// The same, or an aborted transfer.
    CounterCapOrAbort,
    /// Any reply that brings an endpoint.
    Cap,
    /// An aborted transfer, or a reply that brings nothing.
    AbortOrEmpty,
    /// The first increment.
    First,
    Closed,
    Ack,
    Nonce,
    /// A reply, best with a native file that holds the nonce.
    NonceIfAny,
    RestoredFile,
    UsableRegion,
    Loss,
    /// Whatever came, the script goes on elsewhere.
    Elsewhere,
}

/// Whether a step did what was wanted.
#[derive(Clone, Copy, Debug, PartialEq, Eq)]
pub enum Verdict {
    Met,
    /// Something else that is in order as well, with what to say about it.
    Alternative(&'static str),
    Unmet,
}

/// The verdict of a plain yes or no.
pub open spec fn plain(b: bool) -> Verdict {
    if b {
        Verdict::Met
    } else {
        Verdict::Unmet
    }
}

/// Is it a reply that brings a counter?
pub open spec fn brings_counter(seen: Seen) -> bool {
    seen matches Seen::Reply { payload, caps, .. } && caps > 0 && root_response_of(payload@) == Ok::<
        RootResponse,
        FabError,
    >(RootResponse::Counter)
}

/// Is it a reply with a native file that holds the nonce?
pub open spec fn brings_nonce(seen: Seen) -> bool {
    seen matches Seen::Reply { native: Some(d), .. } && nonce_bytes().is_prefix_of(d@)
}

/// Whether what was seen is what was wanted.
pub open spec fn verdict_of(want: Want, seen: Seen) -> Verdict {
    match want {
        Want::Anything => Verdict::Met,
        Want::Through => plain(seen is Through),
        Want::Claimed => plain(seen is Claimed),
        Want::GrantOrLoss { strict } => match seen {
            Seen::Claimed => Verdict::Met,
            Seen::Stale => Verdict::Alternative("CLIENT_ROOT_CLOSED_OBSERVED"),
            Seen::Refused(Refusal::Timeout) => if strict {
                Verdict::Unmet
            } else {
                Verdict::Alternative("CLIENT_GRANT_NEVER_ARRIVED")
            },
            Seen::Refused(_) => Verdict::Alternative("CLIENT_FABRIC_LOST_WAITING_GRANT"),
            _ => Verdict::Unmet,
        },
        Want::GrantOrGone => match seen {
            Seen::Claimed => Verdict::Met,
            Seen::Stale => Verdict::Alternative(""),
            Seen::Refused(Refusal::Lost) => Verdict::Alternative(""),
            Seen::Refused(Refusal::Closed) => Verdict::Alternative(""),
            _ => Verdict::Unmet,
        },
        Want::AnyReply => plain(seen is Reply),
        Want::Pong => plain(
            seen matches Seen::Reply { payload, .. } && root_response_of(payload@) == Ok::<
                RootResponse,
                FabError,
            >(RootResponse::Pong),
        ),
        Want::CounterCap => plain(brings_counter(seen)),
        Want::CounterCapOrAbort => if brings_counter(seen) {
            Verdict::Met
        } else if seen == Seen::Refused(Refusal::Aborted) {
            Verdict::Alternative("CLIENT_TXN_ONCE_ABORTED")
        } else {
            Verdict::Unmet
        },
        Want::Cap => plain(seen matches Seen::Reply { caps, .. } && caps > 0),
        Want::AbortOrEmpty => if seen == Seen::Refused(Refusal::Aborted) {
            Verdict::Met
        } else if seen matches Seen::Reply { caps, .. } && caps == 0 {
            Verdict::Alternative("CLIENT_ABORT_OBSERVED_EMPTY")
        } else {
            Verdict::Unmet
        },
        Want::First => plain(
            seen matches Seen::Reply { payload, .. } && counter_response_of(payload@) == Ok::<
                CounterResponse,
                FabError,
            >(CounterResponse::Incremented(1)),
        ),
        Want::Closed => plain(seen == Seen::Refused(Refusal::Closed)),
        Want::Ack => plain(
            seen matches Seen::Reply { payload, .. } && control_ack_of(payload@) is Ok,
        ),
        Want::Nonce => plain(brings_nonce(seen)),
        Want::NonceIfAny => if brings_nonce(seen) {
            Verdict::Met
        } else if seen is Reply {
            Verdict::Alternative("")
        } else {
            Verdict::Unmet
        },
        Want::RestoredFile => plain(
            seen matches Seen::Reply { native: Some(d), .. } && nonce_bytes().is_prefix_of(d@)
                && restored_bytes().is_suffix_of(d@),
        ),
        Want::UsableRegion => plain(
            seen == (Seen::Region { rights: Rights::ReadWrite, size: REGION_SIZE }),
        ),
        Want::Loss => match seen {
            Seen::Lost => Verdict::Met,
            Seen::Quiet => Verdict::Alternative(""),
            _ => Verdict::Unmet,
        },
        Want::Elsewhere => Verdict::Alternative(""),
    }
}

fn yes_no(b: bool) -> (r: Verdict)
    ensures
        r == plain(b),
{
    if b {
        Verdict::Met
    } else {
        Verdict::Unmet
    }
}

/// What a reply is to a script that wants one.
fn judge_reply(want: Want, payload: &Vec<u8>, caps: usize, native: &Option<Vec<u8>>) -> (r: Verdict)
    requires
        want != Want::Elsewhere,
    ensures
        r == verdict_of(want, Seen::Reply { payload: *payload, caps, native: *native }),
{
    match want {
        Want::Anything => Verdict::Met,
        Want::AnyReply => Verdict::Met,
        Want::Pong => yes_no(
            matches!(decode_root_response(payload.as_slice()), Ok(RootResponse::Pong)),
        ),
        Want::CounterCap | Want::CounterCapOrAbort => yes_no(
            caps > 0 && matches!(
                decode_root_response(payload.as_slice()),
                Ok(RootResponse::Counter)
            ),
        ),
        Want::Cap => yes_no(caps > 0),
        Want::AbortOrEmpty => if caps == 0 {
            Verdict::Alternative("CLIENT_ABORT_OBSERVED_EMPTY")
        } else {
            Verdict::Unmet
        },
        Want::First => yes_no(
            matches!(
                decode_counter_response(payload.as_slice()),
                Ok(CounterResponse::Incremented(1))
            ),
        ),
        Want::Ack => yes_no(decode_control_ack(payload.as_slice()).is_ok()),
        Want::Nonce => match native {
            Some(d) => yes_no(has_nonce(d.as_slice())),
            None => Verdict::Unmet,
        },
        Want::NonceIfAny => match native {
            Some(d) => if has_nonce(d.as_slice()) {
                Verdict::Met
            } else {
                Verdict::Alternative("")
            },
            None => Verdict::Alternative(""),
        },
        Want::RestoredFile => match native {
            Some(d) => yes_no(is_restored(d.as_slice())),
            None => Verdict::Unmet,
        },
        _ => Verdict::Unmet,
    }
}

/// What a refusal is to a script.
fn judge_refusal(want: Want, why: Refusal) -> (r: Verdict)
    requires
        want != Want::Elsewhere,
    ensures
        r == verdict_of(want, Seen::Refused(why)),
{
    match want {
        Want::Anything => Verdict::Met,
        Want::GrantOrLoss { strict } => if why != Refusal::Timeout {
            Verdict::Alternative("CLIENT_FABRIC_LOST_WAITING_GRANT")
        } else if strict {
            Verdict::Unmet
        } else {
            Verdict::Alternative("CLIENT_GRANT_NEVER_ARRIVED")
        },
        Want::GrantOrGone => if why == Refusal::Lost || why == Refusal::Closed {
            Verdict::Alternative("")
        } else {
            Verdict::Unmet
        },
        Want::CounterCapOrAbort => if why == Refusal::Aborted {
            Verdict::Alternative("CLIENT_TXN_ONCE_ABORTED")
        } else {
            Verdict::Unmet
        },
        Want::AbortOrEmpty => yes_no(why == Refusal::Aborted),
        Want::Closed => yes_no(why == Refusal::Closed),
        _ => Verdict::Unmet,
    }
}

/// Judges what came of a step.
pub fn judge(want: Want, seen: &Seen) -> (r: Verdict)
    ensures
        r == verdict_of(want, *seen),
{
    if want == Want::Elsewhere {
        return Verdict::Alternative("");
    }
    match seen {
        Seen::Reply { payload, caps, native } => judge_reply(want, payload, *caps, native),
        Seen::Refused(why) => judge_refusal(want, *why),
        Seen::Claimed => yes_no(
            matches!(
                want,
                Want::Anything | Want::Claimed | Want::GrantOrLoss { .. } | Want::GrantOrGone
            ),
        ),
        Seen::Stale => match want {
            Want::Anything => Verdict::Met,
            Want::GrantOrLoss { .. } => Verdict::Alternative("CLIENT_ROOT_CLOSED_OBSERVED"),
            Want::GrantOrGone => Verdict::Alternative(""),
            _ => Verdict::Unmet,
        },
        Seen::Through => yes_no(matches!(want, Want::Anything | Want::Through)),
        Seen::Region { rights, size } => match want {
            Want::Anything => Verdict::Met,
            Want::UsableRegion => yes_no(region_usable(*rights, *size)),
            _ => Verdict::Unmet,
        },
        Seen::Lost => yes_no(matches!(want, Want::Anything | Want::Loss)),
        Seen::Quiet => match want {
            Want::Anything => Verdict::Met,
            Want::Loss => Verdict::Alternative(""),
            _ => Verdict::Unmet,
        },
        Seen::Failed | Seen::Expired => yes_no(matches!(want, Want::Anything)),
    }
}

// ------------------------------------------------------------------- runs ---

/// What follows when a step did not do what was wanted.
#[derive(Clone, Copy, Debug, PartialEq, Eq)]
pub enum Otherwise {
    /// The run fails, with this complaint.
    Stop(&'static str),
    /// The run goes on, with this remark.
    Note(&'static str),
}

/// A step of a script.
#[derive(Clone, Copy, Debug, PartialEq, Eq)]
pub struct Stage {
    pub act: Act,
    pub want: Want,
    /// What to say when the want is met.
    pub met: &'static str,
    /// Where to go on after an alternative.
    pub other: usize,
    pub unmet: Otherwise,
    /// How often the steps from `back` on are taken in all.
    pub times: u64,
    pub back: usize,
}

/// What a report on a step leads to.
#[derive(Clone, Copy, Debug, PartialEq, Eq)]
pub enum Report {
    /// Say this, if anything, and go on.
    Say(&'static str),
    /// Complain about this and fail.
    Fail(&'static str),
}

/// Where a run stands: at which step, and in which round of a repetition.
pub struct Place {
    pub at: nat,
    pub round: u64,
}

/// Where a run stands after a step, and what is reported.
pub open spec fn advance(stages: Seq<Stage>, p: Place, seen: Seen) -> (Place, Report) {
    let s = stages[p.at as int];
    match verdict_of(s.want, seen) {
        Verdict::Met => if p.round + 1 < s.times {
            (Place { at: s.back as nat, round: (p.round + 1) as u64 }, Report::Say(""))
        } else {
            (Place { at: p.at + 1, round: if s.times > 0 { 0 } else { p.round } }, Report::Say(s.met))
        },
        Verdict::Alternative(mark) => (Place { at: s.other as nat, round: p.round }, Report::Say(mark)),
        Verdict::Unmet => match s.unmet {
            Otherwise::Stop(text) => (p, Report::Fail(text)),
            Otherwise::Note(text) => (
                Place { at: p.at + 1, round: p.round },
                Report::Say(text),
            ),
        },
    }
}

/// A run of a script.
pub struct Run {
    stages: Vec<Stage>,
    at: usize,
    round: u64,
}

impl Run {
    /// The script.
    pub closed spec fn stages(&self) -> Seq<Stage> {
        self.stages@
    }

    /// Where the run stands.
    pub closed spec fn place(&self) -> Place {
        Place { at: self.at as nat, round: self.round }
    }

    /// A run at the start of a script.
    pub fn new(stages: Vec<Stage>) -> (r: Self)
        ensures
            r.stages() == stages@,
            r.place() == (Place { at: 0, round: 0 }),
    {
        Run { stages, at: 0, round: 0 }
    }

    /// The step to be taken. There is none once the run has succeeded.
    pub fn stage(&self) -> (r: Option<Stage>)
        ensures
            r == (if self.place().at < self.stages().len() {
                Some(self.stages()[self.place().at as int])
            } else {
                None
            }),
    {
        if self.at < self.stages.len() {
            Some(self.stages[self.at])
        } else {
            None
        }
    }

    /// At which step the run is.
    pub fn at(&self) -> (r: usize)
        ensures
            r == self.place().at,
    {
        self.at
    }

    /// Takes in what came of the step.
    pub fn on_seen(&mut self, seen: &Seen) -> (r: Report)
        requires
            old(self).place().at < old(self).stages().len(),
        ensures
            final(self).stages() == old(self).stages(),
            (final(self).place(), r) == advance(old(self).stages(), old(self).place(), *seen),
    {
        assert(self.at < self.stages.len());
        let s = self.stages[self.at];
        match judge(s.want, seen) {
            Verdict::Met => {
                if s.times > 0 && self.round < s.times - 1 {
                    self.at = s.back;
                    self.round = self.round + 1;
                    Report::Say("")
                } else {
                    self.at = self.at + 1;
                    if s.times > 0 {
                        self.round = 0;
                    }
                    Report::Say(s.met)
                }
            },
            Verdict::Alternative(mark) => {
                self.at = s.other;
                Report::Say(mark)
            },
            Verdict::Unmet => match s.unmet {
                Otherwise::Stop(text) => Report::Fail(text),
                Otherwise::Note(text) => {
                    self.at = self.at + 1;
                    Report::Say(text)
                },
            },
        }
    }
}

// ---------------------------------------------------------------- scripts ---

/// How long a call may take by default.
pub const CALL_MS: u64 = 10000;

/// How long a control message may wait for its acknowledgement.
pub const ACK_MS: u64 = 5000;

/// A step without repetition or alternative.
#[verifier::allow_in_spec]
pub fn step(act: Act, want: Want, met: &'static str, unmet: Otherwise) -> Stage
    returns
        (Stage { act, want, met, other: 0, unmet, times: 0, back: 0 }),
{
    Stage { act, want, met, other: 0, unmet, times: 0, back: 0 }
}

/// A step that the script cannot do without.
#[verifier::allow_in_spec]
pub fn must(act: Act, want: Want, met: &'static str, complaint: &'static str) -> Stage
    returns
        (Stage {
            act,
            want,
            met,
            other: 0,
            unmet: Otherwise::Stop(complaint),
            times: 0,
            back: 0,
        }),
{
    Stage { act, want, met, other: 0, unmet: Otherwise::Stop(complaint), times: 0, back: 0 }
}

/// A call without an endpoint to be kept.
#[verifier::allow_in_spec]
pub fn call(on: Slot, ask: Ask, ms: u64) -> Act
    returns
        (Act::Call { on, ask, ms, keep: None }),
{
    Act::Call { on, ask, ms, keep: None }
}

/// A call for a counter that is kept.
#[verifier::allow_in_spec]
pub fn open_counter(keep: Slot, ms: u64) -> Act
    returns
        (Act::Call { on: Slot::Root, ask: Ask::OpenCounter, ms, keep: Some(keep) }),
{
    Act::Call { on: Slot::Root, ask: Ask::OpenCounter, ms, keep: Some(keep) }
}

/// A step whose outcome does not matter.
#[verifier::allow_in_spec]
pub fn regardless(act: Act, met: &'static str) -> Stage
    returns
        (Stage {
            act,
            want: Want::Anything,
            met,
            other: 0,
            unmet: Otherwise::Note(""),
            times: 0,
            back: 0,
        }),
{
    Stage {
        act,
        want: Want::Anything,
        met,
        other: 0,
        unmet: Otherwise::Note(""),
        times: 0,
        back: 0,
    }
}

/// A step with an alternative, after which the script goes on at `other`.
#[verifier::allow_in_spec]
pub fn branching(
    act: Act,
    want: Want,
    met: &'static str,
    other: usize,
    complaint: &'static str,
) -> Stage
    returns
        (Stage { act, want, met, other, unmet: Otherwise::Stop(complaint), times: 0, back: 0 }),
{
    Stage { act, want, met, other, unmet: Otherwise::Stop(complaint), times: 0, back: 0 }
}

/// The last step of a repetition: the steps from `back` on are taken `times`
/// times in all.
#[verifier::allow_in_spec]
pub fn repeated(act: Act, want: Want, complaint: &'static str, times: u64, back: usize) -> Stage
    returns
        (Stage { act, want, met: "", other: 0, unmet: Otherwise::Stop(complaint), times, back }),
{
    Stage { act, want, met: "", other: 0, unmet: Otherwise::Stop(complaint), times, back }
}

/// Without a strict demand, the service gets a moment to be dead.
#[verifier::allow_in_spec]
pub fn root_pause(strict: bool) -> Stage
    returns
        regardless(
            Act::Sleep(
                if strict {
                    0
                } else {
                    50
                },
            ),
            "",
        ),
{
    regardless(
        Act::Sleep(
            if strict {
                0
            } else {
                50
            },
        ),
        "",
    )
}

/// Which script a client runs.
#[derive(Clone, Copy, Debug, PartialEq, Eq, Structural)]
pub enum Script {
    FullDemo,
    RootClosed { strict: bool },
    OutstandingRequest,
    KillAfterFirstIncrement,
    GracefulDone,
    Watchdog,
    Churn { n: u64 },
    Perf,
    AbortCycle,
    TxnOnce,
    NativeHappy,
    NativeAbort,
    NativeStress { n: u64 },
    SharedProduce,
    CommittedThenKilled,
}

/// Happy path, then both capabilities must fail after the service died.
pub open spec fn full_demo_stages() -> Seq<Stage> {
    seq![
        must(Act::Claim(Slot::Root), Want::Claimed, "CLIENT_HAS_ROOT_CAPABILITY", "no root capability"),
        must(call(Slot::Root, Ask::Ping, CALL_MS), Want::Pong, "", "ping"),
        must(open_counter(Slot::Counter, CALL_MS), Want::CounterCap, "CLIENT_RECEIVED_NESTED_CAPABILITY", "open_counter"),
        must(call(Slot::Counter, Ask::Increment, CALL_MS), Want::First, "CLIENT_NESTED_INVOCATION_SUCCEEDED", "increment"),
        must(Act::Claim(Slot::Ctrl), Want::Claimed, "", "no control channel"),
        step(call(Slot::Ctrl, Ask::ReadyToKill, ACK_MS), Want::Ack, "", Otherwise::Note("CLIENT_CTRL_ACK_RACED")),
        must(call(Slot::Root, Ask::Ping, CALL_MS), Want::Closed, "CLIENT_ROOT_FAILURE_OBSERVED", "expected Closed on root"),
        must(call(Slot::Counter, Ask::Get, CALL_MS), Want::Closed, "CLIENT_NESTED_FAILURE_OBSERVED", "expected Closed on counter"),
        step(call(Slot::Ctrl, Ask::Done, CALL_MS), Want::AnyReply, "CLIENT_DONE_ACKED", Otherwise::Note("CLIENT_DONE_SIGNAL_UNACKED")),
        regardless(Act::Nothing, "CLIENT_OK"),
    ]
}

fn full_demo() -> (r: Vec<Stage>)
    ensures
        r@ == full_demo_stages(),
{
    vec![
        must(Act::Claim(Slot::Root), Want::Claimed, "CLIENT_HAS_ROOT_CAPABILITY", "no root capability"),
        must(call(Slot::Root, Ask::Ping, CALL_MS), Want::Pong, "", "ping"),
        must(open_counter(Slot::Counter, CALL_MS), Want::CounterCap, "CLIENT_RECEIVED_NESTED_CAPABILITY", "open_counter"),
        must(call(Slot::Counter, Ask::Increment, CALL_MS), Want::First, "CLIENT_NESTED_INVOCATION_SUCCEEDED", "increment"),
        must(Act::Claim(Slot::Ctrl), Want::Claimed, "", "no control channel"),
        step(call(Slot::Ctrl, Ask::ReadyToKill, ACK_MS), Want::Ack, "", Otherwise::Note("CLIENT_CTRL_ACK_RACED")),
        must(call(Slot::Root, Ask::Ping, CALL_MS), Want::Closed, "CLIENT_ROOT_FAILURE_OBSERVED", "expected Closed on root"),
        must(call(Slot::Counter, Ask::Get, CALL_MS), Want::Closed, "CLIENT_NESTED_FAILURE_OBSERVED", "expected Closed on counter"),
        step(call(Slot::Ctrl, Ask::Done, CALL_MS), Want::AnyReply, "CLIENT_DONE_ACKED", Otherwise::Note("CLIENT_DONE_SIGNAL_UNACKED")),
        regardless(Act::Nothing, "CLIENT_OK"),
    ]
}

/// The root must be seen to fail explicitly; unless the demand is strict, a
/// grant that never comes will do as well.
pub open spec fn root_closed_stages(strict: bool) -> Seq<Stage> {
    seq![
        branching(Act::Claim(Slot::Root), Want::GrantOrLoss { strict }, "", 3, "grant never arrived (strict)"),
        root_pause(strict),
        must(call(Slot::Root, Ask::Ping, CALL_MS), Want::Closed, "CLIENT_ROOT_CLOSED_OBSERVED", "root not explicitly closed"),
        regardless(Act::Nothing, "CLIENT_OK"),
    ]
}

fn root_closed(strict: bool) -> (r: Vec<Stage>)
    ensures
        r@ == root_closed_stages(strict),
{
    vec![
        branching(Act::Claim(Slot::Root), Want::GrantOrLoss { strict }, "", 3, "grant never arrived (strict)"),
        root_pause(strict),
        must(call(Slot::Root, Ask::Ping, CALL_MS), Want::Closed, "CLIENT_ROOT_CLOSED_OBSERVED", "root not explicitly closed"),
        regardless(Act::Nothing, "CLIENT_OK"),
    ]
}

/// A request in flight when the service dies must fail, not hang.
pub open spec fn outstanding_request_stages() -> Seq<Stage> {
    seq![
        must(Act::Claim(Slot::Root), Want::Claimed, "", "no root"),
        must(call(Slot::Root, Ask::Ping, 30000), Want::Closed, "CLIENT_OUTSTANDING_FAILED_MS", "outstanding request did not fail"),
        regardless(Act::Nothing, "CLIENT_OK"),
    ]
}

fn outstanding_request() -> (r: Vec<Stage>)
    ensures
        r@ == outstanding_request_stages(),
{
    vec![
        must(Act::Claim(Slot::Root), Want::Claimed, "", "no root"),
        must(call(Slot::Root, Ask::Ping, 30000), Want::Closed, "CLIENT_OUTSTANDING_FAILED_MS", "outstanding request did not fail"),
        regardless(Act::Nothing, "CLIENT_OK"),
    ]
}

/// A nested capability is used once, then both capabilities must fail.
pub open spec fn kill_after_first_increment_stages() -> Seq<Stage> {
    seq![
        must(Act::Claim(Slot::Root), Want::Claimed, "", "no root"),
        must(open_counter(Slot::Counter, CALL_MS), Want::Cap, "", "no counter attached"),
        must(call(Slot::Counter, Ask::Increment, CALL_MS), Want::First, "CLIENT_FIRST_INCREMENT_OK", "increment"),
        must(Act::Claim(Slot::Ctrl), Want::Claimed, "", "no control"),
        regardless(call(Slot::Ctrl, Ask::ReadyToKill, ACK_MS), ""),
        must(call(Slot::Root, Ask::Ping, CALL_MS), Want::Closed, "CLIENT_ROOT_FAILURE_OBSERVED", "root not explicitly failed"),
        must(call(Slot::Counter, Ask::Get, CALL_MS), Want::Closed, "CLIENT_NESTED_FAILURE_OBSERVED", "counter not explicitly failed"),
        regardless(Act::Nothing, "CLIENT_OK"),
    ]
}

fn kill_after_first_increment() -> (r: Vec<Stage>)
    ensures
        r@ == kill_after_first_increment_stages(),
{
    vec![
        must(Act::Claim(Slot::Root), Want::Claimed, "", "no root"),
        must(open_counter(Slot::Counter, CALL_MS), Want::Cap, "", "no counter attached"),
        must(call(Slot::Counter, Ask::Increment, CALL_MS), Want::First, "CLIENT_FIRST_INCREMENT_OK", "increment"),
        must(Act::Claim(Slot::Ctrl), Want::Claimed, "", "no control"),
        regardless(call(Slot::Ctrl, Ask::ReadyToKill, ACK_MS), ""),
        must(call(Slot::Root, Ask::Ping, CALL_MS), Want::Closed, "CLIENT_ROOT_FAILURE_OBSERVED", "root not explicitly failed"),
        must(call(Slot::Counter, Ask::Get, CALL_MS), Want::Closed, "CLIENT_NESTED_FAILURE_OBSERVED", "counter not explicitly failed"),
        regardless(Act::Nothing, "CLIENT_OK"),
    ]
}

/// Everything succeeds, then orderly completion is signalled.
pub open spec fn graceful_done_stages() -> Seq<Stage> {
    seq![
        must(Act::Claim(Slot::Root), Want::Claimed, "", "no root"),
        must(call(Slot::Root, Ask::Ping, CALL_MS), Want::AnyReply, "", "ping failed"),
        must(open_counter(Slot::Counter, CALL_MS), Want::Cap, "", "no counter"),
        must(call(Slot::Counter, Ask::Get, CALL_MS), Want::AnyReply, "", "counter get failed"),
        must(Act::Claim(Slot::Ctrl), Want::Claimed, "", "no control"),
        must(call(Slot::Ctrl, Ask::Done, ACK_MS), Want::Ack, "CLIENT_OK", "done signal"),
    ]
}

fn graceful_done() -> (r: Vec<Stage>)
    ensures
        r@ == graceful_done_stages(),
{
    vec![
        must(Act::Claim(Slot::Root), Want::Claimed, "", "no root"),
        must(call(Slot::Root, Ask::Ping, CALL_MS), Want::AnyReply, "", "ping failed"),
        must(open_counter(Slot::Counter, CALL_MS), Want::Cap, "", "no counter"),
        must(call(Slot::Counter, Ask::Get, CALL_MS), Want::AnyReply, "", "counter get failed"),
        must(Act::Claim(Slot::Ctrl), Want::Claimed, "", "no control"),
        must(call(Slot::Ctrl, Ask::Done, ACK_MS), Want::Ack, "CLIENT_OK", "done signal"),
    ]
}

/// The loss of the fabric must be seen.
pub open spec fn watchdog_stages() -> Seq<Stage> {
    seq![
        branching(Act::Claim(Slot::Root), Want::GrantOrGone, "", 2, "waiting root"),
        branching(Act::PollLoss(200), Want::Loss, "", 1, "never observed fabric loss"),
        regardless(Act::Nothing, "CLIENT_FABRIC_LOST_OBSERVED"),
        regardless(Act::Nothing, "CLIENT_OK"),
    ]
}

fn watchdog() -> (r: Vec<Stage>)
    ensures
        r@ == watchdog_stages(),
{
    vec![
        branching(Act::Claim(Slot::Root), Want::GrantOrGone, "", 2, "waiting root"),
        branching(Act::PollLoss(200), Want::Loss, "", 1, "never observed fabric loss"),
        regardless(Act::Nothing, "CLIENT_FABRIC_LOST_OBSERVED"),
        regardless(Act::Nothing, "CLIENT_OK"),
    ]
}

/// Counters are opened and closed `n` times.
pub open spec fn churn_stages(n: u64) -> Seq<Stage> {
    if n == 0 {
        seq![
            must(Act::Claim(Slot::Root), Want::Claimed, "", "no root"),
            regardless(Act::Nothing, "CHURN_DONE"),
            must(Act::Claim(Slot::Ctrl), Want::Claimed, "", "no control after churn"),
            must(call(Slot::Ctrl, Ask::Done, ACK_MS), Want::Ack, "CLIENT_OK", "churn done signal"),
        ]
    } else {
        seq![
            must(Act::Claim(Slot::Root), Want::Claimed, "", "no root"),
            must(open_counter(Slot::Counter, 20000), Want::Cap, "", "churn: no capability"),
            repeated(Act::Close(Slot::Counter), Want::Through, "churn close", n, 1),
            regardless(Act::Nothing, "CHURN_DONE"),
            must(Act::Claim(Slot::Ctrl), Want::Claimed, "", "no control after churn"),
            must(call(Slot::Ctrl, Ask::Done, ACK_MS), Want::Ack, "CLIENT_OK", "churn done signal"),
        ]
    }
}

fn churn(n: u64) -> (r: Vec<Stage>)
    ensures
        r@ == churn_stages(n),
{
    if n == 0 {
        vec![
            must(Act::Claim(Slot::Root), Want::Claimed, "", "no root"),
            regardless(Act::Nothing, "CHURN_DONE"),
            must(Act::Claim(Slot::Ctrl), Want::Claimed, "", "no control after churn"),
            must(call(Slot::Ctrl, Ask::Done, ACK_MS), Want::Ack, "CLIENT_OK", "churn done signal"),
        ]
    } else {
        vec![
            must(Act::Claim(Slot::Root), Want::Claimed, "", "no root"),
            must(open_counter(Slot::Counter, 20000), Want::Cap, "", "churn: no capability"),
            repeated(Act::Close(Slot::Counter), Want::Through, "churn close", n, 1),
            regardless(Act::Nothing, "CHURN_DONE"),
            must(Act::Claim(Slot::Ctrl), Want::Claimed, "", "no control after churn"),
            must(call(Slot::Ctrl, Ask::Done, ACK_MS), Want::Ack, "CLIENT_OK", "churn done signal"),
        ]
    }
}

/// Round trips and transfers, to be timed.
pub open spec fn perf_stages() -> Seq<Stage> {
    seq![
        must(Act::Claim(Slot::Root), Want::Claimed, "", "no root"),
        repeated(call(Slot::Root, Ask::Ping, 5000), Want::AnyReply, "warmup", 100, 1),
        repeated(call(Slot::Root, Ask::Ping, 5000), Want::AnyReply, "rtt probe", 2000, 2),
        must(open_counter(Slot::Counter, 5000), Want::Cap, "", "transfer probe"),
        repeated(Act::Close(Slot::Counter), Want::Anything, "", 2000, 3),
        must(Act::Claim(Slot::Ctrl), Want::Claimed, "", "no control"),
        must(call(Slot::Ctrl, Ask::Done, ACK_MS), Want::Ack, "CLIENT_OK", "done signal"),
    ]
}

fn perf() -> (r: Vec<Stage>)
    ensures
        r@ == perf_stages(),
{
    vec![
        must(Act::Claim(Slot::Root), Want::Claimed, "", "no root"),
        repeated(call(Slot::Root, Ask::Ping, 5000), Want::AnyReply, "warmup", 100, 1),
        repeated(call(Slot::Root, Ask::Ping, 5000), Want::AnyReply, "rtt probe", 2000, 2),
        must(open_counter(Slot::Counter, 5000), Want::Cap, "", "transfer probe"),
        repeated(Act::Close(Slot::Counter), Want::Anything, "", 2000, 3),
        must(Act::Claim(Slot::Ctrl), Want::Claimed, "", "no control"),
        must(call(Slot::Ctrl, Ask::Done, ACK_MS), Want::Ack, "CLIENT_OK", "done signal"),
    ]
}

/// A transfer beyond the capacity aborts; once there is room it goes through.
pub open spec fn abort_cycle_stages() -> Seq<Stage> {
    seq![
        must(Act::Claim(Slot::Root), Want::Claimed, "", "no root"),
        must(Act::Claim(Slot::Ctrl), Want::Claimed, "", "no ctrl"),
        must(open_counter(Slot::Held, CALL_MS), Want::Cap, "", "fill"),
        must(open_counter(Slot::Held, CALL_MS), Want::Cap, "", "fill"),
        branching(call(Slot::Root, Ask::OpenCounter, CALL_MS), Want::AbortOrEmpty, "CLIENT_ABORT_OBSERVED", 5, "expected abort"),
        regardless(Act::Release(Slot::Held), ""),
        must(open_counter(Slot::Counter, CALL_MS), Want::Cap, "", "retransmit"),
        must(call(Slot::Counter, Ask::Increment, CALL_MS), Want::First, "CLIENT_ABORT_RESTORED_USABLE", "increment after restore"),
        must(call(Slot::Ctrl, Ask::Done, ACK_MS), Want::Ack, "CLIENT_ABORT_CYCLE_OK", "done signal"),
    ]
}

fn abort_cycle() -> (r: Vec<Stage>)
    ensures
        r@ == abort_cycle_stages(),
{
    vec![
        must(Act::Claim(Slot::Root), Want::Claimed, "", "no root"),
        must(Act::Claim(Slot::Ctrl), Want::Claimed, "", "no ctrl"),
        must(open_counter(Slot::Held, CALL_MS), Want::Cap, "", "fill"),
        must(open_counter(Slot::Held, CALL_MS), Want::Cap, "", "fill"),
        branching(call(Slot::Root, Ask::OpenCounter, CALL_MS), Want::AbortOrEmpty, "CLIENT_ABORT_OBSERVED", 5, "expected abort"),
        regardless(Act::Release(Slot::Held), ""),
        must(open_counter(Slot::Counter, CALL_MS), Want::Cap, "", "retransmit"),
        must(call(Slot::Counter, Ask::Increment, CALL_MS), Want::First, "CLIENT_ABORT_RESTORED_USABLE", "increment after restore"),
        must(call(Slot::Ctrl, Ask::Done, ACK_MS), Want::Ack, "CLIENT_ABORT_CYCLE_OK", "done signal"),
    ]
}

/// One transfer, which may commit or abort.
pub open spec fn txn_once_stages() -> Seq<Stage> {
    seq![
        must(Act::Claim(Slot::Root), Want::Claimed, "", "txn_once no root"),
        must(Act::Claim(Slot::Ctrl), Want::Claimed, "", "txn_once no ctrl"),
        branching(open_counter(Slot::Counter, CALL_MS), Want::CounterCapOrAbort, "CLIENT_TXN_ONCE_COMMITTED", 6, "txn_once"),
        regardless(call(Slot::Counter, Ask::Get, CALL_MS), ""),
        regardless(call(Slot::Ctrl, Ask::Done, ACK_MS), "CLIENT_TXN_ONCE_OK"),
        branching(Act::Nothing, Want::Elsewhere, "", 7, ""),
        regardless(call(Slot::Ctrl, Ask::Done, ACK_MS), ""),
    ]
}

fn txn_once() -> (r: Vec<Stage>)
    ensures
        r@ == txn_once_stages(),
{
    vec![
        must(Act::Claim(Slot::Root), Want::Claimed, "", "txn_once no root"),
        must(Act::Claim(Slot::Ctrl), Want::Claimed, "", "txn_once no ctrl"),
        branching(open_counter(Slot::Counter, CALL_MS), Want::CounterCapOrAbort, "CLIENT_TXN_ONCE_COMMITTED", 6, "txn_once"),
        regardless(call(Slot::Counter, Ask::Get, CALL_MS), ""),
        regardless(call(Slot::Ctrl, Ask::Done, ACK_MS), "CLIENT_TXN_ONCE_OK"),
        branching(Act::Nothing, Want::Elsewhere, "", 7, ""),
        regardless(call(Slot::Ctrl, Ask::Done, ACK_MS), ""),
    ]
}

/// A native file arrives with its contents.
pub open spec fn native_happy_stages() -> Seq<Stage> {
    seq![
        must(Act::Claim(Slot::Root), Want::Claimed, "", "native_happy no root"),
        must(Act::Claim(Slot::Ctrl), Want::Claimed, "", "native_happy no ctrl"),
        branching(call(Slot::Root, Ask::OpenCounter, CALL_MS), Want::NonceIfAny, "CLIENT_NATIVE_HAPPY_OK", 3, "native_happy open"),
        regardless(call(Slot::Ctrl, Ask::Done, ACK_MS), ""),
    ]
}

fn native_happy() -> (r: Vec<Stage>)
    ensures
        r@ == native_happy_stages(),
{
    vec![
        must(Act::Claim(Slot::Root), Want::Claimed, "", "native_happy no root"),
        must(Act::Claim(Slot::Ctrl), Want::Claimed, "", "native_happy no ctrl"),
        branching(call(Slot::Root, Ask::OpenCounter, CALL_MS), Want::NonceIfAny, "CLIENT_NATIVE_HAPPY_OK", 3, "native_happy open"),
        regardless(call(Slot::Ctrl, Ask::Done, ACK_MS), ""),
    ]
}

/// A refused native file goes back, and arrives the second time.
pub open spec fn native_abort_stages() -> Seq<Stage> {
    seq![
        must(Act::Claim(Slot::Root), Want::Claimed, "", "native_abort no root"),
        must(Act::Claim(Slot::Ctrl), Want::Claimed, "", "native_abort no ctrl"),
        regardless(call(Slot::Root, Ask::OpenCounter, 3000), ""),
        regardless(Act::StopRejecting(300), "CLIENT_NATIVE_ABORT_TRIGGERED"),
        must(call(Slot::Root, Ask::OpenCounter, 10000), Want::RestoredFile, "CLIENT_NATIVE_RESTORED_RECOMMITTED_OK", "native_abort content"),
        regardless(Act::Nothing, "CLIENT_NATIVE_ABORT_OK"),
        regardless(call(Slot::Ctrl, Ask::Done, ACK_MS), ""),
    ]
}

fn native_abort() -> (r: Vec<Stage>)
    ensures
        r@ == native_abort_stages(),
{
    vec![
        must(Act::Claim(Slot::Root), Want::Claimed, "", "native_abort no root"),
        must(Act::Claim(Slot::Ctrl), Want::Claimed, "", "native_abort no ctrl"),
        regardless(call(Slot::Root, Ask::OpenCounter, 3000), ""),
        regardless(Act::StopRejecting(300), "CLIENT_NATIVE_ABORT_TRIGGERED"),
        must(call(Slot::Root, Ask::OpenCounter, 10000), Want::RestoredFile, "CLIENT_NATIVE_RESTORED_RECOMMITTED_OK", "native_abort content"),
        regardless(Act::Nothing, "CLIENT_NATIVE_ABORT_OK"),
        regardless(call(Slot::Ctrl, Ask::Done, ACK_MS), ""),
    ]
}

/// Native files are received `n` times.
pub open spec fn native_stress_stages(n: u64) -> Seq<Stage> {
    if n == 0 {
        seq![
            must(Act::Claim(Slot::Root), Want::Claimed, "", "stress no root"),
            must(Act::Claim(Slot::Ctrl), Want::Claimed, "", "stress no ctrl"),
            regardless(Act::Nothing, "NATIVE_STRESS_DONE"),
            regardless(call(Slot::Ctrl, Ask::Done, ACK_MS), ""),
        ]
    } else {
        seq![
            must(Act::Claim(Slot::Root), Want::Claimed, "", "stress no root"),
            must(Act::Claim(Slot::Ctrl), Want::Claimed, "", "stress no ctrl"),
            repeated(call(Slot::Root, Ask::OpenCounter, 20000), Want::Nonce, "stress", n, 2),
            regardless(Act::Nothing, "NATIVE_STRESS_DONE"),
            regardless(call(Slot::Ctrl, Ask::Done, ACK_MS), ""),
        ]
    }
}

fn native_stress(n: u64) -> (r: Vec<Stage>)
    ensures
        r@ == native_stress_stages(n),
{
    if n == 0 {
        vec![
            must(Act::Claim(Slot::Root), Want::Claimed, "", "stress no root"),
            must(Act::Claim(Slot::Ctrl), Want::Claimed, "", "stress no ctrl"),
            regardless(Act::Nothing, "NATIVE_STRESS_DONE"),
            regardless(call(Slot::Ctrl, Ask::Done, ACK_MS), ""),
        ]
    } else {
        vec![
            must(Act::Claim(Slot::Root), Want::Claimed, "", "stress no root"),
            must(Act::Claim(Slot::Ctrl), Want::Claimed, "", "stress no ctrl"),
            repeated(call(Slot::Root, Ask::OpenCounter, 20000), Want::Nonce, "stress", n, 2),
            regardless(Act::Nothing, "NATIVE_STRESS_DONE"),
            regardless(call(Slot::Ctrl, Ask::Done, ACK_MS), ""),
        ]
    }
}

/// A writable region arrives, is filled, and only its hash is reported.
pub open spec fn shared_produce_stages() -> Seq<Stage> {
    seq![
        must(Act::AwaitRegion(30000), Want::UsableRegion, "CLIENT_SHARED_MATERIALIZED rw=true", "no usable region"),
        must(Act::FillRegion(0x1234_5678_9abc_def0), Want::Through, "", "map"),
        must(Act::ReportHash(500), Want::Through, "SHARED_PRODUCER_WRITTEN", "offer endpoint not held"),
        regardless(Act::HoldOn(600000), "CLIENT_SHARED_DONE"),
    ]
}

fn shared_produce() -> (r: Vec<Stage>)
    ensures
        r@ == shared_produce_stages(),
{
    vec![
        must(Act::AwaitRegion(30000), Want::UsableRegion, "CLIENT_SHARED_MATERIALIZED rw=true", "no usable region"),
        must(Act::FillRegion(0x1234_5678_9abc_def0), Want::Through, "", "map"),
        must(Act::ReportHash(500), Want::Through, "SHARED_PRODUCER_WRITTEN", "offer endpoint not held"),
        regardless(Act::HoldOn(600000), "CLIENT_SHARED_DONE"),
    ]
}

/// A committed capability is used once more before the client is killed.
pub open spec fn committed_then_killed_stages() -> Seq<Stage> {
    seq![
        must(Act::Claim(Slot::Root), Want::Claimed, "", "p3 no root"),
        must(Act::Claim(Slot::Ctrl), Want::Claimed, "", "p3 no ctrl"),
        must(open_counter(Slot::Counter, CALL_MS), Want::Cap, "CLIENT_P3_COMMITTED", "p3 no cap"),
        regardless(Act::Sleep(200), ""),
        regardless(call(Slot::Counter, Ask::Increment, CALL_MS), "CLIENT_P3_USED"),
        regardless(call(Slot::Ctrl, Ask::Done, ACK_MS), ""),
    ]
}

fn committed_then_killed() -> (r: Vec<Stage>)
    ensures
        r@ == committed_then_killed_stages(),
{
    vec![
        must(Act::Claim(Slot::Root), Want::Claimed, "", "p3 no root"),
        must(Act::Claim(Slot::Ctrl), Want::Claimed, "", "p3 no ctrl"),
        must(open_counter(Slot::Counter, CALL_MS), Want::Cap, "CLIENT_P3_COMMITTED", "p3 no cap"),
        regardless(Act::Sleep(200), ""),
        regardless(call(Slot::Counter, Ask::Increment, CALL_MS), "CLIENT_P3_USED"),
        regardless(call(Slot::Ctrl, Ask::Done, ACK_MS), ""),
    ]
}

/// The steps of a script.
pub open spec fn stages_of(script: Script) -> Seq<Stage> {
    match script {
        Script::FullDemo => full_demo_stages(),
        Script::RootClosed { strict } => root_closed_stages(strict),
        Script::OutstandingRequest => outstanding_request_stages(),
        Script::KillAfterFirstIncrement => kill_after_first_increment_stages(),
        Script::GracefulDone => graceful_done_stages(),
        Script::Watchdog => watchdog_stages(),
        Script::Churn { n } => churn_stages(n),
        Script::Perf => perf_stages(),
        Script::AbortCycle => abort_cycle_stages(),
        Script::TxnOnce => txn_once_stages(),
        Script::NativeHappy => native_happy_stages(),
        Script::NativeAbort => native_abort_stages(),
        Script::NativeStress { n } => native_stress_stages(n),
        Script::SharedProduce => shared_produce_stages(),
        Script::CommittedThenKilled => committed_then_killed_stages(),
    }
}

/// The steps of a script.
pub fn stages(script: Script) -> (r: Vec<Stage>)
    ensures
        r@ == stages_of(script),
{
    match script {
        Script::FullDemo => full_demo(),
        Script::RootClosed { strict } => root_closed(strict),
        Script::OutstandingRequest => outstanding_request(),
        Script::KillAfterFirstIncrement => kill_after_first_increment(),
        Script::GracefulDone => graceful_done(),
        Script::Watchdog => watchdog(),
        Script::Churn { n } => churn(n),
        Script::Perf => perf(),
        Script::AbortCycle => abort_cycle(),
        Script::TxnOnce => txn_once(),
        Script::NativeHappy => native_happy(),
        Script::NativeAbort => native_abort(),
        Script::NativeStress { n } => native_stress(n),
        Script::SharedProduce => shared_produce(),
        Script::CommittedThenKilled => committed_then_killed(),
    }
}

// ------------------------------------------------------------------- laws ---

/// Where a run stands after a series of outcomes. `None` once it has failed
/// or when outcomes are left over.
pub open spec fn run_to(stages: Seq<Stage>, seens: Seq<Seen>) -> Option<Place>
    decreases seens.len(),
{
    if seens.len() == 0 {
        Some(Place { at: 0, round: 0 })
    } else {
        match run_to(stages, seens.drop_last()) {
            Some(p) => if p.at < stages.len() {
                match advance(stages, p, seens.last()) {
                    (q, Report::Say(_)) => Some(q),
                    (_, Report::Fail(_)) => None,
                }
            } else {
                None
            },
            None => None,
        }
    }
}

/// Does the script take its steps one after the other, without repetition
/// and without alternatives?
pub open spec fn straight(stages: Seq<Stage>) -> bool {
    forall|i: int, seen: Seen|
        0 <= i < stages.len() ==> (#[trigger] stages[i]).times == 0 && !(#[trigger] verdict_of(
            stages[i].want,
            seen,
        ) is Alternative)
}

/// A straight script comes as far as it has outcomes, and at no step that it
/// cannot do without was the outcome another than the one wanted.
pub proof fn law_no_want_is_skipped(stages: Seq<Stage>, seens: Seq<Seen>, i: int)
    requires
        straight(stages),
        run_to(stages, seens) is Some,
        0 <= i < seens.len(),
    ensures
        seens.len() <= stages.len(),
        run_to(stages, seens) == Some(Place { at: seens.len(), round: 0 }),
        stages[i].unmet is Stop ==> verdict_of(stages[i].want, seens[i]) == Verdict::Met,
    decreases seens.len(),
{
    let rest = seens.drop_last();
    let n = rest.len() as int;
    if n > 0 {
        law_no_want_is_skipped(stages, rest, if i < n { i } else { 0 });
    }
    let p = run_to(stages, rest)->Some_0;
    assert(p.at == n && p.round == 0);
    let v = verdict_of(stages[n].want, seens.last());
    assert(stages[n].times == 0 && !(v is Alternative));
    assert(seens[n] == seens.last());
}

/// The full demonstration succeeds only if both the root capability and the
/// one it led to failed as closed after the service died, and only if the
/// nested capability had worked before.
pub proof fn law_demo_observes_both_failures(seens: Seq<Seen>)
    requires
        run_to(full_demo_stages(), seens) is Some,
        seens.len() == full_demo_stages().len(),
    ensures
        brings_counter(seens[2]),
        seens[6] == Seen::Refused(Refusal::Closed),
        seens[7] == Seen::Refused(Refusal::Closed),
{
    let stages = full_demo_stages();
    assert(straight(stages));
    law_no_want_is_skipped(stages, seens, 2);
    law_no_want_is_skipped(stages, seens, 6);
    law_no_want_is_skipped(stages, seens, 7);
}

/// A failed run stays where it failed, and every complaint is one of the
/// script's own.
pub proof fn law_failure_names_its_step(stages: Seq<Stage>, p: Place, seen: Seen)
    requires
        p.at < stages.len(),
        advance(stages, p, seen).1 is Fail,
    ensures
        advance(stages, p, seen).0 == p,
        stages[p.at as int].unmet == Otherwise::Stop(advance(stages, p, seen).1->Fail_0),
        verdict_of(stages[p.at as int].want, seen) == Verdict::Unmet,
{
}

/// A repetition is counted: each round but the last leads to the next, and
/// after exactly as many rounds as it was given it is left.
pub proof fn law_repetition_is_counted(stages: Seq<Stage>, p: Place, seen: Seen)
    requires
        p.at < stages.len(),
        p.round < stages[p.at as int].times,
        verdict_of(stages[p.at as int].want, seen) == Verdict::Met,
    ensures
        ({
            let s = stages[p.at as int];
            let q = advance(stages, p, seen).0;
            if p.round + 1 == s.times {
                q == (Place { at: p.at + 1, round: 0 })
            } else {
                q == (Place { at: s.back as nat, round: (p.round + 1) as u64 }) && q.round < s.times
            }
        }),
{
}

} // verus!

//! What the example service answers and what its clients take for an answer,
//! byte by byte.

use vstd::prelude::*;

use crate::bytes::{le_bytes, lemma_le_bytes_len, lemma_le_value_of_bytes, lemma_pow256_widths};
use crate::fabric_error::FabError;
use crate::id::EpId;
use crate::proto::{
    control_ack_of, control_of, counter_request_of, counter_response_of, root_request_of,
    root_response_of, ControlAck, ControlMsg, CounterRequest, CounterResponse, RootRequest,
    RootResponse,
};
use crate::script::{
    advance, refusal_for, verdict_of, Ask, Otherwise, Place, Refusal, Report, Seen, Stage, Verdict,
    Want,
};
use crate::service::{opening, served, Mode, Request, ServeView, Stock};
use crate::shared::Rights;
use crate::wire_laws::{eight, law_low_byte_first};

verus! {

// ------------------------------------------------------------------- the protocol --

/// Is this the only byte?
pub open spec fn lone(b: Seq<u8>, t: int) -> bool {
    b.len() == 1 && b[0] == t
}

/// Each plain message is one byte of its own, and nothing else is read as it.
pub proof fn law_one_byte_for_each(b: Seq<u8>)
    ensures
        root_request_of(b) == Ok::<RootRequest, FabError>(RootRequest::Ping) <==> lone(b, 1),
        root_request_of(b) == Ok::<RootRequest, FabError>(RootRequest::OpenCounter) <==> lone(b, 2),
        root_response_of(b) == Ok::<RootResponse, FabError>(RootResponse::Pong) <==> lone(b, 3),
        root_response_of(b) == Ok::<RootResponse, FabError>(RootResponse::Counter) <==> lone(b, 4),
        counter_request_of(b) == Ok::<CounterRequest, FabError>(CounterRequest::Increment) <==> lone(b, 5),
        counter_request_of(b) == Ok::<CounterRequest, FabError>(CounterRequest::Get) <==> lone(b, 6),
        control_of(b) == Ok::<ControlMsg, FabError>(ControlMsg::ReadyToKill) <==> lone(b, 10),
        control_of(b) == Ok::<ControlMsg, FabError>(ControlMsg::Done) <==> lone(b, 11),
        control_ack_of(b) == Ok::<ControlAck, FabError>(ControlAck::Ack) <==> lone(b, 12),
        lone(Ask::Ping.bytes(), 1),
        lone(Ask::OpenCounter.bytes(), 2),
        lone(Ask::Increment.bytes(), 5),
        lone(Ask::Get.bytes(), 6),
        lone(Ask::ReadyToKill.bytes(), 10),
        lone(Ask::Done.bytes(), 11),
        RootRequest::Ping.tag() == 1,
        RootRequest::OpenCounter.tag() == 2,
        RootResponse::Pong.tag() == 3,
        RootResponse::Counter.tag() == 4,
        CounterRequest::Increment.tag() == 5,
        CounterRequest::Get.tag() == 6,
        ControlMsg::ReadyToKill.tag() == 10,
        ControlMsg::Done.tag() == 11,
{
}

/// What cannot be read is refused for what is wrong with it.
pub proof fn law_what_cannot_be_read(b: Seq<u8>)
    ensures
        b.len() == 0 ==> {
            &&& root_request_of(b) == Err::<RootRequest, FabError>(FabError::InvalidMessage("empty payload"))
            &&& root_response_of(b) == Err::<RootResponse, FabError>(FabError::InvalidMessage("empty payload"))
            &&& counter_request_of(b) == Err::<CounterRequest, FabError>(FabError::InvalidMessage("empty payload"))
            &&& control_of(b) == Err::<ControlMsg, FabError>(FabError::InvalidMessage("empty payload"))
            &&& control_ack_of(b) == Err::<ControlAck, FabError>(FabError::InvalidMessage("empty payload"))
        },
        b.len() > 1 ==> {
            &&& root_request_of(b) == Err::<RootRequest, FabError>(
                FabError::InvalidMessage("trailing bytes in root request"),
            )
            &&& root_response_of(b) == Err::<RootResponse, FabError>(
                FabError::InvalidMessage("trailing bytes in root response"),
            )
            &&& counter_request_of(b) == Err::<CounterRequest, FabError>(
                FabError::InvalidMessage("trailing bytes in counter request"),
            )
            &&& control_of(b) == Err::<ControlMsg, FabError>(
                FabError::InvalidMessage("trailing bytes in control msg"),
            )
            &&& control_ack_of(b) == Err::<ControlAck, FabError>(
                FabError::InvalidMessage("trailing bytes in control ack"),
            )
        },
        b.len() == 1 ==> {
            &&& b[0] != 1 && b[0] != 2 ==> root_request_of(b) == Err::<RootRequest, FabError>(
                FabError::InvalidMessage("unknown root request tag"),
            )
            &&& b[0] != 3 && b[0] != 4 ==> root_response_of(b) == Err::<RootResponse, FabError>(
                FabError::InvalidMessage("unknown root response tag"),
            )
            &&& b[0] != 5 && b[0] != 6 ==> counter_request_of(b) == Err::<CounterRequest, FabError>(
                FabError::InvalidMessage("unknown counter request tag"),
            )
            &&& b[0] != 10 && b[0] != 11 ==> control_of(b) == Err::<ControlMsg, FabError>(
                FabError::InvalidMessage("unknown control tag"),
            )
            &&& b[0] != 12 ==> control_ack_of(b) == Err::<ControlAck, FabError>(
                FabError::InvalidMessage("unknown control ack tag"),
            )
        },
{
}

/// Does the answer of a counter say this, under this byte?
pub open spec fn tells(b: Seq<u8>, t: int, n: u64) -> bool {
    b.len() == 9 && b[0] == t && eight(b, 1) == n
}

/// The answer of a counter: 7 for a value that was just counted up to, 8 for
/// one that was asked for, and the value in eight bytes, the low one first.
pub proof fn law_what_a_counter_tells(b: Seq<u8>, n: u64)
    ensures
        tells(CounterResponse::Incremented(n).bytes(), 7, n),
        tells(CounterResponse::Value(n).bytes(), 8, n),
        counter_response_of(b) == Ok::<CounterResponse, FabError>(CounterResponse::Incremented(n))
            <==> tells(b, 7, n),
        counter_response_of(b) == Ok::<CounterResponse, FabError>(CounterResponse::Value(n)) <==> tells(
            b,
            8,
            n,
        ),
        b.len() == 0 ==> counter_response_of(b) == Err::<CounterResponse, FabError>(
            FabError::InvalidMessage("empty payload"),
        ),
        0 < b.len() < 9 ==> counter_response_of(b) == Err::<CounterResponse, FabError>(
            FabError::InvalidMessage("short u64"),
        ),
        b.len() > 9 ==> counter_response_of(b) == Err::<CounterResponse, FabError>(
            FabError::InvalidMessage("trailing bytes in counter response"),
        ),
        b.len() == 9 && b[0] != 7 && b[0] != 8 ==> counter_response_of(b) == Err::<
            CounterResponse,
            FabError,
        >(FabError::InvalidMessage("unknown counter response tag")),
{
    lemma_pow256_widths();
    lemma_le_bytes_len(n as nat, 8);
    lemma_le_value_of_bytes(n as nat, 8);
    let w = le_bytes(n as nat, 8);
    law_low_byte_first(w);
    let x = CounterResponse::Incremented(n).bytes();
    let y = CounterResponse::Value(n).bytes();
    assert(forall|k: int| 0 <= k < 8 ==> x[1 + k] == #[trigger] w[k]);
    assert(x[1] == w[0] && x[2] == w[1] && x[3] == w[2] && x[4] == w[3] && x[5] == w[4] && x[6] == w[5]
        && x[7] == w[6] && x[8] == w[7]);
    assert(y[1] == w[0] && y[2] == w[1] && y[3] == w[2] && y[4] == w[3] && y[5] == w[4] && y[6] == w[5]
        && y[7] == w[6] && y[8] == w[7]);
    if b.len() == 9 {
        law_low_byte_first(b.subrange(1, 9));
    }
}

// -------------------------------------------------------------------- the service --

/// What a request comes to. A service that holds does nothing. A region that
/// came along is verified against the eight bytes that came with it, or kept.
/// On the root endpoint a ping is answered and a counter is opened. On a
/// counter's endpoint an increment counts by one and tells the new value, and
/// a read tells the value that there is. No other counter ever changes, and a
/// request that is none of these changes nothing.
pub proof fn law_requests_are_served(
    root: EpId,
    mode: Mode,
    counters: Map<EpId, u64>,
    req: Request,
    stock: Stock,
    waited: bool,
)
    requires
        counters.contains_key(req.local) ==> counters[req.local] < u64::MAX,
    ensures
        ({
            let (after, what) = served(root, mode, counters, req, stock, waited);
            let b = req.payload;
            let at = req.local;
            let c = counters[at];
            let counts = mode != Mode::Hold && !req.region && at != root && counters.contains_key(at);
            &&& after == (if counts && lone(b, 5) {
                counters.insert(at, (c + 1) as u64)
            } else {
                counters
            })
            &&& mode == Mode::Hold ==> what is Ignore
            &&& mode != Mode::Hold && req.region ==> if b.len() == 8 {
                what matches ServeView::Verify { expected } && expected == eight(b, 0)
            } else {
                what is KeepRegion
            }
            &&& mode != Mode::Hold && !req.region && at == root ==> if lone(b, 1) {
                what matches ServeView::Pong(r) && lone(r, 3)
            } else if lone(b, 2) {
                what == opening(mode, stock, waited)
            } else {
                what matches ServeView::BadRootRequest(e) && root_request_of(b) == Err::<
                    RootRequest,
                    FabError,
                >(e)
            }
            &&& counts ==> if lone(b, 5) {
                what matches ServeView::Answer(r) && tells(r, 7, (c + 1) as u64)
            } else if lone(b, 6) {
                what matches ServeView::Answer(r) && tells(r, 8, c)
            } else {
                what matches ServeView::BadCounterRequest(e) && counter_request_of(b) == Err::<
                    CounterRequest,
                    FabError,
                >(e)
            }
            &&& mode != Mode::Hold && !req.region && at != root && !counters.contains_key(at) ==> what
                is UnknownEndpoint
        }),
{
    law_one_byte_for_each(req.payload);
    law_what_a_counter_tells(req.payload, counters[req.local]);
    law_what_a_counter_tells(req.payload, (counters[req.local] + 1) as u64);
    if req.payload.len() == 8 {
        law_low_byte_first(req.payload);
    }
}

/// What is given with an opened counter: a region if one is held, and a
/// service that is to wait for one waits once; else a native object that came
/// back, or a new one from a service that gives native objects; else an
/// endpoint that came back; and only then a new one. The answer is one byte.
pub proof fn law_what_an_opening_gives(mode: Mode, stock: Stock, waited: bool)
    ensures
        ({
            let what = opening(mode, stock, waited);
            let waits = stock.regions == 0 && mode == Mode::AwaitRegion && !waited;
            let bare = stock.regions == 0 && !waits;
            &&& waits <==> what is AwaitRegion
            &&& stock.regions > 0 ==> (what matches ServeView::GiveRegion(r) && lone(r, 4))
            &&& bare && stock.natives > 0 ==> (what matches ServeView::GiveNative { reply, fresh } && lone(
                reply,
                4,
            ) && !fresh)
            &&& bare && stock.natives == 0 && mode == Mode::Native ==> (what matches ServeView::GiveNative {
                reply,
                fresh,
            } && lone(reply, 4) && fresh)
            &&& bare && stock.natives == 0 && mode != Mode::Native && stock.endpoints > 0 ==> (
            what matches ServeView::GiveRestored(r) && lone(r, 4))
            &&& bare && stock.natives == 0 && mode != Mode::Native && stock.endpoints == 0 ==> (
            what matches ServeView::GiveNew(r) && lone(r, 4))
        }),
{
}

// -------------------------------------------------------------------- the clients --

/// The errors that a script tells apart.
pub proof fn law_refusals_are_told_apart(e: FabError)
    ensures
        refusal_for(e) == Refusal::Closed <==> e is Closed,
        refusal_for(e) == Refusal::Timeout <==> e is Timeout,
        refusal_for(e) == Refusal::Lost <==> e is FabricLost,
        refusal_for(e) == Refusal::Aborted <==> e is TransferAborted,
{
}

/// Which replies meet a want that is for a reply.
pub proof fn law_which_replies_are_wanted(payload: Vec<u8>, caps: usize, native: Option<Vec<u8>>)
    ensures
        ({
            let seen = Seen::Reply { payload, caps, native };
            let b = payload@;
            &&& verdict_of(Want::AnyReply, seen) == Verdict::Met
            &&& verdict_of(Want::Pong, seen) == Verdict::Met <==> lone(b, 3)
            &&& verdict_of(Want::CounterCap, seen) == Verdict::Met <==> caps > 0 && lone(b, 4)
            &&& verdict_of(Want::CounterCapOrAbort, seen) == Verdict::Met <==> caps > 0 && lone(b, 4)
            &&& verdict_of(Want::Cap, seen) == Verdict::Met <==> caps > 0
            &&& verdict_of(Want::First, seen) == Verdict::Met <==> tells(b, 7, 1)
            &&& verdict_of(Want::Ack, seen) == Verdict::Met <==> lone(b, 12)
            &&& verdict_of(Want::AbortOrEmpty, seen) != Verdict::Met
            &&& verdict_of(Want::AbortOrEmpty, seen) is Alternative <==> caps == 0
            &&& verdict_of(Want::Closed, seen) == Verdict::Unmet
            &&& verdict_of(Want::Through, seen) == Verdict::Unmet
            &&& verdict_of(Want::Claimed, seen) == Verdict::Unmet
            &&& verdict_of(Want::Loss, seen) == Verdict::Unmet
            &&& verdict_of(Want::UsableRegion, seen) == Verdict::Unmet
            &&& native is None ==> verdict_of(Want::Nonce, seen) == Verdict::Unmet && verdict_of(
                Want::RestoredFile,
                seen,
            ) == Verdict::Unmet
        }),
{
    law_one_byte_for_each(payload@);
    law_what_a_counter_tells(payload@, 1);
}

/// A refusal meets only a want for that refusal; where another outcome will
/// do, it is one of those named.
pub proof fn law_which_refusals_are_wanted(want: Want, why: Refusal)
    ensures
        ({
            let v = verdict_of(want, Seen::Refused(why));
            &&& v == Verdict::Met <==> {
                ||| want is Anything
                ||| want is Closed && why == Refusal::Closed
                ||| want is AbortOrEmpty && why == Refusal::Aborted
            }
            &&& v is Alternative <==> {
                ||| want is Elsewhere
                ||| want is CounterCapOrAbort && why == Refusal::Aborted
                ||| want is GrantOrGone && (why == Refusal::Lost || why == Refusal::Closed)
                ||| want == (Want::GrantOrLoss { strict: false })
                ||| want == (Want::GrantOrLoss { strict: true }) && why != Refusal::Timeout
            }
        }),
{
}

/// What meets the wants that are for neither a reply nor a refusal.
pub proof fn law_what_else_is_wanted(seen: Seen)
    requires
        !(seen is Reply),
        !(seen is Refused),
    ensures
        verdict_of(Want::Anything, seen) == Verdict::Met,
        verdict_of(Want::Through, seen) == Verdict::Met <==> seen is Through,
        verdict_of(Want::Claimed, seen) == Verdict::Met <==> seen is Claimed,
        verdict_of(Want::GrantOrLoss { strict: true }, seen) == Verdict::Met <==> seen is Claimed,
        verdict_of(Want::GrantOrLoss { strict: true }, seen) is Alternative <==> seen is Stale,
        verdict_of(Want::GrantOrGone, seen) == Verdict::Met <==> seen is Claimed,
        verdict_of(Want::GrantOrGone, seen) is Alternative <==> seen is Stale,
        verdict_of(Want::Loss, seen) == Verdict::Met <==> seen is Lost,
        verdict_of(Want::Loss, seen) is Alternative <==> seen is Quiet,
        verdict_of(Want::UsableRegion, seen) == Verdict::Met <==> seen == (Seen::Region {
            rights: Rights::ReadWrite,
            size: 4194304,
        }),
        verdict_of(Want::Pong, seen) == Verdict::Unmet,
        verdict_of(Want::CounterCap, seen) == Verdict::Unmet,
        verdict_of(Want::Closed, seen) == Verdict::Unmet,
        verdict_of(Want::Elsewhere, seen) is Alternative,
{
}

/// Where a run goes: on to the next step if the want was met and no round is
/// left to do, back if one is; elsewhere after an alternative; and after an
/// unmet want on, with a remark, or nowhere.
pub proof fn law_where_a_run_goes(stages: Seq<Stage>, p: Place, seen: Seen)
    requires
        p.at < stages.len(),
        p.round < u64::MAX,
    ensures
        ({
            let s = stages[p.at as int];
            let (q, r) = advance(stages, p, seen);
            match verdict_of(s.want, seen) {
                Verdict::Met => if p.round + 1 < s.times {
                    q.at == s.back && q.round == p.round + 1 && r == Report::Say("")
                } else {
                    q.at == p.at + 1 && (s.times > 0 ==> q.round == 0) && (s.times == 0 ==> q.round
                        == p.round) && r == Report::Say(s.met)
                },
                Verdict::Alternative(mark) => q.at == s.other && q.round == p.round && r
                    == Report::Say(mark),
                Verdict::Unmet => match s.unmet {
                    Otherwise::Stop(text) => q == p && r == Report::Fail(text),
                    Otherwise::Note(text) => q.at == p.at + 1 && q.round == p.round && r
                        == Report::Say(text),
                },
            }
        }),
{
}

} // verus!

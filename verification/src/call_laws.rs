//! What a runtime does with each thing that is asked of it or arrives, told by
//! what is held, waited for, sent and delivered before and after.

use vstd::prelude::*;

use crate::fabric_error::{Cause, FabError};
use crate::frame::{
    Attachment, DataView, FrameView, XferMsg, XFER_ST_ABORTED, XFER_ST_COMMITTED, XFER_ST_PENDING,
};
use crate::id::{EpId, TransferId};
use crate::limits::Limits;
use crate::peer_laws::orderly;
use crate::peer_model::{
    adopt_pair, call, create, deliver, discard_all, emit, emit_error, fail_calls, finish,
    finish_all, first_failed, first_new, hand_over, initial, lemma_hand_over, on_closed, process,
    release, release_all, reply, reply_offers, retry, settle, shut, started, strike, struck, turn,
    Ask, CallView, CreateOutcome, Handle, InboundView, OutcomeView, ParkedView, PeerView, ReplyView,
    StalledView, TurnView, XferLocal,
};
use crate::queue::{total_cost, QueueView};

verus! {

// ------------------------------------------------------------------ the words --

/// What a frame costs in the queue, as far as a `usize` counts.
pub open spec fn weight(f: FrameView) -> nat {
    if f.cost() <= usize::MAX {
        f.cost()
    } else {
        usize::MAX as nat
    }
}

/// Is there room to send the frame?
pub open spec fn can_send(s: PeerView, f: FrameView) -> bool {
    &&& !s.out.closed
    &&& s.out.items.len() < s.out.max_msgs
    &&& total_cost(s.out.items) + weight(f) <= s.out.max_bytes
}

/// The outbound queue and its count after the frame was sent, if it could be.
pub open spec fn sent_on(s: PeerView, f: FrameView) -> PeerView {
    if can_send(s, f) {
        PeerView {
            out: QueueView { items: s.out.items.push((f, weight(f) as usize)), ..s.out },
            sent: if s.sent < u64::MAX {
                (s.sent + 1) as u64
            } else {
                s.sent
            },
            ..s
        }
    } else {
        s
    }
}

/// The refusal that says how much is queued.
pub open spec fn pushed_back(s: PeerView) -> FabError {
    FabError::Backpressured {
        queued_msgs: s.out.items.len() as usize,
        queued_bytes: total_cost(s.out.items) as usize,
    }
}

/// The messages for the application, in order: those it can take, and behind
/// them those that wait for room.
pub open spec fn delivered(s: PeerView) -> Seq<InboundView> {
    s.inbound.items.map_values(|e: (InboundView, usize)| e.0) + s.stalled.map_values(
        |e: StalledView| e.item,
    )
}

/// The message as it reaches the endpoint `local`, without endpoints.
pub open spec fn as_received(d: DataView, local: EpId) -> InboundView {
    InboundView {
        from: d.target,
        local,
        corr: d.corr,
        payload: d.payload,
        received: Seq::empty(),
        native: d.native,
        shared: d.shared,
    }
}

/// Does a call with the number of the message wait on that endpoint?
pub open spec fn awaited_on(s: PeerView, d: DataView, local: EpId) -> bool {
    s.waiters.contains_key(d.corr) && s.waiters[d.corr] == local
}

/// The same but for the number of frames received.
pub open spec fn heard(s: PeerView) -> PeerView {
    PeerView {
        received: if s.received < u64::MAX {
            (s.received + 1) as u64
        } else {
            s.received
        },
        ..s
    }
}

/// One more message was lost.
pub open spec fn one_lost(s: PeerView) -> PeerView {
    PeerView {
        dropped: if s.dropped < u64::MAX {
            (s.dropped + 1) as u64
        } else {
            s.dropped
        },
        ..s
    }
}

// ------------------------------------------------------------------- the start --

/// A runtime starts with nothing held, nothing waited for, nothing queued, and
/// the queues bounded as the limits say.
pub proof fn law_starts_with_nothing(lim: Limits, ep: EpId, c: u32)
    ensures
        ({
            let s = initial(lim);
            &&& s.lim == lim
            &&& !s.handles.contains_key(ep)
            &&& !s.theirs.contains_key(ep)
            &&& !s.waiters.contains_key(c)
            &&& !s.answers.contains_key(c)
            &&& s.create_wait is None
            &&& s.terminal is None
            &&& delivered(s).len() == 0
            &&& s.out.items.len() == 0
            &&& !s.out.closed && !s.inbound.closed
            &&& s.out.max_msgs == lim.queue_max_msgs && s.out.max_bytes == lim.queue_max_bytes
            &&& s.inbound.max_msgs == lim.queue_max_msgs && s.inbound.max_bytes
                == lim.queue_max_bytes
            &&& s.parked.len() == 0 && s.arrivals.len() == 0
            &&& s.next_corr == 0 && s.dropped == 0 && s.sent == 0 && s.received == 0
        }),
{
}

/// A frame goes to the end of the outbound queue if there is room for it, and
/// is refused otherwise, with word of how much is queued.
pub proof fn law_frames_are_queued_in_order(s: PeerView, f: FrameView)
    ensures
        emit(s, f) == sent_on(s, f),
        emit_error(s, f) == (if can_send(s, f) {
            None::<FabError>
        } else {
            Some(pushed_back(s))
        }),
{
}

// ------------------------------------------------------------------- the calls --

/// A call goes out on its endpoint as it was made, under the next number, and
/// waits for its answer on that endpoint. On an endpoint that failed, without
/// the fabric, or with too many calls waiting, it does not go out, and nothing
/// changes; nor does it wait if the queue has no room.
pub proof fn law_a_call_is_sent_and_waits(s: PeerView, ep: EpId, payload: Seq<u8>)
    requires
        s.next_corr < u32::MAX,
    ensures
        ({
            let (n, r) = call(s, ep, payload);
            let c = (s.next_corr + 1) as u32;
            let failed = s.handles.contains_key(ep) && s.handles[ep].cause is Some;
            let f = FrameView::Data(
                DataView {
                    target: ep,
                    corr: c,
                    attachments: Seq::empty(),
                    payload,
                    native: None,
                    shared: None,
                },
            );
            if failed {
                n == s && r == Err::<u32, FabError>(FabError::Closed(s.handles[ep].cause->Some_0))
            } else if s.terminal is Some {
                n == s && r == Err::<u32, FabError>(FabError::FabricLost)
            } else if s.waiters.len() >= s.lim.max_outstanding_requests {
                n == s && r == Err::<u32, FabError>(
                    FabError::Backpressured {
                        queued_msgs: s.waiters.len() as usize,
                        queued_bytes: 0,
                    },
                )
            } else if can_send(s, f) {
                &&& r == Ok::<u32, FabError>(c)
                &&& n == sent_on(
                    PeerView { next_corr: c, waiters: s.waiters.insert(c, ep), ..s },
                    f,
                )
            } else {
                &&& r == Err::<u32, FabError>(pushed_back(s))
                &&& n == (PeerView { next_corr: c, ..s })
            }
        }),
{
}

/// A message without endpoints that reaches a live endpoint answers the call
/// of its number if that call waits on this very endpoint: the call has the
/// message for its answer and waits no more, and nothing is delivered. If no
/// such call waits there, no call is touched, and the message is delivered as
/// a request, with its sender's end, the endpoint, the number and the payload.
pub proof fn law_answers_reach_their_own_call(s: PeerView, d: DataView)
    requires
        orderly(s),
        d.attachments.len() == 0,
        s.theirs.contains_key(d.target),
        !(s.handles.contains_key(s.theirs[d.target]) && s.handles[s.theirs[d.target]].cause is Some),
    ensures
        ({
            let n = process(s, FrameView::Data(d)).0;
            let local = s.theirs[d.target];
            &&& awaited_on(s, d, local) ==> n == (PeerView {
                waiters: s.waiters.remove(d.corr),
                answers: s.answers.insert(
                    d.corr,
                    Ok(
                        CallView {
                            payload: d.payload,
                            received: Seq::empty(),
                            native: d.native,
                            shared: d.shared,
                        },
                    ),
                ),
                ..heard(s)
            })
            &&& !awaited_on(s, d, local) ==> n.waiters == s.waiters && n.answers == s.answers
            &&& !awaited_on(s, d, local) && s.terminal is None ==> {
                &&& delivered(n) == delivered(s).push(as_received(d, local))
                &&& n == (PeerView { inbound: n.inbound, stalled: n.stalled, ..heard(s) })
                &&& n.inbound == (QueueView { items: n.inbound.items, ..s.inbound })
            }
            &&& !awaited_on(s, d, local) && s.terminal is Some ==> n == one_lost(heard(s))
        }),
{
    let h = heard(s);
    let n = process(s, FrameView::Data(d)).0;
    let local = s.theirs[d.target];
    if !awaited_on(s, d, local) {
        law_delivered_or_waiting(h, as_received(d, local), true);
        if s.terminal is Some {
            assert(release_all(one_lost(h), Seq::empty()) == one_lost(h));
        }
    }
}

/// A call gets an answer that is no failure from a message without endpoints
/// only if the message has its number and reached the endpoint it waits on.
pub proof fn law_no_answer_from_elsewhere(s: PeerView, d: DataView, c: u32)
    requires
        orderly(s),
        d.attachments.len() == 0,
        c != d.corr || !s.theirs.contains_key(d.target) || !awaited_on(s, d, s.theirs[d.target]),
    ensures
        ({
            let n = process(s, FrameView::Data(d)).0;
            &&& n.waiters.contains_key(c) <==> s.waiters.contains_key(c)
            &&& s.waiters.contains_key(c) ==> n.waiters[c] == s.waiters[c]
            &&& n.answers.contains_key(c) <==> s.answers.contains_key(c)
            &&& s.answers.contains_key(c) ==> n.answers[c] == s.answers[c]
        }),
{
    if s.theirs.contains_key(d.target) && !(s.handles.contains_key(s.theirs[d.target])
        && s.handles[s.theirs[d.target]].cause is Some) {
        law_answers_reach_their_own_call(s, d);
    }
}

/// A message for an endpoint that is not held here, or that failed, is lost
/// and counted, and changes nothing else.
pub proof fn law_nobody_there_to_receive(s: PeerView, d: DataView)
    requires
        d.attachments.len() == 0,
        !s.theirs.contains_key(d.target) || (s.handles.contains_key(s.theirs[d.target])
            && s.handles[s.theirs[d.target]].cause is Some),
    ensures
        process(s, FrameView::Data(d)).0 == one_lost(heard(s)),
{
}

/// A message is delivered behind all the others. It goes into the queue if it
/// fits and none waits before it; otherwise it waits. Once the fabric is gone
/// it is lost, with the endpoints in it.
pub proof fn law_delivered_or_waiting(s: PeerView, i: InboundView, counts: bool)
    ensures
        ({
            let n = deliver(s, i, counts);
            let cost = if i.payload.len() + 96 <= usize::MAX {
                (i.payload.len() + 96) as nat
            } else {
                usize::MAX as nat
            };
            let fits = s.stalled.len() == 0 && !s.inbound.closed && s.inbound.items.len()
                < s.inbound.max_msgs && total_cost(s.inbound.items) + cost <= s.inbound.max_bytes;
            &&& fits ==> n == (PeerView {
                inbound: QueueView { items: s.inbound.items.push((i, cost as usize)), ..s.inbound },
                ..s
            })
            &&& !fits && s.terminal is None ==> n == (PeerView {
                stalled: s.stalled.push(StalledView { item: i, counted: counts }),
                ..s
            })
            &&& !fits && s.terminal is Some ==> n == release_all(
                if counts {
                    one_lost(s)
                } else {
                    s
                },
                i.received,
            )
            &&& fits || s.terminal is None ==> delivered(n) == delivered(s).push(i)
        }),
{
    let n = deliver(s, i, counts);
    if (s.stalled.len() == 0 && s.inbound.admits(crate::peer_model::inbound_cost(i)))
        || s.terminal is None {
        assert(delivered(n) =~= delivered(s).push(i));
    }
}

/// The oldest message that waits goes into the queue once it fits. The order
/// of the messages never changes; without the fabric it is lost, with the
/// endpoints in it.
pub proof fn law_waiting_messages_keep_their_turn(s: PeerView)
    ensures
        ({
            let n = retry(s);
            let front = s.stalled[0];
            let cost = if front.item.payload.len() + 96 <= usize::MAX {
                (front.item.payload.len() + 96) as nat
            } else {
                usize::MAX as nat
            };
            let fits = !s.inbound.closed && s.inbound.items.len() < s.inbound.max_msgs && total_cost(
                s.inbound.items,
            ) + cost <= s.inbound.max_bytes;
            &&& s.stalled.len() == 0 ==> n == s
            &&& s.stalled.len() > 0 && fits ==> delivered(n) == delivered(s) && n == (PeerView {
                inbound: QueueView {
                    items: s.inbound.items.push((front.item, cost as usize)),
                    ..s.inbound
                },
                stalled: s.stalled.skip(1),
                ..s
            })
            &&& s.stalled.len() > 0 && !fits && s.terminal is None ==> n == s
            &&& s.stalled.len() > 0 && !fits && s.terminal is Some ==> n == release_all(
                if front.counted {
                    one_lost(PeerView { stalled: s.stalled.skip(1), ..s })
                } else {
                    PeerView { stalled: s.stalled.skip(1), ..s }
                },
                front.item.received,
            )
        }),
{
    let n = retry(s);
    if s.stalled.len() > 0 && s.inbound.admits(
        crate::peer_model::inbound_cost(s.stalled[0].item),
    ) {
        assert(delivered(n) =~= delivered(s));
    }
}

// ------------------------------------------------------------------ the offers --

/// A message with endpoints waits, if there is room for them and it reaches an
/// endpoint held here: it is parked behind the others, with all its transfers
/// open and nothing received, and known as an answer exactly if the call of
/// its number waits on the endpoint it reached. Each offer is answered, in
/// order, with yes if there is room for all and with no otherwise; a call
/// whose answer is refused fails.
pub proof fn law_offered_messages_are_parked(s: PeerView, d: DataView)
    requires
        orderly(s),
        d.attachments.len() > 0,
    ensures
        ({
            let n = process(s, FrameView::Data(d)).0;
            let room = s.handles.dom().filter(|e: EpId| s.handles[e].cause is None).len()
                + d.attachments.len() <= s.lim.max_live_endpoints && s.terminal is None;
            let known = s.theirs.contains_key(d.target);
            let local = s.theirs[d.target];
            let answered = said(heard(s), d.attachments, room);
            &&& n.out == answered.out && n.sent == answered.sent
            &&& room && known ==> n == (PeerView {
                parked: s.parked.push(
                    ParkedView {
                        from: d.target,
                        local,
                        corr: d.corr,
                        payload: d.payload,
                        remaining: d.attachments.map_values(|a: Attachment| a.tid),
                        got: Seq::empty(),
                        is_response: awaited_on(s, d, local),
                    },
                ),
                ..answered
            })
            &&& room && !known ==> n == one_lost(answered)
            &&& !room && known && awaited_on(s, d, local) ==> n == (PeerView {
                waiters: s.waiters.remove(d.corr),
                answers: s.answers.insert(
                    d.corr,
                    Err(FabError::TransferAborted("recipient at capacity")),
                ),
                ..answered
            })
            &&& !room && !(known && awaited_on(s, d, local)) ==> n == answered
        }),
{
    let h = heard(s);
    assert(h.live() =~= s.handles.dom().filter(|e: EpId| s.handles[e].cause is None));
    lemma_said(h, d.attachments, true);
    lemma_said(h, d.attachments, false);
}

/// The state after each offer was answered, in order, with yes or with no.
pub open spec fn said(s: PeerView, atts: Seq<Attachment>, yes: bool) -> PeerView
    decreases atts.len(),
{
    if atts.len() == 0 {
        s
    } else {
        let t = atts.last().tid;
        sent_on(
            said(s, atts.drop_last(), yes),
            if yes {
                FrameView::Xfer(XferMsg::Accept { tid: t })
            } else {
                FrameView::Xfer(XferMsg::Reject { tid: t })
            },
        )
    }
}

proof fn lemma_said(s: PeerView, atts: Seq<Attachment>, yes: bool)
    ensures
        reply_offers(s, atts, yes) == said(s, atts, yes),
        said(s, atts, yes) == (PeerView {
            out: said(s, atts, yes).out,
            sent: said(s, atts, yes).sent,
            ..s
        }),
    decreases atts.len(),
{
    if atts.len() > 0 {
        lemma_said(s, atts.drop_last(), yes);
    }
}

/// An offer of the host is accepted if there is room for one more endpoint,
/// and remembered; otherwise it is refused.
pub proof fn law_grants_are_answered(s: PeerView, ep: EpId, partner: EpId, t: TransferId)
    ensures
        ({
            let n = process(s, FrameView::Grant { ep, partner, tid: t }).0;
            let room = s.handles.dom().filter(|e: EpId| s.handles[e].cause is None).len()
                < s.lim.max_live_endpoints && s.terminal is None;
            &&& room ==> n == sent_on(
                PeerView { offers: s.offers.insert(t, (ep, partner)), ..heard(s) },
                FrameView::Xfer(XferMsg::Accept { tid: t }),
            )
            &&& !room ==> n == sent_on(heard(s), FrameView::Xfer(XferMsg::Reject { tid: t }))
        }),
{
    assert(heard(s).live() =~= s.handles.dom().filter(|e: EpId| s.handles[e].cause is None));
}

/// A decided transfer is struck from what a parked message waits for, and from
/// nothing else; a commit adds the endpoint that it brought behind those that
/// came before.
pub proof fn law_a_decision_strikes_its_transfer(p: ParkedView, t: TransferId, got: Option<EpId>, u: TransferId)
    ensures
        ({
            let q = strike(p, t, got);
            &&& q.remaining.contains(u) <==> p.remaining.contains(u) && u != t
            &&& q.got == (match got {
                Some(ep) => p.got.push(ep),
                None => p.got,
            })
            &&& q == (ParkedView { remaining: q.remaining, got: q.got, ..p })
        }),
{
    lemma_struck_out(p.remaining, t, u);
}

proof fn lemma_struck_out(l: Seq<TransferId>, t: TransferId, u: TransferId)
    ensures
        struck(l, t).contains(u) <==> l.contains(u) && u != t,
    decreases l.len(),
{
    reveal(Seq::filter);
    if l.len() > 0 {
        let front = l.drop_last();
        lemma_struck_out(front, t, u);
        let a = struck(front, t);
        let b = struck(l, t);
        if front.contains(u) {
            assert(l[front.index_of(u)] == u);
        }
        if l.contains(u) {
            let i = l.index_of(u);
            if i < front.len() {
                assert(front[i] == u);
            }
        }
        assert(l[l.len() - 1] == l.last());
        if l.last() != t {
            assert(b == a.push(l.last()));
            if a.contains(u) {
                assert(b[a.index_of(u)] == u);
            }
            if b.contains(u) {
                let i = b.index_of(u);
                if i < a.len() {
                    assert(a[i] == u);
                }
            }
            assert(b[a.len() as int] == l.last());
        }
    }
}

/// When the last transfer of a parked message is decided, the message leaves
/// the parked; the others stay, in order, each without that transfer.
pub proof fn law_the_decided_leave_the_parked(ps: Seq<ParkedView>, p: ParkedView, t: TransferId, got: Option<EpId>)
    ensures
        settle(Seq::empty(), t, got) == (Seq::<ParkedView>::empty(), Seq::<ParkedView>::empty()),
        ({
            let (rest, done) = settle(ps, t, got);
            let (rest2, done2) = settle(ps.push(p), t, got);
            let q = strike(p, t, got);
            &&& !p.remaining.contains(t) ==> rest2 == rest.push(p) && done2 == done
            &&& p.remaining.contains(t) && (exists|u: TransferId|
                u != t && p.remaining.contains(u)) ==> rest2 == rest.push(q) && done2 == done
            &&& p.remaining.contains(t) && !(exists|u: TransferId|
                u != t && p.remaining.contains(u)) ==> rest2 == rest && done2 == done.push(q)
        }),
{
    assert(ps.push(p).drop_last() =~= ps);
    let q = strike(p, t, got);
    if q.remaining.len() == 0 {
        assert forall|u: TransferId| u != t && p.remaining.contains(u) implies false by {
            lemma_struck_out(p.remaining, t, u);
        }
    } else {
        let u = q.remaining[0];
        assert(q.remaining.contains(u));
        lemma_struck_out(p.remaining, t, u);
        assert(u != t && p.remaining.contains(u));
    }
}

/// A parked message with all its endpoints is what its call gets for an
/// answer, if that call waits still, and otherwise they are given up; a
/// message that answers no call is delivered, with its endpoints.
pub proof fn law_the_parked_are_finished(s: PeerView, p: ParkedView)
    ensures
        ({
            let n = finish(s, p);
            &&& p.is_response && s.waiters.contains_key(p.corr) ==> n == (PeerView {
                waiters: s.waiters.remove(p.corr),
                answers: s.answers.insert(
                    p.corr,
                    Ok(CallView { payload: p.payload, received: p.got, native: None, shared: None }),
                ),
                ..s
            })
            &&& p.is_response && !s.waiters.contains_key(p.corr) ==> n == release_all(s, p.got)
            &&& !p.is_response && s.terminal is None ==> delivered(n) == delivered(s).push(
                InboundView {
                    from: p.from,
                    local: p.local,
                    corr: p.corr,
                    payload: p.payload,
                    received: p.got,
                    native: None,
                    shared: None,
                },
            ) && n == (PeerView { inbound: n.inbound, stalled: n.stalled, ..s })
        }),
{
    law_delivered_or_waiting(
        s,
        InboundView {
            from: p.from,
            local: p.local,
            corr: p.corr,
            payload: p.payload,
            received: p.got,
            native: None,
            shared: None,
        },
        false,
    );
}

/// A commit gives the endpoint that it names, live and with its partner, so
/// that messages from the partner reach it; what was held stays as it was.
/// With no message parked for it, nothing else changes but that the transfer
/// is decided and acknowledged.
pub proof fn law_a_commit_gives_the_endpoint(s: PeerView, t: TransferId, ep: EpId, partner: EpId)
    requires
        forall|i: int| 0 <= i < s.parked.len() ==> !(#[trigger] s.parked[i]).remaining.contains(t),
    ensures
        ({
            let n = process(
                s,
                FrameView::Xfer(XferMsg::Commit { tid: t, ep, partner }),
            ).0;
            let new = !s.handles.contains_key(ep);
            n == sent_on(
                PeerView {
                    handles: if new {
                        s.handles.insert(ep, Handle { partner, cause: None })
                    } else {
                        s.handles
                    },
                    arrivals: if new {
                        s.arrivals.push(ep)
                    } else {
                        s.arrivals
                    },
                    theirs: s.theirs.insert(partner, ep),
                    offers: s.offers.remove(t),
                    xfer_wait: s.xfer_wait.remove(t),
                    xfer_done: if s.xfer_wait.contains_key(t) {
                        s.xfer_done.insert(t, XferLocal::Committed)
                    } else {
                        s.xfer_done
                    },
                    ..heard(s)
                },
                FrameView::Xfer(XferMsg::ResultAck { tid: t }),
            )
        }),
{
    lemma_none_wait(s.parked, t, Some(ep));
    if !s.xfer_wait.contains_key(t) {
        assert(s.xfer_wait.remove(t) =~= s.xfer_wait);
    }
}

/// The messages that waited for nothing but this commit are finished in their
/// order, after the endpoint is held, and before the commit is acknowledged.
pub proof fn law_a_commit_finishes_what_waited(s: PeerView, t: TransferId, ep: EpId, partner: EpId)
    ensures
        ({
            let n = process(
                s,
                FrameView::Xfer(XferMsg::Commit { tid: t, ep, partner }),
            ).0;
            let new = !s.handles.contains_key(ep);
            let held = PeerView {
                handles: if new {
                    s.handles.insert(ep, Handle { partner, cause: None })
                } else {
                    s.handles
                },
                arrivals: if new {
                    s.arrivals.push(ep)
                } else {
                    s.arrivals
                },
                theirs: s.theirs.insert(partner, ep),
                offers: s.offers.remove(t),
                xfer_wait: s.xfer_wait.remove(t),
                xfer_done: if s.xfer_wait.contains_key(t) {
                    s.xfer_done.insert(t, XferLocal::Committed)
                } else {
                    s.xfer_done
                },
                parked: settle(s.parked, t, Some(ep)).0,
                ..heard(s)
            };
            n == sent_on(
                finish_all(held, settle(s.parked, t, Some(ep)).1),
                FrameView::Xfer(XferMsg::ResultAck { tid: t }),
            )
        }),
{
    if !s.xfer_wait.contains_key(t) {
        assert(s.xfer_wait.remove(t) =~= s.xfer_wait);
    }
}

/// The messages that waited for nothing but this transfer are lost when it is
/// called off: the endpoints that came with them are given up, and the calls
/// that they would have answered fail.
pub proof fn law_an_abort_loses_what_waited(s: PeerView, t: TransferId)
    ensures
        ({
            let n = process(s, FrameView::Xfer(XferMsg::Abort { tid: t })).0;
            let lost = settle(s.parked, t, None).1;
            let known = PeerView {
                offers: s.offers.remove(t),
                xfer_wait: s.xfer_wait.remove(t),
                xfer_done: if s.xfer_wait.contains_key(t) {
                    s.xfer_done.insert(t, XferLocal::Aborted)
                } else {
                    s.xfer_done
                },
                parked: settle(s.parked, t, None).0,
                ..heard(s)
            };
            let after = fail_calls(discard_all(known, lost), lost);
            n == (if s.xfer_wait.contains_key(t) {
                sent_on(after, FrameView::Xfer(XferMsg::ResultAck { tid: t }))
            } else {
                after
            })
        }),
{
    if !s.xfer_wait.contains_key(t) {
        assert(s.xfer_wait.remove(t) =~= s.xfer_wait);
    }
}

/// Parked messages are finished one after the other, and lost ones given up
/// one after the other; a call that a lost message would have answered fails,
/// if it waits still, and no other call is touched.
pub proof fn law_the_parked_go_in_turn(s: PeerView, ps: Seq<ParkedView>, p: ParkedView)
    ensures
        finish_all(s, Seq::empty()) == s,
        finish_all(s, ps.push(p)) == finish(finish_all(s, ps), p),
        discard_all(s, Seq::empty()) == s,
        discard_all(s, ps.push(p)) == release_all(discard_all(s, ps), p.got),
        fail_calls(s, Seq::empty()) == s,
        ({
            let m = fail_calls(s, ps);
            let n = fail_calls(s, ps.push(p));
            if p.is_response && m.waiters.contains_key(p.corr) {
                n == (PeerView {
                    waiters: m.waiters.remove(p.corr),
                    answers: m.answers.insert(
                        p.corr,
                        Err(FabError::TransferAborted("recipient rejected")),
                    ),
                    ..m
                })
            } else {
                n == m
            }
        }),
{
    assert(ps.push(p).drop_last() =~= ps);
}

/// A transfer out of here that was called off is known as such, and that is
/// acknowledged. With no message parked for it, nothing else changes.
pub proof fn law_an_abort_is_noted(s: PeerView, t: TransferId)
    requires
        forall|i: int| 0 <= i < s.parked.len() ==> !(#[trigger] s.parked[i]).remaining.contains(t),
    ensures
        ({
            let n = process(s, FrameView::Xfer(XferMsg::Abort { tid: t })).0;
            if s.xfer_wait.contains_key(t) {
                n == sent_on(
                    PeerView {
                        offers: s.offers.remove(t),
                        xfer_wait: s.xfer_wait.remove(t),
                        xfer_done: s.xfer_done.insert(t, XferLocal::Aborted),
                        ..heard(s)
                    },
                    FrameView::Xfer(XferMsg::ResultAck { tid: t }),
                )
            } else {
                n == (PeerView { offers: s.offers.remove(t), ..heard(s) })
            }
        }),
{
    lemma_none_wait(s.parked, t, None);
}

proof fn lemma_none_wait(ps: Seq<ParkedView>, t: TransferId, got: Option<EpId>)
    requires
        forall|i: int| 0 <= i < ps.len() ==> !(#[trigger] ps[i]).remaining.contains(t),
    ensures
        settle(ps, t, got).0 == ps,
        settle(ps, t, got).1.len() == 0,
    decreases ps.len(),
{
    if ps.len() > 0 {
        let front = ps.drop_last();
        assert forall|i: int| 0 <= i < front.len() implies !(#[trigger] front[i]).remaining.contains(
            t,
        ) by {
            assert(front[i] == ps[i]);
        }
        lemma_none_wait(front, t, got);
        assert(!ps[ps.len() - 1].remaining.contains(t));
        assert(front.push(ps.last()) =~= ps);
    }
}

/// Word that a transfer out of here went through is noted and acknowledged,
/// once; word on a transfer that is not waited for changes nothing.
pub proof fn law_a_committed_transfer_is_noted(s: PeerView, t: TransferId)
    ensures
        ({
            let n = process(s, FrameView::Xfer(XferMsg::Committed { tid: t })).0;
            if s.xfer_wait.contains_key(t) {
                n == sent_on(
                    PeerView {
                        xfer_wait: s.xfer_wait.remove(t),
                        xfer_done: s.xfer_done.insert(t, XferLocal::Committed),
                        ..heard(s)
                    },
                    FrameView::Xfer(XferMsg::ResultAck { tid: t }),
                )
            } else {
                n == heard(s)
            }
        }),
{
}

/// The host's word on where a transfer stands: committed and aborted decide a
/// transfer that is waited for, anything else ends the wait without a
/// decision; and whoever asked finds the status.
pub proof fn law_a_status_is_noted(s: PeerView, t: TransferId, status: u8)
    ensures
        ({
            let n = process(s, FrameView::Xfer(XferMsg::StatusAck { tid: t, status })).0;
            &&& n == (PeerView {
                xfer_wait: n.xfer_wait,
                xfer_done: n.xfer_done,
                status_wait: n.status_wait,
                status_done: n.status_done,
                ..heard(s)
            })
            &&& n.xfer_wait == s.xfer_wait.remove(t)
            &&& n.xfer_done == (if !s.xfer_wait.contains_key(t) {
                s.xfer_done
            } else if status == XFER_ST_COMMITTED {
                s.xfer_done.insert(t, XferLocal::Committed)
            } else if status == XFER_ST_ABORTED {
                s.xfer_done.insert(t, XferLocal::Aborted)
            } else {
                s.xfer_done
            })
            &&& s.status_wait.contains_key(t) ==> n.status_wait == s.status_wait.remove(t)
                && n.status_done == s.status_done.insert(t, status)
            &&& !s.status_wait.contains_key(t) ==> n.status_wait == s.status_wait && n.status_done
                == s.status_done
        }),
{
    if !s.xfer_wait.contains_key(t) {
        assert(s.xfer_wait.remove(t) =~= s.xfer_wait);
    }
}

// ------------------------------------------------------------------- the closes --

/// Word of one more close fails that endpoint, with the cause, if it is live:
/// each call that waits on it has that for an answer, messages from its
/// partner no longer reach it, and nothing else changes. An endpoint that is
/// not live stays as it was.
pub proof fn law_closed_endpoints_fail(s: PeerView, es: Seq<(EpId, Cause)>, ep: EpId, cause: Cause, c: u32, e: EpId)
    ensures
        on_closed(s, Seq::empty()) == s,
        process(s, FrameView::ClosedNotify { entries: es }).0 == on_closed(heard(s), es),
        ({
            let m = on_closed(s, es);
            let n = on_closed(s, es.push((ep, cause)));
            let live = m.handles.contains_key(ep) && m.handles[ep].cause is None;
            &&& !live ==> n == m
            &&& live ==> {
                let waits = m.waiters.contains_key(c) && m.waiters[c] == ep;
                &&& n == (PeerView {
                    handles: n.handles,
                    theirs: m.theirs.remove(m.handles[ep].partner),
                    waiters: n.waiters,
                    answers: n.answers,
                    ..m
                })
                &&& n.handles == m.handles.insert(
                    ep,
                    Handle { partner: m.handles[ep].partner, cause: Some(cause) },
                )
                &&& n.waiters.contains_key(c) <==> m.waiters.contains_key(c) && !waits
                &&& n.waiters.contains_key(c) ==> n.waiters[c] == m.waiters[c]
                &&& waits ==> n.answers.contains_key(c) && n.answers[c] == Err::<CallView, FabError>(
                    FabError::Closed(cause),
                )
                &&& !waits ==> (n.answers.contains_key(c) <==> m.answers.contains_key(c)) && (
                m.answers.contains_key(c) ==> n.answers[c] == m.answers[c])
            }
        }),
{
    assert(es.push((ep, cause)).drop_last() =~= es);
    assert(Set::<EpId>::empty().insert(ep).contains(ep));
}

/// Giving an endpoint up tells the host, if there is room to; the endpoint
/// fails gracefully, with each call that waits on it, messages no longer reach
/// it, and nothing else changes.
pub proof fn law_giving_up_tells_the_host(s: PeerView, ep: EpId, c: u32)
    ensures
        ({
            let n = release(s, ep);
            let told = sent_on(s, FrameView::Close { target: ep });
            let known = s.handles.contains_key(ep);
            let live = known && s.handles[ep].cause is None;
            let waits = live && s.waiters.contains_key(c) && s.waiters[c] == ep;
            &&& n == (PeerView {
                handles: n.handles,
                theirs: n.theirs,
                waiters: n.waiters,
                answers: n.answers,
                ..told
            })
            &&& n.handles == (if live {
                s.handles.insert(
                    ep,
                    Handle { partner: s.handles[ep].partner, cause: Some(Cause::Graceful) },
                )
            } else {
                s.handles
            })
            &&& n.theirs == (if known {
                s.theirs.remove(s.handles[ep].partner)
            } else {
                s.theirs
            })
            &&& n.waiters.contains_key(c) <==> s.waiters.contains_key(c) && !waits
            &&& n.waiters.contains_key(c) ==> n.waiters[c] == s.waiters[c]
            &&& waits ==> n.answers.contains_key(c) && n.answers[c] == Err::<CallView, FabError>(
                FabError::Closed(Cause::Graceful),
            )
            &&& !waits ==> (n.answers.contains_key(c) <==> s.answers.contains_key(c)) && (
            s.answers.contains_key(c) ==> n.answers[c] == s.answers[c])
        }),
{
    assert(Set::<EpId>::empty().insert(ep).contains(ep));
}

/// Endpoints are given up one after the other.
pub proof fn law_given_up_in_turn(s: PeerView, eps: Seq<EpId>, ep: EpId)
    ensures
        release_all(s, Seq::empty()) == s,
        release_all(s, eps.push(ep)) == release(release_all(s, eps), ep),
{
    assert(eps.push(ep).drop_last() =~= eps);
}

/// The end of the fabric closes both queues. The first time, every live
/// endpoint fails with the cause and every call that waits on one has that for
/// an answer; what failed before keeps its own cause. Later ends change
/// nothing more.
pub proof fn law_the_end_fails_what_lives(s: PeerView, cause: Cause, e: EpId, c: u32)
    ensures
        ({
            let n = shut(s, cause);
            let first = s.terminal is None;
            let live = |x: EpId| s.handles.contains_key(x) && s.handles[x].cause is None;
            let waits = first && s.waiters.contains_key(c) && live(s.waiters[c]);
            &&& n.out == (QueueView { closed: true, ..s.out })
            &&& n.inbound == (QueueView { closed: true, ..s.inbound })
            &&& n == (PeerView {
                out: n.out,
                inbound: n.inbound,
                terminal: n.terminal,
                handles: n.handles,
                waiters: n.waiters,
                answers: n.answers,
                ..s
            })
            &&& n.terminal == (if first {
                Some(cause)
            } else {
                s.terminal
            })
            &&& n.handles.contains_key(e) <==> s.handles.contains_key(e)
            &&& s.handles.contains_key(e) ==> n.handles[e] == (if first && live(e) {
                Handle { partner: s.handles[e].partner, cause: Some(cause) }
            } else {
                s.handles[e]
            })
            &&& n.waiters.contains_key(c) <==> s.waiters.contains_key(c) && !waits
            &&& n.waiters.contains_key(c) ==> n.waiters[c] == s.waiters[c]
            &&& waits ==> n.answers.contains_key(c) && n.answers[c] == Err::<CallView, FabError>(
                FabError::Closed(cause),
            )
            &&& !waits ==> (n.answers.contains_key(c) <==> s.answers.contains_key(c)) && (
            s.answers.contains_key(c) ==> n.answers[c] == s.answers[c])
        }),
{
    if s.waiters.contains_key(c) {
        assert(s.live().contains(s.waiters[c]) <==> s.handles.contains_key(s.waiters[c])
            && s.handles[s.waiters[c]].cause is None);
    }
}

/// After which frames there is nothing more to read: a goodbye, which ends
/// the fabric gracefully, and what a host never sends, which loses it. Every
/// frame is counted.
pub proof fn law_what_ends_the_reading(s: PeerView, f: FrameView)
    ensures
        ({
            let (n, more) = process(s, f);
            &&& more <==> !(f is Hello || f is Close || f is Shutdown)
            &&& f is Shutdown ==> n == shut(heard(s), Cause::Graceful)
            &&& f is Hello || f is Close ==> n == shut(heard(s), Cause::PeerLost)
            &&& f is Create ==> n == heard(s)
        }),
{
}

// --------------------------------------------------------------- the new pairs --

/// A request for a pair goes out under the next ticket, one at a time; without
/// the fabric, with one under way, or without room it does not.
pub proof fn law_a_request_for_a_pair(s: PeerView)
    ensures
        ({
            let (n, r) = create(s);
            let t = if s.tickets < u64::MAX {
                (s.tickets + 1) as u64
            } else {
                s.tickets
            };
            if s.terminal is Some {
                n == s && r == Err::<u64, FabError>(FabError::FabricLost)
            } else if s.create_wait is Some {
                n == s && r == Err::<u64, FabError>(
                    FabError::Backpressured { queued_msgs: 0, queued_bytes: 0 },
                )
            } else if can_send(s, FrameView::Create) {
                &&& r == Ok::<u64, FabError>(t)
                &&& n == sent_on(
                    PeerView { tickets: t, create_wait: Some(t), ..s },
                    FrameView::Create,
                )
            } else {
                &&& r == Err::<u64, FabError>(pushed_back(s))
                &&& n == (PeerView { tickets: t, ..s })
            }
        }),
{
}

/// The host's answer ends the request that is under way: with the two
/// endpoints it names, or with a failure that says what the code says.
pub proof fn law_the_answer_for_a_pair(s: PeerView, a: EpId, b: EpId, code: u8)
    ensures
        ({
            let n = process(s, FrameView::CreateAck { impl_ep: a, transferable_ep: b }).0;
            let m = process(s, FrameView::Error(code)).0;
            let why = if code == 1 {
                FabError::Backpressured { queued_msgs: 0, queued_bytes: 0 }
            } else {
                FabError::ProtocolViolation("unknown error code")
            };
            match s.create_wait {
                None => n == heard(s) && m == heard(s),
                Some(t) => {
                    &&& n == (PeerView {
                        create_wait: None,
                        created: s.created.insert(t, CreateOutcome::Done(a, b)),
                        ..heard(s)
                    })
                    &&& m == (PeerView {
                        create_wait: None,
                        created: s.created.insert(t, CreateOutcome::Failed(why)),
                        ..heard(s)
                    })
                },
            }
        }),
{
}

/// A pair that was made is held, both ends live and each the other's partner,
/// and messages from either reach the other; what was held stays as it was.
pub proof fn law_a_made_pair_is_held(s: PeerView, a: EpId, b: EpId, e: EpId)
    requires
        a != b,
    ensures
        ({
            let n = adopt_pair(s, a, b);
            &&& n == (PeerView {
                handles: n.handles,
                arrivals: n.arrivals,
                theirs: n.theirs,
                ..s
            })
            &&& n.handles.contains_key(a) && n.handles.contains_key(b)
            &&& !s.handles.contains_key(a) ==> n.handles[a] == (Handle { partner: b, cause: None })
            &&& !s.handles.contains_key(b) ==> n.handles[b] == (Handle { partner: a, cause: None })
            &&& s.handles.contains_key(e) ==> n.handles.contains_key(e) && n.handles[e] == s.handles[e]
            &&& e != a && e != b ==> (n.handles.contains_key(e) <==> s.handles.contains_key(e))
            &&& n.theirs == s.theirs.insert(b, a).insert(a, b)
            &&& !s.handles.contains_key(a) && !s.handles.contains_key(b) ==> n.arrivals
                == s.arrivals.push(a).push(b)
        }),
{
}

/// The endpoint that is handed out next is the first that arrived of those
/// that are live and not excluded; there is none if all that arrived are dead
/// or excluded.
pub proof fn law_first_come_first_handed_out(s: PeerView, order: Seq<EpId>, exclude: Seq<EpId>)
    ensures
        match first_new(s, order, exclude) {
            Some(ep) => exists|i: int|
                {
                    &&& 0 <= i < order.len()
                    &&& #[trigger] order[i] == ep
                    &&& eligible(s, exclude, ep)
                    &&& forall|j: int| 0 <= j < i ==> !eligible(s, exclude, #[trigger] order[j])
                },
            None => forall|j: int| 0 <= j < order.len() ==> !eligible(s, exclude, #[trigger] order[j]),
        },
    decreases order.len(),
{
    if order.len() > 0 && !eligible(s, exclude, order[0]) {
        let rest = order.skip(1);
        law_first_come_first_handed_out(s, rest, exclude);
        match first_new(s, order, exclude) {
            Some(ep) => {
                let i = choose|i: int|
                    {
                        &&& 0 <= i < rest.len()
                        &&& #[trigger] rest[i] == ep
                        &&& eligible(s, exclude, ep)
                        &&& forall|j: int| 0 <= j < i ==> !eligible(s, exclude, #[trigger] rest[j])
                    };
                assert(order[i + 1] == ep);
                assert forall|j: int| 0 <= j < i + 1 implies !eligible(s, exclude, #[trigger] order[j]) by {
                    if j > 0 {
                        assert(rest[j - 1] == order[j]);
                    }
                }
            },
            None => {
                assert forall|j: int| 0 <= j < order.len() implies !eligible(
                    s,
                    exclude,
                    #[trigger] order[j],
                ) by {
                    if j > 0 {
                        assert(rest[j - 1] == order[j]);
                    }
                }
            },
        }
    }
}

/// Is the endpoint live and not excluded?
pub open spec fn eligible(s: PeerView, exclude: Seq<EpId>, ep: EpId) -> bool {
    s.handles.contains_key(ep) && s.handles[ep].cause is None && !exclude.contains(ep)
}

// ------------------------------------------------------------------ the replies --

/// The offers of these endpoints, each under its own transfer and with the
/// partner that it has.
pub open spec fn offers_for(s: PeerView, caps: Seq<EpId>, tids: Seq<TransferId>, atts: Seq<Attachment>) -> bool {
    &&& atts.len() == caps.len()
    &&& forall|i: int|
        0 <= i < caps.len() ==> (#[trigger] atts[i]).tid == tids[i] && atts[i].id == caps[i]
            && atts[i].partner == s.handles[caps[i]].partner
}

/// A reply whose endpoints are all live takes them out of here: each is waited
/// for under its own transfer, and nothing else that is held changes. If there
/// is room, one message goes out on the endpoint that received the request,
/// with the number, the payload and an offer of each endpoint; otherwise the
/// reply is refused with word of how much is queued.
pub proof fn law_a_reply_offers_its_endpoints(
    s: PeerView,
    local: EpId,
    corr: u32,
    payload: Seq<u8>,
    caps: Seq<EpId>,
    tids: Seq<TransferId>,
)
    requires
        caps.len() == tids.len(),
        forall|i: int|
            0 <= i < caps.len() ==> s.handles.contains_key(#[trigger] caps[i])
                && s.handles[caps[i]].cause is None,
        forall|i: int, j: int|
            0 <= i < j < caps.len() ==> #[trigger] caps[i] != #[trigger] caps[j],
        forall|i: int, j: int|
            0 <= i < j < tids.len() ==> #[trigger] tids[i] != #[trigger] tids[j],
    ensures
        ({
            let (n, r) = reply(s, local, corr, payload, caps, tids);
            let given = PeerView { handles: n.handles, xfer_wait: n.xfer_wait, ..s };
            &&& forall|e: EpId| #[trigger]
                n.handles.contains_key(e) <==> s.handles.contains_key(e) && !caps.contains(e)
            &&& forall|e: EpId| #[trigger]
                n.handles.contains_key(e) ==> n.handles[e] == s.handles[e]
            &&& forall|i: int|
                0 <= i < caps.len() ==> n.xfer_wait.contains_key(#[trigger] tids[i])
                    && n.xfer_wait[tids[i]] == (caps[i], s.handles[caps[i]].partner)
            &&& forall|t: TransferId|
                !tids.contains(t) ==> (#[trigger] n.xfer_wait.contains_key(t)
                    <==> s.xfer_wait.contains_key(t)) && (s.xfer_wait.contains_key(t)
                    ==> n.xfer_wait[t] == s.xfer_wait[t])
            &&& exists|d: DataView|
                {
                    &&& d.target == local && d.corr == corr && d.payload == payload
                    &&& d.native is None && d.shared is None
                    &&& offers_for(s, caps, tids, d.attachments)
                    &&& #[trigger] sent_on(given, FrameView::Data(d)) == n
                    &&& r == (if can_send(given, FrameView::Data(d)) {
                        Ok::<(), FabError>(())
                    } else {
                        Err(pushed_back(s))
                    })
                }
        }),
{
    lemma_none_failed(s, caps);
    lemma_hand_over(s, caps, tids);
    lemma_handed(s, caps, tids);
    let d = DataView {
        target: local,
        corr,
        attachments: crate::peer_model::offers_of(s, caps, tids),
        payload,
        native: None,
        shared: None,
    };
    let (n, r) = reply(s, local, corr, payload, caps, tids);
    let h = hand_over(s, caps, tids);
    let given = PeerView { handles: n.handles, xfer_wait: n.xfer_wait, ..s };
    assert(h == given);
    assert(offers_for(s, caps, tids, d.attachments));
    assert(sent_on(given, FrameView::Data(d)) == n);
    assert forall|t: TransferId| !tids.contains(t) implies (#[trigger] n.xfer_wait.contains_key(t)
        <==> s.xfer_wait.contains_key(t)) && (s.xfer_wait.contains_key(t) ==> n.xfer_wait[t]
        == s.xfer_wait[t]) by {
        assert(h.xfer_wait.contains_key(t) <==> s.xfer_wait.contains_key(t));
    }
}

proof fn lemma_none_failed(s: PeerView, caps: Seq<EpId>)
    requires
        forall|i: int|
            0 <= i < caps.len() ==> s.handles.contains_key(#[trigger] caps[i])
                && s.handles[caps[i]].cause is None,
    ensures
        first_failed(s, caps) is None,
    decreases caps.len(),
{
    if caps.len() > 0 {
        let front = caps.drop_last();
        assert forall|i: int| 0 <= i < front.len() implies s.handles.contains_key(#[trigger] front[i])
            && s.handles[front[i]].cause is None by {
            assert(front[i] == caps[i]);
        }
        lemma_none_failed(s, front);
        assert(s.handles[caps[caps.len() - 1]].cause is None);
    }
}

proof fn lemma_handed(s: PeerView, caps: Seq<EpId>, tids: Seq<TransferId>)
    requires
        caps.len() == tids.len(),
        forall|i: int, j: int|
            0 <= i < j < caps.len() ==> #[trigger] caps[i] != #[trigger] caps[j],
        forall|i: int, j: int|
            0 <= i < j < tids.len() ==> #[trigger] tids[i] != #[trigger] tids[j],
        forall|i: int| 0 <= i < caps.len() ==> s.handles.contains_key(#[trigger] caps[i]),
    ensures
        ({
            let h = hand_over(s, caps, tids);
            &&& h == (PeerView { handles: h.handles, xfer_wait: h.xfer_wait, ..s })
            &&& forall|i: int|
                0 <= i < caps.len() ==> h.xfer_wait.contains_key(#[trigger] tids[i])
                    && h.xfer_wait[tids[i]] == (caps[i], s.handles[caps[i]].partner)
            &&& forall|t: TransferId|
                !tids.contains(t) ==> (#[trigger] h.xfer_wait.contains_key(t)
                    <==> s.xfer_wait.contains_key(t)) && (s.xfer_wait.contains_key(t)
                    ==> h.xfer_wait[t] == s.xfer_wait[t])
        }),
    decreases caps.len(),
{
    if caps.len() > 0 {
        let cf = caps.drop_last();
        let tf = tids.drop_last();
        let k = caps.len() - 1;
        assert forall|i: int, j: int| 0 <= i < j < cf.len() implies #[trigger] cf[i] != #[trigger] cf[j] by {
            assert(caps[i] != caps[j]);
        }
        assert forall|i: int, j: int| 0 <= i < j < tf.len() implies #[trigger] tf[i] != #[trigger] tf[j] by {
            assert(tids[i] != tids[j]);
        }
        assert forall|i: int| 0 <= i < cf.len() implies s.handles.contains_key(#[trigger] cf[i]) by {
            assert(s.handles.contains_key(caps[i]));
        }
        lemma_handed(s, cf, tf);
        lemma_hand_over(s, cf, tf);
        let b = hand_over(s, cf, tf);
        let h = hand_over(s, caps, tids);
        assert(!cf.contains(caps[k])) by {
            if cf.contains(caps[k]) {
                let i = cf.index_of(caps[k]);
                assert(caps[i] != caps[k]);
            }
        }
        assert(b.handles.contains_key(caps[k]));
        assert forall|i: int| 0 <= i < caps.len() implies h.xfer_wait.contains_key(#[trigger] tids[i])
            && h.xfer_wait[tids[i]] == (caps[i], s.handles[caps[i]].partner) by {
            if i < k {
                assert(tids[i] != tids[k]);
                assert(tf[i] == tids[i]);
                assert(b.xfer_wait.contains_key(tf[i]));
            }
        }
        assert forall|t: TransferId| !tids.contains(t) implies (#[trigger] h.xfer_wait.contains_key(t)
            <==> s.xfer_wait.contains_key(t)) && (s.xfer_wait.contains_key(t) ==> h.xfer_wait[t]
            == s.xfer_wait[t]) by {
            if tf.contains(t) {
                assert(tids[tf.index_of(t)] == t);
            }
            assert(tids[k] != t) by {
                if tids[k] == t {
                    assert(tids.contains(t));
                }
            }
            assert(b.xfer_wait.contains_key(t) <==> s.xfer_wait.contains_key(t));
        }
    }
}

/// A reply with an endpoint that failed is refused with the cause of the first
/// such: nothing goes out but the closes of its endpoints, which are all given
/// up.
pub proof fn law_a_failed_endpoint_stops_the_reply(
    s: PeerView,
    local: EpId,
    corr: u32,
    payload: Seq<u8>,
    caps: Seq<EpId>,
    tids: Seq<TransferId>,
    k: int,
)
    requires
        0 <= k < caps.len(),
        s.handles.contains_key(caps[k]),
        s.handles[caps[k]].cause is Some,
        forall|i: int|
            0 <= i < k ==> !(s.handles.contains_key(#[trigger] caps[i])
                && s.handles[caps[i]].cause is Some),
    ensures
        reply(s, local, corr, payload, caps, tids) == (
            release_all(s, caps),
            Err::<(), FabError>(FabError::Closed(s.handles[caps[k]].cause->Some_0)),
        ),
{
    lemma_first_cause(s, caps, k);
}

proof fn lemma_first_cause(s: PeerView, caps: Seq<EpId>, k: int)
    requires
        0 <= k < caps.len(),
        s.handles.contains_key(caps[k]),
        s.handles[caps[k]].cause is Some,
        forall|i: int|
            0 <= i < k ==> !(s.handles.contains_key(#[trigger] caps[i])
                && s.handles[caps[i]].cause is Some),
    ensures
        first_failed(s, caps) == s.handles[caps[k]].cause,
    decreases caps.len(),
{
    let front = caps.drop_last();
    if k < front.len() {
        assert forall|i: int| 0 <= i < k implies !(s.handles.contains_key(#[trigger] front[i])
            && s.handles[front[i]].cause is Some) by {
            assert(front[i] == caps[i]);
        }
        lemma_first_cause(s, front, k);
    } else {
        lemma_no_cause(s, front);
    }
}

proof fn lemma_no_cause(s: PeerView, caps: Seq<EpId>)
    requires
        forall|i: int|
            0 <= i < caps.len() ==> !(s.handles.contains_key(#[trigger] caps[i])
                && s.handles[caps[i]].cause is Some),
    ensures
        first_failed(s, caps) is None,
    decreases caps.len(),
{
    if caps.len() > 0 {
        let front = caps.drop_last();
        assert forall|i: int| 0 <= i < front.len() implies !(s.handles.contains_key(#[trigger] front[i])
            && s.handles[front[i]].cause is Some) by {
            assert(front[i] == caps[i]);
        }
        lemma_no_cause(s, front);
        assert(!(s.handles.contains_key(caps[caps.len() - 1])
            && s.handles[caps[caps.len() - 1]].cause is Some));
    }
}

/// A reply that went out waits for its first transfer, ten seconds from now,
/// with nothing come back; it remembers each transfer with its endpoint.
pub proof fn law_a_reply_waits_from_the_first(s: PeerView, caps: Seq<EpId>, tids: Seq<TransferId>, now: u64, i: int)
    ensures
        ({
            let r = started(s, caps, tids, now);
            &&& r.at == 0
            &&& r.aborted.len() == 0
            &&& r.ask == Ask::Idle
            &&& now <= u64::MAX - 10000 ==> r.deadline == now + 10000
            &&& now > u64::MAX - 10000 ==> r.deadline == u64::MAX
            &&& r.slots.len() == caps.len()
            &&& 0 <= i < caps.len() ==> r.slots[i] == (tids[i], caps[i], s.handles[caps[i]].partner)
        }),
{
}

/// The next transfer is looked at, with nothing asked.
pub open spec fn next_slot(r: ReplyView, aborted: Seq<EpId>) -> ReplyView {
    ReplyView { at: r.at + 1, ask: Ask::Idle, aborted, ..r }
}

/// A reply all of whose transfers are decided is done: committed if nothing
/// came back, and otherwise with what did.
pub proof fn law_a_reply_ends_with_its_transfers(s: PeerView, r: ReplyView, now: u64)
    requires
        r.at >= r.slots.len(),
    ensures
        turn(s, r, now).0 == s,
        r.aborted.len() == 0 ==> turn(s, r, now).1 == TurnView::Done(
            Ok::<OutcomeView, FabError>(OutcomeView::Committed),
        ),
        r.aborted.len() > 0 ==> turn(s, r, now).1 == TurnView::Done(
            Ok::<OutcomeView, FabError>(OutcomeView::Aborted(r.aborted)),
        ),
{
}

/// What the host's word on a transfer does to its reply, whether the word came
/// by itself or when asked for. A commit is acknowledged and the next transfer
/// looked at. An abort brings the endpoint back, live and with its partner,
/// and is acknowledged; without the fabric the authority is lost, and what
/// came back is given up.
pub proof fn law_a_decided_transfer_moves_the_reply_on(s: PeerView, r: ReplyView, now: u64)
    requires
        r.at < r.slots.len(),
    ensures
        ({
            let (t, ep, partner) = r.slots[r.at as int];
            let (n, w) = turn(s, r, now);
            let by_word = r.ask == Ask::Idle && s.xfer_done.contains_key(t);
            let asked = (r.ask is First || r.ask is Second) && s.status_done.contains_key(t);
            let m = PeerView {
                xfer_done: s.xfer_done.remove(t),
                status_done: if asked {
                    s.status_done.remove(t)
                } else {
                    s.status_done
                },
                ..s
            };
            let ack = FrameView::Xfer(XferMsg::ResultAck { tid: t });
            let through = (by_word && s.xfer_done[t] == XferLocal::Committed) || (asked
                && s.status_done[t] == XFER_ST_COMMITTED);
            let back = (by_word && s.xfer_done[t] == XferLocal::Aborted) || (asked
                && s.status_done[t] == XFER_ST_ABORTED);
            &&& through ==> n == sent_on(m, ack) && w == TurnView::Again(next_slot(r, r.aborted))
            &&& back && s.terminal is Some ==> n == release_all(m, r.aborted) && w == TurnView::Done(
                Ok::<OutcomeView, FabError>(OutcomeView::AuthorityLost(Cause::Graceful)),
            )
            &&& back && s.terminal is None ==> {
                let new = !s.handles.contains_key(ep);
                &&& w == TurnView::Again(next_slot(r, r.aborted.push(ep)))
                &&& n == sent_on(
                    PeerView {
                        handles: if new {
                            s.handles.insert(ep, Handle { partner, cause: None })
                        } else {
                            s.handles
                        },
                        arrivals: if new {
                            s.arrivals.push(ep)
                        } else {
                            s.arrivals
                        },
                        theirs: s.theirs.insert(partner, ep),
                        ..m
                    },
                    ack,
                )
            }
        }),
{
    let t = r.slots[r.at as int].0;
    if !s.xfer_done.contains_key(t) {
        assert(s.xfer_done.remove(t) =~= s.xfer_done);
    }
}

/// What a reply does while the host's word is out. Before its deadline it
/// waits; from then on it asks, and waits two seconds for the answer. A
/// pending transfer is looked at again after a while; an answer that settles
/// nothing, or none in time, is asked for once more, and then the reply gives
/// up what came back and the matter is unknown.
pub proof fn law_an_undecided_transfer_is_asked_about(s: PeerView, r: ReplyView, now: u64)
    requires
        r.at < r.slots.len(),
    ensures
        ({
            let t = r.slots[r.at as int].0;
            let (n, w) = turn(s, r, now);
            let question = FrameView::Xfer(XferMsg::Status { tid: t });
            let can_ask = s.terminal is None && can_send(s, question);
            let asked = sent_on(PeerView { status_wait: s.status_wait.insert(t, ()), ..s }, question);
            let until = if now <= u64::MAX - 2000 {
                (now + 2000) as u64
            } else {
                u64::MAX
            };
            let unknown = TurnView::Done(Err::<OutcomeView, FabError>(FabError::TransferUnknown));
            let failed_ask = if s.terminal is Some {
                s
            } else {
                PeerView { status_wait: s.status_wait.remove(t), ..s }
            };
            match r.ask {
                Ask::Idle => !s.xfer_done.contains_key(t) ==> {
                    &&& now < r.deadline ==> n == s && w == TurnView::Wait(
                        r,
                        (r.deadline - now) as u64,
                    )
                    &&& now >= r.deadline && can_ask ==> n == asked && w == TurnView::Wait(
                        ReplyView { ask: Ask::First(until), ..r },
                        2000,
                    )
                    &&& now >= r.deadline && !can_ask ==> n == failed_ask && w == TurnView::Again(
                        ReplyView { ask: Ask::Unsure, ..r },
                    )
                },
                Ask::Unsure => {
                    &&& can_ask ==> n == asked && w == TurnView::Wait(
                        ReplyView { ask: Ask::Second(until), ..r },
                        2000,
                    )
                    &&& !can_ask ==> n == release_all(failed_ask, r.aborted) && w == unknown
                },
                Ask::First(by) => {
                    let other = s.status_done.contains_key(t) && s.status_done[t] != XFER_ST_COMMITTED
                        && s.status_done[t] != XFER_ST_ABORTED;
                    let taken = PeerView { status_done: s.status_done.remove(t), ..s };
                    &&& other && s.status_done[t] == XFER_ST_PENDING ==> n == taken && w
                        == TurnView::Wait(ReplyView { ask: Ask::Idle, ..r }, 50)
                    &&& other && s.status_done[t] != XFER_ST_PENDING ==> n == taken && w
                        == TurnView::Again(ReplyView { ask: Ask::Unsure, ..r })
                    &&& !s.status_done.contains_key(t) && now < by ==> n == s && w == TurnView::Wait(
                        r,
                        (by - now) as u64,
                    )
                    &&& !s.status_done.contains_key(t) && now >= by ==> n == (PeerView {
                        status_wait: s.status_wait.remove(t),
                        ..s
                    }) && w == TurnView::Again(ReplyView { ask: Ask::Unsure, ..r })
                },
                Ask::Second(by) => {
                    let other = s.status_done.contains_key(t) && s.status_done[t] != XFER_ST_COMMITTED
                        && s.status_done[t] != XFER_ST_ABORTED;
                    &&& other ==> n == release_all(
                        PeerView { status_done: s.status_done.remove(t), ..s },
                        r.aborted,
                    ) && w == unknown
                    &&& !s.status_done.contains_key(t) && now < by ==> n == s && w == TurnView::Wait(
                        r,
                        (by - now) as u64,
                    )
                    &&& !s.status_done.contains_key(t) && now >= by ==> n == release_all(
                        PeerView { status_wait: s.status_wait.remove(t), ..s },
                        r.aborted,
                    ) && w == unknown
                },
            }
        }),
{
}

} // verus!

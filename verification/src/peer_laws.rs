//! What holds of a child's runtime, whatever arrives.

use vstd::prelude::*;

use crate::fabric_error::{Cause, FabError};
use crate::frame::{Attachment, DataView, FrameView, XferMsg};
use crate::id::{EpId, TransferId};
use crate::limits::Limits;
use crate::peer_model::{
    ack, ask_status, call, close_slot, create, decide, deliver, discard_all, emit, emit_error,
    fail_calls, fail_handle, finish, finish_all, first_failed, hand_over, initial, lemma_hand_over, lose,
    on_abort, on_closed, on_commit, on_data, on_xfer, process, release, release_all, reply,
    reply_offers, retry, settle, shut, turn, InboundView, OutcomeView, ParkedView, PeerView,
    ReplyView, TurnView, XferLocal,
};

verus! {

/// What holds of every reachable runtime. A message that waits, waits for
/// some transfer; the queues close exactly when the fabric is gone; a call is
/// numbered from one on, and once answered it waits no more.
pub open spec fn orderly(s: PeerView) -> bool {
    &&& forall|i: int| 0 <= i < s.parked.len() ==> (#[trigger] s.parked[i]).remaining.len() > 0
    &&& s.out.closed == (s.terminal is Some)
    &&& s.inbound.closed == (s.terminal is Some)
    &&& forall|c: u32| #[trigger] s.waiters.contains_key(c) ==> 1 <= c <= s.next_corr
    &&& forall|c: u32| #[trigger] s.answers.contains_key(c) ==> 1 <= c <= s.next_corr
    &&& forall|c: u32| !(#[trigger] s.waiters.contains_key(c) && s.answers.contains_key(c))
}

/// A step that gives no authority, revives nothing, and begins no call.
pub open spec fn tame(a: PeerView, b: PeerView) -> bool {
    &&& b.handles.dom() == a.handles.dom()
    &&& forall|ep: EpId| #[trigger]
        a.handles.contains_key(ep) ==> b.handles[ep].partner == a.handles[ep].partner && (
        a.handles[ep].cause is Some ==> b.handles[ep] == a.handles[ep])
    &&& b.terminal == a.terminal
    &&& b.next_corr == a.next_corr
    &&& b.out.closed == a.out.closed
    &&& b.inbound.closed == a.inbound.closed
    &&& b.parked == a.parked
    &&& forall|c: u32| #[trigger]
        b.waiters.contains_key(c) ==> a.waiters.contains_key(c) && b.waiters[c] == a.waiters[c]
    &&& forall|c: u32| #[trigger]
        b.answers.contains_key(c) ==> a.answers.contains_key(c) || (a.waiters.contains_key(c)
            && !b.waiters.contains_key(c))
}

proof fn lemma_tame_then(a: PeerView, b: PeerView, c: PeerView)
    requires
        tame(a, b),
        tame(b, c),
    ensures
        tame(a, c),
{
    assert forall|ep: EpId| #[trigger] a.handles.contains_key(ep) implies c.handles[ep].partner
        == a.handles[ep].partner && (a.handles[ep].cause is Some ==> c.handles[ep] == a.handles[ep]) by {
        assert(a.handles.dom().contains(ep));
        assert(b.handles.dom().contains(ep));
        assert(b.handles.contains_key(ep));
    }
    assert forall|k: u32| #[trigger] c.answers.contains_key(k) implies a.answers.contains_key(k) || (
    a.waiters.contains_key(k) && !c.waiters.contains_key(k)) by {
        if b.answers.contains_key(k) && !a.answers.contains_key(k) {
            if c.waiters.contains_key(k) {
                assert(b.waiters.contains_key(k));
            }
        }
    }
}

proof fn lemma_tame_emit(s: PeerView, f: FrameView)
    ensures
        tame(s, emit(s, f)),
{
}

proof fn lemma_tame_fail(s: PeerView, ep: EpId, cause: Cause)
    ensures
        tame(s, fail_handle(s, ep, cause)),
{
    assert(fail_handle(s, ep, cause).handles.dom() =~= s.handles.dom());
}

proof fn lemma_tame_release(s: PeerView, ep: EpId)
    ensures
        tame(s, release(s, ep)),
{
    let told = emit(s, FrameView::Close { target: ep });
    lemma_tame_emit(s, FrameView::Close { target: ep });
    lemma_tame_fail(told, ep, Cause::Graceful);
    lemma_tame_then(s, told, fail_handle(told, ep, Cause::Graceful));
}

proof fn lemma_tame_release_all(s: PeerView, eps: Seq<EpId>)
    ensures
        tame(s, release_all(s, eps)),
    decreases eps.len(),
{
    if eps.len() > 0 {
        let before = release_all(s, eps.drop_last());
        lemma_tame_release_all(s, eps.drop_last());
        lemma_tame_release(before, eps.last());
        lemma_tame_then(s, before, release_all(s, eps));
    }
}

proof fn lemma_tame_lose(s: PeerView, i: InboundView, counted: bool)
    ensures
        tame(s, lose(s, i, counted)),
{
    let d = if counted {
        s.drop_one()
    } else {
        s
    };
    assert(tame(s, d));
    lemma_tame_release_all(d, i.received);
    lemma_tame_then(s, d, lose(s, i, counted));
}

proof fn lemma_tame_deliver(s: PeerView, i: InboundView, counted: bool)
    ensures
        tame(s, deliver(s, i, counted)),
{
    lemma_tame_lose(s, i, counted);
}

proof fn lemma_tame_retry(s: PeerView)
    ensures
        tame(s, retry(s)),
{
    if s.stalled.len() > 0 {
        let rest = PeerView { stalled: s.stalled.skip(1), ..s };
        assert(tame(s, rest));
        lemma_tame_lose(rest, s.stalled[0].item, s.stalled[0].counted);
        lemma_tame_then(s, rest, lose(rest, s.stalled[0].item, s.stalled[0].counted));
    }
}

proof fn lemma_tame_finish(s: PeerView, p: ParkedView)
    ensures
        tame(s, finish(s, p)),
{
    lemma_tame_release_all(s, p.got);
    lemma_tame_deliver(
        s,
        InboundView {
            from: p.from,
            local: p.local,
            corr: p.corr,
            payload: p.payload,
            received: p.got,
            native: None,
            shared: None,
        },
        false,
    );
}

proof fn lemma_tame_finish_all(s: PeerView, ps: Seq<ParkedView>)
    ensures
        tame(s, finish_all(s, ps)),
    decreases ps.len(),
{
    if ps.len() > 0 {
        let before = finish_all(s, ps.drop_last());
        lemma_tame_finish_all(s, ps.drop_last());
        lemma_tame_finish(before, ps.last());
        lemma_tame_then(s, before, finish_all(s, ps));
    }
}

proof fn lemma_tame_discard_all(s: PeerView, ps: Seq<ParkedView>)
    ensures
        tame(s, discard_all(s, ps)),
    decreases ps.len(),
{
    if ps.len() > 0 {
        let before = discard_all(s, ps.drop_last());
        lemma_tame_discard_all(s, ps.drop_last());
        lemma_tame_release_all(before, ps.last().got);
        lemma_tame_then(s, before, discard_all(s, ps));
    }
}

proof fn lemma_tame_fail_calls(s: PeerView, ps: Seq<ParkedView>)
    ensures
        tame(s, fail_calls(s, ps)),
    decreases ps.len(),
{
    if ps.len() > 0 {
        let before = fail_calls(s, ps.drop_last());
        lemma_tame_fail_calls(s, ps.drop_last());
        assert(tame(before, fail_calls(s, ps)));
        lemma_tame_then(s, before, fail_calls(s, ps));
    }
}

proof fn lemma_tame_reply_offers(s: PeerView, atts: Seq<Attachment>, accept: bool)
    ensures
        tame(s, reply_offers(s, atts, accept)),
    decreases atts.len(),
{
    if atts.len() > 0 {
        let before = reply_offers(s, atts.drop_last(), accept);
        lemma_tame_reply_offers(s, atts.drop_last(), accept);
        assert(tame(before, reply_offers(s, atts, accept)));
        lemma_tame_then(s, before, reply_offers(s, atts, accept));
    }
}

proof fn lemma_tame_closed(s: PeerView, entries: Seq<(EpId, Cause)>)
    ensures
        tame(s, on_closed(s, entries)),
    decreases entries.len(),
{
    if entries.len() > 0 {
        let before = on_closed(s, entries.drop_last());
        lemma_tame_closed(s, entries.drop_last());
        let (ep, cause) = entries.last();
        lemma_tame_fail(before, ep, cause);
        assert(tame(before, on_closed(s, entries)));
        lemma_tame_then(s, before, on_closed(s, entries));
    }
}

/// Messages that still wait, wait for something.
proof fn lemma_settle_rest(parked: Seq<ParkedView>, tid: TransferId, got: Option<EpId>)
    requires
        forall|i: int| 0 <= i < parked.len() ==> (#[trigger] parked[i]).remaining.len() > 0,
    ensures
        forall|i: int|
            0 <= i < settle(parked, tid, got).0.len() ==> (#[trigger] settle(
                parked,
                tid,
                got,
            ).0[i]).remaining.len() > 0,
    decreases parked.len(),
{
    if parked.len() > 0 {
        let front = parked.drop_last();
        assert forall|i: int| 0 <= i < front.len() implies (#[trigger] front[i]).remaining.len()
            > 0 by {
            assert(front[i] == parked[i]);
        }
        lemma_settle_rest(front, tid, got);
        assert(parked[parked.len() - 1].remaining.len() > 0);
        let before = settle(front, tid, got).0;
        let rest = settle(parked, tid, got).0;
        assert forall|i: int| 0 <= i < rest.len() implies (#[trigger] rest[i]).remaining.len() > 0 by {
            if i < before.len() {
                assert(rest[i] == before[i]);
            }
        }
    }
}

/// A step that gives no authority keeps order.
proof fn lemma_tame_keeps_order(a: PeerView, b: PeerView)
    requires
        orderly(a),
        tame(a, b),
    ensures
        orderly(b),
{
}

// ---------------------------------------------------------------------- laws --

/// A fresh runtime is in order.
pub proof fn law_starts_in_order(lim: Limits)
    ensures
        orderly(initial(lim)),
{
}

/// What a frame may do to the authority held here, for every frame: it gives
/// none, except for the commit of a transfer, which gives the one endpoint it
/// names. An offer alone gives nothing.
pub proof fn law_only_commit_gives_authority(s: PeerView, f: FrameView)
    ensures
        match f {
            FrameView::Xfer(XferMsg::Commit { tid, ep, partner }) => process(s, f).0.handles.dom()
                == s.handles.dom().insert(ep),
            _ => process(s, f).0.handles.dom() == s.handles.dom(),
        },
{
    lemma_process(s, f);
}

/// An endpoint that failed stays failed, with the same cause, whatever
/// arrives.
pub proof fn law_failed_stays_failed(s: PeerView, f: FrameView, ep: EpId)
    requires
        s.handles.contains_key(ep),
        s.handles[ep].cause is Some,
    ensures
        process(s, f).0.handles.contains_key(ep),
        process(s, f).0.handles[ep] == s.handles[ep],
{
    lemma_process(s, f);
    assert(s.handles.dom().contains(ep));
}

/// Every frame keeps order.
pub proof fn law_frames_keep_order(s: PeerView, f: FrameView)
    requires
        orderly(s),
    ensures
        orderly(process(s, f).0),
{
    lemma_process_order(s, f);
}

/// The end of the fabric is final: no frame undoes it, or changes its cause.
pub proof fn law_terminal_is_final(s: PeerView, f: FrameView)
    requires
        s.terminal is Some,
    ensures
        process(s, f).0.terminal == s.terminal,
{
    lemma_process(s, f);
}

/// Without the fabric no endpoint is live, no call waits on one, and nothing
/// more is sent.
pub proof fn law_fabric_loss_fails_everything(s: PeerView, cause: Cause, ep: EpId, c: u32, f: FrameView)
    requires
        s.terminal is None,
    ensures
        ({
            let n = shut(s, cause);
            &&& n.terminal == Some(cause)
            &&& !n.is_live(ep)
            &&& s.is_live(ep) ==> n.handles[ep].cause == Some(cause)
            &&& s.waiters.contains_key(c) && s.is_live(s.waiters[c]) ==> !n.waiters.contains_key(c)
                && n.answers.contains_key(c) && n.answers[c] == Err::<
                crate::peer_model::CallView,
                FabError,
            >(FabError::Closed(cause))
            &&& emit(n, f) == n
            &&& emit_error(n, f) is Some
        }),
{
    if s.waiters.contains_key(c) && s.is_live(s.waiters[c]) {
        assert(s.live().contains(s.waiters[c]));
    }
}

/// Closing an endpoint answers every call that waits on it: none is left
/// hanging.
pub proof fn law_close_answers_calls(s: PeerView, ep: EpId, c: u32)
    requires
        s.is_live(ep),
    ensures
        ({
            let n = release(s, ep);
            &&& n.handles[ep].cause == Some(Cause::Graceful)
            &&& n.waiters.contains_key(c) ==> n.waiters[c] != ep
            &&& s.waiters.contains_key(c) && s.waiters[c] == ep ==> n.answers.contains_key(c)
                && n.answers[c] == Err::<crate::peer_model::CallView, FabError>(
                FabError::Closed(Cause::Graceful),
            )
        }),
{
    let told = emit(s, FrameView::Close { target: ep });
    assert(told.is_live(ep));
    assert(Set::<EpId>::empty().insert(ep).contains(ep));
}

/// What the application does keeps order too: calls, requests for endpoints,
/// replies, looks at a reply, closes, and the end of the fabric.
pub proof fn law_requests_keep_order(
    s: PeerView,
    ep: EpId,
    payload: Seq<u8>,
    local: EpId,
    corr: u32,
    caps: Seq<EpId>,
    tids: Seq<TransferId>,
    r: ReplyView,
    now: u64,
    cause: Cause,
)
    requires
        orderly(s),
        s.next_corr < u32::MAX,
    ensures
        orderly(call(s, ep, payload).0),
        orderly(create(s).0),
        orderly(reply(s, local, corr, payload, caps, tids).0),
        orderly(turn(s, r, now).0),
        orderly(release(s, ep)),
        orderly(retry(s)),
        orderly(shut(s, cause)),
{
    let f = crate::peer_model::plain(ep, (s.next_corr + 1) as u32, payload);
    lemma_hand_over_order(s, caps, tids);
    lemma_tame_release_all(s, caps);
    lemma_tame_keeps_order(s, release_all(s, caps));
    lemma_turn_order(s, r, now);
    lemma_tame_release(s, ep);
    lemma_tame_keeps_order(s, release(s, ep));
    lemma_tame_retry(s);
    lemma_tame_keeps_order(s, retry(s));
}

/// Endpoints that a reply carried off are no longer held here, and nothing
/// else is lost.
pub proof fn law_handed_over_is_gone(
    s: PeerView,
    local: EpId,
    corr: u32,
    payload: Seq<u8>,
    caps: Seq<EpId>,
    tids: Seq<TransferId>,
    ep: EpId,
)
    requires
        caps.len() == tids.len(),
        reply(s, local, corr, payload, caps, tids).1 is Ok,
    ensures
        ({
            let n = reply(s, local, corr, payload, caps, tids).0;
            &&& caps.contains(ep) ==> !n.handles.contains_key(ep)
            &&& !caps.contains(ep) && s.handles.contains_key(ep) ==> n.handles.contains_key(ep)
                && n.handles[ep] == s.handles[ep]
        }),
{
    lemma_hand_over(s, caps, tids);
}

/// A reply with an endpoint that failed goes nowhere, and none of its
/// endpoints stays live without a holder.
pub proof fn law_refused_reply_closes_its_endpoints(
    s: PeerView,
    local: EpId,
    corr: u32,
    payload: Seq<u8>,
    caps: Seq<EpId>,
    tids: Seq<TransferId>,
    ep: EpId,
)
    requires
        first_failed(s, caps) is Some,
        caps.contains(ep),
    ensures
        reply(s, local, corr, payload, caps, tids).1 == Err::<(), FabError>(
            FabError::Closed(first_failed(s, caps)->Some_0),
        ),
        !reply(s, local, corr, payload, caps, tids).0.is_live(ep),
{
    lemma_released(s, caps, ep);
}

proof fn lemma_released(s: PeerView, eps: Seq<EpId>, ep: EpId)
    requires
        eps.contains(ep),
    ensures
        !release_all(s, eps).is_live(ep),
    decreases eps.len(),
{
    let front = eps.drop_last();
    let before = release_all(s, front);
    lemma_tame_release(before, eps.last());
    if eps.last() != ep {
        let i = eps.index_of(ep);
        assert(front[i] == ep);
        lemma_released(s, front, ep);
        let n = release_all(s, eps);
        if n.handles.contains_key(ep) {
            assert(n.handles.dom().contains(ep));
            assert(before.handles.contains_key(ep));
        }
    }
}

/// An aborted transfer gives its sender the same authority back: the same
/// endpoint with the same partner, live, and receiving again.
pub proof fn law_abort_restores_sender(s: PeerView, r: ReplyView)
    requires
        s.terminal is None,
        r.at < r.slots.len(),
        !s.handles.contains_key(r.slots[r.at as int].1),
    ensures
        ({
            let (tid, ep, partner) = r.slots[r.at as int];
            let (n, t) = close_slot(s, r, XferLocal::Aborted);
            &&& n.is_live(ep)
            &&& n.handles[ep].partner == partner
            &&& n.theirs.contains_key(partner) && n.theirs[partner] == ep
            &&& t is Again && t->Again_0.aborted == r.aborted.push(ep)
        }),
{
}

/// A committed transfer gives its sender nothing back.
pub proof fn law_commit_restores_nothing(s: PeerView, r: ReplyView)
    requires
        r.at < r.slots.len(),
    ensures
        close_slot(s, r, XferLocal::Committed).0.handles == s.handles,
        close_slot(s, r, XferLocal::Committed).1 is Again,
        close_slot(s, r, XferLocal::Committed).1->Again_0.aborted == r.aborted,
{
}

/// A reply reports a commit only when all its transfers are through and none
/// came back.
pub proof fn law_committed_means_all_committed(s: PeerView, r: ReplyView, now: u64)
    requires
        turn(s, r, now).1 == TurnView::Done(
            Ok::<OutcomeView, FabError>(OutcomeView::Committed),
        ),
    ensures
        r.at >= r.slots.len(),
        r.aborted.len() == 0,
{
}

// -------------------------------------------------------------------- proofs --

/// What every frame keeps.
proof fn lemma_process(s: PeerView, f: FrameView)
    ensures
        ({
            let n = process(s, f).0;
            &&& n.handles.dom() == (match f {
                FrameView::Xfer(XferMsg::Commit { tid, ep, partner }) => s.handles.dom().insert(ep),
                _ => s.handles.dom(),
            })
            &&& forall|ep: EpId| #[trigger]
                s.handles.contains_key(ep) && s.handles[ep].cause is Some ==> n.handles[ep]
                    == s.handles[ep]
            &&& s.terminal is Some ==> n.terminal == s.terminal
        }),
{
    let s1 = PeerView { received: crate::peer_model::bump(s.received), ..s };
    let n = process(s, f).0;
    match f {
        FrameView::Hello { .. } | FrameView::Close { .. } | FrameView::Shutdown => {
            assert(n.handles.dom() =~= s.handles.dom());
        },
        FrameView::Grant { ep, partner, tid } => {},
        FrameView::Data(d) => {
            lemma_data(s1, d);
            assert forall|ep: EpId| #[trigger]
                s.handles.contains_key(ep) && s.handles[ep].cause is Some implies n.handles[ep]
                == s.handles[ep] by {
                assert(s1.handles.contains_key(ep));
            }
        },
        FrameView::ClosedNotify { entries } => {
            lemma_tame_closed(s1, entries);
            assert forall|ep: EpId| #[trigger]
                s.handles.contains_key(ep) && s.handles[ep].cause is Some implies n.handles[ep]
                == s.handles[ep] by {
                assert(s1.handles.contains_key(ep));
            }
        },
        FrameView::Create | FrameView::CreateAck { .. } | FrameView::Error(_) => {},
        FrameView::Xfer(x) => {
            lemma_xfer(s1, x);
            assert forall|ep: EpId| #[trigger]
                s.handles.contains_key(ep) && s.handles[ep].cause is Some implies n.handles[ep]
                == s.handles[ep] by {
                assert(s1.handles.contains_key(ep));
            }
        },
    }
}

/// A message gives no authority: up to what is parked, it is a tame step.
proof fn lemma_data(s: PeerView, d: DataView)
    ensures
        tame(s, PeerView { parked: s.parked, ..on_data(s, d) }),
        on_data(s, d).parked == s.parked || (d.attachments.len() > 0 && on_data(s, d).parked.len()
            == s.parked.len() + 1 && on_data(s, d).parked.drop_last() == s.parked && on_data(
            s,
            d,
        ).parked.last().remaining.len() > 0),
{
    let n = on_data(s, d);
    if d.attachments.len() > 0 {
        lemma_tame_reply_offers(s, d.attachments, false);
        lemma_tame_reply_offers(s, d.attachments, true);
        let accepted = reply_offers(s, d.attachments, true);
        if n.parked != s.parked {
            assert(n.parked.drop_last() =~= s.parked);
        }
        assert(tame(accepted, accepted.drop_one()));
        if s.live().len() + d.attachments.len() > s.lim.max_live_endpoints || s.terminal is Some {
            let refused = reply_offers(s, d.attachments, false);
            assert(refused.waiters == s.waiters && refused.answers == s.answers) by {
                lemma_offers_frame(s, d.attachments, false);
            }
        }
        assert(PeerView { parked: s.parked, ..n }.parked == s.parked);
    } else if s.theirs.contains_key(d.target) {
        let local = s.theirs[d.target];
        lemma_tame_deliver(
            s,
            InboundView {
                from: d.target,
                local,
                corr: d.corr,
                payload: d.payload,
                received: Seq::empty(),
                native: d.native,
                shared: d.shared,
            },
            true,
        );
    }
}

/// Answering offers touches no call.
proof fn lemma_offers_frame(s: PeerView, atts: Seq<Attachment>, accept: bool)
    ensures
        reply_offers(s, atts, accept).waiters == s.waiters,
        reply_offers(s, atts, accept).answers == s.answers,
    decreases atts.len(),
{
    if atts.len() > 0 {
        lemma_offers_frame(s, atts.drop_last(), accept);
    }
}

/// The state of a commit before the messages that waited for it are finished.
spec fn commit_mid(s: PeerView, tid: TransferId, ep: EpId, partner: EpId) -> PeerView {
    let held = PeerView { offers: s.offers.remove(tid), ..s }.with_handle(ep, partner);
    let known = PeerView { theirs: held.theirs.insert(partner, ep), ..held };
    PeerView {
        parked: settle(s.parked, tid, Some(ep)).0,
        ..decide(known, tid, XferLocal::Committed)
    }
}

/// The state of an abort before the messages that waited for it are lost.
spec fn abort_mid(s: PeerView, tid: TransferId) -> PeerView {
    PeerView {
        offers: s.offers.remove(tid),
        parked: settle(s.parked, tid, None).0,
        ..decide(s, tid, XferLocal::Aborted)
    }
}

proof fn lemma_commit(s: PeerView, tid: TransferId, ep: EpId, partner: EpId)
    ensures
        tame(commit_mid(s, tid, ep, partner), on_commit(s, tid, ep, partner)),
{
    let mid = commit_mid(s, tid, ep, partner);
    let done = settle(s.parked, tid, Some(ep)).1;
    lemma_tame_finish_all(mid, done);
    lemma_tame_emit(finish_all(mid, done), ack(tid));
    lemma_tame_then(mid, finish_all(mid, done), on_commit(s, tid, ep, partner));
}

proof fn lemma_abort(s: PeerView, tid: TransferId)
    ensures
        tame(abort_mid(s, tid), on_abort(s, tid)),
{
    let mid = abort_mid(s, tid);
    let done = settle(s.parked, tid, None).1;
    let lost = discard_all(mid, done);
    let failed = fail_calls(lost, done);
    lemma_tame_discard_all(mid, done);
    lemma_tame_fail_calls(lost, done);
    lemma_tame_then(mid, lost, failed);
    lemma_tame_emit(failed, ack(tid));
    if s.xfer_wait.contains_key(tid) {
        lemma_tame_then(mid, failed, emit(failed, ack(tid)));
    }
}

proof fn lemma_xfer(s: PeerView, x: XferMsg)
    ensures
        ({
            let n = on_xfer(s, x);
            &&& n.handles.dom() == (match x {
                XferMsg::Commit { tid, ep, partner } => s.handles.dom().insert(ep),
                _ => s.handles.dom(),
            })
            &&& forall|ep: EpId| #[trigger]
                s.handles.contains_key(ep) && s.handles[ep].cause is Some ==> n.handles[ep]
                    == s.handles[ep]
            &&& n.terminal == s.terminal
        }),
{
    match x {
        XferMsg::Commit { tid, ep, partner } => {
            let mid = commit_mid(s, tid, ep, partner);
            lemma_commit(s, tid, ep, partner);
            assert(mid.handles.dom() =~= s.handles.dom().insert(ep));
            let n = on_xfer(s, x);
            assert forall|e: EpId| #[trigger]
                s.handles.contains_key(e) && s.handles[e].cause is Some implies n.handles[e]
                == s.handles[e] by {
                assert(mid.handles.contains_key(e));
                assert(mid.handles[e] == s.handles[e]);
            }
        },
        XferMsg::Abort { tid } => {
            let mid = abort_mid(s, tid);
            lemma_abort(s, tid);
            let n = on_xfer(s, x);
            assert(mid.handles == s.handles);
            assert forall|e: EpId| #[trigger]
                s.handles.contains_key(e) && s.handles[e].cause is Some implies n.handles[e]
                == s.handles[e] by {
                assert(mid.handles.contains_key(e));
            }
        },
        _ => {},
    }
}

proof fn lemma_process_order(s: PeerView, f: FrameView)
    requires
        orderly(s),
    ensures
        orderly(process(s, f).0),
{
    let s1 = PeerView { received: crate::peer_model::bump(s.received), ..s };
    assert(orderly(s1));
    let n = process(s, f).0;
    match f {
        FrameView::Hello { .. } | FrameView::Close { .. } | FrameView::Shutdown => {},
        FrameView::Grant { ep, partner, tid } => {},
        FrameView::Data(d) => {
            lemma_data(s1, d);
            let plain = PeerView { parked: s1.parked, ..n };
            lemma_tame_keeps_order(s1, plain);
            if n.parked != s1.parked {
                assert forall|i: int| 0 <= i < n.parked.len() implies (#[trigger] n.parked[i]).remaining.len()
                    > 0 by {
                    if i < s1.parked.len() {
                        assert(n.parked.drop_last()[i] == n.parked[i]);
                        assert(s1.parked[i].remaining.len() > 0);
                    }
                }
            }
            assert forall|c: u32| #[trigger] n.waiters.contains_key(c) implies 1 <= c <= n.next_corr by {
                assert(plain.waiters.contains_key(c));
            }
            assert forall|c: u32| #[trigger] n.answers.contains_key(c) implies 1 <= c <= n.next_corr by {
                assert(plain.answers.contains_key(c));
            }
            assert forall|c: u32| !(#[trigger] n.waiters.contains_key(c) && n.answers.contains_key(c)) by {
                assert(!(plain.waiters.contains_key(c) && plain.answers.contains_key(c)));
            }
        },
        FrameView::ClosedNotify { entries } => {
            lemma_tame_closed(s1, entries);
            lemma_tame_keeps_order(s1, n);
        },
        FrameView::Create | FrameView::CreateAck { .. } | FrameView::Error(_) => {},
        FrameView::Xfer(x) => {
            match x {
                XferMsg::Commit { tid, ep, partner } => {
                    let mid = commit_mid(s1, tid, ep, partner);
                    lemma_settle_rest(s1.parked, tid, Some(ep));
                    assert(orderly(mid));
                    lemma_commit(s1, tid, ep, partner);
                    lemma_tame_keeps_order(mid, n);
                },
                XferMsg::Abort { tid } => {
                    let mid = abort_mid(s1, tid);
                    lemma_settle_rest(s1.parked, tid, None);
                    assert(orderly(mid));
                    lemma_abort(s1, tid);
                    lemma_tame_keeps_order(mid, n);
                },
                _ => {},
            }
        },
    }
}

/// Handing endpoints over touches neither calls nor queues.
proof fn lemma_hand_over_order(s: PeerView, caps: Seq<EpId>, tids: Seq<TransferId>)
    requires
        orderly(s),
    ensures
        orderly(hand_over(s, caps, tids)),
    decreases caps.len(),
{
    if caps.len() > 0 {
        lemma_hand_over_order(s, caps.drop_last(), tids.drop_last());
    }
}

proof fn lemma_close_slot_order(s: PeerView, r: ReplyView, how: XferLocal)
    requires
        orderly(s),
    ensures
        orderly(close_slot(s, r, how).0),
{
    let tid = r.slots[r.at as int].0;
    let taken = PeerView { xfer_done: s.xfer_done.remove(tid), ..s };
    assert(orderly(taken));
    lemma_tame_release_all(taken, r.aborted);
    lemma_tame_keeps_order(taken, release_all(taken, r.aborted));
}

proof fn lemma_give_up_order(s: PeerView, r: ReplyView)
    requires
        orderly(s),
    ensures
        orderly(release_all(s, r.aborted)),
{
    lemma_tame_release_all(s, r.aborted);
    lemma_tame_keeps_order(s, release_all(s, r.aborted));
}

proof fn lemma_turn_order(s: PeerView, r: ReplyView, now: u64)
    requires
        orderly(s),
    ensures
        orderly(turn(s, r, now).0),
{
    if r.at < r.slots.len() {
        let tid = r.slots[r.at as int].0;
        let asked = ask_status(s, tid).0;
        assert(orderly(asked));
        lemma_give_up_order(asked, r);
        let taken = PeerView { status_done: s.status_done.remove(tid), ..s };
        assert(orderly(taken));
        lemma_close_slot_order(taken, r, XferLocal::Committed);
        lemma_close_slot_order(taken, r, XferLocal::Aborted);
        lemma_give_up_order(taken, r);
        let waited = PeerView { status_wait: s.status_wait.remove(tid), ..s };
        assert(orderly(waited));
        lemma_give_up_order(waited, r);
        lemma_close_slot_order(s, r, s.xfer_done[tid]);
    }
}

} // verus!

//! When a message that carries endpoints reaches the application: not at the
//! offer, but at the commit that decides the last of its transfers.

use vstd::prelude::*;

use crate::fabric_error::{Cause, FabError};
use crate::frame::{Attachment, DataView, FrameView, XferMsg};
use crate::id::{EpId, TransferId};
use crate::peer_laws::orderly;
use crate::peer_model::{
    ack, answers_call, bump, decide, deliver, discard_all, emit, fail_calls, finish, finish_all,
    on_abort, on_closed, on_commit, on_data, process, release, release_all, reply_offers, settle,
    shut, strike, struck, CallView, InboundView, ParkedView, PeerView, StalledView, XferLocal,
};
use crate::queue::total_cost;
use crate::shared::counted;

verus! {

// ------------------------------------------------------------ what is given out --

/// The messages that the application gets, in order: those it can take now,
/// and those that wait for room.
pub open spec fn given_out(s: PeerView) -> Seq<InboundView> {
    s.inbound.items.map_values(|e: (InboundView, usize)| e.0) + s.stalled.map_values(
        |e: StalledView| e.item,
    )
}

/// Did the call get an answer in this step that is not a failure?
pub open spec fn newly_answered(a: PeerView, b: PeerView, corr: u32) -> bool {
    &&& b.answers.contains_key(corr)
    &&& b.answers[corr] is Ok
    &&& !(a.answers.contains_key(corr) && a.answers[corr] == b.answers[corr])
}

/// The message that a parked one is delivered as.
pub open spec fn as_message(p: ParkedView) -> InboundView {
    InboundView {
        from: p.from,
        local: p.local,
        corr: p.corr,
        payload: p.payload,
        received: p.got,
        native: None,
        shared: None,
    }
}

/// The answer that a parked message gives to its call.
pub open spec fn as_answer(p: ParkedView) -> CallView {
    CallView { payload: p.payload, received: p.got, native: None, shared: None }
}

/// Those of the parked messages that answer no call, as they are delivered.
pub open spec fn messages(ps: Seq<ParkedView>) -> Seq<InboundView>
    decreases ps.len(),
{
    if ps.len() == 0 {
        Seq::empty()
    } else if ps.last().is_response {
        messages(ps.drop_last())
    } else {
        messages(ps.drop_last()).push(as_message(ps.last()))
    }
}

// ------------------------------------------------------------------- the parked --

/// A parked message after a frame. It leaves when a frame decides the last of
/// its transfers.
pub open spec fn after_frame(p: ParkedView, f: FrameView) -> Option<ParkedView> {
    let q = match f {
        FrameView::Xfer(XferMsg::Commit { tid, ep, .. }) => if p.remaining.contains(tid) {
            strike(p, tid, Some(ep))
        } else {
            p
        },
        FrameView::Xfer(XferMsg::Abort { tid }) => if p.remaining.contains(tid) {
            strike(p, tid, None)
        } else {
            p
        },
        _ => p,
    };
    if q != p && q.remaining.len() == 0 {
        None
    } else {
        Some(q)
    }
}

/// The parked messages that stay after a frame, in order.
pub open spec fn still_parked(ps: Seq<ParkedView>, f: FrameView) -> Seq<ParkedView>
    decreases ps.len(),
{
    if ps.len() == 0 {
        Seq::empty()
    } else {
        match after_frame(ps.last(), f) {
            Some(q) => still_parked(ps.drop_last(), f).push(q),
            None => still_parked(ps.drop_last(), f),
        }
    }
}

/// The parked messages that a frame lets through, with their endpoints: those
/// that waited for nothing but the transfer which it commits.
pub open spec fn let_through(ps: Seq<ParkedView>, f: FrameView) -> Seq<ParkedView>
    decreases ps.len(),
{
    if ps.len() == 0 {
        Seq::empty()
    } else {
        match (f, after_frame(ps.last(), f)) {
            (FrameView::Xfer(XferMsg::Commit { tid, ep, .. }), None) => let_through(
                ps.drop_last(),
                f,
            ).push(strike(ps.last(), tid, Some(ep))),
            _ => let_through(ps.drop_last(), f),
        }
    }
}

/// A message with endpoints as it is parked when it arrives.
pub open spec fn held_back(s: PeerView, d: DataView) -> ParkedView {
    ParkedView {
        from: d.target,
        local: s.theirs[d.target],
        corr: d.corr,
        payload: d.payload,
        remaining: d.attachments.map_values(|a: Attachment| a.tid),
        got: Seq::empty(),
        is_response: answers_call(s, d),
    }
}

/// Is there room for the endpoints that a message offers?
pub open spec fn has_room(s: PeerView, d: DataView) -> bool {
    s.live().len() + d.attachments.len() <= s.lim.max_live_endpoints && s.terminal is None
}

/// The frames that answer the offers of a message, in order.
pub open spec fn offer_replies(atts: Seq<Attachment>, accept: bool) -> Seq<FrameView> {
    atts.map_values(
        |a: Attachment|
            FrameView::Xfer(
                if accept {
                    XferMsg::Accept { tid: a.tid }
                } else {
                    XferMsg::Reject { tid: a.tid }
                },
            ),
    )
}

/// The frames that wait to be sent, in order.
pub open spec fn outgoing(s: PeerView) -> Seq<FrameView> {
    s.out.items.map_values(|e: (FrameView, usize)| e.0)
}

/// The cost of an answer to an offer.
pub const OFFER_REPLY_COST: usize = 22;

/// Can so many answers to offers be queued?
pub open spec fn can_queue(s: PeerView, n: nat) -> bool {
    &&& !s.out.closed
    &&& s.out.items.len() + n <= s.out.max_msgs
    &&& total_cost(s.out.items) + n * OFFER_REPLY_COST <= s.out.max_bytes
}

// ------------------------------------------------------------------------ laws --

/// Offers are answered each by itself, in order, if the queue has room for the
/// answers: all are accepted if there is room for the endpoints, and all
/// refused otherwise. Nothing is delivered at the offer, and no call gets its
/// answer. An accepted message on a known conversation is parked with all its
/// transfers; a refused one is not kept.
pub proof fn law_an_offer_delivers_nothing(s: PeerView, d: DataView, corr: u32)
    requires
        d.attachments.len() > 0,
    ensures
        ({
            let n = process(s, FrameView::Data(d)).0;
            &&& given_out(n) == given_out(s)
            &&& !newly_answered(s, n, corr)
            &&& can_queue(s, d.attachments.len()) ==> outgoing(n) == outgoing(s) + offer_replies(
                d.attachments,
                has_room(s, d),
            )
            &&& n.parked == (if has_room(s, d) && s.theirs.contains_key(d.target) {
                s.parked.push(held_back(s, d))
            } else {
                s.parked
            })
        }),
{
    let s1 = PeerView { received: bump(s.received), ..s };
    assert(s1.live() =~= s.live());
    assert(outgoing(s1) == outgoing(s));
    lemma_offered(s1, d, corr);
}

/// What a message that offers endpoints does as it comes in, and what becomes
/// of it. The offers are all accepted if there is room for the endpoints, and
/// all refused otherwise, the answers queued in their order if the queue has
/// room; nothing is delivered, and no call gets its answer. A message that is
/// refused, or comes from a conversation that is not known, is not kept. An
/// accepted one is parked until each of its transfers is committed, and no
/// longer, if none is called off.
pub proof fn law_offers_wait_for_their_commits(
    s: PeerView,
    d: DataView,
    corr: u32,
    fs: Seq<FrameView>,
)
    requires
        d.attachments.len() > 0,
    ensures
        ({
            let n = on_data(s, d);
            let kept = has_room(s, d) && s.theirs.contains_key(d.target);
            &&& given_out(n) == given_out(s)
            &&& !newly_answered(s, n, corr)
            &&& can_queue(s, d.attachments.len()) ==> outgoing(n) == outgoing(s) + offer_replies(
                d.attachments,
                has_room(s, d),
            )
            &&& n.parked == (if kept {
                s.parked.push(held_back(s, d))
            } else {
                s.parked
            })
        }),
        (forall|k: int|
            0 <= k < d.attachments.len() ==> !called_off_in(fs, (#[trigger] d.attachments[k]).tid))
            ==> (after_frames(held_back(s, d), fs) is None <==> forall|k: int|
            0 <= k < d.attachments.len() ==> committed_in(fs, (#[trigger] d.attachments[k]).tid)),
{
    lemma_offered(s, d, corr);
    if forall|k: int|
        0 <= k < d.attachments.len() ==> !called_off_in(fs, (#[trigger] d.attachments[k]).tid) {
        law_delivered_after_every_commit(s, d, fs);
    }
}

/// What a frame gives to the application. The commit of a transfer lets those
/// parked messages through that waited for nothing else, in order; a plain
/// message may be delivered as it comes; no other frame gives anything. A call
/// gets an answer that is no failure from a message let through, or from a
/// plain message.
pub proof fn law_only_commits_deliver_the_parked(s: PeerView, f: FrameView, corr: u32)
    requires
        orderly(s),
    ensures
        ({
            let n = process(s, f).0;
            &&& match f {
                FrameView::Xfer(XferMsg::Commit { .. }) => given_out(n) == given_out(s) + (
                if s.terminal is None {
                    messages(let_through(s.parked, f))
                } else {
                    Seq::empty()
                }),
                FrameView::Data(d) => d.attachments.len() > 0 ==> given_out(n) == given_out(s),
                _ => given_out(n) == given_out(s),
            }
            &&& newly_answered(s, n, corr) ==> match f {
                FrameView::Xfer(XferMsg::Commit { .. }) => exists|i: int|
                    0 <= i < let_through(s.parked, f).len() && responds(
                        #[trigger] let_through(s.parked, f)[i],
                        corr,
                    ) && n.answers[corr] == Ok::<CallView, FabError>(
                        as_answer(let_through(s.parked, f)[i]),
                    ),
                FrameView::Data(d) => d.attachments.len() == 0 && d.corr == corr,
                _ => false,
            }
        }),
{
    let s1 = PeerView { received: bump(s.received), ..s };
    assert(orderly(s1));
    let n = process(s, f).0;
    assert(given_out(s1) == given_out(s));
    assert(newly_answered(s, n, corr) == newly_answered(s1, n, corr));
    match f {
        FrameView::Data(d) => {
            if d.attachments.len() > 0 {
                law_an_offer_delivers_nothing(s, d, corr);
            } else {
                lemma_plain(s1, d, corr);
            }
        },
        FrameView::Xfer(x) => {
            match x {
                XferMsg::Commit { tid, ep, partner } => {
                    lemma_settled(s1.parked, tid, Some(ep), f);
                    lemma_commit_gives(s1, tid, ep, partner, corr);
                },
                XferMsg::Abort { tid } => {
                    lemma_quiet_abort(s1, tid);
                    lemma_quiet_gives_nothing(s1, n);
                },
                _ => {
                    assert(quiet(s1, n));
                    lemma_quiet_gives_nothing(s1, n);
                },
            }
        },
        FrameView::ClosedNotify { entries } => {
            lemma_quiet_closed(s1, entries);
            lemma_quiet_gives_nothing(s1, n);
        },
        _ => {
            assert(quiet(s1, n));
            lemma_quiet_gives_nothing(s1, n);
        },
    }
}

/// Does the parked message answer this call?
pub open spec fn responds(p: ParkedView, corr: u32) -> bool {
    p.is_response && p.corr == corr
}

/// What is parked after a frame is what stays of the parked, and behind it
/// the message that the frame brought, if it is parked.
pub proof fn law_the_parked_follow_the_frames(s: PeerView, f: FrameView)
    requires
        orderly(s),
    ensures
        process(s, f).0.parked == (match f {
            FrameView::Data(d) => if d.attachments.len() > 0 && has_room(s, d)
                && s.theirs.contains_key(d.target) {
                s.parked.push(held_back(s, d))
            } else {
                s.parked
            },
            _ => still_parked(s.parked, f),
        }),
        f is Data ==> still_parked(s.parked, f) == s.parked,
{
    let s1 = PeerView { received: bump(s.received), ..s };
    crate::peer_laws::law_frames_keep_order(s, f);
    match f {
        FrameView::Data(d) => {
            lemma_none_leave(s.parked, f);
            if d.attachments.len() > 0 {
                law_an_offer_delivers_nothing(s, d, 0);
            } else {
                lemma_plain(s1, d, 0);
            }
        },
        FrameView::Xfer(XferMsg::Commit { tid, ep, partner }) => {
            lemma_settled(s.parked, tid, Some(ep), f);
            lemma_commit_gives(s1, tid, ep, partner, 0);
        },
        FrameView::Xfer(XferMsg::Abort { tid }) => {
            lemma_settled(s.parked, tid, None, f);
            lemma_quiet_abort(s1, tid);
        },
        FrameView::ClosedNotify { entries } => {
            lemma_none_leave(s.parked, f);
            lemma_quiet_closed(s1, entries);
        },
        _ => {
            lemma_none_leave(s.parked, f);
        },
    }
}

/// A parked message after frames that came one after the other, in whatever
/// they were interleaved with: requests leave the parked alone.
pub open spec fn after_frames(p: ParkedView, fs: Seq<FrameView>) -> Option<ParkedView>
    decreases fs.len(),
{
    if fs.len() == 0 {
        Some(p)
    } else {
        match after_frames(p, fs.drop_last()) {
            Some(q) => after_frame(q, fs.last()),
            None => None,
        }
    }
}

/// Does the frame commit the transfer?
pub open spec fn commits(f: FrameView, tid: TransferId) -> bool {
    f matches FrameView::Xfer(XferMsg::Commit { tid: t, .. }) && t == tid
}

/// Does the frame call the transfer off?
pub open spec fn calls_off(f: FrameView, tid: TransferId) -> bool {
    f matches FrameView::Xfer(XferMsg::Abort { tid: t }) && t == tid
}

/// Was the transfer committed by one of the frames?
pub open spec fn committed_in(fs: Seq<FrameView>, tid: TransferId) -> bool {
    exists|i: int| 0 <= i < fs.len() && commits(#[trigger] fs[i], tid)
}

/// Was the transfer called off by one of the frames?
pub open spec fn called_off_in(fs: Seq<FrameView>, tid: TransferId) -> bool {
    exists|i: int| 0 <= i < fs.len() && calls_off(#[trigger] fs[i], tid)
}

/// A message with endpoints waits for each of its transfers: as long as one of
/// them is neither committed nor called off, it is parked, as it came but for
/// the endpoints that arrived. When it leaves, each was decided; so if none
/// was called off, each was committed.
pub proof fn law_a_message_waits_for_every_commit(p: ParkedView, fs: Seq<FrameView>, tid: TransferId)
    requires
        p.remaining.contains(tid),
    ensures
        match after_frames(p, fs) {
            Some(q) => {
                &&& q.from == p.from && q.local == p.local && q.corr == p.corr && q.payload == p.payload
                    && q.is_response == p.is_response
                &&& q.remaining.contains(tid) == !(committed_in(fs, tid) || called_off_in(fs, tid))
            },
            None => committed_in(fs, tid) || called_off_in(fs, tid),
        },
        after_frames(p, fs) is None && !called_off_in(fs, tid) ==> committed_in(fs, tid),
    decreases fs.len(),
{
    if fs.len() > 0 {
        let front = fs.drop_last();
        let f = fs.last();
        law_a_message_waits_for_every_commit(p, front, tid);
        lemma_one_more(fs, tid);
        if let Some(q) = after_frames(p, front) {
            match f {
                FrameView::Xfer(XferMsg::Commit { tid: t, ep, .. }) => {
                    lemma_struck(q.remaining, t, tid);
                    if q.remaining.contains(t) && struck(q.remaining, t).len() == 0 && t != tid {
                        assert(!struck(q.remaining, t).contains(tid));
                    }
                },
                FrameView::Xfer(XferMsg::Abort { tid: t }) => {
                    lemma_struck(q.remaining, t, tid);
                    if q.remaining.contains(t) && struck(q.remaining, t).len() == 0 && t != tid {
                        assert(!struck(q.remaining, t).contains(tid));
                    }
                },
                _ => {},
            }
        }
    }
}

/// A message with endpoints, of which none is called off, leaves the parked
/// once each of its transfers is committed, and not before.
pub proof fn law_delivered_after_every_commit(s: PeerView, d: DataView, fs: Seq<FrameView>)
    requires
        d.attachments.len() > 0,
        forall|k: int|
            0 <= k < d.attachments.len() ==> !called_off_in(fs, (#[trigger] d.attachments[k]).tid),
    ensures
        after_frames(held_back(s, d), fs) is None <==> forall|k: int|
            0 <= k < d.attachments.len() ==> committed_in(fs, (#[trigger] d.attachments[k]).tid),
{
    let p = held_back(s, d);
    assert forall|k: int| 0 <= k < d.attachments.len() implies p.remaining.contains(
        (#[trigger] d.attachments[k]).tid,
    ) by {
        assert(p.remaining[k] == d.attachments[k].tid);
    }
    lemma_waits_for_its_own(p, fs);
    if after_frames(p, fs) is None {
        assert forall|k: int| 0 <= k < d.attachments.len() implies committed_in(
            fs,
            (#[trigger] d.attachments[k]).tid,
        ) by {
            law_a_message_waits_for_every_commit(p, fs, d.attachments[k].tid);
        }
    } else {
        let q = after_frames(p, fs)->Some_0;
        let t = q.remaining[0];
        assert(q.remaining.contains(t));
        assert(p.remaining.contains(t));
        let k = p.remaining.index_of(t);
        assert(d.attachments[k].tid == t);
        law_a_message_waits_for_every_commit(p, fs, t);
    }
}

/// A parked message waits for some of its transfers, and for no others.
proof fn lemma_waits_for_its_own(p: ParkedView, fs: Seq<FrameView>)
    requires
        p.remaining.len() > 0,
    ensures
        after_frames(p, fs) matches Some(q) ==> q.remaining.len() > 0 && forall|t: TransferId| #[trigger]
            q.remaining.contains(t) ==> p.remaining.contains(t),
    decreases fs.len(),
{
    if fs.len() > 0 {
        lemma_waits_for_its_own(p, fs.drop_last());
        if let Some(q) = after_frames(p, fs.drop_last()) {
            if let Some(n) = after_frame(q, fs.last()) {
                assert forall|t: TransferId| #[trigger] n.remaining.contains(t) implies p.remaining.contains(
                    t,
                ) by {
                    match fs.last() {
                        FrameView::Xfer(XferMsg::Commit { tid, .. }) => lemma_struck(q.remaining, tid, t),
                        FrameView::Xfer(XferMsg::Abort { tid }) => lemma_struck(q.remaining, tid, t),
                        _ => {},
                    }
                    assert(q.remaining.contains(t));
                }
            }
        }
    }
}

/// The application's requests leave the parked alone.
pub proof fn law_requests_leave_the_parked(
    s: PeerView,
    ep: EpId,
    payload: Seq<u8>,
    local: EpId,
    corr: u32,
    caps: Seq<EpId>,
    tids: Seq<TransferId>,
    r: crate::peer_model::ReplyView,
    now: u64,
    cause: Cause,
)
    ensures
        crate::peer_model::call(s, ep, payload).0.parked == s.parked,
        crate::peer_model::create(s).0.parked == s.parked,
        crate::peer_model::reply(s, local, corr, payload, caps, tids).0.parked == s.parked,
        crate::peer_model::turn(s, r, now).0.parked == s.parked,
        release(s, ep).parked == s.parked,
        crate::peer_model::retry(s).parked == s.parked,
        shut(s, cause).parked == s.parked,
{
    lemma_handed_parked(s, caps, tids);
    let given = crate::peer_model::hand_over(s, caps, tids);
    lemma_released_parked(s, caps);
    if s.stalled.len() > 0 {
        let rest = PeerView { stalled: s.stalled.skip(1), ..s };
        let dropped = rest.drop_one();
        lemma_released_parked(rest, s.stalled[0].item.received);
        lemma_released_parked(dropped, s.stalled[0].item.received);
    }
    if r.at < r.slots.len() {
        let tid = r.slots[r.at as int].0;
        let t1 = PeerView { status_done: s.status_done.remove(tid), ..s };
        let t2 = PeerView { status_wait: s.status_wait.remove(tid), ..s };
        let t3 = PeerView { xfer_done: s.xfer_done.remove(tid), ..s };
        let t4 = PeerView { xfer_done: t1.xfer_done.remove(tid), ..t1 };
        let t5 = crate::peer_model::ask_status(s, tid).0;
        lemma_released_parked(s, r.aborted);
        lemma_released_parked(t1, r.aborted);
        lemma_released_parked(t2, r.aborted);
        lemma_released_parked(t3, r.aborted);
        lemma_released_parked(t4, r.aborted);
        lemma_released_parked(t5, r.aborted);
    }
}

// ---------------------------------------------------------------------- proofs --

proof fn lemma_released_parked(s: PeerView, eps: Seq<EpId>)
    ensures
        release_all(s, eps).parked == s.parked,
    decreases eps.len(),
{
    if eps.len() > 0 {
        lemma_released_parked(s, eps.drop_last());
    }
}

proof fn lemma_handed_parked(s: PeerView, caps: Seq<EpId>, tids: Seq<TransferId>)
    ensures
        crate::peer_model::hand_over(s, caps, tids).parked == s.parked,
    decreases caps.len(),
{
    if caps.len() > 0 {
        lemma_handed_parked(s, caps.drop_last(), tids.drop_last());
    }
}

/// Striking a transfer takes out that one alone.
proof fn lemma_struck(s: Seq<TransferId>, t: TransferId, tid: TransferId)
    ensures
        struck(s, t).contains(tid) == (s.contains(tid) && tid != t),
    decreases s.len(),
{
    reveal(Seq::filter);
    if s.len() > 0 {
        let front = s.drop_last();
        let a = struck(front, t);
        lemma_struck(front, t, tid);
        assert(s.contains(tid) == (front.contains(tid) || s.last() == tid)) by {
            if s.contains(tid) {
                let i = s.index_of(tid);
                if i < front.len() {
                    assert(front[i] == tid);
                }
            }
            if front.contains(tid) {
                assert(s[front.index_of(tid)] == tid);
            }
            assert(s[s.len() - 1] == s.last());
        }
        if s.last() != t {
            let b = struck(s, t);
            assert(b == a.push(s.last()));
            if a.contains(tid) {
                assert(b[a.index_of(tid)] == tid);
            }
            if b.contains(tid) {
                let i = b.index_of(tid);
                if i < a.len() {
                    assert(a[i] == tid);
                }
            }
            assert(b[a.len() as int] == s.last());
        }
    }
}

/// One more frame decides what it decides.
proof fn lemma_one_more(fs: Seq<FrameView>, tid: TransferId)
    requires
        fs.len() > 0,
    ensures
        committed_in(fs, tid) == (committed_in(fs.drop_last(), tid) || commits(fs.last(), tid)),
        called_off_in(fs, tid) == (called_off_in(fs.drop_last(), tid) || calls_off(fs.last(), tid)),
{
    let front = fs.drop_last();
    if committed_in(front, tid) {
        let i = choose|i: int| 0 <= i < front.len() && commits(#[trigger] front[i], tid);
        assert(commits(fs[i], tid));
    }
    if called_off_in(front, tid) {
        let i = choose|i: int| 0 <= i < front.len() && calls_off(#[trigger] front[i], tid);
        assert(calls_off(fs[i], tid));
    }
    if committed_in(fs, tid) {
        let i = choose|i: int| 0 <= i < fs.len() && commits(#[trigger] fs[i], tid);
        if i < front.len() {
            assert(commits(front[i], tid));
        }
    }
    if called_off_in(fs, tid) {
        let i = choose|i: int| 0 <= i < fs.len() && calls_off(#[trigger] fs[i], tid);
        if i < front.len() {
            assert(calls_off(front[i], tid));
        }
    }
    assert(fs[fs.len() - 1] == fs.last());
}

/// A frame that decides no transfer lets nothing go.
proof fn lemma_none_leave(ps: Seq<ParkedView>, f: FrameView)
    requires
        !(f matches FrameView::Xfer(XferMsg::Commit { .. })),
        !(f matches FrameView::Xfer(XferMsg::Abort { .. })),
    ensures
        still_parked(ps, f) == ps,
    decreases ps.len(),
{
    if ps.len() > 0 {
        lemma_none_leave(ps.drop_last(), f);
        assert(ps.drop_last().push(ps.last()) =~= ps);
    }
}

/// Deciding a transfer is what the frame that decides it does to the parked.
proof fn lemma_settled(ps: Seq<ParkedView>, tid: TransferId, got: Option<EpId>, f: FrameView)
    requires
        match f {
            FrameView::Xfer(XferMsg::Commit { tid: t, ep, .. }) => t == tid && got == Some(ep),
            FrameView::Xfer(XferMsg::Abort { tid: t }) => t == tid && got is None,
            _ => false,
        },
    ensures
        settle(ps, tid, got).0 == still_parked(ps, f),
        got is Some ==> settle(ps, tid, got).1 == let_through(ps, f),
    decreases ps.len(),
{
    if ps.len() > 0 {
        lemma_settled(ps.drop_last(), tid, got, f);
        let p = ps.last();
        if p.remaining.contains(tid) {
            lemma_struck(p.remaining, tid, tid);
            assert(strike(p, tid, got).remaining != p.remaining);
        }
    }
}

/// A step that gives nothing to the application.
spec fn quiet(a: PeerView, b: PeerView) -> bool {
    &&& b.inbound.items == a.inbound.items
    &&& b.stalled == a.stalled
    &&& b.inbound.closed == a.inbound.closed || b.inbound.closed
    &&& forall|c: u32| !#[trigger] newly_answered(a, b, c)
}

proof fn lemma_quiet_gives_nothing(a: PeerView, b: PeerView)
    requires
        quiet(a, b),
    ensures
        given_out(b) == given_out(a),
{
}

proof fn lemma_quiet_then(a: PeerView, b: PeerView, c: PeerView)
    requires
        quiet(a, b),
        quiet(b, c),
    ensures
        quiet(a, c),
{
    assert forall|k: u32| !#[trigger] newly_answered(a, c, k) by {
        assert(!newly_answered(a, b, k));
        assert(!newly_answered(b, c, k));
    }
}

proof fn lemma_quiet_release(s: PeerView, ep: EpId)
    ensures
        quiet(s, release(s, ep)),
        release(s, ep).parked == s.parked,
{
}

proof fn lemma_quiet_release_all(s: PeerView, eps: Seq<EpId>)
    ensures
        quiet(s, release_all(s, eps)),
        release_all(s, eps).parked == s.parked,
        release_all(s, eps).terminal == s.terminal,
        release_all(s, eps).inbound == s.inbound,
    decreases eps.len(),
{
    if eps.len() > 0 {
        let before = release_all(s, eps.drop_last());
        lemma_quiet_release_all(s, eps.drop_last());
        lemma_quiet_release(before, eps.last());
        lemma_quiet_then(s, before, release_all(s, eps));
    }
}

proof fn lemma_quiet_discard_all(s: PeerView, ps: Seq<ParkedView>)
    ensures
        quiet(s, discard_all(s, ps)),
        discard_all(s, ps).parked == s.parked,
    decreases ps.len(),
{
    if ps.len() > 0 {
        let before = discard_all(s, ps.drop_last());
        lemma_quiet_discard_all(s, ps.drop_last());
        lemma_quiet_release_all(before, ps.last().got);
        lemma_quiet_then(s, before, discard_all(s, ps));
    }
}

proof fn lemma_quiet_fail_calls(s: PeerView, ps: Seq<ParkedView>)
    ensures
        quiet(s, fail_calls(s, ps)),
        fail_calls(s, ps).parked == s.parked,
    decreases ps.len(),
{
    if ps.len() > 0 {
        let before = fail_calls(s, ps.drop_last());
        lemma_quiet_fail_calls(s, ps.drop_last());
        assert(quiet(before, fail_calls(s, ps)));
        lemma_quiet_then(s, before, fail_calls(s, ps));
    }
}

proof fn lemma_quiet_abort(s: PeerView, tid: TransferId)
    ensures
        quiet(s, on_abort(s, tid)),
        on_abort(s, tid).parked == settle(s.parked, tid, None).0,
{
    let (rest, done) = settle(s.parked, tid, None);
    let mid = PeerView {
        offers: s.offers.remove(tid),
        parked: rest,
        ..decide(s, tid, XferLocal::Aborted)
    };
    assert(quiet(s, mid));
    lemma_quiet_discard_all(mid, done);
    let lost = discard_all(mid, done);
    lemma_quiet_then(s, mid, lost);
    lemma_quiet_fail_calls(lost, done);
    let failed = fail_calls(lost, done);
    lemma_quiet_then(s, lost, failed);
    assert(quiet(failed, emit(failed, ack(tid))));
    lemma_quiet_then(s, failed, emit(failed, ack(tid)));
}

proof fn lemma_quiet_closed(s: PeerView, entries: Seq<(EpId, Cause)>)
    ensures
        quiet(s, on_closed(s, entries)),
        on_closed(s, entries).parked == s.parked,
    decreases entries.len(),
{
    if entries.len() > 0 {
        let before = on_closed(s, entries.drop_last());
        lemma_quiet_closed(s, entries.drop_last());
        assert(quiet(before, on_closed(s, entries)));
        lemma_quiet_then(s, before, on_closed(s, entries));
    }
}

proof fn lemma_quiet_offers(s: PeerView, atts: Seq<Attachment>, accept: bool)
    ensures
        quiet(s, reply_offers(s, atts, accept)),
        reply_offers(s, atts, accept) == (PeerView {
            out: reply_offers(s, atts, accept).out,
            sent: reply_offers(s, atts, accept).sent,
            ..s
        }),
    decreases atts.len(),
{
    if atts.len() > 0 {
        let before = reply_offers(s, atts.drop_last(), accept);
        lemma_quiet_offers(s, atts.drop_last(), accept);
        assert(quiet(before, reply_offers(s, atts, accept)));
        lemma_quiet_then(s, before, reply_offers(s, atts, accept));
    }
}

proof fn lemma_queued(s: PeerView, atts: Seq<Attachment>, accept: bool)
    requires
        can_queue(s, atts.len()),
    ensures
        ({
            let n = reply_offers(s, atts, accept);
            &&& outgoing(n) == outgoing(s) + offer_replies(atts, accept)
            &&& n.out.items.len() == s.out.items.len() + atts.len()
            &&& total_cost(n.out.items) == total_cost(s.out.items) + atts.len() * OFFER_REPLY_COST
            &&& n.out == (crate::queue::QueueView { items: n.out.items, ..s.out })
        }),
    decreases atts.len(),
{
    if atts.len() > 0 {
        let front = atts.drop_last();
        lemma_queued(s, front, accept);
        let m = reply_offers(s, front, accept);
        let n = reply_offers(s, atts, accept);
        let f = FrameView::Xfer(
            if accept {
                XferMsg::Accept { tid: atts.last().tid }
            } else {
                XferMsg::Reject { tid: atts.last().tid }
            },
        );
        assert(f.cost() == 22);
        assert(counted(f.cost()) == OFFER_REPLY_COST);
        assert(m.out.admits(OFFER_REPLY_COST));
        assert(n.out.items == m.out.items.push((f, OFFER_REPLY_COST)));
        assert(n.out.items.drop_last() =~= m.out.items);
        assert(offer_replies(atts, accept) =~= offer_replies(front, accept).push(f));
        assert(outgoing(n) =~= outgoing(m).push(f));
    } else {
        assert(offer_replies(atts, accept) =~= Seq::empty());
        assert(outgoing(s) + Seq::<FrameView>::empty() =~= outgoing(s));
    }
}

/// What a message that offers endpoints does as it comes in.
proof fn lemma_offered(s: PeerView, d: DataView, corr: u32)
    requires
        d.attachments.len() > 0,
    ensures
        ({
            let n = on_data(s, d);
            &&& given_out(n) == given_out(s)
            &&& !newly_answered(s, n, corr)
            &&& can_queue(s, d.attachments.len()) ==> outgoing(n) == outgoing(s) + offer_replies(
                d.attachments,
                has_room(s, d),
            )
            &&& n.parked == (if has_room(s, d) && s.theirs.contains_key(d.target) {
                s.parked.push(held_back(s, d))
            } else {
                s.parked
            })
        }),
{
    lemma_quiet_offers(s, d.attachments, true);
    lemma_quiet_offers(s, d.attachments, false);
    if can_queue(s, d.attachments.len()) {
        lemma_queued(s, d.attachments, has_room(s, d));
    }
    lemma_quiet_gives_nothing(s, reply_offers(s, d.attachments, true));
    lemma_quiet_gives_nothing(s, reply_offers(s, d.attachments, false));
    assert(!newly_answered(s, reply_offers(s, d.attachments, true), corr));
    assert(!newly_answered(s, reply_offers(s, d.attachments, false), corr));
}

/// A message that finds the fabric there is given out.
proof fn lemma_delivered(s: PeerView, i: InboundView, counted: bool)
    requires
        s.inbound.closed == (s.terminal is Some),
    ensures
        ({
            let n = deliver(s, i, counted);
            &&& given_out(n) == (if s.terminal is None {
                given_out(s).push(i)
            } else {
                given_out(s)
            })
            &&& n.terminal == s.terminal
            &&& n.inbound.closed == s.inbound.closed
            &&& n.parked == s.parked
            &&& forall|c: u32| !#[trigger] newly_answered(s, n, c)
        }),
{
    let n = deliver(s, i, counted);
    if s.terminal is None {
        assert(given_out(n) =~= given_out(s).push(i));
    } else {
        let d = if counted {
            s.drop_one()
        } else {
            s
        };
        assert(n == release_all(d, i.received));
        lemma_quiet_release_all(d, i.received);
        assert forall|c: u32| !#[trigger] newly_answered(s, n, c) by {
            assert(!newly_answered(d, n, c));
        }
    }
}

proof fn lemma_plain(s: PeerView, d: DataView, corr: u32)
    requires
        d.attachments.len() == 0,
        s.inbound.closed == (s.terminal is Some),
    ensures
        on_data(s, d).parked == s.parked,
        newly_answered(s, on_data(s, d), corr) ==> d.corr == corr,
{
    if s.theirs.contains_key(d.target) {
        let i = InboundView {
            from: d.target,
            local: s.theirs[d.target],
            corr: d.corr,
            payload: d.payload,
            received: Seq::empty(),
            native: d.native,
            shared: d.shared,
        };
        lemma_delivered(s, i, true);
        assert(!newly_answered(s, deliver(s, i, true), corr));
    }
}

proof fn lemma_finished(s: PeerView, ps: Seq<ParkedView>, corr: u32)
    requires
        s.inbound.closed == (s.terminal is Some),
    ensures
        ({
            let n = finish_all(s, ps);
            &&& given_out(n) == given_out(s) + (if s.terminal is None {
                messages(ps)
            } else {
                Seq::empty()
            })
            &&& n.terminal == s.terminal
            &&& n.inbound.closed == s.inbound.closed
            &&& n.parked == s.parked
            &&& newly_answered(s, n, corr) ==> exists|i: int|
                0 <= i < ps.len() && responds(#[trigger] ps[i], corr) && n.answers[corr] == Ok::<
                    CallView,
                    FabError,
                >(as_answer(ps[i]))
        }),
    decreases ps.len(),
{
    if ps.len() > 0 {
        let front = ps.drop_last();
        let m = finish_all(s, front);
        let p = ps.last();
        let n = finish(m, p);
        lemma_finished(s, front, corr);
        lemma_quiet_release_all(m, p.got);
        lemma_delivered(m, as_message(p), false);
        assert(given_out(n) =~= given_out(s) + (if s.terminal is None {
            messages(ps)
        } else {
            Seq::empty()
        }));
        if newly_answered(s, n, corr) {
            if newly_answered(m, n, corr) {
                assert(responds(ps[ps.len() - 1], corr));
            } else {
                assert(newly_answered(s, m, corr));
                let i = choose|i: int|
                    0 <= i < front.len() && responds(#[trigger] front[i], corr) && m.answers[corr]
                        == Ok::<CallView, FabError>(as_answer(front[i]));
                assert(ps[i] == front[i]);
                assert(responds(ps[i], corr));
            }
        }
    } else {
        assert(given_out(s) + Seq::<InboundView>::empty() =~= given_out(s));
    }
}

proof fn lemma_commit_gives(s: PeerView, tid: TransferId, ep: EpId, partner: EpId, corr: u32)
    requires
        s.inbound.closed == (s.terminal is Some),
    ensures
        ({
            let n = on_commit(s, tid, ep, partner);
            let done = settle(s.parked, tid, Some(ep)).1;
            &&& given_out(n) == given_out(s) + (if s.terminal is None {
                messages(done)
            } else {
                Seq::empty()
            })
            &&& n.parked == settle(s.parked, tid, Some(ep)).0
            &&& newly_answered(s, n, corr) ==> exists|i: int|
                0 <= i < done.len() && responds(#[trigger] done[i], corr) && n.answers[corr] == Ok::<
                    CallView,
                    FabError,
                >(as_answer(done[i]))
        }),
{
    let held = PeerView { offers: s.offers.remove(tid), ..s }.with_handle(ep, partner);
    let known = PeerView { theirs: held.theirs.insert(partner, ep), ..held };
    let (rest, done) = settle(s.parked, tid, Some(ep));
    let mid = PeerView { parked: rest, ..decide(known, tid, XferLocal::Committed) };
    assert(given_out(mid) == given_out(s));
    lemma_finished(mid, done, corr);
    let fin = finish_all(mid, done);
    let n = on_commit(s, tid, ep, partner);
    assert(n == emit(fin, ack(tid)));
    assert(given_out(n) == given_out(fin));
    assert(n.answers == fin.answers);
    assert(mid.answers == s.answers);
}

} // verus!

//! What the death of a peer does to the others: who is told, what goes back,
//! and what stays as it was.

use vstd::prelude::*;

use crate::fabric_error::Cause;
use crate::frame::FrameView;
use crate::id::{EpId, TransferId};
use crate::native::NativeState;
use crate::router::{Holder, HostEvent, PeerId, XferPhase, HOST_PEER};
use crate::router_inv::{
    inv, inv_but, lemma_forget_peer, lemma_settle_ends, lemma_settle_natives, lemma_settle_shareds,
    lemma_settle_xfer, lemma_settle_xfers, lemma_without_peer, offers_escrowed, xfer_record_ok,
};
use crate::router_model::{
    close_pair, forget_peer, gone, natives_of, purge_regions, settle_end, settle_ends,
    settle_natives, settle_shareds, settle_xfer, settle_xfers, shareds_of, touched, xfers_of, State,
};
use crate::routing_laws::word_of_close;
use crate::shared::without_peer;
use crate::transfer_laws::{region_result_for, word_of_abort};

verus! {

/// Is the peer one side of the endpoint transfer?
pub open spec fn takes_part(s: State, p: PeerId, t: TransferId) -> bool {
    s.xfers[t].sender == p || s.xfers[t].dest == p
}

/// Is neither end of the conversation of `e` held by the peer, or on its way
/// from it or to it?
pub open spec fn apart(s: State, p: PeerId, e: EpId) -> bool {
    let o = s.eps[e].partner;
    &&& s.eps[e].holder != Holder::Peer(p)
    &&& s.eps[o].holder != Holder::Peer(p)
    &&& forall|t: TransferId| #[trigger]
        s.xfers.contains_key(t) && takes_part(s, p, t) ==> s.xfers[t].ep != e && s.xfers[t].ep != o
}

// ------------------------------------------------------------------------- laws --

/// Whoever holds the other end of what a dead peer held is told: a peer is
/// sent word that its end is dead, with the cause, and the host finds an
/// event.
pub proof fn law_death_is_told(s: State, p: PeerId, cause: Cause, e: EpId)
    requires
        inv(s),
        offers_escrowed(s),
        s.eps.contains_key(e),
        s.eps[s.eps[e].partner].holder == Holder::Peer(p),
    ensures
        ({
            let (n, out) = gone(s, p, cause);
            match s.eps[e].holder {
                Holder::Peer(q) => q != p ==> out.send.contains((q, word_of_close(e, cause))),
                Holder::Host => n.host_events.contains(HostEvent::EndpointClosed { ep: e, cause }),
                Holder::Escrow(_) => true,
            }
        }),
{
    let o = s.eps[e].partner;
    assert(s.eps.contains_key(o));
    let g = lemma_stages(s, p, cause);
    if !(s.eps[e].holder is Escrow) && s.eps[e].holder != Holder::Peer(p) {
        assert forall|t: TransferId| #[trigger]
            g.tids.contains(t) && g.s1.xfers.contains_key(t) implies g.s1.xfers[t].ep != e
            && g.s1.xfers[t].ep != o by {
            assert(s.xfers.contains_key(t));
        }
        lemma_xfers_spare(g.s1, p, cause, g.tids, e, o);
        assert(g.s5.eps[e] == s.eps[e]);
        assert(g.s5.eps[o] == s.eps[o]);
        assert(g.s1.eps.dom().contains(o));
        assert(g.sides.contains(o));
        assert(!g.sides.contains(e));
        lemma_ends_tell(g.s5, p, cause, g.sides, e, o);
        let (n, out) = gone(s, p, cause);
        let more = settle_ends(g.s5, p, cause, g.sides).1;
        let sent = settle_xfers(g.s1, p, cause, g.tids).1;
        assert(out.send == sent + more);
        if let Holder::Peer(q) = s.eps[e].holder {
            assert(s.peers.contains_key(q));
            let i = more.index_of((q, word_of_close(e, cause)));
            assert(out.send[sent.len() + i] == more[i]);
        }
    }
}

/// Nobody is told anything else: each frame that goes out is word of a close
/// to the peer that held that end, opposite to the dead, or word that a
/// transfer with the dead was called off, to a peer that is there. The host
/// gets no message.
pub proof fn law_death_tells_nothing_else(s: State, p: PeerId, cause: Cause, i: int)
    requires
        inv(s),
        0 <= i < gone(s, p, cause).1.send.len(),
    ensures
        ({
            let (y, f) = gone(s, p, cause).1.send[i];
            &&& s.peers.contains_key(y) && y != p
            &&& (exists|e: EpId| told_of_close(s, p, cause, y, f, e)) || (exists|t: TransferId|
                told_of_offer(s, p, y, f, t))
        }),
        gone(s, p, cause).1.to_host.len() == 0,
{
    let g = lemma_stages(s, p, cause);
    let sent = settle_xfers(g.s1, p, cause, g.tids).1;
    let more = settle_ends(g.s5, p, cause, g.sides).1;
    let out = gone(s, p, cause).1;
    assert(out.send == sent + more);
    if i < sent.len() {
        lemma_xfers_say(g.s1, p, cause, g.tids, i);
        let t = choose|t: TransferId|
            g.tids.contains(t) && told_of_offer(g.s1, p, sent[i].0, sent[i].1, t);
        assert(told_of_offer(s, p, out.send[i].0, out.send[i].1, t));
    } else {
        let j = i - sent.len();
        lemma_ends_say(g.s5, p, cause, g.sides, j);
        let e = choose|e: EpId| told_of_end(g.s5, p, cause, more[j].0, more[j].1, e, g.sides);
        assert(g.s5.eps.contains_key(e));
        lemma_same_or_restored(g, s, p, cause, e);
        let o = g.s5.eps[e].partner;
        assert(g.s5.eps.contains_key(o));
        lemma_same_or_restored(g, s, p, cause, o);
        assert(told_of_close(s, p, cause, out.send[i].0, out.send[i].1, e));
    }
}

/// Is the frame word to `y` that its end `e` died with the dead peer's? Its
/// end may have been on its way from `y` to the dead peer.
pub open spec fn told_of_close(s: State, p: PeerId, cause: Cause, y: PeerId, f: FrameView, e: EpId) -> bool {
    &&& f == word_of_close(e, cause)
    &&& s.eps.contains_key(e)
    &&& s.eps[s.eps[e].partner].holder == Holder::Peer(p)
    &&& s.eps[e].holder == Holder::Peer(y) || exists|t: TransferId| #[trigger]
        s.xfers.contains_key(t) && s.xfers[t].ep == e && s.xfers[t].restore == Holder::Peer(y)
            && s.xfers[t].dest == p
}

/// Is the frame word to `y` that a transfer with the dead peer was called off?
pub open spec fn told_of_offer(s: State, p: PeerId, y: PeerId, f: FrameView, t: TransferId) -> bool {
    &&& f == word_of_abort(t)
    &&& s.xfers.contains_key(t)
    &&& s.xfers[t].dest == p
    &&& s.xfers[t].sender != p
    &&& s.xfers[t].restore == Holder::Peer(y)
}

/// The sender of what a dead peer had been offered is told that it was called
/// off, if no fault is injected.
pub proof fn law_lapsed_offers_are_told(s: State, p: PeerId, cause: Cause, t: TransferId)
    requires
        inv(s),
        !s.inject.drop_abort,
        s.xfers.contains_key(t),
        s.xfers[t].dest == p,
        s.xfers[t].sender != p,
    ensures
        match s.xfers[t].restore {
            Holder::Peer(a) => gone(s, p, cause).1.send.contains((a, word_of_abort(t))),
            _ => true,
        },
{
    let g = lemma_stages(s, p, cause);
    assert(xfer_record_ok(t, s.xfers[t]));
    assert(g.s1.xfers.dom().contains(t));
    assert(g.tids.contains(t));
    if let Holder::Peer(a) = s.xfers[t].restore {
        assert(s.peers.contains_key(a));
        lemma_xfers_tell(g.s1, p, cause, g.tids, t, a);
        let sent = settle_xfers(g.s1, p, cause, g.tids).1;
        let more = settle_ends(g.s5, p, cause, g.sides).1;
        let i = sent.index_of((a, word_of_abort(t)));
        assert((sent + more)[i] == sent[i]);
    }
}

/// A death leaves alone what has nothing to do with it: every other peer is
/// there as before, every other conversation is as it was, so is every
/// transfer between others, and so is what was kept for others.
pub proof fn law_death_leaves_the_others(
    s: State,
    p: PeerId,
    cause: Cause,
    q: PeerId,
    e: EpId,
    t: TransferId,
)
    requires
        inv(s),
        q != p,
    ensures
        ({
            let n = gone(s, p, cause).0;
            &&& n.peers.contains_key(q) <==> s.peers.contains_key(q)
            &&& s.peers.contains_key(q) ==> n.peers[q] == s.peers[q]
            &&& !n.peers.contains_key(p)
            &&& s.eps.contains_key(e) && apart(s, p, e) ==> n.eps.contains_key(e) && n.eps[e] == s.eps[e]
            &&& n.eps.contains_key(e) ==> s.eps.contains_key(e)
            &&& s.xfers.contains_key(t) && !takes_part(s, p, t) ==> n.xfers.contains_key(t)
                && n.xfers[t] == s.xfers[t]
            &&& s.results.contains_key(t) && s.results[t].0 != p ==> n.results.contains_key(t)
                && n.results[t] == s.results[t]
            &&& s.results.contains_key(t) && s.results[t].0 == p ==> !n.results.contains_key(t)
            &&& n.lim == s.lim && n.inject == s.inject && n.next_peer == s.next_peer
            &&& n.native_live == s.native_live
        }),
{
    let g = lemma_stages(s, p, cause);
    let n = gone(s, p, cause).0;
    lemma_frames(g, s, p, cause);
    lemma_settle_xfers(g.s1, p, cause, g.tids);
    if s.eps.contains_key(e) && apart(s, p, e) {
        let o = s.eps[e].partner;
        assert(s.eps.contains_key(o));
        assert forall|u: TransferId| #[trigger]
            g.tids.contains(u) && g.s1.xfers.contains_key(u) implies g.s1.xfers[u].ep != e
            && g.s1.xfers[u].ep != o by {
            assert(s.xfers.contains_key(u) && takes_part(s, p, u));
        }
        lemma_xfers_spare(g.s1, p, cause, g.tids, e, o);
        assert(!g.sides.contains(e) && !g.sides.contains(o));
        lemma_ends_leave(g.s5, p, cause, g.sides, e, o);
    }
    if s.xfers.contains_key(t) && !takes_part(s, p, t) {
        assert(!g.tids.contains(t));
        lemma_xfers_leave(g.s1, p, cause, g.tids, t);
    }
    if s.results.contains_key(t) {
        assert(crate::router_inv::homes(s, t) <= 1);
        lemma_xfers_results(g.s1, p, cause, g.tids, t);
    }
}

/// The native resources on their way from the dead peer or to it are called
/// off, and so are the rights over regions; the others stay under way. What
/// the dead held over regions is gone, and only that.
pub proof fn law_death_calls_off(s: State, p: PeerId, cause: Cause, t: TransferId)
    requires
        inv(s),
    ensures
        ({
            let n = gone(s, p, cause).0;
            &&& s.native_pending.contains_key(t) ==> {
                let x = s.native_pending[t];
                if x.sender == p || x.dest == p {
                    &&& !n.native_pending.contains_key(t)
                    &&& n.native_results.contains_key(t)
                    &&& n.native_results[t] == (x.sender, Cause::Graceful, x.rid)
                } else {
                    n.native_pending.contains_key(t) && n.native_pending[t] == x
                }
            }
            &&& s.shared_pending.contains_key(t) ==> {
                let x = s.shared_pending[t];
                if x.sender == p || x.dest == p {
                    &&& !n.shared_pending.contains_key(t)
                    &&& n.shared_results.contains_key(t)
                    &&& n.shared_results[t] == (region_result_for(x), Cause::Graceful, x.rid)
                } else {
                    n.shared_pending.contains_key(t) && n.shared_pending[t] == x
                }
            }
            &&& n.regions == (if p == PeerId(HOST_PEER) {
                s.regions
            } else {
                without_peer(s.regions, p)
            })
        }),
{
    let g = lemma_stages(s, p, cause);
    lemma_frames(g, s, p, cause);
    crate::table::lemma_filtered_keys(
        g.s2.native_pending.dom(),
        |u: TransferId|
            g.s2.native_pending[u].state == NativeState::Escrowed && (g.s2.native_pending[u].sender
                == p || g.s2.native_pending[u].dest == p),
    );
    crate::table::lemma_filtered_keys(
        g.s3.shared_pending.dom(),
        |u: TransferId|
            g.s3.shared_pending[u].state == NativeState::Escrowed && (g.s3.shared_pending[u].sender
                == p || g.s3.shared_pending[u].dest == p),
    );
    if s.native_pending.contains_key(t) {
        assert(g.s2.native_pending.dom().contains(t));
        lemma_natives_end(g.s2, p, natives_of(g.s2, p), t);
    }
    if s.shared_pending.contains_key(t) {
        assert(g.s3.shared_pending.dom().contains(t));
        lemma_shareds_end(g.s3, p, shareds_of(g.s3, p), t);
    }
}

/// What is remembered after a death: of each endpoint that the death took, that
/// it died of this cause; of any other, what was remembered before.
pub proof fn law_the_dead_have_their_cause(s: State, p: PeerId, cause: Cause, e: EpId)
    requires
        inv(s),
        gone(s, p, cause).0.retired.causes.contains_key(e),
    ensures
        ({
            let n = gone(s, p, cause).0;
            &&& s.eps.contains_key(e) ==> n.retired.causes[e] == cause
            &&& !s.eps.contains_key(e) ==> s.retired.causes.contains_key(e) && n.retired.causes[e]
                == s.retired.causes[e]
        }),
{
    let g = lemma_stages(s, p, cause);
    lemma_frames(g, s, p, cause);
    assert(s.eps.contains_key(e) ==> !s.retired.has(e));
    lemma_xfers_cause(s, g.s1, p, cause, g.tids, e);
    lemma_settle_xfers(g.s1, p, cause, g.tids);
    lemma_natives_keep(g.s2, p, natives_of(g.s2, p));
    lemma_shareds_keep(g.s3, p, shareds_of(g.s3, p));
    lemma_ends_cause(s, g.s5, p, cause, g.sides, e);
}

/// A native resource on its way from the dead peer is never to be used again:
/// it is remembered as gone, if there is room to remember all that are.
pub proof fn law_resources_die_with_their_sender(s: State, p: PeerId, cause: Cause, t: TransferId)
    requires
        inv(s),
        s.native_pending.contains_key(t),
        s.native_pending[t].sender == p,
        s.native_retired.order.len() + s.native_pending.len() <= s.lim.max_retired,
    ensures
        gone(s, p, cause).0.native_retired.causes.contains_key(s.native_pending[t].rid),
{
    let g = lemma_stages(s, p, cause);
    lemma_frames(g, s, p, cause);
    lemma_xfers_keep(g.s1, p, cause, g.tids);
    lemma_shareds_keep(g.s3, p, shareds_of(g.s3, p));
    lemma_ends_keep(g.s5, p, cause, g.sides);
    let f = |u: TransferId|
        g.s2.native_pending[u].state == NativeState::Escrowed && (g.s2.native_pending[u].sender == p
            || g.s2.native_pending[u].dest == p);
    let tids = natives_of(g.s2, p);
    crate::table::lemma_filtered_keys(g.s2.native_pending.dom(), f);
    crate::table::lemma_key_list_lists(g.s2.native_pending.dom());
    let all = crate::table::key_list(g.s2.native_pending.dom());
    let keys = g.s2.native_pending.dom();
    crate::table::lemma_count_keys(all, keys, f);
    vstd::set_lib::lemma_len_subset(keys.filter(f), keys);
    assert(g.s2.native_pending.dom().contains(t));
    lemma_natives_gone(g.s2, p, tids, t);
}

// ----------------------------------------------------------------------- proofs --

/// The stages of a death.
struct Stages {
    s1: State,
    tids: Seq<TransferId>,
    s2: State,
    s3: State,
    s5: State,
    sides: Seq<EpId>,
}

/// The stages, and what is listed in them.
proof fn lemma_stages(s: State, p: PeerId, cause: Cause) -> (g: Stages)
    requires
        inv(s),
    ensures
        g.s1 == forget_peer(s, p),
        g.tids == xfers_of(g.s1, p),
        g.s2 == settle_xfers(g.s1, p, cause, g.tids).0,
        g.s3 == settle_natives(g.s2, p, natives_of(g.s2, p)),
        g.s5 == purge_regions(settle_shareds(g.s3, p, shareds_of(g.s3, p)), p),
        g.sides == touched(g.s1, p),
        gone(s, p, cause).0 == settle_ends(g.s5, p, cause, g.sides).0,
        inv_but(g.s1, Some(p)),
        inv_but(g.s2, Some(p)),
        inv_but(g.s3, Some(p)),
        inv_but(g.s5, Some(p)),
        g.s5.eps == g.s2.eps,
        g.s5.xfers == g.s2.xfers,
        g.s5.peers == g.s1.peers,
        forall|t: TransferId| #[trigger]
            g.tids.contains(t) <==> s.xfers.contains_key(t) && takes_part(s, p, t),
        forall|e: EpId| #[trigger]
            g.sides.contains(e) <==> s.eps.contains_key(e) && s.eps[e].holder == Holder::Peer(p),
{
    let s1 = forget_peer(s, p);
    let tids = xfers_of(s1, p);
    lemma_forget_peer(s, p);
    let s2 = settle_xfers(s1, p, cause, tids).0;
    lemma_settle_xfers(s1, p, cause, tids);
    let s3 = settle_natives(s2, p, natives_of(s2, p));
    lemma_settle_natives(s2, p, natives_of(s2, p));
    let s4 = settle_shareds(s3, p, shareds_of(s3, p));
    lemma_settle_shareds(s3, p, shareds_of(s3, p));
    let s5 = purge_regions(s4, p);
    lemma_without_peer(s4.regions, p);
    assert forall|t: TransferId| #[trigger] crate::router_inv::homes(s5, t) <= 1 by {
        assert(crate::router_inv::homes(s4, t) <= 1);
    }
    let sides = touched(s1, p);
    crate::table::lemma_filtered_keys(
        s1.xfers.dom(),
        |t: TransferId|
            s1.xfers[t].phase == XferPhase::Offered && (s1.xfers[t].sender == p || s1.xfers[t].dest
                == p),
    );
    crate::table::lemma_filtered_keys(s1.eps.dom(), |e: EpId| s1.eps[e].holder == Holder::Peer(p));
    assert forall|t: TransferId| #[trigger] tids.contains(t) <==> s.xfers.contains_key(t) && takes_part(
        s,
        p,
        t,
    ) by {
        assert(s1.xfers.dom().contains(t) <==> s.xfers.contains_key(t));
        if s.xfers.contains_key(t) {
            assert(xfer_record_ok(t, s.xfers[t]));
        }
    }
    assert forall|e: EpId| #[trigger] sides.contains(e) <==> s.eps.contains_key(e) && s.eps[e].holder
        == Holder::Peer(p) by {
        assert(s1.eps.dom().contains(e) <==> s.eps.contains_key(e));
    }
    Stages { s1, tids, s2, s3, s5, sides }
}

/// Settling transfers leaves a conversation alone of which neither end is in
/// one of them.
proof fn lemma_xfers_spare(s: State, p: PeerId, cause: Cause, tids: Seq<TransferId>, e: EpId, o: EpId)
    requires
        inv_but(s, Some(p)),
        s.eps.contains_key(e),
        s.eps[e].partner == o,
        forall|t: TransferId| #[trigger]
            tids.contains(t) && s.xfers.contains_key(t) ==> s.xfers[t].ep != e && s.xfers[t].ep != o,
    ensures
        ({
            let m = settle_xfers(s, p, cause, tids).0;
            &&& m.eps.contains_key(e) && m.eps[e] == s.eps[e]
            &&& m.eps.contains_key(o) && m.eps[o] == s.eps[o]
        }),
    decreases tids.len(),
{
    assert(s.eps.contains_key(o));
    if tids.len() > 0 {
        let front = tids.drop_last();
        let t = tids.last();
        assert forall|u: TransferId| #[trigger]
            front.contains(u) && s.xfers.contains_key(u) implies s.xfers[u].ep != e && s.xfers[u].ep
            != o by {
            assert(tids[front.index_of(u)] == u);
            assert(tids.contains(u));
        }
        lemma_xfers_spare(s, p, cause, front, e, o);
        lemma_settle_xfers(s, p, cause, front);
        let m = settle_xfers(s, p, cause, front).0;
        if m.xfers.contains_key(t) {
            assert(tids[tids.len() - 1] == t);
            assert(tids.contains(t));
            assert(s.xfers.contains_key(t) && s.xfers[t] == m.xfers[t]);
            let x = m.xfers[t];
            if m.eps.contains_key(x.ep) {
                assert(m.eps.contains_key(m.eps[x.ep].partner));
                assert(m.eps[m.eps[x.ep].partner].partner == x.ep);
            }
        }
    }
}

/// A transfer that is not listed is not settled.
proof fn lemma_xfers_leave(s: State, p: PeerId, cause: Cause, tids: Seq<TransferId>, t: TransferId)
    requires
        inv_but(s, Some(p)),
        s.xfers.contains_key(t),
        !tids.contains(t),
    ensures
        settle_xfers(s, p, cause, tids).0.xfers.contains_key(t),
        settle_xfers(s, p, cause, tids).0.xfers[t] == s.xfers[t],
    decreases tids.len(),
{
    if tids.len() > 0 {
        let front = tids.drop_last();
        assert(!front.contains(t)) by {
            if front.contains(t) {
                assert(tids[front.index_of(t)] == t);
            }
        }
        lemma_settle_xfers(s, p, cause, front);
        lemma_xfers_leave(s, p, cause, front, t);
        lemma_settle_xfer(settle_xfers(s, p, cause, front).0, p, cause, tids.last());
        assert(tids[tids.len() - 1] != t);
    }
}

/// A result that is not of a transfer under way stays as it is, there or not.
proof fn lemma_xfers_results(s: State, p: PeerId, cause: Cause, tids: Seq<TransferId>, t: TransferId)
    requires
        inv_but(s, Some(p)),
        !s.xfers.contains_key(t),
    ensures
        ({
            let m = settle_xfers(s, p, cause, tids).0;
            &&& m.results.contains_key(t) <==> s.results.contains_key(t)
            &&& s.results.contains_key(t) ==> m.results[t] == s.results[t]
        }),
    decreases tids.len(),
{
    if tids.len() > 0 {
        let front = tids.drop_last();
        lemma_xfers_results(s, p, cause, front, t);
        lemma_settle_xfers(s, p, cause, front);
        let m = settle_xfers(s, p, cause, front).0;
        if m.xfers.contains_key(tids.last()) {
            assert(s.xfers.contains_key(tids.last()));
        }
    }
}

/// What settling transfers says.
proof fn lemma_xfers_say(s: State, p: PeerId, cause: Cause, tids: Seq<TransferId>, i: int)
    requires
        inv_but(s, Some(p)),
        !s.peers.contains_key(p),
        forall|t: TransferId| #[trigger]
            tids.contains(t) && s.xfers.contains_key(t) ==> takes_part(s, p, t),
        0 <= i < settle_xfers(s, p, cause, tids).1.len(),
    ensures
        ({
            let (y, f) = settle_xfers(s, p, cause, tids).1[i];
            &&& s.peers.contains_key(y) && y != p
            &&& exists|t: TransferId| tids.contains(t) && told_of_offer(s, p, y, f, t)
        }),
    decreases tids.len(),
{
    if tids.len() > 0 {
        let front = tids.drop_last();
        let t = tids.last();
        assert forall|u: TransferId| #[trigger] front.contains(u) implies tids.contains(u) by {
            assert(tids[front.index_of(u)] == u);
        }
        let (m, sent) = settle_xfers(s, p, cause, front);
        lemma_settle_xfers(s, p, cause, front);
        if i < sent.len() {
            lemma_xfers_say(s, p, cause, front, i);
            let u = choose|u: TransferId|
                front.contains(u) && told_of_offer(s, p, sent[i].0, sent[i].1, u);
            assert(tids.contains(u) && told_of_offer(s, p, sent[i].0, sent[i].1, u));
        } else {
            assert(tids[tids.len() - 1] == t);
            assert(tids.contains(t));
            assert(m.xfers.contains_key(t));
            assert(s.xfers.contains_key(t) && s.xfers[t] == m.xfers[t]);
            assert(xfer_record_ok(t, s.xfers[t]));
            let more = settle_xfer(m, p, cause, t).1;
            let j = i - sent.len();
            assert(settle_xfers(s, p, cause, tids).1[i] == more[j]);
            assert(told_of_offer(s, p, more[j].0, more[j].1, t));
        }
    }
}

/// The sender of an offer to the dead is told.
proof fn lemma_xfers_tell(
    s: State,
    p: PeerId,
    cause: Cause,
    tids: Seq<TransferId>,
    t: TransferId,
    a: PeerId,
)
    requires
        inv_but(s, Some(p)),
        !s.inject.drop_abort,
        tids.contains(t),
        s.xfers.contains_key(t),
        s.xfers[t].sender != p,
        s.xfers[t].restore == Holder::Peer(a),
        s.peers.contains_key(a),
    ensures
        settle_xfers(s, p, cause, tids).1.contains((a, word_of_abort(t))),
        settle_xfers(s, p, cause, tids).0.inject == s.inject,
    decreases tids.len(),
{
    let front = tids.drop_last();
    let (m, sent) = settle_xfers(s, p, cause, front);
    let all = settle_xfers(s, p, cause, tids).1;
    let word = (a, word_of_abort(t));
    lemma_settle_xfers(s, p, cause, front);
    lemma_xfers_keep(s, p, cause, front);
    if front.contains(t) {
        lemma_xfers_tell(s, p, cause, front, t, a);
        let i = sent.index_of(word);
        assert(all[i] == sent[i]);
    } else {
        let k = tids.index_of(t);
        if k < tids.len() - 1 {
            assert(front[k] == t);
        }
        lemma_xfers_leave(s, p, cause, front, t);
        assert(xfer_record_ok(t, s.xfers[t]));
        let more = settle_xfer(m, p, cause, t).1;
        assert(more[0] == word);
        assert(all[sent.len() as int] == word);
    }
}

/// Settling transfers changes endpoints, transfers, results and memory of the
/// dead, and nothing else.
proof fn lemma_xfers_keep(s: State, p: PeerId, cause: Cause, tids: Seq<TransferId>)
    ensures
        ({
            let m = settle_xfers(s, p, cause, tids).0;
            m == (State {
                eps: m.eps,
                xfers: m.xfers,
                results: m.results,
                retired: m.retired,
                ..s
            })
        }),
    decreases tids.len(),
{
    if tids.len() > 0 {
        lemma_xfers_keep(s, p, cause, tids.drop_last());
    }
}

proof fn lemma_natives_keep(s: State, p: PeerId, tids: Seq<TransferId>)
    ensures
        ({
            let m = settle_natives(s, p, tids);
            m == (State {
                native_pending: m.native_pending,
                native_results: m.native_results,
                native_retired: m.native_retired,
                ..s
            })
        }),
    decreases tids.len(),
{
    if tids.len() > 0 {
        lemma_natives_keep(s, p, tids.drop_last());
    }
}

proof fn lemma_shareds_keep(s: State, p: PeerId, tids: Seq<TransferId>)
    ensures
        ({
            let m = settle_shareds(s, p, tids);
            m == (State {
                shared_pending: m.shared_pending,
                shared_results: m.shared_results,
                ..s
            })
        }),
    decreases tids.len(),
{
    if tids.len() > 0 {
        lemma_shareds_keep(s, p, tids.drop_last());
    }
}

proof fn lemma_ends_keep(s: State, p: PeerId, cause: Cause, sides: Seq<EpId>)
    ensures
        ({
            let m = settle_ends(s, p, cause, sides).0;
            m == (State { eps: m.eps, retired: m.retired, host_events: m.host_events, ..s })
        }),
    decreases sides.len(),
{
    if sides.len() > 0 {
        lemma_ends_keep(s, p, cause, sides.drop_last());
    }
}

/// What each stage leaves to the next.
proof fn lemma_frames(g: Stages, s: State, p: PeerId, cause: Cause)
    requires
        g.s1 == forget_peer(s, p),
        g.tids == xfers_of(g.s1, p),
        g.s2 == settle_xfers(g.s1, p, cause, g.tids).0,
        g.s3 == settle_natives(g.s2, p, natives_of(g.s2, p)),
        g.s5 == purge_regions(settle_shareds(g.s3, p, shareds_of(g.s3, p)), p),
        g.sides == touched(g.s1, p),
        gone(s, p, cause).0 == settle_ends(g.s5, p, cause, g.sides).0,
        inv_but(g.s5, Some(p)),
    ensures
        ({
            let n = gone(s, p, cause).0;
            let s4 = settle_shareds(g.s3, p, shareds_of(g.s3, p));
            &&& n.peers == s.peers.remove(p)
            &&& n.lim == s.lim && n.inject == s.inject && n.next_peer == s.next_peer
            &&& n.native_live == s.native_live
            &&& n.results == g.s2.results && n.xfers == g.s2.xfers
            &&& g.s2.native_pending == s.native_pending
            &&& g.s3.shared_pending == s.shared_pending
            &&& n.native_pending == g.s3.native_pending && n.native_results == g.s3.native_results
            &&& n.shared_pending == s4.shared_pending && n.shared_results == s4.shared_results
            &&& s4.regions == s.regions
            &&& n.regions == g.s5.regions
            &&& g.s5.host_events == s.host_events
            &&& forall|e: EpId| #[trigger] n.eps.contains_key(e) ==> g.s5.eps.contains_key(e)
        }),
{
    lemma_xfers_keep(g.s1, p, cause, g.tids);
    lemma_natives_keep(g.s2, p, natives_of(g.s2, p));
    lemma_shareds_keep(g.s3, p, shareds_of(g.s3, p));
    lemma_ends_keep(g.s5, p, cause, g.sides);
    lemma_settle_ends(g.s5, p, cause, g.sides);
}

/// Ending conversations leaves one alone of which neither end is listed.
proof fn lemma_ends_leave(s: State, p: PeerId, cause: Cause, sides: Seq<EpId>, e: EpId, o: EpId)
    requires
        inv_but(s, Some(p)),
        s.eps.contains_key(e),
        s.eps[e].partner == o,
        !sides.contains(e),
        !sides.contains(o),
    ensures
        ({
            let m = settle_ends(s, p, cause, sides).0;
            &&& m.eps.contains_key(e) && m.eps[e] == s.eps[e]
            &&& m.eps.contains_key(o) && m.eps[o] == s.eps[o]
        }),
    decreases sides.len(),
{
    assert(s.eps.contains_key(o));
    if sides.len() > 0 {
        let front = sides.drop_last();
        let side = sides.last();
        assert(sides[sides.len() - 1] == side);
        assert(!front.contains(e) && !front.contains(o)) by {
            if front.contains(e) {
                assert(sides[front.index_of(e)] == e);
            }
            if front.contains(o) {
                assert(sides[front.index_of(o)] == o);
            }
        }
        lemma_ends_leave(s, p, cause, front, e, o);
        lemma_settle_ends(s, p, cause, front);
        let m = settle_ends(s, p, cause, front).0;
        if m.eps.contains_key(side) {
            assert(m.eps.contains_key(m.eps[side].partner));
            assert(m.eps[m.eps[side].partner].partner == side);
        }
    }
}

/// The holder of the other end of one listed is told.
proof fn lemma_ends_tell(s: State, p: PeerId, cause: Cause, sides: Seq<EpId>, e: EpId, o: EpId)
    requires
        inv_but(s, Some(p)),
        s.eps.contains_key(e),
        s.eps[e].partner == o,
        sides.contains(o),
        !sides.contains(e),
    ensures
        ({
            let (n, more) = settle_ends(s, p, cause, sides);
            match s.eps[e].holder {
                Holder::Peer(q) => q != p && s.peers.contains_key(q) ==> more.contains(
                    (q, word_of_close(e, cause)),
                ),
                Holder::Host => n.host_events.contains(HostEvent::EndpointClosed { ep: e, cause }),
                Holder::Escrow(_) => true,
            }
        }),
    decreases sides.len(),
{
    let front = sides.drop_last();
    let side = sides.last();
    let (m, sent) = settle_ends(s, p, cause, front);
    let (n, all) = settle_ends(s, p, cause, sides);
    let (_, more) = settle_end(m, p, cause, side);
    assert(sides[sides.len() - 1] == side);
    assert(!front.contains(e)) by {
        if front.contains(e) {
            assert(sides[front.index_of(e)] == e);
        }
    }
    lemma_settle_ends(s, p, cause, front);
    lemma_ends_keep(s, p, cause, front);
    if front.contains(o) {
        lemma_ends_tell(s, p, cause, front, e, o);
        match s.eps[e].holder {
            Holder::Peer(q) => {
                if q != p && s.peers.contains_key(q) {
                    let i = sent.index_of((q, word_of_close(e, cause)));
                    assert(all[i] == sent[i]);
                }
            },
            Holder::Host => {
                let v = HostEvent::EndpointClosed { ep: e, cause };
                let i = m.host_events.index_of(v);
                assert(n.host_events[i] == v);
            },
            _ => {},
        }
    } else {
        let k = sides.index_of(o);
        if k < sides.len() - 1 {
            assert(front[k] == o);
        }
        assert(side == o);
        assert(s.eps.contains_key(o));
        assert(s.eps[o].partner == e);
        lemma_ends_leave(s, p, cause, front, e, o);
        match s.eps[e].holder {
            Holder::Peer(q) => {
                if q != p && s.peers.contains_key(q) {
                    assert(more[0] == (q, word_of_close(e, cause)));
                    assert(all[sent.len() as int] == more[0]);
                }
            },
            Holder::Host => {
                assert(n.host_events[m.host_events.len() as int] == HostEvent::EndpointClosed {
                    ep: e,
                    cause,
                });
            },
            _ => {},
        }
    }
}

/// Is the frame word to `y` that its end `e`, opposite to one listed, died?
spec fn told_of_end(
    s: State,
    p: PeerId,
    cause: Cause,
    y: PeerId,
    f: FrameView,
    e: EpId,
    sides: Seq<EpId>,
) -> bool {
    &&& f == word_of_close(e, cause)
    &&& s.eps.contains_key(e)
    &&& s.eps[e].holder == Holder::Peer(y)
    &&& sides.contains(s.eps[e].partner)
}

/// What ending conversations says.
proof fn lemma_ends_say(s: State, p: PeerId, cause: Cause, sides: Seq<EpId>, i: int)
    requires
        inv_but(s, Some(p)),
        0 <= i < settle_ends(s, p, cause, sides).1.len(),
    ensures
        ({
            let (y, f) = settle_ends(s, p, cause, sides).1[i];
            &&& s.peers.contains_key(y) && y != p
            &&& exists|e: EpId| told_of_end(s, p, cause, y, f, e, sides)
        }),
    decreases sides.len(),
{
    if sides.len() > 0 {
        let front = sides.drop_last();
        let side = sides.last();
        let (m, sent) = settle_ends(s, p, cause, front);
        lemma_settle_ends(s, p, cause, front);
        let all = settle_ends(s, p, cause, sides).1;
        if i < sent.len() {
            lemma_ends_say(s, p, cause, front, i);
            let e = choose|e: EpId| told_of_end(s, p, cause, sent[i].0, sent[i].1, e, front);
            let o = s.eps[e].partner;
            assert(sides[front.index_of(o)] == o);
            assert(told_of_end(s, p, cause, sent[i].0, sent[i].1, e, sides));
        } else {
            let more = settle_end(m, p, cause, side).1;
            assert(all[i] == more[i - sent.len()]);
            let e = m.eps[side].partner;
            assert(m.eps.contains_key(side) && m.eps.contains_key(e));
            assert(s.eps[e] == m.eps[e]);
            assert(m.eps[e].partner == side);
            assert(sides[sides.len() - 1] == side);
            assert(told_of_end(s, p, cause, all[i].0, all[i].1, e, sides));
        }
    }
}

/// An endpoint that is there before the conversations end has its partner
/// still, and its holder, or it went back from the dead peer.
proof fn lemma_same_or_restored(g: Stages, s: State, p: PeerId, cause: Cause, e: EpId)
    requires
        inv(s),
        g.s1 == forget_peer(s, p),
        g.s2 == settle_xfers(g.s1, p, cause, g.tids).0,
        g.s5.eps == g.s2.eps,
        g.s5.eps.contains_key(e),
        inv_but(g.s1, Some(p)),
        forall|t: TransferId| #[trigger]
            g.tids.contains(t) <==> s.xfers.contains_key(t) && takes_part(s, p, t),
    ensures
        s.eps.contains_key(e),
        g.s5.eps[e].partner == s.eps[e].partner,
        g.s5.eps[e].holder == s.eps[e].holder || exists|t: TransferId| #[trigger]
            s.xfers.contains_key(t) && s.xfers[t].ep == e && s.xfers[t].restore
                == g.s5.eps[e].holder && s.xfers[t].dest == p && s.xfers[t].sender != p,
{
    lemma_restored(g.s1, p, cause, g.tids, e);
    if g.s5.eps[e].holder != s.eps[e].holder {
        let t = choose|t: TransferId|
            g.tids.contains(t) && #[trigger] g.s1.xfers.contains_key(t) && g.s1.xfers[t].ep == e
                && g.s1.xfers[t].restore == g.s5.eps[e].holder && g.s1.xfers[t].sender != p;
        assert(s.xfers.contains_key(t) && takes_part(s, p, t));
    }
}

proof fn lemma_restored(s: State, p: PeerId, cause: Cause, tids: Seq<TransferId>, e: EpId)
    requires
        inv_but(s, Some(p)),
        settle_xfers(s, p, cause, tids).0.eps.contains_key(e),
    ensures
        ({
            let m = settle_xfers(s, p, cause, tids).0;
            &&& s.eps.contains_key(e)
            &&& m.eps[e].partner == s.eps[e].partner
            &&& m.eps[e].holder == s.eps[e].holder || exists|t: TransferId|
                tids.contains(t) && #[trigger] s.xfers.contains_key(t) && s.xfers[t].ep == e
                    && s.xfers[t].restore == m.eps[e].holder && s.xfers[t].sender != p
        }),
    decreases tids.len(),
{
    if tids.len() > 0 {
        let front = tids.drop_last();
        let t = tids.last();
        let m = settle_xfers(s, p, cause, front).0;
        let n = settle_xfers(s, p, cause, tids).0;
        lemma_settle_xfers(s, p, cause, front);
        lemma_settle_xfer(m, p, cause, t);
        assert(m.eps.contains_key(e));
        lemma_restored(s, p, cause, front, e);
        assert(tids[tids.len() - 1] == t);
        if m.xfers.contains_key(t) {
            assert(s.xfers.contains_key(t) && s.xfers[t] == m.xfers[t]);
        }
        if n.eps[e].holder == m.eps[e].holder && m.eps[e].holder != s.eps[e].holder {
            let u = choose|u: TransferId|
                front.contains(u) && #[trigger] s.xfers.contains_key(u) && s.xfers[u].ep == e
                    && s.xfers[u].restore == m.eps[e].holder && s.xfers[u].sender != p;
            assert(tids[front.index_of(u)] == u);
            assert(tids.contains(u) && s.xfers.contains_key(u));
        } else if n.eps[e].holder != m.eps[e].holder {
            assert(tids.contains(t) && s.xfers.contains_key(t));
        }
    }
}

/// The native transfers listed end as aborted, the others stay.
proof fn lemma_natives_end(s: State, p: PeerId, tids: Seq<TransferId>, t: TransferId)
    requires
        inv_but(s, Some(p)),
        s.native_pending.contains_key(t),
    ensures
        ({
            let m = settle_natives(s, p, tids);
            let x = s.native_pending[t];
            if tids.contains(t) {
                &&& !m.native_pending.contains_key(t)
                &&& m.native_results.contains_key(t)
                &&& m.native_results[t] == (x.sender, Cause::Graceful, x.rid)
            } else {
                m.native_pending.contains_key(t) && m.native_pending[t] == x
            }
        }),
    decreases tids.len(),
{
    if tids.len() > 0 {
        let front = tids.drop_last();
        lemma_natives_end(s, p, front, t);
        lemma_settle_natives(s, p, front);
        lemma_listed(tids, t);
    }
}

/// The region transfers listed end as aborted, the others stay.
proof fn lemma_shareds_end(s: State, p: PeerId, tids: Seq<TransferId>, t: TransferId)
    requires
        inv_but(s, Some(p)),
        s.shared_pending.contains_key(t),
    ensures
        ({
            let m = settle_shareds(s, p, tids);
            let x = s.shared_pending[t];
            if tids.contains(t) {
                &&& !m.shared_pending.contains_key(t)
                &&& m.shared_results.contains_key(t)
                &&& m.shared_results[t] == (region_result_for(x), Cause::Graceful, x.rid)
            } else {
                m.shared_pending.contains_key(t) && m.shared_pending[t] == x
            }
        }),
    decreases tids.len(),
{
    if tids.len() > 0 {
        let front = tids.drop_last();
        lemma_shareds_end(s, p, front, t);
        lemma_settle_shareds(s, p, front);
        lemma_listed(tids, t);
    }
}

/// What is remembered of one endpoint: the cause, if it was live at first.
spec fn rightly_filed(s: State, m: State, cause: Cause, e: EpId) -> bool {
    m.retired.causes.contains_key(e) ==> if s.eps.contains_key(e) {
        m.retired.causes[e] == cause
    } else {
        s.retired.causes.contains_key(e) && m.retired.causes[e] == s.retired.causes[e]
    }
}

proof fn lemma_close_cause(s: State, m: State, side: EpId, cause: Cause, e: EpId)
    requires
        rightly_filed(s, m, cause, e),
        m.retired.wf(),
        m.eps.contains_key(side) ==> s.eps.contains_key(side) && s.eps.contains_key(
            m.eps[side].partner,
        ),
    ensures
        rightly_filed(s, close_pair(m, side, cause), cause, e),
{
    if m.eps.contains_key(side) && m.eps.contains_key(m.eps[side].partner) {
        let partner = m.eps[side].partner;
        crate::id::law_filed_is_remembered(m.retired, side, cause);
        let l = m.retired.insert(side, cause);
        crate::id::law_filed_is_remembered(l, partner, cause);
        let n = l.insert(partner, cause);
        if n.causes.contains_key(e) && e != partner {
            assert(l.causes.contains_key(e));
        }
    }
}

proof fn lemma_xfers_cause(s: State, m: State, p: PeerId, cause: Cause, tids: Seq<TransferId>, e: EpId)
    requires
        inv_but(m, Some(p)),
        rightly_filed(s, m, cause, e),
        forall|o: EpId| #[trigger] m.eps.contains_key(o) ==> s.eps.contains_key(o),
    ensures
        rightly_filed(s, settle_xfers(m, p, cause, tids).0, cause, e),
    decreases tids.len(),
{
    if tids.len() > 0 {
        let front = tids.drop_last();
        let k = settle_xfers(m, p, cause, front).0;
        let tid = tids.last();
        lemma_xfers_cause(s, m, p, cause, front, e);
        lemma_settle_xfers(m, p, cause, front);
        if k.xfers.contains_key(tid) {
            let x = k.xfers[tid];
            if k.eps.contains_key(x.ep) {
                assert(k.eps.contains_key(k.eps[x.ep].partner));
            }
            lemma_close_cause(s, k, x.ep, cause, e);
        }
    }
}

proof fn lemma_ends_cause(s: State, m: State, p: PeerId, cause: Cause, sides: Seq<EpId>, e: EpId)
    requires
        inv_but(m, Some(p)),
        rightly_filed(s, m, cause, e),
        forall|o: EpId| #[trigger] m.eps.contains_key(o) ==> s.eps.contains_key(o),
    ensures
        rightly_filed(s, settle_ends(m, p, cause, sides).0, cause, e),
    decreases sides.len(),
{
    if sides.len() > 0 {
        let front = sides.drop_last();
        let k = settle_ends(m, p, cause, front).0;
        let side = sides.last();
        lemma_ends_cause(s, m, p, cause, front, e);
        lemma_settle_ends(m, p, cause, front);
        if k.eps.contains_key(side) {
            assert(k.eps.contains_key(k.eps[side].partner));
        }
        lemma_close_cause(s, k, side, cause, e);
        let n = settle_end(k, p, cause, side).0;
        assert(n.retired == close_pair(k, side, cause).retired);
    }
}

/// The resources of the transfers listed that the dead had sent are filed.
proof fn lemma_natives_gone(s: State, p: PeerId, tids: Seq<TransferId>, t: TransferId)
    requires
        inv_but(s, Some(p)),
        s.native_retired.order.len() + tids.len() <= s.native_retired.cap,
        tids.contains(t),
        s.native_pending.contains_key(t),
        s.native_pending[t].sender == p,
    ensures
        settle_natives(s, p, tids).native_retired.causes.contains_key(s.native_pending[t].rid),
    decreases tids.len(),
{
    let front = tids.drop_last();
    let m = settle_natives(s, p, front);
    let u = tids.last();
    lemma_settle_natives(s, p, front);
    lemma_natives_file(s, p, front);
    lemma_listed(tids, t);
    lemma_natives_end(s, p, front, t);
    if m.native_pending.contains_key(u) {
        crate::id::law_filed_is_remembered(m.native_retired, m.native_pending[u].rid, Cause::Graceful);
    }
    if front.contains(t) {
        lemma_natives_gone(s, p, front, t);
    }
}

/// Each transfer that is settled files at most one resource.
proof fn lemma_natives_file(s: State, p: PeerId, tids: Seq<TransferId>)
    requires
        inv_but(s, Some(p)),
        s.native_retired.order.len() + tids.len() <= s.native_retired.cap,
    ensures
        ({
            let m = settle_natives(s, p, tids);
            &&& m.native_retired.cap == s.native_retired.cap
            &&& m.native_retired.order.len() <= s.native_retired.order.len() + tids.len()
        }),
    decreases tids.len(),
{
    if tids.len() > 0 {
        let front = tids.drop_last();
        let m = settle_natives(s, p, front);
        let u = tids.last();
        lemma_natives_file(s, p, front);
        lemma_settle_natives(s, p, front);
        if m.native_pending.contains_key(u) {
            crate::id::law_filed_is_remembered(m.native_retired, m.native_pending[u].rid, Cause::Graceful);
        }
    }
}

proof fn lemma_listed(tids: Seq<TransferId>, t: TransferId)
    requires
        tids.len() > 0,
    ensures
        tids.contains(t) <==> tids.drop_last().contains(t) || tids.last() == t,
{
    let front = tids.drop_last();
    if front.contains(t) {
        assert(tids[front.index_of(t)] == t);
    }
    if tids.contains(t) {
        let i = tids.index_of(t);
        if i < tids.len() - 1 {
            assert(front[i] == t);
        }
    }
    assert(tids[tids.len() - 1] == tids.last());
}

} // verus!

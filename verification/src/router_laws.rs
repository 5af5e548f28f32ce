//! Laws of the router, over the steps that its methods take.

use vstd::prelude::*;

use crate::fabric_error::Cause;
use crate::frame::{repeats_endpoint, Attachment, DataView, FrameView, XferMsg, XFER_ST_ABORTED, XFER_ST_COMMITTED, XFER_ST_UNKNOWN};
use crate::id::{EpId, Ledger, TransferId};
use crate::limits::Limits;
use crate::router::{authority_conserved, Holder, PeerId, Poison, XferPhase, HOST_PEER};
use crate::router_inv::{
    homes, inv, inv_but, lemma_accept, lemma_check_all, lemma_close, lemma_close_pair, lemma_create,
    lemma_data, lemma_escrow_all, lemma_force_abort, lemma_forget_peer, lemma_gone, lemma_grant,
    lemma_grant_region, lemma_hello, lemma_initial, lemma_settle_natives, lemma_settle_shareds,
    lemma_settle_ends, lemma_settle_xfer, lemma_settle_xfers, lemma_with_pair, lemma_xfer, live_or,
    offers_escrowed, xfer_record_ok,
};
use crate::router_model::{
    abort_shared, abort_xfer, accept, accept_transfer, acknowledge, check_all, claim, close, close_pair, commit_shared, commit_xfer, create, data, escrow_all, escrow_one, force_abort,
    forget_peer, forward, fresh_pair, gate, gone, grant, grant_region, hello, initial, natives_of,
    owed_to, purge_regions, reject_transfer, room_for_pair, settle_end, settle_ends, settle_natives, settle_shared,
    settle_shareds, settle_xfer, settle_xfers, shareds_of, stale_notice, status_of, taken_id, taken_tid, touched,
    with_pair, xfer, xfers_of, Outcome, State,
};
use crate::shared::{law_regions_are_held, region_creation, RegionId, RegionOp, Rights};

verus! {

// ------------------------------------------------------------------ authority --

/// In every reachable state authority is conserved: each live endpoint has
/// one holder, and what is in escrow belongs to an offered transfer.
pub proof fn law_authority_conserved(s: State)
    requires
        inv(s),
    ensures
        authority_conserved(s),
{
}

/// Something that happens to the router. Identities that are drawn for a step
/// are part of it.
pub enum Happening {
    Connect,
    Hello { from: PeerId, magic: u16, version: u16 },
    Message { from: PeerId, data: DataView },
    Close { from: PeerId, target: EpId },
    Create { from: PeerId, a: EpId, b: EpId },
    Transfer { from: PeerId, msg: XferMsg },
    Gone { peer: PeerId, cause: Cause },
    HostPair { a: EpId, b: EpId },
    Grant { to: PeerId, ep: EpId, tid: TransferId },
    MakeRegion { rid: RegionId, size: u64 },
    GrantRegion { to: PeerId, target: EpId, corr: u32, rid: RegionId, rights: Rights, tid: TransferId },
    ForceAbort { tid: TransferId },
}

/// Can it happen? Drawn identities are new, peers can still be numbered, and
/// the host makes a conversation of its own only where there is room.
pub open spec fn possible(s: State, h: Happening) -> bool {
    match h {
        Happening::Connect => s.next_peer < u32::MAX,
        Happening::Create { a, b, .. } => fresh_pair(s, a, b),
        Happening::HostPair { a, b } => fresh_pair(s, a, b) && room_for_pair(s),
        Happening::Grant { tid, .. } => !taken_tid(s, tid),
        Happening::GrantRegion { tid, .. } => !taken_tid(s, tid),
        _ => true,
    }
}

/// The router after it happened.
pub open spec fn after(s: State, h: Happening) -> State {
    match h {
        Happening::Connect => accept(s),
        Happening::Hello { from, magic, version } => hello(s, from, magic, version).0,
        Happening::Message { from, data: d } => data(s, from, d).0,
        Happening::Close { from, target } => close(s, from, target).0,
        Happening::Create { from, a, b } => create(s, from, a, b).0,
        Happening::Transfer { from, msg } => xfer(s, from, msg).0,
        Happening::Gone { peer, cause } => gone(s, peer, cause).0,
        Happening::HostPair { a, b } => with_pair(s, a, b, Holder::Host),
        Happening::Grant { to, ep, tid } => grant(s, to, ep, tid).0,
        Happening::MakeRegion { rid, size } => match region_creation(
            s.regions,
            rid,
            size,
            PeerId(HOST_PEER),
            s.lim,
        ) {
            Ok(m) => State { regions: m, ..s },
            Err(_) => s,
        },
        Happening::GrantRegion { to, target, corr, rid, rights, tid } => grant_region(
            s,
            to,
            target,
            corr,
            rid,
            rights,
            tid,
        ).0,
        Happening::ForceAbort { tid } => force_abort(s, tid).0,
    }
}

/// The router after a history that starts from nothing.
pub open spec fn after_all(lim: Limits, history: Seq<Happening>) -> State
    decreases history.len(),
{
    if history.len() == 0 {
        initial(lim)
    } else {
        after(after_all(lim, history.drop_last()), history.last())
    }
}

/// Could each step of the history happen when it did?
pub open spec fn possible_all(lim: Limits, history: Seq<Happening>) -> bool
    decreases history.len(),
{
    history.len() > 0 ==> possible_all(lim, history.drop_last()) && possible(
        after_all(lim, history.drop_last()),
        history.last(),
    )
}

/// Whatever happens to a router in a reachable state, it is in a reachable
/// state afterwards.
pub proof fn law_every_step_keeps_the_invariant(s: State, h: Happening)
    requires
        inv(s),
        possible(s, h),
    ensures
        inv(after(s, h)),
{
    match h {
        Happening::Connect => lemma_accept(s),
        Happening::Hello { from, magic, version } => lemma_hello(
            s,
            from,
            magic,
            version,
        ),
        Happening::Message { from, data: d } => lemma_data(s, from, d),
        Happening::Close { from, target } => lemma_close(s, from, target),
        Happening::Create { from, a, b } => lemma_create(s, from, a, b),
        Happening::Transfer { from, msg } => lemma_xfer(s, from, msg),
        Happening::Gone { peer, cause } => lemma_gone(s, peer, cause),
        Happening::HostPair { a, b } => lemma_with_pair(s, a, b, Holder::Host),
        Happening::Grant { to, ep, tid } => lemma_grant(s, to, ep, tid),
        Happening::MakeRegion { rid, size } => {
            law_regions_are_held(
                s.regions,
                RegionOp::Create(rid, size, PeerId(HOST_PEER)),
                s.lim,
            );
            let n = after(s, h);
            assert forall|t: TransferId| #[trigger] homes(n, t) <= 1 by {
                assert(homes(s, t) <= 1);
            }
            assert forall|k: RegionId, q: PeerId|
                #![trigger n.regions[k].held_by(q)]
                n.regions.contains_key(k) && n.regions[k].held_by(q) implies q == PeerId(HOST_PEER)
                || live_or(n, q, None) by {
                if s.regions.contains_key(k) && n.regions[k] == s.regions[k] {
                    assert(s.regions[k].held_by(q));
                }
            }
        },
        Happening::GrantRegion { to, target, corr, rid, rights, tid } => {
            lemma_grant_region(s, to, target, corr, rid, rights, tid)
        },
        Happening::ForceAbort { tid } => lemma_force_abort(s, tid),
    }
}

/// Over any history, from nothing on, authority is conserved: at every moment
/// each live endpoint has one holder, and what is in escrow belongs to an
/// offered transfer.
pub proof fn law_authority_is_always_conserved(lim: Limits, history: Seq<Happening>)
    requires
        possible_all(lim, history),
    ensures
        inv(after_all(lim, history)),
        authority_conserved(after_all(lim, history)),
    decreases history.len(),
{
    if history.len() == 0 {
        lemma_initial(lim);
    } else {
        law_authority_is_always_conserved(lim, history.drop_last());
        law_every_step_keeps_the_invariant(
            after_all(lim, history.drop_last()),
            history.last(),
        );
    }
}

/// No endpoint is offered twice in one message, and no identity that is drawn
/// for a new endpoint is that of a dead one which is still in flight. Every
/// message that comes off the wire is like that.
pub open spec fn orderly(s: State, h: Happening) -> bool {
    match h {
        Happening::Message { data: d, .. } => !repeats_endpoint(d.attachments),
        Happening::Create { a, b, .. } => !in_flight(s, a) && !in_flight(s, b),
        Happening::HostPair { a, b } => !in_flight(s, a) && !in_flight(s, b),
        _ => true,
    }
}

/// Is the endpoint offered in a transfer that is not decided?
pub open spec fn in_flight(s: State, e: EpId) -> bool {
    exists|t: TransferId| #[trigger] s.xfers.contains_key(t) && s.xfers[t].ep == e
}

/// Was each step of the history orderly?
pub open spec fn orderly_all(lim: Limits, history: Seq<Happening>) -> bool
    decreases history.len(),
{
    history.len() > 0 ==> orderly_all(lim, history.drop_last()) && orderly(
        after_all(lim, history.drop_last()),
        history.last(),
    )
}

/// An attachment that is not in escrow goes there under its own transfer.
proof fn lemma_escrow_one_keeps_offers(m: State, from: PeerId, dest: PeerId, a: Attachment)
    requires
        offers_escrowed(m),
        m.eps.contains_key(a.id),
        m.eps[a.id].holder is Peer,
    ensures
        ({
            let next = escrow_one(m, from, dest, a);
            &&& offers_escrowed(next)
            &&& next.eps.dom() == m.eps.dom()
            &&& forall|e: EpId| #[trigger] m.eps.contains_key(e) && e != a.id ==> next.eps[e]
                == m.eps[e]
        }),
{
    let next = escrow_one(m, from, dest, a);
    assert(next.eps.dom() =~= m.eps.dom());
    assert forall|t: TransferId| #[trigger]
        next.xfers.contains_key(t) && next.eps.contains_key(
            next.xfers[t].ep,
        ) implies next.eps[next.xfers[t].ep].holder == Holder::Escrow(t) by {
        if t != a.tid {
            assert(m.xfers.contains_key(t));
            assert(m.eps.contains_key(m.xfers[t].ep));
        }
    }
}

/// Attachments that differ go into escrow each under its own transfer.
#[verifier::spinoff_prover]
#[verifier::rlimit(30)]
proof fn lemma_escrow_keeps_offers(s: State, from: PeerId, dest: PeerId, d: DataView, n: nat)
    requires
        inv(s),
        offers_escrowed(s),
        !repeats_endpoint(d.attachments),
        s.peers.contains_key(from),
        n <= d.attachments.len(),
        check_all(s, from, d.attachments) is Clean,
        d.attachments.len() + s.xfers.len() + s.results.len() <= s.lim.max_pending_transfers,
    ensures
        ({
            let m = escrow_all(s, from, dest, d.attachments.take(n as int)).0;
            &&& inv(m)
            &&& offers_escrowed(m)
            &&& m.eps.dom() == s.eps.dom()
            &&& forall|e: EpId| #[trigger]
                s.eps.contains_key(e) && (forall|i: int| 0 <= i < n ==> d.attachments[i].id != e)
                    ==> m.eps[e] == s.eps[e]
        }),
    decreases n,
{
    let atts = d.attachments.take(n as int);
    assert forall|i: int| 0 <= i < atts.len() implies s.eps.contains_key(#[trigger] atts[i].id) by {
        lemma_check_all(s, from, d.attachments, i);
    }
    lemma_escrow_all(s, from, dest, atts);
    if n > 0 {
        let k = (n - 1) as nat;
        lemma_escrow_keeps_offers(s, from, dest, d, k);
        assert(atts.drop_last() =~= d.attachments.take(k as int));
        let (m, ok) = escrow_all(s, from, dest, d.attachments.take(k as int));
        let a = atts.last();
        lemma_check_all(s, from, d.attachments, k as int);
        assert(m.eps[a.id] == s.eps[a.id]);
        assert(m.eps.contains_key(a.id));
        if ok && !taken_tid(m, a.tid) {
            lemma_escrow_one_keeps_offers(m, from, dest, a);
            let next = escrow_one(m, from, dest, a);
            assert forall|e: EpId| #[trigger]
                s.eps.contains_key(e) && (forall|i: int| 0 <= i < n ==> d.attachments[i].id
                    != e) implies next.eps[e] == s.eps[e] by {
                assert(d.attachments[k as int].id != e);
                assert(m.eps[e] == s.eps[e]);
            }
        } else {
            assert forall|e: EpId| #[trigger]
                s.eps.contains_key(e) && (forall|i: int| 0 <= i < n ==> d.attachments[i].id
                    != e) implies m.eps[e] == s.eps[e] by {
                assert(d.attachments[k as int].id != e);
            }
        }
    } else {
        assert(atts =~= Seq::empty());
    }
}

/// Endpoints and transfers that stay as they are stay in escrow.
proof fn lemma_same_offers(s: State, n: State)
    requires
        offers_escrowed(s),
        n.eps == s.eps,
        n.xfers == s.xfers,
    ensures
        offers_escrowed(n),
{
}

/// What a message does to endpoints and their transfers is what taking its
/// attachments into escrow does.
proof fn lemma_forward_frame(s: State, from: PeerId, dest: PeerId, d: DataView)
    ensures
        ({
            let n = forward(s, from, dest, d).0;
            let m = escrow_all(s, from, dest, d.attachments).0;
            ||| n == s
            ||| n.eps == m.eps && n.xfers == m.xfers && d.attachments.len() + s.xfers.len()
                + s.results.len() <= s.lim.max_pending_transfers
        }),
{
}

proof fn lemma_message_keeps_offers(s: State, from: PeerId, d: DataView)
    requires
        inv(s),
        offers_escrowed(s),
        !repeats_endpoint(d.attachments),
    ensures
        offers_escrowed(data(s, from, d).0),
{
    let n = data(s, from, d).0;
    if n != s {
        let dest = s.eps[s.eps[d.target].partner].holder->Peer_0;
        assert(n == forward(s, from, dest, d).0);
        lemma_forward_frame(s, from, dest, d);
        lemma_escrow_keeps_offers(s, from, dest, d, d.attachments.len());
        assert(d.attachments.take(d.attachments.len() as int) =~= d.attachments);
        lemma_same_offers(escrow_all(s, from, dest, d.attachments).0, n);
    }
}

proof fn lemma_commit_keeps_offers(s: State, tid: TransferId)
    requires
        offers_escrowed(s),
    ensures
        offers_escrowed(commit_xfer(s, tid).0),
        offers_escrowed(abort_xfer(s, tid).0),
{
    let n = commit_xfer(s, tid).0;
    assert forall|t: TransferId| #[trigger]
        n.xfers.contains_key(t) && n.eps.contains_key(
            n.xfers[t].ep,
        ) implies n.eps[n.xfers[t].ep].holder == Holder::Escrow(t) by {
        assert(s.xfers.contains_key(t));
        assert(s.xfers.contains_key(tid) || n == s);
    }
    let n = abort_xfer(s, tid).0;
    assert forall|t: TransferId| #[trigger]
        n.xfers.contains_key(t) && n.eps.contains_key(
            n.xfers[t].ep,
        ) implies n.eps[n.xfers[t].ep].holder == Holder::Escrow(t) by {
        assert(s.xfers.contains_key(t));
        assert(s.xfers.contains_key(tid) || n == s);
    }
}

/// What transfer control does to endpoints and their transfers.
proof fn lemma_control_frame(s: State, from: PeerId, msg: XferMsg)
    ensures
        ({
            let n = xfer(s, from, msg).0;
            ||| n.eps == s.eps && n.xfers == s.xfers
            ||| exists|tid: TransferId| n == #[trigger] commit_xfer(s, tid).0
            ||| exists|tid: TransferId| n == #[trigger] abort_xfer(s, tid).0
        }),
{
    match msg {
        XferMsg::Accept { tid } => {
            if s.xfers.contains_key(tid) {
                let n = xfer(s, from, msg).0;
                assert(n == s || n == commit_xfer(s, tid).0 || n == abort_xfer(s, tid).0);
            }
        },
        XferMsg::Reject { tid } => {
            if s.xfers.contains_key(tid) {
                let n = xfer(s, from, msg).0;
                assert(n == s || n == abort_xfer(s, tid).0);
            }
        },
        _ => {},
    }
}

proof fn lemma_control_keeps_offers(s: State, from: PeerId, msg: XferMsg)
    requires
        offers_escrowed(s),
    ensures
        offers_escrowed(xfer(s, from, msg).0),
{
    let n = xfer(s, from, msg).0;
    lemma_control_frame(s, from, msg);
    if n.eps == s.eps && n.xfers == s.xfers {
        lemma_same_offers(s, n);
    } else if exists|tid: TransferId| n == #[trigger] commit_xfer(s, tid).0 {
        lemma_commit_keeps_offers(s, choose|tid: TransferId| n == #[trigger] commit_xfer(s, tid).0);
    } else {
        lemma_commit_keeps_offers(s, choose|tid: TransferId| n == #[trigger] abort_xfer(s, tid).0);
    }
}

proof fn lemma_pair_keeps_offers(s: State, a: EpId, b: EpId, holder: Holder)
    requires
        offers_escrowed(s),
        !in_flight(s, a),
        !in_flight(s, b),
    ensures
        offers_escrowed(with_pair(s, a, b, holder)),
{
    let n = with_pair(s, a, b, holder);
    assert forall|t: TransferId| #[trigger]
        n.xfers.contains_key(t) && n.eps.contains_key(
            n.xfers[t].ep,
        ) implies n.eps[n.xfers[t].ep].holder == Holder::Escrow(t) by {
        assert(s.xfers.contains_key(t));
        assert(in_flight(s, s.xfers[t].ep));
    }
}

proof fn lemma_grant_keeps_offers(s: State, to: PeerId, ep: EpId, tid: TransferId)
    requires
        offers_escrowed(s),
    ensures
        offers_escrowed(grant(s, to, ep, tid).0),
{
    let n = grant(s, to, ep, tid).0;
    assert forall|t: TransferId| #[trigger]
        n.xfers.contains_key(t) && n.eps.contains_key(
            n.xfers[t].ep,
        ) implies n.eps[n.xfers[t].ep].holder == Holder::Escrow(t) by {
        if t != tid || n == s {
            assert(s.xfers.contains_key(t));
        }
    }
}

proof fn lemma_close_keeps_offers(s: State, from: PeerId, target: EpId)
    requires
        offers_escrowed(s),
    ensures
        offers_escrowed(close(s, from, target).0),
{
    let n = close(s, from, target).0;
    assert(n.xfers == s.xfers);
    assert forall|e: EpId| #[trigger] n.eps.contains_key(e) implies s.eps.contains_key(e) && n.eps[e]
        == s.eps[e] by {}
    assert forall|t: TransferId| #[trigger]
        n.xfers.contains_key(t) && n.eps.contains_key(
            n.xfers[t].ep,
        ) implies n.eps[n.xfers[t].ep].holder == Holder::Escrow(t) by {
        assert(s.xfers.contains_key(t));
    }
}

/// The death of a peer leaves what is still in flight in escrow.
proof fn lemma_death_keeps_offers(s: State, p: PeerId, cause: Cause)
    requires
        inv(s),
        offers_escrowed(s),
    ensures
        offers_escrowed(gone(s, p, cause).0),
{
    let s1 = forget_peer(s, p);
    let tids = xfers_of(s1, p);
    lemma_forget_peer(s, p);
    assert(offers_escrowed(s1));
    lemma_settling_keeps_offers(s1, p, cause, tids);
    let s2 = settle_xfers(s1, p, cause, tids).0;
    lemma_settle_xfers(s1, p, cause, tids);
    let s3 = settle_natives(s2, p, natives_of(s2, p));
    lemma_settle_natives(s2, p, natives_of(s2, p));
    let s4 = settle_shareds(s3, p, shareds_of(s3, p));
    lemma_settle_shareds(s3, p, shareds_of(s3, p));
    lemma_purge(s4, p);
    let s5 = purge_regions(s4, p);
    let sides = touched(s1, p);
    lemma_settle_ends(s5, p, cause, sides);
    let s6 = settle_ends(s5, p, cause, sides).0;
    assert forall|t: TransferId| #[trigger]
        s6.xfers.contains_key(t) && s6.eps.contains_key(
            s6.xfers[t].ep,
        ) implies s6.eps[s6.xfers[t].ep].holder == Holder::Escrow(t) by {
        assert(s2.xfers.contains_key(t));
        assert(s5.eps.contains_key(s6.xfers[t].ep));
    }
}

/// Taking the dead peer out of the rights graph changes nothing else.
proof fn lemma_purge(s: State, p: PeerId)
    requires
        inv_but(s, Some(p)),
    ensures
        inv_but(purge_regions(s, p), Some(p)),
{
    let n = purge_regions(s, p);
    crate::router_inv::lemma_without_peer(s.regions, p);
    assert forall|t: TransferId| #[trigger] homes(n, t) <= 1 by {
        assert(homes(s, t) <= 1);
    }
}

proof fn lemma_settling_keeps_offers(s: State, p: PeerId, cause: Cause, tids: Seq<TransferId>)
    requires
        inv_but(s, Some(p)),
        offers_escrowed(s),
    ensures
        offers_escrowed(settle_xfers(s, p, cause, tids).0),
    decreases tids.len(),
{
    if tids.len() > 0 {
        let front = tids.drop_last();
        let m = settle_xfers(s, p, cause, front).0;
        let tid = tids.last();
        lemma_settling_keeps_offers(s, p, cause, front);
        lemma_settle_xfers(s, p, cause, front);
        lemma_settle_xfer(m, p, cause, tid);
        let n = settle_xfer(m, p, cause, tid).0;
        assert forall|t: TransferId| #[trigger]
            n.xfers.contains_key(t) && n.eps.contains_key(
                n.xfers[t].ep,
            ) implies n.eps[n.xfers[t].ep].holder == Holder::Escrow(t) by {
            assert(m.xfers.contains_key(t));
            assert(m.eps.contains_key(m.xfers[t].ep));
        }
    }
}

/// What is in flight and still lives is in escrow under its own transfer, and
/// stays so: with that, no endpoint is in two transfers at once.
pub proof fn law_offers_stay_in_escrow(s: State, h: Happening)
    requires
        inv(s),
        offers_escrowed(s),
        possible(s, h),
        orderly(s, h),
    ensures
        offers_escrowed(after(s, h)),
{
    match h {
        Happening::Message { from, data: d } => lemma_message_keeps_offers(s, from, d),
        Happening::Close { from, target } => lemma_close_keeps_offers(s, from, target),
        Happening::Create { from, a, b } => lemma_pair_keeps_offers(s, a, b, Holder::Peer(from)),
        Happening::Transfer { from, msg } => lemma_control_keeps_offers(s, from, msg),
        Happening::Gone { peer, cause } => lemma_death_keeps_offers(s, peer, cause),
        Happening::HostPair { a, b } => lemma_pair_keeps_offers(s, a, b, Holder::Host),
        Happening::Grant { to, ep, tid } => lemma_grant_keeps_offers(s, to, ep, tid),
        Happening::ForceAbort { tid } => lemma_commit_keeps_offers(s, tid),
        _ => lemma_same_offers(s, after(s, h)),
    }
}

/// Over any orderly history, from nothing on, what is in flight and still
/// lives is in escrow under its own transfer.
pub proof fn law_offers_are_always_in_escrow(lim: Limits, history: Seq<Happening>)
    requires
        possible_all(lim, history),
        orderly_all(lim, history),
    ensures
        offers_escrowed(after_all(lim, history)),
    decreases history.len(),
{
    if history.len() > 0 {
        law_offers_are_always_in_escrow(lim, history.drop_last());
        law_authority_is_always_conserved(lim, history.drop_last());
        law_offers_stay_in_escrow(after_all(lim, history.drop_last()), history.last());
    }
}

/// A message goes out only on an endpoint that its sender holds: forged and
/// stale identities move nothing.
pub proof fn law_only_holders_send(s: State, from: PeerId, d: DataView)
    requires
        !(claim(s, from, d.target) is Held),
    ensures
        data(s, from, d).0 == s,
        match data(s, from, d).1 {
            Ok(out) => gate(s, from) is None && claim(s, from, d.target) is Stale && out == stale_notice(
                s,
                from,
                d.target,
            ),
            Err(_) => true,
        },
{
}

/// An attachment that the sender does not hold, or whose partner it misnames,
/// moves nothing, and neither do the attachments beside it.
pub proof fn law_only_holders_attach(s: State, from: PeerId, d: DataView, i: int)
    requires
        inv(s),
        0 <= i < d.attachments.len(),
        !(s.eps.contains_key(d.attachments[i].id) && s.eps[d.attachments[i].id].holder == Holder::Peer(
            from,
        ) && s.eps[d.attachments[i].id].partner == d.attachments[i].partner),
    ensures
        data(s, from, d).0 == s,
{
    if check_all(s, from, d.attachments) is Clean {
        lemma_check_all(s, from, d.attachments, i);
    }
}

/// A new conversation has identities that name no live endpoint and none
/// still remembered.
pub proof fn law_fresh_identities(s: State, a: EpId, b: EpId, holder: Holder, e: EpId)
    requires
        fresh_pair(s, a, b),
        taken_id(s, e),
    ensures
        a != e,
        b != e,
        s.eps.contains_key(e) ==> with_pair(s, a, b, holder).eps[e] == s.eps[e],
{
}

/// Closing one end kills the whole conversation: neither end is live, and if
/// two dead endpoints can be remembered both are.
pub proof fn law_both_ends_die(s: State, from: PeerId, target: EpId)
    requires
        inv(s),
        gate(s, from) is None,
        claim(s, from, target) is Held,
    ensures
        ({
            let n = close(s, from, target).0;
            let partner = s.eps[target].partner;
            &&& close(s, from, target).1 is Ok
            &&& !n.eps.contains_key(target)
            &&& !n.eps.contains_key(partner)
            &&& s.lim.max_retired >= 2 ==> n.retired.has(target) && n.retired.has(partner)
        }),
{
    let partner = s.eps[target].partner;
    assert(s.eps.contains_key(partner));
    let r0 = s.retired;
    let r1 = r0.insert(target, Cause::Graceful);
    let r2 = r1.insert(partner, Cause::Graceful);
    r0.lemma_insert_wf(target, Cause::Graceful);
    r1.lemma_insert_wf(partner, Cause::Graceful);
    if s.lim.max_retired >= 2 {
        assert(r1.has(target)) by {
            if !r0.has(target) && r0.order.len() + 1 > r0.cap {
                let order = r0.order.push(target);
                if order[0] == target {
                    assert(r0.order[0] == target);
                    assert(r0.order.contains(target));
                }
            }
        }
        assert(r2.has(target)) by {
            if !r1.has(partner) && r1.order.len() + 1 > r1.cap {
                let order = r1.order.push(partner);
                assert(r1.order.len() >= 2);
                // The target went in last, so it is not the oldest of two.
                if order[0] == target {
                    assert(r1.order[r1.order.len() - 1] == target);
                }
            }
        }
        assert(r2.has(partner)) by {
            if !r1.has(partner) && r1.order.len() + 1 > r1.cap {
                let order = r1.order.push(partner);
                if order[0] == partner {
                    assert(r1.order.contains(partner));
                }
            }
        }
    }
}

/// A refused request changes nothing: hello, close, create, grant and
/// transfer control.
pub proof fn law_refusals_change_nothing(
    s: State,
    from: PeerId,
    magic: u16,
    version: u16,
    target: EpId,
    a: EpId,
    b: EpId,
    tid: TransferId,
    msg: XferMsg,
)
    requires
        inv(s),
    ensures
        hello(s, from, magic, version).1 is Err ==> hello(s, from, magic, version).0 == s,
        close(s, from, target).1 is Err ==> close(s, from, target).0 == s,
        create(s, from, a, b).1 is Err ==> create(s, from, a, b).0 == s,
        grant(s, from, target, tid).1 is Err ==> grant(s, from, target, tid).0 == s,
        xfer(s, from, msg).1 is Err ==> xfer(s, from, msg).0 == s,
{
}

/// Before hello, and from a peer that the host does not know, nothing but a
/// hello is listened to.
pub proof fn law_hello_comes_first(
    s: State,
    from: PeerId,
    d: DataView,
    target: EpId,
    a: EpId,
    b: EpId,
    msg: XferMsg,
)
    requires
        !(s.peers.contains_key(from) && s.peers[from]),
    ensures
        data(s, from, d).1 is Err && data(s, from, d).0 == s,
        close(s, from, target).1 is Err && close(s, from, target).0 == s,
        create(s, from, a, b).1 is Err && create(s, from, a, b).0 == s,
        xfer(s, from, msg).1 is Err && xfer(s, from, msg).0 == s,
{
}

// ------------------------------------------------------------------ transfers --

/// Accepting an offered endpoint gives it to the recipient, and the sender
/// can learn that it did.
pub proof fn law_commit_moves(s: State, from: PeerId, tid: TransferId)
    requires
        inv(s),
        s.xfers.contains_key(tid),
        s.xfers[tid].dest == from,
        s.eps.contains_key(s.xfers[tid].ep),
        crate::router_model::endpoints_of(s, from).len() < s.lim.max_live_endpoints,
    ensures
        ({
            let (n, r) = accept_transfer(s, from, tid);
            &&& r is Ok
            &&& n.eps[s.xfers[tid].ep].holder == Holder::Peer(from)
            &&& n.results[tid] == (s.xfers[tid].sender, Cause::PeerLost)
            &&& status_of(n, tid) == XFER_ST_COMMITTED
        }),
{
    assert(homes(s, tid) <= 1);
}

/// Calling an offered transfer off gives the endpoint back to where it came
/// from, and the sender can learn that it did.
pub proof fn law_abort_restores(s: State, from: PeerId, tid: TransferId)
    requires
        inv(s),
        s.xfers.contains_key(tid),
        s.xfers[tid].dest == from || s.xfers[tid].sender == from,
    ensures
        ({
            let x = s.xfers[tid];
            let (n, r) = reject_transfer(s, from, tid);
            &&& r is Ok
            &&& s.eps.contains_key(x.ep) ==> n.eps[x.ep].holder == x.restore
            &&& x.restore == Holder::Host || x.restore == Holder::Peer(x.sender)
            &&& n.results[tid] == (x.sender, Cause::Graceful)
            &&& status_of(n, tid) == XFER_ST_ABORTED
        }),
{
    assert(homes(s, tid) <= 1);
    assert(xfer_record_ok(tid, s.xfers[tid]));
}

/// A committed transfer is never undone: accepting, rejecting or forcing it
/// off once more moves no authority.
pub proof fn law_commit_is_final(s: State, from: PeerId, tid: TransferId)
    requires
        inv(s),
        status_of(s, tid) == XFER_ST_COMMITTED,
    ensures
        accept_transfer(s, from, tid) == (s, Ok::<Outcome, Poison>(Outcome::none())),
        reject_transfer(s, from, tid) == (s, Ok::<Outcome, Poison>(Outcome::none())),
        force_abort(s, tid).0 == s,
{
    if s.xfers.contains_key(tid) {
        assert(xfer_record_ok(tid, s.xfers[tid]));
    }
}

/// Accepting twice is accepting once.
pub proof fn law_accept_is_idempotent(s: State, from: PeerId, tid: TransferId)
    requires
        inv(s),
        s.peers.contains_key(from),
        accept_transfer(s, from, tid).1 is Ok,
    ensures
        accept_transfer(accept_transfer(s, from, tid).0, from, tid) == (
            accept_transfer(s, from, tid).0,
            Ok::<Outcome, Poison>(Outcome::none()),
        ),
{
    let n = accept_transfer(s, from, tid).0;
    assert(homes(s, tid) <= 1);
    if s.xfers.contains_key(tid) {
        assert(xfer_record_ok(tid, s.xfers[tid]));
    }
}

/// Acknowledging twice is acknowledging once.
pub proof fn law_ack_is_idempotent(s: State, from: PeerId, tid: TransferId)
    requires
        inv(s),
    ensures
        acknowledge(acknowledge(s, from, tid), from, tid) == acknowledge(s, from, tid),
{
    assert(homes(s, tid) <= 1);
}

/// A result waits for the peer that it is kept for: no transfer control of
/// anybody else removes it, nor does that peer by anything but an
/// acknowledgement. So it is for endpoints, native resources and regions.
pub proof fn law_result_waits_for_sender(s: State, from: PeerId, msg: XferMsg, tid: TransferId)
    requires
        inv(s),
    ensures
        ({
            let n = xfer(s, from, msg).0;
            let ack = msg == (XferMsg::ResultAck { tid });
            &&& s.results.contains_key(tid) && !(ack && from == s.results[tid].0)
                ==> n.results.contains_key(tid) && n.results[tid] == s.results[tid] && status_of(n, tid)
                == status_of(s, tid)
            &&& s.native_results.contains_key(tid) && !(ack && from == s.native_results[tid].0)
                ==> n.native_results.contains_key(tid) && n.native_results[tid]
                == s.native_results[tid] && status_of(n, tid) == status_of(s, tid)
            &&& s.shared_results.contains_key(tid) && !(ack && from == s.shared_results[tid].0)
                ==> n.shared_results.contains_key(tid) && n.shared_results[tid]
                == s.shared_results[tid] && status_of(n, tid) == status_of(s, tid)
        }),
{
    assert(homes(s, tid) <= 1);
    lemma_xfer(s, from, msg);
    assert(homes(xfer(s, from, msg).0, tid) <= 1);
}

/// The peer that a result is kept for, if there is one.
pub open spec fn kept_for(s: State, tid: TransferId) -> Option<PeerId> {
    if s.results.contains_key(tid) {
        Some(s.results[tid].0)
    } else if s.native_results.contains_key(tid) {
        Some(s.native_results[tid].0)
    } else if s.shared_results.contains_key(tid) {
        Some(s.shared_results[tid].0)
    } else {
        None
    }
}

/// An acknowledgement is always taken and answered with nothing. That of the
/// peer that the result is kept for retires it, so that the transfer is
/// unknown from then on; that of any other peer changes nothing at all.
pub proof fn law_only_the_owed_peer_retires(s: State, from: PeerId, tid: TransferId)
    requires
        inv(s),
        gate(s, from) is None,
        kept_for(s, tid) is Some,
    ensures
        ({
            let (n, r) = xfer(s, from, XferMsg::ResultAck { tid });
            &&& r == Ok::<Outcome, Poison>(Outcome::none())
            &&& kept_for(s, tid) == Some(from) ==> status_of(n, tid) == XFER_ST_UNKNOWN && kept_for(n, tid)
                is None
            &&& kept_for(s, tid) != Some(from) ==> n == s
        }),
{
    assert(homes(s, tid) <= 1);
}

/// The result of a region transfer is kept for its sender, and that of a
/// grant of the host for the recipient.
pub proof fn law_region_results_are_kept(s: State, p: PeerId, tid: TransferId)
    requires
        inv(s),
        s.shared_pending.contains_key(tid),
    ensures
        commit_shared(s, tid).1 is Ok ==> kept_for(commit_shared(s, tid).0, tid) == Some(
            owed_to(s.shared_pending[tid]),
        ),
        kept_for(abort_shared(s, tid).0, tid) == Some(owed_to(s.shared_pending[tid])),
        kept_for(settle_shared(s, p, tid), tid) == Some(owed_to(s.shared_pending[tid])),
{
    assert(homes(s, tid) <= 1);
}

/// Nor do messages, closes or new conversations.
pub proof fn law_result_survives_traffic(
    s: State,
    from: PeerId,
    d: DataView,
    target: EpId,
    a: EpId,
    b: EpId,
    tid: TransferId,
)
    requires
        inv(s),
        s.results.contains_key(tid),
    ensures
        data(s, from, d).0.results == s.results,
        close(s, from, target).0.results == s.results,
        create(s, from, a, b).0.results == s.results,
{
    if gate(s, from) is None && claim(s, from, d.target) is Held && check_all(
        s,
        from,
        d.attachments,
    ) is Clean && s.eps[s.eps[d.target].partner].holder is Peer && d.attachments.len() + s.xfers.len()
        + s.results.len() <= s.lim.max_pending_transfers {
        let dest = s.eps[s.eps[d.target].partner].holder->Peer_0;
        assert forall|i: int| 0 <= i < d.attachments.len() implies s.eps.contains_key(
            #[trigger] d.attachments[i].id,
        ) by {
            lemma_check_all(s, from, d.attachments, i);
        }
        lemma_escrow_all(s, from, dest, d.attachments);
    }
}

/// Results that nobody acknowledges bound new work: with the table full, an
/// offer of the host is refused and a message that offers an endpoint is
/// turned away with its sender still the holder.
pub proof fn law_unacked_results_bound_work(
    s: State,
    from: PeerId,
    d: DataView,
    ep: EpId,
    tid: TransferId,
)
    requires
        inv(s),
        s.xfers.len() + s.results.len() >= s.lim.max_pending_transfers,
        d.attachments.len() > 0,
    ensures
        grant(s, from, ep, tid) == (s, Err::<FrameView, Poison>(Poison("pending transfer table full"))),
        data(s, from, d).0 == s,
{
}

// -------------------------------------------------------------------- regions --

/// The writer of a region changes only by committing a writable offer of the
/// writer itself, and then to the recipient: a reader never becomes a writer
/// by its own claim.
pub proof fn law_writer_moves_only_by_its_offer(s: State, tid: TransferId, rid: RegionId)
    requires
        inv(s),
        s.regions.contains_key(rid),
        commit_shared(s, tid).0.regions[rid].writable != s.regions[rid].writable,
    ensures
        ({
            let rec = s.shared_pending[tid];
            &&& rec.rid == rid
            &&& rec.rights == Rights::ReadWrite
            &&& s.regions[rid].writable == Some(rec.sender)
            &&& commit_shared(s, tid).0.regions[rid].writable == Some(rec.dest)
        }),
{
}

/// A message moves no rights over regions: an offer leaves authority where it
/// was until the recipient accepts.
pub proof fn law_offers_move_no_rights(s: State, from: PeerId, d: DataView)
    requires
        inv(s),
    ensures
        data(s, from, d).0.regions == s.regions,
{
    if gate(s, from) is None && claim(s, from, d.target) is Held && check_all(
        s,
        from,
        d.attachments,
    ) is Clean && s.eps[s.eps[d.target].partner].holder is Peer && d.attachments.len() + s.xfers.len()
        + s.results.len() <= s.lim.max_pending_transfers {
        let dest = s.eps[s.eps[d.target].partner].holder->Peer_0;
        assert forall|i: int| 0 <= i < d.attachments.len() implies s.eps.contains_key(
            #[trigger] d.attachments[i].id,
        ) by {
            lemma_check_all(s, from, d.attachments, i);
        }
        lemma_escrow_all(s, from, dest, d.attachments);
    }
}

// ----------------------------------------------------------------- peer death --

/// The death of a peer leaves nothing with it: no endpoint, no offer that
/// would return to it, no right over a region.
pub proof fn law_death_leaves_nothing(
    s: State,
    p: PeerId,
    cause: Cause,
    e: EpId,
    tid: TransferId,
    rid: RegionId,
)
    requires
        inv(s),
    ensures
        ({
            let n = gone(s, p, cause).0;
            &&& inv(n)
            &&& !n.peers.contains_key(p)
            &&& n.eps.contains_key(e) ==> n.eps[e].holder != Holder::Peer(p)
            &&& n.xfers.contains_key(tid) ==> n.xfers[tid].restore != Holder::Peer(p)
            &&& n.regions.contains_key(rid) && p != PeerId(HOST_PEER) ==> !n.regions[rid].held_by(p)
        }),
{
    lemma_gone(s, p, cause);
    let n = gone(s, p, cause).0;
    if n.regions.contains_key(rid) {
        assert(n.regions[rid].held_by(p) ==> live_or(n, p, None) || p == PeerId(HOST_PEER));
    }
}

/// While the transfers listed are settled, each of them ends as aborted, and
/// what is not listed stays.
proof fn lemma_settled_results(s: State, p: PeerId, cause: Cause, tids: Seq<TransferId>, tid: TransferId)
    requires
        inv_but(s, Some(p)),
        s.xfers.contains_key(tid),
        tids.contains(tid),
    ensures
        settle_xfers(s, p, cause, tids).0.results.contains_key(tid),
        settle_xfers(s, p, cause, tids).0.results[tid] == (s.xfers[tid].sender, Cause::Graceful),
    decreases tids.len(),
{
    let front = tids.drop_last();
    let m = settle_xfers(s, p, cause, front).0;
    lemma_settle_xfers(s, p, cause, front);
    if front.contains(tid) {
        lemma_settled_results(s, p, cause, front, tid);
        if m.xfers.contains_key(tid) {
            assert(!front.contains(tid));
        }
    } else {
        let i = tids.index_of(tid);
        assert(tids[i] == tid);
        if i < tids.len() - 1 {
            assert(front[i] == tid);
        }
        lemma_unsettled(s, p, cause, front, tid);
    }
}

/// A transfer that is not listed is not settled.
proof fn lemma_unsettled(s: State, p: PeerId, cause: Cause, tids: Seq<TransferId>, tid: TransferId)
    requires
        inv_but(s, Some(p)),
        s.xfers.contains_key(tid),
        !tids.contains(tid),
    ensures
        settle_xfers(s, p, cause, tids).0.xfers.contains_key(tid),
        settle_xfers(s, p, cause, tids).0.xfers[tid] == s.xfers[tid],
    decreases tids.len(),
{
    if tids.len() > 0 {
        let front = tids.drop_last();
        assert(!front.contains(tid)) by {
            if front.contains(tid) {
                let i = front.index_of(tid);
                assert(tids[i] == tid);
            }
        }
        lemma_settle_xfers(s, p, cause, front);
        lemma_unsettled(s, p, cause, front, tid);
        lemma_settle_xfer(settle_xfers(s, p, cause, front).0, p, cause, tids.last());
        assert(tids[tids.len() - 1] != tid);
    }
}

/// The remaining steps of a death leave the results of endpoint transfers.
proof fn lemma_rest_keeps_results(s: State, p: PeerId, cause: Cause)
    requires
        inv(s),
    ensures
        ({
            let s1 = forget_peer(s, p);
            gone(s, p, cause).0.results == settle_xfers(s1, p, cause, xfers_of(s1, p)).0.results
                && gone(s, p, cause).0.xfers == settle_xfers(s1, p, cause, xfers_of(s1, p)).0.xfers
        }),
{
    let s1 = forget_peer(s, p);
    let s2 = settle_xfers(s1, p, cause, xfers_of(s1, p)).0;
    let s3 = settle_natives(s2, p, natives_of(s2, p));
    lemma_natives_results(s2, p, natives_of(s2, p));
    let s4 = settle_shareds(s3, p, shareds_of(s3, p));
    lemma_shareds_results(s3, p, shareds_of(s3, p));
    let s5 = purge_regions(s4, p);
    lemma_ends_results(s5, p, cause, touched(s1, p));
}

proof fn lemma_natives_results(s: State, p: PeerId, tids: Seq<TransferId>)
    ensures
        settle_natives(s, p, tids).results == s.results,
        settle_natives(s, p, tids).xfers == s.xfers,
        settle_natives(s, p, tids).eps == s.eps,
    decreases tids.len(),
{
    if tids.len() > 0 {
        lemma_natives_results(s, p, tids.drop_last());
    }
}

proof fn lemma_shareds_results(s: State, p: PeerId, tids: Seq<TransferId>)
    ensures
        settle_shareds(s, p, tids).results == s.results,
        settle_shareds(s, p, tids).xfers == s.xfers,
        settle_shareds(s, p, tids).eps == s.eps,
    decreases tids.len(),
{
    if tids.len() > 0 {
        lemma_shareds_results(s, p, tids.drop_last());
    }
}

proof fn lemma_ends_results(s: State, p: PeerId, cause: Cause, sides: Seq<EpId>)
    ensures
        settle_ends(s, p, cause, sides).0.results == s.results,
        settle_ends(s, p, cause, sides).0.xfers == s.xfers,
    decreases sides.len(),
{
    if sides.len() > 0 {
        lemma_ends_results(s, p, cause, sides.drop_last());
    }
}

/// A transfer that a dead peer took part in ends as aborted, whichever side
/// died.
pub proof fn law_death_aborts(s: State, p: PeerId, cause: Cause, tid: TransferId)
    requires
        inv(s),
        s.xfers.contains_key(tid),
        s.xfers[tid].sender == p || s.xfers[tid].dest == p,
    ensures
        ({
            let n = gone(s, p, cause).0;
            &&& !n.xfers.contains_key(tid)
            &&& n.results.contains_key(tid)
            &&& n.results[tid] == (s.xfers[tid].sender, Cause::Graceful)
            &&& status_of(n, tid) == XFER_ST_ABORTED
        }),
{
    let s1 = forget_peer(s, p);
    let tids = xfers_of(s1, p);
    lemma_forget_peer(s, p);
    crate::table::lemma_filtered_keys(
        s1.xfers.dom(),
        |t: TransferId|
            s1.xfers[t].phase == XferPhase::Offered && (s1.xfers[t].sender == p || s1.xfers[t].dest
                == p),
    );
    assert(xfer_record_ok(tid, s.xfers[tid]));
    assert(s1.xfers.dom().contains(tid));
    assert(tids.contains(tid));
    lemma_settled_results(s1, p, cause, tids, tid);
    lemma_settle_xfers(s1, p, cause, tids);
    lemma_rest_keeps_results(s, p, cause);
    let s2 = settle_xfers(s1, p, cause, tids).0;
    assert(!s2.xfers.contains_key(tid));
    lemma_gone(s, p, cause);
    assert(homes(gone(s, p, cause).0, tid) <= 1);
}

/// The conversation that a dead sender had offered dies with it. The endpoint
/// is remembered as dead, if no more endpoints died than can be remembered.
pub proof fn law_sender_death_kills_offer(s: State, p: PeerId, cause: Cause, tid: TransferId)
    requires
        inv(s),
        s.xfers.contains_key(tid),
        s.xfers[tid].sender == p,
    ensures
        ({
            let n = gone(s, p, cause).0;
            let e = s.xfers[tid].ep;
            &&& !n.eps.contains_key(e)
            &&& s.eps.contains_key(e) && s.eps.len() - n.eps.len() <= s.lim.max_retired ==> n.retired.has(e)
        }),
{
    let s1 = forget_peer(s, p);
    let tids = xfers_of(s1, p);
    lemma_forget_peer(s, p);
    crate::table::lemma_filtered_keys(
        s1.xfers.dom(),
        |t: TransferId|
            s1.xfers[t].phase == XferPhase::Offered && (s1.xfers[t].sender == p || s1.xfers[t].dest
                == p),
    );
    assert(xfer_record_ok(tid, s.xfers[tid]));
    assert(s1.xfers.dom().contains(tid));
    assert(tids.contains(tid));
    lemma_offer_killed(s1, p, cause, tids, tid);
    let s2 = settle_xfers(s1, p, cause, tids).0;
    lemma_settle_xfers(s1, p, cause, tids);
    let s3 = settle_natives(s2, p, natives_of(s2, p));
    lemma_natives_results(s2, p, natives_of(s2, p));
    lemma_settle_natives(s2, p, natives_of(s2, p));
    let s4 = settle_shareds(s3, p, shareds_of(s3, p));
    lemma_shareds_results(s3, p, shareds_of(s3, p));
    lemma_settle_shareds(s3, p, shareds_of(s3, p));
    let s5 = purge_regions(s4, p);
    lemma_ends_shrink(s5, p, cause, touched(s1, p));
    if s.eps.contains_key(s.xfers[tid].ep) && s.eps.len() - gone(s, p, cause).0.eps.len()
        <= s.lim.max_retired {
        law_the_dead_are_remembered(s, p, cause, s.xfers[tid].ep);
    }
}

/// Is `e` among the last `d` that the ledger recorded?
spec fn recent(l: Ledger<EpId>, e: EpId, d: int) -> bool {
    exists|i: int| l.order.len() - d <= i < l.order.len() && 0 <= i && #[trigger] l.order[i] == e
}

/// From `s` to `m` endpoints only died, and those that did are the last that
/// were recorded, if they could all be remembered.
spec fn recalled(s: State, m: State) -> bool {
    let d = s.eps.len() - m.eps.len();
    &&& m.eps.dom().subset_of(s.eps.dom())
    &&& m.lim == s.lim
    &&& d <= m.lim.max_retired ==> forall|e: EpId| #[trigger]
        s.eps.contains_key(e) && !m.eps.contains_key(e) ==> recent(m.retired, e, d)
}

/// Recording one more, which was not remembered: it is the most recent, and
/// the others are one further back.
proof fn lemma_recent(l: Ledger<EpId>, id: EpId, cause: Cause, e: EpId, d: int)
    requires
        l.wf(),
        !l.has(id),
        0 <= d < l.cap,
        recent(l, e, d) || e == id,
    ensures
        recent(l.insert(id, cause), e, d + 1),
{
    let n = l.insert(id, cause);
    let order = l.order.push(id);
    if e == id {
        assert(order[l.order.len() as int] == id);
        assert(n.order[n.order.len() - 1] == id);
    } else {
        let i = choose|i: int|
            l.order.len() - d <= i < l.order.len() && 0 <= i && #[trigger] l.order[i] == e;
        assert(order[i] == e);
        if order.len() > l.cap {
            assert(n.order[i - 1] == e);
        } else {
            assert(n.order[i] == e);
        }
    }
}

proof fn lemma_recalled_close(s: State, m: State, side: EpId, cause: Cause, except: Option<PeerId>)
    requires
        s.eps.dom().finite(),
        inv_but(m, except),
        recalled(s, m),
    ensures
        recalled(s, close_pair(m, side, cause)),
{
    let n = close_pair(m, side, cause);
    if m.eps.contains_key(side) {
        let partner = m.eps[side].partner;
        assert(m.eps.contains_key(partner));
        assert(n.eps.dom() =~= m.eps.dom().remove(side).remove(partner));
        assert(n.eps.len() == m.eps.len() - 2);
        let d = s.eps.len() - m.eps.len();
        vstd::set_lib::lemma_len_subset(m.eps.dom(), s.eps.dom());
        assert(s.eps.contains_key(side)) by {
            assert(m.eps.dom().contains(side));
        }
        let l1 = m.retired.insert(side, cause);
        m.retired.lemma_insert_wf(side, cause);
        assert(!m.retired.has(side));
        assert(!m.retired.has(partner));
        assert(!l1.has(partner));
        if d + 2 <= m.lim.max_retired {
            assert forall|e: EpId| #[trigger]
                s.eps.contains_key(e) && !n.eps.contains_key(e) implies recent(
                n.retired,
                e,
                d + 2,
            ) by {
                if e != partner {
                    if e != side {
                        assert(!m.eps.contains_key(e));
                    }
                    lemma_recent(m.retired, side, cause, e, d);
                }
                lemma_recent(l1, partner, cause, e, d + 1);
            }
        }
    }
}

proof fn lemma_recalled_xfers(s: State, m: State, p: PeerId, cause: Cause, tids: Seq<TransferId>)
    requires
        s.eps.dom().finite(),
        inv_but(m, Some(p)),
        recalled(s, m),
    ensures
        recalled(s, settle_xfers(m, p, cause, tids).0),
    decreases tids.len(),
{
    if tids.len() > 0 {
        let front = tids.drop_last();
        let k = settle_xfers(m, p, cause, front).0;
        let tid = tids.last();
        lemma_recalled_xfers(s, m, p, cause, front);
        lemma_settle_xfers(m, p, cause, front);
        let n = settle_xfer(k, p, cause, tid).0;
        if k.xfers.contains_key(tid) {
            let x = k.xfers[tid];
            if x.sender == p {
                lemma_recalled_close(s, k, x.ep, cause, Some(p));
                assert(n.eps == close_pair(k, x.ep, cause).eps);
                assert(n.retired == close_pair(k, x.ep, cause).retired);
            } else {
                assert(n.eps.dom() =~= k.eps.dom());
                assert(n.eps.len() == k.eps.len());
                assert(n.retired == k.retired);
                assert forall|e: EpId| #[trigger]
                    s.eps.contains_key(e) && !n.eps.contains_key(e) implies !k.eps.contains_key(e) by {
                    assert(!n.eps.dom().contains(e));
                }
            }
        }
    }
}

proof fn lemma_recalled_ends(s: State, m: State, p: PeerId, cause: Cause, sides: Seq<EpId>)
    requires
        s.eps.dom().finite(),
        inv_but(m, Some(p)),
        recalled(s, m),
    ensures
        recalled(s, settle_ends(m, p, cause, sides).0),
    decreases sides.len(),
{
    if sides.len() > 0 {
        let front = sides.drop_last();
        let k = settle_ends(m, p, cause, front).0;
        lemma_recalled_ends(s, m, p, cause, front);
        lemma_settle_ends(m, p, cause, front);
        lemma_recalled_close(s, k, sides.last(), cause, Some(p));
        let n = settle_end(k, p, cause, sides.last()).0;
        let c = close_pair(k, sides.last(), cause);
        assert(n.eps == c.eps && n.retired == c.retired && n.lim == c.lim);
    }
}

proof fn lemma_others_keep_ledger(s: State, p: PeerId, natives: Seq<TransferId>, shareds: Seq<TransferId>)
    ensures
        settle_natives(s, p, natives).retired == s.retired,
        settle_natives(s, p, natives).lim == s.lim,
        settle_shareds(s, p, shareds).retired == s.retired,
        settle_shareds(s, p, shareds).lim == s.lim,
    decreases natives.len() + shareds.len(),
{
    if natives.len() > 0 {
        lemma_others_keep_ledger(s, p, natives.drop_last(), shareds);
    }
    if shareds.len() > 0 {
        lemma_others_keep_ledger(s, p, natives, shareds.drop_last());
    }
}

/// An endpoint that the death of a peer takes with it is remembered as dead,
/// if no more endpoints died than can be remembered.
pub proof fn law_the_dead_are_remembered(s: State, p: PeerId, cause: Cause, e: EpId)
    requires
        inv(s),
        s.eps.contains_key(e),
        !gone(s, p, cause).0.eps.contains_key(e),
        s.eps.len() - gone(s, p, cause).0.eps.len() <= s.lim.max_retired,
    ensures
        gone(s, p, cause).0.retired.has(e),
{
    let s1 = forget_peer(s, p);
    let tids = xfers_of(s1, p);
    lemma_forget_peer(s, p);
    assert(recalled(s, s1));
    lemma_recalled_xfers(s, s1, p, cause, tids);
    lemma_settle_xfers(s1, p, cause, tids);
    let s2 = settle_xfers(s1, p, cause, tids).0;
    let s3 = settle_natives(s2, p, natives_of(s2, p));
    lemma_settle_natives(s2, p, natives_of(s2, p));
    lemma_others_keep_ledger(s2, p, natives_of(s2, p), Seq::empty());
    let s4 = settle_shareds(s3, p, shareds_of(s3, p));
    lemma_settle_shareds(s3, p, shareds_of(s3, p));
    lemma_others_keep_ledger(s3, p, Seq::empty(), shareds_of(s3, p));
    lemma_purge(s4, p);
    let s5 = purge_regions(s4, p);
    assert(s5.eps == s2.eps && s5.retired == s2.retired && s5.lim == s2.lim);
    assert(recalled(s, s5));
    lemma_recalled_ends(s, s5, p, cause, touched(s1, p));
    let n = gone(s, p, cause).0;
    lemma_gone(s, p, cause);
    assert(recent(n.retired, e, s.eps.len() - n.eps.len()));
    let i = choose|i: int|
        n.retired.order.len() - (s.eps.len() - n.eps.len()) <= i < n.retired.order.len() && 0 <= i
            && #[trigger] n.retired.order[i] == e;
    assert(n.retired.order.contains(e));
}

/// What a dead peer held dies with it, and so does the other end of the
/// conversation: authority that was committed to it never goes back. Both are
/// remembered as dead, if no more endpoints died than can be remembered.
pub proof fn law_death_ends_conversations(s: State, p: PeerId, cause: Cause, e: EpId)
    requires
        inv(s),
        s.eps.contains_key(e),
        s.eps[e].holder == Holder::Peer(p),
    ensures
        ({
            let n = gone(s, p, cause).0;
            let partner = s.eps[e].partner;
            &&& !n.eps.contains_key(e)
            &&& !n.eps.contains_key(partner)
            &&& s.eps.len() - n.eps.len() <= s.lim.max_retired ==> n.retired.has(e) && n.retired.has(
                partner,
            )
        }),
{
    let s1 = forget_peer(s, p);
    let tids = xfers_of(s1, p);
    let sides = touched(s1, p);
    lemma_forget_peer(s, p);
    lemma_settle_xfers(s1, p, cause, tids);
    let s2 = settle_xfers(s1, p, cause, tids).0;
    let s3 = settle_natives(s2, p, natives_of(s2, p));
    lemma_settle_natives(s2, p, natives_of(s2, p));
    let s4 = settle_shareds(s3, p, shareds_of(s3, p));
    lemma_settle_shareds(s3, p, shareds_of(s3, p));
    lemma_purge(s4, p);
    let s5 = purge_regions(s4, p);
    lemma_settle_ends(s5, p, cause, sides);
    crate::table::lemma_filtered_keys(s1.eps.dom(), |e: EpId| s1.eps[e].holder == Holder::Peer(p));
    assert(s1.eps.dom().contains(e));
    assert(sides.contains(e));
    let n = gone(s, p, cause).0;
    lemma_gone(s, p, cause);
    let partner = s.eps[e].partner;
    assert(s.eps.contains_key(partner));
    if n.eps.contains_key(partner) {
        lemma_partners_stay(s, p, cause, partner);
        assert(n.eps[partner].partner == e);
    }
    if s.eps.len() - n.eps.len() <= s.lim.max_retired {
        law_the_dead_are_remembered(s, p, cause, e);
        law_the_dead_are_remembered(s, p, cause, partner);
    }
}

/// An endpoint that outlives the death of a peer keeps its partner.
proof fn lemma_partners_stay(s: State, p: PeerId, cause: Cause, e: EpId)
    requires
        inv(s),
        gone(s, p, cause).0.eps.contains_key(e),
    ensures
        s.eps.contains_key(e),
        gone(s, p, cause).0.eps[e].partner == s.eps[e].partner,
{
    let s1 = forget_peer(s, p);
    let tids = xfers_of(s1, p);
    lemma_forget_peer(s, p);
    lemma_settle_xfers(s1, p, cause, tids);
    lemma_settling_keeps_partner(s1, p, cause, tids, e);
    let s2 = settle_xfers(s1, p, cause, tids).0;
    let s3 = settle_natives(s2, p, natives_of(s2, p));
    lemma_settle_natives(s2, p, natives_of(s2, p));
    let s4 = settle_shareds(s3, p, shareds_of(s3, p));
    lemma_settle_shareds(s3, p, shareds_of(s3, p));
    lemma_purge(s4, p);
    lemma_settle_ends(purge_regions(s4, p), p, cause, touched(s1, p));
}

proof fn lemma_settling_keeps_partner(
    s: State,
    p: PeerId,
    cause: Cause,
    tids: Seq<TransferId>,
    e: EpId,
)
    requires
        inv_but(s, Some(p)),
    ensures
        ({
            let n = settle_xfers(s, p, cause, tids).0;
            n.eps.contains_key(e) ==> s.eps.contains_key(e) && n.eps[e].partner == s.eps[e].partner
        }),
    decreases tids.len(),
{
    if tids.len() > 0 {
        let front = tids.drop_last();
        let m = settle_xfers(s, p, cause, front).0;
        lemma_settling_keeps_partner(s, p, cause, front, e);
        lemma_settle_xfers(s, p, cause, front);
        lemma_settle_xfer(m, p, cause, tids.last());
    }
}

/// Settling conversations only takes endpoints out.
proof fn lemma_ends_shrink(s: State, p: PeerId, cause: Cause, sides: Seq<EpId>)
    ensures
        forall|e: EpId| #[trigger]
            settle_ends(s, p, cause, sides).0.eps.contains_key(e) ==> s.eps.contains_key(e),
    decreases sides.len(),
{
    if sides.len() > 0 {
        lemma_ends_shrink(s, p, cause, sides.drop_last());
        let m = settle_ends(s, p, cause, sides.drop_last()).0;
        let n = settle_ends(s, p, cause, sides).0;
        assert forall|e: EpId| #[trigger] n.eps.contains_key(e) implies s.eps.contains_key(e) by {
            assert(m.eps.contains_key(e));
        }
    }
}

proof fn lemma_offer_killed(s: State, p: PeerId, cause: Cause, tids: Seq<TransferId>, tid: TransferId)
    requires
        inv_but(s, Some(p)),
        s.xfers.contains_key(tid),
        s.xfers[tid].sender == p,
        tids.contains(tid),
    ensures
        !settle_xfers(s, p, cause, tids).0.eps.contains_key(s.xfers[tid].ep),
    decreases tids.len(),
{
    let front = tids.drop_last();
    let m = settle_xfers(s, p, cause, front).0;
    lemma_settle_xfers(s, p, cause, front);
    lemma_settle_xfer(m, p, cause, tids.last());
    if front.contains(tid) {
        lemma_offer_killed(s, p, cause, front, tid);
    } else {
        let i = tids.index_of(tid);
        assert(tids[i] == tid);
        if i < tids.len() - 1 {
            assert(front[i] == tid);
        }
        lemma_unsettled(s, p, cause, front, tid);
        lemma_close_pair(m, s.xfers[tid].ep, cause, Some(p));
    }
}

/// What one step of a death does to an endpoint `e` that the dead peer was
/// offered: nothing, until its own transfer is settled.
spec fn offer_stands(m: State, e: EpId, q: EpId, p: PeerId, tid: TransferId, restore: Holder, settled: bool) -> bool {
    &&& m.eps.contains_key(e)
    &&& m.eps[e].partner == q
    &&& m.eps[e].holder == (if settled {
        restore
    } else {
        Holder::Escrow(tid)
    })
    &&& m.eps.contains_key(q)
    &&& m.eps[q].partner == e
    &&& m.eps[q].holder != Holder::Peer(p)
}

proof fn lemma_offer_returns(
    s: State,
    p: PeerId,
    cause: Cause,
    tids: Seq<TransferId>,
    tid: TransferId,
    e: EpId,
    q: EpId,
)
    requires
        inv_but(s, Some(p)),
        s.xfers.contains_key(tid),
        s.xfers[tid].ep == e,
        s.xfers[tid].sender != p,
        offer_stands(s, e, q, p, tid, s.xfers[tid].restore, false),
        forall|t: TransferId| #[trigger]
            s.xfers.contains_key(t) && t != tid ==> s.xfers[t].ep != e && (s.xfers[t].sender == p
                ==> s.xfers[t].ep != q),
    ensures
        offer_stands(
            settle_xfers(s, p, cause, tids).0,
            e,
            q,
            p,
            tid,
            s.xfers[tid].restore,
            tids.contains(tid),
        ),
    decreases tids.len(),
{
    if tids.len() > 0 {
        let front = tids.drop_last();
        let m = settle_xfers(s, p, cause, front).0;
        let t = tids.last();
        lemma_settle_xfers(s, p, cause, front);
        lemma_offer_returns(s, p, cause, front, tid, e, q);
        let n = settle_xfer(m, p, cause, t).0;
        assert(tids.contains(tid) == (front.contains(tid) || t == tid)) by {
            if front.contains(tid) {
                assert(tids[front.index_of(tid)] == tid);
            }
            if tids.contains(tid) {
                let i = tids.index_of(tid);
                if i < tids.len() - 1 {
                    assert(front[i] == tid);
                }
            }
            assert(tids[tids.len() - 1] == t);
        }
        if m.xfers.contains_key(t) {
            assert(s.xfers.contains_key(t) && s.xfers[t] == m.xfers[t]);
            assert(!front.contains(t));
            let x = m.xfers[t];
            if t == tid {
                assert(!front.contains(tid));
                assert(xfer_record_ok(tid, x));
            } else if x.sender == p {
                if m.eps.contains_key(x.ep) {
                    assert(m.eps.contains_key(m.eps[x.ep].partner));
                    assert(m.eps[x.ep].partner != e);
                    assert(m.eps[x.ep].partner != q);
                }
            } else {
                assert(xfer_record_ok(t, x));
            }
        } else if t == tid {
            if !front.contains(tid) {
                lemma_unsettled(s, p, cause, front, tid);
            }
        }
    } else {
        assert(!tids.contains(tid));
    }
}

proof fn lemma_ends_spare(s: State, p: PeerId, cause: Cause, sides: Seq<EpId>, e: EpId, q: EpId)
    requires
        inv_but(s, Some(p)),
        s.eps.contains_key(e),
        s.eps[e].partner == q,
        !sides.contains(e),
        !sides.contains(q),
    ensures
        settle_ends(s, p, cause, sides).0.eps.contains_key(e),
        settle_ends(s, p, cause, sides).0.eps[e] == s.eps[e],
    decreases sides.len(),
{
    if sides.len() > 0 {
        let front = sides.drop_last();
        let side = sides.last();
        assert(sides[sides.len() - 1] == side);
        assert(!front.contains(e) && !front.contains(q)) by {
            if front.contains(e) {
                assert(sides[front.index_of(e)] == e);
            }
            if front.contains(q) {
                assert(sides[front.index_of(q)] == q);
            }
        }
        lemma_ends_spare(s, p, cause, front, e, q);
        lemma_settle_ends(s, p, cause, front);
        let m = settle_ends(s, p, cause, front).0;
        if m.eps.contains_key(side) {
            assert(m.eps[side].partner != e) by {
                assert(m.eps.contains_key(m.eps[side].partner));
                if m.eps[side].partner == e {
                    assert(m.eps[e].partner == side);
                }
            }
        }
    }
}

/// Does the death of `p` spare the endpoint? It does not if `p` holds it or
/// has it on offer.
pub open spec fn spared(s: State, p: PeerId, e: EpId) -> bool {
    match s.eps[e].holder {
        Holder::Peer(q) => q != p,
        Holder::Host => true,
        Holder::Escrow(t) => s.xfers[t].sender != p,
    }
}

/// What a dead peer had been offered and had not accepted goes back: to the
/// sender, or to the host. That is unless the conversation dies at its other
/// end.
pub proof fn law_recipient_death_restores(s: State, p: PeerId, cause: Cause, tid: TransferId)
    requires
        inv(s),
        offers_escrowed(s),
        s.xfers.contains_key(tid),
        s.xfers[tid].dest == p,
        s.xfers[tid].sender != p,
        s.eps.contains_key(s.xfers[tid].ep),
        spared(s, p, s.eps[s.xfers[tid].ep].partner),
    ensures
        ({
            let n = gone(s, p, cause).0;
            &&& n.eps.contains_key(s.xfers[tid].ep)
            &&& n.eps[s.xfers[tid].ep].holder == s.xfers[tid].restore
            &&& status_of(n, tid) == XFER_ST_ABORTED
        }),
{
    let x = s.xfers[tid];
    let e = x.ep;
    let q = s.eps[e].partner;
    let s1 = forget_peer(s, p);
    let tids = xfers_of(s1, p);
    lemma_forget_peer(s, p);
    law_death_aborts(s, p, cause, tid);
    crate::table::lemma_filtered_keys(
        s1.xfers.dom(),
        |t: TransferId|
            s1.xfers[t].phase == XferPhase::Offered && (s1.xfers[t].sender == p || s1.xfers[t].dest
                == p),
    );
    crate::table::lemma_filtered_keys(s1.eps.dom(), |e: EpId| s1.eps[e].holder == Holder::Peer(p));
    assert(xfer_record_ok(tid, x));
    assert(s1.xfers.dom().contains(tid));
    assert(tids.contains(tid));
    assert(s.eps.contains_key(q));
    assert forall|t: TransferId| #[trigger]
        s1.xfers.contains_key(t) && t != tid implies s1.xfers[t].ep != e && (s1.xfers[t].sender == p
        ==> s1.xfers[t].ep != q) by {
        assert(s.xfers.contains_key(t));
    }
    lemma_offer_returns(s1, p, cause, tids, tid, e, q);
    lemma_settle_xfers(s1, p, cause, tids);
    let s2 = settle_xfers(s1, p, cause, tids).0;
    let s3 = settle_natives(s2, p, natives_of(s2, p));
    lemma_natives_results(s2, p, natives_of(s2, p));
    lemma_settle_natives(s2, p, natives_of(s2, p));
    let s4 = settle_shareds(s3, p, shareds_of(s3, p));
    lemma_shareds_results(s3, p, shareds_of(s3, p));
    lemma_settle_shareds(s3, p, shareds_of(s3, p));
    lemma_purge(s4, p);
    let s5 = purge_regions(s4, p);
    let sides = touched(s1, p);
    assert(!sides.contains(e));
    assert(!sides.contains(q));
    lemma_ends_spare(s5, p, cause, sides, e, q);
}

/// An endpoint is on its way from one peer to another, and the sender holds
/// the other end. If the recipient dies, the endpoint is the sender's again
/// and the transfer is aborted. If the sender dies, the endpoint is dead. If
/// the recipient accepts first and dies then, the endpoint is dead and does
/// not go back. Authority is conserved in each case; the dead endpoint is
/// remembered, if no more endpoints died than can be remembered.
pub proof fn law_death_decides_the_offer(
    s: State,
    a: PeerId,
    b: PeerId,
    cause: Cause,
    tid: TransferId,
)
    requires
        inv(s),
        offers_escrowed(s),
        a != b,
        s.xfers.contains_key(tid),
        s.xfers[tid].sender == a,
        s.xfers[tid].dest == b,
        s.eps.contains_key(s.xfers[tid].ep),
        s.eps[s.eps[s.xfers[tid].ep].partner].holder == Holder::Peer(a),
        s.peers.contains_key(b),
    ensures
        ({
            let e = s.xfers[tid].ep;
            let n = gone(s, b, cause).0;
            &&& n.eps.contains_key(e) && n.eps[e].holder == Holder::Peer(a)
            &&& status_of(n, tid) == XFER_ST_ABORTED
            &&& authority_conserved(n)
        }),
        ({
            let e = s.xfers[tid].ep;
            let n = gone(s, a, cause).0;
            &&& !n.eps.contains_key(e)
            &&& s.eps.len() - n.eps.len() <= s.lim.max_retired ==> n.retired.has(e)
            &&& authority_conserved(n)
        }),
        ({
            let e = s.xfers[tid].ep;
            let c = accept_transfer(s, b, tid).0;
            let n = gone(c, b, cause).0;
            status_of(c, tid) == XFER_ST_COMMITTED ==> {
                &&& !n.eps.contains_key(e)
                &&& c.eps.len() - n.eps.len() <= c.lim.max_retired ==> n.retired.has(e)
                &&& authority_conserved(n)
            }
        }),
{
    let x = s.xfers[tid];
    assert(xfer_record_ok(tid, x));
    law_recipient_death_restores(s, b, cause, tid);
    lemma_gone(s, b, cause);
    law_sender_death_kills_offer(s, a, cause, tid);
    lemma_gone(s, a, cause);
    let c = accept_transfer(s, b, tid).0;
    if status_of(c, tid) == XFER_ST_COMMITTED {
        assert(homes(s, tid) <= 1);
        crate::router_inv::lemma_commit_xfer(s, tid);
        assert(c == commit_xfer(s, tid).0);
        law_death_ends_conversations(c, b, cause, x.ep);
        lemma_gone(c, b, cause);
    }
}

} // verus!

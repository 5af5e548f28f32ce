//! What holds of the router in every reachable state, and that each step
//! keeps it.

use vstd::prelude::*;

use crate::fabric_error::Cause;
use crate::frame::{Attachment, DataView, NativeAttachment, SharedAttachment, XferMsg};
use crate::id::{EpId, TransferId};
use crate::limits::Limits;
use crate::native::{NativeState, ResourceId};
use crate::router::{Holder, PeerId, SharedRec, XferPhase, XferRec, HOST_PEER};
use crate::router_model::{
    abort_native, abort_shared, abort_xfer, accept, acknowledge, check_all, claim, close,
    close_pair, commit_native, commit_shared, commit_xfer, create, data, escrow_all, escrow_one,
    finish, force_abort, forget_peer, fresh_pair, gate, gone, grant, grant_region, held_by, hello,
    initial, keep, natives_of, offer_native, offer_shared, purge_regions, region_move,
    room_for_pair, settle_end, settle_ends, settle_native, settle_natives, settle_shared,
    settle_shareds, settle_xfer, settle_xfers, shareds_of, taken_tid, touched, with_event,
    with_pair, xfer, xfers_of, State,
};
use crate::shared::{regions_ok, without_peer, RegionId, Regions, Rights};

verus! {

/// Every table holds finitely many entries.
pub open spec fn finite(s: State) -> bool {
    &&& s.peers.dom().finite()
    &&& s.eps.dom().finite()
    &&& s.xfers.dom().finite()
    &&& s.results.dom().finite()
    &&& s.native_pending.dom().finite()
    &&& s.native_results.dom().finite()
    &&& s.native_live.dom().finite()
    &&& s.shared_pending.dom().finite()
    &&& s.shared_results.dom().finite()
}

/// Every live endpoint has a live partner, whose partner it is.
pub open spec fn paired(s: State) -> bool {
    forall|e: EpId| #[trigger]
        s.eps.contains_key(e) ==> s.eps[e].partner != e && s.eps.contains_key(s.eps[e].partner)
            && s.eps[s.eps[e].partner].partner == e
}

/// Authority in escrow belongs to the transfer in flight that took it there.
pub open spec fn escrow_backed(s: State) -> bool {
    forall|e: EpId| #[trigger]
        s.eps.contains_key(e) ==> match s.eps[e].holder {
            Holder::Escrow(t) => s.xfers.contains_key(t) && s.xfers[t].ep == e,
            _ => true,
        }
}

/// An endpoint transfer in the table is filed under its identity, still
/// offered, and knows where authority returns: to its sender or to the host.
pub open spec fn xfer_record_ok(t: TransferId, x: XferRec) -> bool {
    &&& x.tid == t
    &&& x.phase == XferPhase::Offered
    &&& match x.restore {
        Holder::Peer(q) => q == x.sender,
        Holder::Host => x.sender == x.dest,
        Holder::Escrow(_) => false,
    }
}

/// Every record in flight is filed under its identity and not yet decided.
pub open spec fn records_ok(s: State) -> bool {
    &&& forall|t: TransferId| #[trigger] s.xfers.contains_key(t) ==> xfer_record_ok(t, s.xfers[t])
    &&& forall|t: TransferId| #[trigger]
        s.native_pending.contains_key(t) ==> s.native_pending[t].tid == t && s.native_pending[t].state
            == NativeState::Escrowed
    &&& forall|t: TransferId| #[trigger]
        s.shared_pending.contains_key(t) ==> s.shared_pending[t].tid == t && s.shared_pending[t].state
            == NativeState::Escrowed
}

/// How many records a transfer identity names.
pub open spec fn homes(s: State, t: TransferId) -> nat {
    (if s.xfers.contains_key(t) {
        1nat
    } else {
        0
    }) + (if s.results.contains_key(t) {
        1nat
    } else {
        0
    }) + (if s.native_pending.contains_key(t) {
        1nat
    } else {
        0
    }) + (if s.native_results.contains_key(t) {
        1nat
    } else {
        0
    }) + (if s.shared_pending.contains_key(t) {
        1nat
    } else {
        0
    }) + (if s.shared_results.contains_key(t) {
        1nat
    } else {
        0
    })
}

/// A transfer identity names at most one record.
pub open spec fn one_home(s: State) -> bool {
    forall|t: TransferId| #[trigger] homes(s, t) <= 1
}

/// The limits are kept: what is in flight, together with results that wait
/// for an acknowledgement, and the live endpoints.
pub open spec fn within_limits(s: State) -> bool {
    &&& s.xfers.len() + s.results.len() <= s.lim.max_pending_transfers
    &&& s.native_pending.len() + s.native_results.len() <= s.lim.max_native_resources
    &&& s.eps.len() <= s.lim.max_live_endpoints
    &&& s.next_peer <= u32::MAX
}

/// Is `q` present, or the one excepted?
pub open spec fn live_or(s: State, q: PeerId, except: Option<PeerId>) -> bool {
    s.peers.contains_key(q) || except == Some(q)
}

/// Only peers that are present hold authority or are owed its return.
pub open spec fn holders_live(s: State, except: Option<PeerId>) -> bool {
    &&& forall|e: EpId| #[trigger]
        s.eps.contains_key(e) ==> match s.eps[e].holder {
            Holder::Peer(q) => live_or(s, q, except),
            _ => true,
        }
    &&& forall|t: TransferId| #[trigger]
        s.xfers.contains_key(t) ==> match s.xfers[t].restore {
            Holder::Peer(q) => live_or(s, q, except),
            _ => true,
        }
    &&& forall|rid: RegionId, q: PeerId|
        #![trigger s.regions[rid].held_by(q)]
        s.regions.contains_key(rid) && s.regions[rid].held_by(q) ==> q == PeerId(HOST_PEER) || live_or(
            s,
            q,
            except,
        )
}

/// The records of the dead keep their shape.
pub open spec fn ledgers_ok(s: State) -> bool {
    &&& s.retired.wf()
    &&& s.native_retired.wf()
    &&& s.shared_retired.wf()
    &&& s.retired.cap == s.lim.max_retired
    &&& s.native_retired.cap == s.lim.max_retired
    &&& s.shared_retired.cap == s.lim.max_retired
}

/// No live endpoint is remembered as dead.
pub open spec fn dead_stay_dead(s: State) -> bool {
    forall|e: EpId| #[trigger] s.eps.contains_key(e) ==> !s.retired.has(e)
}

/// Everything that holds but for one peer, whose death is being worked off.
pub open spec fn inv_but(s: State, except: Option<PeerId>) -> bool {
    &&& finite(s)
    &&& paired(s)
    &&& escrow_backed(s)
    &&& records_ok(s)
    &&& one_home(s)
    &&& within_limits(s)
    &&& holders_live(s, except)
    &&& ledgers_ok(s)
    &&& dead_stay_dead(s)
    &&& regions_ok(s.regions)
}

/// Everything that holds in every reachable state.
pub open spec fn inv(s: State) -> bool {
    inv_but(s, None)
}

/// What is in flight and still lives is in escrow under its transfer. It holds
/// as long as no message offers an endpoint twice.
pub open spec fn offers_escrowed(s: State) -> bool {
    forall|t: TransferId| #[trigger]
        s.xfers.contains_key(t) && s.eps.contains_key(s.xfers[t].ep) ==> s.eps[s.xfers[t].ep].holder
            == Holder::Escrow(t)
}

// ------------------------------------------------------------- small steps --

/// A router starts well.
pub proof fn lemma_initial(lim: Limits)
    ensures
        inv(initial(lim)),
{
    let s = initial(lim);
    assert forall|t: TransferId| #[trigger] homes(s, t) <= 1 by {}
}

/// A new peer changes nothing for the others.
pub proof fn lemma_accept(s: State)
    requires
        inv(s),
        s.next_peer < u32::MAX,
    ensures
        inv(accept(s)),
{
    let n = accept(s);
    assert forall|t: TransferId| #[trigger] homes(n, t) <= 1 by {
        assert(homes(s, t) <= 1);
    }
}

pub proof fn lemma_hello(s: State, from: PeerId, magic: u16, version: u16)
    requires
        inv(s),
    ensures
        inv(hello(s, from, magic, version).0),
{
    let n = hello(s, from, magic, version).0;
    assert forall|t: TransferId| #[trigger] homes(n, t) <= 1 by {
        assert(homes(s, t) <= 1);
    }
}

/// A state that differs in what the host has yet to be told.
pub proof fn lemma_event(s: State, ep: EpId, cause: Cause, except: Option<PeerId>)
    requires
        inv_but(s, except),
    ensures
        inv_but(with_event(s, ep, cause), except),
{
    let n = with_event(s, ep, cause);
    assert forall|t: TransferId| #[trigger] homes(n, t) <= 1 by {
        assert(homes(s, t) <= 1);
    }
}

pub proof fn lemma_with_pair(s: State, a: EpId, b: EpId, holder: Holder)
    requires
        inv(s),
        fresh_pair(s, a, b),
        room_for_pair(s),
        match holder {
            Holder::Peer(p) => s.peers.contains_key(p),
            Holder::Host => true,
            Holder::Escrow(_) => false,
        },
    ensures
        inv(with_pair(s, a, b, holder)),
        with_pair(s, a, b, holder).eps.len() == s.eps.len() + 2,
{
    let n = with_pair(s, a, b, holder);
    assert(n.eps.dom() =~= s.eps.dom().insert(a).insert(b));
    assert forall|t: TransferId| #[trigger] homes(n, t) <= 1 by {
        assert(homes(s, t) <= 1);
    }
    assert forall|e: EpId| #[trigger] n.eps.contains_key(e) implies n.eps[e].partner != e
        && n.eps.contains_key(n.eps[e].partner) && n.eps[n.eps[e].partner].partner == e by {
        if e != a && e != b {
            assert(s.eps.contains_key(e));
            assert(s.eps.contains_key(s.eps[e].partner));
        }
    }
}

pub proof fn lemma_close_pair(s: State, side: EpId, cause: Cause, except: Option<PeerId>)
    requires
        inv_but(s, except),
    ensures
        inv_but(close_pair(s, side, cause), except),
        !close_pair(s, side, cause).eps.contains_key(side),
        forall|e: EpId| #[trigger]
            close_pair(s, side, cause).eps.contains_key(e) ==> s.eps.contains_key(e) && s.eps[e]
                == close_pair(s, side, cause).eps[e],
{
    let n = close_pair(s, side, cause);
    if s.eps.contains_key(side) {
        let partner = s.eps[side].partner;
        assert(s.eps.contains_key(partner));
        assert(n.eps.dom() =~= s.eps.dom().remove(side).remove(partner));
        s.retired.lemma_insert_wf(side, cause);
        s.retired.insert(side, cause).lemma_insert_wf(partner, cause);
        assert forall|t: TransferId| #[trigger] homes(n, t) <= 1 by {
            assert(homes(s, t) <= 1);
        }
        assert forall|e: EpId| #[trigger] n.eps.contains_key(e) implies n.eps[e].partner != e
            && n.eps.contains_key(n.eps[e].partner) && n.eps[n.eps[e].partner].partner == e by {
            assert(s.eps.contains_key(e));
            assert(s.eps.contains_key(s.eps[e].partner));
        }
    }
}

/// Changing the holder of a live endpoint to a peer or to the host.
pub proof fn lemma_held_by(s: State, ep: EpId, holder: Holder, except: Option<PeerId>)
    requires
        inv_but(s, except),
        s.eps.contains_key(ep),
        match holder {
            Holder::Peer(p) => live_or(s, p, except),
            Holder::Host => true,
            Holder::Escrow(_) => false,
        },
    ensures
        inv_but(held_by(s, ep, holder), except),
        held_by(s, ep, holder).eps.dom() == s.eps.dom(),
{
    let n = held_by(s, ep, holder);
    assert(n.eps.dom() =~= s.eps.dom());
    assert forall|t: TransferId| #[trigger] homes(n, t) <= 1 by {
        assert(homes(s, t) <= 1);
    }
    assert forall|e: EpId| #[trigger] n.eps.contains_key(e) implies n.eps[e].partner != e
        && n.eps.contains_key(n.eps[e].partner) && n.eps[n.eps[e].partner].partner == e by {
        assert(s.eps.contains_key(e));
        assert(s.eps.contains_key(s.eps[e].partner));
    }
    assert forall|e: EpId| #[trigger] n.eps.contains_key(e) implies match n.eps[e].holder {
        Holder::Escrow(t) => n.xfers.contains_key(t) && n.xfers[t].ep == e,
        _ => true,
    } by {
        assert(s.eps.contains_key(e));
    }
}

/// A transfer ends when its endpoint is out of escrow.
pub proof fn lemma_finish(s: State, tid: TransferId, phase: XferPhase, except: Option<PeerId>)
    requires
        inv_but(s, except),
        s.xfers.contains_key(tid),
        forall|e: EpId| #[trigger] s.eps.contains_key(e) ==> s.eps[e].holder != Holder::Escrow(tid),
    ensures
        inv_but(finish(s, tid, s.xfers[tid].sender, phase), except),
{
    let n = finish(s, tid, s.xfers[tid].sender, phase);
    assert(homes(s, tid) <= 1);
    assert(n.xfers.dom() =~= s.xfers.dom().remove(tid));
    assert(n.results.dom() =~= s.results.dom().insert(tid));
    assert forall|t: TransferId| #[trigger] homes(n, t) <= 1 by {
        assert(homes(s, t) <= 1);
    }
}

pub proof fn lemma_grant(s: State, to: PeerId, ep: EpId, tid: TransferId)
    requires
        inv(s),
        !taken_tid(s, tid),
    ensures
        inv(grant(s, to, ep, tid).0),
{
    let n = grant(s, to, ep, tid).0;
    if grant(s, to, ep, tid).1 is Ok {
        assert(n.eps.dom() =~= s.eps.dom());
        assert(n.xfers.dom() =~= s.xfers.dom().insert(tid));
        assert forall|t: TransferId| #[trigger] homes(n, t) <= 1 by {
            assert(homes(s, t) <= 1);
        }
        assert forall|e: EpId| #[trigger] n.eps.contains_key(e) implies n.eps[e].partner != e
            && n.eps.contains_key(n.eps[e].partner) && n.eps[n.eps[e].partner].partner == e by {
            assert(s.eps.contains_key(e));
            assert(s.eps.contains_key(s.eps[e].partner));
        }
        assert forall|e: EpId| #[trigger] n.eps.contains_key(e) implies match n.eps[e].holder {
            Holder::Escrow(t) => n.xfers.contains_key(t) && n.xfers[t].ep == e,
            _ => true,
        } by {
            assert(s.eps.contains_key(e));
        }
    }
}

pub proof fn lemma_commit_xfer(s: State, tid: TransferId)
    requires
        inv(s),
        s.xfers.contains_key(tid) ==> s.peers.contains_key(s.xfers[tid].dest),
    ensures
        inv(commit_xfer(s, tid).0),
{
    if s.xfers.contains_key(tid) && s.eps.contains_key(s.xfers[tid].ep) {
        let x = s.xfers[tid];
        let m = held_by(s, x.ep, Holder::Peer(x.dest));
        lemma_held_by(s, x.ep, Holder::Peer(x.dest), None);
        assert forall|e: EpId| #[trigger] m.eps.contains_key(e) implies m.eps[e].holder
            != Holder::Escrow(tid) by {
            assert(s.eps.contains_key(e));
        }
        lemma_finish(m, tid, XferPhase::Committed, None);
    }
}

pub proof fn lemma_abort_xfer(s: State, tid: TransferId, except: Option<PeerId>)
    requires
        inv_but(s, except),
    ensures
        inv_but(abort_xfer(s, tid).0, except),
{
    if s.xfers.contains_key(tid) {
        let x = s.xfers[tid];
        let m = if s.eps.contains_key(x.ep) {
            held_by(s, x.ep, x.restore)
        } else {
            s
        };
        if s.eps.contains_key(x.ep) {
            lemma_held_by(s, x.ep, x.restore, except);
        }
        assert forall|e: EpId| #[trigger] m.eps.contains_key(e) implies m.eps[e].holder
            != Holder::Escrow(tid) by {
            assert(s.eps.contains_key(e));
        }
        lemma_finish(m, tid, XferPhase::Aborted, except);
    }
}

pub proof fn lemma_commit_native(s: State, tid: TransferId)
    requires
        inv(s),
    ensures
        inv(commit_native(s, tid).0),
{
    let n = commit_native(s, tid).0;
    if s.native_pending.contains_key(tid) {
        assert(homes(s, tid) <= 1);
        assert(n.native_pending.dom() =~= s.native_pending.dom().remove(tid));
        assert(n.native_results.dom() =~= s.native_results.dom().insert(tid));
        assert(n.native_live.dom() =~= s.native_live.dom().insert(s.native_pending[tid].rid));
        assert forall|t: TransferId| #[trigger] homes(n, t) <= 1 by {
            assert(homes(s, t) <= 1);
        }
    }
}

pub proof fn lemma_abort_native(s: State, tid: TransferId, except: Option<PeerId>)
    requires
        inv_but(s, except),
    ensures
        inv_but(abort_native(s, tid).0, except),
{
    let n = abort_native(s, tid).0;
    if s.native_pending.contains_key(tid) {
        assert(homes(s, tid) <= 1);
        assert(n.native_pending.dom() =~= s.native_pending.dom().remove(tid));
        assert(n.native_results.dom() =~= s.native_results.dom().insert(tid));
        assert forall|t: TransferId| #[trigger] homes(n, t) <= 1 by {
            assert(homes(s, t) <= 1);
        }
    }
}

/// A move in the rights graph keeps every region held, and brings in no
/// holder but the recipient.
pub proof fn lemma_region_move(m: Regions, rec: SharedRec, lim: Limits)
    requires
        regions_ok(m),
        region_move(m, rec, lim) is Ok,
    ensures
        regions_ok(region_move(m, rec, lim)->Ok_0),
        m.contains_key(rec.rid),
        region_move(m, rec, lim)->Ok_0.dom() == m.dom(),
        region_move(m, rec, lim)->Ok_0[rec.rid].size == m[rec.rid].size,
        forall|rid: RegionId, q: PeerId|
            #![trigger region_move(m, rec, lim)->Ok_0[rid].held_by(q)]
            m.contains_key(rid) && region_move(m, rec, lim)->Ok_0[rid].held_by(q) ==> q == rec.dest
                || m[rid].held_by(q),
{
    let n = region_move(m, rec, lim)->Ok_0;
    assert(n.dom() =~= m.dom());
    assert forall|rid: RegionId| #[trigger] n.contains_key(rid) implies !n[rid].vacant()
        && n[rid].readonly.finite() by {
        assert(m.contains_key(rid));
        if rid == rec.rid {
            if n[rid].vacant() {
                assert(n[rid].readonly.contains(rec.dest) || n[rid].writable is Some);
            }
        }
    }
}

pub proof fn lemma_commit_shared(s: State, tid: TransferId)
    requires
        inv(s),
        s.shared_pending.contains_key(tid) ==> s.peers.contains_key(s.shared_pending[tid].dest),
    ensures
        inv(commit_shared(s, tid).0),
{
    let n = commit_shared(s, tid).0;
    if s.shared_pending.contains_key(tid) && commit_shared(s, tid).1 is Ok {
        let rec = s.shared_pending[tid];
        lemma_region_move(s.regions, rec, s.lim);
        assert(homes(s, tid) <= 1);
        assert(n.shared_pending.dom() =~= s.shared_pending.dom().remove(tid));
        assert(n.shared_results.dom() =~= s.shared_results.dom().insert(tid));
        assert forall|t: TransferId| #[trigger] homes(n, t) <= 1 by {
            assert(homes(s, t) <= 1);
        }
        assert forall|rid: RegionId, q: PeerId|
            #![trigger n.regions[rid].held_by(q)]
            n.regions.contains_key(rid) && n.regions[rid].held_by(q) implies q == PeerId(HOST_PEER)
            || live_or(n, q, None) by {
            assert(s.regions.contains_key(rid));
            assert(q == rec.dest || s.regions[rid].held_by(q));
        }
    }
}

pub proof fn lemma_abort_shared(s: State, tid: TransferId, except: Option<PeerId>)
    requires
        inv_but(s, except),
    ensures
        inv_but(abort_shared(s, tid).0, except),
{
    let n = abort_shared(s, tid).0;
    if s.shared_pending.contains_key(tid) {
        assert(homes(s, tid) <= 1);
        assert(n.shared_pending.dom() =~= s.shared_pending.dom().remove(tid));
        assert(n.shared_results.dom() =~= s.shared_results.dom().insert(tid));
        assert forall|t: TransferId| #[trigger] homes(n, t) <= 1 by {
            assert(homes(s, t) <= 1);
        }
    }
}

pub proof fn lemma_grant_region(
    s: State,
    dest: PeerId,
    target: EpId,
    corr: u32,
    rid: RegionId,
    rights: Rights,
    tid: TransferId,
)
    requires
        inv(s),
        !taken_tid(s, tid),
    ensures
        inv(grant_region(s, dest, target, corr, rid, rights, tid).0),
{
    let n = grant_region(s, dest, target, corr, rid, rights, tid).0;
    if grant_region(s, dest, target, corr, rid, rights, tid).1 is Ok {
        assert(n.shared_pending.dom() =~= s.shared_pending.dom().insert(tid));
        assert forall|t: TransferId| #[trigger] homes(n, t) <= 1 by {
            assert(homes(s, t) <= 1);
        }
    }
}

pub proof fn lemma_acknowledge(s: State, from: PeerId, tid: TransferId)
    requires
        inv(s),
    ensures
        inv(acknowledge(s, from, tid)),
{
    let n = acknowledge(s, from, tid);
    assert(homes(s, tid) <= 1);
    if s.native_results.contains_key(tid) {
        s.native_retired.lemma_insert_wf(s.native_results[tid].2, Cause::Graceful);
    }
    if s.shared_results.contains_key(tid) {
        s.shared_retired.lemma_insert_wf(s.shared_results[tid].2, Cause::Graceful);
    }
    assert(n.results.dom() =~= s.results.dom() || n.results.dom() =~= s.results.dom().remove(tid));
    assert(n.native_results.dom() =~= s.native_results.dom() || n.native_results.dom()
        =~= s.native_results.dom().remove(tid));
    assert(n.shared_results.dom() =~= s.shared_results.dom() || n.shared_results.dom()
        =~= s.shared_results.dom().remove(tid));
    assert(n.native_live.dom() =~= s.native_live.dom() || n.native_live.dom()
        =~= s.native_live.dom().remove(s.native_results[tid].2));
    assert forall|t: TransferId| #[trigger] homes(n, t) <= 1 by {
        assert(homes(s, t) <= 1);
    }
}

// ---------------------------------------------------------------- messages --

/// Attachments that pass the check are live and the sender's.
pub proof fn lemma_check_all(s: State, from: PeerId, atts: Seq<Attachment>, i: int)
    requires
        check_all(s, from, atts) is Clean,
        0 <= i < atts.len(),
    ensures
        s.eps.contains_key(atts[i].id),
        s.eps[atts[i].id].holder == Holder::Peer(from),
        s.eps[atts[i].id].partner == atts[i].partner,
    decreases atts.len(),
{
    if i < atts.len() - 1 {
        lemma_check_all(s, from, atts.drop_last(), i);
        assert(atts.drop_last()[i] == atts[i]);
    }
}

/// Taking attachments into escrow keeps everything in order. How much is in
/// flight grows by no more than their number.
pub proof fn lemma_escrow_all(s: State, from: PeerId, dest: PeerId, atts: Seq<Attachment>)
    requires
        inv(s),
        s.peers.contains_key(from),
        forall|i: int| 0 <= i < atts.len() ==> s.eps.contains_key(#[trigger] atts[i].id),
        atts.len() + s.xfers.len() + s.results.len() <= s.lim.max_pending_transfers,
    ensures
        inv(escrow_all(s, from, dest, atts).0),
        ({
            let n = escrow_all(s, from, dest, atts).0;
            &&& n == State { eps: n.eps, xfers: n.xfers, ..s }
            &&& n.eps.dom() == s.eps.dom()
            &&& n.xfers.len() <= s.xfers.len() + atts.len()
            &&& forall|e: EpId| #[trigger] s.eps.contains_key(e) ==> n.eps[e].partner == s.eps[e].partner
            &&& forall|t: TransferId| #[trigger]
                s.xfers.contains_key(t) ==> n.xfers.contains_key(t) && n.xfers[t] == s.xfers[t]
        }),
    decreases atts.len(),
{
    if atts.len() > 0 {
        let rest = atts.drop_last();
        assert forall|i: int| 0 <= i < rest.len() implies s.eps.contains_key(#[trigger] rest[i].id) by {
            assert(rest[i] == atts[i]);
        }
        lemma_escrow_all(s, from, dest, rest);
        let (m, ok) = escrow_all(s, from, dest, rest);
        let a = atts.last();
        if ok && !taken_tid(m, a.tid) {
            let n = escrow_one(m, from, dest, a);
            assert(s.eps.contains_key(atts[atts.len() - 1].id));
            assert(m.eps.dom().contains(a.id));
            assert(m.eps.contains_key(a.id));
            assert(n.eps.dom() =~= m.eps.dom());
            assert(n.xfers.dom() =~= m.xfers.dom().insert(a.tid));
            assert forall|t: TransferId| #[trigger] homes(n, t) <= 1 by {
                assert(homes(m, t) <= 1);
            }
            assert forall|e: EpId| #[trigger] n.eps.contains_key(e) implies n.eps[e].partner != e
                && n.eps.contains_key(n.eps[e].partner) && n.eps[n.eps[e].partner].partner == e by {
                assert(m.eps.contains_key(e));
                assert(m.eps.contains_key(m.eps[e].partner));
            }
            assert forall|e: EpId| #[trigger] n.eps.contains_key(e) implies match n.eps[e].holder {
                Holder::Escrow(t) => n.xfers.contains_key(t) && n.xfers[t].ep == e,
                _ => true,
            } by {
                assert(m.eps.contains_key(e));
            }
            assert forall|e: EpId| #[trigger] s.eps.contains_key(e) implies n.eps[e].partner
                == s.eps[e].partner by {
                assert(m.eps[e].partner == s.eps[e].partner);
            }
        }
    }
}

/// A bad attachment decides, whatever follows it.
pub proof fn lemma_check_prefix(s: State, from: PeerId, atts: Seq<Attachment>, i: int)
    requires
        0 <= i <= atts.len(),
        !(check_all(s, from, atts.take(i)) is Clean),
    ensures
        check_all(s, from, atts) == check_all(s, from, atts.take(i)),
    decreases atts.len(),
{
    if i == atts.len() {
        assert(atts.take(i) =~= atts);
    } else {
        assert(atts.drop_last().take(i) =~= atts.take(i));
        lemma_check_prefix(s, from, atts.drop_last(), i);
    }
}

/// A taken transfer identity decides, whatever follows it.
pub proof fn lemma_escrow_prefix(s: State, from: PeerId, dest: PeerId, atts: Seq<Attachment>, i: int)
    requires
        0 <= i <= atts.len(),
        !escrow_all(s, from, dest, atts.take(i)).1,
    ensures
        escrow_all(s, from, dest, atts) == escrow_all(s, from, dest, atts.take(i)),
    decreases atts.len(),
{
    if i == atts.len() {
        assert(atts.take(i) =~= atts);
    } else {
        assert(atts.drop_last().take(i) =~= atts.take(i));
        lemma_escrow_prefix(s, from, dest, atts.drop_last(), i);
    }
}

pub proof fn lemma_offer_native(s: State, from: PeerId, dest: PeerId, a: NativeAttachment)
    requires
        inv(s),
    ensures
        inv(offer_native(s, from, dest, a).0),
{
    let n = offer_native(s, from, dest, a).0;
    if offer_native(s, from, dest, a).1 is None {
        assert(n.native_pending.dom() =~= s.native_pending.dom().insert(a.tid));
        assert forall|t: TransferId| #[trigger] homes(n, t) <= 1 by {
            assert(homes(s, t) <= 1);
        }
    }
}

pub proof fn lemma_offer_shared(s: State, from: PeerId, dest: PeerId, a: SharedAttachment)
    requires
        inv(s),
    ensures
        inv(offer_shared(s, from, dest, a).0),
{
    let n = offer_shared(s, from, dest, a).0;
    if offer_shared(s, from, dest, a).1 is None {
        assert(n.shared_pending.dom() =~= s.shared_pending.dom().insert(a.tid));
        assert forall|t: TransferId| #[trigger] homes(n, t) <= 1 by {
            assert(homes(s, t) <= 1);
        }
    }
}

pub proof fn lemma_data(s: State, from: PeerId, d: DataView)
    requires
        inv(s),
    ensures
        inv(data(s, from, d).0),
{
    if gate(s, from) is None && claim(s, from, d.target) is Held && check_all(s, from, d.attachments) is Clean
        && s.eps[s.eps[d.target].partner].holder is Peer && d.attachments.len() + s.xfers.len()
        + s.results.len() <= s.lim.max_pending_transfers {
        let dest = s.eps[s.eps[d.target].partner].holder->Peer_0;
        assert forall|i: int| 0 <= i < d.attachments.len() implies s.eps.contains_key(
            #[trigger] d.attachments[i].id,
        ) by {
            lemma_check_all(s, from, d.attachments, i);
        }
        lemma_escrow_all(s, from, dest, d.attachments);
        let (s1, ok) = escrow_all(s, from, dest, d.attachments);
        if ok {
            let (s2, end) = match d.native {
                Some(n) => offer_native(s1, from, dest, n),
                None => (s1, None),
            };
            if let Some(n) = d.native {
                lemma_offer_native(s1, from, dest, n);
            }
            if end is None {
                if let Some(a) = d.shared {
                    lemma_offer_shared(s2, from, dest, a);
                }
            }
        }
    }
}

pub proof fn lemma_create(s: State, from: PeerId, a: EpId, b: EpId)
    requires
        inv(s),
        fresh_pair(s, a, b),
    ensures
        inv(create(s, from, a, b).0),
{
    if gate(s, from) is None && room_for_pair(s) {
        lemma_with_pair(s, a, b, Holder::Peer(from));
    }
}

pub proof fn lemma_close(s: State, from: PeerId, target: EpId)
    requires
        inv(s),
    ensures
        inv(close(s, from, target).0),
{
    lemma_close_pair(s, target, Cause::Graceful, None);
    let survivor = s.eps[target].partner;
    lemma_event(close_pair(s, target, Cause::Graceful), survivor, Cause::Graceful, None);
}

pub proof fn lemma_xfer(s: State, from: PeerId, msg: XferMsg)
    requires
        inv(s),
    ensures
        inv(xfer(s, from, msg).0),
{
    if gate(s, from) is None {
        match msg {
            XferMsg::Accept { tid } => {
                lemma_abort_xfer(s, tid, None);
                lemma_abort_native(s, tid, None);
                lemma_commit_native(s, tid);
                if s.xfers.contains_key(tid) && s.xfers[tid].dest == from {
                    lemma_commit_xfer(s, tid);
                }
                if s.shared_pending.contains_key(tid) && s.shared_pending[tid].dest == from {
                    lemma_commit_shared(s, tid);
                }
            },
            XferMsg::Reject { tid } => {
                lemma_abort_xfer(s, tid, None);
                lemma_abort_native(s, tid, None);
                lemma_abort_shared(s, tid, None);
            },
            XferMsg::ResultAck { tid } => {
                lemma_acknowledge(s, from, tid);
            },
            _ => {},
        }
    }
}

pub proof fn lemma_force_abort(s: State, tid: TransferId)
    requires
        inv(s),
    ensures
        inv(force_abort(s, tid).0),
{
    lemma_abort_xfer(s, tid, None);
    lemma_abort_native(s, tid, None);
}

// ---------------------------------------------------------------- peer death --

/// Forgetting entries leaves no more than there were.
proof fn lemma_keep<K, V>(m: Map<K, V>, p: spec_fn(V) -> bool)
    requires
        m.dom().finite(),
    ensures
        keep(m, p).dom().finite(),
        keep(m, p).len() <= m.len(),
{
    assert(keep(m, p).dom().subset_of(m.dom()));
    vstd::set_lib::lemma_len_subset(keep(m, p).dom(), m.dom());
}

pub proof fn lemma_forget_peer(s: State, p: PeerId)
    requires
        inv(s),
    ensures
        inv_but(forget_peer(s, p), Some(p)),
{
    let n = forget_peer(s, p);
    lemma_keep(s.results, |r: (PeerId, Cause)| r.0 != p);
    lemma_keep(s.native_results, |r: (PeerId, Cause, ResourceId)| r.0 != p);
    assert(n.results =~= keep(s.results, |r: (PeerId, Cause)| r.0 != p));
    assert(n.native_results =~= keep(s.native_results, |r: (PeerId, Cause, ResourceId)| r.0 != p));
    assert(n.peers.dom() =~= s.peers.dom().remove(p));
    assert forall|t: TransferId| #[trigger] homes(n, t) <= 1 by {
        assert(homes(s, t) <= 1);
    }
}

/// What the death of `p` may not change while transfers are settled: the
/// peers, the rights graph; and nothing new comes to `p`.
pub open spec fn settling(s: State, n: State, p: PeerId) -> bool {
    &&& inv_but(n, Some(p))
    &&& n.peers == s.peers
    &&& n.regions == s.regions
    &&& n.lim == s.lim
    &&& forall|e: EpId| #[trigger]
        n.eps.contains_key(e) && n.eps[e].holder == Holder::Peer(p) ==> s.eps.contains_key(e)
            && s.eps[e].holder == Holder::Peer(p)
    &&& forall|e: EpId| #[trigger] n.eps.contains_key(e) ==> s.eps.contains_key(e)
}

pub proof fn lemma_settle_xfer(s: State, p: PeerId, cause: Cause, tid: TransferId)
    requires
        inv_but(s, Some(p)),
    ensures
        settling(s, settle_xfer(s, p, cause, tid).0, p),
        settle_xfer(s, p, cause, tid).0.xfers == s.xfers.remove(tid),
{
    let n = settle_xfer(s, p, cause, tid).0;
    if s.xfers.contains_key(tid) {
        let x = s.xfers[tid];
        if x.sender == p {
            lemma_close_pair(s, x.ep, cause, Some(p));
            let m = close_pair(s, x.ep, cause);
            assert forall|e: EpId| #[trigger] m.eps.contains_key(e) implies m.eps[e].holder
                != Holder::Escrow(tid) by {
                assert(s.eps.contains_key(e));
            }
            lemma_finish(m, tid, XferPhase::Aborted, Some(p));
        } else {
            lemma_abort_xfer(s, tid, Some(p));
            assert(xfer_record_ok(tid, x));
        }
    } else {
        assert(s.xfers.remove(tid) =~= s.xfers);
    }
}

pub proof fn lemma_settle_xfers(s: State, p: PeerId, cause: Cause, tids: Seq<TransferId>)
    requires
        inv_but(s, Some(p)),
    ensures
        settling(s, settle_xfers(s, p, cause, tids).0, p),
        forall|t: TransferId| #[trigger]
            settle_xfers(s, p, cause, tids).0.xfers.contains_key(t) ==> s.xfers.contains_key(t)
                && !tids.contains(t) && s.xfers[t] == settle_xfers(s, p, cause, tids).0.xfers[t],
    decreases tids.len(),
{
    if tids.len() > 0 {
        let (m, _) = settle_xfers(s, p, cause, tids.drop_last());
        lemma_settle_xfers(s, p, cause, tids.drop_last());
        lemma_settle_xfer(m, p, cause, tids.last());
        let n = settle_xfers(s, p, cause, tids).0;
        assert forall|t: TransferId| #[trigger] n.xfers.contains_key(t) implies s.xfers.contains_key(t)
            && !tids.contains(t) && s.xfers[t] == n.xfers[t] by {
            assert(m.xfers.contains_key(t));
            if tids.contains(t) {
                let i = tids.index_of(t);
                if i < tids.len() - 1 {
                    assert(tids.drop_last()[i] == t);
                }
            }
        }
    }
}

pub proof fn lemma_settle_natives(s: State, p: PeerId, tids: Seq<TransferId>)
    requires
        inv_but(s, Some(p)),
    ensures
        settling(s, settle_natives(s, p, tids), p),
        settle_natives(s, p, tids).xfers == s.xfers,
        settle_natives(s, p, tids).eps == s.eps,
    decreases tids.len(),
{
    if tids.len() > 0 {
        let m = settle_natives(s, p, tids.drop_last());
        let tid = tids.last();
        let n = settle_native(m, p, tid);
        lemma_settle_natives(s, p, tids.drop_last());
        if m.native_pending.contains_key(tid) {
            let rec = m.native_pending[tid];
            if rec.sender == p {
                assert(homes(m, tid) <= 1);
                assert(n.native_pending.dom() =~= m.native_pending.dom().remove(tid));
                assert(n.native_results.dom() =~= m.native_results.dom().insert(tid));
                m.native_retired.lemma_insert_wf(rec.rid, Cause::Graceful);
                assert forall|t: TransferId| #[trigger] homes(n, t) <= 1 by {
                    assert(homes(m, t) <= 1);
                }
            } else {
                lemma_abort_native(m, tid, Some(p));
            }
        }
    }
}

pub proof fn lemma_settle_shareds(s: State, p: PeerId, tids: Seq<TransferId>)
    requires
        inv_but(s, Some(p)),
    ensures
        settling(s, settle_shareds(s, p, tids), p),
        settle_shareds(s, p, tids).xfers == s.xfers,
        settle_shareds(s, p, tids).eps == s.eps,
    decreases tids.len(),
{
    if tids.len() > 0 {
        let m = settle_shareds(s, p, tids.drop_last());
        let tid = tids.last();
        let n = settle_shared(m, p, tid);
        lemma_settle_shareds(s, p, tids.drop_last());
        if m.shared_pending.contains_key(tid) {
            let rec = m.shared_pending[tid];
            if rec.sender == p {
                assert(homes(m, tid) <= 1);
                assert(n.shared_pending.dom() =~= m.shared_pending.dom().remove(tid));
                assert(n.shared_results.dom() =~= m.shared_results.dom().insert(tid));
                assert forall|t: TransferId| #[trigger] homes(n, t) <= 1 by {
                    assert(homes(m, t) <= 1);
                }
            } else {
                lemma_abort_shared(m, tid, Some(p));
            }
        }
    }
}

pub proof fn lemma_without_peer(m: Regions, p: PeerId)
    requires
        regions_ok(m),
    ensures
        regions_ok(without_peer(m, p)),
        forall|rid: RegionId, q: PeerId|
            #![trigger without_peer(m, p)[rid].held_by(q)]
            without_peer(m, p).contains_key(rid) && without_peer(m, p)[rid].held_by(q)
                ==> m.contains_key(rid) && m[rid].held_by(q) && q != p,
{
    let n = without_peer(m, p);
    assert(n.dom().subset_of(m.dom()));
    vstd::set_lib::lemma_len_subset(n.dom(), m.dom());
    assert forall|rid: RegionId| #[trigger] n.contains_key(rid) implies !n[rid].vacant()
        && n[rid].readonly.finite() by {
        assert(m.contains_key(rid));
    }
}

pub proof fn lemma_settle_ends(s: State, p: PeerId, cause: Cause, sides: Seq<EpId>)
    requires
        inv_but(s, Some(p)),
    ensures
        ({
            let n = settle_ends(s, p, cause, sides).0;
            &&& inv_but(n, Some(p))
            &&& n.peers == s.peers
            &&& n.regions == s.regions
            &&& n.xfers == s.xfers
            &&& forall|e: EpId| #[trigger]
                n.eps.contains_key(e) ==> s.eps.contains_key(e) && s.eps[e] == n.eps[e] && !sides.contains(e)
        }),
    decreases sides.len(),
{
    if sides.len() > 0 {
        let m = settle_ends(s, p, cause, sides.drop_last()).0;
        let side = sides.last();
        let n = settle_end(m, p, cause, side).0;
        lemma_settle_ends(s, p, cause, sides.drop_last());
        lemma_close_pair(m, side, cause, Some(p));
        let c = close_pair(m, side, cause);
        if m.eps.contains_key(side) {
            lemma_event(c, m.eps[side].partner, cause, Some(p));
        }
        assert(n.eps == c.eps);
        assert forall|e: EpId| #[trigger] n.eps.contains_key(e) implies s.eps.contains_key(e) && s.eps[e]
            == n.eps[e] && !sides.contains(e) by {
            assert(m.eps.contains_key(e));
            if sides.contains(e) {
                let i = sides.index_of(e);
                if i < sides.len() - 1 {
                    assert(sides.drop_last()[i] == e);
                }
            }
        }
    }
}

/// The death of a peer leaves everything in order, and nothing with the peer:
/// it holds no endpoint, is owed none, and has no rights over any region.
pub proof fn lemma_gone(s: State, p: PeerId, cause: Cause)
    requires
        inv(s),
    ensures
        inv(gone(s, p, cause).0),
        !gone(s, p, cause).0.peers.contains_key(p),
{
    let s1 = forget_peer(s, p);
    lemma_forget_peer(s, p);
    let tids = xfers_of(s1, p);
    let s2 = settle_xfers(s1, p, cause, tids).0;
    lemma_settle_xfers(s1, p, cause, tids);
    let s3 = settle_natives(s2, p, natives_of(s2, p));
    lemma_settle_natives(s2, p, natives_of(s2, p));
    let s4 = settle_shareds(s3, p, shareds_of(s3, p));
    lemma_settle_shareds(s3, p, shareds_of(s3, p));
    let s5 = purge_regions(s4, p);
    lemma_without_peer(s4.regions, p);
    assert forall|t: TransferId| #[trigger] homes(s5, t) <= 1 by {
        assert(homes(s4, t) <= 1);
    }
    assert(inv_but(s5, Some(p)));
    let sides = touched(s1, p);
    let s6 = settle_ends(s5, p, cause, sides).0;
    lemma_settle_ends(s5, p, cause, sides);
    crate::table::lemma_filtered_keys(
        s1.xfers.dom(),
        |t: TransferId|
            s1.xfers[t].phase == XferPhase::Offered && (s1.xfers[t].sender == p || s1.xfers[t].dest
                == p),
    );
    crate::table::lemma_filtered_keys(
        s1.eps.dom(),
        |e: EpId| s1.eps[e].holder == Holder::Peer(p),
    );
    assert forall|e: EpId| #[trigger] s6.eps.contains_key(e) implies s6.eps[e].holder != Holder::Peer(
        p,
    ) by {
        assert(s5.eps.contains_key(e));
        if s5.eps[e].holder == Holder::Peer(p) {
            assert(s2.eps.contains_key(e));
            assert(s1.eps.contains_key(e));
            assert(sides.contains(e));
        }
    }
    assert forall|t: TransferId| #[trigger] s6.xfers.contains_key(t) implies s6.xfers[t].sender != p by {
        assert(s2.xfers.contains_key(t));
        assert(s1.xfers.contains_key(t));
        assert(xfer_record_ok(t, s1.xfers[t]));
        assert(!tids.contains(t));
    }
    assert(holders_live(s6, None)) by {
        assert forall|t: TransferId| #[trigger] s6.xfers.contains_key(t) implies match s6.xfers[t].restore {
            Holder::Peer(q) => live_or(s6, q, None),
            _ => true,
        } by {
            assert(xfer_record_ok(t, s6.xfers[t]));
        }
        assert forall|rid: RegionId, q: PeerId|
            #![trigger s6.regions[rid].held_by(q)]
            s6.regions.contains_key(rid) && s6.regions[rid].held_by(q) implies q == PeerId(HOST_PEER)
            || live_or(s6, q, None) by {
            if p != PeerId(HOST_PEER) {
                assert(s5.regions == without_peer(s4.regions, p));
                assert(q != p);
                assert(live_or(s5, q, Some(p)) || q == PeerId(HOST_PEER));
            }
        }
    }
}

} // verus!

//! What the router answers to each request, and what it leaves alone, told
//! by who holds what before and after.

use vstd::prelude::*;

use crate::fabric_error::Cause;
use crate::frame::{Attachment, DataView, FrameView, XferMsg, ERR_CAPACITY};
use crate::id::{all_zero, EpId, TransferId};
use crate::limits::Limits;
use crate::native::{NativeState, ResourceId};
use crate::router::{Holder, HostEvent, NativeRec, PeerId, Poison, SharedRec, XferPhase, XferRec};
use crate::router_inv::{inv, lemma_check_prefix};
use crate::router_model::{
    accept, check_all, close, create, data, escrow_all, escrow_one, emit, fresh_pair, hello,
    initial, taken_id, taken_rid, taken_tid, with_pair, xfer, Reply, State,
};
use crate::shared::{RegionId, Rights};

verus! {

// ------------------------------------------------------------------ the words --

/// May the peer send traffic? It is there, and has said hello.
pub open spec fn admitted(s: State, p: PeerId) -> bool {
    s.peers.contains_key(p) && s.peers[p]
}

/// Does the peer hold the live endpoint?
pub open spec fn holds(s: State, p: PeerId, ep: EpId) -> bool {
    s.eps.contains_key(ep) && s.eps[ep].holder == Holder::Peer(p)
}

/// Is the endpoint dead and still remembered?
pub open spec fn remembered(s: State, ep: EpId) -> bool {
    !s.eps.contains_key(ep) && s.retired.causes.contains_key(ep)
}

/// Exactly one frame goes out, to that peer.
pub open spec fn only_frame(r: Reply, to: PeerId, f: FrameView) -> bool {
    r is Ok && r->Ok_0.send == seq![(to, f)] && r->Ok_0.to_host.len() == 0
}

/// The request is granted, and nothing goes out.
pub open spec fn silent(r: Reply) -> bool {
    r is Ok && r->Ok_0.send.len() == 0 && r->Ok_0.to_host.len() == 0
}

/// The request is a breach of protocol, for this reason.
pub open spec fn breach(r: Reply, why: &'static str) -> bool {
    r is Err && r->Err_0 == Poison(why)
}

/// Word that one endpoint is dead.
pub open spec fn word_of_close(ep: EpId, cause: Cause) -> FrameView {
    FrameView::ClosedNotify { entries: seq![(ep, cause)] }
}

/// Is the transfer under way: offered, and not decided?
pub open spec fn undecided(s: State, t: TransferId) -> bool {
    s.xfers.contains_key(t) || s.native_pending.contains_key(t) || s.shared_pending.contains_key(t)
}

/// Is a result of the transfer kept, with this end?
pub open spec fn ended(s: State, t: TransferId, how: Cause) -> bool {
    ||| s.results.contains_key(t) && s.results[t].1 == how
    ||| s.native_results.contains_key(t) && s.native_results[t].1 == how
    ||| s.shared_results.contains_key(t) && s.shared_results[t].1 == how
}

// ------------------------------------------------------------------- the peers --

/// A router starts with nothing: no peer, no endpoint, no transfer, no region.
pub proof fn law_starts_empty(lim: Limits, p: PeerId, e: EpId, t: TransferId, k: RegionId)
    ensures
        ({
            let s = initial(lim);
            &&& !s.peers.contains_key(p)
            &&& !s.eps.contains_key(e)
            &&& !s.retired.causes.contains_key(e)
            &&& !undecided(s, t)
            &&& !ended(s, t, Cause::Graceful)
            &&& !ended(s, t, Cause::PeerLost)
            &&& !s.regions.contains_key(k)
            &&& s.host_events.len() == 0
            &&& s.lim == lim
            &&& !s.inject.drop_commit && !s.inject.drop_committed && !s.inject.drop_abort
                && !s.inject.drop_offer
        }),
{
}

/// A new peer is there without having said hello; peers are numbered one
/// after the other, and nothing else changes.
pub proof fn law_newcomer_is_not_admitted(s: State, q: PeerId)
    requires
        s.next_peer < u32::MAX,
    ensures
        ({
            let n = accept(s);
            let p = PeerId(s.next_peer as u32);
            &&& n.peers.contains_key(p) && !n.peers[p]
            &&& q != p ==> (n.peers.contains_key(q) <==> s.peers.contains_key(q)) && (
            s.peers.contains_key(q) ==> n.peers[q] == s.peers[q])
            &&& n.next_peer == s.next_peer + 1
            &&& n == (State { peers: n.peers, next_peer: n.next_peer, ..s })
        }),
{
}

/// A hello is taken once, from a peer that is there, with the right magic and
/// version; it admits that peer, and changes nothing else.
pub proof fn law_hello_admits(s: State, p: PeerId, magic: u16, version: u16, q: PeerId)
    ensures
        ({
            let (n, r) = hello(s, p, magic, version);
            &&& r is Ok <==> s.peers.contains_key(p) && !s.peers[p] && magic == s.lim.hello_magic
                && version == s.lim.hello_version
            &&& r is Ok ==> admitted(n, p) && n == (State { peers: n.peers, ..s })
            &&& q != p ==> (n.peers.contains_key(q) <==> s.peers.contains_key(q)) && (
            s.peers.contains_key(q) ==> n.peers[q] == s.peers[q])
            &&& r is Err ==> n == s
            &&& !s.peers.contains_key(p) ==> r == Err::<(), Poison>(
                Poison("hello from unknown peer"),
            )
            &&& admitted(s, p) ==> r == Err::<(), Poison>(Poison("duplicate hello"))
            &&& s.peers.contains_key(p) && !s.peers[p] && magic != s.lim.hello_magic ==> r == Err::<
                (),
                Poison,
            >(Poison("bad hello magic"))
            &&& s.peers.contains_key(p) && !s.peers[p] && magic == s.lim.hello_magic && version
                != s.lim.hello_version ==> r == Err::<(), Poison>(Poison("bad protocol version"))
        }),
{
}

/// Who may not send traffic is refused, with the reason, whatever it sends.
pub proof fn law_strangers_are_refused(
    s: State,
    p: PeerId,
    d: DataView,
    target: EpId,
    a: EpId,
    b: EpId,
    msg: XferMsg,
)
    requires
        !admitted(s, p),
    ensures
        ({
            let why = if s.peers.contains_key(p) {
                "traffic before hello"
            } else {
                "frame from unknown peer"
            };
            &&& breach(data(s, p, d).1, why) && data(s, p, d).0 == s
            &&& breach(close(s, p, target).1, why) && close(s, p, target).0 == s
            &&& breach(create(s, p, a, b).1, why) && create(s, p, a, b).0 == s
            &&& breach(xfer(s, p, msg).1, why) && xfer(s, p, msg).0 == s
        }),
{
}

// ------------------------------------------------------------- the conversations --

/// A peer that asks for a conversation is told its two ends and holds both;
/// each is the other's partner, and no other endpoint changes. Without room
/// it is told so, and nothing changes.
pub proof fn law_asker_holds_both_ends(s: State, p: PeerId, a: EpId, b: EpId, e: EpId)
    requires
        admitted(s, p),
        a != b,
    ensures
        ({
            let (n, r) = create(s, p, a, b);
            if s.eps.len() + 2 <= s.lim.max_live_endpoints && s.results.len()
                < s.lim.max_pending_transfers {
                &&& only_frame(r, p, FrameView::CreateAck { impl_ep: a, transferable_ep: b })
                &&& holds(n, p, a) && n.eps[a].partner == b
                &&& holds(n, p, b) && n.eps[b].partner == a
                &&& e != a && e != b ==> (n.eps.contains_key(e) <==> s.eps.contains_key(e)) && (
                s.eps.contains_key(e) ==> n.eps[e] == s.eps[e])
                &&& n == (State { eps: n.eps, ..s })
            } else {
                &&& only_frame(r, p, FrameView::Error(ERR_CAPACITY))
                &&& n == s
            }
        }),
{
}

/// A conversation that the host makes is held by the host, at both ends.
pub proof fn law_host_holds_both_ends(s: State, a: EpId, b: EpId, e: EpId)
    requires
        a != b,
    ensures
        ({
            let n = with_pair(s, a, b, Holder::Host);
            &&& n.eps.contains_key(a) && n.eps[a].holder == Holder::Host && n.eps[a].partner == b
            &&& n.eps.contains_key(b) && n.eps[b].holder == Holder::Host && n.eps[b].partner == a
            &&& e != a && e != b ==> (n.eps.contains_key(e) <==> s.eps.contains_key(e)) && (
            s.eps.contains_key(e) ==> n.eps[e] == s.eps[e])
            &&& n == (State { eps: n.eps, ..s })
        }),
{
}

/// Who holds an end can close it. Both ends are dead then, and nothing else
/// changes: whoever holds the other end is told that it ended gracefully. A
/// peer is sent word, and nobody else is; the host finds one event more.
pub proof fn law_close_tells_the_other_end(s: State, p: PeerId, target: EpId, e: EpId)
    requires
        inv(s),
        admitted(s, p),
        holds(s, p, target),
    ensures
        ({
            let (n, r) = close(s, p, target);
            let other = s.eps[target].partner;
            &&& !n.eps.contains_key(target)
            &&& !n.eps.contains_key(other)
            &&& e != target && e != other ==> (n.eps.contains_key(e) <==> s.eps.contains_key(e)) && (
            s.eps.contains_key(e) ==> n.eps[e] == s.eps[e])
            &&& n == (State { eps: n.eps, retired: n.retired, host_events: n.host_events, ..s })
            &&& remembered(n, target) ==> n.retired.causes[target] == Cause::Graceful
            &&& remembered(n, other) ==> n.retired.causes[other] == Cause::Graceful
            &&& match s.eps[other].holder {
                Holder::Peer(q) => only_frame(r, q, word_of_close(other, Cause::Graceful))
                    && n.host_events == s.host_events,
                Holder::Host => silent(r) && n.host_events == s.host_events.push(
                    HostEvent::EndpointClosed { ep: other, cause: Cause::Graceful },
                ),
                Holder::Escrow(_) => silent(r) && n.host_events == s.host_events,
            }
        }),
{
    assert(s.eps.contains_key(s.eps[target].partner));
}

/// Who closes what it does not hold changes nothing. If the endpoint is dead
/// and remembered, it is told so, with the cause; otherwise that is a breach.
pub proof fn law_only_holders_close(s: State, p: PeerId, target: EpId)
    requires
        admitted(s, p),
        !holds(s, p, target),
    ensures
        ({
            let (n, r) = close(s, p, target);
            &&& n == s
            &&& remembered(s, target) ==> only_frame(
                r,
                p,
                word_of_close(target, s.retired.causes[target]),
            )
            &&& s.eps.contains_key(target) ==> breach(r, "identity not held by sender")
            &&& !s.eps.contains_key(target) && !remembered(s, target) ==> breach(
                r,
                "unknown endpoint identity",
            )
        }),
{
}

// ------------------------------------------------------------------ the messages --

/// The host sends on an endpoint that it holds: the message goes, as it is, to
/// the peer that holds the other end. If no peer does, nothing goes out.
pub proof fn law_host_speaks_to_the_other_end(s: State, target: EpId, corr: u32, payload: Seq<u8>)
    requires
        inv(s),
    ensures
        ({
            let r = emit(s, target, corr, payload);
            &&& !s.eps.contains_key(target) ==> breach(r, "host emit on unknown/closed endpoint")
            &&& s.eps.contains_key(target) && s.eps[target].holder != Holder::Host ==> breach(
                r,
                "host emit on endpoint not held by host",
            )
            &&& s.eps.contains_key(target) && s.eps[target].holder == Holder::Host ==> match s.eps[s.eps[target].partner].holder {
                Holder::Peer(q) => r is Ok && r->Ok_0.to_host.len() == 0 && r->Ok_0.send.len() == 1
                    && r->Ok_0.send[0].0 == q && match r->Ok_0.send[0].1 {
                    FrameView::Data(d) => d.target == target && d.corr == corr && d.payload == payload
                        && d.attachments.len() == 0 && d.native is None && d.shared is None,
                    _ => false,
                },
                _ => silent(r),
            }
        }),
{
}

/// Why a message on an endpoint that its sender does not hold goes nowhere.
pub proof fn law_only_holders_speak(s: State, p: PeerId, d: DataView)
    requires
        admitted(s, p),
        !holds(s, p, d.target),
    ensures
        ({
            let (n, r) = data(s, p, d);
            &&& n == s
            &&& remembered(s, d.target) ==> only_frame(
                r,
                p,
                word_of_close(d.target, s.retired.causes[d.target]),
            )
            &&& s.eps.contains_key(d.target) ==> breach(r, "identity not held by sender")
            &&& !s.eps.contains_key(d.target) && !remembered(s, d.target) ==> breach(
                r,
                "unknown endpoint identity",
            )
        }),
{
}

/// Does the transfer name nothing yet: no offer under way, and no result?
pub open spec fn unused(s: State, t: TransferId) -> bool {
    !undecided(s, t) && !s.results.contains_key(t) && !s.native_results.contains_key(t)
        && !s.shared_results.contains_key(t)
}

/// Is the offer the sender's to make, with the partner named truly?
pub open spec fn offerable(s: State, p: PeerId, a: Attachment) -> bool {
    holds(s, p, a.id) && s.eps[a.id].partner == a.partner
}

/// Which identities are free. An endpoint's is free if no endpoint that lives
/// or is remembered has it, a transfer's if nothing is under way or kept under
/// it, and a resource's if none that lives or is remembered has it. The two
/// ends of a new conversation have free identities, different and not blank.
pub proof fn law_which_identities_are_free(s: State, a: EpId, b: EpId, t: TransferId, r: ResourceId)
    ensures
        taken_id(s, a) <==> s.eps.contains_key(a) || s.retired.causes.contains_key(a),
        taken_tid(s, t) <==> !unused(s, t),
        taken_rid(s, r) <==> s.native_live.contains_key(r) || s.native_retired.causes.contains_key(r),
        fresh_pair(s, a, b) <==> {
            &&& a != b
            &&& !all_zero(a.0) && !all_zero(b.0)
            &&& !s.eps.contains_key(a) && !s.retired.causes.contains_key(a)
            &&& !s.eps.contains_key(b) && !s.retired.causes.contains_key(b)
        },
{
}

/// Is each offered endpoint the sender's to offer?
pub open spec fn all_offerable(s: State, p: PeerId, atts: Seq<Attachment>) -> bool {
    forall|i: int| 0 <= i < atts.len() ==> #[trigger] offerable(s, p, atts[i])
}

/// Is each offer under a transfer of its own, and a new one?
pub open spec fn all_new(s: State, atts: Seq<Attachment>) -> bool {
    &&& forall|i: int| 0 <= i < atts.len() ==> unused(s, (#[trigger] atts[i]).tid)
    &&& forall|i: int, j: int|
        0 <= i < j < atts.len() ==> (#[trigger] atts[i]).tid != (#[trigger] atts[j]).tid
}

/// Is the transfer that of one of the offers?
pub open spec fn among(atts: Seq<Attachment>, t: TransferId) -> bool {
    exists|i: int| 0 <= i < atts.len() && (#[trigger] atts[i]).tid == t
}

/// Is the endpoint one of those offered?
pub open spec fn offered(atts: Seq<Attachment>, e: EpId) -> bool {
    exists|i: int| 0 <= i < atts.len() && (#[trigger] atts[i]).id == e
}

/// May the native offer pass: of a new resource, under a new transfer, and
/// with room?
pub open spec fn native_passes(s: State, d: DataView) -> bool {
    match d.native {
        None => true,
        Some(a) => {
            &&& !s.native_live.contains_key(a.rid)
            &&& !s.native_retired.causes.contains_key(a.rid)
            &&& unused(s, a.tid)
            &&& !among(d.attachments, a.tid)
            &&& s.native_pending.len() + s.native_results.len() < s.lim.max_native_resources
            &&& s.native_pending.len() < s.lim.max_resources_in_escrow
            &&& !all_zero(a.rid.0)
            &&& !all_zero(a.tid.0)
        },
    }
}

/// May the region offer pass: by a holder of the right it claims, under a new
/// transfer, and with room? The writer may offer both rights, a reader only
/// to read.
pub open spec fn shared_passes(s: State, p: PeerId, d: DataView) -> bool {
    match d.shared {
        None => true,
        Some(a) => {
            &&& s.regions.contains_key(a.rid)
            &&& a.rights == 1 && s.regions[a.rid].writable == Some(p) || a.rights == 0 && (
            s.regions[a.rid].writable == Some(p) || s.regions[a.rid].readonly.contains(p))
            &&& unused(s, a.tid)
            &&& !among(d.attachments, a.tid)
            &&& match d.native {
                Some(b) => b.tid != a.tid,
                None => true,
            }
            &&& s.shared_pending.len() + s.shared_results.len() < s.lim.max_native_resources
            &&& s.shared_pending.len() < s.lim.max_resources_in_escrow
            &&& !all_zero(a.rid.0)
            &&& !all_zero(a.tid.0)
        },
    }
}

/// May the message of the holder pass to the peer at the other end?
pub open spec fn passes(s: State, p: PeerId, d: DataView) -> bool {
    &&& all_offerable(s, p, d.attachments)
    &&& d.attachments.len() + s.xfers.len() + s.results.len() <= s.lim.max_pending_transfers
    &&& all_new(s, d.attachments)
    &&& native_passes(s, d)
    &&& shared_passes(s, p, d)
}

/// What is kept of an offered endpoint while its transfer is under way.
pub open spec fn under_way(p: PeerId, q: PeerId, a: Attachment) -> XferRec {
    XferRec {
        tid: a.tid,
        ep: a.id,
        partner: a.partner,
        sender: p,
        dest: q,
        restore: Holder::Peer(p),
        phase: XferPhase::Offered,
    }
}

/// A message on an endpoint of its sender, whose other end a peer holds,
/// reaches that peer exactly if it may pass: one frame goes out, to that peer,
/// and it is the very message that was sent. Otherwise no message goes out at
/// all; the sender alone is told, or it is a breach.
#[verifier::rlimit(40)]
pub proof fn law_messages_arrive_as_sent(s: State, p: PeerId, d: DataView, q: PeerId)
    requires
        inv(s),
        admitted(s, p),
        holds(s, p, d.target),
        s.eps[s.eps[d.target].partner].holder == Holder::Peer(q),
        !s.inject.drop_offer,
    ensures
        ({
            let r = data(s, p, d).1;
            &&& passes(s, p, d) ==> only_frame(r, q, FrameView::Data(d))
            &&& !passes(s, p, d) && r is Ok ==> r->Ok_0.to_host.len() == 0 && r->Ok_0.send.len() == 1
                && r->Ok_0.send[0].0 == p && !(r->Ok_0.send[0].1 is Data)
        }),
{
    lemma_offers_judged(s, p, d.attachments);
    if all_offerable(s, p, d.attachments) {
        lemma_offers_kept(s, p, q, d.attachments);
    }
}

/// What a message that passes leaves behind. Each endpoint in it is in escrow
/// under its own transfer, kept for the sender and meant for the recipient;
/// so are the native resource and the region. Every other endpoint, transfer
/// and right stays where it was.
#[verifier::spinoff_prover]
#[verifier::rlimit(60)]
pub proof fn law_offers_go_into_escrow(
    s: State,
    p: PeerId,
    d: DataView,
    q: PeerId,
    e: EpId,
    t: TransferId,
    i: int,
)
    requires
        inv(s),
        admitted(s, p),
        holds(s, p, d.target),
        s.eps[s.eps[d.target].partner].holder == Holder::Peer(q),
        passes(s, p, d),
    ensures
        ({
            let n = data(s, p, d).0;
            &&& n == (State {
                eps: n.eps,
                xfers: n.xfers,
                native_pending: n.native_pending,
                shared_pending: n.shared_pending,
                ..s
            })
            &&& n.eps.contains_key(e) <==> s.eps.contains_key(e)
            &&& s.eps.contains_key(e) ==> n.eps[e].partner == s.eps[e].partner
            &&& s.eps.contains_key(e) && !offered(d.attachments, e) ==> n.eps[e] == s.eps[e]
            &&& s.eps.contains_key(e) && offered(d.attachments, e) ==> n.eps[e].holder is Escrow
                && among(d.attachments, n.eps[e].holder->Escrow_0)
            &&& 0 <= i < d.attachments.len() ==> n.xfers.contains_key(d.attachments[i].tid)
                && n.xfers[d.attachments[i].tid] == under_way(p, q, d.attachments[i])
            &&& 0 <= i < d.attachments.len() && (forall|j: int|
                0 <= j < d.attachments.len() && j != i ==> (#[trigger] d.attachments[j]).id
                    != d.attachments[i].id) ==> n.eps[d.attachments[i].id].holder == Holder::Escrow(
                d.attachments[i].tid,
            )
            &&& !among(d.attachments, t) ==> (n.xfers.contains_key(t) <==> s.xfers.contains_key(t))
                && (s.xfers.contains_key(t) ==> n.xfers[t] == s.xfers[t])
            &&& n.native_pending == (match d.native {
                None => s.native_pending,
                Some(a) => s.native_pending.insert(
                    a.tid,
                    NativeRec {
                        tid: a.tid,
                        rid: a.rid,
                        sender: p,
                        dest: q,
                        state: NativeState::Escrowed,
                    },
                ),
            })
            &&& n.shared_pending == (match d.shared {
                None => s.shared_pending,
                Some(a) => s.shared_pending.insert(
                    a.tid,
                    SharedRec {
                        tid: a.tid,
                        rid: a.rid,
                        rights: if a.rights == 1 {
                            Rights::ReadWrite
                        } else {
                            Rights::ReadOnly
                        },
                        sender: p,
                        dest: q,
                        state: NativeState::Escrowed,
                    },
                ),
            })
        }),
{
    lemma_offers_judged(s, p, d.attachments);
    lemma_offers_kept(s, p, q, d.attachments);
    let m = escrow_all(s, p, q, d.attachments).0;
    let n = data(s, p, d).0;
    assert(n.eps == m.eps && n.xfers == m.xfers);
    if s.eps.contains_key(e) && offered(d.attachments, e) {
        assert(m.eps[e].holder is Escrow);
    }
    if 0 <= i < d.attachments.len() {
        assert(m.xfers[d.attachments[i].tid] == under_way(p, q, d.attachments[i]));
    }
}

/// A message to the host reaches it as it was sent, but for its offers: the
/// host is told who sent what on which endpoint, and nothing changes. An
/// endpoint cannot be offered to the host.
pub proof fn law_messages_reach_the_host(s: State, p: PeerId, d: DataView)
    requires
        inv(s),
        admitted(s, p),
        holds(s, p, d.target),
        s.eps[s.eps[d.target].partner].holder == Holder::Host,
        all_offerable(s, p, d.attachments),
    ensures
        ({
            let (n, r) = data(s, p, d);
            &&& n == s
            &&& d.attachments.len() == 0 ==> r is Ok && r->Ok_0.send.len() == 0
                && r->Ok_0.to_host.len() == 1 && r->Ok_0.to_host[0].from == p
                && r->Ok_0.to_host[0].target == d.target && r->Ok_0.to_host[0].corr == d.corr
                && r->Ok_0.to_host[0].payload == d.payload
            &&& d.attachments.len() > 0 ==> breach(r, "cannot escrow-transfer to host-held partner")
        }),
{
    lemma_offers_judged(s, p, d.attachments);
}

/// A message on a conversation whose other end is on its way to somebody is a
/// breach, and changes nothing.
pub proof fn law_nobody_hears_in_escrow(s: State, p: PeerId, d: DataView)
    requires
        inv(s),
        admitted(s, p),
        holds(s, p, d.target),
        s.eps[s.eps[d.target].partner].holder is Escrow,
        all_offerable(s, p, d.attachments),
    ensures
        data(s, p, d).0 == s,
        breach(data(s, p, d).1, "conversation partner is in escrow"),
{
    lemma_offers_judged(s, p, d.attachments);
}

/// The first offer that is not the sender's to make decides the message:
/// nothing changes, and nothing goes out but word to the sender that the
/// endpoint is dead, if it is and is remembered.
pub proof fn law_the_first_bad_offer_decides(s: State, p: PeerId, d: DataView, i: int)
    requires
        inv(s),
        admitted(s, p),
        holds(s, p, d.target),
        0 <= i < d.attachments.len(),
        all_offerable(s, p, d.attachments.take(i)),
        !offerable(s, p, d.attachments[i]),
    ensures
        ({
            let (n, r) = data(s, p, d);
            let a = d.attachments[i];
            &&& n == s
            &&& remembered(s, a.id) ==> only_frame(r, p, word_of_close(a.id, s.retired.causes[a.id]))
            &&& holds(s, p, a.id) ==> breach(r, "attachment partner metadata contradicts fabric")
            &&& s.eps.contains_key(a.id) && !holds(s, p, a.id) ==> breach(
                r,
                "identity not held by sender",
            )
            &&& !s.eps.contains_key(a.id) && !remembered(s, a.id) ==> breach(
                r,
                "unknown endpoint identity",
            )
        }),
{
    let front = d.attachments.take(i);
    let upto = d.attachments.take(i + 1);
    lemma_offers_judged(s, p, front);
    assert(upto.drop_last() =~= front);
    assert(upto.last() == d.attachments[i]);
    assert(!(check_all(s, p, upto) is Clean));
    lemma_check_prefix(s, p, d.attachments, i + 1);
}

/// Why a message whose offers are the sender's to make is turned away: the
/// sender is told that there is no room, or it is a breach.
pub proof fn law_why_a_message_is_turned_away(s: State, p: PeerId, d: DataView, q: PeerId)
    requires
        inv(s),
        admitted(s, p),
        holds(s, p, d.target),
        s.eps[s.eps[d.target].partner].holder == Holder::Peer(q),
        all_offerable(s, p, d.attachments),
    ensures
        ({
            let (n, r) = data(s, p, d);
            let room = d.attachments.len() + s.xfers.len() + s.results.len()
                <= s.lim.max_pending_transfers;
            &&& !room ==> n == s && only_frame(r, p, FrameView::Error(ERR_CAPACITY))
            &&& room && !all_new(s, d.attachments) ==> breach(r, "duplicate or reused transfer id")
            &&& room && all_new(s, d.attachments) ==> match (d.native, d.shared) {
                (Some(a), _) => {
                    let new = !s.native_live.contains_key(a.rid)
                        && !s.native_retired.causes.contains_key(a.rid) && unused(s, a.tid)
                        && !among(d.attachments, a.tid);
                    let roomy = s.native_pending.len() + s.native_results.len()
                        < s.lim.max_native_resources && s.native_pending.len()
                        < s.lim.max_resources_in_escrow;
                    &&& !new ==> breach(r, "duplicate or reused native resource id")
                    &&& new && !roomy ==> only_frame(r, p, FrameView::Error(ERR_CAPACITY))
                    &&& new && roomy && (all_zero(a.rid.0) || all_zero(a.tid.0)) ==> breach(
                        r,
                        "zero native id",
                    )
                },
                (None, Some(a)) => {
                    let new = unused(s, a.tid) && !among(d.attachments, a.tid);
                    let known = s.regions.contains_key(a.rid);
                    let zero = all_zero(a.rid.0) || all_zero(a.tid.0);
                    let may = s.regions[a.rid].writable == Some(p) || a.rights == 0
                        && s.regions[a.rid].readonly.contains(p);
                    let roomy = s.shared_pending.len() + s.shared_results.len()
                        < s.lim.max_native_resources && s.shared_pending.len()
                        < s.lim.max_resources_in_escrow;
                    &&& a.rights > 1 ==> breach(r, "unknown shared rights byte")
                    &&& a.rights <= 1 && !new ==> breach(r, "duplicate or reused shared transfer id")
                    &&& a.rights <= 1 && new && zero ==> breach(r, "zero shared id")
                    &&& a.rights <= 1 && new && !zero && !known ==> breach(r, "unknown region id")
                    &&& a.rights <= 1 && new && !zero && known && !may ==> breach(
                        r,
                        "shared rights claim denied",
                    )
                    &&& a.rights <= 1 && new && !zero && known && may && !roomy ==> only_frame(
                        r,
                        p,
                        FrameView::Error(ERR_CAPACITY),
                    )
                },
                _ => true,
            }
        }),
{
    lemma_offers_judged(s, p, d.attachments);
    lemma_offers_kept(s, p, q, d.attachments);
}

/// The offers pass the scan exactly if each is the sender's to make.
proof fn lemma_offers_judged(s: State, p: PeerId, atts: Seq<Attachment>)
    ensures
        check_all(s, p, atts) is Clean <==> all_offerable(s, p, atts),
    decreases atts.len(),
{
    if atts.len() > 0 {
        let front = atts.drop_last();
        lemma_offers_judged(s, p, front);
        if all_offerable(s, p, atts) {
            assert forall|i: int| 0 <= i < front.len() implies #[trigger] offerable(s, p, front[i]) by {
                assert(offerable(s, p, atts[i]));
            }
            assert(offerable(s, p, atts[atts.len() - 1]));
        } else if all_offerable(s, p, front) {
            assert(!offerable(s, p, atts.last())) by {
                if offerable(s, p, atts.last()) {
                    assert forall|i: int| 0 <= i < atts.len() implies #[trigger] offerable(
                        s,
                        p,
                        atts[i],
                    ) by {
                        if i < front.len() {
                            assert(offerable(s, p, front[i]));
                        }
                    }
                }
            }
        }
    }
}

/// What taking the offers into escrow leaves.
#[verifier::spinoff_prover]
#[verifier::rlimit(60)]
proof fn lemma_offers_kept(s: State, p: PeerId, q: PeerId, atts: Seq<Attachment>)
    requires
        all_offerable(s, p, atts),
    ensures
        ({
            let (n, ok) = escrow_all(s, p, q, atts);
            &&& n == (State { eps: n.eps, xfers: n.xfers, ..s })
            &&& ok <==> all_new(s, atts)
            &&& ok ==> {
                &&& forall|e: EpId| #[trigger] n.eps.contains_key(e) <==> s.eps.contains_key(e)
                &&& forall|e: EpId| #[trigger]
                    s.eps.contains_key(e) ==> n.eps[e].partner == s.eps[e].partner
                &&& forall|e: EpId| #[trigger]
                    s.eps.contains_key(e) && !offered(atts, e) ==> n.eps[e] == s.eps[e]
                &&& forall|e: EpId| #[trigger]
                    s.eps.contains_key(e) && offered(atts, e) ==> n.eps[e].holder is Escrow && among(
                        atts,
                        n.eps[e].holder->Escrow_0,
                    )
                &&& forall|i: int|
                    0 <= i < atts.len() ==> n.xfers.contains_key((#[trigger] atts[i]).tid)
                        && n.xfers[atts[i].tid] == under_way(p, q, atts[i])
                &&& forall|i: int|
                    0 <= i < atts.len() && alone(atts, i) ==> n.eps[(#[trigger] atts[i]).id].holder
                        == Holder::Escrow(atts[i].tid)
                &&& forall|t: TransferId|
                    !among(atts, t) ==> (#[trigger] n.xfers.contains_key(t) <==> s.xfers.contains_key(t))
                        && (s.xfers.contains_key(t) ==> n.xfers[t] == s.xfers[t])
            }
        }),
    decreases atts.len(),
{
    if atts.len() > 0 {
        let front = atts.drop_last();
        let a = atts.last();
        let k = atts.len() - 1;
        assert(atts[k] == a);
        assert(offerable(s, p, atts[k]));
        assert forall|i: int| 0 <= i < front.len() implies #[trigger] offerable(s, p, front[i]) by {
            assert(offerable(s, p, atts[i]));
        }
        lemma_offers_kept(s, p, q, front);
        let (m, ok) = escrow_all(s, p, q, front);
        let (n, all) = escrow_all(s, p, q, atts);
        assert forall|t: TransferId| #[trigger] among(atts, t) <==> among(front, t) || t == a.tid by {
            if among(atts, t) {
                let i = choose|i: int| 0 <= i < atts.len() && (#[trigger] atts[i]).tid == t;
                if i < k {
                    assert(front[i].tid == t);
                }
            }
            if among(front, t) {
                let i = choose|i: int| 0 <= i < front.len() && (#[trigger] front[i]).tid == t;
                assert(atts[i].tid == t);
            }
            assert(atts[k].tid == a.tid);
        }
        assert forall|e: EpId| #[trigger] offered(atts, e) <==> offered(front, e) || e == a.id by {
            if offered(atts, e) {
                let i = choose|i: int| 0 <= i < atts.len() && (#[trigger] atts[i]).id == e;
                if i < k {
                    assert(front[i].id == e);
                }
            }
            if offered(front, e) {
                let i = choose|i: int| 0 <= i < front.len() && (#[trigger] front[i]).id == e;
                assert(atts[i].id == e);
            }
            assert(atts[k].id == a.id);
        }
        if all_new(s, atts) {
            assert forall|i: int| 0 <= i < front.len() implies unused(s, (#[trigger] front[i]).tid) by {
                assert(unused(s, atts[i].tid));
            }
            assert forall|i: int, j: int| 0 <= i < j < front.len() implies (#[trigger] front[i]).tid != (
            #[trigger] front[j]).tid by {
                assert(atts[i].tid != atts[j].tid);
            }
            assert(unused(s, atts[k].tid));
            if among(front, a.tid) {
                let i = choose|i: int| 0 <= i < front.len() && (#[trigger] front[i]).tid == a.tid;
                assert(atts[i].tid != atts[k].tid);
            }
        }
        if ok && unused(s, a.tid) && !among(front, a.tid) {
            assert forall|i: int| 0 <= i < atts.len() implies unused(s, (#[trigger] atts[i]).tid) by {
                if i < k {
                    assert(unused(s, front[i].tid));
                }
            }
            assert forall|i: int, j: int| 0 <= i < j < atts.len() implies (#[trigger] atts[i]).tid != (
            #[trigger] atts[j]).tid by {
                assert(front[i].tid == atts[i].tid);
                if j < k {
                    assert(front[i].tid != front[j].tid);
                }
            }
            assert(all_new(s, atts));
        }
        if all {
            assert(n == escrow_one(m, p, q, a));
            assert forall|i: int| 0 <= i < atts.len() implies n.xfers.contains_key(
                (#[trigger] atts[i]).tid,
            ) && n.xfers[atts[i].tid] == under_way(p, q, atts[i]) by {
                if i < k {
                    assert(m.xfers[front[i].tid] == under_way(p, q, front[i]));
                }
            }
            assert forall|i: int| 0 <= i < atts.len() && alone(atts, i) implies n.eps[(
            #[trigger] atts[i]).id].holder == Holder::Escrow(atts[i].tid) by {
                if i < k {
                    assert(atts[k].id != atts[i].id);
                    assert forall|j: int| 0 <= j < front.len() && j != i implies (#[trigger] front[j]).id
                        != front[i].id by {
                        assert(atts[j].id != atts[i].id);
                    }
                    assert(alone(front, i));
                    assert(m.eps[front[i].id].holder == Holder::Escrow(front[i].tid));
                }
            }
            assert forall|e: EpId| #[trigger] s.eps.contains_key(e) && offered(
                atts,
                e,
            ) implies n.eps[e].holder is Escrow && among(atts, n.eps[e].holder->Escrow_0) by {
                if e != a.id {
                    assert(offered(front, e));
                    assert(m.eps.contains_key(e));
                }
            }
            assert forall|e: EpId| #[trigger] n.eps.contains_key(e) <==> s.eps.contains_key(e) by {
                assert(m.eps.contains_key(e) <==> s.eps.contains_key(e));
            }
        }
    }
}

/// Is the endpoint of this offer in no other of them?
spec fn alone(atts: Seq<Attachment>, i: int) -> bool {
    forall|j: int| 0 <= j < atts.len() && j != i ==> (#[trigger] atts[j]).id != atts[i].id
}

} // verus!

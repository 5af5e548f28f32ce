//! What the router does, as a function from one state to the next.

use vstd::prelude::*;

use crate::fabric_error::Cause;
use crate::frame::{
    DataView, FrameView, SharedAttachment, Attachment, NativeAttachment, XferMsg, ERR_CAPACITY,
    XFER_ST_ABORTED, XFER_ST_COMMITTED, XFER_ST_PENDING, XFER_ST_UNKNOWN,
};
use crate::id::{all_zero, EpId, Ledger, TransferId};
use crate::limits::Limits;
use crate::native::{NativeState, ResourceId};
use crate::router::{
    EpEntry, Holder, HostEvent, Inject, NativeRec, PeerId, Poison, SharedRec, XferPhase, XferRec,
    HOST_PEER,
};
use crate::shared::{
    reader_move, region_grant, without_peer, writer_move, RegionId, Regions, Rights,
};
use crate::table::key_list;

verus! {

/// Everything the router knows.
#[verifier::ext_equal]
pub struct State {
    pub lim: Limits,
    /// The peers present; true once the peer has said hello.
    pub peers: Map<PeerId, bool>,
    /// The number that the next peer gets.
    pub next_peer: nat,
    /// The live endpoints.
    pub eps: Map<EpId, EpEntry>,
    /// The endpoints that died, as far as they are remembered.
    pub retired: Ledger<EpId>,
    /// Endpoint transfers in flight.
    pub xfers: Map<TransferId, XferRec>,
    /// Terminal results, kept until the sender acknowledges: the sender, and
    /// `PeerLost` for a commit or `Graceful` for an abort.
    pub results: Map<TransferId, (PeerId, Cause)>,
    pub native_pending: Map<TransferId, NativeRec>,
    pub native_results: Map<TransferId, (PeerId, Cause, ResourceId)>,
    pub native_live: Map<ResourceId, PeerId>,
    pub native_retired: Ledger<ResourceId>,
    /// The authoritative rights over shared regions.
    pub regions: Regions,
    pub shared_pending: Map<TransferId, SharedRec>,
    pub shared_results: Map<TransferId, (PeerId, Cause, RegionId)>,
    /// Regions whose committed transfer is not acknowledged yet.
    pub shared_live: Set<RegionId>,
    pub shared_retired: Ledger<RegionId>,
    pub host_events: Seq<HostEvent>,
    pub inject: Inject,
    pub collisions: u64,
}

/// A message to the host.
#[verifier::ext_equal]
pub struct DeliveryView {
    pub from: PeerId,
    pub target: EpId,
    pub corr: u32,
    pub payload: Seq<u8>,
}

/// What is to be sent.
#[verifier::ext_equal]
pub struct Outcome {
    pub send: Seq<(PeerId, FrameView)>,
    pub to_host: Seq<DeliveryView>,
}

/// What a request comes to.
pub type Reply = Result<Outcome, Poison>;

impl Outcome {
    /// Nothing to send.
    pub open spec fn none() -> Outcome {
        Outcome { send: Seq::empty(), to_host: Seq::empty() }
    }

    /// One frame to one peer.
    pub open spec fn one(dest: PeerId, f: FrameView) -> Outcome {
        Outcome { send: seq![(dest, f)], to_host: Seq::empty() }
    }

    /// One more frame, if `cond` holds.
    pub open spec fn and(self, cond: bool, dest: PeerId, f: FrameView) -> Outcome {
        if cond {
            Outcome { send: self.send.push((dest, f)), ..self }
        } else {
            self
        }
    }
}

/// A router with no peers and no endpoints.
pub open spec fn initial(lim: Limits) -> State {
    State {
        lim,
        peers: Map::empty(),
        next_peer: 0,
        eps: Map::empty(),
        retired: Ledger::empty(lim.max_retired as nat),
        xfers: Map::empty(),
        results: Map::empty(),
        native_pending: Map::empty(),
        native_results: Map::empty(),
        native_live: Map::empty(),
        native_retired: Ledger::empty(lim.max_retired as nat),
        regions: Map::empty(),
        shared_pending: Map::empty(),
        shared_results: Map::empty(),
        shared_live: Set::empty(),
        shared_retired: Ledger::empty(lim.max_retired as nat),
        host_events: Seq::empty(),
        inject: Inject::none(),
        collisions: 0,
    }
}

// ------------------------------------------------------------------ queries --

/// Is the identity in use or still remembered?
pub open spec fn taken_id(s: State, id: EpId) -> bool {
    s.eps.contains_key(id) || s.retired.has(id)
}

/// Does the transfer identity name any record?
pub open spec fn taken_tid(s: State, t: TransferId) -> bool {
    s.xfers.contains_key(t) || s.results.contains_key(t) || s.native_pending.contains_key(t)
        || s.native_results.contains_key(t) || s.shared_pending.contains_key(t)
        || s.shared_results.contains_key(t)
}

/// Is the resource identity in use or still remembered?
pub open spec fn taken_rid(s: State, r: ResourceId) -> bool {
    s.native_live.contains_key(r) || s.native_retired.has(r)
}

/// How a use of an endpoint by a peer is judged.
pub enum Claim {
    /// Live and held by the peer.
    Held,
    /// Known but dead: rejected softly.
    Stale,
    /// Never heard of, or held by somebody else: quarantine.
    Denied(Poison),
}

/// How the use of `ep` by `from` is judged.
pub open spec fn claim(s: State, from: PeerId, ep: EpId) -> Claim {
    if s.eps.contains_key(ep) {
        if s.eps[ep].holder == Holder::Peer(from) {
            Claim::Held
        } else {
            Claim::Denied(Poison("identity not held by sender"))
        }
    } else if s.retired.has(ep) {
        Claim::Stale
    } else {
        Claim::Denied(Poison("unknown endpoint identity"))
    }
}

/// The correction sent to a peer that used a dead endpoint.
pub open spec fn stale_notice(s: State, to: PeerId, ep: EpId) -> Outcome {
    let cause = match s.retired.cause_of(ep) {
        Some(c) => c,
        None => Cause::Graceful,
    };
    Outcome::one(to, FrameView::ClosedNotify { entries: seq![(ep, cause)] })
}

/// Why a peer may not send traffic yet, if it may not.
pub open spec fn gate(s: State, from: PeerId) -> Option<Poison> {
    if !s.peers.contains_key(from) {
        Some(Poison("frame from unknown peer"))
    } else if !s.peers[from] {
        Some(Poison("traffic before hello"))
    } else {
        None
    }
}

/// Where a transfer stands.
pub open spec fn status_of(s: State, t: TransferId) -> u8 {
    if s.xfers.contains_key(t) {
        match s.xfers[t].phase {
            XferPhase::Offered => XFER_ST_PENDING,
            XferPhase::Committed => XFER_ST_COMMITTED,
            XferPhase::Aborted => XFER_ST_ABORTED,
        }
    } else if s.native_pending.contains_key(t) {
        escrow_status(s.native_pending[t].state)
    } else if s.shared_pending.contains_key(t) {
        escrow_status(s.shared_pending[t].state)
    } else if s.results.contains_key(t) {
        result_status(s.results[t].1)
    } else if s.native_results.contains_key(t) {
        result_status(s.native_results[t].1)
    } else if s.shared_results.contains_key(t) {
        result_status(s.shared_results[t].1)
    } else {
        XFER_ST_UNKNOWN
    }
}

/// The status of an object in escrow.
pub open spec fn escrow_status(n: NativeState) -> u8 {
    match n {
        NativeState::Escrowed => XFER_ST_PENDING,
        NativeState::Committed => XFER_ST_COMMITTED,
        NativeState::Aborted => XFER_ST_ABORTED,
    }
}

/// The status that a retained result stands for.
pub open spec fn result_status(c: Cause) -> u8 {
    match c {
        Cause::PeerLost => XFER_ST_COMMITTED,
        Cause::Graceful => XFER_ST_ABORTED,
    }
}

// ------------------------------------------------------------ peers, pairs --

/// A new peer, which has not said hello.
pub open spec fn accept(s: State) -> State {
    State {
        peers: s.peers.insert(PeerId(s.next_peer as u32), false),
        next_peer: s.next_peer + 1,
        ..s
    }
}

/// A hello.
pub open spec fn hello(s: State, from: PeerId, magic: u16, version: u16) -> (State, Result<(), Poison>) {
    if !s.peers.contains_key(from) {
        (s, Err(Poison("hello from unknown peer")))
    } else if s.peers[from] {
        (s, Err(Poison("duplicate hello")))
    } else if magic != s.lim.hello_magic {
        (s, Err(Poison("bad hello magic")))
    } else if version != s.lim.hello_version {
        (s, Err(Poison("bad protocol version")))
    } else {
        (State { peers: s.peers.insert(from, true), ..s }, Ok(()))
    }
}

/// Two identities that a new conversation may have.
pub open spec fn fresh_pair(s: State, a: EpId, b: EpId) -> bool {
    &&& !all_zero(a.0)
    &&& !all_zero(b.0)
    &&& a != b
    &&& !taken_id(s, a)
    &&& !taken_id(s, b)
}

/// Is there room for one more conversation?
pub open spec fn room_for_pair(s: State) -> bool {
    s.eps.len() + 2 <= s.lim.max_live_endpoints
}

/// A new conversation, both ends with one holder.
pub open spec fn with_pair(s: State, a: EpId, b: EpId, holder: Holder) -> State {
    State {
        eps: s.eps.insert(a, EpEntry { partner: b, holder }).insert(b, EpEntry { partner: a, holder }),
        ..s
    }
}

/// A peer asks for a conversation; `a` and `b` are what was drawn for it.
pub open spec fn create(s: State, from: PeerId, a: EpId, b: EpId) -> (State, Reply) {
    match gate(s, from) {
        Some(p) => (s, Err(p)),
        None => if !room_for_pair(s) || s.results.len() >= s.lim.max_pending_transfers {
            (s, Ok(Outcome::one(from, FrameView::Error(ERR_CAPACITY))))
        } else {
            (
                with_pair(s, a, b, Holder::Peer(from)),
                Ok(
                    Outcome::one(
                        from,
                        FrameView::CreateAck { impl_ep: a, transferable_ep: b },
                    ),
                ),
            )
        },
    }
}

/// Is a draw needed to answer a request for a conversation?
pub open spec fn create_draws(s: State, from: PeerId) -> bool {
    gate(s, from) is None && room_for_pair(s) && s.results.len() < s.lim.max_pending_transfers
}

/// Both ends of a conversation die: they leave the table and are remembered.
pub open spec fn close_pair(s: State, side: EpId, cause: Cause) -> State {
    if s.eps.contains_key(side) && s.eps.contains_key(s.eps[side].partner) {
        let partner = s.eps[side].partner;
        State {
            eps: s.eps.remove(side).remove(partner),
            retired: s.retired.insert(side, cause).insert(partner, cause),
            ..s
        }
    } else {
        s
    }
}

/// The holder of an end closes it.
pub open spec fn close(s: State, from: PeerId, target: EpId) -> (State, Reply) {
    match gate(s, from) {
        Some(p) => (s, Err(p)),
        None => match claim(s, from, target) {
            Claim::Denied(p) => (s, Err(p)),
            Claim::Stale => (s, Ok(stale_notice(s, from, target))),
            Claim::Held => {
                let survivor = s.eps[target].partner;
                let closed = close_pair(s, target, Cause::Graceful);
                match s.eps[survivor].holder {
                    Holder::Peer(q) => (
                        closed,
                        Ok(
                            Outcome::one(
                                q,
                                FrameView::ClosedNotify { entries: seq![(survivor, Cause::Graceful)] },
                            ),
                        ),
                    ),
                    Holder::Host => (
                        with_event(closed, survivor, Cause::Graceful),
                        Ok(Outcome::none()),
                    ),
                    Holder::Escrow(_) => (closed, Ok(Outcome::none())),
                }
            },
        },
    }
}

/// The host learns that an endpoint it holds died.
pub open spec fn with_event(s: State, ep: EpId, cause: Cause) -> State {
    State { host_events: s.host_events.push(HostEvent::EndpointClosed { ep, cause }), ..s }
}

// --------------------------------------------------------- endpoint transfer --

/// Why the host may not offer an endpoint, if it may not: too many transfers
/// are under way, the endpoint is not live, or the host does not hold it.
pub open spec fn grant_refusal(s: State, ep: EpId) -> Option<Poison> {
    if s.xfers.len() + s.results.len() >= s.lim.max_pending_transfers {
        Some(Poison("pending transfer table full"))
    } else if !s.eps.contains_key(ep) {
        Some(Poison("grant of unknown/closed endpoint"))
    } else if s.eps[ep].holder != Holder::Host {
        Some(Poison("grant of endpoint not held by host"))
    } else {
        None
    }
}

/// The host offers an endpoint that it holds; `tid` is what was drawn for it.
pub open spec fn grant(s: State, to: PeerId, ep: EpId, tid: TransferId) -> (State, Result<
    FrameView,
    Poison,
>) {
    if let Some(p) = grant_refusal(s, ep) {
        (s, Err(p))
    } else {
        let partner = s.eps[ep].partner;
        (
            State {
                eps: s.eps.insert(ep, EpEntry { partner, holder: Holder::Escrow(tid) }),
                xfers: s.xfers.insert(
                    tid,
                    XferRec {
                        tid,
                        ep,
                        partner,
                        sender: to,
                        dest: to,
                        restore: Holder::Host,
                        phase: XferPhase::Offered,
                    },
                ),
                ..s
            },
            Ok(FrameView::Grant { ep, partner, tid }),
        )
    }
}

/// A transfer reaches its end; the result waits for the sender.
pub open spec fn finish(s: State, tid: TransferId, sender: PeerId, phase: XferPhase) -> State {
    State {
        xfers: s.xfers.remove(tid),
        results: s.results.insert(
            tid,
            (
                sender,
                if phase == XferPhase::Committed {
                    Cause::PeerLost
                } else {
                    Cause::Graceful
                },
            ),
        ),
        ..s
    }
}

/// The endpoint `ep` with another holder.
pub open spec fn held_by(s: State, ep: EpId, holder: Holder) -> State {
    State { eps: s.eps.insert(ep, EpEntry { partner: s.eps[ep].partner, holder }), ..s }
}

/// An offered endpoint goes to its recipient.
pub open spec fn commit_xfer(s: State, tid: TransferId) -> (State, Reply) {
    if !s.xfers.contains_key(tid) {
        (s, Err(Poison("unknown transfer id")))
    } else {
        let x = s.xfers[tid];
        if x.phase != XferPhase::Offered {
            (s, Ok(Outcome::none()))
        } else if !s.eps.contains_key(x.ep) {
            (s, Err(Poison("escrowed endpoint missing")))
        } else {
            (
                finish(held_by(s, x.ep, Holder::Peer(x.dest)), tid, x.sender, XferPhase::Committed),
                Ok(
                    Outcome::none().and(
                        !s.inject.drop_commit,
                        x.dest,
                        FrameView::Xfer(XferMsg::Commit { tid, ep: x.ep, partner: x.partner }),
                    ).and(
                        !s.inject.drop_committed,
                        x.sender,
                        FrameView::Xfer(XferMsg::Committed { tid }),
                    ),
                ),
            )
        }
    }
}

/// The notices of an abort.
pub open spec fn abort_notices(s: State, tid: TransferId, x: XferRec) -> Outcome {
    let abort = FrameView::Xfer(XferMsg::Abort { tid });
    let back = match x.restore {
        Holder::Peer(p) => Outcome::none().and(
            !s.inject.drop_abort && s.peers.contains_key(p),
            p,
            abort,
        ),
        _ => Outcome::none(),
    };
    back.and(
        !s.inject.drop_abort && x.dest != x.sender && s.peers.contains_key(x.dest),
        x.dest,
        abort,
    )
}

/// An offered endpoint goes back to where it came from.
pub open spec fn abort_xfer(s: State, tid: TransferId) -> (State, Reply) {
    if !s.xfers.contains_key(tid) {
        (s, Err(Poison("unknown transfer id")))
    } else {
        let x = s.xfers[tid];
        if x.phase != XferPhase::Offered {
            (s, Ok(Outcome::none()))
        } else {
            let restored = if s.eps.contains_key(x.ep) {
                held_by(s, x.ep, x.restore)
            } else {
                s
            };
            (
                finish(restored, tid, x.sender, XferPhase::Aborted),
                Ok(abort_notices(s, tid, x)),
            )
        }
    }
}

// ---------------------------------------------------------- native transfer --

/// A native resource goes to its recipient.
pub open spec fn commit_native(s: State, tid: TransferId) -> (State, Reply) {
    if !s.native_pending.contains_key(tid) {
        (s, Err(Poison("unknown native transfer")))
    } else {
        let n = s.native_pending[tid];
        if n.state != NativeState::Escrowed {
            (s, Ok(Outcome::none()))
        } else {
            (
                State {
                    native_pending: s.native_pending.remove(tid),
                    native_results: s.native_results.insert(tid, (n.sender, Cause::PeerLost, n.rid)),
                    native_live: s.native_live.insert(n.rid, n.dest),
                    ..s
                },
                Ok(
                    Outcome::none().and(
                        !s.inject.drop_commit,
                        n.dest,
                        FrameView::Xfer(XferMsg::NativeCommit { tid, rid: n.rid, handle_value: 0 }),
                    ).and(
                        !s.inject.drop_committed,
                        n.sender,
                        FrameView::Xfer(XferMsg::Committed { tid }),
                    ),
                ),
            )
        }
    }
}

/// A native resource goes back to its sender.
pub open spec fn abort_native(s: State, tid: TransferId) -> (State, Reply) {
    if !s.native_pending.contains_key(tid) {
        (s, Err(Poison("unknown native transfer")))
    } else {
        let n = s.native_pending[tid];
        let abort = FrameView::Xfer(XferMsg::Abort { tid });
        if n.state != NativeState::Escrowed {
            (s, Ok(Outcome::none()))
        } else {
            (
                State {
                    native_pending: s.native_pending.remove(tid),
                    native_results: s.native_results.insert(tid, (n.sender, Cause::Graceful, n.rid)),
                    ..s
                },
                Ok(
                    Outcome::none().and(
                        !s.inject.drop_abort && s.peers.contains_key(n.sender),
                        n.sender,
                        abort,
                    ).and(
                        !s.inject.drop_abort && n.dest != n.sender && s.peers.contains_key(n.dest),
                        n.dest,
                        abort,
                    ),
                ),
            )
        }
    }
}

// ---------------------------------------------------------- region transfer --

/// The rights graph after the move that a record stands for, or why the move
/// is refused.
pub open spec fn region_move(m: Regions, rec: SharedRec, lim: Limits) -> Result<Regions, Poison> {
    match rec.rights {
        Rights::ReadWrite => match writer_move(m, rec.rid, rec.sender, rec.dest) {
            Ok(m2) => Ok(m2),
            Err(_) => Err(
                if rec.sender == PeerId(HOST_PEER) {
                    Poison("second writer denied")
                } else {
                    Poison("writer transfer denied")
                },
            ),
        },
        Rights::ReadOnly => if rec.sender == PeerId(HOST_PEER) {
            match region_grant(m, rec.rid, rec.dest, lim) {
                Ok(m2) => Ok(m2),
                Err(_) => Err(Poison("readonly grant denied")),
            }
        } else {
            match reader_move(m, rec.rid, rec.sender, rec.dest) {
                Ok(m2) => Ok(m2),
                Err(_) => Err(Poison("readonly transfer denied")),
            }
        },
    }
}

/// Whose word retires the result of a region transfer: the sender's, and for
/// what the host sent the recipient's, as the host is no peer.
pub open spec fn owed_to(rec: SharedRec) -> PeerId {
    if rec.sender == PeerId(HOST_PEER) {
        rec.dest
    } else {
        rec.sender
    }
}

/// A region capability goes to its recipient. The rights graph moves first: a
/// refused move changes nothing and sends nothing.
pub open spec fn commit_shared(s: State, tid: TransferId) -> (State, Reply) {
    if !s.shared_pending.contains_key(tid) {
        (s, Err(Poison("unknown shared transfer")))
    } else {
        let rec = s.shared_pending[tid];
        if rec.state != NativeState::Escrowed {
            (s, Ok(Outcome::none()))
        } else {
            match region_move(s.regions, rec, s.lim) {
                Err(p) => (s, Err(p)),
                Ok(m) => (
                    State {
                        regions: m,
                        shared_pending: s.shared_pending.remove(tid),
                        shared_results: s.shared_results.insert(
                            tid,
                            (owed_to(rec), Cause::PeerLost, rec.rid),
                        ),
                        shared_live: s.shared_live.insert(rec.rid),
                        ..s
                    },
                    Ok(
                        Outcome::none().and(
                            !s.inject.drop_commit,
                            rec.dest,
                            FrameView::Xfer(
                                XferMsg::SharedCommit {
                                    tid,
                                    rid: rec.rid,
                                    rights: rec.rights.byte(),
                                    size: m[rec.rid].size,
                                    handle_value: 0,
                                },
                            ),
                        ).and(
                            !s.inject.drop_committed && rec.sender != PeerId(HOST_PEER),
                            rec.sender,
                            FrameView::Xfer(XferMsg::Committed { tid }),
                        ),
                    ),
                ),
            }
        }
    }
}

/// An offer of a region capability lapses. Authority never left the sender.
pub open spec fn abort_shared(s: State, tid: TransferId) -> (State, Reply) {
    if !s.shared_pending.contains_key(tid) {
        (s, Err(Poison("unknown shared transfer")))
    } else {
        let rec = s.shared_pending[tid];
        let abort = FrameView::Xfer(XferMsg::Abort { tid });
        if rec.state != NativeState::Escrowed {
            (s, Ok(Outcome::none()))
        } else {
            (
                State {
                    shared_pending: s.shared_pending.remove(tid),
                    shared_results: s.shared_results.insert(
                        tid,
                        (owed_to(rec), Cause::Graceful, rec.rid),
                    ),
                    ..s
                },
                Ok(
                    Outcome::none().and(
                        !s.inject.drop_abort && rec.sender != PeerId(HOST_PEER) && s.peers.contains_key(
                            rec.sender,
                        ),
                        rec.sender,
                        abort,
                    ).and(
                        !s.inject.drop_abort && s.peers.contains_key(rec.dest),
                        rec.dest,
                        abort,
                    ),
                ),
            )
        }
    }
}

/// Why the host may not offer a region capability, if it may not: the region
/// is unknown, the host would offer to itself, a writer is not the host's to
/// give, or too much is in escrow.
pub open spec fn grant_region_refusal(s: State, dest: PeerId, rid: RegionId, rights: Rights) -> Option<
    Poison,
> {
    if !s.regions.contains_key(rid) {
        Some(Poison("unknown region id"))
    } else if dest == PeerId(HOST_PEER) {
        Some(Poison("cannot grant to host sentinel"))
    } else if rights == Rights::ReadWrite && s.regions[rid].writable != Some(PeerId(HOST_PEER)) {
        Some(Poison("second writer denied"))
    } else if s.shared_pending.len() >= s.lim.max_resources_in_escrow {
        Some(Poison("shared escrow capacity"))
    } else {
        None
    }
}

/// The host offers a region capability; `tid` is what was drawn for it.
pub open spec fn grant_region(
    s: State,
    dest: PeerId,
    target: EpId,
    corr: u32,
    rid: RegionId,
    rights: Rights,
    tid: TransferId,
) -> (State, Reply) {
    if let Some(p) = grant_region_refusal(s, dest, rid, rights) {
        (s, Err(p))
    } else {
        (
            State {
                shared_pending: s.shared_pending.insert(
                    tid,
                    SharedRec {
                        tid,
                        rid,
                        rights,
                        sender: PeerId(HOST_PEER),
                        dest,
                        state: NativeState::Escrowed,
                    },
                ),
                ..s
            },
            Ok(
                Outcome::one(
                    dest,
                    FrameView::Data(
                        DataView {
                            target,
                            corr,
                            attachments: Seq::empty(),
                            payload: Seq::empty(),
                            native: None,
                            shared: Some(
                                SharedAttachment { tid, rid, rights: rights.byte(), handle_value: 0 },
                            ),
                        },
                    ),
                ),
            ),
        )
    }
}

// ------------------------------------------------------------------ messages --

/// How the first attachment that is not in order is judged.
pub enum Scan {
    /// All are live, held by the sender, and named with their true partner.
    Clean,
    /// One is known but dead.
    Stale(EpId),
    /// One is not the sender's, or its partner is misnamed.
    Denied(Poison),
}

/// How one attachment is judged.
pub open spec fn check_one(s: State, from: PeerId, a: Attachment) -> Scan {
    match claim(s, from, a.id) {
        Claim::Denied(p) => Scan::Denied(p),
        Claim::Stale => Scan::Stale(a.id),
        Claim::Held => if s.eps[a.id].partner != a.partner {
            Scan::Denied(Poison("attachment partner metadata contradicts fabric"))
        } else {
            Scan::Clean
        },
    }
}

/// How the attachments are judged, in order.
pub open spec fn check_all(s: State, from: PeerId, atts: Seq<Attachment>) -> Scan
    decreases atts.len(),
{
    if atts.len() == 0 {
        Scan::Clean
    } else {
        match check_all(s, from, atts.drop_last()) {
            Scan::Clean => check_one(s, from, atts.last()),
            other => other,
        }
    }
}

/// One attachment goes into escrow.
pub open spec fn escrow_one(s: State, from: PeerId, dest: PeerId, a: Attachment) -> State {
    let held = held_by(s, a.id, Holder::Escrow(a.tid));
    State {
        xfers: held.xfers.insert(
            a.tid,
            XferRec {
                tid: a.tid,
                ep: a.id,
                partner: a.partner,
                sender: from,
                dest,
                restore: Holder::Peer(from),
                phase: XferPhase::Offered,
            },
        ),
        ..held
    }
}

/// The attachments go into escrow, in order, up to the first whose transfer
/// identity is taken. True if there is none.
pub open spec fn escrow_all(s: State, from: PeerId, dest: PeerId, atts: Seq<Attachment>) -> (State, bool)
    decreases atts.len(),
{
    if atts.len() == 0 {
        (s, true)
    } else {
        let (s1, ok) = escrow_all(s, from, dest, atts.drop_last());
        if !ok || taken_tid(s1, atts.last().tid) {
            (s1, false)
        } else {
            (escrow_one(s1, from, dest, atts.last()), true)
        }
    }
}

/// The rights that a wire byte claims.
pub open spec fn rights_claim(b: u8) -> Option<Rights> {
    if b == 0 {
        Some(Rights::ReadOnly)
    } else if b == 1 {
        Some(Rights::ReadWrite)
    } else {
        None
    }
}

/// The answer to a request that a limit turns away.
pub open spec fn no_capacity(from: PeerId) -> Reply {
    Ok(Outcome::one(from, FrameView::Error(ERR_CAPACITY)))
}

/// A native offer is taken into escrow, or the request ends with a reply.
pub open spec fn offer_native(s: State, from: PeerId, dest: PeerId, n: NativeAttachment) -> (
    State,
    Option<Reply>,
) {
    if taken_rid(s, n.rid) || taken_tid(s, n.tid) {
        (s, Some(Err(Poison("duplicate or reused native resource id"))))
    } else if s.native_pending.len() + s.native_results.len() >= s.lim.max_native_resources
        || s.native_pending.len() >= s.lim.max_resources_in_escrow {
        (s, Some(no_capacity(from)))
    } else if all_zero(n.rid.0) || all_zero(n.tid.0) {
        (s, Some(Err(Poison("zero native id"))))
    } else {
        (
            State {
                native_pending: s.native_pending.insert(
                    n.tid,
                    NativeRec {
                        tid: n.tid,
                        rid: n.rid,
                        sender: from,
                        dest,
                        state: NativeState::Escrowed,
                    },
                ),
                ..s
            },
            None,
        )
    }
}

/// May `from` offer `rights` over the region? Only a current holder may; the
/// writer may also offer read-only.
pub open spec fn may_offer(m: Regions, rid: RegionId, from: PeerId, rights: Rights) -> bool {
    match rights {
        Rights::ReadWrite => m[rid].writable == Some(from),
        Rights::ReadOnly => m[rid].held_by(from),
    }
}

/// A region offer is taken into escrow, or the request ends with a reply.
pub open spec fn offer_shared(s: State, from: PeerId, dest: PeerId, a: SharedAttachment) -> (
    State,
    Option<Reply>,
) {
    match rights_claim(a.rights) {
        None => (s, Some(Err(Poison("unknown shared rights byte")))),
        Some(rights) => if taken_tid(s, a.tid) {
            (s, Some(Err(Poison("duplicate or reused shared transfer id"))))
        } else if all_zero(a.rid.0) || all_zero(a.tid.0) {
            (s, Some(Err(Poison("zero shared id"))))
        } else if !s.regions.contains_key(a.rid) {
            (s, Some(Err(Poison("unknown region id"))))
        } else if !may_offer(s.regions, a.rid, from, rights) {
            (s, Some(Err(Poison("shared rights claim denied"))))
        } else if s.shared_pending.len() + s.shared_results.len() >= s.lim.max_native_resources
            || s.shared_pending.len() >= s.lim.max_resources_in_escrow {
            (s, Some(no_capacity(from)))
        } else {
            (
                State {
                    shared_pending: s.shared_pending.insert(
                        a.tid,
                        SharedRec {
                            tid: a.tid,
                            rid: a.rid,
                            rights,
                            sender: from,
                            dest,
                            state: NativeState::Escrowed,
                        },
                    ),
                    ..s
                },
                None,
            )
        },
    }
}

/// A message whose recipient is the peer `dest`: its offers go into escrow
/// and the message goes out.
pub open spec fn forward(s: State, from: PeerId, dest: PeerId, d: DataView) -> (State, Reply) {
    if d.attachments.len() + s.xfers.len() + s.results.len() > s.lim.max_pending_transfers {
        (s, no_capacity(from))
    } else {
        let (s1, ok) = escrow_all(s, from, dest, d.attachments);
        if !ok {
            (s1, Err(Poison("duplicate or reused transfer id")))
        } else {
            let (s2, end) = match d.native {
                Some(n) => offer_native(s1, from, dest, n),
                None => (s1, None),
            };
            match end {
                Some(r) => (s2, r),
                None => {
                    let (s3, end2) = match d.shared {
                        Some(a) => offer_shared(s2, from, dest, a),
                        None => (s2, None),
                    };
                    match end2 {
                        Some(r) => (s3, r),
                        None => (
                            s3,
                            Ok(
                                if s.inject.drop_offer {
                                    Outcome::none()
                                } else {
                                    Outcome::one(dest, FrameView::Data(d))
                                },
                            ),
                        ),
                    }
                },
            }
        }
    }
}

/// A message.
pub open spec fn data(s: State, from: PeerId, d: DataView) -> (State, Reply) {
    match gate(s, from) {
        Some(p) => (s, Err(p)),
        None => match claim(s, from, d.target) {
            Claim::Denied(p) => (s, Err(p)),
            Claim::Stale => (s, Ok(stale_notice(s, from, d.target))),
            Claim::Held => {
                let partner = s.eps[d.target].partner;
                if !s.eps.contains_key(partner) {
                    (s, Err(Poison("broken pairing")))
                } else {
                    match check_all(s, from, d.attachments) {
                        Scan::Denied(p) => (s, Err(p)),
                        Scan::Stale(id) => (s, Ok(stale_notice(s, from, id))),
                        Scan::Clean => match s.eps[partner].holder {
                            Holder::Escrow(_) => (
                                s,
                                Err(Poison("conversation partner is in escrow")),
                            ),
                            Holder::Host => if d.attachments.len() > 0 {
                                (s, Err(Poison("cannot escrow-transfer to host-held partner")))
                            } else {
                                (
                                    s,
                                    Ok(
                                        Outcome {
                                            send: Seq::empty(),
                                            to_host: seq![
                                                DeliveryView {
                                                    from,
                                                    target: d.target,
                                                    corr: d.corr,
                                                    payload: d.payload,
                                                },
                                            ],
                                        },
                                    ),
                                )
                            },
                            Holder::Peer(dest) => forward(s, from, dest, d),
                        },
                    }
                }
            },
        },
    }
}

/// The host sends on an endpoint that it holds.
pub open spec fn emit(s: State, target: EpId, corr: u32, payload: Seq<u8>) -> Reply {
    if !s.eps.contains_key(target) {
        Err(Poison("host emit on unknown/closed endpoint"))
    } else if s.eps[target].holder != Holder::Host {
        Err(Poison("host emit on endpoint not held by host"))
    } else if !s.eps.contains_key(s.eps[target].partner) {
        Err(Poison("broken pairing"))
    } else {
        match s.eps[s.eps[target].partner].holder {
            Holder::Peer(dest) => Ok(
                Outcome::one(
                    dest,
                    FrameView::Data(
                        DataView {
                            target,
                            corr,
                            attachments: Seq::empty(),
                            payload,
                            native: None,
                            shared: None,
                        },
                    ),
                ),
            ),
            _ => Ok(Outcome::none()),
        }
    }
}

// ----------------------------------------------------------- transfer control --

/// The endpoints that a peer holds.
pub open spec fn endpoints_of(s: State, p: PeerId) -> Set<EpId> {
    s.eps.dom().filter(|e: EpId| s.eps[e].holder == Holder::Peer(p))
}

/// An answer to a transfer that is no longer in flight.
pub open spec fn late_answer(s: State, tid: TransferId) -> (State, Reply) {
    if status_of(s, tid) == XFER_ST_COMMITTED || status_of(s, tid) == XFER_ST_ABORTED {
        (s, Ok(Outcome::none()))
    } else {
        (s, Err(Poison("unknown transfer id")))
    }
}

/// The recipient accepts.
pub open spec fn accept_transfer(s: State, from: PeerId, tid: TransferId) -> (State, Reply) {
    if s.xfers.contains_key(tid) {
        if s.xfers[tid].dest != from {
            (s, Err(Poison("accept from wrong recipient")))
        } else if s.xfers[tid].phase != XferPhase::Offered {
            (s, Ok(Outcome::none()))
        } else if endpoints_of(s, from).len() >= s.lim.max_live_endpoints {
            abort_xfer(s, tid)
        } else {
            commit_xfer(s, tid)
        }
    } else if s.native_pending.contains_key(tid) {
        if s.native_pending[tid].dest != from {
            (s, Err(Poison("accept from wrong recipient")))
        } else if s.native_pending[tid].state != NativeState::Escrowed {
            (s, Ok(Outcome::none()))
        } else if s.native_live.len() >= s.lim.max_native_resources {
            abort_native(s, tid)
        } else {
            commit_native(s, tid)
        }
    } else if s.shared_pending.contains_key(tid) {
        if s.shared_pending[tid].dest != from {
            (s, Err(Poison("accept from wrong recipient")))
        } else if s.shared_pending[tid].state != NativeState::Escrowed {
            (s, Ok(Outcome::none()))
        } else {
            commit_shared(s, tid)
        }
    } else {
        late_answer(s, tid)
    }
}

/// One side calls the transfer off. A region capability that the host offered
/// has no sender among the peers, and any peer may call it off.
pub open spec fn reject_transfer(s: State, from: PeerId, tid: TransferId) -> (State, Reply) {
    if s.xfers.contains_key(tid) {
        if s.xfers[tid].dest != from && s.xfers[tid].sender != from {
            (s, Err(Poison("abort from unrelated peer")))
        } else if s.xfers[tid].phase != XferPhase::Offered {
            (s, Ok(Outcome::none()))
        } else {
            abort_xfer(s, tid)
        }
    } else if s.native_pending.contains_key(tid) {
        if s.native_pending[tid].dest != from && s.native_pending[tid].sender != from {
            (s, Err(Poison("abort from unrelated peer")))
        } else if s.native_pending[tid].state != NativeState::Escrowed {
            (s, Ok(Outcome::none()))
        } else {
            abort_native(s, tid)
        }
    } else if s.shared_pending.contains_key(tid) {
        let rec = s.shared_pending[tid];
        if rec.dest != from && rec.sender != from && rec.sender != PeerId(HOST_PEER) {
            (s, Err(Poison("abort from unrelated peer")))
        } else if rec.state != NativeState::Escrowed {
            (s, Ok(Outcome::none()))
        } else {
            abort_shared(s, tid)
        }
    } else {
        late_answer(s, tid)
    }
}

/// A result is acknowledged. Only the word of the peer that it is kept for
/// retires it: the sender's, and for what the host sent the recipient's.
/// Anything else changes nothing.
pub open spec fn acknowledge(s: State, from: PeerId, tid: TransferId) -> State {
    let s1 = if s.results.contains_key(tid) && s.results[tid].0 == from {
        State { results: s.results.remove(tid), ..s }
    } else {
        s
    };
    let s2 = if s1.native_results.contains_key(tid) && s1.native_results[tid].0 == from {
        let rid = s1.native_results[tid].2;
        State {
            native_results: s1.native_results.remove(tid),
            native_live: s1.native_live.remove(rid),
            native_retired: s1.native_retired.insert(rid, Cause::Graceful),
            ..s1
        }
    } else {
        s1
    };
    if s2.shared_results.contains_key(tid) && s2.shared_results[tid].0 == from {
        let rid = s2.shared_results[tid].2;
        State {
            shared_results: s2.shared_results.remove(tid),
            shared_live: s2.shared_live.remove(rid),
            shared_retired: s2.shared_retired.insert(rid, Cause::Graceful),
            ..s2
        }
    } else {
        s2
    }
}

/// A transfer-control frame from a peer.
pub open spec fn xfer(s: State, from: PeerId, msg: XferMsg) -> (State, Reply) {
    match gate(s, from) {
        Some(p) => (s, Err(p)),
        None => match msg {
            XferMsg::Accept { tid } => accept_transfer(s, from, tid),
            XferMsg::Reject { tid } => reject_transfer(s, from, tid),
            XferMsg::Status { tid } => (
                s,
                Ok(
                    Outcome::one(
                        from,
                        FrameView::Xfer(XferMsg::StatusAck { tid, status: status_of(s, tid) }),
                    ),
                ),
            ),
            XferMsg::ResultAck { tid } => (acknowledge(s, from, tid), Ok(Outcome::none())),
            _ => (s, Err(Poison("peer sent host-only xfer"))),
        },
    }
}

/// A transfer is called off by force.
pub open spec fn force_abort(s: State, tid: TransferId) -> (State, Reply) {
    if s.xfers.contains_key(tid) {
        abort_xfer(s, tid)
    } else if s.native_pending.contains_key(tid) {
        abort_native(s, tid)
    } else {
        (s, Err(Poison("unknown transfer id")))
    }
}

// ---------------------------------------------------------------- peer death --

/// The entries whose value satisfies `p`.
pub open spec fn keep<K, V>(m: Map<K, V>, p: spec_fn(V) -> bool) -> Map<K, V> {
    Map::new(|k: K| m.contains_key(k) && p(m[k]), |k: K| m[k])
}

/// A dead peer can never learn of the results that wait for it when it dies:
/// they are forgotten, those of region transfers excepted. What it has in
/// flight is settled afterwards and leaves results of its own.
pub open spec fn forget_peer(s: State, p: PeerId) -> State {
    State {
        peers: s.peers.remove(p),
        results: keep(s.results, |r: (PeerId, Cause)| r.0 != p),
        native_results: keep(s.native_results, |r: (PeerId, Cause, ResourceId)| r.0 != p),
        ..s
    }
}

/// The endpoint transfers in flight that `p` takes part in, in key order.
pub open spec fn xfers_of(s: State, p: PeerId) -> Seq<TransferId> {
    key_list(s.xfers.dom()).filter(
        |t: TransferId|
            s.xfers[t].phase == XferPhase::Offered && (s.xfers[t].sender == p || s.xfers[t].dest == p),
    )
}

/// The native transfers in flight that `p` takes part in, in key order.
pub open spec fn natives_of(s: State, p: PeerId) -> Seq<TransferId> {
    key_list(s.native_pending.dom()).filter(
        |t: TransferId|
            s.native_pending[t].state == NativeState::Escrowed && (s.native_pending[t].sender == p
                || s.native_pending[t].dest == p),
    )
}

/// The region transfers in flight that `p` takes part in, in key order.
pub open spec fn shareds_of(s: State, p: PeerId) -> Seq<TransferId> {
    key_list(s.shared_pending.dom()).filter(
        |t: TransferId|
            s.shared_pending[t].state == NativeState::Escrowed && (s.shared_pending[t].sender == p
                || s.shared_pending[t].dest == p),
    )
}

/// The endpoints that `p` holds, in key order.
pub open spec fn touched(s: State, p: PeerId) -> Seq<EpId> {
    key_list(s.eps.dom()).filter(|e: EpId| s.eps[e].holder == Holder::Peer(p))
}

/// One endpoint transfer ends with the death of `p`: the conversation of a
/// dead sender dies, what a dead recipient was offered goes back.
pub open spec fn settle_xfer(s: State, p: PeerId, cause: Cause, tid: TransferId) -> (State, Seq<
    (PeerId, FrameView),
>) {
    if !s.xfers.contains_key(tid) {
        (s, Seq::empty())
    } else {
        let x = s.xfers[tid];
        if x.sender == p {
            (
                finish(close_pair(s, x.ep, cause), tid, x.sender, XferPhase::Aborted),
                Seq::empty(),
            )
        } else {
            let (s1, r) = abort_xfer(s, tid);
            (
                s1,
                match r {
                    Ok(out) => out.send,
                    Err(_) => Seq::empty(),
                },
            )
        }
    }
}

/// The endpoint transfers listed end with the death of `p`.
pub open spec fn settle_xfers(s: State, p: PeerId, cause: Cause, tids: Seq<TransferId>) -> (State, Seq<
    (PeerId, FrameView),
>)
    decreases tids.len(),
{
    if tids.len() == 0 {
        (s, Seq::empty())
    } else {
        let (s1, sent) = settle_xfers(s, p, cause, tids.drop_last());
        let (s2, more) = settle_xfer(s1, p, cause, tids.last());
        (s2, sent + more)
    }
}

/// One native transfer ends with the death of `p`.
pub open spec fn settle_native(s: State, p: PeerId, tid: TransferId) -> State {
    if !s.native_pending.contains_key(tid) {
        s
    } else {
        let n = s.native_pending[tid];
        if n.sender == p {
            State {
                native_pending: s.native_pending.remove(tid),
                native_results: s.native_results.insert(tid, (n.sender, Cause::Graceful, n.rid)),
                native_retired: s.native_retired.insert(n.rid, Cause::Graceful),
                ..s
            }
        } else {
            abort_native(s, tid).0
        }
    }
}

/// The native transfers listed end with the death of `p`.
pub open spec fn settle_natives(s: State, p: PeerId, tids: Seq<TransferId>) -> State
    decreases tids.len(),
{
    if tids.len() == 0 {
        s
    } else {
        settle_native(settle_natives(s, p, tids.drop_last()), p, tids.last())
    }
}

/// One region transfer ends with the death of `p`. The rights graph was not
/// touched yet, so only the transaction is closed.
pub open spec fn settle_shared(s: State, p: PeerId, tid: TransferId) -> State {
    if !s.shared_pending.contains_key(tid) {
        s
    } else {
        let rec = s.shared_pending[tid];
        if rec.sender == p {
            State {
                shared_pending: s.shared_pending.remove(tid),
                shared_results: s.shared_results.insert(tid, (owed_to(rec), Cause::Graceful, rec.rid)),
                ..s
            }
        } else {
            abort_shared(s, tid).0
        }
    }
}

/// The region transfers listed end with the death of `p`.
pub open spec fn settle_shareds(s: State, p: PeerId, tids: Seq<TransferId>) -> State
    decreases tids.len(),
{
    if tids.len() == 0 {
        s
    } else {
        settle_shared(settle_shareds(s, p, tids.drop_last()), p, tids.last())
    }
}

/// One conversation ends with the death of `p`; whoever holds the other end
/// is told.
pub open spec fn settle_end(s: State, p: PeerId, cause: Cause, side: EpId) -> (State, Seq<
    (PeerId, FrameView),
>) {
    if s.eps.contains_key(side) && s.eps.contains_key(s.eps[side].partner) {
        let survivor = s.eps[side].partner;
        let closed = close_pair(s, side, cause);
        match s.eps[survivor].holder {
            Holder::Peer(q) => (
                closed,
                if s.peers.contains_key(q) && q != p {
                    seq![(q, FrameView::ClosedNotify { entries: seq![(survivor, cause)] })]
                } else {
                    Seq::empty()
                },
            ),
            Holder::Host => (with_event(closed, survivor, cause), Seq::empty()),
            Holder::Escrow(_) => (closed, Seq::empty()),
        }
    } else {
        (s, Seq::empty())
    }
}

/// The conversations of the ends listed end with the death of `p`.
pub open spec fn settle_ends(s: State, p: PeerId, cause: Cause, sides: Seq<EpId>) -> (State, Seq<
    (PeerId, FrameView),
>)
    decreases sides.len(),
{
    if sides.len() == 0 {
        (s, Seq::empty())
    } else {
        let (s1, sent) = settle_ends(s, p, cause, sides.drop_last());
        let (s2, more) = settle_end(s1, p, cause, sides.last());
        (s2, sent + more)
    }
}

/// The rights graph loses what `p` held; the host does not die.
pub open spec fn purge_regions(s: State, p: PeerId) -> State {
    if p == PeerId(HOST_PEER) {
        s
    } else {
        State { regions: without_peer(s.regions, p), ..s }
    }
}

/// A peer is gone: everything that depends on it collapses.
pub open spec fn gone(s: State, p: PeerId, cause: Cause) -> (State, Outcome) {
    let s1 = forget_peer(s, p);
    let (s2, sent) = settle_xfers(s1, p, cause, xfers_of(s1, p));
    let s3 = settle_natives(s2, p, natives_of(s2, p));
    let s4 = settle_shareds(s3, p, shareds_of(s3, p));
    let s5 = purge_regions(s4, p);
    let (s6, more) = settle_ends(s5, p, cause, touched(s1, p));
    (s6, Outcome { send: sent + more, to_host: Seq::empty() })
}

} // verus!

//! What becomes of an offer: accepted, called off, asked about and
//! acknowledged, told by who holds what and who is told.

use vstd::prelude::*;

use crate::fabric_error::Cause;
use crate::frame::{
    FrameView, SharedAttachment, XferMsg, XFER_ST_ABORTED, XFER_ST_COMMITTED, XFER_ST_PENDING,
    XFER_ST_UNKNOWN,
};
use crate::id::{EpId, TransferId};
use crate::native::NativeState;
use crate::router::{Holder, PeerId, Poison, SharedRec, XferPhase, XferRec, HOST_PEER};
use crate::router_inv::{homes, inv, xfer_record_ok};
use crate::router_model::{
    endpoints_of, force_abort, grant, grant_region, status_of, xfer, Reply, State,
};
use crate::routing_laws::{admitted, breach, ended, only_frame, silent, undecided, unused};
use crate::shared::{RegionId, Rights};

verus! {

// ------------------------------------------------------------------ the words --

/// No delivery fault is injected.
pub open spec fn faultless(s: State) -> bool {
    !s.inject.drop_commit && !s.inject.drop_committed && !s.inject.drop_abort && !s.inject.drop_offer
}

/// These frames go out, in this order, and nothing else does.
pub open spec fn frames(r: Reply, send: Seq<(PeerId, FrameView)>) -> bool {
    r is Ok && r->Ok_0.send == send && r->Ok_0.to_host.len() == 0
}

/// The word on a transfer that its sender gets when it is committed.
pub open spec fn word_of_commit(t: TransferId) -> FrameView {
    FrameView::Xfer(XferMsg::Committed { tid: t })
}

/// The word on a transfer that was called off.
pub open spec fn word_of_abort(t: TransferId) -> FrameView {
    FrameView::Xfer(XferMsg::Abort { tid: t })
}

/// Word that a transfer was called off, for the peer, if it is there.
pub open spec fn told_of_abort(s: State, p: PeerId, t: TransferId) -> Seq<(PeerId, FrameView)> {
    if s.peers.contains_key(p) {
        seq![(p, word_of_abort(t))]
    } else {
        Seq::empty()
    }
}

/// How many endpoints the peer holds.
pub open spec fn held(s: State, p: PeerId) -> nat {
    s.eps.dom().filter(|e: EpId| s.eps[e].holder == Holder::Peer(p)).len()
}

/// The endpoint has that holder; every other endpoint is as it was, and this
/// one has its partner still.
pub open spec fn only_moved(s: State, n: State, ep: EpId, to: Holder) -> bool {
    &&& s.eps.contains_key(ep) ==> n.eps.contains_key(ep) && n.eps[ep].holder == to
        && n.eps[ep].partner == s.eps[ep].partner
    &&& forall|e: EpId|
        e != ep || !s.eps.contains_key(ep) ==> (#[trigger] n.eps.contains_key(e)
            <==> s.eps.contains_key(e)) && (s.eps.contains_key(e) ==> n.eps[e] == s.eps[e])
}

/// The endpoint transfer is decided: it is no longer under way, its result is
/// kept for the sender, and nothing else changed but who holds endpoints.
pub open spec fn decided(s: State, n: State, t: TransferId, sender: PeerId, how: Cause) -> bool {
    &&& n == (State { eps: n.eps, xfers: n.xfers, results: n.results, ..s })
    &&& n.xfers == s.xfers.remove(t)
    &&& n.results == s.results.insert(t, (sender, how))
}

// ------------------------------------------------------------------- the status --

/// Where a transfer stands is told truly. One that is under way is pending;
/// committed or aborted is what a kept result says, and then nothing is under
/// way; anything else is unknown. The four are told apart.
pub proof fn law_status_tells_the_truth(s: State, t: TransferId)
    requires
        inv(s),
    ensures
        status_of(s, t) == XFER_ST_PENDING <==> undecided(s, t),
        status_of(s, t) == XFER_ST_COMMITTED <==> ended(s, t, Cause::PeerLost),
        status_of(s, t) == XFER_ST_ABORTED <==> ended(s, t, Cause::Graceful),
        status_of(s, t) == XFER_ST_UNKNOWN <==> unused(s, t),
        !(undecided(s, t) && ended(s, t, Cause::PeerLost)),
        !(undecided(s, t) && ended(s, t, Cause::Graceful)),
        XFER_ST_PENDING != XFER_ST_COMMITTED,
        XFER_ST_PENDING != XFER_ST_ABORTED,
        XFER_ST_PENDING != XFER_ST_UNKNOWN,
        XFER_ST_COMMITTED != XFER_ST_ABORTED,
        XFER_ST_COMMITTED != XFER_ST_UNKNOWN,
        XFER_ST_ABORTED != XFER_ST_UNKNOWN,
{
    assert(homes(s, t) <= 1);
    if s.xfers.contains_key(t) {
        assert(xfer_record_ok(t, s.xfers[t]));
    }
}

/// Whoever asks where a transfer stands is told, and nothing changes: pending
/// if it is under way, and otherwise how it ended, if that is still kept.
pub proof fn law_asking_is_answered(s: State, p: PeerId, t: TransferId)
    requires
        inv(s),
        admitted(s, p),
    ensures
        ({
            let (n, r) = xfer(s, p, XferMsg::Status { tid: t });
            let answer = |status: u8|
                only_frame(r, p, FrameView::Xfer(XferMsg::StatusAck { tid: t, status }));
            &&& n == s
            &&& undecided(s, t) ==> answer(XFER_ST_PENDING)
            &&& ended(s, t, Cause::PeerLost) ==> answer(XFER_ST_COMMITTED)
            &&& ended(s, t, Cause::Graceful) ==> answer(XFER_ST_ABORTED)
            &&& unused(s, t) ==> answer(XFER_ST_UNKNOWN)
        }),
{
    law_status_tells_the_truth(s, t);
}

/// A transfer that was decided stays decided: a late answer, from whomever,
/// moves nothing and is met with silence. One that nobody knows is a breach.
pub proof fn law_late_answers_move_nothing(s: State, p: PeerId, t: TransferId)
    requires
        inv(s),
        admitted(s, p),
        !undecided(s, t),
    ensures
        ({
            let (n, r) = xfer(s, p, XferMsg::Accept { tid: t });
            let (m, q) = xfer(s, p, XferMsg::Reject { tid: t });
            &&& n == s && m == s
            &&& !unused(s, t) ==> silent(r) && silent(q)
            &&& unused(s, t) ==> breach(r, "unknown transfer id") && breach(q, "unknown transfer id")
        }),
{
    law_status_tells_the_truth(s, t);
}

/// What only the host says is a breach when a peer says it.
pub proof fn law_peers_do_not_speak_for_the_host(s: State, p: PeerId, msg: XferMsg)
    requires
        admitted(s, p),
        !(msg is Accept || msg is Reject || msg is Status || msg is ResultAck),
    ensures
        xfer(s, p, msg).0 == s,
        breach(xfer(s, p, msg).1, "peer sent host-only xfer"),
{
}

// ---------------------------------------------------------------- the endpoints --

/// An offered endpoint goes to the peer it was offered to when that peer
/// accepts, and to no other. The recipient is told what it holds and under
/// which transfer, the sender that it is through; nothing else moves. A
/// recipient that holds too many gets nothing, and the offer is called off.
pub proof fn law_acceptance_moves_the_endpoint(s: State, p: PeerId, t: TransferId)
    requires
        inv(s),
        admitted(s, p),
        s.xfers.contains_key(t),
    ensures
        ({
            let x = s.xfers[t];
            let (n, r) = xfer(s, p, XferMsg::Accept { tid: t });
            &&& p != x.dest ==> n == s && breach(r, "accept from wrong recipient")
            &&& p == x.dest && held(s, p) < s.lim.max_live_endpoints && s.eps.contains_key(x.ep) ==> {
                &&& only_moved(s, n, x.ep, Holder::Peer(p))
                &&& decided(s, n, t, x.sender, Cause::PeerLost)
                &&& faultless(s) ==> frames(
                    r,
                    seq![
                        (
                            p,
                            FrameView::Xfer(
                                XferMsg::Commit { tid: t, ep: x.ep, partner: x.partner },
                            ),
                        ),
                        (x.sender, word_of_commit(t)),
                    ],
                )
            }
            &&& p == x.dest && held(s, p) >= s.lim.max_live_endpoints ==> {
                &&& only_moved(s, n, x.ep, x.restore)
                &&& decided(s, n, t, x.sender, Cause::Graceful)
            }
            &&& p == x.dest && held(s, p) < s.lim.max_live_endpoints && !s.eps.contains_key(x.ep)
                ==> n == s && breach(r, "escrowed endpoint missing")
        }),
{
    let x = s.xfers[t];
    assert(xfer_record_ok(t, x));
    assert(endpoints_of(s, p) =~= s.eps.dom().filter(
        |e: EpId| s.eps[e].holder == Holder::Peer(p),
    ));
    let (n, r) = xfer(s, p, XferMsg::Accept { tid: t });
    if p == x.dest && held(s, p) < s.lim.max_live_endpoints && s.eps.contains_key(x.ep) && faultless(
        s,
    ) {
        assert(r->Ok_0.send =~= seq![
            (p, FrameView::Xfer(XferMsg::Commit { tid: t, ep: x.ep, partner: x.partner })),
            (x.sender, word_of_commit(t)),
        ]);
    }
}

/// Either side can call an offer off, and nobody else can. The endpoint goes
/// back to where it came from; the sender and the recipient are told, if they
/// are there, and nothing else moves. The host can do the same by force.
pub proof fn law_calling_off_gives_back(s: State, p: PeerId, t: TransferId)
    requires
        inv(s),
        admitted(s, p),
        s.xfers.contains_key(t),
    ensures
        ({
            let x = s.xfers[t];
            let (n, r) = xfer(s, p, XferMsg::Reject { tid: t });
            let told = (match x.restore {
                Holder::Peer(a) => told_of_abort(s, a, t),
                _ => Seq::empty(),
            }) + (if x.dest != x.sender {
                told_of_abort(s, x.dest, t)
            } else {
                Seq::empty()
            });
            &&& p != x.dest && p != x.sender ==> n == s && breach(r, "abort from unrelated peer")
            &&& p == x.dest || p == x.sender ==> {
                &&& only_moved(s, n, x.ep, x.restore)
                &&& decided(s, n, t, x.sender, Cause::Graceful)
                &&& faultless(s) ==> frames(r, told)
            }
            &&& only_moved(s, force_abort(s, t).0, x.ep, x.restore)
            &&& decided(s, force_abort(s, t).0, t, x.sender, Cause::Graceful)
            &&& faultless(s) ==> frames(force_abort(s, t).1, told)
        }),
{
    let x = s.xfers[t];
    assert(xfer_record_ok(t, x));
    let told = (match x.restore {
        Holder::Peer(a) => told_of_abort(s, a, t),
        _ => Seq::empty(),
    }) + (if x.dest != x.sender {
        told_of_abort(s, x.dest, t)
    } else {
        Seq::empty()
    });
    if faultless(s) {
        assert(force_abort(s, t).1->Ok_0.send =~= told);
    }
}

/// The host can offer an endpoint that it holds, as long as there is room for
/// one more transfer: it goes into escrow under that transfer, meant for that
/// peer and the host's again if it is called off. The peer is told which
/// endpoint it is, and nothing else changes.
pub proof fn law_grants_go_into_escrow(s: State, p: PeerId, ep: EpId, t: TransferId)
    requires
        inv(s),
        unused(s, t),
    ensures
        ({
            let (n, r) = grant(s, p, ep, t);
            let room = s.xfers.len() + s.results.len() < s.lim.max_pending_transfers;
            &&& r is Ok <==> room && s.eps.contains_key(ep) && s.eps[ep].holder == Holder::Host
            &&& r is Err ==> n == s
            &&& !room ==> r->Err_0 == Poison("pending transfer table full")
            &&& room && !s.eps.contains_key(ep) ==> r->Err_0 == Poison(
                "grant of unknown/closed endpoint",
            )
            &&& room && s.eps.contains_key(ep) && s.eps[ep].holder != Holder::Host ==> r->Err_0
                == Poison("grant of endpoint not held by host")
            &&& r is Ok ==> {
                &&& r->Ok_0 == (FrameView::Grant { ep, partner: s.eps[ep].partner, tid: t })
                &&& only_moved(s, n, ep, Holder::Escrow(t))
                &&& n == (State { eps: n.eps, xfers: n.xfers, ..s })
                &&& n.xfers == s.xfers.insert(
                    t,
                    XferRec {
                        tid: t,
                        ep,
                        partner: s.eps[ep].partner,
                        sender: p,
                        dest: p,
                        restore: Holder::Host,
                        phase: XferPhase::Offered,
                    },
                )
            }
        }),
{
}

// ---------------------------------------------------------------- the resources --

/// A native resource goes to the peer it was offered to when that peer
/// accepts, and to no other; both sides are told. With too many out, the
/// offer is called off instead.
pub proof fn law_acceptance_moves_the_resource(s: State, p: PeerId, t: TransferId)
    requires
        inv(s),
        admitted(s, p),
        s.native_pending.contains_key(t),
    ensures
        ({
            let x = s.native_pending[t];
            let (n, r) = xfer(s, p, XferMsg::Accept { tid: t });
            let room = s.native_live.len() < s.lim.max_native_resources;
            &&& p != x.dest ==> n == s && breach(r, "accept from wrong recipient")
            &&& p == x.dest && room ==> {
                &&& n == (State {
                    native_pending: s.native_pending.remove(t),
                    native_results: s.native_results.insert(t, (x.sender, Cause::PeerLost, x.rid)),
                    native_live: s.native_live.insert(x.rid, p),
                    ..s
                })
                &&& faultless(s) ==> frames(
                    r,
                    seq![
                        (
                            p,
                            FrameView::Xfer(
                                XferMsg::NativeCommit { tid: t, rid: x.rid, handle_value: 0 },
                            ),
                        ),
                        (x.sender, word_of_commit(t)),
                    ],
                )
            }
            &&& p == x.dest && !room ==> n == (State {
                native_pending: s.native_pending.remove(t),
                native_results: s.native_results.insert(t, (x.sender, Cause::Graceful, x.rid)),
                ..s
            })
        }),
{
    assert(homes(s, t) <= 1);
    let x = s.native_pending[t];
    let (n, r) = xfer(s, p, XferMsg::Accept { tid: t });
    if p == x.dest && s.native_live.len() < s.lim.max_native_resources && faultless(s) {
        assert(r->Ok_0.send =~= seq![
            (p, FrameView::Xfer(XferMsg::NativeCommit { tid: t, rid: x.rid, handle_value: 0 })),
            (x.sender, word_of_commit(t)),
        ]);
    }
}

/// Either side can call the offer of a native resource off, and nobody else
/// can. Nobody gets it; both sides are told, if they are there.
pub proof fn law_calling_off_keeps_the_resource(s: State, p: PeerId, t: TransferId)
    requires
        inv(s),
        admitted(s, p),
        s.native_pending.contains_key(t),
    ensures
        ({
            let x = s.native_pending[t];
            let (n, r) = xfer(s, p, XferMsg::Reject { tid: t });
            let m = State {
                native_pending: s.native_pending.remove(t),
                native_results: s.native_results.insert(t, (x.sender, Cause::Graceful, x.rid)),
                ..s
            };
            let told = told_of_abort(s, x.sender, t) + (if x.dest != x.sender {
                told_of_abort(s, x.dest, t)
            } else {
                Seq::empty()
            });
            &&& p != x.dest && p != x.sender ==> n == s && breach(r, "abort from unrelated peer")
            &&& p == x.dest || p == x.sender ==> n == m && (faultless(s) ==> frames(r, told))
            &&& force_abort(s, t).0 == m
            &&& faultless(s) ==> frames(force_abort(s, t).1, told)
        }),
{
    assert(homes(s, t) <= 1);
    let x = s.native_pending[t];
    let told = told_of_abort(s, x.sender, t) + (if x.dest != x.sender {
        told_of_abort(s, x.dest, t)
    } else {
        Seq::empty()
    });
    if faultless(s) {
        assert(force_abort(s, t).1->Ok_0.send =~= told);
    }
}

// ------------------------------------------------------------------- the regions --

/// For whom the result of a region transfer is kept: its sender, or the
/// recipient of what the host sent.
pub open spec fn region_result_for(x: SharedRec) -> PeerId {
    if x.sender == PeerId(HOST_PEER) {
        x.dest
    } else {
        x.sender
    }
}

/// Can the right that was offered still be given? The writer gives its own,
/// a reader its own, and the host one more to read, as long as the region can
/// have more holders and the recipient does not write it already.
pub open spec fn can_be_given(s: State, x: SharedRec) -> bool {
    let g = s.regions[x.rid];
    &&& s.regions.contains_key(x.rid)
    &&& match x.rights {
        Rights::ReadWrite => g.writable == Some(x.sender),
        Rights::ReadOnly => if x.sender == PeerId(HOST_PEER) {
            g.writable != Some(x.dest) && g.readonly.len() + (if g.writable is Some {
                1nat
            } else {
                0
            }) < s.lim.max_region_capabilities
        } else {
            g.readonly.contains(x.sender)
        },
    }
}

/// An offered right over a region goes to the peer it was offered to when
/// that peer accepts, if it can still be given. To write, it moves from the
/// sender; to read, it moves from the sender, or is one more if the host gives
/// it. No other right changes. The recipient is told the region, the right
/// and the size; the sender, unless it is the host, that it is through.
pub proof fn law_acceptance_moves_the_right(s: State, p: PeerId, t: TransferId, q: PeerId, k: RegionId)
    requires
        inv(s),
        admitted(s, p),
        s.shared_pending.contains_key(t),
        s.shared_pending[t].dest == p,
    ensures
        ({
            let x = s.shared_pending[t];
            let (n, r) = xfer(s, p, XferMsg::Accept { tid: t });
            let was = s.regions[x.rid];
            let now = n.regions[x.rid];
            &&& r is Ok <==> can_be_given(s, x)
            &&& r is Err ==> n == s
            &&& r is Ok ==> {
                &&& n == (State {
                    regions: n.regions,
                    shared_pending: s.shared_pending.remove(t),
                    shared_results: s.shared_results.insert(
                        t,
                        (region_result_for(x), Cause::PeerLost, x.rid),
                    ),
                    shared_live: s.shared_live.insert(x.rid),
                    ..s
                })
                &&& k != x.rid ==> (n.regions.contains_key(k) <==> s.regions.contains_key(k)) && (
                s.regions.contains_key(k) ==> n.regions[k] == s.regions[k])
                &&& n.regions.contains_key(x.rid)
                &&& now.size == was.size
                &&& x.rights == Rights::ReadWrite ==> now.writable == Some(p) && now.readonly
                    == was.readonly
                &&& x.rights == Rights::ReadOnly ==> {
                    &&& now.writable == was.writable
                    &&& now.readonly.contains(p)
                    &&& q != p && q != x.sender ==> now.readonly.contains(q) == was.readonly.contains(q)
                    &&& x.sender != p && x.sender != PeerId(HOST_PEER) ==> !now.readonly.contains(
                        x.sender,
                    )
                    &&& x.sender == PeerId(HOST_PEER) && q != p ==> now.readonly.contains(q)
                        == was.readonly.contains(q)
                }
                &&& faultless(s) ==> frames(
                    r,
                    seq![
                        (
                            p,
                            FrameView::Xfer(
                                XferMsg::SharedCommit {
                                    tid: t,
                                    rid: x.rid,
                                    rights: if x.rights == Rights::ReadWrite {
                                        1
                                    } else {
                                        0
                                    },
                                    size: was.size,
                                    handle_value: 0,
                                },
                            ),
                        ),
                    ] + (if x.sender == PeerId(HOST_PEER) {
                        Seq::empty()
                    } else {
                        seq![(x.sender, word_of_commit(t))]
                    }),
                )
            }
        }),
{
    assert(homes(s, t) <= 1);
    let x = s.shared_pending[t];
    let (n, r) = xfer(s, p, XferMsg::Accept { tid: t });
    if r is Ok && faultless(s) {
        let commit = (
            p,
            FrameView::Xfer(
                XferMsg::SharedCommit {
                    tid: t,
                    rid: x.rid,
                    rights: if x.rights == Rights::ReadWrite {
                        1
                    } else {
                        0
                    },
                    size: s.regions[x.rid].size,
                    handle_value: 0,
                },
            ),
        );
        if x.sender == PeerId(HOST_PEER) {
            assert(r->Ok_0.send =~= seq![commit] + Seq::empty());
        } else {
            assert(r->Ok_0.send =~= seq![commit] + seq![(x.sender, word_of_commit(t))]);
        }
    }
}

/// Why an accepted right is not given, and that nobody but the recipient can
/// accept it.
pub proof fn law_why_a_right_is_not_given(s: State, p: PeerId, t: TransferId)
    requires
        inv(s),
        admitted(s, p),
        s.shared_pending.contains_key(t),
    ensures
        ({
            let x = s.shared_pending[t];
            let (n, r) = xfer(s, p, XferMsg::Accept { tid: t });
            &&& p != x.dest ==> n == s && breach(r, "accept from wrong recipient")
            &&& p == x.dest && !can_be_given(s, x) ==> n == s && breach(
                r,
                match (x.rights, x.sender == PeerId(HOST_PEER)) {
                    (Rights::ReadWrite, true) => "second writer denied",
                    (Rights::ReadWrite, false) => "writer transfer denied",
                    (Rights::ReadOnly, true) => "readonly grant denied",
                    (Rights::ReadOnly, false) => "readonly transfer denied",
                },
            )
        }),
{
    assert(homes(s, t) <= 1);
}

/// Calling the offer of a right off moves no right: it never left its holder.
/// The sender, unless it is the host, and the recipient are told, if they are
/// there. What the host offered any peer may call off.
pub proof fn law_calling_off_keeps_the_right(s: State, p: PeerId, t: TransferId)
    requires
        inv(s),
        admitted(s, p),
        s.shared_pending.contains_key(t),
    ensures
        ({
            let x = s.shared_pending[t];
            let (n, r) = xfer(s, p, XferMsg::Reject { tid: t });
            let by_host = x.sender == PeerId(HOST_PEER);
            let told = (if by_host {
                Seq::empty()
            } else {
                told_of_abort(s, x.sender, t)
            }) + told_of_abort(s, x.dest, t);
            if p == x.dest || p == x.sender || by_host {
                &&& n == (State {
                    shared_pending: s.shared_pending.remove(t),
                    shared_results: s.shared_results.insert(
                        t,
                        (region_result_for(x), Cause::Graceful, x.rid),
                    ),
                    ..s
                })
                &&& faultless(s) ==> frames(r, told)
            } else {
                n == s && breach(r, "abort from unrelated peer")
            }
        }),
{
    assert(homes(s, t) <= 1);
    let x = s.shared_pending[t];
    let r = xfer(s, p, XferMsg::Reject { tid: t }).1;
    let by_host = x.sender == PeerId(HOST_PEER);
    let told = (if by_host {
        Seq::empty()
    } else {
        told_of_abort(s, x.sender, t)
    }) + told_of_abort(s, x.dest, t);
    if (p == x.dest || p == x.sender || by_host) && faultless(s) {
        assert(r->Ok_0.send =~= told);
    }
}

/// The host can offer a right over a region to a peer: to read, or to write
/// if the host writes it itself. The right stays where it is until the peer
/// accepts; the peer is told the region and the right on the endpoint named.
pub proof fn law_host_offers_a_right(
    s: State,
    p: PeerId,
    target: EpId,
    corr: u32,
    rid: RegionId,
    rights: Rights,
    t: TransferId,
)
    ensures
        ({
            let (n, r) = grant_region(s, p, target, corr, rid, rights, t);
            let host = PeerId(HOST_PEER);
            &&& r is Ok <==> s.regions.contains_key(rid) && p != host && (rights == Rights::ReadOnly
                || s.regions[rid].writable == Some(host)) && s.shared_pending.len()
                < s.lim.max_resources_in_escrow
            &&& r is Err ==> n == s
            &&& r is Ok ==> {
                &&& n == (State {
                    shared_pending: s.shared_pending.insert(
                        t,
                        SharedRec {
                            tid: t,
                            rid,
                            rights,
                            sender: host,
                            dest: p,
                            state: NativeState::Escrowed,
                        },
                    ),
                    ..s
                })
                &&& r->Ok_0.to_host.len() == 0
                &&& r->Ok_0.send.len() == 1
                &&& r->Ok_0.send[0].0 == p
                &&& match r->Ok_0.send[0].1 {
                    FrameView::Data(d) => {
                        &&& d.target == target && d.corr == corr && d.payload.len() == 0
                        &&& d.attachments.len() == 0 && d.native is None
                        &&& d.shared == Some(
                            SharedAttachment {
                                tid: t,
                                rid,
                                rights: if rights == Rights::ReadWrite {
                                    1
                                } else {
                                    0
                                },
                                handle_value: 0,
                            },
                        )
                    },
                    _ => false,
                }
            }
        }),
{
}

// ------------------------------------------------------------ the acknowledgement --

/// A result is kept until the peer that it is kept for acknowledges it; then
/// it is forgotten, and with it that the resource or region is under way. No
/// other result changes, nobody else's word counts, and nothing goes out.
pub proof fn law_acknowledgement_retires_one_result(s: State, p: PeerId, t: TransferId, u: TransferId)
    requires
        inv(s),
        admitted(s, p),
    ensures
        ({
            let (n, r) = xfer(s, p, XferMsg::ResultAck { tid: t });
            let mine = s.results.contains_key(t) && s.results[t].0 == p;
            let native = s.native_results.contains_key(t) && s.native_results[t].0 == p;
            let shared = s.shared_results.contains_key(t) && s.shared_results[t].0 == p;
            &&& silent(r)
            &&& !mine && !native && !shared ==> n == s
            &&& mine ==> n == (State { results: n.results, ..s }) && !n.results.contains_key(t)
            &&& native ==> {
                let rid = s.native_results[t].2;
                &&& n == (State {
                    native_results: n.native_results,
                    native_live: n.native_live,
                    native_retired: n.native_retired,
                    ..s
                })
                &&& !n.native_results.contains_key(t)
                &&& n.native_live == s.native_live.remove(rid)
                &&& s.lim.max_retired > 0 ==> n.native_retired.causes.contains_key(rid)
            }
            &&& shared ==> {
                let rid = s.shared_results[t].2;
                &&& n == (State {
                    shared_results: n.shared_results,
                    shared_live: n.shared_live,
                    shared_retired: n.shared_retired,
                    ..s
                })
                &&& !n.shared_results.contains_key(t)
                &&& n.shared_live == s.shared_live.remove(rid)
                &&& s.lim.max_retired > 0 ==> n.shared_retired.causes.contains_key(rid)
            }
            &&& u != t ==> {
                &&& n.results.contains_key(u) <==> s.results.contains_key(u)
                &&& s.results.contains_key(u) ==> n.results[u] == s.results[u]
                &&& n.native_results.contains_key(u) <==> s.native_results.contains_key(u)
                &&& s.native_results.contains_key(u) ==> n.native_results[u] == s.native_results[u]
                &&& n.shared_results.contains_key(u) <==> s.shared_results.contains_key(u)
                &&& s.shared_results.contains_key(u) ==> n.shared_results[u] == s.shared_results[u]
            }
        }),
{
    assert(homes(s, t) <= 1);
    if s.native_results.contains_key(t) {
        crate::id::law_filed_is_remembered(s.native_retired, s.native_results[t].2, Cause::Graceful);
    }
    if s.shared_results.contains_key(t) {
        crate::id::law_filed_is_remembered(s.shared_retired, s.shared_results[t].2, Cause::Graceful);
    }
}

} // verus!

//! What the host does about each frame, told by what goes out, what is kept
//! and who stays connected.

use vstd::prelude::*;

use crate::fabric_error::{Cause, FabError};
use crate::frame::{FrameView, XferMsg};
use crate::host::{
    acted, collapse, deliveries, find_control, plan, routed, settled, HostView, NativeOp, Note,
    SendView,
};
use crate::id::{EpId, TransferId};
use crate::proto::{control_of, ControlMsg};
use crate::router::{EpEntry, Holder, PeerId, Poison};
use crate::router_model::{
    close, create, create_draws, data, fresh_pair, gone, hello, xfer, DeliveryView, Outcome, Reply,
    State,
};

verus! {

// ------------------------------------------------------------------- what goes out --

/// Each frame goes out to its own peer, as it is, in order, on a connection if
/// there is one; everything but a greeting and a plain message goes out ahead
/// of data. Nothing changes but what is in escrow.
pub proof fn law_frames_go_out_as_they_are(h: HostView, send: Seq<(PeerId, FrameView)>, i: int)
    ensures
        ({
            let (n, sends) = plan(h, send);
            &&& sends.len() == send.len()
            &&& n == (HostView { escrow: n.escrow, ..h })
            &&& 0 <= i < send.len() ==> {
                &&& sends[i].to == send[i].0
                &&& sends[i].frame == send[i].1
                &&& sends[i].connected <==> h.conns.contains_key(send[i].0)
                &&& sends[i].ctrl <==> match send[i].1 {
                    FrameView::Hello { .. } => false,
                    FrameView::Data(d) => d.attachments.len() > 0 || d.native is Some || d.shared is Some,
                    _ => true,
                }
            }
        }),
    decreases send.len(),
{
    if send.len() > 0 {
        law_frames_go_out_as_they_are(h, send.drop_last(), i);
        if 0 <= i < send.len() - 1 {
            assert(send.drop_last()[i] == send[i]);
        }
    }
}

/// What one more frame does to the kernel object of its transfer. The word of
/// a native commit delivers it to the recipient, if that is connected, and the
/// word of an abort gives it back to the sender, if that is; a frame for
/// anybody else has it closed. Either way it is in escrow no more. No other
/// frame, and no other object, is concerned.
pub proof fn law_one_object_for_one_transfer(
    h: HostView,
    send: Seq<(PeerId, FrameView)>,
    to: PeerId,
    f: FrameView,
    t: TransferId,
)
    ensures
        plan(h, Seq::empty()) == (h, Seq::<SendView>::empty()),
        ({
            let m = plan(h, send).0;
            let (n, sends) = plan(h, send.push((to, f)));
            let op = sends.last().native;
            let linked = h.conns.contains_key(to);
            &&& match f {
                FrameView::Xfer(XferMsg::NativeCommit { tid, .. }) => {
                    &&& n.escrow == m.escrow.remove(tid)
                    &&& !m.escrow.contains_key(tid) ==> op == NativeOp::Missing
                    &&& m.escrow.contains_key(tid) && linked ==> op == NativeOp::Deliver
                    &&& m.escrow.contains_key(tid) && !linked ==> op == NativeOp::Discard
                },
                FrameView::Xfer(XferMsg::Abort { tid }) => {
                    let mine = m.escrow.contains_key(tid) && m.escrow[tid].0 == to && linked;
                    &&& n.escrow == m.escrow.remove(tid)
                    &&& !m.escrow.contains_key(tid) ==> op == NativeOp::Keep
                    &&& mine ==> op == NativeOp::Restore(m.escrow[tid].1)
                    &&& m.escrow.contains_key(tid) && !mine ==> op == NativeOp::Discard
                },
                _ => n.escrow == m.escrow && op == NativeOp::Keep,
            }
        }),
{
    assert(send.push((to, f)).drop_last() =~= send);
    law_frames_go_out_as_they_are(h, send, 0);
}

/// The value that a kernel object has in its recipient's process is named in
/// the word that goes with it: in the commit if it was delivered, and with its
/// resource if it was given back. No other frame is changed.
pub proof fn law_objects_are_named_by_their_value(f: FrameView, op: NativeOp, handle: Option<u64>)
    ensures
        ({
            let g = settled(f, op, handle);
            match (f, handle) {
                (FrameView::Xfer(XferMsg::NativeCommit { tid, rid, .. }), Some(v)) => if op
                    == NativeOp::Deliver {
                    g == FrameView::Xfer(XferMsg::NativeCommit { tid, rid, handle_value: v })
                } else {
                    g == f
                },
                (FrameView::Xfer(XferMsg::Abort { tid }), Some(v)) => match op {
                    NativeOp::Restore(rid) => g == FrameView::Xfer(
                        XferMsg::NativeAbort { tid, object: Some((rid, v)) },
                    ),
                    _ => g == f,
                },
                _ => g == f,
            }
        }),
{
}

// --------------------------------------------------------------------- each frame --

/// Did the peer get both ends of a new conversation, and word of them?
pub open spec fn given_a_pair(s: State, p: PeerId, n: State, r: Reply, a: EpId, b: EpId) -> bool {
    &&& n.eps == s.eps.insert(a, EpEntry { partner: b, holder: Holder::Peer(p) }).insert(
        b,
        EpEntry { partner: a, holder: Holder::Peer(p) },
    )
    &&& n == (State { eps: n.eps, ..s })
    &&& r is Ok
    &&& r->Ok_0.send == seq![(p, FrameView::CreateAck { impl_ep: a, transferable_ep: b })]
    &&& r->Ok_0.to_host.len() == 0
}

/// What the router is asked about a frame: the very request that the peer
/// made, in its name. A goodbye makes it leave gracefully, and what only the
/// host says is a breach.
pub proof fn law_requests_are_routed_as_made(s: State, p: PeerId, f: FrameView, n: State, r: Reply)
    requires
        routed(s, p, f, n, r),
    ensures
        match f {
            FrameView::Hello { magic, version } => n == hello(s, p, magic, version).0 && (r is Ok
                <==> hello(s, p, magic, version).1 is Ok) && (r is Ok ==> r->Ok_0.send.len() == 0
                && r->Ok_0.to_host.len() == 0) && (r is Err ==> r->Err_0 == hello(
                s,
                p,
                magic,
                version,
            ).1->Err_0),
            FrameView::Data(d) => (n, r) == data(s, p, d),
            FrameView::Close { target } => (n, r) == close(s, p, target),
            FrameView::Xfer(x) => (n, r) == xfer(s, p, x),
            FrameView::Shutdown => n == gone(s, p, Cause::Graceful).0 && r == Ok::<Outcome, Poison>(
                gone(s, p, Cause::Graceful).1,
            ),
            FrameView::Create => if !s.peers.contains_key(p) || !s.peers[p] {
                n == s && r is Err
            } else if s.eps.len() + 2 > s.lim.max_live_endpoints || s.results.len()
                >= s.lim.max_pending_transfers {
                n == s && r is Ok && r->Ok_0.send == seq![(p, FrameView::Error(1))]
            } else {
                r is Err && n == s || exists|a: EpId, b: EpId| #[trigger]
                    fresh_pair(s, a, b) && given_a_pair(s, p, n, r, a, b)
            },
            _ => n == s && r == Err::<Outcome, Poison>(Poison("peer sent host-only frame")),
        },
{
    if f is Create {
        if create_draws(s, p) {
            if r is Ok {
                let (a, b) = choose|a: EpId, b: EpId| #[trigger]
                    fresh_pair(s, a, b) && (n, r) == create(s, p, a, b);
                assert(given_a_pair(s, p, n, r, a, b));
            }
        } else {
            let a = arbitrary::<EpId>();
            assert(create(s, p, a, a) == (n, r));
        }
    }
}

/// A granted request: the frames that it leads to go out, and nothing is torn
/// down but the connection of a peer that said goodbye. A peer that said hello
/// is known; what was for the host is filed, number and payload, behind what
/// was there; a kernel object that a message offers is asked for; ends of the
/// host that a close killed are told, once.
pub proof fn law_a_granted_request_is_carried_out(
    h: HostView,
    p: PeerId,
    f: FrameView,
    n: State,
    out: Outcome,
    q: PeerId,
)
    ensures
        ({
            let (m, a) = acted(h, p, f, n, Ok(out));
            let planned = plan(HostView { router: n, ..h }, out.send);
            &&& a.sends == planned.1
            &&& m.escrow == planned.0.escrow
            &&& a.teardown <==> f is Shutdown
            &&& m.conns == (if f is Shutdown {
                h.conns.remove(p)
            } else {
                h.conns
            })
            &&& m.hellos == (if f is Hello {
                h.hellos.insert(p, ())
            } else {
                h.hellos
            })
            &&& m.inbox == (if f is Data {
                h.inbox + deliveries(out.to_host)
            } else {
                h.inbox
            })
            &&& a.stage == (match f {
                FrameView::Data(d) => d.native,
                _ => None,
            })
            &&& f is Close ==> a.events == n.host_events && m.router == (State {
                host_events: Seq::empty(),
                ..n
            })
            &&& !(f is Close) ==> a.events.len() == 0 && m.router == n
            &&& a.note == (match f {
                FrameView::Hello { .. } => Note::Hello,
                FrameView::Shutdown => Note::Shutdown,
                _ => Note::Nothing,
            })
        }),
{
    law_frames_go_out_as_they_are(HostView { router: n, ..h }, out.send, 0);
}

/// What is filed of the messages for the host: the number and the payload of
/// each, in order.
pub proof fn law_messages_are_filed(d: Seq<DeliveryView>, i: int)
    ensures
        deliveries(d).len() == d.len(),
        0 <= i < d.len() ==> deliveries(d)[i] == (d[i].corr, d[i].payload),
{
}

/// A breach cuts the peer off, with the reason; only where no identities could
/// be drawn for a conversation that it may have does nothing happen at all.
pub proof fn law_a_breach_is_answered(h: HostView, p: PeerId, f: FrameView, n: State, why: Poison)
    ensures
        ({
            let (m, a) = acted(h, p, f, n, Err(why));
            if f is Create && create_draws(h.router, p) {
                &&& m == h
                &&& a.sends.len() == 0 && a.events.len() == 0 && !a.teardown && a.stage is None
                &&& a.note == Note::NoIdentity
            } else {
                (m, a) == collapse(HostView { router: n, ..h }, p, Note::Quarantined(why))
            }
        }),
{
}

/// Cutting a peer off is its death: everybody is told what its death has them
/// told, the host finds its own ends that died, once, and the connection of
/// that peer, and no other, is torn down.
pub proof fn law_cutting_off_is_a_death(h: HostView, p: PeerId, note: Note)
    ensures
        ({
            let (m, a) = collapse(h, p, note);
            let (s, out) = gone(h.router, p, Cause::PeerLost);
            &&& a.teardown
            &&& a.note == note
            &&& a.stage is None
            &&& a.sends == plan(HostView { router: s, ..h }, out.send).1
            &&& a.events == s.host_events
            &&& m == (HostView {
                router: State { host_events: Seq::empty(), ..s },
                conns: h.conns.remove(p),
                escrow: plan(HostView { router: s, ..h }, out.send).0.escrow,
                ..h
            })
        }),
{
    let (s, out) = gone(h.router, p, Cause::PeerLost);
    law_frames_go_out_as_they_are(HostView { router: s, ..h }, out.send, 0);
}

/// The control message that is waited for is the first in the inbox that says
/// so: it is taken with everything before it, and its number is told. If none
/// says so, the inbox is empty afterwards.
pub proof fn law_the_first_such_message_is_taken(inbox: Seq<(u32, Seq<u8>)>, want: ControlMsg)
    ensures
        ({
            let (rest, found) = find_control(inbox, want);
            match found {
                Some(c) => exists|i: int|
                    {
                        &&& 0 <= i < inbox.len()
                        &&& says(#[trigger] inbox[i], want)
                        &&& c == inbox[i].0
                        &&& rest == inbox.skip(i + 1)
                        &&& forall|j: int| 0 <= j < i ==> !says(#[trigger] inbox[j], want)
                    },
                None => rest.len() == 0 && forall|j: int|
                    0 <= j < inbox.len() ==> !says(#[trigger] inbox[j], want),
            }
        }),
    decreases inbox.len(),
{
    if inbox.len() > 0 {
        if says(inbox[0], want) {
            let i: int = 0;
            assert(says(inbox[i], want) && inbox.skip(1) == inbox.skip(i + 1));
        } else {
            let tail = inbox.skip(1);
            law_the_first_such_message_is_taken(tail, want);
            let (rest, found) = find_control(inbox, want);
            match found {
                Some(c) => {
                    let i = choose|i: int|
                        {
                            &&& 0 <= i < tail.len()
                            &&& says(#[trigger] tail[i], want)
                            &&& c == tail[i].0
                            &&& rest == tail.skip(i + 1)
                            &&& forall|j: int| 0 <= j < i ==> !says(#[trigger] tail[j], want)
                        };
                    assert(inbox[i + 1] == tail[i]);
                    assert(tail.skip(i + 1) =~= inbox.skip(i + 2));
                    assert forall|j: int| 0 <= j < i + 1 implies !says(#[trigger] inbox[j], want) by {
                        if j > 0 {
                            assert(tail[j - 1] == inbox[j]);
                        }
                    }
                },
                None => {
                    assert forall|j: int| 0 <= j < inbox.len() implies !says(
                        #[trigger] inbox[j],
                        want,
                    ) by {
                        if j > 0 {
                            assert(tail[j - 1] == inbox[j]);
                        }
                    }
                },
            }
        }
    }
}

/// Is the message this control message?
pub open spec fn says(m: (u32, Seq<u8>), want: ControlMsg) -> bool {
    control_of(m.1) == Ok::<ControlMsg, FabError>(want)
}

} // verus!

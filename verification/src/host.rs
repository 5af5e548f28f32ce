//! The host's decisions: what each frame of a peer leads to, which way each
//! frame goes out, and what becomes of the kernel objects in escrow.
//!
//! The host owns the router. Processes, pipes and kernel objects belong to the
//! caller, which is told what to do with them.

use std::collections::VecDeque;
use vstd::prelude::*;

use crate::fabric_error::Cause;
use crate::frame::{
    is_control_frame, DataView, Frame, FrameView, NativeAttachment, XferMsg,
};
use crate::id::{DrawError, EpId, TransferId};
use crate::limits::Limits;
use crate::native::ResourceId;
use crate::proto::{control_of, decode_control, ControlMsg};
use crate::router::{
    no_identity, replied, HostDelivery, HostEvent, PeerId, Poison, RouteOutcome, Router,
};
use crate::router_model::{
    close, create, create_draws, data, emit, fresh_pair, gone, hello, initial, xfer, DeliveryView,
    Outcome, Reply, State,
};
use crate::table::{key_list, Table};

verus! {

/// What is to be done with a kernel object in escrow before a frame goes out.
#[derive(Clone, Copy, Debug, PartialEq, Eq)]
pub enum NativeOp {
    /// Nothing.
    Keep,
    /// Deliver it to the frame's recipient. This is the commit point.
    Deliver,
    /// Give it back to the frame's recipient, who sent it as this resource.
    Restore(ResourceId),
    /// Close it: nobody can take it.
    Discard,
    /// It should be there and is not.
    Missing,
}

/// One frame to send.
#[derive(Debug)]
pub struct Send {
    pub to: PeerId,
    pub frame: Frame,
    /// Does it go out with the control frames, ahead of data?
    pub ctrl: bool,
    /// Is there a connection to send it on?
    pub connected: bool,
    /// The transfer whose kernel object is meant.
    pub native: NativeOp,
}

/// What a send says.
#[verifier::ext_equal]
pub struct SendView {
    pub to: PeerId,
    pub frame: FrameView,
    pub ctrl: bool,
    pub connected: bool,
    pub native: NativeOp,
}

impl View for Send {
    type V = SendView;

    open spec fn view(&self) -> SendView {
        SendView {
            to: self.to,
            frame: self.frame@,
            ctrl: self.ctrl,
            connected: self.connected,
            native: self.native,
        }
    }
}

/// What is worth telling about a frame.
#[derive(Clone, Copy, Debug, PartialEq, Eq)]
pub enum Note {
    Nothing,
    /// The peer introduced itself.
    Hello,
    /// The peer said goodbye.
    Shutdown,
    /// The peer was lost.
    Lost,
    /// The peer broke the protocol and is cut off.
    Quarantined(Poison),
    /// No identities could be drawn. Nothing happened.
    NoIdentity,
}

/// What is to be done about a frame, in this order.
#[derive(Debug)]
pub struct Actions {
    /// Take this kernel object from the sender into escrow.
    pub stage: Option<NativeAttachment>,
    pub sends: Vec<Send>,
    /// Endpoints of the host that ended.
    pub events: Vec<HostEvent>,
    pub note: Note,
    /// Tear the sender's connection down.
    pub teardown: bool,
}

/// What a list of actions says.
#[verifier::ext_equal]
pub struct ActionsView {
    pub stage: Option<NativeAttachment>,
    pub sends: Seq<SendView>,
    pub events: Seq<HostEvent>,
    pub note: Note,
    pub teardown: bool,
}

/// What the sends say.
pub open spec fn send_views(s: Seq<Send>) -> Seq<SendView> {
    s.map_values(|x: Send| x@)
}

impl View for Actions {
    type V = ActionsView;

    open spec fn view(&self) -> ActionsView {
        ActionsView {
            stage: self.stage,
            sends: send_views(self.sends@),
            events: self.events@,
            note: self.note,
            teardown: self.teardown,
        }
    }
}

/// What the host knows.
#[verifier::ext_equal]
pub struct HostView {
    pub router: State,
    /// The peers that introduced themselves.
    pub hellos: Map<PeerId, ()>,
    /// The messages for endpoints that the host holds: number and payload.
    pub inbox: Seq<(u32, Seq<u8>)>,
    /// The peers that are connected.
    pub conns: Map<PeerId, ()>,
    /// The kernel objects in escrow: sender and resource.
    pub escrow: Map<TransferId, (PeerId, ResourceId)>,
}

// ------------------------------------------------------------------ planning --

/// What becomes of a kernel object when a frame goes out.
pub open spec fn native_op(h: HostView, to: PeerId, f: FrameView) -> NativeOp {
    match f {
        FrameView::Xfer(XferMsg::NativeCommit { tid, .. }) => if !h.escrow.contains_key(tid) {
            NativeOp::Missing
        } else if h.conns.contains_key(to) {
            NativeOp::Deliver
        } else {
            NativeOp::Discard
        },
        FrameView::Xfer(XferMsg::Abort { tid }) => if !h.escrow.contains_key(tid) {
            NativeOp::Keep
        } else if to == h.escrow[tid].0 && h.conns.contains_key(to) {
            NativeOp::Restore(h.escrow[tid].1)
        } else {
            NativeOp::Discard
        },
        _ => NativeOp::Keep,
    }
}

/// The transfer whose kernel object a frame spends.
pub open spec fn spends(f: FrameView) -> Option<TransferId> {
    match f {
        FrameView::Xfer(XferMsg::NativeCommit { tid, .. }) => Some(tid),
        FrameView::Xfer(XferMsg::Abort { tid }) => Some(tid),
        _ => None,
    }
}

/// A frame goes out: how, and the state after it.
pub open spec fn plan_one(h: HostView, to: PeerId, f: FrameView) -> (HostView, SendView) {
    (
        HostView {
            escrow: match spends(f) {
                Some(tid) => h.escrow.remove(tid),
                None => h.escrow,
            },
            ..h
        },
        SendView {
            to,
            frame: f,
            ctrl: f.is_control(),
            connected: h.conns.contains_key(to),
            native: native_op(h, to, f),
        },
    )
}

/// Frames go out, one after the other.
pub open spec fn plan(h: HostView, send: Seq<(PeerId, FrameView)>) -> (HostView, Seq<SendView>)
    decreases send.len(),
{
    if send.len() == 0 {
        (h, Seq::empty())
    } else {
        let (h1, before) = plan(h, send.drop_last());
        let (h2, last) = plan_one(h1, send.last().0, send.last().1);
        (h2, before.push(last))
    }
}

/// Nothing to do.
pub open spec fn idle(note: Note) -> ActionsView {
    ActionsView {
        stage: None,
        sends: Seq::empty(),
        events: Seq::empty(),
        note,
        teardown: false,
    }
}

/// The state with another router.
pub open spec fn with_router(h: HostView, s: State) -> HostView {
    HostView { router: s, ..h }
}

/// The host's events are told.
pub open spec fn told(s: State) -> State {
    State { host_events: Seq::empty(), ..s }
}

/// A peer is gone: everything that depends on it collapses, and its
/// connection is torn down.
pub open spec fn collapse(h: HostView, pid: PeerId, note: Note) -> (HostView, ActionsView) {
    let (s, out) = gone(h.router, pid, Cause::PeerLost);
    let (h1, sends) = plan(with_router(h, s), out.send);
    (
        HostView { router: told(s), conns: h1.conns.remove(pid), ..h1 },
        ActionsView { stage: None, sends, events: s.host_events, note, teardown: true },
    )
}

/// What the messages for the host say.
pub open spec fn deliveries(d: Seq<DeliveryView>) -> Seq<(u32, Seq<u8>)> {
    d.map_values(|x: DeliveryView| (x.corr, x.payload))
}

/// What the router makes of a frame. Which identities it draws for a new
/// conversation is left to chance.
pub open spec fn routed(s: State, pid: PeerId, f: FrameView, n: State, reply: Reply) -> bool {
    match f {
        FrameView::Hello { magic, version } => {
            let (n2, r) = hello(s, pid, magic, version);
            n == n2 && reply == (match r {
                Ok(_) => Ok::<Outcome, Poison>(Outcome::none()),
                Err(p) => Err(p),
            })
        },
        FrameView::Data(d) => (n, reply) == data(s, pid, d),
        FrameView::Close { target } => (n, reply) == close(s, pid, target),
        FrameView::Create => if create_draws(s, pid) {
            match reply {
                Ok(_) => exists|a: EpId, b: EpId| #[trigger]
                    fresh_pair(s, a, b) && (n, reply) == create(s, pid, a, b),
                Err(p) => n == s && exists|e: DrawError| p == no_identity(e),
            }
        } else {
            forall|a: EpId, b: EpId| #[trigger] create(s, pid, a, b) == (n, reply)
        },
        FrameView::Xfer(x) => (n, reply) == xfer(s, pid, x),
        FrameView::Shutdown => {
            let (n2, out) = gone(s, pid, Cause::Graceful);
            n == n2 && reply == Ok::<Outcome, Poison>(out)
        },
        _ => n == s && reply == Err::<Outcome, Poison>(Poison("peer sent host-only frame")),
    }
}

/// What the host does once the router made up its mind about a frame.
pub open spec fn acted(h: HostView, pid: PeerId, f: FrameView, n: State, reply: Reply) -> (
    HostView,
    ActionsView,
) {
    match reply {
        Err(p) => if f is Create && create_draws(h.router, pid) {
            (h, idle(Note::NoIdentity))
        } else {
            collapse(with_router(h, n), pid, Note::Quarantined(p))
        },
        Ok(out) => {
            let (h1, sends) = plan(with_router(h, n), out.send);
            let act = ActionsView { sends, ..idle(Note::Nothing) };
            match f {
                FrameView::Hello { .. } => (
                    HostView { hellos: h1.hellos.insert(pid, ()), ..h1 },
                    ActionsView { note: Note::Hello, ..act },
                ),
                FrameView::Data(d) => (
                    HostView { inbox: h1.inbox + deliveries(out.to_host), ..h1 },
                    ActionsView { stage: d.native, ..act },
                ),
                FrameView::Close { .. } => (
                    HostView { router: told(n), ..h1 },
                    ActionsView { events: n.host_events, ..act },
                ),
                FrameView::Shutdown => (
                    HostView { conns: h1.conns.remove(pid), ..h1 },
                    ActionsView { note: Note::Shutdown, teardown: true, ..act },
                ),
                _ => (h1, act),
            }
        },
    }
}

/// The first control message of a kind, and what is left behind it.
pub open spec fn find_control(inbox: Seq<(u32, Seq<u8>)>, want: ControlMsg) -> (
    Seq<(u32, Seq<u8>)>,
    Option<u32>,
)
    decreases inbox.len(),
{
    if inbox.len() == 0 {
        (inbox, None)
    } else if control_of(inbox[0].1) == Ok::<ControlMsg, crate::fabric_error::FabError>(want) {
        (inbox.skip(1), Some(inbox[0].0))
    } else {
        find_control(inbox.skip(1), want)
    }
}

/// The frame that goes out once its kernel object was seen to: a delivered
/// object is named by its value in the recipient's process, and one that was
/// given back by its resource and by its value in the sender's.
pub open spec fn settled(f: FrameView, op: NativeOp, handle: Option<u64>) -> FrameView {
    match (f, op, handle) {
        (
            FrameView::Xfer(XferMsg::NativeCommit { tid, rid, .. }),
            NativeOp::Deliver,
            Some(handle_value),
        ) => FrameView::Xfer(XferMsg::NativeCommit { tid, rid, handle_value }),
        (FrameView::Xfer(XferMsg::Abort { tid }), NativeOp::Restore(rid), Some(handle_value)) => {
            FrameView::Xfer(XferMsg::NativeAbort { tid, object: Some((rid, handle_value)) })
        },
        _ => f,
    }
}

/// The frame that goes out once its kernel object was seen to.
pub fn settled_frame(f: Frame, op: NativeOp, handle: Option<u64>) -> (r: Frame)
    ensures
        r@ == settled(f@, op, handle),
{
    match (f, op, handle) {
        (
            Frame::Xfer(XferMsg::NativeCommit { tid, rid, .. }),
            NativeOp::Deliver,
            Some(handle_value),
        ) => Frame::Xfer(XferMsg::NativeCommit { tid, rid, handle_value }),
        (Frame::Xfer(XferMsg::Abort { tid }), NativeOp::Restore(rid), Some(handle_value)) => {
            Frame::Xfer(XferMsg::NativeAbort { tid, object: Some((rid, handle_value)) })
        },
        (f, _, _) => f,
    }
}

// ---------------------------------------------------------------------- host --

/// The host.
pub struct Host {
    router: Router,
    hellos: Table<PeerId, ()>,
    inbox: VecDeque<(u32, Vec<u8>)>,
    conns: Table<PeerId, ()>,
    escrow: Table<TransferId, (PeerId, ResourceId)>,
}

impl View for Host {
    type V = HostView;

    closed spec fn view(&self) -> HostView {
        HostView {
            router: self.router@,
            hellos: self.hellos@,
            inbox: self.inbox@.map_values(|m: (u32, Vec<u8>)| (m.0, m.1@)),
            conns: self.conns@,
            escrow: self.escrow@,
        }
    }
}

impl Host {
    /// The router and the tables are in order.
    pub closed spec fn wf(&self) -> bool {
        &&& self.router.wf()
        &&& self.hellos.wf()
        &&& self.conns.wf()
        &&& self.escrow.wf()
    }

    /// A host's router is in a reachable state.
    pub proof fn lemma_wf(&self)
        requires
            self.wf(),
        ensures
            crate::router_inv::inv(self@.router),
    {
        self.router.lemma_wf();
    }

    /// A host without peers.
    pub fn new(lim: Limits) -> (r: Self)
        ensures
            r.wf(),
            r@ == (HostView {
                router: initial(lim),
                hellos: Map::empty(),
                inbox: Seq::empty(),
                conns: Map::empty(),
                escrow: Map::empty(),
            }),
    {
        let r = Host {
            router: Router::new(lim),
            hellos: Table::new(),
            inbox: VecDeque::new(),
            conns: Table::new(),
            escrow: Table::new(),
        };
        assert(r@.inbox =~= Seq::empty());
        r
    }

    /// The router.
    pub fn router(&self) -> (r: &Router)
        requires
            self.wf(),
        ensures
            r.wf(),
            r@ == self@.router,
    {
        &self.router
    }

    /// The router, for the host's own requests.
    pub fn router_mut(&mut self) -> (r: &mut Router)
        requires
            old(self).wf(),
        ensures
            r.wf(),
            r@ == old(self)@.router,
            final(self)@ == with_router(old(self)@, final(r)@),
            final(r).wf() ==> final(self).wf(),
    {
        &mut self.router
    }

    /// How many peers introduced themselves.
    pub fn hello_count(&self) -> (n: usize)
        requires
            self.wf(),
        ensures
            n == self@.hellos.len(),
    {
        self.hellos.len()
    }

    /// The peers that are connected, in key order.
    pub fn connected(&self) -> (r: Vec<PeerId>)
        requires
            self.wf(),
        ensures
            r@ == key_list(self@.conns.dom()),
    {
        self.conns.keys()
    }

    /// Can one more peer be numbered?
    pub fn can_connect(&self) -> (r: bool)
        requires
            self.wf(),
        ensures
            r == (self@.router.next_peer < u32::MAX),
    {
        self.router.can_accept_peer()
    }

    /// A peer connects.
    pub fn connect(&mut self) -> (r: PeerId)
        requires
            old(self).wf(),
            old(self)@.router.next_peer < u32::MAX,
        ensures
            final(self).wf(),
            r == PeerId(old(self)@.router.next_peer as u32),
            final(self)@ == (HostView {
                router: crate::router_model::accept(old(self)@.router),
                conns: old(self)@.conns.insert(r, ()),
                ..old(self)@
            }),
    {
        let pid = self.router.accept_peer();
        self.conns.insert(pid, ());
        pid
    }

    /// Decides how a frame goes out.
    fn plan_one(&mut self, to: PeerId, frame: Frame) -> (r: Send)
        requires
            old(self).wf(),
        ensures
            final(self).wf(),
            (final(self)@, r@) == plan_one(old(self)@, to, frame@),
    {
        let connected = self.conns.contains_key(to);
        let ctrl = is_control_frame(&frame);
        let native = match &frame {
            Frame::Xfer(XferMsg::NativeCommit { tid, .. }) => match self.escrow.remove(*tid) {
                None => NativeOp::Missing,
                Some(_) => if connected {
                    NativeOp::Deliver
                } else {
                    NativeOp::Discard
                },
            },
            Frame::Xfer(XferMsg::Abort { tid }) => match self.escrow.remove(*tid) {
                None => NativeOp::Keep,
                Some((sender, rid)) => if to == sender && connected {
                    NativeOp::Restore(rid)
                } else {
                    NativeOp::Discard
                },
            },
            _ => NativeOp::Keep,
        };
        assert(self@ =~= plan_one(old(self)@, to, frame@).0);
        Send { to, frame, ctrl, connected, native }
    }

    /// Decides how frames go out.
    fn plan(&mut self, send: Vec<(PeerId, Frame)>) -> (r: Vec<Send>)
        requires
            old(self).wf(),
        ensures
            final(self).wf(),
            (final(self)@, send_views(r@)) == plan(
                old(self)@,
                send@.map_values(|e: (PeerId, Frame)| (e.0, e.1@)),
            ),
    {
        let ghost list = send@.map_values(|e: (PeerId, Frame)| (e.0, e.1@));
        let mut r: Vec<Send> = Vec::new();
        proof {
            assert(list.take(0) =~= Seq::<(PeerId, FrameView)>::empty());
            assert(send_views(r@) =~= Seq::<SendView>::empty());
        }
        for e in it: send
            invariant
                self.wf(),
                it.seq() == send@,
                list == send@.map_values(|e: (PeerId, Frame)| (e.0, e.1@)),
                (self@, send_views(r@)) == plan(old(self)@, list.take(it.index())),
        {
            let ghost i = it.index();
            proof {
                assert(list.take(i + 1).drop_last() =~= list.take(i));
                assert(list.take(i + 1).last() == (e.0, e.1@));
            }
            let ghost before = r@;
            let one = self.plan_one(e.0, e.1);
            r.push(one);
            assert(send_views(r@) =~= send_views(before).push(one@));
        }
        assert(list.take(list.len() as int) =~= list);
        r
    }

    /// A peer is gone: everything that depends on it collapses.
    fn collapse(&mut self, pid: PeerId, note: Note) -> (r: Actions)
        requires
            old(self).wf(),
        ensures
            final(self).wf(),
            (final(self)@, r@) == collapse(old(self)@, pid, note),
    {
        let ghost h = self@;
        let out = self.router.on_eof(pid);
        let ghost s = self.router@;
        assert(self@ =~= with_router(h, s));
        let sends = self.plan(out.send);
        let ghost h1 = self@;
        proof {
            lemma_plan_frame(with_router(h, s), out@.send);
        }
        let events = self.router.take_host_events();
        let _ = self.conns.remove(pid);
        assert(self@ =~= collapse(h, pid, note).0);
        Actions { stage: None, sends, events, note, teardown: true }
    }

    /// The transport of a peer broke.
    pub fn on_lost(&mut self, pid: PeerId) -> (r: Actions)
        requires
            old(self).wf(),
        ensures
            final(self).wf(),
            (final(self)@, r@) == collapse(old(self)@, pid, Note::Lost),
    {
        self.collapse(pid, Note::Lost)
    }

    /// The reader of a peer saw it break the protocol.
    pub fn on_quarantine(&mut self, pid: PeerId, why: &'static str) -> (r: Actions)
        requires
            old(self).wf(),
        ensures
            final(self).wf(),
            (final(self)@, r@) == collapse(old(self)@, pid, Note::Quarantined(Poison(why))),
    {
        self.collapse(pid, Note::Quarantined(Poison(why)))
    }

    /// Files the messages for endpoints that the host holds.
    fn file(&mut self, to_host: Vec<HostDelivery>)
        requires
            old(self).wf(),
        ensures
            final(self).wf(),
            final(self)@ == (HostView {
                inbox: old(self)@.inbox + deliveries(to_host@.map_values(|d: HostDelivery| d@)),
                ..old(self)@
            }),
    {
        let ghost list = deliveries(to_host@.map_values(|d: HostDelivery| d@));
        assert(self@.inbox =~= old(self)@.inbox + list.take(0));
        for d in it: to_host
            invariant
                self.wf(),
                it.seq() == to_host@,
                list == deliveries(to_host@.map_values(|d: HostDelivery| d@)),
                self@ == (HostView { inbox: old(self)@.inbox + list.take(it.index()), ..old(self)@ }),
        {
            let ghost i = it.index();
            let ghost before = self@;
            let ghost m = (d.corr, d.payload@);
            self.inbox.push_back((d.corr, d.payload));
            proof {
                assert(list[i] == m);
                assert(self@.inbox =~= before.inbox.push(m));
                assert(list.take(i + 1) =~= list.take(i).push(m));
                assert(self@.inbox =~= old(self)@.inbox + list.take(i + 1));
                assert(self@ =~= HostView { inbox: self@.inbox, ..before });
            }
        }
        assert(list.take(list.len() as int) =~= list);
    }

    /// A frame of a peer arrives.
    pub fn on_frame(&mut self, pid: PeerId, f: Frame) -> (r: Actions)
        requires
            old(self).wf(),
        ensures
            final(self).wf(),
            exists|n: State, reply: Reply| #[trigger]
                routed(old(self)@.router, pid, f@, n, reply) && (final(self)@, r@) == acted(
                    old(self)@,
                    pid,
                    f@,
                    n,
                    reply,
                ),
    {
        let ghost h = self@;
        let ghost fv = f@;
        let mut stage: Option<NativeAttachment> = None;
        let mut note = Note::Nothing;
        let mut is_data = false;
        let mut greeted = false;
        let mut told_events = false;
        let mut teardown = false;
        let ghost mut reply: Reply = Ok(Outcome::none());
        let outcome = match f {
            Frame::Hello { magic, version } => match self.router.on_hello(pid, magic, version) {
                Ok(()) => {
                    note = Note::Hello;
                    greeted = true;
                    Ok(RouteOutcome::default())
                },
                Err(p) => Err(p),
            },
            Frame::Data(d) => {
                is_data = true;
                stage = d.native;
                self.router.on_data(pid, d)
            },
            Frame::Close { target } => {
                told_events = true;
                self.router.on_close(pid, target)
            },
            Frame::Create => {
                let draws = self.router.create_draws(pid);
                let res = self.router.on_create(pid);
                if draws {
                    if let Err(p) = &res {
                        proof {
                            let n = self.router@;
                            assert(routed(h.router, pid, fv, n, Err(*p)));
                            assert(self@ =~= h);
                            assert((h, idle(Note::NoIdentity)) == acted(h, pid, fv, n, Err(*p)));
                        }
                        let a = Actions {
                            stage: None,
                            sends: Vec::new(),
                            events: Vec::new(),
                            note: Note::NoIdentity,
                            teardown: false,
                        };
                        assert(a@ =~= idle(Note::NoIdentity));
                        return a;
                    }
                }
                res
            },
            Frame::Xfer(x) => self.router.on_xfer(pid, x),
            Frame::Shutdown => {
                note = Note::Shutdown;
                teardown = true;
                Ok(self.router.on_shutdown(pid))
            },
            Frame::ClosedNotify { .. }
            | Frame::Grant { .. }
            | Frame::CreateAck { .. }
            | Frame::Error(_) => Err(self.router.on_illegal(pid, "peer sent host-only frame")),
        };
        let ghost n = self.router@;
        proof {
            reply = replied(outcome);
            assert(self@ =~= with_router(h, n));
            assert(routed(h.router, pid, fv, n, reply));
        }
        match outcome {
            Err(p) => self.collapse(pid, Note::Quarantined(p)),
            Ok(out) => {
                let ghost ov = out@;
                let sends = self.plan(out.send);
                proof {
                    lemma_plan_frame(with_router(h, n), ov.send);
                }
                if greeted {
                    self.hellos.insert(pid, ());
                }
                if is_data {
                    self.file(out.to_host);
                }
                let events = if told_events {
                    self.router.take_host_events()
                } else {
                    Vec::new()
                };
                if teardown {
                    let _ = self.conns.remove(pid);
                }
                let a = Actions { stage, sends, events, note, teardown };
                proof {
                    let (want_h, want_a) = acted(h, pid, fv, n, reply);
                    assert(a@ =~= want_a);
                    assert(self@ =~= want_h);
                }
                a
            },
        }
    }

    /// A kernel object arrived from a sender. It goes into escrow if it is the
    /// one that was offered; otherwise the caller closes it.
    pub fn on_staged(
        &mut self,
        from: PeerId,
        want: NativeAttachment,
        tid: TransferId,
        rid: ResourceId,
    ) -> (r: bool)
        requires
            old(self).wf(),
        ensures
            final(self).wf(),
            r == (tid == want.tid && rid == want.rid),
            final(self)@ == (if r {
                HostView { escrow: old(self)@.escrow.insert(tid, (from, rid)), ..old(self)@ }
            } else {
                old(self)@
            }),
    {
        if tid == want.tid && rid == want.rid {
            self.escrow.insert(tid, (from, rid));
            true
        } else {
            false
        }
    }

    /// The host sends on an endpoint that it holds.
    pub fn host_send(&mut self, target: EpId, corr: u32, payload: Vec<u8>) -> (r: Result<
        Vec<Send>,
        Poison,
    >)
        requires
            old(self).wf(),
        ensures
            final(self).wf(),
            match emit(old(self)@.router, target, corr, payload@) {
                Ok(out) => r is Ok && (final(self)@, send_views(r->Ok_0@)) == plan(
                    old(self)@,
                    out.send,
                ),
                Err(p) => r == Err::<Vec<Send>, Poison>(p) && final(self)@ == old(self)@,
            },
    {
        match self.router.host_emit(target, corr, payload) {
            Ok(out) => {
                assert(self@ =~= old(self)@);
                Ok(self.plan(out.send))
            },
            Err(p) => {
                assert(self@ =~= old(self)@);
                Err(p)
            },
        }
    }

    /// Takes messages for the host until one is the control message that is
    /// wanted: its number.
    pub fn take_control(&mut self, want: ControlMsg) -> (r: Option<u32>)
        requires
            old(self).wf(),
        ensures
            final(self).wf(),
            final(self)@ == (HostView {
                inbox: find_control(old(self)@.inbox, want).0,
                ..old(self)@
            }),
            r == find_control(old(self)@.inbox, want).1,
    {
        let ghost h = self@;
        loop
            invariant
                self.wf(),
                h == old(self)@,
                self@ == (HostView { inbox: self@.inbox, ..h }),
                find_control(self@.inbox, want) == find_control(h.inbox, want),
            decreases self@.inbox.len(),
        {
            let ghost before = self@.inbox;
            let ghost q = self.inbox@;
            match self.inbox.pop_front() {
                None => {
                    assert(self@ =~= HostView { inbox: before, ..h });
                    return None;
                },
                Some((corr, payload)) => {
                    proof {
                        assert(before[0] == (corr, payload@));
                        assert(self@.inbox =~= before.skip(1));
                        assert(self@ =~= HostView { inbox: before.skip(1), ..h });
                    }
                    if let Ok(m) = decode_control(payload.as_slice()) {
                        if m == want {
                            return Some(corr);
                        }
                    }
                }
            }
        }
    }
}

/// Sending frames touches nothing but the escrow.
proof fn lemma_plan_frame(h: HostView, send: Seq<(PeerId, FrameView)>)
    ensures
        plan(h, send).0 == (HostView { escrow: plan(h, send).0.escrow, ..h }),
    decreases send.len(),
{
    if send.len() > 0 {
        lemma_plan_frame(h, send.drop_last());
    }
}

// ---------------------------------------------------------------------- laws --

/// A kernel object is spent at most once: once a frame that settles its
/// transfer went out, it is no longer in escrow.
pub proof fn law_escrow_is_spent_once(h: HostView, to: PeerId, f: FrameView, to2: PeerId, f2: FrameView)
    requires
        spends(f) is Some,
        spends(f2) == spends(f),
    ensures
        ({
            let (h1, first) = plan_one(h, to, f);
            let (h2, second) = plan_one(h1, to2, f2);
            &&& !h1.escrow.contains_key(spends(f)->Some_0)
            &&& second.native == NativeOp::Keep || second.native == NativeOp::Missing
        }),
{
}

/// An aborted transfer brings its kernel object back to the sender, and to
/// nobody else; where the object has a value in the sender's process, the
/// sender is told it together with the resource that it had sent.
pub proof fn law_abort_restores_sender_only(h: HostView, to: PeerId, tid: TransferId, handle_value: u64)
    requires
        h.escrow.contains_key(tid),
    ensures
        ({
            let (sender, rid) = h.escrow[tid];
            let (h1, s) = plan_one(h, to, FrameView::Xfer(XferMsg::Abort { tid }));
            &&& s.native is Restore ==> to == sender
            &&& to == sender && h.conns.contains_key(to) ==> s.native == NativeOp::Restore(rid)
                && settled(s.frame, s.native, Some(handle_value)) == FrameView::Xfer(
                XferMsg::NativeAbort { tid, object: Some((rid, handle_value)) },
            )
            &&& to != sender ==> s.native == NativeOp::Discard
        }),
{
}

/// Offers never wait behind data: a message with an endpoint, a kernel object
/// or a region goes out with the control frames.
pub proof fn law_offers_ride_ahead(h: HostView, to: PeerId, d: DataView)
    requires
        d.attachments.len() > 0 || d.native is Some || d.shared is Some,
    ensures
        plan_one(h, to, FrameView::Data(d)).1.ctrl,
{
}

/// A peer that breaks the protocol is cut off: it is forgotten, and so is its
/// connection.
pub proof fn law_quarantine_cuts_off(h: HostView, pid: PeerId, why: Poison)
    ensures
        ({
            let (n, a) = collapse(h, pid, Note::Quarantined(why));
            &&& !n.conns.contains_key(pid)
            &&& a.teardown
            &&& a.note == Note::Quarantined(why)
            &&& forall|q: PeerId|
                q != pid ==> (#[trigger] n.conns.contains_key(q) <==> h.conns.contains_key(q))
        }),
{
    let (s, out) = gone(h.router, pid, Cause::PeerLost);
    lemma_plan_frame(with_router(h, s), out.send);
}

} // verus!

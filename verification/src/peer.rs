//! Child-side runtime: move-only endpoint handles, request and reply with
//! correlation, receipt and transfer of capabilities, and deterministic
//! failure.
//!
//! The runtime is a value that is fed the frames which arrive and asked for
//! the frames to send. Reading, writing, locking and waiting belong to the
//! caller; whatever may have to wait says so, and for how long.

use std::collections::VecDeque;
use vstd::prelude::*;

use crate::delivery_laws::{
    can_queue, given_out, has_room, held_back, law_offers_wait_for_their_commits, newly_answered,
    offer_replies, outgoing,
};
use crate::fabric_error::{Cause, FabError};
use crate::frame::{
    Attachment, DataInner, DataView, Frame, FrameView, NativeAttachment, SharedAttachment, XferMsg,
    ERR_CAPACITY, XFER_ST_ABORTED, XFER_ST_COMMITTED, XFER_ST_PENDING,
};
use crate::id::{all_zero, fresh_transfer_id, EpId, NoneTaken, TransferId};
use crate::limits::Limits;
use crate::native::ResourceId;
use crate::peer_model::{
    adopt_pair, answers_call, ask_status, bump, can_give, close_slot, decide, deliver, discard_all,
    emit, emit_error, fail_calls, fail_handle, finish, finish_all, first_failed, first_new,
    give_up, hand_over, inbound_cost, initial, later, lemma_hand_over, lose, offers_of, on_abort, on_closed,
    on_commit, on_created, on_data, on_offers, on_status, on_xfer, plain, release, release_all,
    reply_offers, settle, shut, started, strike, struck, take_status, turn, with_closed,
    without_calls, Ask, CallView, CreateOutcome, Handle, InboundView, OutcomeView, ParkedView,
    PeerView, ReplyView, StalledView, TurnView, XferLocal, INBOUND_COST_OVERHEAD,
    REPLY_TIMEOUT_MILLIS, STATUS_RETRY_MILLIS, STATUS_TIMEOUT_MILLIS,
};
use crate::queue::{
    lemma_seen_cost, lemma_seen_moves, seen, wait_for, BoundedQueue, PopError, Popped,
};
use crate::shared::{counted, RegionId, Rights};
use crate::table::{key_list, lemma_count_keys, lists_keys, Key, Table};

verus! {

/// Authority over one end of a conversation. It can be moved but not
/// duplicated: transferring or closing consumes it.
#[derive(Debug)]
pub struct Endpoint {
    id: EpId,
}

impl View for Endpoint {
    type V = EpId;

    closed spec fn view(&self) -> EpId {
        self.id
    }
}

/// The identities of these endpoints.
pub open spec fn ids(eps: Seq<Endpoint>) -> Seq<EpId> {
    eps.map_values(|e: Endpoint| e@)
}

/// A message delivered to an endpoint held here.
#[derive(Debug)]
pub struct Inbound {
    /// The sender's endpoint.
    pub from: EpId,
    /// The handle that received this message. Replies are sent on it.
    pub local: EpId,
    pub corr: u32,
    pub payload: Vec<u8>,
    /// The endpoints that arrived with the message. Holding them is the
    /// authority.
    pub received: Vec<Endpoint>,
    pub received_native: Option<NativeAttachment>,
    pub received_shared: Option<SharedAttachment>,
}

impl View for Inbound {
    type V = InboundView;

    open spec fn view(&self) -> InboundView {
        InboundView {
            from: self.from,
            local: self.local,
            corr: self.corr,
            payload: self.payload@,
            received: ids(self.received@),
            native: self.received_native,
            shared: self.received_shared,
        }
    }
}

/// What came back from a call: a payload, and the endpoints that were
/// transferred with it.
#[derive(Debug)]
pub struct CallResult {
    pub payload: Vec<u8>,
    pub received: Vec<Endpoint>,
    pub received_native: Option<NativeAttachment>,
    pub received_shared: Option<SharedAttachment>,
}

impl View for CallResult {
    type V = CallView;

    open spec fn view(&self) -> CallView {
        CallView {
            payload: self.payload@,
            received: ids(self.received@),
            native: self.received_native,
            shared: self.received_shared,
        }
    }
}

/// What an answer says.
pub open spec fn answered(a: Result<CallResult, FabError>) -> Result<CallView, FabError> {
    match a {
        Ok(c) => Ok(c@),
        Err(e) => Err(e),
    }
}

struct Parked {
    from: EpId,
    local: EpId,
    corr: u32,
    payload: Vec<u8>,
    remaining: Vec<TransferId>,
    got: Vec<Endpoint>,
    is_response: bool,
}

impl View for Parked {
    type V = ParkedView;

    closed spec fn view(&self) -> ParkedView {
        ParkedView {
            from: self.from,
            local: self.local,
            corr: self.corr,
            payload: self.payload@,
            remaining: self.remaining@,
            got: ids(self.got@),
            is_response: self.is_response,
        }
    }
}

struct Stalled {
    item: Inbound,
    counted: bool,
}

impl View for Stalled {
    type V = StalledView;

    closed spec fn view(&self) -> StalledView {
        StalledView { item: self.item@, counted: self.counted }
    }
}

/// How a transfer ended for the application.
#[derive(Debug)]
pub enum TransferOutcome {
    /// Authority now belongs to the recipient.
    Committed,
    /// Called off before commit: the same authority, restored.
    Aborted(Vec<Endpoint>),
    /// The authority could not be restored.
    AuthorityLost(Cause),
}

/// The result of asking once for something that may not be there yet.
#[derive(Debug)]
pub enum Polled<T> {
    Ready(T),
    /// Ask again after so many milliseconds, or when woken.
    Wait(u64),
}

/// What the writer does next.
#[derive(Debug)]
pub enum Outgoing {
    Send(Frame),
    /// Nothing to send yet.
    Wait,
    /// Nothing will be sent any more.
    End,
}

/// State accounting snapshot.
#[derive(Clone, Copy, Debug, PartialEq, Eq, Structural)]
pub struct PeerAccounting {
    pub live_handles: usize,
    pub inbound_backlog_msgs: usize,
    pub dropped_after_close: u64,
    pub sent_frames: u64,
    pub received_frames: u64,
    pub terminal: bool,
}

/// A child's connection to the fabric.
pub struct Runtime {
    lim: Limits,
    handles: Table<EpId, Handle>,
    theirs: Table<EpId, EpId>,
    waiters: Table<u32, EpId>,
    answers: Table<u32, Result<CallResult, FabError>>,
    create_wait: Option<u64>,
    created: Table<u64, CreateOutcome>,
    tickets: u64,
    next_corr: u32,
    terminal: Option<Cause>,
    dropped: u64,
    arrivals: Vec<EpId>,
    offers: Table<TransferId, (EpId, EpId)>,
    xfer_wait: Table<TransferId, (EpId, EpId)>,
    xfer_done: Table<TransferId, XferLocal>,
    status_wait: Table<TransferId, ()>,
    status_done: Table<TransferId, u8>,
    parked: VecDeque<Parked>,
    stalled: VecDeque<Stalled>,
    out: BoundedQueue<Frame>,
    inbound: BoundedQueue<Inbound>,
    sent: u64,
    received: u64,
}

impl View for Runtime {
    type V = PeerView;

    closed spec fn view(&self) -> PeerView {
        PeerView {
            lim: self.lim,
            handles: self.handles@,
            theirs: self.theirs@,
            waiters: self.waiters@,
            answers: self.answers@.map_values(|a: Result<CallResult, FabError>| answered(a)),
            create_wait: self.create_wait,
            created: self.created@,
            tickets: self.tickets,
            next_corr: self.next_corr,
            terminal: self.terminal,
            dropped: self.dropped,
            arrivals: self.arrivals@,
            offers: self.offers@,
            xfer_wait: self.xfer_wait@,
            xfer_done: self.xfer_done@,
            status_wait: self.status_wait@,
            status_done: self.status_done@,
            parked: self.parked@.map_values(|p: Parked| p@),
            stalled: self.stalled@.map_values(|s: Stalled| s@),
            out: seen(self.out@),
            inbound: seen(self.inbound@),
            sent: self.sent,
            received: self.received,
        }
    }
}

fn bump_u64(n: u64) -> (r: u64)
    ensures
        r == bump(n),
{
    if n < u64::MAX {
        n + 1
    } else {
        n
    }
}

impl Runtime {
    /// The tables and queues are in order.
    pub closed spec fn wf(&self) -> bool {
        &&& self.handles.wf()
        &&& self.theirs.wf()
        &&& self.waiters.wf()
        &&& self.answers.wf()
        &&& self.created.wf()
        &&& self.offers.wf()
        &&& self.xfer_wait.wf()
        &&& self.xfer_done.wf()
        &&& self.status_wait.wf()
        &&& self.status_done.wf()
        &&& self.out.wf()
        &&& self.inbound.wf()
    }

    /// A runtime that holds nothing.
    pub fn new(lim: Limits) -> (r: Self)
        ensures
            r.wf(),
            r@ == initial(lim),
    {
        let r = Runtime {
            lim,
            handles: Table::new(),
            theirs: Table::new(),
            waiters: Table::new(),
            answers: Table::new(),
            create_wait: None,
            created: Table::new(),
            tickets: 0,
            next_corr: 0,
            terminal: None,
            dropped: 0,
            arrivals: Vec::new(),
            offers: Table::new(),
            xfer_wait: Table::new(),
            xfer_done: Table::new(),
            status_wait: Table::new(),
            status_done: Table::new(),
            parked: VecDeque::new(),
            stalled: VecDeque::new(),
            out: BoundedQueue::new(lim.queue_max_msgs, lim.queue_max_bytes),
            inbound: BoundedQueue::new(lim.queue_max_msgs, lim.queue_max_bytes),
            sent: 0,
            received: 0,
        };
        assert(r@ =~= initial(lim));
        r
    }

    /// The limits that the runtime works within.
    pub fn limits(&self) -> (r: &Limits)
        ensures
            *r == self@.lim,
    {
        &self.lim
    }

    /// Queues a frame for the fabric.
    fn push_out(&mut self, f: Frame) -> (r: Result<(), FabError>)
        requires
            old(self).wf(),
        ensures
            final(self).wf(),
            final(self)@ == emit(old(self)@, f@),
            match emit_error(old(self)@, f@) {
                Some(e) => r == Err::<(), FabError>(e),
                None => r is Ok,
            },
    {
        let cost: usize = f.cost();
        proof {
            lemma_seen_cost(self.out@);
            lemma_seen_moves(self.out@, f, cost);
            self.out.lemma_wf();
        }
        match self.out.try_push(f, cost) {
            Ok(()) => {
                self.sent = bump_u64(self.sent);
                assert(self@ =~= emit(old(self)@, f@));
                Ok(())
            },
            Err((_, backlog)) => {
                assert(self@ =~= old(self)@);
                Err(
                    FabError::Backpressured {
                        queued_msgs: backlog.msgs,
                        queued_bytes: backlog.bytes,
                    },
                )
            },
        }
    }

    fn is_live(&self, ep: EpId) -> (r: bool)
        ensures
            r == self@.is_live(ep),
    {
        match self.handles.get(ep) {
            Some(h) => h.cause.is_none(),
            None => false,
        }
    }

    /// How many endpoints are live.
    fn live_count(&self) -> (n: usize)
        requires
            self.wf(),
        ensures
            n == self@.live().len(),
    {
        let ghost f = |ep: EpId| self@.handles[ep].cause is None;
        let keys = self.handles.keys();
        let mut n: usize = 0;
        let mut i: usize = 0;
        proof {
            reveal(Seq::filter);
            assert(keys@.take(0) =~= Seq::<EpId>::empty());
        }
        while i < keys.len()
            invariant
                i <= keys@.len(),
                lists_keys(keys@, self@.handles.dom()),
                f == (|ep: EpId| self@.handles[ep].cause is None),
                n == keys@.take(i as int).filter(f).len(),
                n <= i,
            decreases keys@.len() - i,
        {
            proof {
                reveal(Seq::filter);
                assert(keys@.take(i + 1).drop_last() =~= keys@.take(i as int));
                assert(keys@.contains(keys@[i as int]));
            }
            if self.is_live(keys[i]) {
                n = n + 1;
            }
            i = i + 1;
        }
        proof {
            assert(keys@.take(i as int) =~= keys@);
            lemma_count_keys(keys@, self@.handles.dom(), f);
            assert(self@.live() =~= self@.handles.dom().filter(f));
        }
        n
    }

    /// Answers the calls that wait on one endpoint, or on any live one, with
    /// word of the close.
    fn close_calls(&mut self, only: Option<EpId>, cause: Cause)
        requires
            old(self).wf(),
        ensures
            final(self).wf(),
            ({
                let s = old(self)@;
                let eps = match only {
                    Some(ep) => Set::empty().insert(ep),
                    None => s.live(),
                };
                final(self)@ == (PeerView {
                    waiters: without_calls(s.waiters, eps),
                    answers: with_closed(s.answers, s.waiters, eps, cause),
                    ..s
                })
            }),
    {
        let ghost s = self@;
        let ghost old_answers = self.answers@;
        let ghost eps = match only {
            Some(ep) => Set::empty().insert(ep),
            None => s.live(),
        };
        let keys = self.waiters.keys();
        let mut i: usize = 0;
        while i < keys.len()
            invariant
                i <= keys@.len(),
                self.wf(),
                s == old(self)@,
                old_answers == old(self).answers@,
                eps == (match only {
                    Some(ep) => Set::empty().insert(ep),
                    None => s.live(),
                }),
                lists_keys(keys@, s.waiters.dom()),
                self@ == (PeerView { waiters: self@.waiters, answers: self@.answers, ..s }),
                forall|c: u32| #[trigger]
                    self.waiters@.contains_key(c) <==> s.waiters.contains_key(c) && !(eps.contains(
                        s.waiters[c],
                    ) && keys@.take(i as int).contains(c)),
                forall|c: u32| #[trigger] self.waiters@.contains_key(c) ==> self.waiters@[c] == s.waiters[c],
                forall|c: u32| #[trigger]
                    self.answers@.contains_key(c) <==> old_answers.contains_key(c) || (
                    s.waiters.contains_key(c) && eps.contains(s.waiters[c]) && keys@.take(
                        i as int,
                    ).contains(c)),
                forall|c: u32| #[trigger]
                    self.answers@.contains_key(c) ==> self.answers@[c] == (if s.waiters.contains_key(c)
                        && eps.contains(s.waiters[c]) && keys@.take(i as int).contains(c) {
                        Err::<CallResult, FabError>(FabError::Closed(cause))
                    } else {
                        old_answers[c]
                    }),
            decreases keys@.len() - i,
        {
            let c: u32 = keys[i];
            proof {
                assert(keys@.contains(c));
                assert(!keys@.take(i as int).contains(c)) by {
                    if keys@.take(i as int).contains(c) {
                        let j = keys@.take(i as int).index_of(c);
                        assert(keys@[j].code() < keys@[i as int].code());
                    }
                }
                assert forall|k: u32| keys@.take(i + 1).contains(k) <==> keys@.take(i as int).contains(k)
                    || k == c by {
                    let a = keys@.take(i as int);
                    let b = keys@.take(i + 1);
                    if a.contains(k) {
                        assert(b[a.index_of(k)] == k);
                    }
                    if k == c {
                        assert(b[i as int] == k);
                    }
                    if b.contains(k) && k != c {
                        assert(a[b.index_of(k)] == k);
                    }
                }
            }
            let hit = match self.waiters.get(c) {
                Some(ep) => match only {
                    Some(e) => *ep == e,
                    None => self.is_live(*ep),
                },
                None => false,
            };
            if hit {
                let _ = self.waiters.remove(c);
                self.answers.insert(c, Err(FabError::Closed(cause)));
            }
            i = i + 1;
        }
        proof {
            assert(keys@.take(i as int) =~= keys@);
            assert(self@.waiters =~= without_calls(s.waiters, eps));
            assert(self@.answers =~= with_closed(s.answers, s.waiters, eps, cause));
        }
    }

    /// Marks a live endpoint as failed and answers the calls that wait on it.
    fn fail_handle(&mut self, ep: EpId, cause: Cause) -> (r: bool)
        requires
            old(self).wf(),
        ensures
            final(self).wf(),
            r == old(self)@.is_live(ep),
            final(self)@ == fail_handle(old(self)@, ep, cause),
    {
        let partner = match self.handles.get(ep) {
            Some(h) => {
                if h.cause.is_some() {
                    return false;
                }
                h.partner
            },
            None => {
                return false;
            },
        };
        self.handles.insert(ep, Handle { partner, cause: Some(cause) });
        self.close_calls(Some(ep), cause);
        assert(self@ =~= fail_handle(old(self)@, ep, cause));
        true
    }

    /// The fabric is gone: every live endpoint fails, and nothing more is
    /// queued.
    pub fn go_terminal(&mut self, cause: Cause)
        requires
            old(self).wf(),
        ensures
            final(self).wf(),
            final(self)@ == shut(old(self)@, cause),
    {
        let ghost s = self@;
        if self.terminal.is_none() {
            self.close_calls(None, cause);
            self.terminal = Some(cause);
            let keys = self.handles.keys();
            let ghost mid = self@;
            let mut i: usize = 0;
            while i < keys.len()
                invariant
                    i <= keys@.len(),
                    self.wf(),
                    lists_keys(keys@, s.handles.dom()),
                    mid.handles == s.handles,
                    self@ == (PeerView { handles: self@.handles, ..mid }),
                    forall|ep: EpId| #[trigger] self.handles@.contains_key(ep) <==> s.handles.contains_key(ep),
                    forall|ep: EpId| #[trigger]
                        self.handles@.contains_key(ep) ==> self.handles@[ep] == (if keys@.take(
                            i as int,
                        ).contains(ep) && s.handles[ep].cause is None {
                            Handle { cause: Some(cause), ..s.handles[ep] }
                        } else {
                            s.handles[ep]
                        }),
                decreases keys@.len() - i,
            {
                let ep = keys[i];
                proof {
                    assert(keys@.contains(ep));
                    let a = keys@.take(i as int);
                    let b = keys@.take(i + 1);
                    assert(!a.contains(ep)) by {
                        if a.contains(ep) {
                            let j = a.index_of(ep);
                            assert(keys@[j].code() < keys@[i as int].code());
                        }
                    }
                    assert forall|k: EpId| b.contains(k) <==> a.contains(k) || k == ep by {
                        if a.contains(k) {
                            assert(b[a.index_of(k)] == k);
                        }
                        if k == ep {
                            assert(b[i as int] == k);
                        }
                        if b.contains(k) && k != ep {
                            assert(a[b.index_of(k)] == k);
                        }
                    }
                }
                let found = match self.handles.get(ep) {
                    Some(h) => Some(*h),
                    None => None,
                };
                if let Some(h) = found {
                    if h.cause.is_none() {
                        self.handles.insert(ep, Handle { partner: h.partner, cause: Some(cause) });
                    }
                }
                i = i + 1;
            }
            assert(keys@.take(i as int) =~= keys@);
        }
        let ghost before = self@;
        self.out.close();
        self.inbound.close();
        assert(self@ =~= shut(s, cause));
    }

    /// Gives an endpoint up: tells the host, fails the endpoint, and stops
    /// receiving on it.
    fn release(&mut self, ep: EpId) -> (r: Result<(), FabError>)
        requires
            old(self).wf(),
        ensures
            final(self).wf(),
            final(self)@ == release(old(self)@, ep),
            match emit_error(old(self)@, FrameView::Close { target: ep }) {
                Some(e) => r == Err::<(), FabError>(e),
                None => r is Ok,
            },
    {
        let res = self.push_out(Frame::Close { target: ep });
        let _ = self.fail_handle(ep, Cause::Graceful);
        let partner = match self.handles.get(ep) {
            Some(h) => Some(h.partner),
            None => None,
        };
        if let Some(p) = partner {
            let _ = self.theirs.remove(p);
        }
        assert(self@ =~= release(old(self)@, ep));
        res
    }

    /// Gives these endpoints up.
    fn release_all(&mut self, eps: &Vec<Endpoint>)
        requires
            old(self).wf(),
        ensures
            final(self).wf(),
            final(self)@ == release_all(old(self)@, ids(eps@)),
    {
        let ghost list = ids(eps@);
        let mut i: usize = 0;
        assert(list.take(0) =~= Seq::<EpId>::empty());
        while i < eps.len()
            invariant
                i <= eps@.len(),
                self.wf(),
                list == ids(eps@),
                self@ == release_all(old(self)@, list.take(i as int)),
            decreases eps@.len() - i,
        {
            assert(list.take(i + 1).drop_last() =~= list.take(i as int));
            let _ = self.release(eps[i].id);
            i = i + 1;
        }
        assert(list.take(i as int) =~= list);
    }

    fn drop_one(&mut self)
        requires
            old(self).wf(),
        ensures
            final(self).wf(),
            final(self)@ == old(self)@.drop_one(),
    {
        self.dropped = bump_u64(self.dropped);
        assert(self@ =~= old(self)@.drop_one());
    }

    /// A message is lost with the endpoints in it.
    fn lose(&mut self, item: Inbound, counted: bool)
        requires
            old(self).wf(),
        ensures
            final(self).wf(),
            final(self)@ == lose(old(self)@, item@, counted),
    {
        if counted {
            self.drop_one();
        }
        self.release_all(&item.received);
    }

    /// Queues a message for the application.
    fn deliver(&mut self, item: Inbound, counted: bool)
        requires
            old(self).wf(),
        ensures
            final(self).wf(),
            final(self)@ == deliver(old(self)@, item@, counted),
    {
        let cost: usize = item.payload.len().saturating_add(INBOUND_COST_OVERHEAD);
        proof {
            lemma_seen_cost(self.inbound@);
            lemma_seen_moves(self.inbound@, item, cost);
            assert(cost == inbound_cost(item@));
        }
        let ghost view = item@;
        let mut item = item;
        if self.stalled.len() == 0 {
            match self.inbound.try_push(item, cost) {
                Ok(()) => {
                    assert(self@ =~= deliver(old(self)@, view, counted));
                    return;
                },
                Err((back, _)) => {
                    item = back;
                    assert(self@ =~= old(self)@);
                },
            }
        }
        if self.terminal.is_some() {
            self.lose(item, counted);
        } else {
            self.stalled.push_back(Stalled { item, counted });
            assert(self@ =~= deliver(old(self)@, view, counted));
        }
    }

    /// One more try with the oldest message that waits for room in the
    /// inbound queue. True if none waits any more. While one waits, the
    /// reader processes no further frame.
    pub fn retry_delivery(&mut self) -> (r: bool)
        requires
            old(self).wf(),
        ensures
            final(self).wf(),
            final(self)@ == crate::peer_model::retry(old(self)@),
            r == (final(self)@.stalled.len() == 0),
    {
        match self.stalled.pop_front() {
            None => {
                assert(self@ =~= old(self)@);
                true
            },
            Some(front) => {
                let Stalled { item, counted } = front;
                let cost: usize = item.payload.len().saturating_add(INBOUND_COST_OVERHEAD);
                let ghost rest = self@;
                proof {
                    lemma_seen_cost(self.inbound@);
                    lemma_seen_moves(self.inbound@, item, cost);
                    assert(cost == inbound_cost(item@));
                    assert(old(self)@.stalled[0] == front@);
                    assert(rest =~= PeerView { stalled: old(self)@.stalled.skip(1), ..old(self)@ });
                }
                let ghost view = item@;
                match self.inbound.try_push(item, cost) {
                    Ok(()) => {
                        assert(self@ =~= crate::peer_model::retry(old(self)@));
                    },
                    Err((back, _)) => {
                        assert(self@ =~= rest);
                        if self.terminal.is_some() {
                            self.lose(back, counted);
                            proof {
                                lemma_lose_stalled(rest, view, counted);
                            }
                        } else {
                            self.stalled.push_front(Stalled { item: back, counted });
                            assert(self@.stalled =~= old(self)@.stalled);
                            assert(self@ =~= old(self)@);
                        }
                    },
                }
                self.stalled.len() == 0
            },
        }
    }
}

// --------------------------------------------------------------- receiving --

/// Is the transfer in the list?
fn lists(v: &Vec<TransferId>, tid: TransferId) -> (r: bool)
    ensures
        r == v@.contains(tid),
{
    let mut i: usize = 0;
    while i < v.len()
        invariant
            i <= v@.len(),
            forall|k: int| 0 <= k < i ==> v@[k] != tid,
        decreases v@.len() - i,
    {
        if v[i] == tid {
            assert(v@[i as int] == tid);
            return true;
        }
        i = i + 1;
    }
    false
}

/// The list without a transfer.
fn without(v: &Vec<TransferId>, tid: TransferId) -> (r: Vec<TransferId>)
    ensures
        r@ == struck(v@, tid),
{
    let mut r: Vec<TransferId> = Vec::new();
    let mut i: usize = 0;
    proof {
        reveal(Seq::filter);
        assert(v@.take(0) =~= Seq::<TransferId>::empty());
    }
    while i < v.len()
        invariant
            i <= v@.len(),
            r@ == struck(v@.take(i as int), tid),
        decreases v@.len() - i,
    {
        proof {
            reveal(Seq::filter);
            assert(v@.take(i + 1).drop_last() =~= v@.take(i as int));
        }
        if v[i] != tid {
            r.push(v[i]);
        }
        i = i + 1;
    }
    assert(v@.take(i as int) =~= v@);
    r
}

/// The views of parked messages.
spec fn parked_views(q: Seq<Parked>) -> Seq<ParkedView> {
    q.map_values(|p: Parked| p@)
}

/// Taking the oldest message away takes its view away.
proof fn lemma_parked_tail(q: Seq<Parked>)
    requires
        q.len() > 0,
    ensures
        parked_views(q.skip(1)) == parked_views(q).skip(1),
        parked_views(q.subrange(1, q.len() as int)) == parked_views(q).skip(1),
{
    assert(q.subrange(1, q.len() as int) =~= q.skip(1));
    assert(parked_views(q.skip(1)) =~= parked_views(q).skip(1));
}

/// Strikes a decided transfer from the parked messages; hands out those that
/// wait no more.
fn settle_parked(parked: &mut VecDeque<Parked>, tid: TransferId, got: Option<EpId>) -> (done: VecDeque<
    Parked,
>)
    ensures
        (parked_views(final(parked)@), parked_views(done@)) == settle(
            parked_views(old(parked)@),
            tid,
            got,
        ),
{
    let mut done: VecDeque<Parked> = VecDeque::new();
    let ghost all = parked_views(parked@);
    let n: usize = parked.len();
    let mut i: usize = 0;
    proof {
        assert(all.take(0) =~= Seq::<ParkedView>::empty());
        assert(parked_views(parked@) =~= all.skip(0) + Seq::<ParkedView>::empty());
        assert(parked_views(done@) =~= Seq::<ParkedView>::empty());
    }
    while i < n
        invariant
            i <= n,
            n == all.len(),
            parked_views(parked@) == all.skip(i as int) + settle(all.take(i as int), tid, got).0,
            parked_views(done@) == settle(all.take(i as int), tid, got).1,
        decreases n - i,
    {
        let ghost before = parked@;
        let ghost (rest, over) = settle(all.take(i as int), tid, got);
        proof {
            assert(all.take(i + 1).drop_last() =~= all.take(i as int));
            assert(all.take(i + 1).last() == all[i as int]);
            assert(parked_views(before).len() > 0);
            assert(parked_views(before)[0] == all[i as int]);
        }
        if let Some(mut p) = parked.pop_front() {
            let ghost pv = p@;
            proof {
                lemma_parked_tail(before);
                assert(parked_views(before).skip(1) =~= all.skip(i + 1) + rest);
                assert(parked@ =~= before.skip(1));
                assert(pv == parked_views(before)[0]);
            }
            if lists(&p.remaining, tid) {
                let ghost g = p.got@;
                p.remaining = without(&p.remaining, tid);
                if let Some(e) = got {
                    p.got.push(Endpoint { id: e });
                    assert(ids(p.got@) =~= ids(g).push(e));
                }
                assert(p@.remaining == strike(pv, tid, got).remaining);
                assert(p@.got == strike(pv, tid, got).got);
                assert(p@ =~= strike(pv, tid, got));
                if p.remaining.len() == 0 {
                    let ghost d = done@;
                    done.push_back(p);
                    assert(parked_views(done@) =~= parked_views(d).push(p@));
                } else {
                    let ghost q = parked@;
                    parked.push_back(p);
                    assert(parked_views(parked@) =~= parked_views(q).push(p@));
                    assert(parked_views(parked@) =~= all.skip(i + 1) + rest.push(p@));
                }
            } else {
                let ghost q = parked@;
                parked.push_back(p);
                assert(parked_views(parked@) =~= parked_views(q).push(p@));
                assert(parked_views(parked@) =~= all.skip(i + 1) + rest.push(p@));
            }
        }
        i = i + 1;
    }
    proof {
        assert(all.take(i as int) =~= all);
        assert(all.skip(i as int) =~= Seq::<ParkedView>::empty());
        let (rest, over) = settle(all, tid, got);
        assert(parked_views(parked@) =~= rest);
    }
    done
}

impl Runtime {
    /// Answers a call.
    fn answer(&mut self, corr: u32, a: Result<CallResult, FabError>)
        requires
            old(self).wf(),
        ensures
            final(self).wf(),
            final(self)@ == old(self)@.answer(corr, answered(a)),
    {
        let _ = self.waiters.remove(corr);
        self.answers.insert(corr, a);
        assert(self@ =~= old(self)@.answer(corr, answered(a)));
    }

    /// Files a handle, unless it is known already.
    fn with_handle(&mut self, ep: EpId, partner: EpId)
        requires
            old(self).wf(),
        ensures
            final(self).wf(),
            final(self)@ == old(self)@.with_handle(ep, partner),
    {
        if !self.handles.contains_key(ep) {
            self.handles.insert(ep, Handle { partner, cause: None });
            self.arrivals.push(ep);
        }
        assert(self@ =~= old(self)@.with_handle(ep, partner));
    }

    /// A parked message has all its endpoints.
    fn finish(&mut self, p: Parked)
        requires
            old(self).wf(),
        ensures
            final(self).wf(),
            final(self)@ == finish(old(self)@, p@),
    {
        let Parked { from, local, corr, payload, remaining: _, got, is_response } = p;
        if is_response {
            if self.waiters.contains_key(corr) {
                self.answer(
                    corr,
                    Ok(
                        CallResult {
                            payload,
                            received: got,
                            received_native: None,
                            received_shared: None,
                        },
                    ),
                );
            } else {
                self.release_all(&got);
            }
        } else {
            self.deliver(
                Inbound {
                    from,
                    local,
                    corr,
                    payload,
                    received: got,
                    received_native: None,
                    received_shared: None,
                },
                false,
            );
        }
    }

    /// Parked messages have all their endpoints.
    fn finish_all(&mut self, done: VecDeque<Parked>)
        requires
            old(self).wf(),
        ensures
            final(self).wf(),
            final(self)@ == finish_all(old(self)@, parked_views(done@)),
    {
        let ghost list = parked_views(done@);
        let mut left = done;
        let n: usize = left.len();
        let mut i: usize = 0;
        proof {
            assert(list.take(0) =~= Seq::<ParkedView>::empty());
            assert(parked_views(left@) =~= list.skip(0));
        }
        while i < n
            invariant
                i <= n,
                n == list.len(),
                self.wf(),
                parked_views(left@) == list.skip(i as int),
                self@ == finish_all(old(self)@, list.take(i as int)),
            decreases n - i,
        {
            proof {
                assert(list.take(i + 1).drop_last() =~= list.take(i as int));
                assert(parked_views(left@).len() == list.len() - i);
                assert(parked_views(left@)[0] == list[i as int]);
                lemma_parked_tail(left@);
                assert(list.skip(i as int).skip(1) =~= list.skip(i + 1));
            }
            let ghost before = left@;
            if let Some(p) = left.pop_front() {
                assert(left@ =~= before.skip(1));
                self.finish(p);
            }
            i = i + 1;
        }
        assert(list.take(i as int) =~= list);
    }

    /// Parked messages are lost with their endpoints.
    fn discard_all(&mut self, done: &VecDeque<Parked>)
        requires
            old(self).wf(),
        ensures
            final(self).wf(),
            final(self)@ == discard_all(old(self)@, parked_views(done@)),
    {
        let ghost list = parked_views(done@);
        let mut i: usize = 0;
        assert(list.take(0) =~= Seq::<ParkedView>::empty());
        while i < done.len()
            invariant
                i <= done@.len(),
                list == parked_views(done@),
                self.wf(),
                self@ == discard_all(old(self)@, list.take(i as int)),
            decreases done@.len() - i,
        {
            assert(list.take(i + 1).drop_last() =~= list.take(i as int));
            self.release_all(&done[i].got);
            i = i + 1;
        }
        assert(list.take(i as int) =~= list);
    }

    /// The calls that lost messages would have answered fail.
    fn fail_calls(&mut self, done: &VecDeque<Parked>)
        requires
            old(self).wf(),
        ensures
            final(self).wf(),
            final(self)@ == fail_calls(old(self)@, parked_views(done@)),
    {
        let ghost list = parked_views(done@);
        let mut i: usize = 0;
        assert(list.take(0) =~= Seq::<ParkedView>::empty());
        while i < done.len()
            invariant
                i <= done@.len(),
                list == parked_views(done@),
                self.wf(),
                self@ == fail_calls(old(self)@, list.take(i as int)),
            decreases done@.len() - i,
        {
            assert(list.take(i + 1).drop_last() =~= list.take(i as int));
            if done[i].is_response && self.waiters.contains_key(done[i].corr) {
                self.answer(
                    done[i].corr,
                    Err(FabError::TransferAborted("recipient rejected")),
                );
            }
            i = i + 1;
        }
        assert(list.take(i as int) =~= list);
    }

    /// A transfer out of here was decided.
    fn decide(&mut self, tid: TransferId, how: XferLocal) -> (r: bool)
        requires
            old(self).wf(),
        ensures
            final(self).wf(),
            r == old(self)@.xfer_wait.contains_key(tid),
            final(self)@ == decide(old(self)@, tid, how),
    {
        let r = self.xfer_wait.remove(tid).is_some();
        if r {
            self.xfer_done.insert(tid, how);
        }
        assert(self@ =~= decide(old(self)@, tid, how));
        r
    }

    /// A transfer to here was committed.
    fn on_commit(&mut self, tid: TransferId, ep: EpId, partner: EpId)
        requires
            old(self).wf(),
        ensures
            final(self).wf(),
            final(self)@ == on_commit(old(self)@, tid, ep, partner),
    {
        let ghost s = self@;
        let _ = self.offers.remove(tid);
        assert(self@ =~= PeerView { offers: s.offers.remove(tid), ..s });
        self.with_handle(ep, partner);
        let ghost held = self@;
        self.theirs.insert(partner, ep);
        let ghost known = self@;
        assert(known =~= PeerView { theirs: held.theirs.insert(partner, ep), ..held });
        let _ = self.decide(tid, XferLocal::Committed);
        let ghost decided = self@;
        let done = settle_parked(&mut self.parked, tid, Some(ep));
        assert(self@ =~= PeerView { parked: settle(s.parked, tid, Some(ep)).0, ..decided });
        self.finish_all(done);
        // Acknowledged so that the host can retire the result.
        let _ = self.push_out(Frame::Xfer(XferMsg::ResultAck { tid }));
    }

    /// A transfer was called off.
    fn on_abort(&mut self, tid: TransferId)
        requires
            old(self).wf(),
        ensures
            final(self).wf(),
            final(self)@ == on_abort(old(self)@, tid),
    {
        let ghost s = self@;
        let acked = self.decide(tid, XferLocal::Aborted);
        let ghost decided = self@;
        let _ = self.offers.remove(tid);
        let done = settle_parked(&mut self.parked, tid, None);
        assert(self@ =~= PeerView {
            offers: s.offers.remove(tid),
            parked: settle(s.parked, tid, None).0,
            ..decided
        });
        self.discard_all(&done);
        self.fail_calls(&done);
        if acked {
            let _ = self.push_out(Frame::Xfer(XferMsg::ResultAck { tid }));
        }
    }

    /// The host says how a transfer stands.
    fn on_status(&mut self, tid: TransferId, status: u8)
        requires
            old(self).wf(),
        ensures
            final(self).wf(),
            final(self)@ == on_status(old(self)@, tid, status),
    {
        let ghost s = self@;
        match status {
            XFER_ST_COMMITTED => {
                let _ = self.decide(tid, XferLocal::Committed);
            },
            XFER_ST_ABORTED => {
                let _ = self.decide(tid, XferLocal::Aborted);
            },
            _ => {
                let _ = self.xfer_wait.remove(tid);
                assert(self@ =~= PeerView { xfer_wait: s.xfer_wait.remove(tid), ..s });
            },
        }
        let ghost a = self@;
        if self.status_wait.remove(tid).is_some() {
            self.status_done.insert(tid, status);
        }
        assert(self@ =~= on_status(s, tid, status));
    }

    /// A step of a transfer transaction arrives.
    fn process_xfer(&mut self, x: XferMsg)
        requires
            old(self).wf(),
        ensures
            final(self).wf(),
            final(self)@ == on_xfer(old(self)@, x),
    {
        match x {
            XferMsg::Commit { tid, ep, partner } => self.on_commit(tid, ep, partner),
            XferMsg::Committed { tid } => {
                if self.decide(tid, XferLocal::Committed) {
                    let _ = self.push_out(Frame::Xfer(XferMsg::ResultAck { tid }));
                }
            },
            XferMsg::Abort { tid } => self.on_abort(tid),
            XferMsg::StatusAck { tid, status } => self.on_status(tid, status),
            XferMsg::Accept { .. }
            | XferMsg::Reject { .. }
            | XferMsg::Status { .. }
            | XferMsg::ResultAck { .. }
            | XferMsg::NativeCommit { .. }
            | XferMsg::NativeAbort { .. }
            | XferMsg::SharedCommit { .. }
            | XferMsg::SharedAbort { .. } => {},
        }
    }

    /// The handle that a message reaches.
    fn local_of(&self, target: EpId) -> (r: Option<EpId>)
        ensures
            r == (if self@.theirs.contains_key(target) {
                Some(self@.theirs[target])
            } else {
                None
            }),
    {
        match self.theirs.get(target) {
            Some(l) => Some(*l),
            None => None,
        }
    }

    /// Does a message answer a call that waits on the endpoint it reaches?
    fn answers_call(&self, d: &DataInner) -> (r: bool)
        ensures
            r == answers_call(self@, d@),
    {
        if d.corr == 0 {
            return false;
        }
        match self.waiters.get(d.corr) {
            Some(ep) => match self.theirs.get(d.target) {
                Some(local) => *ep == *local,
                None => false,
            },
            None => false,
        }
    }

    /// Accepts each offer, or refuses each.
    fn reply_offers(&mut self, atts: &Vec<Attachment>, accept: bool)
        requires
            old(self).wf(),
        ensures
            final(self).wf(),
            final(self)@ == reply_offers(old(self)@, atts@, accept),
    {
        let mut i: usize = 0;
        assert(atts@.take(0) =~= Seq::<Attachment>::empty());
        while i < atts.len()
            invariant
                i <= atts@.len(),
                self.wf(),
                self@ == reply_offers(old(self)@, atts@.take(i as int), accept),
            decreases atts@.len() - i,
        {
            assert(atts@.take(i + 1).drop_last() =~= atts@.take(i as int));
            let tid = atts[i].tid;
            let msg = if accept {
                XferMsg::Accept { tid }
            } else {
                XferMsg::Reject { tid }
            };
            let _ = self.push_out(Frame::Xfer(msg));
            i = i + 1;
        }
        assert(atts@.take(i as int) =~= atts@);
    }

    /// A message with endpoints arrives.
    fn on_offers(&mut self, d: DataInner)
        requires
            old(self).wf(),
        ensures
            final(self).wf(),
            final(self)@ == on_offers(old(self)@, d@),
    {
        let ghost s = self@;
        let live: usize = self.live_count();
        let n: usize = d.attachments.len();
        let is_response = self.answers_call(&d);
        let max: usize = self.lim.max_live_endpoints;
        if live > max || n > max - live || self.terminal.is_some() {
            self.reply_offers(&d.attachments, false);
            if is_response {
                self.answer(d.corr, Err(FabError::TransferAborted("recipient at capacity")));
            }
            return;
        }
        let local = self.local_of(d.target);
        self.reply_offers(&d.attachments, true);
        let ghost accepted = self@;
        let local = match local {
            Some(l) => l,
            None => {
                self.drop_one();
                return;
            },
        };
        let remaining = tids_of(&d.attachments);
        let p = Parked {
            from: d.target,
            local,
            corr: d.corr,
            payload: d.payload,
            remaining,
            got: Vec::new(),
            is_response,
        };
        proof {
            assert(ids(p.got@) =~= Seq::<EpId>::empty());
        }
        let ghost pv = p@;
        self.parked.push_back(p);
        assert(self@.parked =~= accepted.parked.push(pv));
        assert(self@ =~= on_offers(s, d@));
    }

    /// A message arrives. One that offers endpoints is not delivered at the
    /// offer: its offers are answered, and it is parked until each of its
    /// transfers is committed, or refused and not kept.
    pub fn process_data(&mut self, d: DataInner)
        requires
            old(self).wf(),
        ensures
            final(self).wf(),
            final(self)@ == on_data(old(self)@, d@),
            d@.attachments.len() > 0 ==> {
                let s = old(self)@;
                let n = final(self)@;
                &&& given_out(n) == given_out(s)
                &&& forall|corr: u32| !#[trigger] newly_answered(s, n, corr)
                &&& can_queue(s, d@.attachments.len()) ==> outgoing(n) == outgoing(s)
                    + offer_replies(d@.attachments, has_room(s, d@))
                &&& n.parked == (if has_room(s, d@) && s.theirs.contains_key(d@.target) {
                    s.parked.push(held_back(s, d@))
                } else {
                    s.parked
                })
            },
    {
        proof {
            if d@.attachments.len() > 0 {
                assert forall|corr: u32| !#[trigger] newly_answered(self@, on_data(self@, d@), corr) by {
                    law_offers_wait_for_their_commits(self@, d@, corr, Seq::empty());
                }
                law_offers_wait_for_their_commits(self@, d@, 0, Seq::empty());
            }
        }
        if d.attachments.len() > 0 {
            return self.on_offers(d);
        }
        let local = match self.local_of(d.target) {
            Some(l) => l,
            None => {
                self.drop_one();
                return;
            },
        };
        if let Some(h) = self.handles.get(local) {
            if h.cause.is_some() {
                // The message raced past the notice of the close.
                self.drop_one();
                return;
            }
        }
        if self.answers_call(&d) {
            let received: Vec<Endpoint> = Vec::new();
            assert(ids(received@) =~= Seq::<EpId>::empty());
            self.answer(
                d.corr,
                Ok(
                    CallResult {
                        payload: d.payload,
                        received,
                        received_native: d.native,
                        received_shared: d.shared,
                    },
                ),
            );
        } else {
            let received: Vec<Endpoint> = Vec::new();
            assert(ids(received@) =~= Seq::<EpId>::empty());
            self.deliver(
                Inbound {
                    from: d.target,
                    local,
                    corr: d.corr,
                    payload: d.payload,
                    received,
                    received_native: d.native,
                    received_shared: d.shared,
                },
                true,
            );
        }
    }

    /// The host says that conversations ended.
    fn on_closed(&mut self, entries: &Vec<(EpId, Cause)>)
        requires
            old(self).wf(),
        ensures
            final(self).wf(),
            final(self)@ == on_closed(old(self)@, entries@),
    {
        let mut i: usize = 0;
        assert(entries@.take(0) =~= Seq::<(EpId, Cause)>::empty());
        while i < entries.len()
            invariant
                i <= entries@.len(),
                self.wf(),
                self@ == on_closed(old(self)@, entries@.take(i as int)),
            decreases entries@.len() - i,
        {
            assert(entries@.take(i + 1).drop_last() =~= entries@.take(i as int));
            let ghost before = self@;
            let (ep, cause) = entries[i];
            if self.fail_handle(ep, cause) {
                let ghost failed = self@;
                let partner = match self.handles.get(ep) {
                    Some(h) => Some(h.partner),
                    None => None,
                };
                if let Some(p) = partner {
                    let _ = self.theirs.remove(p);
                }
                assert(self@ =~= PeerView {
                    theirs: failed.theirs.remove(before.handles[ep].partner),
                    ..failed
                });
            }
            i = i + 1;
        }
        assert(entries@.take(i as int) =~= entries@);
    }

    /// The request for an endpoint pair that is under way has come to an end.
    fn on_created(&mut self, how: CreateOutcome)
        requires
            old(self).wf(),
        ensures
            final(self).wf(),
            final(self)@ == on_created(old(self)@, how),
    {
        if let Some(t) = self.create_wait {
            self.create_wait = None;
            self.created.insert(t, how);
        }
        assert(self@ =~= on_created(old(self)@, how));
    }

    /// Takes a frame from the fabric. False when nothing may be read after it.
    pub fn process(&mut self, f: Frame) -> (r: bool)
        requires
            old(self).wf(),
        ensures
            final(self).wf(),
            (final(self)@, r) == crate::peer_model::process(old(self)@, f@),
    {
        self.received = bump_u64(self.received);
        assert(self@ =~= PeerView { received: bump(old(self)@.received), ..old(self)@ });
        let ghost s = self@;
        match f {
            Frame::Hello { .. } | Frame::Close { .. } => {
                // The host never shakes hands with a child again, and only
                // peers close: this is confusion on the wire.
                self.go_terminal(Cause::PeerLost);
                false
            },
            Frame::Grant { ep, partner, tid } => {
                if self.live_count() < self.lim.max_live_endpoints && self.terminal.is_none() {
                    let _ = self.push_out(Frame::Xfer(XferMsg::Accept { tid }));
                    let ghost accepted = self@;
                    self.offers.insert(tid, (ep, partner));
                    assert(self@ =~= PeerView {
                        offers: accepted.offers.insert(tid, (ep, partner)),
                        ..accepted
                    });
                } else {
                    let _ = self.push_out(Frame::Xfer(XferMsg::Reject { tid }));
                }
                true
            },
            Frame::Data(d) => {
                self.process_data(d);
                true
            },
            Frame::ClosedNotify { entries } => {
                self.on_closed(&entries);
                true
            },
            Frame::Create => true,
            Frame::CreateAck { impl_ep, transferable_ep } => {
                self.on_created(CreateOutcome::Done(impl_ep, transferable_ep));
                true
            },
            Frame::Error(code) => {
                let e = match code {
                    ERR_CAPACITY => FabError::Backpressured { queued_msgs: 0, queued_bytes: 0 },
                    _ => FabError::ProtocolViolation("unknown error code"),
                };
                self.on_created(CreateOutcome::Failed(e));
                true
            },
            Frame::Shutdown => {
                self.go_terminal(Cause::Graceful);
                false
            },
            Frame::Xfer(x) => {
                self.process_xfer(x);
                true
            },
        }
    }
}

/// The transfers that offers run under.
fn tids_of(atts: &Vec<Attachment>) -> (r: Vec<TransferId>)
    ensures
        r@ == atts@.map_values(|a: Attachment| a.tid),
{
    let mut r: Vec<TransferId> = Vec::new();
    let mut i: usize = 0;
    while i < atts.len()
        invariant
            i <= atts@.len(),
            r@ == atts@.take(i as int).map_values(|a: Attachment| a.tid),
        decreases atts@.len() - i,
    {
        r.push(atts[i].tid);
        assert(r@ =~= atts@.take(i + 1).map_values(|a: Attachment| a.tid));
        i = i + 1;
    }
    assert(atts@.take(i as int) =~= atts@);
    r
}

// --------------------------------------------------------------- application --

/// A reply whose transfers are not all decided.
#[derive(Debug)]
pub struct Reply {
    slots: Vec<(TransferId, EpId, EpId)>,
    at: usize,
    aborted: Vec<Endpoint>,
    deadline: u64,
    ask: Ask,
}

impl View for Reply {
    type V = ReplyView;

    closed spec fn view(&self) -> ReplyView {
        ReplyView {
            slots: self.slots@,
            at: self.at as nat,
            aborted: ids(self.aborted@),
            deadline: self.deadline,
            ask: self.ask,
        }
    }
}

/// What one look at a reply came to.
#[derive(Debug)]
pub enum ReplyTurn {
    /// Look again at once.
    Again(Reply),
    /// Look again after so many milliseconds, or when woken.
    Wait(Reply, u64),
    Done(Result<TransferOutcome, FabError>),
}

impl View for TransferOutcome {
    type V = OutcomeView;

    open spec fn view(&self) -> OutcomeView {
        match *self {
            TransferOutcome::Committed => OutcomeView::Committed,
            TransferOutcome::Aborted(eps) => OutcomeView::Aborted(ids(eps@)),
            TransferOutcome::AuthorityLost(c) => OutcomeView::AuthorityLost(c),
        }
    }
}

impl View for ReplyTurn {
    type V = TurnView;

    open spec fn view(&self) -> TurnView {
        match *self {
            ReplyTurn::Again(r) => TurnView::Again(r@),
            ReplyTurn::Wait(r, n) => TurnView::Wait(r@, n),
            ReplyTurn::Done(Ok(o)) => TurnView::Done(Ok(o@)),
            ReplyTurn::Done(Err(e)) => TurnView::Done(Err(e)),
        }
    }
}

impl Endpoint {
    /// The endpoint's identity.
    pub fn id(&self) -> (r: EpId)
        ensures
            r == self@,
    {
        self.id
    }

    /// Begins a call of the other side: gives its number. What it comes to is
    /// then asked of the runtime.
    pub fn call(&self, rt: &mut Runtime, payload: Vec<u8>) -> (r: Result<u32, FabError>)
        requires
            old(rt).wf(),
            old(rt)@.next_corr < u32::MAX,
        ensures
            final(rt).wf(),
            (final(rt)@, r) == crate::peer_model::call(old(rt)@, self@, payload@),
    {
        rt.call(self.id, payload)
    }

    /// Destroys this end deliberately. Consumes the authority.
    pub fn close(self, rt: &mut Runtime) -> (r: Result<(), FabError>)
        requires
            old(rt).wf(),
        ensures
            final(rt).wf(),
            final(rt)@ == release(old(rt)@, self@),
            match emit_error(old(rt)@, FrameView::Close { target: self@ }) {
                Some(e) => r == Err::<(), FabError>(e),
                None => r is Ok,
            },
    {
        rt.release(self.id)
    }
}

/// How long until the deadline.
fn left(now: u64, deadline: u64) -> (r: u64)
    requires
        now < deadline,
    ensures
        r == deadline - now,
{
    deadline - now
}

fn later_u64(now: u64, millis: u64) -> (r: u64)
    ensures
        r == later(now, millis),
{
    now.saturating_add(millis)
}

/// A message with nothing but a payload.
fn plain_frame(target: EpId, corr: u32, payload: Vec<u8>) -> (f: Frame)
    ensures
        f@ == plain(target, corr, payload@),
{
    let attachments: Vec<Attachment> = Vec::new();
    assert(attachments@ =~= Seq::<Attachment>::empty());
    Frame::Data(DataInner { target, corr, attachments, payload, native: None, shared: None })
}

impl Runtime {
    /// The frame that opens the connection.
    pub fn greeting(&self) -> (f: Frame)
        ensures
            f@ == (FrameView::Hello {
                magic: self@.lim.hello_magic,
                version: self@.lim.hello_version,
            }),
    {
        Frame::Hello { magic: self.lim.hello_magic, version: self.lim.hello_version }
    }

    /// What the writer does next.
    pub fn pop_out(&mut self) -> (r: Outgoing)
        requires
            old(self).wf(),
        ensures
            final(self).wf(),
            if old(self)@.terminal is None && old(self)@.out.items.len() > 0 {
                r is Send && r->Send_0@ == old(self)@.out.items[0].0 && final(self)@ == (PeerView {
                    out: old(self)@.out.popped(),
                    ..old(self)@
                })
            } else {
                final(self)@ == old(self)@ && (if old(self)@.terminal is Some || old(
                    self,
                )@.out.closed {
                    r is End
                } else {
                    r is Wait
                })
            },
    {
        if self.terminal.is_some() {
            return Outgoing::End;
        }
        let ghost q = self.out@;
        match self.out.pop_deadline(0, 1) {
            Ok(Popped::Item(f)) => {
                proof {
                    lemma_seen_moves(q, f, 0);
                    assert(self@ =~= PeerView { out: old(self)@.out.popped(), ..old(self)@ });
                }
                Outgoing::Send(f)
            },
            Ok(Popped::Wait(_)) => {
                assert(self@ =~= old(self)@);
                Outgoing::Wait
            },
            Err(_) => {
                assert(self@ =~= old(self)@);
                Outgoing::End
            },
        }
    }

    /// A message for an endpoint held here.
    pub fn wait_inbound(&mut self, now: u64, deadline: u64) -> (r: Result<Polled<Inbound>, FabError>)
        requires
            old(self).wf(),
        ensures
            final(self).wf(),
            if old(self)@.inbound.items.len() > 0 {
                r is Ok && r->Ok_0 is Ready && r->Ok_0->Ready_0@ == old(self)@.inbound.items[0].0
                    && final(self)@ == (PeerView {
                    inbound: old(self)@.inbound.popped(),
                    ..old(self)@
                })
            } else {
                final(self)@ == old(self)@ && r == (if old(self)@.inbound.closed {
                    Err::<Polled<Inbound>, FabError>(FabError::FabricLost)
                } else if now >= deadline {
                    Err(FabError::Timeout)
                } else {
                    Ok(Polled::Wait(wait_for(now, deadline)))
                })
            },
    {
        let ghost q = self.inbound@;
        match self.inbound.pop_deadline(now, deadline) {
            Ok(Popped::Item(i)) => {
                proof {
                    lemma_seen_moves(q, i, 0);
                    assert(self@ =~= PeerView { inbound: old(self)@.inbound.popped(), ..old(self)@ });
                }
                Ok(Polled::Ready(i))
            },
            Ok(Popped::Wait(n)) => {
                assert(self@ =~= old(self)@);
                Ok(Polled::Wait(n))
            },
            Err(PopError::Closed) => {
                assert(self@ =~= old(self)@);
                Err(FabError::FabricLost)
            },
            Err(PopError::Timeout) => {
                assert(self@ =~= old(self)@);
                Err(FabError::Timeout)
            },
        }
    }

    /// Can one more call be numbered?
    pub fn can_call(&self) -> (r: bool)
        ensures
            r == (self@.next_corr < u32::MAX),
    {
        self.next_corr < u32::MAX
    }

    fn call(&mut self, ep: EpId, payload: Vec<u8>) -> (r: Result<u32, FabError>)
        requires
            old(self).wf(),
            old(self)@.next_corr < u32::MAX,
        ensures
            final(self).wf(),
            (final(self)@, r) == crate::peer_model::call(old(self)@, ep, payload@),
    {
        let ghost s = self@;
        if let Some(h) = self.handles.get(ep) {
            if let Some(c) = h.cause {
                return Err(FabError::Closed(c));
            }
        }
        if self.terminal.is_some() {
            return Err(FabError::FabricLost);
        }
        let waiting: usize = self.waiters.len();
        if waiting >= self.lim.max_outstanding_requests {
            return Err(FabError::Backpressured { queued_msgs: waiting, queued_bytes: 0 });
        }
        self.next_corr = self.next_corr + 1;
        let corr: u32 = self.next_corr;
        let f = plain_frame(ep, corr, payload);
        let ghost fv = f@;
        let ghost asked = self@;
        assert(asked =~= PeerView { next_corr: corr, ..s });
        let res = self.push_out(f);
        match res {
            Err(e) => {
                assert(self@ =~= asked);
                Err(e)
            },
            Ok(()) => {
                self.waiters.insert(corr, ep);
                assert(self@ =~= emit(
                    PeerView { waiters: asked.waiters.insert(corr, ep), ..asked },
                    fv,
                ));
                Ok(corr)
            },
        }
    }

    /// What a call came to. From the deadline on it is given up.
    pub fn poll_call(&mut self, corr: u32, now: u64, deadline: u64) -> (r: Result<
        Polled<CallResult>,
        FabError,
    >)
        requires
            old(self).wf(),
        ensures
            final(self).wf(),
            ({
                let s = old(self)@;
                if s.answers.contains_key(corr) {
                    final(self)@ == (PeerView {
                        waiters: s.waiters.remove(corr),
                        answers: s.answers.remove(corr),
                        ..s
                    }) && (match s.answers[corr] {
                        Ok(c) => r is Ok && r->Ok_0 is Ready && r->Ok_0->Ready_0@ == c,
                        Err(e) => r == Err::<Polled<CallResult>, FabError>(e),
                    })
                } else if now >= deadline {
                    final(self)@ == (PeerView { waiters: s.waiters.remove(corr), ..s }) && r
                        == Err::<Polled<CallResult>, FabError>(FabError::Timeout)
                } else {
                    final(self)@ == s && r == Ok::<Polled<CallResult>, FabError>(
                        Polled::Wait((deadline - now) as u64),
                    )
                }
            }),
    {
        let ghost s = self@;
        match self.answers.remove(corr) {
            Some(a) => {
                let _ = self.waiters.remove(corr);
                assert(self@ =~= PeerView {
                    waiters: s.waiters.remove(corr),
                    answers: s.answers.remove(corr),
                    ..s
                });
                match a {
                    Ok(c) => Ok(Polled::Ready(c)),
                    Err(e) => Err(e),
                }
            },
            None => {
                assert(self@ =~= s);
                if now >= deadline {
                    let _ = self.waiters.remove(corr);
                    assert(self@ =~= PeerView { waiters: s.waiters.remove(corr), ..s });
                    Err(FabError::Timeout)
                } else {
                    Ok(Polled::Wait(left(now, deadline)))
                }
            },
        }
    }

    /// Asks the fabric for a fresh endpoint pair: gives a ticket for the
    /// outcome.
    pub fn create_endpoint(&mut self) -> (r: Result<u64, FabError>)
        requires
            old(self).wf(),
        ensures
            final(self).wf(),
            (final(self)@, r) == crate::peer_model::create(old(self)@),
    {
        let ghost s = self@;
        if self.terminal.is_some() {
            return Err(FabError::FabricLost);
        }
        if self.create_wait.is_some() {
            return Err(FabError::Backpressured { queued_msgs: 0, queued_bytes: 0 });
        }
        self.tickets = bump_u64(self.tickets);
        let t: u64 = self.tickets;
        let ghost asked = self@;
        assert(asked =~= PeerView { tickets: t, ..s });
        match self.push_out(Frame::Create) {
            Err(e) => {
                assert(self@ =~= asked);
                Err(e)
            },
            Ok(()) => {
                self.create_wait = Some(t);
                assert(self@ =~= emit(
                    PeerView { create_wait: Some(t), ..asked },
                    FrameView::Create,
                ));
                Ok(t)
            },
        }
    }

    /// What a request for an endpoint pair came to: the implementation side
    /// and the transferable side, both held here.
    pub fn poll_create(&mut self, ticket: u64, now: u64, deadline: u64) -> (r: Result<
        Polled<(Endpoint, Endpoint)>,
        FabError,
    >)
        requires
            old(self).wf(),
        ensures
            final(self).wf(),
            ({
                let s = old(self)@;
                let taken = PeerView { created: s.created.remove(ticket), ..s };
                if s.created.contains_key(ticket) {
                    match s.created[ticket] {
                        CreateOutcome::Done(imp, tra) => final(self)@ == adopt_pair(taken, imp, tra)
                            && r is Ok && r->Ok_0 is Ready && r->Ok_0->Ready_0.0@ == imp
                            && r->Ok_0->Ready_0.1@ == tra,
                        CreateOutcome::Failed(e) => final(self)@ == taken && r == Err::<
                            Polled<(Endpoint, Endpoint)>,
                            FabError,
                        >(e),
                    }
                } else if now >= deadline {
                    final(self)@ == (PeerView { create_wait: None, ..s }) && r == Err::<
                        Polled<(Endpoint, Endpoint)>,
                        FabError,
                    >(FabError::Timeout)
                } else {
                    final(self)@ == s && r == Ok::<Polled<(Endpoint, Endpoint)>, FabError>(
                        Polled::Wait((deadline - now) as u64),
                    )
                }
            }),
    {
        let ghost s = self@;
        match self.created.remove(ticket) {
            Some(how) => {
                let ghost taken = self@;
                assert(taken =~= PeerView { created: s.created.remove(ticket), ..s });
                match how {
                    CreateOutcome::Done(imp, tra) => {
                        self.with_handle(imp, tra);
                        self.with_handle(tra, imp);
                        // A message addressed with the partner's identity
                        // reaches the side held here.
                        self.theirs.insert(tra, imp);
                        self.theirs.insert(imp, tra);
                        assert(self@ =~= adopt_pair(taken, imp, tra));
                        Ok(Polled::Ready((Endpoint { id: imp }, Endpoint { id: tra })))
                    },
                    CreateOutcome::Failed(e) => Err(e),
                }
            },
            None => {
                assert(self@ =~= s);
                if now >= deadline {
                    self.create_wait = None;
                    assert(self@ =~= PeerView { create_wait: None, ..s });
                    Err(FabError::Timeout)
                } else {
                    Ok(Polled::Wait(left(now, deadline)))
                }
            },
        }
    }

    /// The first endpoint to arrive that is live and not excluded.
    pub fn next_new_handle(&self, exclude: &[EpId], now: u64, deadline: u64) -> (r: Result<
        Polled<EpId>,
        FabError,
    >)
        requires
            self.wf(),
        ensures
            r == (match first_new(self@, self@.arrivals, exclude@) {
                Some(id) => Ok::<Polled<EpId>, FabError>(Polled::Ready(id)),
                None => if self@.terminal is Some {
                    Err(FabError::FabricLost)
                } else if now >= deadline {
                    Err(FabError::Timeout)
                } else {
                    Ok(Polled::Wait((deadline - now) as u64))
                },
            }),
    {
        let mut i: usize = 0;
        assert(self.arrivals@.skip(0) =~= self.arrivals@);
        while i < self.arrivals.len()
            invariant
                i <= self.arrivals@.len(),
                first_new(self@, self@.arrivals, exclude@) == first_new(
                    self@,
                    self.arrivals@.skip(i as int),
                    exclude@,
                ),
            decreases self.arrivals@.len() - i,
        {
            let id = self.arrivals[i];
            assert(self.arrivals@.skip(i as int).skip(1) =~= self.arrivals@.skip(i + 1));
            if !among(exclude, id) && self.is_live(id) {
                return Ok(Polled::Ready(id));
            }
            i = i + 1;
        }
        if self.terminal.is_some() {
            return Err(FabError::FabricLost);
        }
        if now >= deadline {
            return Err(FabError::Timeout);
        }
        Ok(Polled::Wait(left(now, deadline)))
    }

    /// The live endpoints, in key order.
    pub fn live_handles(&self) -> (r: Vec<EpId>)
        requires
            self.wf(),
        ensures
            r@ == key_list(self@.handles.dom()).filter(
                |ep: EpId| self@.handles[ep].cause is None,
            ),
    {
        let ghost f = |ep: EpId| self@.handles[ep].cause is None;
        let keys = self.handles.keys();
        let mut r: Vec<EpId> = Vec::new();
        let mut i: usize = 0;
        proof {
            reveal(Seq::filter);
            assert(keys@.take(0) =~= Seq::<EpId>::empty());
        }
        while i < keys.len()
            invariant
                i <= keys@.len(),
                lists_keys(keys@, self@.handles.dom()),
                f == (|ep: EpId| self@.handles[ep].cause is None),
                r@ == keys@.take(i as int).filter(f),
            decreases keys@.len() - i,
        {
            proof {
                reveal(Seq::filter);
                assert(keys@.take(i + 1).drop_last() =~= keys@.take(i as int));
                assert(keys@.contains(keys@[i as int]));
            }
            if self.is_live(keys[i]) {
                r.push(keys[i]);
            }
            i = i + 1;
        }
        assert(keys@.take(i as int) =~= keys@);
        r
    }

    /// The handle for an endpoint that is held here already. No source of
    /// authority: there is none unless the runtime records it as live.
    pub fn endpoint_for(&self, id: EpId) -> (r: Option<Endpoint>)
        ensures
            match r {
                Some(e) => self@.is_live(id) && e@ == id,
                None => !self@.is_live(id),
            },
    {
        if self.is_live(id) {
            Some(Endpoint { id })
        } else {
            None
        }
    }

    /// Why the fabric is gone, if it is.
    pub fn fabric_terminal(&self) -> (r: Option<Cause>)
        ensures
            r == self@.terminal,
    {
        self.terminal
    }

    /// State accounting snapshot.
    pub fn accounting(&self) -> (r: PeerAccounting)
        requires
            self.wf(),
        ensures
            r.live_handles == self@.live().len(),
            r.inbound_backlog_msgs == self@.inbound.items.len(),
            r.dropped_after_close == self@.dropped,
            r.sent_frames == self@.sent,
            r.received_frames == self@.received,
            r.terminal == (self@.terminal is Some),
    {
        PeerAccounting {
            live_handles: self.live_count(),
            inbound_backlog_msgs: self.inbound.backlog().msgs,
            dropped_after_close: self.dropped,
            sent_frames: self.sent,
            received_frames: self.received,
            terminal: self.terminal.is_some(),
        }
    }

    /// Announces an orderly goodbye. Once the writer had a moment, the caller
    /// marks everything closed.
    pub fn shutdown(&mut self)
        requires
            old(self).wf(),
        ensures
            final(self).wf(),
            final(self)@ == emit(old(self)@, FrameView::Shutdown),
    {
        let _ = self.push_out(Frame::Shutdown);
    }

    /// Can these endpoints be handed over: is each known, and named once?
    pub fn holds_all(&self, caps: &Vec<Endpoint>) -> (r: bool)
        ensures
            r == can_give(self@, ids(caps@)),
    {
        let ghost list = ids(caps@);
        let mut i: usize = 0;
        while i < caps.len()
            invariant
                i <= caps@.len(),
                list == ids(caps@),
                forall|a: int| 0 <= a < i ==> self@.handles.contains_key(#[trigger] list[a]),
                forall|a: int, b: int| 0 <= a < b < i ==> #[trigger] list[a] != #[trigger] list[b],
            decreases caps@.len() - i,
        {
            let id = caps[i].id;
            assert(list[i as int] == id);
            if !self.handles.contains_key(id) {
                return false;
            }
            let mut j: usize = 0;
            while j < i
                invariant
                    j <= i,
                    i < caps@.len(),
                    list == ids(caps@),
                    id == list[i as int],
                    forall|a: int| 0 <= a < j ==> #[trigger] list[a] != id,
                decreases i - j,
            {
                assert(list[j as int] == caps@[j as int].id);
                if caps[j].id == id {
                    return false;
                }
                j = j + 1;
            }
            i = i + 1;
        }
        true
    }

    /// The cause of the first endpoint in the list that failed.
    fn first_failed(&self, caps: &Vec<Endpoint>) -> (r: Option<Cause>)
        ensures
            r == first_failed(self@, ids(caps@)),
    {
        let ghost list = ids(caps@);
        let mut i: usize = 0;
        assert(list.take(0) =~= Seq::<EpId>::empty());
        while i < caps.len()
            invariant
                i <= caps@.len(),
                list == ids(caps@),
                first_failed(self@, list.take(i as int)) is None,
            decreases caps@.len() - i,
        {
            proof {
                assert(list.take(i + 1).drop_last() =~= list.take(i as int));
                assert(list[i as int] == caps@[i as int].id);
            }
            if let Some(h) = self.handles.get(caps[i].id) {
                if let Some(c) = h.cause {
                    proof {
                        lemma_first_failed_stays(self@, list, i + 1);
                    }
                    return Some(c);
                }
            }
            i = i + 1;
        }
        assert(list.take(i as int) =~= list);
        None
    }

    /// Replies to a request on the handle that received it, under transfers
    /// that were drawn for the endpoints. After this the endpoints are no
    /// longer held here; if one of them failed, nothing is sent and all of
    /// them are closed.
    pub fn reply_with(
        &mut self,
        req: &Inbound,
        payload: Vec<u8>,
        caps: Vec<Endpoint>,
        tids: Vec<TransferId>,
        now: u64,
    ) -> (r: Result<Reply, FabError>)
        requires
            old(self).wf(),
            can_give(old(self)@, ids(caps@)),
            tids@.len() == caps@.len(),
        ensures
            final(self).wf(),
            ({
                let (s2, res) = crate::peer_model::reply(
                    old(self)@,
                    req.local,
                    req.corr,
                    payload@,
                    ids(caps@),
                    tids@,
                );
                final(self)@ == s2 && (match res {
                    Ok(_) => r is Ok && r->Ok_0@ == started(old(self)@, ids(caps@), tids@, now),
                    Err(e) => r == Err::<Reply, FabError>(e),
                })
            }),
    {
        let ghost s = self@;
        let ghost list = ids(caps@);
        if let Some(c) = self.first_failed(&caps) {
            self.release_all(&caps);
            return Err(FabError::Closed(c));
        }
        let mut attachments: Vec<Attachment> = Vec::new();
        let mut slots: Vec<(TransferId, EpId, EpId)> = Vec::new();
        let mut i: usize = 0;
        proof {
            assert(list.take(0) =~= Seq::<EpId>::empty());
            assert(tids@.take(0) =~= Seq::<TransferId>::empty());
        }
        while i < caps.len()
            invariant
                i <= caps@.len(),
                tids@.len() == caps@.len(),
                self.wf(),
                list == ids(caps@),
                can_give(s, list),
                self@ == hand_over(s, list.take(i as int), tids@.take(i as int)),
                attachments@.len() == i,
                slots@.len() == i,
                forall|k: int|
                    0 <= k < i ==> #[trigger] attachments@[k] == (Attachment {
                        tid: tids@[k],
                        id: list[k],
                        partner: s.handles[list[k]].partner,
                    }),
                forall|k: int|
                    0 <= k < i ==> #[trigger] slots@[k] == (
                        tids@[k],
                        list[k],
                        s.handles[list[k]].partner,
                    ),
            decreases caps@.len() - i,
        {
            let id = caps[i].id;
            let tid = tids[i];
            let ghost before = self@;
            proof {
                let a = list.take(i as int);
                assert(list.take(i + 1).drop_last() =~= a);
                assert(tids@.take(i + 1).drop_last() =~= tids@.take(i as int));
                lemma_hand_over(s, a, tids@.take(i as int));
                assert(list[i as int] == id);
                assert(!a.contains(id)) by {
                    if a.contains(id) {
                        let j = a.index_of(id);
                        assert(list[j] == list[i as int]);
                    }
                }
                assert(before.handles.contains_key(id));
            }
            let partner = match self.handles.get(id) {
                Some(h) => h.partner,
                None => id,
            };
            self.xfer_wait.insert(tid, (id, partner));
            let _ = self.handles.remove(id);
            attachments.push(Attachment { tid, id, partner });
            slots.push((tid, id, partner));
            assert(self@ =~= PeerView {
                xfer_wait: before.xfer_wait.insert(tid, (id, partner)),
                handles: before.handles.remove(id),
                ..before
            });
            assert(self@ == hand_over(s, list.take(i + 1), tids@.take(i + 1)));
            i = i + 1;
        }
        proof {
            assert(list.take(i as int) =~= list);
            assert(tids@.take(i as int) =~= tids@);
            assert(attachments@ =~= offers_of(s, list, tids@));
        }
        let f = Frame::Data(
            DataInner {
                target: req.local,
                corr: req.corr,
                attachments,
                payload,
                native: None,
                shared: None,
            },
        );
        match self.push_out(f) {
            Err(e) => Err(e),
            Ok(()) => {
                let r = Reply {
                    slots,
                    at: 0,
                    aborted: Vec::new(),
                    deadline: later_u64(now, REPLY_TIMEOUT_MILLIS),
                    ask: Ask::Idle,
                };
                proof {
                    assert(ids(r.aborted@) =~= Seq::<EpId>::empty());
                    assert(r@ =~= started(s, list, tids@, now));
                }
                Ok(r)
            },
        }
    }

    /// Replies to a request on the handle that received it. After this the
    /// endpoints are no longer held here; if one of them failed, nothing is
    /// sent and all of them are closed. The transfers are drawn from OS
    /// entropy once none has; if that fails, it is the same.
    pub fn reply(&mut self, req: &Inbound, payload: Vec<u8>, caps: Vec<Endpoint>, now: u64) -> (r: Result<
        Reply,
        FabError,
    >)
        requires
            old(self).wf(),
            can_give(old(self)@, ids(caps@)),
        ensures
            final(self).wf(),
            match first_failed(old(self)@, ids(caps@)) {
                Some(c) => r == Err::<Reply, FabError>(FabError::Closed(c)) && final(self)@
                    == release_all(old(self)@, ids(caps@)),
                None => (r == Err::<Reply, FabError>(FabError::NoIdentity) && final(self)@
                    == release_all(old(self)@, ids(caps@)) && caps@.len() > 0) || exists|
                    tids: Seq<TransferId>,
                |
                    drawn(tids) && tids.len() == caps@.len() && ({
                        let (s2, res) = #[trigger] crate::peer_model::reply(
                            old(self)@,
                            req.local,
                            req.corr,
                            payload@,
                            ids(caps@),
                            tids,
                        );
                        final(self)@ == s2 && (match res {
                            Ok(_) => r is Ok && r->Ok_0@ == started(
                                old(self)@,
                                ids(caps@),
                                tids,
                                now,
                            ),
                            Err(e) => r == Err::<Reply, FabError>(e),
                        })
                    }),
            },
    {
        if let Some(c) = self.first_failed(&caps) {
            self.release_all(&caps);
            return Err(FabError::Closed(c));
        }
        let mut tids: Vec<TransferId> = Vec::new();
        while tids.len() < caps.len()
            invariant
                tids@.len() <= caps@.len(),
                drawn(tids@),
                self.wf(),
                *self == *old(self),
                first_failed(self@, ids(caps@)) is None,
            decreases caps@.len() - tids@.len(),
        {
            match fresh_transfer_id(&NoneTaken) {
                Ok(tid) => tids.push(tid),
                Err(_) => {
                    self.release_all(&caps);
                    return Err(FabError::NoIdentity);
                },
            }
        }
        self.reply_with(req, payload, caps, tids, now)
    }

    /// Replies with a native resource, under a transfer that was drawn for
    /// it. Nothing is waited for.
    pub fn reply_native_with(
        &mut self,
        req: &Inbound,
        payload: Vec<u8>,
        native: NativeAttachment,
    ) -> (r: Result<TransferOutcome, FabError>)
        requires
            old(self).wf(),
        ensures
            final(self).wf(),
            ({
                let f = FrameView::Data(
                    DataView {
                        target: req.local,
                        corr: req.corr,
                        attachments: Seq::empty(),
                        payload: payload@,
                        native: Some(native),
                        shared: None,
                    },
                );
                final(self)@ == emit(old(self)@, f) && (match emit_error(old(self)@, f) {
                    Some(e) => r == Err::<TransferOutcome, FabError>(e),
                    None => r == Ok::<TransferOutcome, FabError>(TransferOutcome::Committed),
                })
            }),
    {
        let attachments: Vec<Attachment> = Vec::new();
        assert(attachments@ =~= Seq::<Attachment>::empty());
        match self.push_out(
            Frame::Data(
                DataInner {
                    target: req.local,
                    corr: req.corr,
                    attachments,
                    payload,
                    native: Some(native),
                    shared: None,
                },
            ),
        ) {
            Ok(()) => Ok(TransferOutcome::Committed),
            Err(e) => Err(e),
        }
    }

    /// Replies with a native resource, known by its identity and by its value
    /// in this process, or with none.
    pub fn reply_with_native(
        &mut self,
        req: &Inbound,
        payload: Vec<u8>,
        native: Option<(ResourceId, u64)>,
    ) -> (r: Result<TransferOutcome, FabError>)
        requires
            old(self).wf(),
        ensures
            final(self).wf(),
            match native {
                None => {
                    let f = plain(req.local, req.corr, payload@);
                    final(self)@ == emit(old(self)@, f) && (match emit_error(old(self)@, f) {
                        Some(e) => r == Err::<TransferOutcome, FabError>(e),
                        None => r == Ok::<TransferOutcome, FabError>(TransferOutcome::Committed),
                    })
                },
                Some((rid, handle_value)) => (r == Err::<TransferOutcome, FabError>(
                    FabError::NoIdentity,
                ) && final(self)@ == old(self)@) || exists|tid: TransferId|
                    !all_zero(tid.0) && ({
                        let f = FrameView::Data(
                            DataView {
                                target: req.local,
                                corr: req.corr,
                                attachments: Seq::empty(),
                                payload: payload@,
                                native: Some(#[trigger] native_offer(tid, rid, handle_value)),
                                shared: None,
                            },
                        );
                        final(self)@ == emit(old(self)@, f) && (match emit_error(old(self)@, f) {
                            Some(e) => r == Err::<TransferOutcome, FabError>(e),
                            None => r == Ok::<TransferOutcome, FabError>(TransferOutcome::Committed),
                        })
                    }),
            },
    {
        match native {
            None => match self.push_out(plain_frame(req.local, req.corr, payload)) {
                Ok(()) => Ok(TransferOutcome::Committed),
                Err(e) => Err(e),
            },
            Some((rid, handle_value)) => match fresh_transfer_id(&NoneTaken) {
                Ok(tid) => {
                    let n = NativeAttachment { tid, rid, handle_value };
                    assert(n == native_offer(tid, rid, handle_value));
                    self.reply_native_with(req, payload, n)
                },
                Err(_) => Err(FabError::NoIdentity),
            },
        }
    }

    /// Replies with a shared region, under a transfer that was drawn for it.
    /// Nothing is waited for.
    pub fn reply_shared_with(
        &mut self,
        req: &Inbound,
        payload: Vec<u8>,
        shared: SharedAttachment,
    ) -> (r: Result<TransferOutcome, FabError>)
        requires
            old(self).wf(),
        ensures
            final(self).wf(),
            ({
                let f = FrameView::Data(
                    DataView {
                        target: req.local,
                        corr: req.corr,
                        attachments: Seq::empty(),
                        payload: payload@,
                        native: None,
                        shared: Some(shared),
                    },
                );
                final(self)@ == emit(old(self)@, f) && (match emit_error(old(self)@, f) {
                    Some(e) => r == Err::<TransferOutcome, FabError>(e),
                    None => r == Ok::<TransferOutcome, FabError>(TransferOutcome::Committed),
                })
            }),
    {
        let attachments: Vec<Attachment> = Vec::new();
        assert(attachments@ =~= Seq::<Attachment>::empty());
        match self.push_out(
            Frame::Data(
                DataInner {
                    target: req.local,
                    corr: req.corr,
                    attachments,
                    payload,
                    native: None,
                    shared: Some(shared),
                },
            ),
        ) {
            Ok(()) => Ok(TransferOutcome::Committed),
            Err(e) => Err(e),
        }
    }

    /// Replies with a shared region, known by its identity, by the rights
    /// that go with it and by its value in this process.
    pub fn reply_with_shared(
        &mut self,
        req: &Inbound,
        payload: Vec<u8>,
        rid: RegionId,
        rights: Rights,
        handle_value: u64,
    ) -> (r: Result<TransferOutcome, FabError>)
        requires
            old(self).wf(),
        ensures
            final(self).wf(),
            (r == Err::<TransferOutcome, FabError>(FabError::NoIdentity) && final(self)@ == old(
                self,
            )@) || exists|tid: TransferId|
                !all_zero(tid.0) && ({
                    let f = FrameView::Data(
                        DataView {
                            target: req.local,
                            corr: req.corr,
                            attachments: Seq::empty(),
                            payload: payload@,
                            native: None,
                            shared: Some(#[trigger] shared_offer(tid, rid, rights, handle_value)),
                        },
                    );
                    final(self)@ == emit(old(self)@, f) && (match emit_error(old(self)@, f) {
                        Some(e) => r == Err::<TransferOutcome, FabError>(e),
                        None => r == Ok::<TransferOutcome, FabError>(TransferOutcome::Committed),
                    })
                }),
    {
        match fresh_transfer_id(&NoneTaken) {
            Ok(tid) => {
                let a = SharedAttachment { tid, rid, rights: rights.wire_byte(), handle_value };
                assert(a == shared_offer(tid, rid, rights, handle_value));
                self.reply_shared_with(req, payload, a)
            },
            Err(_) => Err(FabError::NoIdentity),
        }
    }

    /// Asks the host about a transfer.
    fn ask_status(&mut self, tid: TransferId) -> (r: Result<(), FabError>)
        requires
            old(self).wf(),
        ensures
            final(self).wf(),
            (final(self)@, r) == ask_status(old(self)@, tid),
    {
        let ghost s = self@;
        if self.terminal.is_some() {
            return Err(FabError::FabricLost);
        }
        match self.push_out(Frame::Xfer(XferMsg::Status { tid })) {
            Err(e) => {
                let _ = self.status_wait.remove(tid);
                assert(self@ =~= PeerView { status_wait: s.status_wait.remove(tid), ..s });
                Err(e)
            },
            Ok(()) => {
                self.status_wait.insert(tid, ());
                assert(self@ =~= emit(
                    PeerView { status_wait: s.status_wait.insert(tid, ()), ..s },
                    FrameView::Xfer(XferMsg::Status { tid }),
                ));
                Ok(())
            },
        }
    }

    /// The transfer that the reply waits for is decided.
    fn close_slot(&mut self, r: Reply, how: XferLocal) -> (t: ReplyTurn)
        requires
            old(self).wf(),
            r@.at < r@.slots.len(),
        ensures
            final(self).wf(),
            (final(self)@, t@) == close_slot(old(self)@, r@, how),
    {
        let ghost s = self@;
        let ghost rv = r@;
        let mut r = r;
        let n: usize = r.slots.len();
        let (tid, ep, partner) = r.slots[r.at];
        let _ = self.xfer_done.remove(tid);
        assert(self@ =~= PeerView { xfer_done: s.xfer_done.remove(tid), ..s });
        match how {
            XferLocal::Committed => {},
            XferLocal::Aborted => {
                if self.terminal.is_some() {
                    self.release_all(&r.aborted);
                    return ReplyTurn::Done(Ok(TransferOutcome::AuthorityLost(Cause::Graceful)));
                }
                self.with_handle(ep, partner);
                let ghost held = self@;
                self.theirs.insert(partner, ep);
                assert(self@ =~= PeerView { theirs: held.theirs.insert(partner, ep), ..held });
                let ghost back = r.aborted@;
                r.aborted.push(Endpoint { id: ep });
                assert(ids(r.aborted@) =~= ids(back).push(ep));
            },
        }
        let _ = self.push_out(Frame::Xfer(XferMsg::ResultAck { tid }));
        r.at = r.at + 1;
        r.ask = Ask::Idle;
        assert(close_slot(s, rv, how).1 is Again);
        assert(r@ =~= close_slot(s, rv, how).1->Again_0);
        ReplyTurn::Again(r)
    }

    /// The matter cannot be settled.
    fn give_up(&mut self, r: Reply) -> (t: ReplyTurn)
        requires
            old(self).wf(),
        ensures
            final(self).wf(),
            (final(self)@, t@) == give_up(old(self)@, r@),
    {
        self.release_all(&r.aborted);
        ReplyTurn::Done(Err(FabError::TransferUnknown))
    }

    /// One look at a reply whose transfers are not all decided.
    pub fn poll_reply(&mut self, r: Reply, now: u64) -> (t: ReplyTurn)
        requires
            old(self).wf(),
        ensures
            final(self).wf(),
            (final(self)@, t@) == turn(old(self)@, r@, now),
    {
        let ghost rv = r@;
        if r.at >= r.slots.len() {
            return ReplyTurn::Done(
                Ok(
                    if r.aborted.len() == 0 {
                        TransferOutcome::Committed
                    } else {
                        TransferOutcome::Aborted(r.aborted)
                    },
                ),
            );
        }
        let mut r = r;
        let tid = r.slots[r.at].0;
        match r.ask {
            Ask::Idle => {
                let how = match self.xfer_done.get(tid) {
                    Some(h) => Some(*h),
                    None => None,
                };
                if let Some(h) = how {
                    return self.close_slot(r, h);
                }
                if now < r.deadline {
                    let n: u64 = left(now, r.deadline);
                    return ReplyTurn::Wait(r, n);
                }
                match self.ask_status(tid) {
                    Ok(()) => {
                        r.ask = Ask::First(later_u64(now, STATUS_TIMEOUT_MILLIS));
                        assert(r@ =~= ReplyView { ask: r.ask, ..rv });
                        ReplyTurn::Wait(r, STATUS_TIMEOUT_MILLIS)
                    },
                    Err(_) => {
                        r.ask = Ask::Unsure;
                        assert(r@ =~= ReplyView { ask: r.ask, ..rv });
                        ReplyTurn::Again(r)
                    },
                }
            },
            Ask::Unsure => match self.ask_status(tid) {
                Ok(()) => {
                    r.ask = Ask::Second(later_u64(now, STATUS_TIMEOUT_MILLIS));
                    assert(r@ =~= ReplyView { ask: r.ask, ..rv });
                    ReplyTurn::Wait(r, STATUS_TIMEOUT_MILLIS)
                },
                Err(_) => self.give_up(r),
            },
            Ask::First(until) => self.take_status(r, until, now),
            Ask::Second(until) => self.take_status(r, until, now),
        }
    }

    /// The host was asked: its answer, or the lack of one.
    fn take_status(&mut self, r: Reply, until: u64, now: u64) -> (t: ReplyTurn)
        requires
            old(self).wf(),
            r@.at < r@.slots.len(),
            r@.ask is First || r@.ask is Second,
        ensures
            final(self).wf(),
            (final(self)@, t@) == take_status(old(self)@, r@, until, now),
    {
        let ghost s = self@;
        let ghost rv = r@;
        let mut r = r;
        let tid = r.slots[r.at].0;
        let first = match r.ask {
            Ask::First(_) => true,
            _ => false,
        };
        match self.status_done.remove(tid) {
            Some(status) => {
                assert(self@ =~= PeerView { status_done: s.status_done.remove(tid), ..s });
                if status == XFER_ST_COMMITTED {
                    return self.close_slot(r, XferLocal::Committed);
                }
                if status == XFER_ST_ABORTED {
                    return self.close_slot(r, XferLocal::Aborted);
                }
                if first && status == XFER_ST_PENDING {
                    r.ask = Ask::Idle;
                    assert(r@ =~= ReplyView { ask: r.ask, ..rv });
                    return ReplyTurn::Wait(r, STATUS_RETRY_MILLIS);
                }
            },
            None => {
                assert(self@ =~= s);
                if now < until {
                    return ReplyTurn::Wait(r, left(now, until));
                }
                let _ = self.status_wait.remove(tid);
                assert(self@ =~= PeerView { status_wait: s.status_wait.remove(tid), ..s });
            },
        }
        if first {
            r.ask = Ask::Unsure;
            assert(r@ =~= ReplyView { ask: r.ask, ..rv });
            ReplyTurn::Again(r)
        } else {
            self.give_up(r)
        }
    }
}

/// Transfer identities as they are drawn: none of them is zero.
pub open spec fn drawn(tids: Seq<TransferId>) -> bool {
    forall|i: int| 0 <= i < tids.len() ==> !all_zero((#[trigger] tids[i]).0)
}

/// An offer of a shared region.
pub open spec fn shared_offer(
    tid: TransferId,
    rid: RegionId,
    rights: Rights,
    handle_value: u64,
) -> SharedAttachment {
    SharedAttachment { tid, rid, rights: rights.byte(), handle_value }
}

/// An offer of a native resource.
pub open spec fn native_offer(tid: TransferId, rid: ResourceId, handle_value: u64) -> NativeAttachment {
    NativeAttachment { tid, rid, handle_value }
}

/// Is the identity among these?
fn among(list: &[EpId], id: EpId) -> (r: bool)
    ensures
        r == list@.contains(id),
{
    let mut i: usize = 0;
    while i < list.len()
        invariant
            i <= list@.len(),
            forall|k: int| 0 <= k < i ==> list@[k] != id,
        decreases list@.len() - i,
    {
        if list[i] == id {
            assert(list@[i as int] == id);
            return true;
        }
        i = i + 1;
    }
    false
}

/// Once an endpoint in the list failed, later ones change nothing.
proof fn lemma_first_failed_stays(s: PeerView, caps: Seq<EpId>, i: int)
    requires
        0 <= i <= caps.len(),
        first_failed(s, caps.take(i)) is Some,
    ensures
        first_failed(s, caps) == first_failed(s, caps.take(i)),
    decreases caps.len(),
{
    if i < caps.len() {
        assert(caps.drop_last().take(i) =~= caps.take(i));
        lemma_first_failed_stays(s, caps.drop_last(), i);
    } else {
        assert(caps.take(i) =~= caps);
    }
}

/// Giving endpoints up leaves the messages that wait for room alone.
proof fn lemma_release_stalled(s: PeerView, eps: Seq<EpId>)
    ensures
        release_all(s, eps).stalled == s.stalled,
    decreases eps.len(),
{
    if eps.len() > 0 {
        lemma_release_stalled(s, eps.drop_last());
    }
}

proof fn lemma_lose_stalled(s: PeerView, i: InboundView, counted: bool)
    ensures
        lose(s, i, counted).stalled == s.stalled,
{
    lemma_release_stalled(
        if counted {
            s.drop_one()
        } else {
            s
        },
        i.received,
    );
}

} // verus!

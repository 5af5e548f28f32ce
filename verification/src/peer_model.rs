//! What a child's runtime does with each event, as functions on its state.

use vstd::prelude::*;

use crate::fabric_error::{Cause, FabError};
use crate::frame::{
    Attachment, DataView, FrameView, NativeAttachment, SharedAttachment, XferMsg, ERR_CAPACITY,
    XFER_ST_ABORTED, XFER_ST_COMMITTED, XFER_ST_PENDING,
};
use crate::id::{EpId, TransferId};
use crate::limits::Limits;
use crate::queue::{total_cost, QueueView};
use crate::shared::counted;

verus! {

/// What the runtime knows of one endpoint that it holds or held.
#[derive(Clone, Copy, Debug)]
pub struct Handle {
    pub partner: EpId,
    /// `None` while the endpoint is live.
    pub cause: Option<Cause>,
}

/// How a transfer ended, as its sender learned it.
#[derive(Clone, Copy, Debug, PartialEq, Eq, Structural)]
pub enum XferLocal {
    Committed,
    Aborted,
}

/// What came back from a call.
#[verifier::ext_equal]
pub struct CallView {
    pub payload: Seq<u8>,
    pub received: Seq<EpId>,
    pub native: Option<NativeAttachment>,
    pub shared: Option<SharedAttachment>,
}

/// A message delivered to an endpoint held here.
#[verifier::ext_equal]
pub struct InboundView {
    pub from: EpId,
    pub local: EpId,
    pub corr: u32,
    pub payload: Seq<u8>,
    pub received: Seq<EpId>,
    pub native: Option<NativeAttachment>,
    pub shared: Option<SharedAttachment>,
}

/// A message that waits for the transfers it carries.
#[verifier::ext_equal]
pub struct ParkedView {
    pub from: EpId,
    pub local: EpId,
    pub corr: u32,
    pub payload: Seq<u8>,
    /// The transfers that are still undecided.
    pub remaining: Seq<TransferId>,
    /// The endpoints that arrived.
    pub got: Seq<EpId>,
    pub is_response: bool,
}

/// A message that waits for room in the inbound queue.
#[verifier::ext_equal]
pub struct StalledView {
    pub item: InboundView,
    /// Does losing it count as a drop?
    pub counted: bool,
}

/// What a request for an endpoint pair came to.
pub enum CreateOutcome {
    Done(EpId, EpId),
    Failed(FabError),
}

/// Everything that a child's runtime knows.
#[verifier::ext_equal]
pub struct PeerView {
    pub lim: Limits,
    pub handles: Map<EpId, Handle>,
    /// The handle held here, by the identity of its partner.
    pub theirs: Map<EpId, EpId>,
    /// The endpoint of each unanswered call.
    pub waiters: Map<u32, EpId>,
    /// The answers that nobody took yet.
    pub answers: Map<u32, Result<CallView, FabError>>,
    /// The request for an endpoint pair that is under way.
    pub create_wait: Option<u64>,
    pub created: Map<u64, CreateOutcome>,
    pub tickets: u64,
    pub next_corr: u32,
    pub terminal: Option<Cause>,
    pub dropped: u64,
    /// The endpoints in the order in which they arrived.
    pub arrivals: Seq<EpId>,
    pub offers: Map<TransferId, (EpId, EpId)>,
    /// Transfers out of here that are undecided: endpoint and partner.
    pub xfer_wait: Map<TransferId, (EpId, EpId)>,
    pub xfer_done: Map<TransferId, XferLocal>,
    pub status_wait: Map<TransferId, ()>,
    pub status_done: Map<TransferId, u8>,
    pub parked: Seq<ParkedView>,
    pub stalled: Seq<StalledView>,
    pub out: QueueView<FrameView>,
    pub inbound: QueueView<InboundView>,
    pub sent: u64,
    pub received: u64,
}

/// Queue cost of a delivered message, besides its payload.
pub const INBOUND_COST_OVERHEAD: usize = 96;

/// A count that stays at its largest value.
pub open spec fn bump(n: u64) -> u64 {
    if n < u64::MAX {
        (n + 1) as u64
    } else {
        n
    }
}

/// Nothing held, nothing queued.
pub open spec fn initial(lim: Limits) -> PeerView {
    PeerView {
        lim,
        handles: Map::empty(),
        theirs: Map::empty(),
        waiters: Map::empty(),
        answers: Map::empty(),
        create_wait: None,
        created: Map::empty(),
        tickets: 0,
        next_corr: 0,
        terminal: None,
        dropped: 0,
        arrivals: Seq::empty(),
        offers: Map::empty(),
        xfer_wait: Map::empty(),
        xfer_done: Map::empty(),
        status_wait: Map::empty(),
        status_done: Map::empty(),
        parked: Seq::empty(),
        stalled: Seq::empty(),
        out: QueueView {
            items: Seq::empty(),
            closed: false,
            max_msgs: lim.queue_max_msgs,
            max_bytes: lim.queue_max_bytes,
        },
        inbound: QueueView {
            items: Seq::empty(),
            closed: false,
            max_msgs: lim.queue_max_msgs,
            max_bytes: lim.queue_max_bytes,
        },
        sent: 0,
        received: 0,
    }
}

impl PeerView {
    /// Is the endpoint held and live?
    pub open spec fn is_live(self, ep: EpId) -> bool {
        self.handles.contains_key(ep) && self.handles[ep].cause is None
    }

    /// The endpoints that are live.
    pub open spec fn live(self) -> Set<EpId> {
        self.handles.dom().filter(|ep: EpId| self.handles[ep].cause is None)
    }

    /// One more message was lost.
    pub open spec fn drop_one(self) -> PeerView {
        PeerView { dropped: bump(self.dropped), ..self }
    }

    /// The call got its answer.
    pub open spec fn answer(self, corr: u32, a: Result<CallView, FabError>) -> PeerView {
        PeerView {
            waiters: self.waiters.remove(corr),
            answers: self.answers.insert(corr, a),
            ..self
        }
    }

    /// The handle under that identity, if it is not known already.
    pub open spec fn with_handle(self, ep: EpId, partner: EpId) -> PeerView {
        if self.handles.contains_key(ep) {
            self
        } else {
            PeerView {
                handles: self.handles.insert(ep, Handle { partner, cause: None }),
                arrivals: self.arrivals.push(ep),
                ..self
            }
        }
    }
}

/// A frame goes into the outbound queue, or is refused.
pub open spec fn emit(s: PeerView, f: FrameView) -> PeerView {
    let c = counted(f.cost());
    if s.out.admits(c) {
        PeerView { out: s.out.pushed(f, c), sent: bump(s.sent), ..s }
    } else {
        s
    }
}

/// Why a frame is refused.
pub open spec fn emit_error(s: PeerView, f: FrameView) -> Option<FabError> {
    if s.out.admits(counted(f.cost())) {
        None
    } else {
        Some(
            FabError::Backpressured {
                queued_msgs: s.out.items.len() as usize,
                queued_bytes: total_cost(s.out.items) as usize,
            },
        )
    }
}

/// A live endpoint fails, and with it the calls that wait on it.
pub open spec fn fail_handle(s: PeerView, ep: EpId, cause: Cause) -> PeerView {
    if s.is_live(ep) {
        PeerView {
            handles: s.handles.insert(ep, Handle { cause: Some(cause), ..s.handles[ep] }),
            waiters: without_calls(s.waiters, Set::empty().insert(ep)),
            answers: with_closed(s.answers, s.waiters, Set::empty().insert(ep), cause),
            ..s
        }
    } else {
        s
    }
}

/// The calls that wait on none of these endpoints.
pub open spec fn without_calls(waiters: Map<u32, EpId>, eps: Set<EpId>) -> Map<u32, EpId> {
    Map::new(|c: u32| waiters.contains_key(c) && !eps.contains(waiters[c]), |c: u32| waiters[c])
}

/// The answers, and word of the close for the calls that wait on one of these
/// endpoints.
pub open spec fn with_closed(
    answers: Map<u32, Result<CallView, FabError>>,
    waiters: Map<u32, EpId>,
    eps: Set<EpId>,
    cause: Cause,
) -> Map<u32, Result<CallView, FabError>> {
    Map::new(
        |c: u32| answers.contains_key(c) || (waiters.contains_key(c) && eps.contains(waiters[c])),
        |c: u32|
            if waiters.contains_key(c) && eps.contains(waiters[c]) {
                Err(FabError::Closed(cause))
            } else {
                answers[c]
            },
    )
}

/// The fabric is gone: every live endpoint fails, and both queues close.
pub open spec fn shut(s: PeerView, cause: Cause) -> PeerView {
    let ended = PeerView {
        out: QueueView { closed: true, ..s.out },
        inbound: QueueView { closed: true, ..s.inbound },
        ..s
    };
    if s.terminal is Some {
        ended
    } else {
        PeerView {
            terminal: Some(cause),
            handles: Map::new(
                |ep: EpId| s.handles.contains_key(ep),
                |ep: EpId|
                    if s.handles[ep].cause is None {
                        Handle { cause: Some(cause), ..s.handles[ep] }
                    } else {
                        s.handles[ep]
                    },
            ),
            waiters: without_calls(s.waiters, s.live()),
            answers: with_closed(s.answers, s.waiters, s.live(), cause),
            ..ended
        }
    }
}

/// The holder gives an endpoint up: the host is told, the endpoint fails, and
/// nothing more is received on it.
pub open spec fn release(s: PeerView, ep: EpId) -> PeerView {
    let told = emit(s, FrameView::Close { target: ep });
    let failed = fail_handle(told, ep, Cause::Graceful);
    if failed.handles.contains_key(ep) {
        PeerView { theirs: failed.theirs.remove(failed.handles[ep].partner), ..failed }
    } else {
        failed
    }
}

/// These endpoints are given up, one after the other.
pub open spec fn release_all(s: PeerView, eps: Seq<EpId>) -> PeerView
    decreases eps.len(),
{
    if eps.len() == 0 {
        s
    } else {
        release(release_all(s, eps.drop_last()), eps.last())
    }
}

/// The queue cost of a delivered message.
pub open spec fn inbound_cost(i: InboundView) -> usize {
    counted((i.payload.len() + INBOUND_COST_OVERHEAD) as nat)
}

/// A message goes into the inbound queue. Without room it waits; on a dead
/// fabric it is lost, and the endpoints in it are given up.
pub open spec fn deliver(s: PeerView, i: InboundView, counted: bool) -> PeerView {
    if s.stalled.len() == 0 && s.inbound.admits(inbound_cost(i)) {
        PeerView { inbound: s.inbound.pushed(i, inbound_cost(i)), ..s }
    } else if s.terminal is Some {
        lose(s, i, counted)
    } else {
        PeerView { stalled: s.stalled.push(StalledView { item: i, counted }), ..s }
    }
}

/// A message is lost with the endpoints in it.
pub open spec fn lose(s: PeerView, i: InboundView, counted: bool) -> PeerView {
    release_all(
        if counted {
            s.drop_one()
        } else {
            s
        },
        i.received,
    )
}

/// One more try with the oldest message that waits for room.
pub open spec fn retry(s: PeerView) -> PeerView {
    if s.stalled.len() == 0 {
        s
    } else {
        let front = s.stalled[0];
        let rest = PeerView { stalled: s.stalled.skip(1), ..s };
        if s.inbound.admits(inbound_cost(front.item)) {
            PeerView { inbound: s.inbound.pushed(front.item, inbound_cost(front.item)), ..rest }
        } else if s.terminal is Some {
            lose(rest, front.item, front.counted)
        } else {
            s
        }
    }
}

// --------------------------------------------------------------- transfers --

/// The parked messages after a transfer was decided: those that still wait,
/// and those that wait no more.
pub open spec fn settle(parked: Seq<ParkedView>, tid: TransferId, got: Option<EpId>) -> (
    Seq<ParkedView>,
    Seq<ParkedView>,
)
    decreases parked.len(),
{
    if parked.len() == 0 {
        (Seq::empty(), Seq::empty())
    } else {
        let (rest, done) = settle(parked.drop_last(), tid, got);
        let p = parked.last();
        if !p.remaining.contains(tid) {
            (rest.push(p), done)
        } else {
            let q = strike(p, tid, got);
            if q.remaining.len() == 0 {
                (rest, done.push(q))
            } else {
                (rest.push(q), done)
            }
        }
    }
}

/// The list without a transfer.
pub open spec fn struck(s: Seq<TransferId>, tid: TransferId) -> Seq<TransferId> {
    s.filter(|t: TransferId| t != tid)
}

/// A parked message after one of its transfers was decided.
pub open spec fn strike(p: ParkedView, tid: TransferId, got: Option<EpId>) -> ParkedView {
    ParkedView {
        remaining: struck(p.remaining, tid),
        got: match got {
            Some(ep) => p.got.push(ep),
            None => p.got,
        },
        ..p
    }
}

/// A parked message has all its endpoints: it answers its call, or is
/// delivered. If the caller gave up, the endpoints are given up too.
pub open spec fn finish(s: PeerView, p: ParkedView) -> PeerView {
    if p.is_response {
        if s.waiters.contains_key(p.corr) {
            s.answer(
                p.corr,
                Ok(CallView { payload: p.payload, received: p.got, native: None, shared: None }),
            )
        } else {
            release_all(s, p.got)
        }
    } else {
        deliver(
            s,
            InboundView {
                from: p.from,
                local: p.local,
                corr: p.corr,
                payload: p.payload,
                received: p.got,
                native: None,
                shared: None,
            },
            false,
        )
    }
}

/// These messages are finished, one after the other.
pub open spec fn finish_all(s: PeerView, ps: Seq<ParkedView>) -> PeerView
    decreases ps.len(),
{
    if ps.len() == 0 {
        s
    } else {
        finish(finish_all(s, ps.drop_last()), ps.last())
    }
}

/// These messages are lost: their endpoints are given up.
pub open spec fn discard_all(s: PeerView, ps: Seq<ParkedView>) -> PeerView
    decreases ps.len(),
{
    if ps.len() == 0 {
        s
    } else {
        release_all(discard_all(s, ps.drop_last()), ps.last().got)
    }
}

/// The calls that these messages would have answered fail.
pub open spec fn fail_calls(s: PeerView, ps: Seq<ParkedView>) -> PeerView
    decreases ps.len(),
{
    if ps.len() == 0 {
        s
    } else {
        let before = fail_calls(s, ps.drop_last());
        let p = ps.last();
        if p.is_response && before.waiters.contains_key(p.corr) {
            before.answer(p.corr, Err(FabError::TransferAborted("recipient rejected")))
        } else {
            before
        }
    }
}

/// A transfer out of here was decided.
pub open spec fn decide(s: PeerView, tid: TransferId, how: XferLocal) -> PeerView {
    if s.xfer_wait.contains_key(tid) {
        PeerView {
            xfer_wait: s.xfer_wait.remove(tid),
            xfer_done: s.xfer_done.insert(tid, how),
            ..s
        }
    } else {
        s
    }
}

/// The acknowledgement of a transfer's result.
pub open spec fn ack(tid: TransferId) -> FrameView {
    FrameView::Xfer(XferMsg::ResultAck { tid })
}

/// A transfer to here was committed: only now is the endpoint held.
pub open spec fn on_commit(s: PeerView, tid: TransferId, ep: EpId, partner: EpId) -> PeerView {
    let held = PeerView { offers: s.offers.remove(tid), ..s }.with_handle(ep, partner);
    let known = PeerView { theirs: held.theirs.insert(partner, ep), ..held };
    let (rest, done) = settle(s.parked, tid, Some(ep));
    let decided = PeerView { parked: rest, ..decide(known, tid, XferLocal::Committed) };
    emit(finish_all(decided, done), ack(tid))
}

/// A transfer was called off.
pub open spec fn on_abort(s: PeerView, tid: TransferId) -> PeerView {
    let (rest, done) = settle(s.parked, tid, None);
    let decided = PeerView {
        offers: s.offers.remove(tid),
        parked: rest,
        ..decide(s, tid, XferLocal::Aborted)
    };
    let failed = fail_calls(discard_all(decided, done), done);
    if s.xfer_wait.contains_key(tid) {
        emit(failed, ack(tid))
    } else {
        failed
    }
}

/// The host says how a transfer stands.
pub open spec fn on_status(s: PeerView, tid: TransferId, status: u8) -> PeerView {
    let a = if status == XFER_ST_COMMITTED {
        decide(s, tid, XferLocal::Committed)
    } else if status == XFER_ST_ABORTED {
        decide(s, tid, XferLocal::Aborted)
    } else {
        PeerView { xfer_wait: s.xfer_wait.remove(tid), ..s }
    };
    if s.status_wait.contains_key(tid) {
        PeerView {
            status_wait: a.status_wait.remove(tid),
            status_done: a.status_done.insert(tid, status),
            ..a
        }
    } else {
        a
    }
}

/// A step of a transfer transaction arrives.
pub open spec fn on_xfer(s: PeerView, x: XferMsg) -> PeerView {
    match x {
        XferMsg::Commit { tid, ep, partner } => on_commit(s, tid, ep, partner),
        XferMsg::Committed { tid } => if s.xfer_wait.contains_key(tid) {
            emit(decide(s, tid, XferLocal::Committed), ack(tid))
        } else {
            s
        },
        XferMsg::Abort { tid } => on_abort(s, tid),
        XferMsg::StatusAck { tid, status } => on_status(s, tid, status),
        _ => s,
    }
}

// ---------------------------------------------------------------- messages --

/// Does the message answer a call that waits on the endpoint it reaches?
pub open spec fn answers_call(s: PeerView, d: DataView) -> bool {
    &&& d.corr != 0
    &&& s.waiters.contains_key(d.corr)
    &&& s.theirs.contains_key(d.target)
    &&& s.waiters[d.corr] == s.theirs[d.target]
}

/// Each offer is accepted, or each refused.
pub open spec fn reply_offers(s: PeerView, atts: Seq<Attachment>, accept: bool) -> PeerView
    decreases atts.len(),
{
    if atts.len() == 0 {
        s
    } else {
        let tid = atts.last().tid;
        emit(
            reply_offers(s, atts.drop_last(), accept),
            FrameView::Xfer(
                if accept {
                    XferMsg::Accept { tid }
                } else {
                    XferMsg::Reject { tid }
                },
            ),
        )
    }
}

/// A message with endpoints arrives: they are offers. With room for all of
/// them they are accepted, and the message waits for the commits.
pub open spec fn on_offers(s: PeerView, d: DataView) -> PeerView {
    if s.live().len() + d.attachments.len() > s.lim.max_live_endpoints || s.terminal is Some {
        let refused = reply_offers(s, d.attachments, false);
        if answers_call(s, d) {
            refused.answer(d.corr, Err(FabError::TransferAborted("recipient at capacity")))
        } else {
            refused
        }
    } else {
        let accepted = reply_offers(s, d.attachments, true);
        if s.theirs.contains_key(d.target) {
            PeerView {
                parked: accepted.parked.push(
                    ParkedView {
                        from: d.target,
                        local: s.theirs[d.target],
                        corr: d.corr,
                        payload: d.payload,
                        remaining: d.attachments.map_values(|a: Attachment| a.tid),
                        got: Seq::empty(),
                        is_response: answers_call(s, d),
                    },
                ),
                ..accepted
            }
        } else {
            accepted.drop_one()
        }
    }
}

/// A message arrives.
pub open spec fn on_data(s: PeerView, d: DataView) -> PeerView {
    if d.attachments.len() > 0 {
        on_offers(s, d)
    } else if !s.theirs.contains_key(d.target) {
        s.drop_one()
    } else {
        let local = s.theirs[d.target];
        if s.handles.contains_key(local) && s.handles[local].cause is Some {
            s.drop_one()
        } else if answers_call(s, d) {
            s.answer(
                d.corr,
                Ok(
                    CallView {
                        payload: d.payload,
                        received: Seq::empty(),
                        native: d.native,
                        shared: d.shared,
                    },
                ),
            )
        } else {
            deliver(
                s,
                InboundView {
                    from: d.target,
                    local,
                    corr: d.corr,
                    payload: d.payload,
                    received: Seq::empty(),
                    native: d.native,
                    shared: d.shared,
                },
                true,
            )
        }
    }
}

/// The host says that conversations ended.
pub open spec fn on_closed(s: PeerView, entries: Seq<(EpId, Cause)>) -> PeerView
    decreases entries.len(),
{
    if entries.len() == 0 {
        s
    } else {
        let before = on_closed(s, entries.drop_last());
        let (ep, cause) = entries.last();
        if before.is_live(ep) {
            let failed = fail_handle(before, ep, cause);
            PeerView { theirs: failed.theirs.remove(before.handles[ep].partner), ..failed }
        } else {
            before
        }
    }
}

/// The host offers an endpoint: it is accepted if there is room.
pub open spec fn on_grant(s: PeerView, ep: EpId, partner: EpId, tid: TransferId) -> PeerView {
    if s.live().len() < s.lim.max_live_endpoints && s.terminal is None {
        let accepted = emit(s, FrameView::Xfer(XferMsg::Accept { tid }));
        PeerView { offers: accepted.offers.insert(tid, (ep, partner)), ..accepted }
    } else {
        emit(s, FrameView::Xfer(XferMsg::Reject { tid }))
    }
}

/// The request for an endpoint pair that is under way has come to an end.
pub open spec fn on_created(s: PeerView, how: CreateOutcome) -> PeerView {
    match s.create_wait {
        Some(t) => PeerView { create_wait: None, created: s.created.insert(t, how), ..s },
        None => s,
    }
}

/// What an error code says of a request for an endpoint pair.
pub open spec fn create_error(code: u8) -> FabError {
    if code == ERR_CAPACITY {
        FabError::Backpressured { queued_msgs: 0, queued_bytes: 0 }
    } else {
        FabError::ProtocolViolation("unknown error code")
    }
}

/// A frame arrives from the fabric: the state after it, and whether there is
/// anything to read after it.
pub open spec fn process(s: PeerView, f: FrameView) -> (PeerView, bool) {
    let s = PeerView { received: bump(s.received), ..s };
    match f {
        FrameView::Hello { .. } | FrameView::Close { .. } => (shut(s, Cause::PeerLost), false),
        FrameView::Grant { ep, partner, tid } => (on_grant(s, ep, partner, tid), true),
        FrameView::Data(d) => (on_data(s, d), true),
        FrameView::ClosedNotify { entries } => (on_closed(s, entries), true),
        FrameView::Create => (s, true),
        FrameView::CreateAck { impl_ep, transferable_ep } => (
            on_created(s, CreateOutcome::Done(impl_ep, transferable_ep)),
            true,
        ),
        FrameView::Error(code) => (on_created(s, CreateOutcome::Failed(create_error(code))), true),
        FrameView::Shutdown => (shut(s, Cause::Graceful), false),
        FrameView::Xfer(x) => (on_xfer(s, x), true),
    }
}

// ------------------------------------------------------------------- calls --

/// A message with nothing but a payload.
pub open spec fn plain(target: EpId, corr: u32, payload: Seq<u8>) -> FrameView {
    FrameView::Data(
        DataView {
            target,
            corr,
            attachments: Seq::empty(),
            payload,
            native: None,
            shared: None,
        },
    )
}

/// A call begins: its number, or why it did not begin.
pub open spec fn call(s: PeerView, ep: EpId, payload: Seq<u8>) -> (PeerView, Result<u32, FabError>) {
    if s.handles.contains_key(ep) && s.handles[ep].cause is Some {
        (s, Err(FabError::Closed(s.handles[ep].cause->Some_0)))
    } else if s.terminal is Some {
        (s, Err(FabError::FabricLost))
    } else if s.waiters.len() >= s.lim.max_outstanding_requests {
        (
            s,
            Err(
                FabError::Backpressured {
                    queued_msgs: s.waiters.len() as usize,
                    queued_bytes: 0,
                },
            ),
        )
    } else {
        let corr = (s.next_corr + 1) as u32;
        let f = plain(ep, corr, payload);
        let asked = PeerView { next_corr: corr, ..s };
        match emit_error(s, f) {
            Some(e) => (asked, Err(e)),
            None => (
                emit(PeerView { waiters: asked.waiters.insert(corr, ep), ..asked }, f),
                Ok(corr),
            ),
        }
    }
}

/// A request for an endpoint pair begins: its ticket, or why it did not.
pub open spec fn create(s: PeerView) -> (PeerView, Result<u64, FabError>) {
    if s.terminal is Some {
        (s, Err(FabError::FabricLost))
    } else if s.create_wait is Some {
        (s, Err(FabError::Backpressured { queued_msgs: 0, queued_bytes: 0 }))
    } else {
        let t = bump(s.tickets);
        let asked = PeerView { tickets: t, ..s };
        match emit_error(s, FrameView::Create) {
            Some(e) => (asked, Err(e)),
            None => (emit(PeerView { create_wait: Some(t), ..asked }, FrameView::Create), Ok(t)),
        }
    }
}

/// An endpoint pair is held here, both sides of it.
pub open spec fn adopt_pair(s: PeerView, imp: EpId, tra: EpId) -> PeerView {
    let held = s.with_handle(imp, tra).with_handle(tra, imp);
    PeerView { theirs: held.theirs.insert(tra, imp).insert(imp, tra), ..held }
}

/// The status of a transfer is asked for.
pub open spec fn ask_status(s: PeerView, tid: TransferId) -> (PeerView, Result<(), FabError>) {
    let f = FrameView::Xfer(XferMsg::Status { tid });
    if s.terminal is Some {
        (s, Err(FabError::FabricLost))
    } else {
        match emit_error(s, f) {
            Some(e) => (PeerView { status_wait: s.status_wait.remove(tid), ..s }, Err(e)),
            None => (
                emit(PeerView { status_wait: s.status_wait.insert(tid, ()), ..s }, f),
                Ok(()),
            ),
        }
    }
}

/// A transfer was called off: its sender holds the endpoint again, unless the
/// fabric is gone.
pub open spec fn restore(s: PeerView, ep: EpId, partner: EpId) -> PeerView {
    if s.terminal is Some {
        s
    } else {
        let held = s.with_handle(ep, partner);
        PeerView { theirs: held.theirs.insert(partner, ep), ..held }
    }
}

/// The endpoints leave: each becomes an offer under its transfer.
pub open spec fn hand_over(s: PeerView, caps: Seq<EpId>, tids: Seq<TransferId>) -> PeerView
    decreases caps.len(),
{
    if caps.len() == 0 {
        s
    } else {
        let before = hand_over(s, caps.drop_last(), tids.drop_last());
        let ep = caps.last();
        PeerView {
            xfer_wait: before.xfer_wait.insert(tids.last(), (ep, before.handles[ep].partner)),
            handles: before.handles.remove(ep),
            ..before
        }
    }
}

/// The offers of these endpoints.
pub open spec fn offers_of(s: PeerView, caps: Seq<EpId>, tids: Seq<TransferId>) -> Seq<Attachment> {
    Seq::new(
        caps.len(),
        |i: int| Attachment { tid: tids[i], id: caps[i], partner: s.handles[caps[i]].partner },
    )
}

/// The cause of the first endpoint in the list that failed.
pub open spec fn first_failed(s: PeerView, caps: Seq<EpId>) -> Option<Cause>
    decreases caps.len(),
{
    if caps.len() == 0 {
        None
    } else {
        match first_failed(s, caps.drop_last()) {
            Some(c) => Some(c),
            None => if s.handles.contains_key(caps.last()) {
                s.handles[caps.last()].cause
            } else {
                None
            },
        }
    }
}

/// A reply goes out on the endpoint that received the request, with
/// endpoints. If one of them failed, nothing goes out, and all are given up.
pub open spec fn reply(
    s: PeerView,
    local: EpId,
    corr: u32,
    payload: Seq<u8>,
    caps: Seq<EpId>,
    tids: Seq<TransferId>,
) -> (PeerView, Result<(), FabError>) {
    match first_failed(s, caps) {
        Some(c) => (release_all(s, caps), Err(FabError::Closed(c))),
        None => {
            let f = FrameView::Data(
                DataView {
                    target: local,
                    corr,
                    attachments: offers_of(s, caps, tids),
                    payload,
                    native: None,
                    shared: None,
                },
            );
            let given = hand_over(s, caps, tids);
            (
                emit(given, f),
                match emit_error(given, f) {
                    Some(e) => Err(e),
                    None => Ok(()),
                },
            )
        },
    }
}

/// Are these endpoints that can be handed over: known, and each named once?
pub open spec fn can_give(s: PeerView, caps: Seq<EpId>) -> bool {
    &&& forall|i: int| 0 <= i < caps.len() ==> s.handles.contains_key(#[trigger] caps[i])
    &&& forall|i: int, j: int| 0 <= i < j < caps.len() ==> #[trigger] caps[i] != #[trigger] caps[j]
}

/// Handing endpoints over takes them, and nothing else, from the handles.
pub proof fn lemma_hand_over(s: PeerView, caps: Seq<EpId>, tids: Seq<TransferId>)
    requires
        caps.len() == tids.len(),
    ensures
        forall|ep: EpId| #[trigger]
            hand_over(s, caps, tids).handles.contains_key(ep) <==> s.handles.contains_key(ep)
                && !caps.contains(ep),
        forall|ep: EpId| #[trigger]
            hand_over(s, caps, tids).handles.contains_key(ep) ==> hand_over(
                s,
                caps,
                tids,
            ).handles[ep] == s.handles[ep],
    decreases caps.len(),
{
    if caps.len() > 0 {
        lemma_hand_over(s, caps.drop_last(), tids.drop_last());
        assert forall|ep: EpId| caps.contains(ep) <==> caps.drop_last().contains(ep) || ep
            == caps.last() by {
            if caps.contains(ep) && ep != caps.last() {
                let i = caps.index_of(ep);
                assert(caps.drop_last()[i] == ep);
            }
            if caps.drop_last().contains(ep) {
                let i = caps.drop_last().index_of(ep);
                assert(caps[i] == ep);
            }
            assert(caps[caps.len() - 1] == caps.last());
        }
    }
}

// ----------------------------------------------------- waiting for a reply --

/// How far the sender of a reply is with the transfer it waits for.
#[derive(Clone, Copy, Debug, PartialEq, Eq, Structural)]
pub enum Ask {
    /// Waiting for the host's word.
    Idle,
    /// The host was asked; its answer is due by then.
    First(u64),
    /// The answer did not settle the matter.
    Unsure,
    /// The host was asked again; its answer is due by then.
    Second(u64),
}

/// A reply whose transfers are not all decided.
#[verifier::ext_equal]
pub struct ReplyView {
    /// The transfers, each with the endpoint and its partner.
    pub slots: Seq<(TransferId, EpId, EpId)>,
    /// The transfer that is waited for.
    pub at: nat,
    /// The endpoints that came back.
    pub aborted: Seq<EpId>,
    pub deadline: u64,
    pub ask: Ask,
}

/// How a reply ended.
#[verifier::ext_equal]
pub enum OutcomeView {
    Committed,
    Aborted(Seq<EpId>),
    AuthorityLost(Cause),
}

/// What one look at a reply came to.
#[verifier::ext_equal]
pub enum TurnView {
    Again(ReplyView),
    Wait(ReplyView, u64),
    Done(Result<OutcomeView, FabError>),
}

/// How long a reply waits for the host's word before it asks.
pub const REPLY_TIMEOUT_MILLIS: u64 = 10000;

/// How long it waits for an answer once it asked.
pub const STATUS_TIMEOUT_MILLIS: u64 = 2000;

/// How long it waits before it asks about a pending transfer again.
pub const STATUS_RETRY_MILLIS: u64 = 50;

/// A moment so many milliseconds later, as far as a `u64` counts.
pub open spec fn later(now: u64, millis: u64) -> u64 {
    if now + millis <= u64::MAX {
        (now + millis) as u64
    } else {
        u64::MAX
    }
}

/// A reply that just went out.
pub open spec fn started(
    s: PeerView,
    caps: Seq<EpId>,
    tids: Seq<TransferId>,
    now: u64,
) -> ReplyView {
    ReplyView {
        slots: Seq::new(
            caps.len(),
            |i: int| (tids[i], caps[i], s.handles[caps[i]].partner),
        ),
        at: 0,
        aborted: Seq::empty(),
        deadline: later(now, REPLY_TIMEOUT_MILLIS),
        ask: Ask::Idle,
    }
}

/// The transfer that the reply waits for is decided. An aborted one brings
/// its endpoint back, unless the fabric is gone.
pub open spec fn close_slot(s: PeerView, r: ReplyView, how: XferLocal) -> (PeerView, TurnView) {
    let (tid, ep, partner) = r.slots[r.at as int];
    let s = PeerView { xfer_done: s.xfer_done.remove(tid), ..s };
    let next = ReplyView { at: r.at + 1, ask: Ask::Idle, ..r };
    if how == XferLocal::Committed {
        (emit(s, ack(tid)), TurnView::Again(next))
    } else if s.terminal is Some {
        (
            release_all(s, r.aborted),
            TurnView::Done(Ok(OutcomeView::AuthorityLost(Cause::Graceful))),
        )
    } else {
        (
            emit(restore(s, ep, partner), ack(tid)),
            TurnView::Again(ReplyView { aborted: r.aborted.push(ep), ..next }),
        )
    }
}

/// The matter cannot be settled: what came back so far is given up.
pub open spec fn give_up(s: PeerView, r: ReplyView) -> (PeerView, TurnView) {
    (release_all(s, r.aborted), TurnView::Done(Err(FabError::TransferUnknown)))
}

/// The host is asked about the transfer.
pub open spec fn ask_again(s: PeerView, r: ReplyView, now: u64) -> (PeerView, TurnView) {
    let tid = r.slots[r.at as int].0;
    let until = later(now, STATUS_TIMEOUT_MILLIS);
    let (s2, res) = ask_status(s, tid);
    if r.ask == Ask::Idle {
        if res is Ok {
            (
                s2,
                TurnView::Wait(ReplyView { ask: Ask::First(until), ..r }, STATUS_TIMEOUT_MILLIS),
            )
        } else {
            (s2, TurnView::Again(ReplyView { ask: Ask::Unsure, ..r }))
        }
    } else if res is Ok {
        (
            s2,
            TurnView::Wait(ReplyView { ask: Ask::Second(until), ..r }, STATUS_TIMEOUT_MILLIS),
        )
    } else {
        give_up(s2, r)
    }
}

/// The answer of the host did not settle the matter: it is asked once more,
/// and then no more.
pub open spec fn unsettled(s: PeerView, r: ReplyView) -> (PeerView, TurnView) {
    if r.ask is First {
        (s, TurnView::Again(ReplyView { ask: Ask::Unsure, ..r }))
    } else {
        give_up(s, r)
    }
}

/// The host was asked: its answer, or the lack of one.
pub open spec fn take_status(s: PeerView, r: ReplyView, until: u64, now: u64) -> (
    PeerView,
    TurnView,
) {
    let tid = r.slots[r.at as int].0;
    if s.status_done.contains_key(tid) {
        let status = s.status_done[tid];
        let s = PeerView { status_done: s.status_done.remove(tid), ..s };
        if status == XFER_ST_COMMITTED {
            close_slot(s, r, XferLocal::Committed)
        } else if status == XFER_ST_ABORTED {
            close_slot(s, r, XferLocal::Aborted)
        } else if r.ask is First && status == XFER_ST_PENDING {
            (s, TurnView::Wait(ReplyView { ask: Ask::Idle, ..r }, STATUS_RETRY_MILLIS))
        } else {
            unsettled(s, r)
        }
    } else if now >= until {
        unsettled(PeerView { status_wait: s.status_wait.remove(tid), ..s }, r)
    } else {
        (s, TurnView::Wait(r, (until - now) as u64))
    }
}

/// One look at a reply whose transfers are not all decided.
pub open spec fn turn(s: PeerView, r: ReplyView, now: u64) -> (PeerView, TurnView) {
    if r.at >= r.slots.len() {
        (
            s,
            TurnView::Done(
                Ok(
                    if r.aborted.len() == 0 {
                        OutcomeView::Committed
                    } else {
                        OutcomeView::Aborted(r.aborted)
                    },
                ),
            ),
        )
    } else {
        let tid = r.slots[r.at as int].0;
        match r.ask {
            Ask::Idle => if s.xfer_done.contains_key(tid) {
                close_slot(s, r, s.xfer_done[tid])
            } else if now >= r.deadline {
                ask_again(s, r, now)
            } else {
                (s, TurnView::Wait(r, (r.deadline - now) as u64))
            },
            Ask::Unsure => ask_again(s, r, now),
            Ask::First(until) => take_status(s, r, until, now),
            Ask::Second(until) => take_status(s, r, until, now),
        }
    }
}

/// The first endpoint of the list that is live and not excluded.
pub open spec fn first_new(s: PeerView, order: Seq<EpId>, exclude: Seq<EpId>) -> Option<EpId>
    decreases order.len(),
{
    if order.len() == 0 {
        None
    } else if !exclude.contains(order[0]) && s.is_live(order[0]) {
        Some(order[0])
    } else {
        first_new(s, order.skip(1), exclude)
    }
}

} // verus!

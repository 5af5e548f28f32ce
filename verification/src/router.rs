//! Host-side routing state machine.
//!
//! Pure logic: the I/O glue calls `on_frame`-style methods under a lock and
//! acts on the returned outcomes.
//!
//! Authority rules:
//! - a peer may address only endpoints it currently holds,
//! - attachments move only endpoints the sender currently holds,
//! - attachment partner metadata must match fabric truth exactly (lying is
//!   a protocol violation),
//! - unknown identities are quarantined; stale but previously valid ones are
//!   rejected softly (drop and corrective notify),
//! - death of one side kills the whole logical conversation,
//! - identities are never reused.

use vstd::prelude::*;

use crate::fabric_error::Cause;
use crate::frame::{
    Attachment, DataInner, Frame, FrameView, NativeAttachment, SharedAttachment, XferMsg,
    ERR_CAPACITY, XFER_ST_ABORTED, XFER_ST_COMMITTED, XFER_ST_PENDING, XFER_ST_UNKNOWN,
};
use crate::id::{
    all_zero, fresh_id, fresh_transfer_id, BoundedTombstones, DrawError, EpId, IdSpace, TransferId,
    TransferSpace,
};
use crate::limits::Limits;
use crate::native::{NativeState, ResourceId};
use crate::router_inv::{inv, inv_but};
use crate::router_model::{
    abort_native, abort_shared, abort_xfer, accept, accept_transfer, acknowledge, check_all,
    check_one, claim, close, close_pair, commit_native, commit_shared, commit_xfer, create,
    create_draws, data, emit, endpoints_of, escrow_all, escrow_one, escrow_status, finish,
    force_abort, forget_peer, forward, fresh_pair, gate, gone, grant, grant_refusal, grant_region,
    grant_region_refusal, held_by, hello,
    initial, keep, late_answer, natives_of, offer_native, offer_shared, owed_to, purge_regions, region_move,
    reject_transfer, result_status, rights_claim, room_for_pair, settle_end, settle_ends,
    settle_native, settle_natives, settle_shared, settle_shareds, settle_xfer, settle_xfers,
    shareds_of, stale_notice, status_of, taken_id, taken_rid, taken_tid, touched, with_pair, xfer,
    xfers_of, Claim, DeliveryView, Outcome, Reply, Scan, State,
};
use crate::shared::{
    counted, region_creation, RegionAccounting, RegionErr, RegionId, RegionTable, Rights,
};
use crate::table::{key_list, lists_keys, Key, Table};

verus! {

/// A peer of the fabric, as the host numbers them.
#[derive(Clone, Copy, Debug, PartialEq, Eq, Hash, PartialOrd, Ord, Structural)]
pub struct PeerId(pub u32);

impl Key for PeerId {
    open spec fn code(self) -> u128 {
        self.0 as u128
    }

    proof fn code_injective(a: Self, b: Self) {
    }

    fn to_code(self) -> (c: u128) {
        self.0 as u128
    }
}

/// The number of the host itself as an authority holder. Peers are numbered
/// from zero, so this sentinel does not collide with a real one.
pub const HOST_PEER: u32 = 0xffff_ffff;

/// Who may use an endpoint.
#[derive(Clone, Copy, Debug, PartialEq, Eq)]
pub enum Holder {
    Peer(PeerId),
    Host,
    Escrow(TransferId),
}

impl Holder {
    /// Is the holder this peer?
    pub fn is_peer(&self, p: PeerId) -> (r: bool)
        ensures
            r == (*self == Holder::Peer(p)),
    {
        match self {
            Holder::Peer(q) => *q == p,
            _ => false,
        }
    }

    /// Is the holder the host?
    pub fn is_host(&self) -> (r: bool)
        ensures
            r == (*self == Holder::Host),
    {
        match self {
            Holder::Host => true,
            _ => false,
        }
    }
}

/// One end of a live conversation.
#[derive(Clone, Copy, Debug)]
pub struct EpEntry {
    pub partner: EpId,
    pub holder: Holder,
}

/// A message whose conversation partner is hosted by the host process itself.
/// The router does not interpret payloads; it merely surfaces them.
#[derive(Debug)]
pub struct HostDelivery {
    pub from: PeerId,
    pub target: EpId,
    pub corr: u32,
    pub payload: Vec<u8>,
}

/// What the I/O glue must do after a successfully processed frame.
#[derive(Debug)]
pub struct RouteOutcome {
    /// Frames to send, each with its destination.
    pub send: Vec<(PeerId, Frame)>,
    /// Messages to the host itself.
    pub to_host: Vec<HostDelivery>,
}

/// Events about endpoints that the host holds.
#[derive(Clone, Copy, Debug)]
pub enum HostEvent {
    EndpointClosed { ep: EpId, cause: Cause },
}

/// Why a peer is quarantined. The I/O glue drops its transport and then calls
/// `on_eof` to collapse dependent state (fail closed).
#[derive(Clone, Copy, Debug, PartialEq, Eq)]
pub struct Poison(pub &'static str);

#[derive(Clone, Copy, Debug, PartialEq, Eq, Structural)]
pub enum XferPhase {
    Offered,
    Committed,
    Aborted,
}

/// An endpoint transfer in flight.
#[derive(Clone, Copy, Debug)]
pub struct XferRec {
    pub tid: TransferId,
    pub ep: EpId,
    pub partner: EpId,
    pub sender: PeerId,
    pub dest: PeerId,
    /// Where authority returns on abort before commit.
    pub restore: Holder,
    pub phase: XferPhase,
}

/// A native resource in host escrow.
#[derive(Clone, Copy, Debug)]
pub struct NativeRec {
    pub tid: TransferId,
    pub rid: ResourceId,
    pub sender: PeerId,
    pub dest: PeerId,
    pub state: NativeState,
}

/// A shared-region capability in host escrow. Rights and size live in the
/// authoritative region table; this record tracks the transaction.
#[derive(Clone, Copy, Debug)]
pub struct SharedRec {
    pub tid: TransferId,
    pub rid: RegionId,
    pub rights: Rights,
    pub sender: PeerId,
    pub dest: PeerId,
    pub state: NativeState,
}

impl SharedRec {
    /// Whose word retires the result of this transfer: the sender's, and for
    /// what the host sent the recipient's, as the host is no peer.
    fn owed_to(&self) -> (r: PeerId)
        ensures
            r == owed_to(*self),
    {
        if self.sender == PeerId(HOST_PEER) {
            self.dest
        } else {
            self.sender
        }
    }
}

/// Delivery faults, for exercising recovery. Nothing is dropped unless set.
#[derive(Clone, Copy, Debug)]
pub struct Inject {
    pub drop_commit: bool,
    pub drop_committed: bool,
    pub drop_abort: bool,
    pub drop_offer: bool,
}

impl Inject {
    /// No fault.
    pub open spec fn none() -> Inject {
        Inject { drop_commit: false, drop_committed: false, drop_abort: false, drop_offer: false }
    }
}

impl Default for Inject {
    fn default() -> (r: Self)
        ensures
            r == Inject::none(),
    {
        Inject { drop_commit: false, drop_committed: false, drop_abort: false, drop_offer: false }
    }
}

/// State accounting snapshot.
#[derive(Clone, Copy, Debug, PartialEq, Eq, Structural)]
pub struct Accounting {
    pub peers: usize,
    pub live_endpoints: usize,
    pub retired_identities: usize,
    pub host_held: usize,
    pub pending_transfers: usize,
    pub escrowed: usize,
    pub unacked_results: usize,
    pub native_live: usize,
    pub native_pending: usize,
    pub native_unacked: usize,
    pub shared_pending: usize,
    pub shared_unacked: usize,
}

// ------------------------------------------------------------------ outcomes --

impl View for HostDelivery {
    type V = DeliveryView;

    open spec fn view(&self) -> DeliveryView {
        DeliveryView {
            from: self.from,
            target: self.target,
            corr: self.corr,
            payload: self.payload@,
        }
    }
}

impl View for RouteOutcome {
    type V = Outcome;

    open spec fn view(&self) -> Outcome {
        Outcome {
            send: self.send@.map_values(|e: (PeerId, Frame)| (e.0, e.1@)),
            to_host: self.to_host@.map_values(|h: HostDelivery| h@),
        }
    }
}

/// What a reply says.
pub open spec fn replied(r: Result<RouteOutcome, Poison>) -> Reply {
    match r {
        Ok(out) => Ok(out@),
        Err(p) => Err(p),
    }
}

impl Default for RouteOutcome {
    fn default() -> (r: Self)
        ensures
            r@ == Outcome::none(),
    {
        let r = RouteOutcome { send: Vec::new(), to_host: Vec::new() };
        assert(r@ =~= Outcome::none());
        r
    }
}

impl RouteOutcome {
    /// One frame to one peer.
    fn one(dest: PeerId, f: Frame) -> (r: Self)
        ensures
            r@ == Outcome::one(dest, f@),
    {
        let mut r = RouteOutcome::default();
        r.add_frame(dest, f);
        assert(r@ =~= Outcome::one(dest, f@));
        r
    }

    /// One more frame.
    fn add_frame(&mut self, dest: PeerId, f: Frame)
        ensures
            final(self)@ == old(self)@.and(true, dest, f@),
    {
        self.send.push((dest, f));
        assert(self@ =~= old(self)@.and(true, dest, f@));
    }
}

fn closed_notice(ep: EpId, cause: Cause) -> (f: Frame)
    ensures
        f@ == (FrameView::ClosedNotify { entries: seq![(ep, cause)] }),
{
    let mut entries: Vec<(EpId, Cause)> = Vec::new();
    entries.push((ep, cause));
    assert(entries@ =~= seq![(ep, cause)]);
    Frame::ClosedNotify { entries }
}

/// The rights that a wire byte claims.
pub fn decode_rights(b: u8) -> (r: Option<Rights>)
    ensures
        r == rights_claim(b),
{
    match b {
        0 => Some(Rights::ReadOnly),
        1 => Some(Rights::ReadWrite),
        _ => None,
    }
}

/// The byte that stands for the rights on the wire.
pub fn encode_rights(r: Rights) -> (b: u8)
    ensures
        b == r.byte(),
{
    r.wire_byte()
}

// -------------------------------------------------------------------- router --

/// The host's routing state.
pub struct Router {
    lim: Limits,
    peers: Table<PeerId, bool>,
    next_peer_raw: u32,
    eps: Table<EpId, EpEntry>,
    retired: BoundedTombstones<EpId>,
    xfers: Table<TransferId, XferRec>,
    results: Table<TransferId, (PeerId, Cause)>,
    native_pending: Table<TransferId, NativeRec>,
    native_results: Table<TransferId, (PeerId, Cause, ResourceId)>,
    native_live: Table<ResourceId, PeerId>,
    native_retired: BoundedTombstones<ResourceId>,
    regions: RegionTable,
    shared_pending: Table<TransferId, SharedRec>,
    shared_results: Table<TransferId, (PeerId, Cause, RegionId)>,
    shared_live: Table<RegionId, ()>,
    shared_retired: BoundedTombstones<RegionId>,
    host_events: Vec<HostEvent>,
    pub inject: Inject,
    collisions: u64,
}

impl View for Router {
    type V = State;

    closed spec fn view(&self) -> State {
        State {
            lim: self.lim,
            peers: self.peers@,
            next_peer: self.next_peer_raw as nat,
            eps: self.eps@,
            retired: self.retired@,
            xfers: self.xfers@,
            results: self.results@,
            native_pending: self.native_pending@,
            native_results: self.native_results@,
            native_live: self.native_live@,
            native_retired: self.native_retired@,
            regions: self.regions@,
            shared_pending: self.shared_pending@,
            shared_results: self.shared_results@,
            shared_live: self.shared_live@.dom(),
            shared_retired: self.shared_retired@,
            host_events: self.host_events@,
            inject: self.inject,
            collisions: self.collisions,
        }
    }
}

/// The endpoint identities that must not be drawn.
struct TakenIds<'a> {
    eps: &'a Table<EpId, EpEntry>,
    retired: &'a BoundedTombstones<EpId>,
    also: Option<EpId>,
}

impl<'a> IdSpace for TakenIds<'a> {
    closed spec fn has(&self, id: EpId) -> bool {
        self.eps@.contains_key(id) || self.retired@.has(id) || self.also == Some(id)
    }

    fn contains(&self, id: EpId) -> (r: bool) {
        self.eps.contains_key(id) || self.retired.contains(id) || match self.also {
            Some(x) => x == id,
            None => false,
        }
    }
}

/// The transfer identities that must not be drawn.
struct TakenTids<'a> {
    router: &'a Router,
}

impl<'a> TransferSpace for TakenTids<'a> {
    closed spec fn has(&self, id: TransferId) -> bool {
        taken_tid(self.router@, id)
    }

    fn contains(&self, id: TransferId) -> (r: bool) {
        self.router.transfer_id_taken(id)
    }
}

/// The quarantine reason that a failed draw gives.
fn draw_poison(e: DrawError) -> (p: Poison)
    ensures
        p == no_identity(e),
{
    match e {
        DrawError::EntropyFailed => Poison("OS entropy source failed"),
        DrawError::Exhausted => Poison("identity space exhausted"),
    }
}

/// Why no identity could be drawn.
pub open spec fn no_identity(e: DrawError) -> Poison {
    match e {
        DrawError::EntropyFailed => Poison("OS entropy source failed"),
        DrawError::Exhausted => Poison("identity space exhausted"),
    }
}

impl Router {
    /// The tables are consistent.
    pub closed spec fn tables_ok(&self) -> bool {
        &&& self.peers.wf()
        &&& self.eps.wf()
        &&& self.retired.wf()
        &&& self.xfers.wf()
        &&& self.results.wf()
        &&& self.native_pending.wf()
        &&& self.native_results.wf()
        &&& self.native_live.wf()
        &&& self.native_retired.wf()
        &&& self.regions.wf()
        &&& self.shared_pending.wf()
        &&& self.shared_results.wf()
        &&& self.shared_live.wf()
        &&& self.shared_retired.wf()
    }

    /// The tables are consistent and the state is one that can be reached.
    pub open spec fn wf(&self) -> bool {
        &&& self.tables_ok()
        &&& inv(self@)
    }

    /// A well-formed router is in a reachable state.
    pub proof fn lemma_wf(&self)
        requires
            self.wf(),
        ensures
            inv(self@),
    {
    }

    /// A router without peers.
    pub fn new(lim: Limits) -> (r: Self)
        ensures
            r.wf(),
            r@ == initial(lim),
    {
        let r = Router {
            lim,
            peers: Table::new(),
            next_peer_raw: 0,
            eps: Table::new(),
            retired: BoundedTombstones::new(lim.max_retired),
            xfers: Table::new(),
            results: Table::new(),
            native_pending: Table::new(),
            native_results: Table::new(),
            native_live: Table::new(),
            native_retired: BoundedTombstones::new(lim.max_retired),
            regions: RegionTable::new(),
            shared_pending: Table::new(),
            shared_results: Table::new(),
            shared_live: Table::new(),
            shared_retired: BoundedTombstones::new(lim.max_retired),
            host_events: Vec::new(),
            inject: Inject::default(),
            collisions: 0,
        };
        proof {
            crate::router_inv::lemma_initial(lim);
            assert(r@ =~= initial(lim));
        }
        r
    }

    /// The limits in force.
    pub fn limits(&self) -> (r: &Limits)
        ensures
            *r == self@.lim,
    {
        &self.lim
    }

    /// How many draws hit a taken identity.
    pub fn collisions(&self) -> (r: u64)
        ensures
            r == self@.collisions,
    {
        self.collisions
    }

    /// Takes the events that the host has yet to be told.
    pub fn take_host_events(&mut self) -> (r: Vec<HostEvent>)
        requires
            old(self).wf(),
        ensures
            final(self).wf(),
            r@ == old(self)@.host_events,
            final(self)@ == (State { host_events: Seq::empty(), ..old(self)@ }),
    {
        let mut r: Vec<HostEvent> = Vec::new();
        std::mem::swap(&mut r, &mut self.host_events);
        proof {
            let n = self@;
            let s = old(self)@;
            assert(n =~= State { host_events: Seq::empty(), ..s });
            assert forall|t: TransferId| #[trigger] crate::router_inv::homes(n, t) <= 1 by {
                assert(crate::router_inv::homes(s, t) <= 1);
            }
        }
        r
    }

    /// Does the transfer identity name any record?
    pub fn transfer_id_taken(&self, id: TransferId) -> (r: bool)
        ensures
            r == taken_tid(self@, id),
    {
        self.xfers.contains_key(id) || self.results.contains_key(id)
            || self.native_pending.contains_key(id) || self.native_results.contains_key(id)
            || self.shared_pending.contains_key(id) || self.shared_results.contains_key(id)
    }

    /// Is the endpoint identity in use or still remembered?
    pub fn endpoint_id_taken(&self, id: EpId) -> (r: bool)
        ensures
            r == taken_id(self@, id),
    {
        self.eps.contains_key(id) || self.retired.contains(id)
    }

    fn resource_id_taken(&self, id: ResourceId) -> (r: bool)
        ensures
            r == taken_rid(self@, id),
    {
        self.native_live.contains_key(id) || self.native_retired.contains(id)
    }

    /// Can one more peer be numbered?
    pub fn can_accept_peer(&self) -> (r: bool)
        ensures
            r == (self@.next_peer < u32::MAX),
    {
        self.next_peer_raw < u32::MAX
    }

    /// Numbers a new peer. It may send nothing but a hello.
    pub fn accept_peer(&mut self) -> (r: PeerId)
        requires
            old(self).wf(),
            old(self)@.next_peer < u32::MAX,
        ensures
            final(self).wf(),
            r == PeerId(old(self)@.next_peer as u32),
            final(self)@ == accept(old(self)@),
    {
        let id = PeerId(self.next_peer_raw);
        self.next_peer_raw = self.next_peer_raw + 1;
        self.peers.insert(id, false);
        proof {
            crate::router_inv::lemma_accept(old(self)@);
            assert(self@ =~= accept(old(self)@));
        }
        id
    }

    /// Is there room for one more conversation?
    pub fn has_room_for_pair(&self) -> (r: bool)
        requires
            self.wf(),
        ensures
            r == room_for_pair(self@),
    {
        let n: usize = self.eps.len();
        n <= self.lim.max_live_endpoints && self.lim.max_live_endpoints - n >= 2
    }

    fn put_pair(&mut self, a: EpId, b: EpId, holder: Holder)
        requires
            old(self).wf(),
            fresh_pair(old(self)@, a, b),
            room_for_pair(old(self)@),
            match holder {
                Holder::Peer(p) => old(self)@.peers.contains_key(p),
                Holder::Host => true,
                Holder::Escrow(_) => false,
            },
        ensures
            final(self).wf(),
            final(self)@ == with_pair(old(self)@, a, b, holder),
    {
        self.eps.insert(a, EpEntry { partner: b, holder });
        self.eps.insert(b, EpEntry { partner: a, holder });
        proof {
            crate::router_inv::lemma_with_pair(old(self)@, a, b, holder);
            assert(self@ =~= with_pair(old(self)@, a, b, holder));
        }
    }

    /// Draws the two identities of a new conversation.
    fn draw_pair(&self) -> (r: Result<(EpId, EpId), DrawError>)
        ensures
            r matches Ok((a, b)) ==> fresh_pair(self@, a, b),
    {
        let a = match fresh_id(&TakenIds { eps: &self.eps, retired: &self.retired, also: None }) {
            Ok(a) => a,
            Err(e) => {
                return Err(e);
            },
        };
        match fresh_id(&TakenIds { eps: &self.eps, retired: &self.retired, also: Some(a) }) {
            Ok(b) => Ok((a, b)),
            Err(e) => Err(e),
        }
    }

    /// The host creates a conversation that it holds at both ends, under two
    /// identities that were drawn for it. The ends are given out by `grant`.
    pub fn create_host_pair_with(&mut self, a: EpId, b: EpId)
        requires
            old(self).wf(),
            fresh_pair(old(self)@, a, b),
            room_for_pair(old(self)@),
        ensures
            final(self).wf(),
            final(self)@ == with_pair(old(self)@, a, b, Holder::Host),
    {
        self.put_pair(a, b, Holder::Host);
    }

    /// The host creates a conversation that it holds at both ends. The ends
    /// are given out by `grant`.
    pub fn create_host_pair(&mut self) -> (r: Result<(EpId, EpId), Poison>)
        requires
            old(self).wf(),
            room_for_pair(old(self)@),
        ensures
            final(self).wf(),
            match r {
                Ok((a, b)) => fresh_pair(old(self)@, a, b) && final(self)@ == with_pair(
                    old(self)@,
                    a,
                    b,
                    Holder::Host,
                ),
                Err(p) => final(self)@ == old(self)@ && exists|e: DrawError| p == no_identity(e),
            },
    {
        match self.draw_pair() {
            Ok((a, b)) => {
                self.create_host_pair_with(a, b);
                Ok((a, b))
            },
            Err(e) => Err(draw_poison(e)),
        }
    }

    /// The host offers an endpoint that it holds to a peer, under a transfer
    /// identity that was drawn for it. Authority stays in escrow until the
    /// peer accepts; it is not usable by the recipient before that.
    pub fn grant_with(&mut self, to: PeerId, ep: EpId, tid: TransferId) -> (r: Result<Frame, Poison>)
        requires
            old(self).wf(),
            !taken_tid(old(self)@, tid),
        ensures
            final(self).wf(),
            final(self)@ == grant(old(self)@, to, ep, tid).0,
            match grant(old(self)@, to, ep, tid).1 {
                Ok(f) => r is Ok && r->Ok_0@ == f,
                Err(p) => r is Err && r->Err_0 == p,
            },
    {
        proof {
            crate::router_inv::lemma_grant(old(self)@, to, ep, tid);
        }
        let partner = match self.grantable(ep) {
            Ok(partner) => partner,
            Err(p) => {
                return Err(p);
            },
        };
        self.eps.insert(ep, EpEntry { partner, holder: Holder::Escrow(tid) });
        self.xfers.insert(
            tid,
            XferRec {
                tid,
                ep,
                partner,
                sender: to,
                dest: to,
                restore: Holder::Host,
                phase: XferPhase::Offered,
            },
        );
        assert(self@ =~= grant(old(self)@, to, ep, tid).0);
        Ok(Frame::Grant { ep, partner, tid })
    }

    /// May the host offer the endpoint? If so, its partner.
    fn grantable(&self, ep: EpId) -> (r: Result<EpId, Poison>)
        requires
            self.wf(),
        ensures
            match grant_refusal(self@, ep) {
                Some(p) => r == Err::<EpId, Poison>(p),
                None => r == Ok::<EpId, Poison>(self@.eps[ep].partner),
            },
    {
        if self.xfers.len() + self.results.len() >= self.lim.max_pending_transfers {
            return Err(Poison("pending transfer table full"));
        }
        match self.eps.get(ep) {
            None => Err(Poison("grant of unknown/closed endpoint")),
            Some(e) => if e.holder.is_host() {
                Ok(e.partner)
            } else {
                Err(Poison("grant of endpoint not held by host"))
            },
        }
    }

    /// The host offers an endpoint that it holds to a peer. Whether it may is
    /// decided before an identity is drawn for the transfer.
    pub fn grant(&mut self, to: PeerId, ep: EpId) -> (r: Result<Frame, Poison>)
        requires
            old(self).wf(),
        ensures
            final(self).wf(),
            match r {
                Ok(f) => f@ is Grant && !taken_tid(old(self)@, f@->Grant_tid) && !all_zero(
                    f@->Grant_tid.0,
                ) && grant(old(self)@, to, ep, f@->Grant_tid) == (
                    final(self)@,
                    Ok::<FrameView, Poison>(f@),
                ),
                Err(_) => final(self)@ == old(self)@,
            },
            match grant_refusal(old(self)@, ep) {
                Some(p) => r is Err && r->Err_0 == p,
                None => r matches Err(p) ==> exists|e: DrawError| p == no_identity(e),
            },
    {
        if let Err(p) = self.grantable(ep) {
            return Err(p);
        }
        let tid = match fresh_transfer_id(&TakenTids { router: self }) {
            Ok(t) => t,
            Err(e) => {
                return Err(draw_poison(e));
            },
        };
        self.grant_with(to, ep, tid)
    }

    /// May the peer send traffic?
    fn ready(&self, from: PeerId) -> (r: Option<Poison>)
        ensures
            r == gate(self@, from),
    {
        match self.peers.get(from) {
            None => Some(Poison("frame from unknown peer")),
            Some(ready) => if *ready {
                None
            } else {
                Some(Poison("traffic before hello"))
            },
        }
    }

    fn require_owner(&self, from: PeerId, ep: EpId) -> (r: Claim)
        ensures
            r == claim(self@, from, ep),
    {
        match self.eps.get(ep) {
            None => if self.retired.contains(ep) {
                Claim::Stale
            } else {
                Claim::Denied(Poison("unknown endpoint identity"))
            },
            Some(e) => if e.holder.is_peer(from) {
                Claim::Held
            } else {
                // Held by another peer, the host or escrow: forged or replayed.
                Claim::Denied(Poison("identity not held by sender"))
            },
        }
    }

    fn stale_reply(&self, to: PeerId, ep: EpId) -> (r: RouteOutcome)
        ensures
            r@ == stale_notice(self@, to, ep),
    {
        let cause = match self.retired.get(ep) {
            Some(c) => c,
            None => Cause::Graceful,
        };
        RouteOutcome::one(to, closed_notice(ep, cause))
    }

    /// Both ends of a conversation die. Gives the surviving partner and its
    /// holder.
    fn close_conversation(&mut self, side: EpId, cause: Cause) -> (r: Option<(EpId, Holder)>)
        requires
            old(self).tables_ok(),
        ensures
            final(self).tables_ok(),
            final(self)@ == close_pair(old(self)@, side, cause),
            ({
                let s = old(self)@;
                if s.eps.contains_key(side) && s.eps.contains_key(s.eps[side].partner) {
                    r == Some((s.eps[side].partner, s.eps[s.eps[side].partner].holder))
                } else {
                    r is None
                }
            }),
    {
        let entry = match self.eps.get(side) {
            Some(e) => *e,
            None => {
                return None;
            },
        };
        let partner = entry.partner;
        let holder = match self.eps.get(partner) {
            Some(e) => e.holder,
            None => {
                return None;
            },
        };
        self.retired.insert(side, cause);
        self.retired.insert(partner, cause);
        let _ = self.eps.remove(side);
        let _ = self.eps.remove(partner);
        assert(self@ =~= close_pair(old(self)@, side, cause));
        Some((partner, holder))
    }

    /// Process a hello from `from`.
    pub fn on_hello(&mut self, from: PeerId, magic: u16, version: u16) -> (r: Result<(), Poison>)
        requires
            old(self).wf(),
        ensures
            final(self).wf(),
            (final(self)@, r) == hello(old(self)@, from, magic, version),
    {
        proof {
            crate::router_inv::lemma_hello(old(self)@, from, magic, version);
        }
        let ready = match self.peers.get(from) {
            Some(b) => *b,
            None => {
                return Err(Poison("hello from unknown peer"));
            },
        };
        if ready {
            return Err(Poison("duplicate hello"));
        }
        if magic != self.lim.hello_magic {
            return Err(Poison("bad hello magic"));
        }
        if version != self.lim.hello_version {
            return Err(Poison("bad protocol version"));
        }
        self.peers.insert(from, true);
        assert(self@ =~= hello(old(self)@, from, magic, version).0);
        Ok(())
    }

    fn check_attachments(&self, from: PeerId, atts: &Vec<Attachment>) -> (r: Scan)
        ensures
            r == check_all(self@, from, atts@),
    {
        let mut i: usize = 0;
        assert(atts@.take(0) =~= Seq::<Attachment>::empty());
        while i < atts.len()
            invariant
                i <= atts@.len(),
                check_all(self@, from, atts@.take(i as int)) is Clean,
            decreases atts@.len() - i,
        {
            let a = atts[i];
            let ghost prefix = atts@.take(i + 1);
            proof {
                assert(prefix.drop_last() =~= atts@.take(i as int));
                assert(prefix.last() == a);
                assert(check_all(self@, from, prefix) == check_one(self@, from, a));
                if !(check_one(self@, from, a) is Clean) {
                    crate::router_inv::lemma_check_prefix(self@, from, atts@, i + 1);
                }
            }
            match self.require_owner(from, a.id) {
                Claim::Denied(p) => {
                    return Scan::Denied(p);
                },
                Claim::Stale => {
                    return Scan::Stale(a.id);
                },
                Claim::Held => {
                    // The sender must name the true partner.
                    if let Some(e) = self.eps.get(a.id) {
                        if e.partner != a.partner {
                            return Scan::Denied(
                                Poison("attachment partner metadata contradicts fabric"),
                            );
                        }
                    }
                },
            }
            i = i + 1;
        }
        assert(atts@.take(i as int) =~= atts@);
        Scan::Clean
    }

    fn escrow_attachments(&mut self, from: PeerId, dest: PeerId, atts: &Vec<Attachment>) -> (r: bool)
        requires
            old(self).wf(),
            old(self)@.peers.contains_key(from),
            forall|i: int|
                0 <= i < atts@.len() ==> old(self)@.eps.contains_key(#[trigger] atts@[i].id),
            atts@.len() + old(self)@.xfers.len() + old(self)@.results.len()
                <= old(self)@.lim.max_pending_transfers,
        ensures
            final(self).wf(),
            (final(self)@, r) == escrow_all(old(self)@, from, dest, atts@),
    {
        let ghost s0 = self@;
        let mut i: usize = 0;
        proof {
            crate::router_inv::lemma_escrow_all(s0, from, dest, atts@);
            assert(atts@.take(0) =~= Seq::<Attachment>::empty());
        }
        while i < atts.len()
            invariant
                i <= atts@.len(),
                self.tables_ok(),
                s0 == old(self)@,
                inv(s0),
                s0.peers.contains_key(from),
                forall|k: int| 0 <= k < atts@.len() ==> s0.eps.contains_key(#[trigger] atts@[k].id),
                atts@.len() + s0.xfers.len() + s0.results.len() <= s0.lim.max_pending_transfers,
                inv(escrow_all(s0, from, dest, atts@).0),
                (self@, true) == escrow_all(s0, from, dest, atts@.take(i as int)),
            decreases atts@.len() - i,
        {
            let a = atts[i];
            let ghost prefix = atts@.take(i + 1);
            let ghost s1 = self@;
            proof {
                assert(prefix.drop_last() =~= atts@.take(i as int));
                assert(prefix.last() == a);
                let front = atts@.take(i as int);
                assert forall|k: int| 0 <= k < front.len() implies s0.eps.contains_key(
                    #[trigger] front[k].id,
                ) by {
                    assert(front[k] == atts@[k]);
                }
                crate::router_inv::lemma_escrow_all(s0, from, dest, front);
                assert(s0.eps.contains_key(atts@[i as int].id));
                assert(s1.eps.dom().contains(a.id));
                if taken_tid(s1, a.tid) {
                    crate::router_inv::lemma_escrow_prefix(s0, from, dest, atts@, i + 1);
                }
            }
            if self.transfer_id_taken(a.tid) {
                return false;
            }
            if let Some(e) = self.eps.get(a.id) {
                let partner = e.partner;
                self.eps.insert(a.id, EpEntry { partner, holder: Holder::Escrow(a.tid) });
            }
            self.xfers.insert(
                a.tid,
                XferRec {
                    tid: a.tid,
                    ep: a.id,
                    partner: a.partner,
                    sender: from,
                    dest,
                    restore: Holder::Peer(from),
                    phase: XferPhase::Offered,
                },
            );
            assert(self@ =~= escrow_one(s1, from, dest, a));
            i = i + 1;
        }
        assert(atts@.take(i as int) =~= atts@);
        true
    }

    /// Are `a` and `b` together at least `cap`?
    fn reaches(a: usize, b: usize, cap: usize) -> (r: bool)
        ensures
            r == (a + b >= cap),
    {
        a >= cap || b >= cap - a
    }

    fn stage_native(&mut self, from: PeerId, dest: PeerId, n: NativeAttachment) -> (r: Option<
        Result<RouteOutcome, Poison>,
    >)
        requires
            old(self).wf(),
        ensures
            final(self).wf(),
            final(self)@ == offer_native(old(self)@, from, dest, n).0,
            match offer_native(old(self)@, from, dest, n).1 {
                Some(reply) => r is Some && replied(r->Some_0) == reply,
                None => r is None,
            },
    {
        proof {
            crate::router_inv::lemma_offer_native(self@, from, dest, n);
        }
        if self.resource_id_taken(n.rid) || self.transfer_id_taken(n.tid) {
            return Some(Err(Poison("duplicate or reused native resource id")));
        }
        if Self::reaches(
            self.native_pending.len(),
            self.native_results.len(),
            self.lim.max_native_resources,
        ) || self.native_pending.len() >= self.lim.max_resources_in_escrow {
            return Some(Ok(RouteOutcome::one(from, Frame::Error(ERR_CAPACITY))));
        }
        if n.rid.is_zero() || n.tid.is_zero() {
            return Some(Err(Poison("zero native id")));
        }
        self.native_pending.insert(
            n.tid,
            NativeRec { tid: n.tid, rid: n.rid, sender: from, dest, state: NativeState::Escrowed },
        );
        assert(self@ =~= offer_native(old(self)@, from, dest, n).0);
        None
    }

    fn stage_shared(&mut self, from: PeerId, dest: PeerId, a: SharedAttachment) -> (r: Option<
        Result<RouteOutcome, Poison>,
    >)
        requires
            old(self).wf(),
        ensures
            final(self).wf(),
            final(self)@ == offer_shared(old(self)@, from, dest, a).0,
            match offer_shared(old(self)@, from, dest, a).1 {
                Some(reply) => r is Some && replied(r->Some_0) == reply,
                None => r is None,
            },
    {
        proof {
            crate::router_inv::lemma_offer_shared(self@, from, dest, a);
        }
        let rights = match decode_rights(a.rights) {
            Some(rights) => rights,
            None => {
                return Some(Err(Poison("unknown shared rights byte")));
            },
        };
        if self.transfer_id_taken(a.tid) {
            return Some(Err(Poison("duplicate or reused shared transfer id")));
        }
        if a.rid.is_zero() || a.tid.is_zero() {
            return Some(Err(Poison("zero shared id")));
        }
        if !self.regions.region_exists(a.rid) {
            return Some(Err(Poison("unknown region id")));
        }
        // Only the current holder may offer its authority onward; the writer
        // may also offer read-only.
        let writes = match self.regions.writable_holder(a.rid) {
            Some(w) => w == from,
            None => false,
        };
        let authorized = match rights {
            Rights::ReadWrite => writes,
            Rights::ReadOnly => writes || self.regions.is_readonly_holder(a.rid, from),
        };
        if !authorized {
            return Some(Err(Poison("shared rights claim denied")));
        }
        if Self::reaches(
            self.shared_pending.len(),
            self.shared_results.len(),
            self.lim.max_native_resources,
        ) || self.shared_pending.len() >= self.lim.max_resources_in_escrow {
            return Some(Ok(RouteOutcome::one(from, Frame::Error(ERR_CAPACITY))));
        }
        self.shared_pending.insert(
            a.tid,
            SharedRec {
                tid: a.tid,
                rid: a.rid,
                rights,
                sender: from,
                dest,
                state: NativeState::Escrowed,
            },
        );
        assert(self@ =~= offer_shared(old(self)@, from, dest, a).0);
        None
    }

    /// Escrows what a message offers, then sends it on to `dest`.
    fn forward_data(&mut self, from: PeerId, dest: PeerId, d: DataInner) -> (r: Result<
        RouteOutcome,
        Poison,
    >)
        requires
            old(self).wf(),
            old(self)@.peers.contains_key(from),
            check_all(old(self)@, from, d.attachments@) is Clean,
        ensures
            final(self).wf(),
            (final(self)@, replied(r)) == forward(old(self)@, from, dest, d@),
    {
        let used: usize = self.xfers.len() + self.results.len();
        if d.attachments.len() > self.lim.max_pending_transfers - used {
            // The sender still owns everything: nothing is in escrow yet.
            return Ok(RouteOutcome::one(from, Frame::Error(ERR_CAPACITY)));
        }
        proof {
            let atts = d.attachments@;
            assert forall|i: int| 0 <= i < atts.len() implies self@.eps.contains_key(
                #[trigger] atts[i].id,
            ) by {
                crate::router_inv::lemma_check_all(self@, from, atts, i);
            }
        }
        if !self.escrow_attachments(from, dest, &d.attachments) {
            return Err(Poison("duplicate or reused transfer id"));
        }
        assert(self@.inject == old(self)@.inject) by {
            crate::router_inv::lemma_escrow_all(old(self)@, from, dest, d.attachments@);
        }
        if let Some(n) = d.native {
            if let Some(reply) = self.stage_native(from, dest, n) {
                return reply;
            }
        }
        if let Some(a) = d.shared {
            if let Some(reply) = self.stage_shared(from, dest, a) {
                return reply;
            }
        }
        if self.inject.drop_offer {
            return Ok(RouteOutcome::default());
        }
        Ok(RouteOutcome::one(dest, Frame::Data(d)))
    }

    /// Process a message from `from`.
    pub fn on_data(&mut self, from: PeerId, f: DataInner) -> (r: Result<RouteOutcome, Poison>)
        requires
            old(self).wf(),
        ensures
            final(self).wf(),
            (final(self)@, replied(r)) == data(old(self)@, from, f@),
    {
        if let Some(p) = self.ready(from) {
            return Err(p);
        }
        match self.require_owner(from, f.target) {
            Claim::Denied(p) => {
                return Err(p);
            },
            Claim::Stale => {
                return Ok(self.stale_reply(from, f.target));
            },
            Claim::Held => {},
        }
        // The recipient is whoever holds the partner now.
        let partner = match self.eps.get(f.target) {
            Some(e) => e.partner,
            None => {
                return Err(Poison("broken pairing"));
            },
        };
        let recipient = match self.eps.get(partner) {
            Some(e) => e.holder,
            None => {
                return Err(Poison("broken pairing"));
            },
        };
        match self.check_attachments(from, &f.attachments) {
            Scan::Denied(p) => {
                return Err(p);
            },
            Scan::Stale(id) => {
                return Ok(self.stale_reply(from, id));
            },
            Scan::Clean => {},
        }
        match recipient {
            Holder::Escrow(_) => Err(Poison("conversation partner is in escrow")),
            Holder::Host => {
                if f.attachments.len() > 0 {
                    return Err(Poison("cannot escrow-transfer to host-held partner"));
                }
                let mut out = RouteOutcome::default();
                let ghost delivery = DeliveryView {
                    from,
                    target: f.target,
                    corr: f.corr,
                    payload: f.payload@,
                };
                out.to_host.push(
                    HostDelivery { from, target: f.target, corr: f.corr, payload: f.payload },
                );
                assert(out@.to_host =~= seq![delivery]);
                Ok(out)
            },
            Holder::Peer(dest) => self.forward_data(from, dest, f),
        }
    }

    /// Registers a new region; the host is its first writer.
    pub fn region_create(&mut self, rid: RegionId, size: u64, lim: &Limits) -> (r: Result<(), RegionErr>)
        requires
            old(self).wf(),
        ensures
            final(self).wf(),
            match region_creation(old(self)@.regions, rid, size, PeerId(HOST_PEER), *lim) {
                Ok(m) => r is Ok && final(self)@ == (State { regions: m, ..old(self)@ }),
                Err(e) => r == Err::<(), RegionErr>(e) && final(self)@ == old(self)@,
            },
    {
        let r = self.regions.create_region(rid, size, PeerId(HOST_PEER), lim);
        proof {
            let n = self@;
            let s = old(self)@;
            self.regions.lemma_wf();
            assert(n =~= State { regions: self.regions@, ..s });
            assert forall|t: TransferId| #[trigger] crate::router_inv::homes(n, t) <= 1 by {
                assert(crate::router_inv::homes(s, t) <= 1);
            }
            assert forall|k: RegionId, q: PeerId|
                #![trigger n.regions[k].held_by(q)]
                n.regions.contains_key(k) && n.regions[k].held_by(q) implies q == PeerId(HOST_PEER)
                || crate::router_inv::live_or(n, q, None) by {
                if s.regions.contains_key(k) && n.regions[k] == s.regions[k] {
                    assert(s.regions[k].held_by(q));
                }
            }
        }
        r
    }

    /// The size of a region.
    pub fn region_size(&self, rid: RegionId) -> (r: Option<u64>)
        ensures
            r == (if self@.regions.contains_key(rid) {
                Some(self@.regions[rid].size)
            } else {
                None
            }),
    {
        self.regions.size_of(rid)
    }

    /// The writer of a region, if it has one.
    pub fn region_writable_holder(&self, rid: RegionId) -> (r: Option<PeerId>)
        ensures
            r == (if self@.regions.contains_key(rid) {
                self@.regions[rid].writable
            } else {
                None
            }),
    {
        self.regions.writable_holder(rid)
    }

    /// The host offers a region capability to `dest`, under a transfer
    /// identity that was drawn for it. On acceptance it commits exactly like
    /// a transfer between peers.
    pub fn host_grant_region_with(
        &mut self,
        dest: PeerId,
        target: EpId,
        corr: u32,
        rid: RegionId,
        rights: Rights,
        tid: TransferId,
    ) -> (r: Result<RouteOutcome, Poison>)
        requires
            old(self).wf(),
            !taken_tid(old(self)@, tid),
        ensures
            final(self).wf(),
            (final(self)@, replied(r)) == grant_region(
                old(self)@,
                dest,
                target,
                corr,
                rid,
                rights,
                tid,
            ),
    {
        proof {
            crate::router_inv::lemma_grant_region(self@, dest, target, corr, rid, rights, tid);
        }
        if let Some(p) = self.grant_region_refused(dest, rid, rights) {
            return Err(p);
        }
        self.shared_pending.insert(
            tid,
            SharedRec {
                tid,
                rid,
                rights,
                sender: PeerId(HOST_PEER),
                dest,
                state: NativeState::Escrowed,
            },
        );
        let d = DataInner {
            target,
            corr,
            attachments: Vec::new(),
            payload: Vec::new(),
            native: None,
            shared: Some(
                SharedAttachment { tid, rid, rights: encode_rights(rights), handle_value: 0 },
            ),
        };
        proof {
            let want = grant_region(old(self)@, dest, target, corr, rid, rights, tid);
            assert(self@ =~= want.0);
            assert(d@ =~= want.1->Ok_0.send[0].1->Data_0);
        }
        Ok(RouteOutcome::one(dest, Frame::Data(d)))
    }

    /// Why the host may not offer the region capability, if it may not.
    fn grant_region_refused(&self, dest: PeerId, rid: RegionId, rights: Rights) -> (r: Option<Poison>)
        requires
            self.wf(),
        ensures
            r == grant_region_refusal(self@, dest, rid, rights),
    {
        if !self.regions.region_exists(rid) {
            return Some(Poison("unknown region id"));
        }
        // The host holds no wire conversation with itself.
        if dest == PeerId(HOST_PEER) {
            return Some(Poison("cannot grant to host sentinel"));
        }
        // One writer ever: granting it requires the host to hold it.
        let host_writes = match self.regions.writable_holder(rid) {
            Some(w) => w == PeerId(HOST_PEER),
            None => false,
        };
        if rights.is_writable() && !host_writes {
            return Some(Poison("second writer denied"));
        }
        if self.shared_pending.len() >= self.lim.max_resources_in_escrow {
            return Some(Poison("shared escrow capacity"));
        }
        None
    }

    /// The host offers a region capability to `dest`. Whether it may is
    /// decided before an identity is drawn for the transfer.
    pub fn host_grant_region(
        &mut self,
        dest: PeerId,
        target: EpId,
        corr: u32,
        rid: RegionId,
        rights: Rights,
    ) -> (r: Result<(TransferId, RouteOutcome), Poison>)
        requires
            old(self).wf(),
        ensures
            final(self).wf(),
            match r {
                Ok((tid, out)) => !all_zero(tid.0) && !taken_tid(old(self)@, tid) && (
                    final(self)@,
                    Ok::<Outcome, Poison>(out@),
                ) == grant_region(old(self)@, dest, target, corr, rid, rights, tid),
                Err(_) => final(self)@ == old(self)@,
            },
            match grant_region_refusal(old(self)@, dest, rid, rights) {
                Some(p) => r is Err && r->Err_0 == p,
                None => r matches Err(p) ==> exists|e: DrawError| p == no_identity(e),
            },
    {
        if let Some(p) = self.grant_region_refused(dest, rid, rights) {
            return Err(p);
        }
        let tid = match fresh_transfer_id(&TakenTids { router: self }) {
            Ok(t) => t,
            Err(e) => {
                return Err(draw_poison(e));
            },
        };
        match self.host_grant_region_with(dest, target, corr, rid, rights, tid) {
            Ok(out) => Ok((tid, out)),
            Err(p) => Err(p),
        }
    }

    /// The host sends on an endpoint that it holds.
    pub fn host_emit(&mut self, target: EpId, corr: u32, payload: Vec<u8>) -> (r: Result<
        RouteOutcome,
        Poison,
    >)
        requires
            old(self).wf(),
        ensures
            final(self).wf(),
            final(self)@ == old(self)@,
            replied(r) == emit(old(self)@, target, corr, payload@),
    {
        let entry = match self.eps.get(target) {
            Some(e) => *e,
            None => {
                return Err(Poison("host emit on unknown/closed endpoint"));
            },
        };
        if !entry.holder.is_host() {
            return Err(Poison("host emit on endpoint not held by host"));
        }
        let holder = match self.eps.get(entry.partner) {
            Some(e) => e.holder,
            None => {
                return Err(Poison("broken pairing"));
            },
        };
        if let Holder::Peer(dest) = holder {
            let ghost bytes = payload@;
            let d = DataInner {
                target,
                corr,
                attachments: Vec::new(),
                payload,
                native: None,
                shared: None,
            };
            assert(d@ =~= emit(old(self)@, target, corr, bytes)->Ok_0.send[0].1->Data_0);
            return Ok(RouteOutcome::one(dest, Frame::Data(d)));
        }
        Ok(RouteOutcome::default())
    }

    /// Process the close of one end by its current holder.
    pub fn on_close(&mut self, from: PeerId, target: EpId) -> (r: Result<RouteOutcome, Poison>)
        requires
            old(self).wf(),
        ensures
            final(self).wf(),
            (final(self)@, replied(r)) == close(old(self)@, from, target),
    {
        proof {
            crate::router_inv::lemma_close(self@, from, target);
        }
        if let Some(p) = self.ready(from) {
            return Err(p);
        }
        match self.require_owner(from, target) {
            Claim::Denied(p) => {
                return Err(p);
            },
            Claim::Stale => {
                return Ok(self.stale_reply(from, target));
            },
            Claim::Held => {},
        }
        let ghost s = self@;
        assert(s.eps.contains_key(s.eps[target].partner));
        match self.close_conversation(target, Cause::Graceful) {
            Some((survivor, Holder::Peer(q))) => {
                Ok(RouteOutcome::one(q, closed_notice(survivor, Cause::Graceful)))
            },
            Some((survivor, Holder::Host)) => {
                self.host_events.push(
                    HostEvent::EndpointClosed { ep: survivor, cause: Cause::Graceful },
                );
                assert(self@ =~= close(s, from, target).0);
                Ok(RouteOutcome::default())
            },
            _ => Ok(RouteOutcome::default()),
        }
    }

    /// Process a request for a conversation, with two identities that were
    /// drawn for it. Both ends are first held by the requesting peer. Running
    /// out of room is a resource condition, not corruption.
    pub fn on_create_with(&mut self, from: PeerId, a: EpId, b: EpId) -> (r: Result<RouteOutcome, Poison>)
        requires
            old(self).wf(),
            fresh_pair(old(self)@, a, b),
        ensures
            final(self).wf(),
            (final(self)@, replied(r)) == create(old(self)@, from, a, b),
    {
        if let Some(p) = self.ready(from) {
            return Err(p);
        }
        if !self.has_room_for_pair() || self.results.len() >= self.lim.max_pending_transfers {
            return Ok(RouteOutcome::one(from, Frame::Error(ERR_CAPACITY)));
        }
        self.put_pair(a, b, Holder::Peer(from));
        Ok(RouteOutcome::one(from, Frame::CreateAck { impl_ep: a, transferable_ep: b }))
    }

    /// Would a request for a conversation draw identities? If not, it is
    /// refused, or there is no room for it.
    pub fn create_draws(&self, from: PeerId) -> (r: bool)
        requires
            self.wf(),
        ensures
            r == create_draws(self@, from),
    {
        self.ready(from).is_none() && self.has_room_for_pair() && self.results.len()
            < self.lim.max_pending_transfers
    }

    /// Process a request for a conversation.
    pub fn on_create(&mut self, from: PeerId) -> (r: Result<RouteOutcome, Poison>)
        requires
            old(self).wf(),
        ensures
            final(self).wf(),
            if create_draws(old(self)@, from) {
                match r {
                    Ok(out) => exists|a: EpId, b: EpId| #[trigger]
                        fresh_pair(old(self)@, a, b) && (final(self)@, replied(r)) == create(
                            old(self)@,
                            from,
                            a,
                            b,
                        ),
                    Err(p) => final(self)@ == old(self)@ && exists|e: DrawError| p == no_identity(e),
                }
            } else {
                forall|a: EpId, b: EpId| #[trigger]
                    create(old(self)@, from, a, b) == (final(self)@, replied(r))
            },
    {
        if let Some(p) = self.ready(from) {
            return Err(p);
        }
        if !self.has_room_for_pair() || self.results.len() >= self.lim.max_pending_transfers {
            return Ok(RouteOutcome::one(from, Frame::Error(ERR_CAPACITY)));
        }
        match self.draw_pair() {
            Ok((a, b)) => self.on_create_with(from, a, b),
            Err(e) => Err(draw_poison(e)),
        }
    }

    /// A host-only frame from a peer, or any other protocol crime that the
    /// I/O glue detects.
    pub fn on_illegal(&mut self, _from: PeerId, why: &'static str) -> (r: Poison)
        ensures
            r == Poison(why),
            *final(self) == *old(self),
    {
        Poison(why)
    }

    // ------------------------------------------------------ transfer control --

    fn finish_xfer(&mut self, tid: TransferId, sender: PeerId, phase: XferPhase)
        requires
            old(self).tables_ok(),
        ensures
            final(self).tables_ok(),
            final(self)@ == finish(old(self)@, tid, sender, phase),
    {
        let _ = self.xfers.remove(tid);
        let c = if phase == XferPhase::Committed {
            Cause::PeerLost
        } else {
            Cause::Graceful
        };
        self.results.insert(tid, (sender, c));
        assert(self@ =~= finish(old(self)@, tid, sender, phase));
    }

    /// Changes the holder of an endpoint, if it is live.
    fn set_holder(&mut self, ep: EpId, holder: Holder) -> (r: bool)
        requires
            old(self).tables_ok(),
        ensures
            final(self).tables_ok(),
            r == old(self)@.eps.contains_key(ep),
            final(self)@ == (if r {
                held_by(old(self)@, ep, holder)
            } else {
                old(self)@
            }),
    {
        match self.eps.get(ep) {
            Some(e) => {
                let partner = e.partner;
                self.eps.insert(ep, EpEntry { partner, holder });
                assert(self@ =~= held_by(old(self)@, ep, holder));
                true
            },
            None => false,
        }
    }

    fn xfer_commit_inner(&mut self, tid: TransferId) -> (r: Result<RouteOutcome, Poison>)
        requires
            old(self).tables_ok(),
        ensures
            final(self).tables_ok(),
            (final(self)@, replied(r)) == commit_xfer(old(self)@, tid),
    {
        let x = match self.xfers.get(tid) {
            Some(x) => *x,
            None => {
                return Err(Poison("unknown transfer id"));
            },
        };
        if x.phase != XferPhase::Offered {
            return Ok(RouteOutcome::default());
        }
        if !self.set_holder(x.ep, Holder::Peer(x.dest)) {
            return Err(Poison("escrowed endpoint missing"));
        }
        self.finish_xfer(tid, x.sender, XferPhase::Committed);
        let mut out = RouteOutcome::default();
        if !self.inject.drop_commit {
            out.add_frame(
                x.dest,
                Frame::Xfer(XferMsg::Commit { tid, ep: x.ep, partner: x.partner }),
            );
        }
        if !self.inject.drop_committed {
            out.add_frame(x.sender, Frame::Xfer(XferMsg::Committed { tid }));
        }
        Ok(out)
    }

    fn xfer_abort_inner(&mut self, tid: TransferId) -> (r: Result<RouteOutcome, Poison>)
        requires
            old(self).tables_ok(),
        ensures
            final(self).tables_ok(),
            (final(self)@, replied(r)) == abort_xfer(old(self)@, tid),
    {
        let x = match self.xfers.get(tid) {
            Some(x) => *x,
            None => {
                return Err(Poison("unknown transfer id"));
            },
        };
        if x.phase != XferPhase::Offered {
            return Ok(RouteOutcome::default());
        }
        let _ = self.set_holder(x.ep, x.restore);
        self.finish_xfer(tid, x.sender, XferPhase::Aborted);
        let mut out = RouteOutcome::default();
        if !self.inject.drop_abort {
            if let Holder::Peer(p) = x.restore {
                if self.peers.contains_key(p) {
                    out.add_frame(p, Frame::Xfer(XferMsg::Abort { tid }));
                }
            }
            if x.dest != x.sender && self.peers.contains_key(x.dest) {
                out.add_frame(x.dest, Frame::Xfer(XferMsg::Abort { tid }));
            }
        }
        Ok(out)
    }

    fn native_commit_inner(&mut self, tid: TransferId) -> (r: Result<RouteOutcome, Poison>)
        requires
            old(self).tables_ok(),
        ensures
            final(self).tables_ok(),
            (final(self)@, replied(r)) == commit_native(old(self)@, tid),
    {
        let rec = match self.native_pending.get(tid) {
            Some(n) => *n,
            None => {
                return Err(Poison("unknown native transfer"));
            },
        };
        if rec.state != NativeState::Escrowed {
            return Ok(RouteOutcome::default());
        }
        let _ = self.native_pending.remove(tid);
        self.native_results.insert(tid, (rec.sender, Cause::PeerLost, rec.rid));
        self.native_live.insert(rec.rid, rec.dest);
        let mut out = RouteOutcome::default();
        // The host fills the handle in with one that is valid for the
        // recipient.
        if !self.inject.drop_commit {
            out.add_frame(
                rec.dest,
                Frame::Xfer(XferMsg::NativeCommit { tid, rid: rec.rid, handle_value: 0 }),
            );
        }
        if !self.inject.drop_committed {
            out.add_frame(rec.sender, Frame::Xfer(XferMsg::Committed { tid }));
        }
        assert(self@ =~= commit_native(old(self)@, tid).0);
        Ok(out)
    }

    fn native_abort_inner(&mut self, tid: TransferId) -> (r: Result<RouteOutcome, Poison>)
        requires
            old(self).tables_ok(),
        ensures
            final(self).tables_ok(),
            (final(self)@, replied(r)) == abort_native(old(self)@, tid),
    {
        let rec = match self.native_pending.get(tid) {
            Some(n) => *n,
            None => {
                return Err(Poison("unknown native transfer"));
            },
        };
        if rec.state != NativeState::Escrowed {
            return Ok(RouteOutcome::default());
        }
        let _ = self.native_pending.remove(tid);
        self.native_results.insert(tid, (rec.sender, Cause::Graceful, rec.rid));
        let mut out = RouteOutcome::default();
        if !self.inject.drop_abort {
            if self.peers.contains_key(rec.sender) {
                out.add_frame(rec.sender, Frame::Xfer(XferMsg::Abort { tid }));
            }
            if rec.dest != rec.sender && self.peers.contains_key(rec.dest) {
                out.add_frame(rec.dest, Frame::Xfer(XferMsg::Abort { tid }));
            }
        }
        assert(self@ =~= abort_native(old(self)@, tid).0);
        Ok(out)
    }

    /// Moves authority in the rights graph, or says why not.
    fn move_region(&mut self, rec: &SharedRec) -> (r: Result<(), Poison>)
        requires
            old(self).tables_ok(),
        ensures
            final(self).tables_ok(),
            match region_move(old(self)@.regions, *rec, old(self)@.lim) {
                Ok(m) => r is Ok && final(self)@ == (State { regions: m, ..old(self)@ }),
                Err(p) => r == Err::<(), Poison>(p) && final(self)@ == old(self)@,
            },
    {
        let host = rec.sender == PeerId(HOST_PEER);
        let r = match rec.rights {
            Rights::ReadWrite => match self.regions.transfer_writable(rec.rid, rec.sender, rec.dest) {
                Ok(()) => Ok(()),
                Err(_) => Err(
                    if host {
                        Poison("second writer denied")
                    } else {
                        Poison("writer transfer denied")
                    },
                ),
            },
            Rights::ReadOnly => if host {
                match self.regions.grant_read_only(rec.rid, rec.dest, &self.lim) {
                    Ok(()) => Ok(()),
                    Err(_) => Err(Poison("readonly grant denied")),
                }
            } else {
                match self.regions.transfer_read_only(rec.rid, rec.sender, rec.dest) {
                    Ok(()) => Ok(()),
                    Err(_) => Err(Poison("readonly transfer denied")),
                }
            },
        };
        assert(self@ =~= State { regions: self.regions@, ..old(self)@ });
        r
    }

    fn shared_commit_inner(&mut self, tid: TransferId) -> (r: Result<RouteOutcome, Poison>)
        requires
            old(self).tables_ok(),
        ensures
            final(self).tables_ok(),
            (final(self)@, replied(r)) == commit_shared(old(self)@, tid),
    {
        let rec = match self.shared_pending.get(tid) {
            Some(n) => *n,
            None => {
                return Err(Poison("unknown shared transfer"));
            },
        };
        if rec.state != NativeState::Escrowed {
            return Ok(RouteOutcome::default());
        }
        // Authority moves first: a refused move ends here, before any frame
        // is emitted.
        if let Err(p) = self.move_region(&rec) {
            return Err(p);
        }
        let _ = self.shared_pending.remove(tid);
        self.shared_results.insert(tid, (rec.owed_to(), Cause::PeerLost, rec.rid));
        self.shared_live.insert(rec.rid, ());
        let mut out = RouteOutcome::default();
        let size: u64 = match self.regions.size_of(rec.rid) {
            Some(n) => n,
            None => 0,
        };
        // The host fills the handle in with one that is valid for the
        // recipient.
        if !self.inject.drop_commit {
            out.add_frame(
                rec.dest,
                Frame::Xfer(
                    XferMsg::SharedCommit {
                        tid,
                        rid: rec.rid,
                        rights: encode_rights(rec.rights),
                        size,
                        handle_value: 0,
                    },
                ),
            );
        }
        if !self.inject.drop_committed && rec.sender != PeerId(HOST_PEER) {
            out.add_frame(rec.sender, Frame::Xfer(XferMsg::Committed { tid }));
        }
        proof {
            assert(self@.regions.contains_key(rec.rid));
            assert(self@ =~= commit_shared(old(self)@, tid).0);
        }
        Ok(out)
    }

    fn shared_abort_inner(&mut self, tid: TransferId) -> (r: Result<RouteOutcome, Poison>)
        requires
            old(self).tables_ok(),
        ensures
            final(self).tables_ok(),
            (final(self)@, replied(r)) == abort_shared(old(self)@, tid),
    {
        let rec = match self.shared_pending.get(tid) {
            Some(n) => *n,
            None => {
                return Err(Poison("unknown shared transfer"));
            },
        };
        if rec.state != NativeState::Escrowed {
            return Ok(RouteOutcome::default());
        }
        // Authority never left the sender: the rights graph is untouched.
        let _ = self.shared_pending.remove(tid);
        self.shared_results.insert(tid, (rec.owed_to(), Cause::Graceful, rec.rid));
        let mut out = RouteOutcome::default();
        if !self.inject.drop_abort {
            if rec.sender != PeerId(HOST_PEER) && self.peers.contains_key(rec.sender) {
                out.add_frame(rec.sender, Frame::Xfer(XferMsg::Abort { tid }));
            }
            if self.peers.contains_key(rec.dest) {
                out.add_frame(rec.dest, Frame::Xfer(XferMsg::Abort { tid }));
            }
        }
        assert(self@ =~= abort_shared(old(self)@, tid).0);
        Ok(out)
    }

    /// Where a transfer stands.
    pub fn xfer_status(&self, tid: TransferId) -> (r: u8)
        ensures
            r == status_of(self@, tid),
    {
        if let Some(x) = self.xfers.get(tid) {
            return match x.phase {
                XferPhase::Offered => XFER_ST_PENDING,
                XferPhase::Committed => XFER_ST_COMMITTED,
                XferPhase::Aborted => XFER_ST_ABORTED,
            };
        }
        if let Some(n) = self.native_pending.get(tid) {
            return Self::escrow_code(n.state);
        }
        if let Some(n) = self.shared_pending.get(tid) {
            return Self::escrow_code(n.state);
        }
        if let Some(r) = self.results.get(tid) {
            return Self::result_code(r.1);
        }
        if let Some(r) = self.native_results.get(tid) {
            return Self::result_code(r.1);
        }
        if let Some(r) = self.shared_results.get(tid) {
            return Self::result_code(r.1);
        }
        XFER_ST_UNKNOWN
    }

    fn escrow_code(n: NativeState) -> (r: u8)
        ensures
            r == escrow_status(n),
    {
        match n {
            NativeState::Escrowed => XFER_ST_PENDING,
            NativeState::Committed => XFER_ST_COMMITTED,
            NativeState::Aborted => XFER_ST_ABORTED,
        }
    }

    fn result_code(c: Cause) -> (r: u8)
        ensures
            r == result_status(c),
    {
        match c {
            Cause::PeerLost => XFER_ST_COMMITTED,
            Cause::Graceful => XFER_ST_ABORTED,
        }
    }

    fn late_reply(&self, tid: TransferId) -> (r: Result<RouteOutcome, Poison>)
        ensures
            (self@, replied(r)) == late_answer(self@, tid),
    {
        let st: u8 = self.xfer_status(tid);
        if st == XFER_ST_COMMITTED || st == XFER_ST_ABORTED {
            Ok(RouteOutcome::default())
        } else {
            Err(Poison("unknown transfer id"))
        }
    }

    /// How many endpoints a peer holds.
    fn dest_live_count(&self, dest: PeerId) -> (n: usize)
        requires
            self.wf(),
        ensures
            n == endpoints_of(self@, dest).len(),
    {
        let sides = self.touched_by(dest);
        proof {
            let p = |e: EpId| self@.eps[e].holder == Holder::Peer(dest);
            crate::table::lemma_key_list_lists(self@.eps.dom());
            crate::table::lemma_count_keys(key_list(self@.eps.dom()), self@.eps.dom(), p);
            assert(endpoints_of(self@, dest) =~= self@.eps.dom().filter(p));
            assert(touched(self@, dest) == key_list(self@.eps.dom()).filter(p));
        }
        sides.len()
    }

    /// The recipient `from` accepts a transfer. Accepting once more, or after
    /// the transfer ended, changes nothing.
    pub fn xfer_accept(&mut self, from: PeerId, tid: TransferId) -> (r: Result<RouteOutcome, Poison>)
        requires
            old(self).wf(),
            old(self)@.peers.contains_key(from),
        ensures
            final(self).wf(),
            (final(self)@, replied(r)) == accept_transfer(old(self)@, from, tid),
    {
        proof {
            let s = self@;
            crate::router_inv::lemma_abort_xfer(s, tid, None);
            crate::router_inv::lemma_abort_native(s, tid, None);
            crate::router_inv::lemma_commit_native(s, tid);
            if s.xfers.contains_key(tid) && s.xfers[tid].dest == from {
                crate::router_inv::lemma_commit_xfer(s, tid);
            }
            if s.shared_pending.contains_key(tid) && s.shared_pending[tid].dest == from {
                crate::router_inv::lemma_commit_shared(s, tid);
            }
        }
        if let Some(x) = self.xfers.get(tid) {
            if x.dest != from {
                return Err(Poison("accept from wrong recipient"));
            }
            if x.phase != XferPhase::Offered {
                return Ok(RouteOutcome::default());
            }
            if self.dest_live_count(from) >= self.lim.max_live_endpoints {
                return self.xfer_abort_inner(tid);
            }
            return self.xfer_commit_inner(tid);
        }
        if let Some(n) = self.native_pending.get(tid) {
            if n.dest != from {
                return Err(Poison("accept from wrong recipient"));
            }
            if n.state != NativeState::Escrowed {
                return Ok(RouteOutcome::default());
            }
            if self.native_live.len() >= self.lim.max_native_resources {
                return self.native_abort_inner(tid);
            }
            return self.native_commit_inner(tid);
        }
        if let Some(n) = self.shared_pending.get(tid) {
            if n.dest != from {
                return Err(Poison("accept from wrong recipient"));
            }
            if n.state != NativeState::Escrowed {
                return Ok(RouteOutcome::default());
            }
            return self.shared_commit_inner(tid);
        }
        self.late_reply(tid)
    }

    /// One side calls a transfer off.
    fn xfer_reject(&mut self, from: PeerId, tid: TransferId) -> (r: Result<RouteOutcome, Poison>)
        requires
            old(self).wf(),
        ensures
            final(self).wf(),
            (final(self)@, replied(r)) == reject_transfer(old(self)@, from, tid),
    {
        proof {
            crate::router_inv::lemma_abort_xfer(self@, tid, None);
            crate::router_inv::lemma_abort_native(self@, tid, None);
            crate::router_inv::lemma_abort_shared(self@, tid, None);
        }
        if let Some(x) = self.xfers.get(tid) {
            if x.dest != from && x.sender != from {
                return Err(Poison("abort from unrelated peer"));
            }
            if x.phase != XferPhase::Offered {
                return Ok(RouteOutcome::default());
            }
            return self.xfer_abort_inner(tid);
        }
        if let Some(n) = self.native_pending.get(tid) {
            if n.dest != from && n.sender != from {
                return Err(Poison("abort from unrelated peer"));
            }
            if n.state != NativeState::Escrowed {
                return Ok(RouteOutcome::default());
            }
            return self.native_abort_inner(tid);
        }
        if let Some(n) = self.shared_pending.get(tid) {
            if n.dest != from && n.sender != from && n.sender != PeerId(HOST_PEER) {
                return Err(Poison("abort from unrelated peer"));
            }
            if n.state != NativeState::Escrowed {
                return Ok(RouteOutcome::default());
            }
            return self.shared_abort_inner(tid);
        }
        self.late_reply(tid)
    }

    /// A result is acknowledged by `from`.
    fn result_ack(&mut self, from: PeerId, tid: TransferId)
        requires
            old(self).wf(),
        ensures
            final(self).wf(),
            final(self)@ == acknowledge(old(self)@, from, tid),
    {
        if let Some(r) = self.results.get(tid) {
            if r.0 == from {
                let _ = self.results.remove(tid);
            }
        }
        if let Some(r) = self.native_results.get(tid) {
            if r.0 == from {
                // The recipient keeps its descriptor; the name retires.
                let rid = r.2;
                let _ = self.native_results.remove(tid);
                let _ = self.native_live.remove(rid);
                self.native_retired.insert(rid, Cause::Graceful);
            }
        }
        if let Some(r) = self.shared_results.get(tid) {
            if r.0 == from {
                let rid = r.2;
                let _ = self.shared_results.remove(tid);
                let _ = self.shared_live.remove(rid);
                self.shared_retired.insert(rid, Cause::Graceful);
            }
        }
        proof {
            crate::router_inv::lemma_acknowledge(old(self)@, from, tid);
            assert(self@ =~= acknowledge(old(self)@, from, tid));
        }
    }

    /// Process a transfer-control frame from `from`.
    pub fn on_xfer(&mut self, from: PeerId, msg: XferMsg) -> (r: Result<RouteOutcome, Poison>)
        requires
            old(self).wf(),
        ensures
            final(self).wf(),
            (final(self)@, replied(r)) == xfer(old(self)@, from, msg),
    {
        if let Some(p) = self.ready(from) {
            return Err(p);
        }
        match msg {
            XferMsg::Accept { tid } => self.xfer_accept(from, tid),
            XferMsg::Reject { tid } => self.xfer_reject(from, tid),
            XferMsg::Status { tid } => {
                let status: u8 = self.xfer_status(tid);
                Ok(RouteOutcome::one(from, Frame::Xfer(XferMsg::StatusAck { tid, status })))
            },
            XferMsg::ResultAck { tid } => {
                self.result_ack(from, tid);
                Ok(RouteOutcome::default())
            },
            _ => Err(Poison("peer sent host-only xfer")),
        }
    }

    /// Calls an offered transfer off by force.
    pub fn abort_transfer(&mut self, tid: TransferId) -> (r: Result<RouteOutcome, Poison>)
        requires
            old(self).wf(),
        ensures
            final(self).wf(),
            (final(self)@, replied(r)) == force_abort(old(self)@, tid),
    {
        proof {
            crate::router_inv::lemma_force_abort(self@, tid);
        }
        if self.xfers.contains_key(tid) {
            return self.xfer_abort_inner(tid);
        }
        if self.native_pending.contains_key(tid) {
            return self.native_abort_inner(tid);
        }
        Err(Poison("unknown transfer id"))
    }

    // ------------------------------------------------------------ peer death --

    /// The endpoints that a peer holds, in key order.
    fn touched_by(&self, p: PeerId) -> (r: Vec<EpId>)
        requires
            self.tables_ok(),
        ensures
            r@ == touched(self@, p),
    {
        let ghost f = |e: EpId| self@.eps[e].holder == Holder::Peer(p);
        let keys = self.eps.keys();
        let mut out: Vec<EpId> = Vec::new();
        let mut i: usize = 0;
        proof {
            reveal(Seq::filter);
            assert(keys@.take(0) =~= Seq::<EpId>::empty());
        }
        while i < keys.len()
            invariant
                i <= keys@.len(),
                lists_keys(keys@, self@.eps.dom()),
                f == (|e: EpId| self@.eps[e].holder == Holder::Peer(p)),
                out@ == keys@.take(i as int).filter(f),
            decreases keys@.len() - i,
        {
            proof {
                reveal(Seq::filter);
                assert(keys@.take(i + 1).drop_last() =~= keys@.take(i as int));
                assert(keys@.contains(keys@[i as int]));
            }
            if let Some(e) = self.eps.get(keys[i]) {
                if e.holder.is_peer(p) {
                    out.push(keys[i]);
                }
            }
            i = i + 1;
        }
        assert(keys@.take(i as int) =~= keys@);
        out
    }

    /// The endpoint transfers in flight that a peer takes part in.
    fn xfers_with(&self, p: PeerId) -> (r: Vec<TransferId>)
        requires
            self.tables_ok(),
        ensures
            r@ == xfers_of(self@, p),
    {
        let ghost f = |t: TransferId|
            self@.xfers[t].phase == XferPhase::Offered && (self@.xfers[t].sender == p
                || self@.xfers[t].dest == p);
        let keys = self.xfers.keys();
        let mut out: Vec<TransferId> = Vec::new();
        let mut i: usize = 0;
        proof {
            reveal(Seq::filter);
            assert(keys@.take(0) =~= Seq::<TransferId>::empty());
        }
        while i < keys.len()
            invariant
                i <= keys@.len(),
                lists_keys(keys@, self@.xfers.dom()),
                f == (|t: TransferId|
                    self@.xfers[t].phase == XferPhase::Offered && (self@.xfers[t].sender == p
                        || self@.xfers[t].dest == p)),
                out@ == keys@.take(i as int).filter(f),
            decreases keys@.len() - i,
        {
            proof {
                reveal(Seq::filter);
                assert(keys@.take(i + 1).drop_last() =~= keys@.take(i as int));
                assert(keys@.contains(keys@[i as int]));
            }
            if let Some(x) = self.xfers.get(keys[i]) {
                if x.phase == XferPhase::Offered && (x.sender == p || x.dest == p) {
                    out.push(keys[i]);
                }
            }
            i = i + 1;
        }
        assert(keys@.take(i as int) =~= keys@);
        out
    }

    /// The native transfers in flight that a peer takes part in.
    fn natives_with(&self, p: PeerId) -> (r: Vec<TransferId>)
        requires
            self.tables_ok(),
        ensures
            r@ == natives_of(self@, p),
    {
        let ghost f = |t: TransferId|
            self@.native_pending[t].state == NativeState::Escrowed && (self@.native_pending[t].sender
                == p || self@.native_pending[t].dest == p);
        let keys = self.native_pending.keys();
        let mut out: Vec<TransferId> = Vec::new();
        let mut i: usize = 0;
        proof {
            reveal(Seq::filter);
            assert(keys@.take(0) =~= Seq::<TransferId>::empty());
        }
        while i < keys.len()
            invariant
                i <= keys@.len(),
                lists_keys(keys@, self@.native_pending.dom()),
                f == (|t: TransferId|
                    self@.native_pending[t].state == NativeState::Escrowed && (
                    self@.native_pending[t].sender == p || self@.native_pending[t].dest == p)),
                out@ == keys@.take(i as int).filter(f),
            decreases keys@.len() - i,
        {
            proof {
                reveal(Seq::filter);
                assert(keys@.take(i + 1).drop_last() =~= keys@.take(i as int));
                assert(keys@.contains(keys@[i as int]));
            }
            if let Some(n) = self.native_pending.get(keys[i]) {
                if n.state == NativeState::Escrowed && (n.sender == p || n.dest == p) {
                    out.push(keys[i]);
                }
            }
            i = i + 1;
        }
        assert(keys@.take(i as int) =~= keys@);
        out
    }

    /// The region transfers in flight that a peer takes part in.
    fn shareds_with(&self, p: PeerId) -> (r: Vec<TransferId>)
        requires
            self.tables_ok(),
        ensures
            r@ == shareds_of(self@, p),
    {
        let ghost f = |t: TransferId|
            self@.shared_pending[t].state == NativeState::Escrowed && (self@.shared_pending[t].sender
                == p || self@.shared_pending[t].dest == p);
        let keys = self.shared_pending.keys();
        let mut out: Vec<TransferId> = Vec::new();
        let mut i: usize = 0;
        proof {
            reveal(Seq::filter);
            assert(keys@.take(0) =~= Seq::<TransferId>::empty());
        }
        while i < keys.len()
            invariant
                i <= keys@.len(),
                lists_keys(keys@, self@.shared_pending.dom()),
                f == (|t: TransferId|
                    self@.shared_pending[t].state == NativeState::Escrowed && (
                    self@.shared_pending[t].sender == p || self@.shared_pending[t].dest == p)),
                out@ == keys@.take(i as int).filter(f),
            decreases keys@.len() - i,
        {
            proof {
                reveal(Seq::filter);
                assert(keys@.take(i + 1).drop_last() =~= keys@.take(i as int));
                assert(keys@.contains(keys@[i as int]));
            }
            if let Some(n) = self.shared_pending.get(keys[i]) {
                if n.state == NativeState::Escrowed && (n.sender == p || n.dest == p) {
                    out.push(keys[i]);
                }
            }
            i = i + 1;
        }
        assert(keys@.take(i as int) =~= keys@);
        out
    }

    /// Forgets the peer and the results that wait for it.
    fn forget(&mut self, p: PeerId)
        requires
            old(self).tables_ok(),
        ensures
            final(self).tables_ok(),
            final(self)@ == forget_peer(old(self)@, p),
    {
        let ghost s0 = self@;
        let _ = self.peers.remove(p);
        let keys = self.results.keys();
        let mut i: usize = 0;
        while i < keys.len()
            invariant
                i <= keys@.len(),
                self.tables_ok(),
                s0 == old(self)@,
                lists_keys(keys@, s0.results.dom()),
                self@ == (State { peers: s0.peers.remove(p), results: self@.results, ..s0 }),
                forall|t: TransferId| #[trigger]
                    self@.results.contains_key(t) ==> s0.results.contains_key(t) && s0.results[t]
                        == self@.results[t],
                forall|t: TransferId| #[trigger]
                    s0.results.contains_key(t) && s0.results[t].0 != p ==> self@.results.contains_key(t),
                forall|k: int|
                    #![trigger keys@[k]]
                    0 <= k < i && s0.results[keys@[k]].0 == p ==> !self@.results.contains_key(keys@[k]),
            decreases keys@.len() - i,
        {
            let t = keys[i];
            assert(keys@.contains(t));
            let ghost before = self@;
            if let Some(r) = self.results.get(t) {
                if r.0 == p {
                    let _ = self.results.remove(t);
                }
            }
            assert(self@ =~= State { results: self@.results, ..before });
            i = i + 1;
        }
        proof {
            assert forall|t: TransferId| #[trigger] s0.results.contains_key(t) && s0.results[t].0
                == p implies !self@.results.contains_key(t) by {
                assert(keys@.contains(t));
                let k = keys@.index_of(t);
                assert(keys@[k] == t);
            }
            assert(self@.results =~= keep(s0.results, |r: (PeerId, Cause)| r.0 != p));
        }
        let ghost s1 = self@;
        let keys2 = self.native_results.keys();
        let mut j: usize = 0;
        while j < keys2.len()
            invariant
                j <= keys2@.len(),
                self.tables_ok(),
                lists_keys(keys2@, s1.native_results.dom()),
                self@ == (State { native_results: self@.native_results, ..s1 }),
                forall|t: TransferId| #[trigger]
                    self@.native_results.contains_key(t) ==> s1.native_results.contains_key(t)
                        && s1.native_results[t] == self@.native_results[t],
                forall|t: TransferId| #[trigger]
                    s1.native_results.contains_key(t) && s1.native_results[t].0 != p
                        ==> self@.native_results.contains_key(t),
                forall|k: int|
                    #![trigger keys2@[k]]
                    0 <= k < j && s1.native_results[keys2@[k]].0 == p
                        ==> !self@.native_results.contains_key(keys2@[k]),
            decreases keys2@.len() - j,
        {
            let t = keys2[j];
            assert(keys2@.contains(t));
            let ghost before = self@;
            if let Some(r) = self.native_results.get(t) {
                if r.0 == p {
                    let _ = self.native_results.remove(t);
                }
            }
            assert(self@ =~= State { native_results: self@.native_results, ..before });
            j = j + 1;
        }
        proof {
            assert forall|t: TransferId| #[trigger] s1.native_results.contains_key(t)
                && s1.native_results[t].0 == p implies !self@.native_results.contains_key(t) by {
                assert(keys2@.contains(t));
                let k = keys2@.index_of(t);
                assert(keys2@[k] == t);
            }
            assert(self@.native_results =~= keep(
                s1.native_results,
                |r: (PeerId, Cause, ResourceId)| r.0 != p,
            ));
            assert(self@ =~= forget_peer(s0, p));
        }
    }

    /// Ends one endpoint transfer with the death of `p`.
    fn settle_one_xfer(&mut self, p: PeerId, cause: Cause, tid: TransferId) -> (r: RouteOutcome)
        requires
            old(self).tables_ok(),
        ensures
            final(self).tables_ok(),
            (final(self)@, r@.send) == settle_xfer(old(self)@, p, cause, tid),
    {
        let x = match self.xfers.get(tid) {
            Some(x) => *x,
            None => {
                return RouteOutcome::default();
            },
        };
        if x.sender == p {
            // The sender died: the escrowed conversation dies with it.
            let _ = self.close_conversation(x.ep, cause);
            self.finish_xfer(tid, x.sender, XferPhase::Aborted);
            return RouteOutcome::default();
        }
        // The recipient died before commit: authority goes back.
        match self.xfer_abort_inner(tid) {
            Ok(out) => out,
            Err(_) => RouteOutcome::default(),
        }
    }

    /// Ends one native transfer with the death of `p`.
    fn settle_one_native(&mut self, p: PeerId, tid: TransferId)
        requires
            old(self).tables_ok(),
        ensures
            final(self).tables_ok(),
            final(self)@ == settle_native(old(self)@, p, tid),
    {
        let n = match self.native_pending.get(tid) {
            Some(n) => *n,
            None => {
                return;
            },
        };
        if n.sender == p {
            let _ = self.native_pending.remove(tid);
            self.native_results.insert(tid, (n.sender, Cause::Graceful, n.rid));
            self.native_retired.insert(n.rid, Cause::Graceful);
            assert(self@ =~= settle_native(old(self)@, p, tid));
        } else {
            let _ = self.native_abort_inner(tid);
        }
    }

    /// Ends one region transfer with the death of `p`.
    fn settle_one_shared(&mut self, p: PeerId, tid: TransferId)
        requires
            old(self).tables_ok(),
        ensures
            final(self).tables_ok(),
            final(self)@ == settle_shared(old(self)@, p, tid),
    {
        let n = match self.shared_pending.get(tid) {
            Some(n) => *n,
            None => {
                return;
            },
        };
        if n.sender == p {
            let _ = self.shared_pending.remove(tid);
            self.shared_results.insert(tid, (n.owed_to(), Cause::Graceful, n.rid));
            assert(self@ =~= settle_shared(old(self)@, p, tid));
        } else {
            let _ = self.shared_abort_inner(tid);
        }
    }

    /// Ends one conversation with the death of `p`.
    fn settle_one_end(&mut self, p: PeerId, cause: Cause, side: EpId) -> (r: RouteOutcome)
        requires
            old(self).tables_ok(),
        ensures
            final(self).tables_ok(),
            (final(self)@, r@.send) == settle_end(old(self)@, p, cause, side),
    {
        let mut out = RouteOutcome::default();
        if let Some((survivor, holder)) = self.close_conversation(side, cause) {
            match holder {
                Holder::Peer(q) => {
                    // Only peers still present are told.
                    if self.peers.contains_key(q) && q != p {
                        out = RouteOutcome::one(q, closed_notice(survivor, cause));
                    }
                },
                Holder::Host => {
                    self.host_events.push(HostEvent::EndpointClosed { ep: survivor, cause });
                    assert(self@ =~= settle_end(old(self)@, p, cause, side).0);
                },
                Holder::Escrow(_) => {},
            }
        }
        out
    }

    fn peer_gone(&mut self, p: PeerId, cause: Cause) -> (r: RouteOutcome)
        requires
            old(self).wf(),
        ensures
            final(self).wf(),
            (final(self)@, r@) == gone(old(self)@, p, cause),
    {
        let ghost s0 = self@;
        self.forget(p);
        let ghost s1 = self@;
        let mut out = RouteOutcome::default();
        let sides = self.touched_by(p);
        let tids = self.xfers_with(p);
        let mut i: usize = 0;
        proof {
            crate::router_inv::lemma_gone(s0, p, cause);
            crate::router_inv::lemma_forget_peer(s0, p);
            assert(tids@.take(0) =~= Seq::<TransferId>::empty());
            assert(out@.send =~= settle_xfers(s1, p, cause, tids@.take(0)).1);
        }
        while i < tids.len()
            invariant
                i <= tids@.len(),
                self.tables_ok(),
                inv_but(s1, Some(p)),
                (self@, out@.send) == settle_xfers(s1, p, cause, tids@.take(i as int)),
                out@.to_host =~= Seq::empty(),
            decreases tids@.len() - i,
        {
            proof {
                assert(tids@.take(i + 1).drop_last() =~= tids@.take(i as int));
                crate::router_inv::lemma_settle_xfers(s1, p, cause, tids@.take(i as int));
            }
            let mut extra = self.settle_one_xfer(p, cause, tids[i]);
            let ghost (a, b) = (out.send@, extra.send@);
            let ghost (va, vb) = (out@.send, extra@.send);
            out.send.append(&mut extra.send);
            assert(out@.send =~= va + vb);
            i = i + 1;
        }
        assert(tids@.take(i as int) =~= tids@);
        let ghost s2 = self@;
        let natives = self.natives_with(p);
        i = 0;
        assert(natives@.take(0) =~= Seq::<TransferId>::empty());
        while i < natives.len()
            invariant
                i <= natives@.len(),
                self.tables_ok(),
                self@ == settle_natives(s2, p, natives@.take(i as int)),
            decreases natives@.len() - i,
        {
            assert(natives@.take(i + 1).drop_last() =~= natives@.take(i as int));
            self.settle_one_native(p, natives[i]);
            i = i + 1;
        }
        assert(natives@.take(i as int) =~= natives@);
        let ghost s3 = self@;
        let shareds = self.shareds_with(p);
        i = 0;
        assert(shareds@.take(0) =~= Seq::<TransferId>::empty());
        while i < shareds.len()
            invariant
                i <= shareds@.len(),
                self.tables_ok(),
                self@ == settle_shareds(s3, p, shareds@.take(i as int)),
            decreases shareds@.len() - i,
        {
            assert(shareds@.take(i + 1).drop_last() =~= shareds@.take(i as int));
            self.settle_one_shared(p, shareds[i]);
            i = i + 1;
        }
        assert(shareds@.take(i as int) =~= shareds@);
        let ghost s4 = self@;
        // What the peer held after commit is vacated; no writer is minted.
        if p != PeerId(HOST_PEER) {
            self.regions.peer_gone(p);
        }
        assert(self@ =~= purge_regions(s4, p));
        let ghost s5 = self@;
        let ghost sent = out@.send;
        i = 0;
        assert(sides@.take(0) =~= Seq::<EpId>::empty());
        assert(out@.send =~= sent + settle_ends(s5, p, cause, sides@.take(0)).1);
        while i < sides.len()
            invariant
                i <= sides@.len(),
                self.tables_ok(),
                self@ == settle_ends(s5, p, cause, sides@.take(i as int)).0,
                out@.send == sent + settle_ends(s5, p, cause, sides@.take(i as int)).1,
                out@.to_host =~= Seq::empty(),
            decreases sides@.len() - i,
        {
            assert(sides@.take(i + 1).drop_last() =~= sides@.take(i as int));
            let ghost done = settle_ends(s5, p, cause, sides@.take(i as int)).1;
            let mut extra = self.settle_one_end(p, cause, sides[i]);
            let ghost (va, vb) = (out@.send, extra@.send);
            out.send.append(&mut extra.send);
            assert(out@.send =~= va + vb);
            assert(va + vb =~= sent + (done + vb));
            i = i + 1;
        }
        proof {
            assert(sides@.take(i as int) =~= sides@);
            assert(out@ =~= gone(s0, p, cause).1);
        }
        out
    }

    /// The transport to `p` broke: everything that depends on it collapses.
    pub fn on_eof(&mut self, p: PeerId) -> (r: RouteOutcome)
        requires
            old(self).wf(),
        ensures
            final(self).wf(),
            (final(self)@, r@) == gone(old(self)@, p, Cause::PeerLost),
    {
        self.peer_gone(p, Cause::PeerLost)
    }

    /// Orderly goodbye from `p`.
    pub fn on_shutdown(&mut self, p: PeerId) -> (r: RouteOutcome)
        requires
            old(self).wf(),
        ensures
            final(self).wf(),
            (final(self)@, r@) == gone(old(self)@, p, Cause::Graceful),
    {
        self.peer_gone(p, Cause::Graceful)
    }

    // --------------------------------------------------------------- queries --

    /// Who holds a live endpoint.
    pub fn holder_of(&self, ep: EpId) -> (r: Option<Holder>)
        ensures
            r == (if self@.eps.contains_key(ep) {
                Some(self@.eps[ep].holder)
            } else {
                None
            }),
    {
        match self.eps.get(ep) {
            Some(e) => Some(e.holder),
            None => None,
        }
    }

    /// The other end of a live conversation.
    pub fn partner_of(&self, ep: EpId) -> (r: Option<EpId>)
        ensures
            r == (if self@.eps.contains_key(ep) {
                Some(self@.eps[ep].partner)
            } else {
                None
            }),
    {
        match self.eps.get(ep) {
            Some(e) => Some(e.partner),
            None => None,
        }
    }

    /// Is the endpoint remembered as dead?
    pub fn is_retired(&self, ep: EpId) -> (r: bool)
        ensures
            r == self@.retired.has(ep),
    {
        self.retired.contains(ep)
    }

    /// Is a native transfer in flight?
    pub fn is_native_pending(&self, tid: TransferId) -> (r: bool)
        ensures
            r == self@.native_pending.contains_key(tid),
    {
        self.native_pending.contains_key(tid)
    }

    /// Who holds a live native resource.
    pub fn native_holder(&self, rid: ResourceId) -> (r: Option<PeerId>)
        ensures
            r == (if self@.native_live.contains_key(rid) {
                Some(self@.native_live[rid])
            } else {
                None
            }),
    {
        match self.native_live.get(rid) {
            Some(p) => Some(*p),
            None => None,
        }
    }

    /// The record of an endpoint transfer in flight.
    pub fn xfer(&self, tid: TransferId) -> (r: Option<XferRec>)
        ensures
            r == (if self@.xfers.contains_key(tid) {
                Some(self@.xfers[tid])
            } else {
                None
            }),
    {
        match self.xfers.get(tid) {
            Some(x) => Some(*x),
            None => None,
        }
    }

    /// The region transfers in flight, in key order.
    pub fn shared_pending_ids(&self) -> (r: Vec<TransferId>)
        requires
            self.wf(),
        ensures
            r@ == key_list(self@.shared_pending.dom()),
    {
        self.shared_pending.keys()
    }

    /// How large the rights graph is.
    pub fn region_accounting(&self) -> (r: RegionAccounting)
        requires
            self.wf(),
        ensures
            r.regions == self@.regions.len(),
            r.writable_authorities == self@.regions.dom().filter(
                |rid: RegionId| self@.regions[rid].writable is Some,
            ).len(),
            r.readonly_authorities == counted(
                crate::shared::reader_count(self@.regions, key_list(self@.regions.dom())),
            ),
            r.total_backing_bytes == crate::shared::backing_bytes(self@.regions),
    {
        self.regions.accounting()
    }

    /// State accounting snapshot.
    pub fn accounting(&self) -> (r: Accounting)
        requires
            self.wf(),
        ensures
            r.peers == self@.peers.len(),
            r.live_endpoints == self@.eps.len(),
            r.retired_identities == self@.retired.order.len(),
            r.host_held == self@.eps.dom().filter(|e: EpId| self@.eps[e].holder is Host).len(),
            r.pending_transfers == counted(self@.xfers.len() + self@.native_pending.len()),
            r.escrowed == self@.eps.dom().filter(|e: EpId| self@.eps[e].holder is Escrow).len(),
            r.unacked_results == counted(self@.results.len() + self@.native_results.len()),
            r.native_live == self@.native_live.len(),
            r.native_pending == self@.native_pending.len(),
            r.native_unacked == self@.native_results.len(),
            r.shared_pending == self@.shared_pending.len(),
            r.shared_unacked == self@.shared_results.len(),
    {
        let ghost m = self@.eps;
        let ghost host = |e: EpId| m[e].holder is Host;
        let ghost escrow = |e: EpId| m[e].holder is Escrow;
        let keys = self.eps.keys();
        let mut host_held: usize = 0;
        let mut escrowed: usize = 0;
        let mut i: usize = 0;
        proof {
            reveal(Seq::filter);
            assert(keys@.take(0) =~= Seq::<EpId>::empty());
        }
        while i < keys.len()
            invariant
                i <= keys@.len(),
                m == self@.eps,
                host == (|e: EpId| m[e].holder is Host),
                escrow == (|e: EpId| m[e].holder is Escrow),
                lists_keys(keys@, m.dom()),
                host_held == keys@.take(i as int).filter(host).len(),
                escrowed == keys@.take(i as int).filter(escrow).len(),
                host_held <= i,
                escrowed <= i,
            decreases keys@.len() - i,
        {
            proof {
                reveal(Seq::filter);
                assert(keys@.take(i + 1).drop_last() =~= keys@.take(i as int));
                assert(keys@.contains(keys@[i as int]));
            }
            if let Some(e) = self.eps.get(keys[i]) {
                match e.holder {
                    Holder::Host => {
                        host_held = host_held + 1;
                    },
                    Holder::Escrow(_) => {
                        escrowed = escrowed + 1;
                    },
                    Holder::Peer(_) => {},
                }
            }
            i = i + 1;
        }
        proof {
            assert(keys@.take(i as int) =~= keys@);
            crate::table::lemma_count_keys(keys@, m.dom(), host);
            crate::table::lemma_count_keys(keys@, m.dom(), escrow);
        }
        Accounting {
            peers: self.peers.len(),
            live_endpoints: self.eps.len(),
            retired_identities: self.retired.len(),
            host_held,
            pending_transfers: self.xfers.len().saturating_add(self.native_pending.len()),
            escrowed,
            unacked_results: self.results.len().saturating_add(self.native_results.len()),
            native_live: self.native_live.len(),
            native_pending: self.native_pending.len(),
            native_unacked: self.native_results.len(),
            shared_pending: self.shared_pending.len(),
            shared_unacked: self.shared_results.len(),
        }
    }

    /// Is authority conserved? Each live endpoint has one holder, and what is
    /// in escrow belongs to an offered transfer. Whatever the tables hold, the
    /// answer is exact; in a reachable state it is yes.
    pub fn authority_mass_ok(&self) -> (r: bool)
        requires
            self.tables_ok(),
        ensures
            r == authority_conserved(self@),
            self.wf() ==> r,
    {
        let keys = self.eps.keys();
        let mut i: usize = 0;
        while i < keys.len()
            invariant
                i <= keys@.len(),
                lists_keys(keys@, self@.eps.dom()),
                forall|j: int| 0 <= j < i ==> #[trigger] holding_ok(self@, keys@[j]),
            decreases keys@.len() - i,
        {
            let id = keys[i];
            assert(keys@.contains(id));
            if let Some(e) = self.eps.get(id) {
                if let Holder::Escrow(tid) = e.holder {
                    let offered = match self.xfers.get(tid) {
                        Some(x) => x.ep == id && x.phase == XferPhase::Offered,
                        None => false,
                    };
                    if !offered {
                        assert(!holding_ok(self@, id));
                        return false;
                    }
                }
            }
            i = i + 1;
        }
        assert forall|e: EpId| #[trigger] self@.eps.contains_key(e) implies holding_ok(self@, e) by {
            assert(keys@.contains(e));
            let j = keys@.index_of(e);
            assert(holding_ok(self@, keys@[j]));
        }
        true
    }
}

/// An endpoint in escrow belongs to an offered transfer of that endpoint.
pub open spec fn holding_ok(s: State, e: EpId) -> bool {
    match s.eps[e].holder {
        Holder::Escrow(t) => s.xfers.contains_key(t) && s.xfers[t].ep == e && s.xfers[t].phase
            == XferPhase::Offered,
        _ => true,
    }
}

/// Every live endpoint has one holder; what is in escrow belongs to an
/// offered transfer of that endpoint.
pub open spec fn authority_conserved(s: State) -> bool {
    forall|e: EpId| #[trigger] s.eps.contains_key(e) ==> holding_ok(s, e)
}

} // verus!

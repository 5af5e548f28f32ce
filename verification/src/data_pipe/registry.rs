//! Host-authoritative pipe registry.
//!
//! The host stores metadata only: which peer holds the sole producer, which
//! holds the sole consumer, the capacity, and per-role transfer state. No
//! payload bytes, no unread positions and no credit counters are kept here.
//!
//! Endpoint movement rides the same transaction identity as every other
//! authority, independently per role: a producer and a consumer may be in
//! flight on one pipe at once. Abort restores the sender with identical
//! accounting; commit is the single point where holders change.

use std::collections::VecDeque;
use vstd::prelude::*;

use crate::data_pipe::{capacity_ok, PipeId, MAX_PIPE_CAPACITY, PIPE_RETIRE_CAP};
use crate::id::TransferId;
use crate::router::PeerId;
use crate::table::{key_list, lists_keys, Table};

verus! {

#[derive(Debug, Clone, Copy, PartialEq, Eq, Structural)]
pub enum PipeRole {
    Producer,
    Consumer,
}

/// One authority in escrow.
#[derive(Debug, Clone, Copy, PartialEq, Eq)]
pub struct Flight {
    pub tid: TransferId,
    pub to: PeerId,
}

/// Why a request was refused.
#[derive(Debug, Clone, Copy, PartialEq, Eq)]
pub struct PipeReject(pub &'static str);

/// What the host knows of one pipe.
#[derive(Debug, Clone, Copy)]
pub struct Entry {
    pub capacity: usize,
    pub producer: Option<PeerId>,
    pub consumer: Option<PeerId>,
    pub prod_flight: Option<Flight>,
    pub cons_flight: Option<Flight>,
    pub retired: bool,
}

impl Entry {
    /// Who holds a role.
    pub open spec fn slot_of(self, role: PipeRole) -> Option<PeerId> {
        match role {
            PipeRole::Producer => self.producer,
            PipeRole::Consumer => self.consumer,
        }
    }

    /// The escrow of a role.
    pub open spec fn flight_of(self, role: PipeRole) -> Option<Flight> {
        match role {
            PipeRole::Producer => self.prod_flight,
            PipeRole::Consumer => self.cons_flight,
        }
    }

    /// The entry with another holder and escrow for a role.
    pub open spec fn with_role(
        self,
        role: PipeRole,
        holder: Option<PeerId>,
        flight: Option<Flight>,
    ) -> Entry {
        match role {
            PipeRole::Producer => Entry { producer: holder, prod_flight: flight, ..self },
            PipeRole::Consumer => Entry { consumer: holder, cons_flight: flight, ..self },
        }
    }

    /// May `by` retire the pipe? Its holders may, and the recipients of what
    /// is in flight.
    pub open spec fn may_retire(self, by: PeerId) -> bool {
        ||| self.producer == Some(by)
        ||| self.consumer == Some(by)
        ||| self.prod_flight is Some && self.prod_flight->Some_0.to == by
        ||| self.cons_flight is Some && self.cons_flight->Some_0.to == by
    }

    fn slot(self, role: PipeRole) -> (r: Option<PeerId>)
        ensures
            r == self.slot_of(role),
    {
        match role {
            PipeRole::Producer => self.producer,
            PipeRole::Consumer => self.consumer,
        }
    }

    fn flight(self, role: PipeRole) -> (r: Option<Flight>)
        ensures
            r == self.flight_of(role),
    {
        match role {
            PipeRole::Producer => self.prod_flight,
            PipeRole::Consumer => self.cons_flight,
        }
    }

    fn set_role(self, role: PipeRole, holder: Option<PeerId>, flight: Option<Flight>) -> (r: Entry)
        ensures
            r == self.with_role(role, holder, flight),
    {
        match role {
            PipeRole::Producer => Entry { producer: holder, prod_flight: flight, ..self },
            PipeRole::Consumer => Entry { consumer: holder, cons_flight: flight, ..self },
        }
    }
}

/// What the registry knows.
#[verifier::ext_equal]
pub struct Pipes {
    pub entries: Map<PipeId, Entry>,
    /// Recently retired identities, oldest first.
    pub retired: Seq<PipeId>,
}

/// Hard bound on pipes that are live at once.
pub const MAX_LIVE_PIPES: usize = 1024;

impl Pipes {
    /// Is the pipe known and not retired?
    pub open spec fn is_live(self, pid: PipeId) -> bool {
        self.entries.contains_key(pid) && !self.entries[pid].retired
    }

    /// The live pipes.
    pub open spec fn live(self) -> Set<PipeId> {
        self.entries.dom().filter(|pid: PipeId| !self.entries[pid].retired)
    }

    /// Who visibly holds a role: nobody while the role itself is in escrow.
    pub open spec fn holder(self, pid: PipeId, role: PipeRole) -> Option<PeerId> {
        if self.is_live(pid) && self.entries[pid].flight_of(role) is None {
            self.entries[pid].slot_of(role)
        } else {
            None
        }
    }

    /// The registry with another entry for a pipe.
    pub open spec fn with_entry(self, pid: PipeId, e: Entry) -> Pipes {
        Pipes { entries: self.entries.insert(pid, e), ..self }
    }

    /// A request for a new pipe.
    pub open spec fn creation(self, pid: PipeId, capacity: usize, producer: PeerId, consumer: PeerId) -> Result<
        Pipes,
        PipeReject,
    > {
        if !capacity_ok(capacity) {
            Err(PipeReject("capacity invalid"))
        } else if self.live().len() >= MAX_LIVE_PIPES {
            Err(PipeReject("pipe table full"))
        } else if self.retired.contains(pid) || self.entries.contains_key(pid) {
            Err(PipeReject("duplicate pipe id"))
        } else {
            Ok(
                self.with_entry(
                    pid,
                    Entry {
                        capacity,
                        producer: Some(producer),
                        consumer: Some(consumer),
                        prod_flight: None,
                        cons_flight: None,
                        retired: false,
                    },
                ),
            )
        }
    }

    /// The recall with one more identity; the oldest leaves when it is full.
    pub open spec fn recalled(self, pid: PipeId) -> Seq<PipeId> {
        let q = self.retired.push(pid);
        if q.len() > PIPE_RETIRE_CAP {
            q.skip(1)
        } else {
            q
        }
    }

    /// The pipe is dead: nobody holds it. Its entry stays only while the
    /// recall is short.
    pub open spec fn retiring(self, pid: PipeId) -> Pipes {
        let dead = Entry {
            capacity: self.entries[pid].capacity,
            producer: None,
            consumer: None,
            prod_flight: None,
            cons_flight: None,
            retired: true,
        };
        let retired = self.recalled(pid);
        Pipes {
            entries: if retired.len() > PIPE_RETIRE_CAP / 2 {
                self.entries.remove(pid)
            } else {
                self.entries.insert(pid, dead)
            },
            retired,
        }
    }

    /// A request to retire a pipe.
    pub open spec fn retirement(self, pid: PipeId, by: PeerId) -> Result<Pipes, PipeReject> {
        if !self.entries.contains_key(pid) {
            Err(PipeReject("unknown pipe"))
        } else if self.entries[pid].retired {
            Err(PipeReject("already retired"))
        } else if !self.entries[pid].may_retire(by) {
            Err(PipeReject("wrong holder"))
        } else {
            Ok(self.retiring(pid))
        }
    }

    /// A request to put one role into escrow.
    pub open spec fn offer(self, pid: PipeId, role: PipeRole, tid: TransferId, from: PeerId, to: PeerId) -> Result<
        Pipes,
        PipeReject,
    > {
        if !self.entries.contains_key(pid) {
            Err(PipeReject("unknown pipe"))
        } else if self.entries[pid].retired {
            Err(PipeReject("already retired"))
        } else if self.entries[pid].flight_of(role) is Some {
            Err(PipeReject("stale or foreign transfer"))
        } else if self.entries[pid].slot_of(role) is None {
            Err(PipeReject("missing holder"))
        } else if self.entries[pid].slot_of(role) != Some(from) || to == from {
            Err(PipeReject("wrong holder"))
        } else {
            Ok(
                self.with_entry(
                    pid,
                    self.entries[pid].with_role(role, None, Some(Flight { tid, to })),
                ),
            )
        }
    }

    /// Does this pipe have this role in flight under `tid`?
    pub open spec fn carries(self, pid: PipeId, role: PipeRole, tid: TransferId) -> bool {
        &&& self.is_live(pid)
        &&& self.entries[pid].flight_of(role) is Some
        &&& self.entries[pid].flight_of(role)->Some_0.tid == tid
    }

    /// The pipe that has this role in flight under `tid`: the first in key
    /// order, should there be several.
    pub open spec fn carrier(self, role: PipeRole, tid: TransferId) -> Option<PipeId> {
        let found = key_list(self.entries.dom()).filter(|pid: PipeId| self.carries(pid, role, tid));
        if found.len() > 0 {
            Some(found[0])
        } else {
            None
        }
    }

    /// The registry after the role that `tid` carries came to `holder`.
    pub open spec fn landed(self, pid: PipeId, role: PipeRole, holder: PeerId) -> Pipes {
        self.with_entry(pid, self.entries[pid].with_role(role, Some(holder), None))
    }

    /// What holds of every reachable registry: a role has a holder or is in
    /// escrow, never both; the recall is bounded; dead pipes have no holder.
    pub open spec fn ok(self) -> bool {
        &&& self.entries.dom().finite()
        &&& self.retired.len() <= PIPE_RETIRE_CAP
        &&& self.live().len() <= MAX_LIVE_PIPES
        &&& forall|pid: PipeId| #[trigger]
            self.entries.contains_key(pid) ==> if self.entries[pid].retired {
                forall|role: PipeRole| #[trigger]
                    self.entries[pid].slot_of(role) is None && self.entries[pid].flight_of(role) is None
            } else {
                &&& capacity_ok(self.entries[pid].capacity)
                &&& forall|role: PipeRole| #[trigger]
                    self.entries[pid].slot_of(role) is Some <==> self.entries[pid].flight_of(role) is None
            }
    }
}

/// The host's registry of pipes.
pub struct PipeTable {
    entries: Table<PipeId, Entry>,
    retired: VecDeque<PipeId>,
}

impl View for PipeTable {
    type V = Pipes;

    closed spec fn view(&self) -> Pipes {
        Pipes { entries: self.entries@, retired: self.retired@ }
    }
}

impl PipeTable {
    /// The table is consistent and in a reachable state.
    pub closed spec fn wf(&self) -> bool {
        &&& self.entries.wf()
        &&& self@.ok()
    }

    /// A well-formed table is in a reachable state.
    pub proof fn lemma_wf(&self)
        requires
            self.wf(),
        ensures
            self@.ok(),
    {
    }

    /// A registry without pipes.
    pub fn new() -> (r: Self)
        ensures
            r.wf(),
            r@ == (Pipes { entries: Map::empty(), retired: Seq::empty() }),
    {
        let r = PipeTable { entries: Table::new(), retired: VecDeque::new() };
        proof {
            assert(r@ =~= Pipes { entries: Map::empty(), retired: Seq::empty() });
            assert(r@.live() =~= Set::empty());
        }
        r
    }

    /// How many pipes are live.
    pub fn live(&self) -> (n: usize)
        requires
            self.wf(),
        ensures
            n == self@.live().len(),
    {
        let ghost f = |pid: PipeId| !self@.entries[pid].retired;
        let keys = self.entries.keys();
        let mut n: usize = 0;
        let mut i: usize = 0;
        proof {
            reveal(Seq::filter);
            assert(keys@.take(0) =~= Seq::<PipeId>::empty());
        }
        while i < keys.len()
            invariant
                i <= keys@.len(),
                lists_keys(keys@, self@.entries.dom()),
                f == (|pid: PipeId| !self@.entries[pid].retired),
                n == keys@.take(i as int).filter(f).len(),
                n <= i,
            decreases keys@.len() - i,
        {
            proof {
                reveal(Seq::filter);
                assert(keys@.take(i + 1).drop_last() =~= keys@.take(i as int));
                assert(keys@.contains(keys@[i as int]));
            }
            if let Some(e) = self.entries.get(keys[i]) {
                if !e.retired {
                    n = n + 1;
                }
            }
            i = i + 1;
        }
        proof {
            assert(keys@.take(i as int) =~= keys@);
            crate::table::lemma_count_keys(keys@, self@.entries.dom(), f);
            assert(self@.live() =~= self@.entries.dom().filter(f));
        }
        n
    }

    /// How many dead identities are recalled.
    pub fn retired_len(&self) -> (n: usize)
        ensures
            n == self@.retired.len(),
    {
        self.retired.len()
    }

    /// The capacity of a live pipe.
    pub fn capacity_of(&self, pid: &PipeId) -> (r: Option<usize>)
        ensures
            r == (if self@.is_live(*pid) {
                Some(self@.entries[*pid].capacity)
            } else {
                None
            }),
    {
        match self.entries.get(*pid) {
            Some(e) => if e.retired {
                None
            } else {
                Some(e.capacity)
            },
            None => None,
        }
    }

    /// Who visibly holds a role. The escrow of the opposite role hides
    /// nothing.
    pub fn holder(&self, pid: &PipeId, role: PipeRole) -> (r: Option<PeerId>)
        ensures
            r == self@.holder(*pid, role),
    {
        match self.entries.get(*pid) {
            Some(e) => if e.retired || e.flight(role).is_some() {
                None
            } else {
                e.slot(role)
            },
            None => None,
        }
    }

    /// Who visibly holds the producer.
    pub fn producer_holder(&self, pid: &PipeId) -> (r: Option<PeerId>)
        ensures
            r == self@.holder(*pid, PipeRole::Producer),
    {
        self.holder(pid, PipeRole::Producer)
    }

    /// Who visibly holds the consumer.
    pub fn consumer_holder(&self, pid: &PipeId) -> (r: Option<PeerId>)
        ensures
            r == self@.holder(*pid, PipeRole::Consumer),
    {
        self.holder(pid, PipeRole::Consumer)
    }

    /// The escrow of a role of a live pipe: transfer and recipient.
    pub fn in_transfer(&self, pid: &PipeId, role: PipeRole) -> (r: Option<(TransferId, PeerId)>)
        ensures
            r == (if self@.is_live(*pid) && self@.entries[*pid].flight_of(role) is Some {
                let f = self@.entries[*pid].flight_of(role)->Some_0;
                Some((f.tid, f.to))
            } else {
                None
            }),
    {
        match self.entries.get(*pid) {
            Some(e) => if e.retired {
                None
            } else {
                match e.flight(role) {
                    Some(f) => Some((f.tid, f.to)),
                    None => None,
                }
            },
            None => None,
        }
    }

    /// Is the identity recalled as dead?
    fn recalls(&self, pid: PipeId) -> (r: bool)
        ensures
            r == self@.retired.contains(pid),
    {
        let n: usize = self.retired.len();
        let mut i: usize = 0;
        while i < n
            invariant
                i <= n,
                n == self.retired@.len(),
                forall|k: int| 0 <= k < i ==> self.retired@[k] != pid,
            decreases n - i,
        {
            if self.retired[i] == pid {
                assert(self.retired@[i as int] == pid);
                return true;
            }
            i = i + 1;
        }
        false
    }

    /// Registers a fresh pipe. A refused request creates nothing.
    pub fn create(&mut self, pid: PipeId, capacity: usize, producer: PeerId, consumer: PeerId) -> (r: Result<
        (),
        PipeReject,
    >)
        requires
            old(self).wf(),
        ensures
            final(self).wf(),
            match old(self)@.creation(pid, capacity, producer, consumer) {
                Ok(p) => r is Ok && final(self)@ == p,
                Err(e) => r == Err::<(), PipeReject>(e) && final(self)@ == old(self)@,
            },
    {
        if capacity == 0 || capacity > MAX_PIPE_CAPACITY {
            return Err(PipeReject("capacity invalid"));
        }
        if self.live() >= MAX_LIVE_PIPES {
            return Err(PipeReject("pipe table full"));
        }
        if self.recalls(pid) || self.entries.contains_key(pid) {
            return Err(PipeReject("duplicate pipe id"));
        }
        let e = Entry {
            capacity,
            producer: Some(producer),
            consumer: Some(consumer),
            prod_flight: None,
            cons_flight: None,
            retired: false,
        };
        self.entries.insert(pid, e);
        proof {
            let s = old(self)@;
            let n = self@;
            assert(n =~= s.with_entry(pid, e));
            assert(n.entries.dom() =~= s.entries.dom().insert(pid));
            assert(n.live() =~= s.live().insert(pid));
            assert(s.live().subset_of(s.entries.dom()));
            vstd::set_lib::lemma_len_subset(s.live(), s.entries.dom());
        }
        Ok(())
    }

    /// Orderly retirement by a holder, or by the recipient of what is in
    /// flight.
    pub fn retire(&mut self, pid: &PipeId, by: PeerId) -> (r: Result<(), PipeReject>)
        requires
            old(self).wf(),
        ensures
            final(self).wf(),
            match old(self)@.retirement(*pid, by) {
                Ok(p) => r is Ok && final(self)@ == p,
                Err(e) => r == Err::<(), PipeReject>(e) && final(self)@ == old(self)@,
            },
    {
        let e = match self.entries.get(*pid) {
            Some(e) => *e,
            None => {
                return Err(PipeReject("unknown pipe"));
            },
        };
        if e.retired {
            return Err(PipeReject("already retired"));
        }
        let is_holder = (match e.producer {
            Some(p) => p == by,
            None => false,
        }) || (match e.consumer {
            Some(p) => p == by,
            None => false,
        }) || (match e.prod_flight {
            Some(f) => f.to == by,
            None => false,
        }) || (match e.cons_flight {
            Some(f) => f.to == by,
            None => false,
        });
        if !is_holder {
            return Err(PipeReject("wrong holder"));
        }
        self.retired.push_back(*pid);
        if self.retired.len() > PIPE_RETIRE_CAP {
            let _ = self.retired.pop_front();
            assert(self.retired@ =~= old(self)@.retired.push(*pid).skip(1));
        }
        // The entry stays only while it can still answer a replay; past half
        // the recall the bounded list alone suffices.
        if self.retired.len() > PIPE_RETIRE_CAP / 2 {
            let _ = self.entries.remove(*pid);
        } else {
            self.entries.insert(
                *pid,
                Entry {
                    capacity: e.capacity,
                    producer: None,
                    consumer: None,
                    prod_flight: None,
                    cons_flight: None,
                    retired: true,
                },
            );
        }
        proof {
            let s = old(self)@;
            let n = self@;
            assert(n =~= s.retiring(*pid));
            assert(n.entries.dom() =~= s.entries.dom() || n.entries.dom() =~= s.entries.dom().remove(
                *pid,
            ));
            assert(n.live() =~= s.live().remove(*pid));
            assert(s.live().subset_of(s.entries.dom()));
            vstd::set_lib::lemma_len_subset(s.live(), s.entries.dom());
        }
        Ok(())
    }

    /// Changes the holder and the escrow of a role of a live pipe.
    fn put_role(&mut self, pid: PipeId, role: PipeRole, holder: Option<PeerId>, flight: Option<Flight>)
        requires
            old(self).wf(),
            old(self)@.is_live(pid),
            holder is Some <==> flight is None,
        ensures
            final(self).wf(),
            final(self)@ == old(self)@.with_entry(
                pid,
                old(self)@.entries[pid].with_role(role, holder, flight),
            ),
    {
        if let Some(e) = self.entries.get(pid) {
            let e2 = e.set_role(role, holder, flight);
            self.entries.insert(pid, e2);
        }
        proof {
            let s = old(self)@;
            let n = self@;
            assert(n =~= s.with_entry(pid, s.entries[pid].with_role(role, holder, flight)));
            assert(n.entries.dom() =~= s.entries.dom());
            assert(n.live() =~= s.live());
            assert forall|other: PipeRole| #[trigger]
                n.entries[pid].slot_of(other) is Some <==> n.entries[pid].flight_of(other) is None by {
                assert(s.entries[pid].slot_of(other) is Some <==> s.entries[pid].flight_of(other) is None);
            }
        }
    }

    /// Puts one role into escrow for a transfer. The holder is cleared in the
    /// same step: at no time could two holders act.
    pub fn offer_transfer(
        &mut self,
        pid: &PipeId,
        role: PipeRole,
        tid: TransferId,
        from: PeerId,
        to: PeerId,
    ) -> (r: Result<(), PipeReject>)
        requires
            old(self).wf(),
        ensures
            final(self).wf(),
            match old(self)@.offer(*pid, role, tid, from, to) {
                Ok(p) => r is Ok && final(self)@ == p,
                Err(e) => r == Err::<(), PipeReject>(e) && final(self)@ == old(self)@,
            },
    {
        let e = match self.entries.get(*pid) {
            Some(e) => *e,
            None => {
                return Err(PipeReject("unknown pipe"));
            },
        };
        if e.retired {
            return Err(PipeReject("already retired"));
        }
        if e.flight(role).is_some() {
            return Err(PipeReject("stale or foreign transfer"));
        }
        match e.slot(role) {
            None => {
                return Err(PipeReject("missing holder"));
            },
            Some(p) => {
                if p != from {
                    return Err(PipeReject("wrong holder"));
                }
            },
        }
        if to == from {
            return Err(PipeReject("wrong holder"));
        }
        self.put_role(*pid, role, None, Some(Flight { tid, to }));
        Ok(())
    }

    /// Finds the pipe that has the role in flight under `tid`.
    fn find_by_tid(&self, role: PipeRole, tid: TransferId) -> (r: Option<PipeId>)
        requires
            self.wf(),
        ensures
            r == self@.carrier(role, tid),
            r matches Some(pid) ==> self@.carries(pid, role, tid),
    {
        let ghost f = |pid: PipeId| self@.carries(pid, role, tid);
        let keys = self.entries.keys();
        let mut i: usize = 0;
        proof {
            reveal(Seq::filter);
            assert(keys@.take(0) =~= Seq::<PipeId>::empty());
        }
        while i < keys.len()
            invariant
                i <= keys@.len(),
                lists_keys(keys@, self@.entries.dom()),
                keys@ == key_list(self@.entries.dom()),
                f == (|pid: PipeId| self@.carries(pid, role, tid)),
                keys@.take(i as int).filter(f).len() == 0,
            decreases keys@.len() - i,
        {
            let pid = keys[i];
            proof {
                reveal(Seq::filter);
                assert(keys@.take(i + 1).drop_last() =~= keys@.take(i as int));
                assert(keys@.contains(keys@[i as int]));
            }
            if let Some(e) = self.entries.get(pid) {
                if !e.retired {
                    if let Some(fl) = e.flight(role) {
                        if fl.tid == tid {
                            proof {
                                assert(f(pid));
                                lemma_first_hit(keys@, f, i as int);
                            }
                            return Some(pid);
                        }
                    }
                }
            }
            i = i + 1;
        }
        assert(keys@.take(i as int) =~= keys@);
        None
    }

    /// Commit point: the role that `tid` carries comes to its recipient,
    /// exactly once.
    pub fn commit_transfer(&mut self, role: PipeRole, tid: TransferId) -> (r: Result<PipeId, PipeReject>)
        requires
            old(self).wf(),
        ensures
            final(self).wf(),
            match old(self)@.carrier(role, tid) {
                Some(pid) => r == Ok::<PipeId, PipeReject>(pid) && final(self)@ == old(self)@.landed(
                    pid,
                    role,
                    old(self)@.entries[pid].flight_of(role)->Some_0.to,
                ),
                None => r == Err::<PipeId, PipeReject>(PipeReject("stale or foreign transfer"))
                    && final(self)@ == old(self)@,
            },
    {
        let pid = match self.find_by_tid(role, tid) {
            Some(pid) => pid,
            None => {
                return Err(PipeReject("stale or foreign transfer"));
            },
        };
        let to = match self.in_transfer(&pid, role) {
            Some((_, to)) => to,
            None => {
                return Err(PipeReject("stale or foreign transfer"));
            },
        };
        self.put_role(pid, role, Some(to), None);
        Ok(pid)
    }

    /// Abort before commit: the sender holds the role again, with identical
    /// state. After commit there is no flight, and the request is refused.
    pub fn abort_transfer(&mut self, role: PipeRole, tid: TransferId, sender: PeerId) -> (r: Result<
        PipeId,
        PipeReject,
    >)
        requires
            old(self).wf(),
        ensures
            final(self).wf(),
            match old(self)@.carrier(role, tid) {
                Some(pid) => r == Ok::<PipeId, PipeReject>(pid) && final(self)@ == old(self)@.landed(
                    pid,
                    role,
                    sender,
                ),
                None => r == Err::<PipeId, PipeReject>(PipeReject("stale or foreign transfer"))
                    && final(self)@ == old(self)@,
            },
    {
        let pid = match self.find_by_tid(role, tid) {
            Some(pid) => pid,
            None => {
                return Err(PipeReject("stale or foreign transfer"));
            },
        };
        self.put_role(pid, role, Some(sender), None);
        Ok(pid)
    }
}

/// The first element that passes is the first of the filtered sequence.
proof fn lemma_first_hit<A>(s: Seq<A>, f: spec_fn(A) -> bool, i: int)
    requires
        0 <= i < s.len(),
        s.take(i).filter(f).len() == 0,
        f(s[i]),
    ensures
        s.filter(f).len() > 0,
        s.filter(f)[0] == s[i],
    decreases s.len(),
{
    reveal(Seq::filter);
    if i == s.len() - 1 {
        assert(s.drop_last() =~= s.take(i));
    } else {
        assert(s.drop_last().take(i) =~= s.take(i));
        lemma_first_hit(s.drop_last(), f, i);
    }
}

// ---------------------------------------------------------------------- laws --

/// A role under the only flight of its transfer is found by that transfer.
proof fn lemma_sole_carrier(s: Pipes, pid: PipeId, role: PipeRole, tid: TransferId)
    requires
        s.ok(),
        s.carries(pid, role, tid),
        forall|q: PipeId| #[trigger] s.carries(q, role, tid) ==> q == pid,
    ensures
        s.carrier(role, tid) == Some(pid),
{
    let f = |q: PipeId| s.carries(q, role, tid);
    crate::table::lemma_filtered_keys(s.entries.dom(), f);
    let found = key_list(s.entries.dom()).filter(f);
    assert(found.contains(pid));
    assert(found.len() > 0);
    assert(found.contains(found[0]));
    assert(s.carries(found[0], role, tid));
}

/// Offering a role and calling the offer off leaves the registry as it was.
pub proof fn law_abort_restores(
    s: Pipes,
    pid: PipeId,
    role: PipeRole,
    tid: TransferId,
    from: PeerId,
    to: PeerId,
)
    requires
        s.ok(),
        s.offer(pid, role, tid, from, to) is Ok,
        forall|q: PipeId| !(#[trigger] s.carries(q, role, tid)),
    ensures
        ({
            let n = s.offer(pid, role, tid, from, to)->Ok_0;
            &&& n.carrier(role, tid) == Some(pid)
            &&& n.holder(pid, role) is None
            &&& n.landed(pid, role, from) == s
        }),
{
    let n = s.offer(pid, role, tid, from, to)->Ok_0;
    lemma_offer_carries(s, pid, role, tid, from, to);
    assert(n.landed(pid, role, from) =~= s);
}

proof fn lemma_offer_carries(
    s: Pipes,
    pid: PipeId,
    role: PipeRole,
    tid: TransferId,
    from: PeerId,
    to: PeerId,
)
    requires
        s.ok(),
        s.offer(pid, role, tid, from, to) is Ok,
        forall|q: PipeId| !(#[trigger] s.carries(q, role, tid)),
    ensures
        s.offer(pid, role, tid, from, to)->Ok_0.carrier(role, tid) == Some(pid),
{
    let n = s.offer(pid, role, tid, from, to)->Ok_0;
    assert(n.entries.dom() =~= s.entries.dom());
    assert(n.live() =~= s.live());
    assert(n.ok()) by {
        assert forall|q: PipeId| #[trigger] n.entries.contains_key(q) implies if n.entries[q].retired {
            forall|r: PipeRole| #[trigger]
                n.entries[q].slot_of(r) is None && n.entries[q].flight_of(r) is None
        } else {
            &&& capacity_ok(n.entries[q].capacity)
            &&& forall|r: PipeRole| #[trigger]
                n.entries[q].slot_of(r) is Some <==> n.entries[q].flight_of(r) is None
        } by {
            assert(s.entries.contains_key(q));
            if q == pid {
                assert forall|r: PipeRole| #[trigger]
                    n.entries[q].slot_of(r) is Some <==> n.entries[q].flight_of(r) is None by {
                    assert(s.entries[q].slot_of(r) is Some <==> s.entries[q].flight_of(r) is None);
                }
            }
        }
    }
    assert forall|q: PipeId| #[trigger] n.carries(q, role, tid) implies q == pid by {
        if q != pid {
            assert(!s.carries(q, role, tid));
        }
    }
    lemma_sole_carrier(n, pid, role, tid);
}

/// Offering a role and committing moves it to the recipient, and to nobody
/// else; the other role is untouched.
pub proof fn law_commit_moves_one_role(
    s: Pipes,
    pid: PipeId,
    role: PipeRole,
    other: PipeRole,
    tid: TransferId,
    from: PeerId,
    to: PeerId,
)
    requires
        s.ok(),
        s.offer(pid, role, tid, from, to) is Ok,
        forall|q: PipeId| !(#[trigger] s.carries(q, role, tid)),
        other != role,
    ensures
        ({
            let n = s.offer(pid, role, tid, from, to)->Ok_0;
            let c = n.landed(pid, role, to);
            &&& n.carrier(role, tid) == Some(pid)
            &&& n.entries[pid].flight_of(role)->Some_0.to == to
            &&& c.holder(pid, role) == Some(to)
            &&& c.holder(pid, other) == s.holder(pid, other)
            &&& c.carrier(role, tid) is None
        }),
{
    let n = s.offer(pid, role, tid, from, to)->Ok_0;
    lemma_offer_carries(s, pid, role, tid, from, to);
    let c = n.landed(pid, role, to);
    let f = |q: PipeId| c.carries(q, role, tid);
    assert(c.entries.dom() =~= s.entries.dom());
    crate::table::lemma_filtered_keys(c.entries.dom(), f);
    assert forall|q: PipeId| !(#[trigger] c.carries(q, role, tid)) by {
        if q != pid {
            assert(!s.carries(q, role, tid));
        }
    }
    let found = key_list(c.entries.dom()).filter(f);
    if found.len() > 0 {
        assert(found.contains(found[0]));
    }
}

/// A dead pipe stays dead while it is recalled: no request finds a holder for
/// it, offers it, retires it again or creates it anew.
pub proof fn law_retired_fails_closed(
    s: Pipes,
    pid: PipeId,
    by: PeerId,
    role: PipeRole,
    tid: TransferId,
    from: PeerId,
    to: PeerId,
    capacity: usize,
)
    requires
        s.ok(),
        s.retirement(pid, by) is Ok,
    ensures
        ({
            let n = s.retirement(pid, by)->Ok_0;
            &&& n.retired.contains(pid)
            &&& n.holder(pid, role) is None
            &&& n.offer(pid, role, tid, from, to) is Err
            &&& n.retirement(pid, by) is Err
            &&& n.creation(pid, capacity, from, to) is Err
        }),
{
    let n = s.retirement(pid, by)->Ok_0;
    let q = s.retired.push(pid);
    assert(q[q.len() - 1] == pid);
    assert(n.retired[n.retired.len() - 1] == pid);
}

} // verus!

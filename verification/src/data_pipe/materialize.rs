//! Cross-process endpoint materialization join.
//!
//! A pipe authority may materialize in a recipient only when all of these
//! hold: the transfer committed, the native endpoint is present, the pipe,
//! kind and target match what the host authorized, and no authority for this
//! role exists yet. The inputs arrive independently; this join does not depend
//! on their order and mints exactly once. Anything late, duplicate or
//! mis-correlated fails closed.

use std::collections::VecDeque;
use vstd::prelude::*;

use crate::data_pipe::{PipeId, PIPE_RETIRE_CAP};
use crate::id::TransferId;

verus! {

#[derive(Debug, Clone, Copy, PartialEq, Eq, Structural)]
pub enum EndpointKind {
    Producer,
    Consumer,
}

/// A native endpoint as the platform lane delivers it: a raw descriptor or
/// handle number, opaque here.
#[derive(Debug, Clone, Copy, PartialEq, Eq, Structural)]
pub struct NativeEndpoint {
    pub raw: usize,
}

/// What the host authorized for one role of one pipe.
#[derive(Debug, Clone, Copy, PartialEq, Eq)]
pub struct MaterializeMeta {
    pub pid: PipeId,
    pub kind: EndpointKind,
    pub tid: TransferId,
}

#[derive(Debug, Clone, Copy, PartialEq, Eq, Structural)]
pub enum JoinReject {
    /// The recipient was never authorized for this: forged metadata, or a
    /// wrong transfer, pipe, kind or target; or an input is still missing.
    NotAuthorized,
    /// An authority for this role already materialized.
    AlreadyMaterialized,
    /// The transfer was settled before: nothing mints.
    Aborted,
}

/// One expected join.
#[derive(Debug, Clone, Copy)]
pub struct Slot {
    pub meta: MaterializeMeta,
    pub target_ok: bool,
    pub committed: bool,
    pub native: Option<NativeEndpoint>,
    pub materialized: bool,
    pub aborted: bool,
    /// How many duplicates and late endpoints the caller had to close.
    pub closed_junk: u32,
}

impl Slot {
    /// Is this the join of that transfer and role?
    pub open spec fn is_for(self, tid: TransferId, kind: EndpointKind) -> bool {
        self.meta.tid == tid && self.meta.kind == kind
    }

    /// Is the join over, one way or the other?
    pub open spec fn settled(self) -> bool {
        self.materialized || self.aborted
    }

    /// The slot with one more closed duplicate.
    pub open spec fn with_junk(self) -> Slot {
        Slot {
            closed_junk: if self.closed_junk < u32::MAX {
                (self.closed_junk + 1) as u32
            } else {
                u32::MAX
            },
            ..self
        }
    }

    /// The slot after a native endpoint arrived: the first valid one wins.
    pub open spec fn with_native(self, ep: NativeEndpoint) -> Slot {
        if !self.settled() && self.native is None {
            Slot { native: Some(ep), ..self }
        } else {
            self.with_junk()
        }
    }

    /// The slot after the transfer committed.
    pub open spec fn with_commit(self) -> Slot {
        if self.aborted {
            self
        } else {
            Slot { committed: true, ..self }
        }
    }

    /// The slot after an abort was observed.
    pub open spec fn with_abort(self) -> Slot {
        if self.materialized {
            self
        } else {
            let gone = Slot { aborted: true, native: None, ..self };
            if self.native is Some {
                gone.with_junk()
            } else {
                gone
            }
        }
    }

    /// Are all inputs there, and is the request the one that was authorized?
    pub open spec fn ready(self, meta: MaterializeMeta) -> bool {
        self.meta.pid == meta.pid && !self.settled() && self.target_ok && self.committed
            && self.native is Some
    }

    fn add_junk(self) -> (r: Slot)
        ensures
            r == self.with_junk(),
    {
        Slot { closed_junk: self.closed_junk.saturating_add(1), ..self }
    }
}

/// The index of the join of a transfer and role, if one is armed.
pub open spec fn slot_index(slots: Seq<Slot>, tid: TransferId, kind: EndpointKind) -> Option<int> {
    if exists|i: int| 0 <= i < slots.len() && (#[trigger] slots[i]).is_for(tid, kind) {
        Some(choose|i: int| 0 <= i < slots.len() && (#[trigger] slots[i]).is_for(tid, kind))
    } else {
        None
    }
}

/// No two slots are for one transfer and role.
pub open spec fn slots_distinct(slots: Seq<Slot>) -> bool {
    forall|i: int, j: int|
        0 <= i < slots.len() && 0 <= j < slots.len() && i != j ==> !((#[trigger] slots[i]).is_for(
            (#[trigger] slots[j]).meta.tid,
            slots[j].meta.kind,
        ))
}

/// A slot that is for a transfer and role is the one found for it.
pub proof fn lemma_slot_index(slots: Seq<Slot>, tid: TransferId, kind: EndpointKind, i: int)
    requires
        slots_distinct(slots),
        0 <= i < slots.len(),
        slots[i].is_for(tid, kind),
    ensures
        slot_index(slots, tid, kind) == Some(i),
{
    let j = slot_index(slots, tid, kind)->Some_0;
    assert(slots[j].is_for(tid, kind));
    if i != j {
        assert(!slots[i].is_for(slots[j].meta.tid, slots[j].meta.kind));
    }
}

/// What the materializer knows.
#[verifier::ext_equal]
pub struct Joins {
    pub slots: Seq<Slot>,
    /// Settled joins, oldest first, as far as they are recalled.
    pub retired: Seq<(TransferId, EndpointKind)>,
}

impl Joins {
    /// What a request to arm a join comes to.
    pub open spec fn arming(self, meta: MaterializeMeta, target_ok: bool) -> Result<Joins, JoinReject> {
        if slot_index(self.slots, meta.tid, meta.kind) is Some {
            Err(JoinReject::AlreadyMaterialized)
        } else if self.retired.contains((meta.tid, meta.kind)) {
            Err(JoinReject::Aborted)
        } else if self.slots.len() >= PIPE_RETIRE_CAP {
            Err(JoinReject::NotAuthorized)
        } else {
            Ok(
                Joins {
                    slots: self.slots.push(
                        Slot {
                            meta,
                            target_ok,
                            committed: false,
                            native: None,
                            materialized: false,
                            aborted: false,
                            closed_junk: 0,
                        },
                    ),
                    ..self
                },
            )
        }
    }

    /// The joins with another slot at `i`.
    pub open spec fn with_slot(self, i: int, s: Slot) -> Joins {
        Joins { slots: self.slots.update(i, s), ..self }
    }

    /// What an attempt to join comes to.
    pub open spec fn joining(self, meta: MaterializeMeta) -> (Joins, Result<NativeEndpoint, JoinReject>) {
        match slot_index(self.slots, meta.tid, meta.kind) {
            None => (self, Err(JoinReject::NotAuthorized)),
            Some(i) => {
                let s = self.slots[i];
                if s.meta.pid != meta.pid {
                    (self, Err(JoinReject::NotAuthorized))
                } else if s.materialized {
                    (self, Err(JoinReject::AlreadyMaterialized))
                } else if !s.ready(meta) {
                    (self, Err(JoinReject::NotAuthorized))
                } else {
                    (
                        self.with_slot(i, Slot { native: None, materialized: true, ..s }),
                        Ok(s.native->Some_0),
                    )
                }
            },
        }
    }

    /// One settled join goes into the recall; the oldest leaves when it is
    /// full.
    pub open spec fn recall(q: Seq<(TransferId, EndpointKind)>, m: MaterializeMeta) -> Seq<
        (TransferId, EndpointKind),
    > {
        let n = q.push((m.tid, m.kind));
        if n.len() > PIPE_RETIRE_CAP {
            n.skip(1)
        } else {
            n
        }
    }

    /// The recall after the settled ones of these slots went in, in order.
    pub open spec fn recall_all(q: Seq<(TransferId, EndpointKind)>, slots: Seq<Slot>) -> Seq<
        (TransferId, EndpointKind),
    >
        decreases slots.len(),
    {
        if slots.len() == 0 {
            q
        } else {
            let before = Self::recall_all(q, slots.drop_last());
            if slots.last().settled() {
                Self::recall(before, slots.last().meta)
            } else {
                before
            }
        }
    }

    /// The joins after the settled ones went into the recall.
    pub open spec fn reaped(self) -> Joins {
        Joins {
            slots: self.slots.filter(|s: Slot| !s.settled()),
            retired: Self::recall_all(self.retired, self.slots),
        }
    }

    /// What holds of every reachable set of joins.
    pub open spec fn ok(self) -> bool {
        &&& slots_distinct(self.slots)
        &&& self.slots.len() <= PIPE_RETIRE_CAP
        &&& self.retired.len() <= PIPE_RETIRE_CAP
    }
}

/// All closed duplicates together.
pub open spec fn junk_total(slots: Seq<Slot>) -> nat
    decreases slots.len(),
{
    if slots.len() == 0 {
        0
    } else {
        junk_total(slots.drop_last()) + slots.last().closed_junk as nat
    }
}

/// The joins that a recipient waits for.
pub struct Materializer {
    slots: Vec<Slot>,
    retired: VecDeque<(TransferId, EndpointKind)>,
}

impl View for Materializer {
    type V = Joins;

    closed spec fn view(&self) -> Joins {
        Joins { slots: self.slots@, retired: self.retired@ }
    }
}

impl Materializer {
    /// The joins are in a reachable state.
    pub closed spec fn wf(&self) -> bool {
        self@.ok()
    }

    /// A well-formed materializer is in a reachable state.
    pub proof fn lemma_wf(&self)
        requires
            self.wf(),
        ensures
            self@.ok(),
    {
    }

    /// Nothing armed.
    pub fn new() -> (r: Self)
        ensures
            r.wf(),
            r@ == (Joins { slots: Seq::empty(), retired: Seq::empty() }),
    {
        let r = Materializer { slots: Vec::new(), retired: VecDeque::new() };
        assert(r@ =~= Joins { slots: Seq::empty(), retired: Seq::empty() });
        r
    }

    fn find(&self, tid: &TransferId, kind: EndpointKind) -> (r: Option<usize>)
        requires
            self.wf(),
        ensures
            match r {
                Some(i) => i < self@.slots.len() && slot_index(self@.slots, *tid, kind) == Some(i as int)
                    && self@.slots[i as int].is_for(*tid, kind),
                None => slot_index(self@.slots, *tid, kind) is None,
            },
    {
        let mut i: usize = 0;
        while i < self.slots.len()
            invariant
                i <= self.slots@.len(),
                self.wf(),
                forall|k: int| 0 <= k < i ==> !(#[trigger] self.slots@[k]).is_for(*tid, kind),
            decreases self.slots@.len() - i,
        {
            if self.slots[i].meta.tid == *tid && self.slots[i].meta.kind == kind {
                proof {
                    lemma_slot_index(self.slots@, *tid, kind, i as int);
                }
                return Some(i);
            }
            i = i + 1;
        }
        None
    }

    fn put(&mut self, i: usize, s: Slot)
        requires
            old(self).wf(),
            i < old(self)@.slots.len(),
            s.meta == old(self)@.slots[i as int].meta,
        ensures
            final(self).wf(),
            final(self)@ == old(self)@.with_slot(i as int, s),
    {
        self.slots.set(i, s);
        proof {
            let a = old(self).slots@;
            let b = self.slots@;
            assert(b =~= a.update(i as int, s));
            assert forall|j: int, k: int|
                0 <= j < b.len() && 0 <= k < b.len() && j != k implies !((#[trigger] b[j]).is_for(
                (#[trigger] b[k]).meta.tid,
                b[k].meta.kind,
            )) by {
                assert(!a[j].is_for(a[k].meta.tid, a[k].meta.kind));
            }
        }
    }

    /// Arms the expected join from what the host authorized. `target_ok` says
    /// whether this recipient is the authorized one.
    pub fn arm(&mut self, meta: MaterializeMeta, target_ok: bool) -> (r: Result<(), JoinReject>)
        requires
            old(self).wf(),
        ensures
            final(self).wf(),
            match old(self)@.arming(meta, target_ok) {
                Ok(j) => r is Ok && final(self)@ == j,
                Err(e) => r == Err::<(), JoinReject>(e) && final(self)@ == old(self)@,
            },
    {
        if self.find(&meta.tid, meta.kind).is_some() {
            return Err(JoinReject::AlreadyMaterialized);
        }
        if self.recalls(&meta.tid, meta.kind) {
            return Err(JoinReject::Aborted);
        }
        if self.slots.len() >= PIPE_RETIRE_CAP {
            // Bounded window: refuse rather than grow.
            return Err(JoinReject::NotAuthorized);
        }
        self.slots.push(
            Slot {
                meta,
                target_ok,
                committed: false,
                native: None,
                materialized: false,
                aborted: false,
                closed_junk: 0,
            },
        );
        proof {
            let a = old(self).slots@;
            let b = self.slots@;
            assert(slot_index(a, meta.tid, meta.kind) is None);
            assert forall|j: int, k: int|
                0 <= j < b.len() && 0 <= k < b.len() && j != k implies !((#[trigger] b[j]).is_for(
                (#[trigger] b[k]).meta.tid,
                b[k].meta.kind,
            )) by {
                if j < a.len() && k < a.len() {
                    assert(!a[j].is_for(a[k].meta.tid, a[k].meta.kind));
                } else if j < a.len() {
                    assert(!a[j].is_for(meta.tid, meta.kind));
                } else {
                    assert(!a[k].is_for(meta.tid, meta.kind));
                }
            }
        }
        Ok(())
    }

    fn recalls(&self, tid: &TransferId, kind: EndpointKind) -> (r: bool)
        ensures
            r == self@.retired.contains((*tid, kind)),
    {
        let n: usize = self.retired.len();
        let mut i: usize = 0;
        while i < n
            invariant
                i <= n,
                n == self.retired@.len(),
                forall|k: int| 0 <= k < i ==> self.retired@[k] != (*tid, kind),
            decreases n - i,
        {
            if self.retired[i].0 == *tid && self.retired[i].1 == kind {
                assert(self.retired@[i as int] == (*tid, kind));
                return true;
            }
            i = i + 1;
        }
        false
    }

    /// The transfer committed. False if nothing is armed for it, or it was
    /// aborted.
    pub fn on_committed(&mut self, tid: &TransferId, kind: EndpointKind) -> (r: bool)
        requires
            old(self).wf(),
        ensures
            final(self).wf(),
            match slot_index(old(self)@.slots, *tid, kind) {
                Some(i) => r == !old(self)@.slots[i].aborted && final(self)@ == old(self)@.with_slot(
                    i,
                    old(self)@.slots[i].with_commit(),
                ),
                None => !r && final(self)@ == old(self)@,
            },
    {
        match self.find(tid, kind) {
            Some(i) => {
                let s = self.slots[i];
                if s.aborted {
                    assert(self@ =~= old(self)@.with_slot(i as int, s));
                    false
                } else {
                    self.put(i, Slot { committed: true, ..s });
                    true
                }
            },
            None => false,
        }
    }

    /// The transfer aborted before the join: nothing may ever mint. Gives the
    /// endpoint that the caller must close.
    pub fn on_aborted(&mut self, tid: &TransferId, kind: EndpointKind) -> (r: Option<NativeEndpoint>)
        requires
            old(self).wf(),
        ensures
            final(self).wf(),
            match slot_index(old(self)@.slots, *tid, kind) {
                Some(i) => r == (if old(self)@.slots[i].materialized {
                    None
                } else {
                    old(self)@.slots[i].native
                }) && final(self)@ == old(self)@.with_slot(i, old(self)@.slots[i].with_abort()),
                None => r is None && final(self)@ == old(self)@,
            },
    {
        match self.find(tid, kind) {
            Some(i) => {
                let s = self.slots[i];
                if s.materialized {
                    assert(self@ =~= old(self)@.with_slot(i as int, s));
                    return None;
                }
                let gone = Slot { aborted: true, native: None, ..s };
                if s.native.is_some() {
                    self.put(i, gone.add_junk());
                } else {
                    self.put(i, gone);
                }
                s.native
            },
            None => None,
        }
    }

    /// A native endpoint arrived. The first valid one is kept; the caller
    /// closes any other.
    pub fn on_native(&mut self, tid: &TransferId, kind: EndpointKind, ep: NativeEndpoint)
        requires
            old(self).wf(),
        ensures
            final(self).wf(),
            final(self)@ == (match slot_index(old(self)@.slots, *tid, kind) {
                Some(i) => old(self)@.with_slot(i, old(self)@.slots[i].with_native(ep)),
                None => old(self)@,
            }),
    {
        if let Some(i) = self.find(tid, kind) {
            let s = self.slots[i];
            if !s.aborted && !s.materialized && s.native.is_none() {
                self.put(i, Slot { native: Some(ep), ..s });
            } else {
                self.put(i, s.add_junk());
            }
        }
    }

    /// Attempts the join. The native endpoint is handed out exactly once;
    /// every other outcome fails closed.
    pub fn try_materialize(&mut self, meta: &MaterializeMeta) -> (r: Result<NativeEndpoint, JoinReject>)
        requires
            old(self).wf(),
        ensures
            final(self).wf(),
            (final(self)@, r) == old(self)@.joining(*meta),
    {
        let i: usize = match self.find(&meta.tid, meta.kind) {
            Some(i) => i,
            None => {
                return Err(JoinReject::NotAuthorized);
            },
        };
        let s = self.slots[i];
        if s.meta.pid != meta.pid {
            return Err(JoinReject::NotAuthorized);
        }
        if s.materialized {
            return Err(JoinReject::AlreadyMaterialized);
        }
        if s.aborted || !s.target_ok || !s.committed {
            return Err(JoinReject::NotAuthorized);
        }
        match s.native {
            None => Err(JoinReject::NotAuthorized),
            Some(ep) => {
                self.put(i, Slot { native: None, materialized: true, ..s });
                Ok(ep)
            },
        }
    }

    /// Moves settled joins into the bounded recall, so that replays of them
    /// keep failing closed.
    pub fn reap(&mut self)
        requires
            old(self).wf(),
        ensures
            final(self).wf(),
            final(self)@ == old(self)@.reaped(),
    {
        let ghost f = |s: Slot| !s.settled();
        let ghost all = self.slots@;
        let ghost recalled = self.retired@;
        let mut kept: Vec<Slot> = Vec::new();
        let mut i: usize = 0;
        proof {
            reveal(Seq::filter);
            assert(all.take(0) =~= Seq::<Slot>::empty());
        }
        while i < self.slots.len()
            invariant
                i <= self.slots@.len(),
                self.slots@ == all,
                f == (|s: Slot| !s.settled()),
                kept@ == all.take(i as int).filter(f),
                self.retired@ == Joins::recall_all(recalled, all.take(i as int)),
                self.retired@.len() <= PIPE_RETIRE_CAP,
            decreases self.slots@.len() - i,
        {
            let s = self.slots[i];
            proof {
                reveal(Seq::filter);
                assert(all.take(i + 1).drop_last() =~= all.take(i as int));
                assert(all.take(i + 1).last() == s);
            }
            if s.materialized || s.aborted {
                let ghost before = self.retired@;
                self.retired.push_back((s.meta.tid, s.meta.kind));
                if self.retired.len() > PIPE_RETIRE_CAP {
                    let _ = self.retired.pop_front();
                    assert(self.retired@ =~= before.push((s.meta.tid, s.meta.kind)).skip(1));
                }
            } else {
                kept.push(s);
            }
            i = i + 1;
        }
        proof {
            assert(all.take(i as int) =~= all);
            lemma_filter_distinct(all, f);
        }
        self.slots = kept;
    }

    /// How many endpoints the caller had to close, as far as a `u32` counts.
    pub fn closed_junk(&self) -> (n: u32)
        ensures
            n == (if junk_total(self@.slots) <= u32::MAX {
                junk_total(self@.slots)
            } else {
                u32::MAX as nat
            }),
    {
        let mut n: u32 = 0;
        let mut i: usize = 0;
        assert(self.slots@.take(0) =~= Seq::<Slot>::empty());
        while i < self.slots.len()
            invariant
                i <= self.slots@.len(),
                n == (if junk_total(self.slots@.take(i as int)) <= u32::MAX {
                    junk_total(self.slots@.take(i as int))
                } else {
                    u32::MAX as nat
                }),
            decreases self.slots@.len() - i,
        {
            assert(self.slots@.take(i + 1).drop_last() =~= self.slots@.take(i as int));
            n = n.saturating_add(self.slots[i].closed_junk);
            i = i + 1;
        }
        assert(self.slots@.take(i as int) =~= self.slots@);
        n
    }

    /// How many joins are still open.
    pub fn pending(&self) -> (n: usize)
        ensures
            n == self@.slots.filter(|s: Slot| !s.settled()).len(),
    {
        let ghost f = |s: Slot| !s.settled();
        let mut n: usize = 0;
        let mut i: usize = 0;
        proof {
            reveal(Seq::filter);
            assert(self.slots@.take(0) =~= Seq::<Slot>::empty());
        }
        while i < self.slots.len()
            invariant
                i <= self.slots@.len(),
                f == (|s: Slot| !s.settled()),
                n == self.slots@.take(i as int).filter(f).len(),
                n <= i,
            decreases self.slots@.len() - i,
        {
            proof {
                reveal(Seq::filter);
                assert(self.slots@.take(i + 1).drop_last() =~= self.slots@.take(i as int));
            }
            if !self.slots[i].materialized && !self.slots[i].aborted {
                n = n + 1;
            }
            i = i + 1;
        }
        assert(self.slots@.take(i as int) =~= self.slots@);
        n
    }
}

/// Slots that are kept stay distinct.
proof fn lemma_filter_distinct(slots: Seq<Slot>, f: spec_fn(Slot) -> bool)
    requires
        slots_distinct(slots),
    ensures
        slots_distinct(slots.filter(f)),
        slots.filter(f).len() <= slots.len(),
        forall|k: int| 0 <= k < slots.filter(f).len() ==> slots.contains(#[trigger] slots.filter(f)[k]),
    decreases slots.len(),
{
    reveal(Seq::filter);
    if slots.len() > 0 {
        let front = slots.drop_last();
        assert(slots_distinct(front)) by {
            assert forall|i: int, j: int|
                0 <= i < front.len() && 0 <= j < front.len() && i != j implies !((
            #[trigger] front[i]).is_for((#[trigger] front[j]).meta.tid, front[j].meta.kind)) by {
                assert(!slots[i].is_for(slots[j].meta.tid, slots[j].meta.kind));
            }
        }
        lemma_filter_distinct(front, f);
        let a = front.filter(f);
        let b = slots.filter(f);
        assert forall|k: int| 0 <= k < b.len() implies slots.contains(#[trigger] b[k]) by {
            if k < a.len() {
                assert(b[k] == a[k]);
                assert(front.contains(a[k]));
                let i = front.index_of(a[k]);
                assert(slots[i] == b[k]);
            } else {
                assert(slots[slots.len() - 1] == b[k]);
            }
        }
        assert forall|i: int, j: int|
            0 <= i < b.len() && 0 <= j < b.len() && i != j implies !((#[trigger] b[i]).is_for(
            (#[trigger] b[j]).meta.tid,
            b[j].meta.kind,
        )) by {
            if i < a.len() && j < a.len() {
                assert(!a[i].is_for(a[j].meta.tid, a[j].meta.kind));
            } else {
                let k = if i < a.len() {
                    i
                } else {
                    j
                };
                assert(front.contains(a[k]));
                let m = front.index_of(a[k]);
                assert(slots[m] == a[k]);
                assert(!slots[m].is_for(slots.last().meta.tid, slots.last().meta.kind));
                assert(!slots[slots.len() - 1].is_for(slots[m].meta.tid, slots[m].meta.kind));
            }
        }
    }
}

// ---------------------------------------------------------------------- laws --

/// Commit and native endpoint may come in either order: the slot ends up the
/// same.
pub proof fn law_join_is_order_independent(s: Slot, ep: NativeEndpoint)
    ensures
        s.with_commit().with_native(ep) == s.with_native(ep).with_commit(),
{
}

/// Something that happens to a recipient's joins.
pub enum JoinEvent {
    Arm { meta: MaterializeMeta, target_ok: bool },
    Native { tid: TransferId, kind: EndpointKind, ep: NativeEndpoint },
    Commit { tid: TransferId, kind: EndpointKind },
    Abort { tid: TransferId, kind: EndpointKind },
    Attempt(MaterializeMeta),
    Reap,
}

/// The joins after it happened.
pub open spec fn after(j: Joins, e: JoinEvent) -> Joins {
    match e {
        JoinEvent::Arm { meta, target_ok } => match j.arming(meta, target_ok) {
            Ok(n) => n,
            Err(_) => j,
        },
        JoinEvent::Native { tid, kind, ep } => match slot_index(j.slots, tid, kind) {
            Some(i) => j.with_slot(i, j.slots[i].with_native(ep)),
            None => j,
        },
        JoinEvent::Commit { tid, kind } => match slot_index(j.slots, tid, kind) {
            Some(i) => j.with_slot(i, j.slots[i].with_commit()),
            None => j,
        },
        JoinEvent::Abort { tid, kind } => match slot_index(j.slots, tid, kind) {
            Some(i) => j.with_slot(i, j.slots[i].with_abort()),
            None => j,
        },
        JoinEvent::Attempt(meta) => j.joining(meta).0,
        JoinEvent::Reap => j.reaped(),
    }
}

/// The joins after all of it happened, in order.
pub open spec fn after_all(j: Joins, events: Seq<JoinEvent>) -> Joins
    decreases events.len(),
{
    if events.len() == 0 {
        j
    } else {
        after(after_all(j, events.drop_last()), events.last())
    }
}

/// How many of the attempts among the events handed out an endpoint for this
/// transfer and role.
pub open spec fn minted(j: Joins, events: Seq<JoinEvent>, tid: TransferId, kind: EndpointKind) -> nat
    decreases events.len(),
{
    if events.len() == 0 {
        0
    } else {
        minted(j, events.drop_last(), tid, kind) + match events.last() {
            JoinEvent::Attempt(meta) => if meta.tid == tid && meta.kind == kind && after_all(
                j,
                events.drop_last(),
            ).joining(meta).1 is Ok {
                1nat
            } else {
                0
            },
            _ => 0,
        }
    }
}

/// Is the join armed or recalled?
pub open spec fn known(j: Joins, tid: TransferId, kind: EndpointKind) -> bool {
    slot_index(j.slots, tid, kind) is Some || j.retired.contains((tid, kind))
}

/// Can the join never mint? It is settled or meant for somebody else; or it
/// is not armed any more, and still recalled.
pub open spec fn barred(j: Joins, tid: TransferId, kind: EndpointKind) -> bool {
    match slot_index(j.slots, tid, kind) {
        Some(i) => j.slots[i].settled() || !j.slots[i].target_ok,
        None => j.retired.contains((tid, kind)),
    }
}

/// The recall is bounded: does it still know the join after each time that
/// settled joins went into it?
pub open spec fn never_forgotten(
    j: Joins,
    events: Seq<JoinEvent>,
    tid: TransferId,
    kind: EndpointKind,
) -> bool
    decreases events.len(),
{
    events.len() > 0 ==> never_forgotten(j, events.drop_last(), tid, kind) && (events.last() is Reap
        ==> known(after_all(j, events), tid, kind))
}

/// A join that is barred never mints, whatever happens to it or to others, as
/// long as it is not forgotten.
pub proof fn law_barred_never_mints(
    j: Joins,
    events: Seq<JoinEvent>,
    tid: TransferId,
    kind: EndpointKind,
)
    requires
        slots_distinct(j.slots),
        barred(j, tid, kind),
        never_forgotten(j, events, tid, kind),
    ensures
        minted(j, events, tid, kind) == 0,
        barred(after_all(j, events), tid, kind),
        slots_distinct(after_all(j, events).slots),
    decreases events.len(),
{
    if events.len() > 0 {
        let front = events.drop_last();
        law_barred_never_mints(j, front, tid, kind);
        lemma_stays_barred(after_all(j, front), events.last(), tid, kind);
    }
}

/// A join mints at most once: once it has, it never does again, whatever
/// happens.
pub proof fn law_join_mints_once(j: Joins, meta: MaterializeMeta, events: Seq<JoinEvent>)
    requires
        j.ok(),
        j.joining(meta).1 is Ok,
        never_forgotten(j.joining(meta).0, events, meta.tid, meta.kind),
    ensures
        minted(j.joining(meta).0, events, meta.tid, meta.kind) == 0,
        j.joining(meta).0.joining(meta).1 == Err::<NativeEndpoint, JoinReject>(
            JoinReject::AlreadyMaterialized,
        ),
{
    let i = slot_index(j.slots, meta.tid, meta.kind)->Some_0;
    assert(j.slots[i].is_for(meta.tid, meta.kind));
    let n = j.joining(meta).0;
    lemma_update_distinct(j.slots, i, n.slots[i]);
    lemma_slot_index(n.slots, meta.tid, meta.kind, i);
    law_barred_never_mints(n, events, meta.tid, meta.kind);
}

/// An aborted join never mints, whatever happens later; its endpoint, if it
/// had one, is given up at once.
pub proof fn law_aborted_never_mints(
    j: Joins,
    tid: TransferId,
    kind: EndpointKind,
    events: Seq<JoinEvent>,
)
    requires
        j.ok(),
        slot_index(j.slots, tid, kind) is Some,
        !j.slots[slot_index(j.slots, tid, kind)->Some_0].materialized,
        never_forgotten(after(j, JoinEvent::Abort { tid, kind }), events, tid, kind),
    ensures
        ({
            let i = slot_index(j.slots, tid, kind)->Some_0;
            let n = after(j, JoinEvent::Abort { tid, kind });
            &&& n.slots[i].native is None
            &&& minted(n, events, tid, kind) == 0
        }),
{
    let i = slot_index(j.slots, tid, kind)->Some_0;
    assert(j.slots[i].is_for(tid, kind));
    let n = after(j, JoinEvent::Abort { tid, kind });
    lemma_update_distinct(j.slots, i, n.slots[i]);
    lemma_slot_index(n.slots, tid, kind, i);
    law_barred_never_mints(n, events, tid, kind);
}

/// A join for a recipient that is not the authorized one never mints,
/// whatever happens; and an attempt for another pipe than the authorized one
/// gets nothing and changes nothing.
pub proof fn law_unauthorized_never_mints(
    j: Joins,
    meta: MaterializeMeta,
    events: Seq<JoinEvent>,
)
    requires
        j.ok(),
        slot_index(j.slots, meta.tid, meta.kind) is Some,
    ensures
        ({
            let s = j.slots[slot_index(j.slots, meta.tid, meta.kind)->Some_0];
            &&& !s.target_ok && never_forgotten(j, events, meta.tid, meta.kind) ==> minted(
                j,
                events,
                meta.tid,
                meta.kind,
            ) == 0
            &&& s.meta.pid != meta.pid ==> j.joining(meta) == (
                j,
                Err::<NativeEndpoint, JoinReject>(JoinReject::NotAuthorized),
            )
        }),
{
    let s = j.slots[slot_index(j.slots, meta.tid, meta.kind)->Some_0];
    if !s.target_ok && never_forgotten(j, events, meta.tid, meta.kind) {
        law_barred_never_mints(j, events, meta.tid, meta.kind);
    }
}

proof fn lemma_update_distinct(slots: Seq<Slot>, i: int, s: Slot)
    requires
        slots_distinct(slots),
        0 <= i < slots.len(),
        s.meta == slots[i].meta,
    ensures
        slots_distinct(slots.update(i, s)),
{
    let b = slots.update(i, s);
    assert forall|j: int, k: int|
        0 <= j < b.len() && 0 <= k < b.len() && j != k implies !((#[trigger] b[j]).is_for(
        (#[trigger] b[k]).meta.tid,
        b[k].meta.kind,
    )) by {
        assert(!slots[j].is_for(slots[k].meta.tid, slots[k].meta.kind));
    }
}

/// One more slot, for a transfer and role that has none, keeps them distinct.
proof fn lemma_push_distinct(slots: Seq<Slot>, s: Slot)
    requires
        slots_distinct(slots),
        slot_index(slots, s.meta.tid, s.meta.kind) is None,
    ensures
        slots_distinct(slots.push(s)),
{
    let b = slots.push(s);
    assert forall|j: int, k: int|
        0 <= j < b.len() && 0 <= k < b.len() && j != k implies !((#[trigger] b[j]).is_for(
        (#[trigger] b[k]).meta.tid,
        b[k].meta.kind,
    )) by {
        if j < slots.len() && k < slots.len() {
            assert(!slots[j].is_for(slots[k].meta.tid, slots[k].meta.kind));
        } else if j < slots.len() {
            assert(!slots[j].is_for(s.meta.tid, s.meta.kind));
        } else {
            assert(!slots[k].is_for(s.meta.tid, s.meta.kind));
        }
    }
}

/// Nothing is armed for a transfer and role that no slot is for.
proof fn lemma_no_slot(slots: Seq<Slot>, tid: TransferId, kind: EndpointKind)
    requires
        forall|i: int| 0 <= i < slots.len() ==> !(#[trigger] slots[i]).is_for(tid, kind),
    ensures
        slot_index(slots, tid, kind) is None,
{
}

/// A changed slot at `k` leaves the others where they were.
proof fn lemma_update_index(slots: Seq<Slot>, k: int, s: Slot, tid: TransferId, kind: EndpointKind)
    requires
        slots_distinct(slots),
        0 <= k < slots.len(),
        s.meta == slots[k].meta,
    ensures
        slots_distinct(slots.update(k, s)),
        slot_index(slots.update(k, s), tid, kind) == slot_index(slots, tid, kind),
{
    let b = slots.update(k, s);
    lemma_update_distinct(slots, k, s);
    match slot_index(slots, tid, kind) {
        Some(i) => {
            assert(slots[i].is_for(tid, kind));
            assert(b[i].is_for(tid, kind));
            lemma_slot_index(b, tid, kind, i);
        },
        None => {
            assert forall|i: int| 0 <= i < b.len() implies !(#[trigger] b[i]).is_for(tid, kind) by {
                assert(!slots[i].is_for(tid, kind));
            }
            lemma_no_slot(b, tid, kind);
        },
    }
}

proof fn lemma_stays_barred(j: Joins, e: JoinEvent, tid: TransferId, kind: EndpointKind)
    requires
        slots_distinct(j.slots),
        barred(j, tid, kind),
        e is Reap ==> known(after(j, e), tid, kind),
    ensures
        slots_distinct(after(j, e).slots),
        barred(after(j, e), tid, kind),
        match e {
            JoinEvent::Attempt(meta) => meta.tid == tid && meta.kind == kind ==> j.joining(meta).1 is Err,
            _ => true,
        },
{
    let n = after(j, e);
    match e {
        JoinEvent::Arm { meta, target_ok } => {
            if j.arming(meta, target_ok) is Ok {
                let s = n.slots.last();
                lemma_push_distinct(j.slots, s);
                assert(n.slots =~= j.slots.push(s));
                match slot_index(j.slots, tid, kind) {
                    Some(i) => {
                        assert(j.slots[i].is_for(tid, kind));
                        assert(n.slots[i] == j.slots[i]);
                        lemma_slot_index(n.slots, tid, kind, i);
                    },
                    None => {
                        assert forall|i: int| 0 <= i < n.slots.len() implies !(
                        #[trigger] n.slots[i]).is_for(tid, kind) by {
                            if i < j.slots.len() {
                                assert(!j.slots[i].is_for(tid, kind));
                            }
                        }
                        lemma_no_slot(n.slots, tid, kind);
                    },
                }
            }
        },
        JoinEvent::Native { tid: t, kind: k, ep } => {
            if let Some(i) = slot_index(j.slots, t, k) {
                assert(j.slots[i].is_for(t, k));
                lemma_update_index(j.slots, i, j.slots[i].with_native(ep), tid, kind);
            }
        },
        JoinEvent::Commit { tid: t, kind: k } => {
            if let Some(i) = slot_index(j.slots, t, k) {
                assert(j.slots[i].is_for(t, k));
                lemma_update_index(j.slots, i, j.slots[i].with_commit(), tid, kind);
            }
        },
        JoinEvent::Abort { tid: t, kind: k } => {
            if let Some(i) = slot_index(j.slots, t, k) {
                assert(j.slots[i].is_for(t, k));
                lemma_update_index(j.slots, i, j.slots[i].with_abort(), tid, kind);
            }
        },
        JoinEvent::Attempt(meta) => {
            if let Some(i) = slot_index(j.slots, meta.tid, meta.kind) {
                assert(j.slots[i].is_for(meta.tid, meta.kind));
                if n != j {
                    lemma_update_index(j.slots, i, n.slots[i], tid, kind);
                }
            }
        },
        JoinEvent::Reap => {
            lemma_reap_bars(j, tid, kind);
        },
    }
}

/// What is left armed after settled joins were put away.
proof fn lemma_reap_bars(j: Joins, tid: TransferId, kind: EndpointKind)
    requires
        slots_distinct(j.slots),
        barred(j, tid, kind),
        known(j.reaped(), tid, kind),
    ensures
        slots_distinct(j.reaped().slots),
        barred(j.reaped(), tid, kind),
{
    let f = |s: Slot| !s.settled();
    let n = j.reaped();
    lemma_filter_distinct(j.slots, f);
    assert(n.slots == j.slots.filter(f));
    if let Some(k) = slot_index(n.slots, tid, kind) {
        assert(n.slots[k].is_for(tid, kind));
        assert(j.slots.contains(n.slots[k]));
        let i = j.slots.index_of(n.slots[k]);
        assert(j.slots[i].is_for(tid, kind));
        lemma_slot_index(j.slots, tid, kind, i);
        j.slots.lemma_filter_pred(f, k);
    }
}

} // verus!

//! Bounded double-accounted queues (message count and byte cost).
//!
//! Unbounded queues are forbidden: these are the only queues the fabric uses.
//! A push fails with the current accounting instead of growing. Locking and
//! waiting belong to the caller; a pop says whether to wait, and for how long.

use std::collections::VecDeque;
use vstd::prelude::*;

verus! {

/// How much is queued.
#[derive(Clone, Copy, Debug, PartialEq, Eq, Structural)]
pub struct Backlog {
    pub msgs: usize,
    pub bytes: usize,
}

/// Why a pop gave nothing.
#[derive(Clone, Copy, Debug, PartialEq, Eq, Structural)]
pub enum PopError {
    Timeout,
    Closed,
}

/// What a pop gave.
#[derive(Debug, PartialEq, Eq)]
pub enum Popped<T> {
    Item(T),
    /// Nothing yet: look again after so many milliseconds, or when woken.
    Wait(u64),
}

/// The longest wait between two looks at the queue, in milliseconds.
pub const RECHECK_MILLIS: u64 = 50;

/// How long to wait before the next look.
pub open spec fn wait_for(now: u64, deadline: u64) -> u64 {
    if deadline - now < RECHECK_MILLIS {
        (deadline - now) as u64
    } else {
        RECHECK_MILLIS
    }
}

/// What a queue holds, from the oldest item to the newest, each with its
/// cost; and its bounds.
#[verifier::ext_equal]
#[verifier::reject_recursive_types(T)]
pub struct QueueView<T> {
    pub items: Seq<(T, usize)>,
    pub closed: bool,
    pub max_msgs: usize,
    pub max_bytes: usize,
}

/// The cost of all items.
pub open spec fn total_cost<T>(items: Seq<(T, usize)>) -> nat
    decreases items.len(),
{
    if items.len() == 0 {
        0
    } else {
        total_cost(items.drop_last()) + items.last().1 as nat
    }
}

/// The first item counts like any other.
proof fn lemma_cost_first<T>(items: Seq<(T, usize)>)
    requires
        items.len() > 0,
    ensures
        total_cost(items) == items[0].1 as nat + total_cost(items.skip(1)),
    decreases items.len(),
{
    if items.len() > 1 {
        lemma_cost_first(items.drop_last());
        assert(items.drop_last().skip(1) =~= items.skip(1).drop_last());
        assert(items.skip(1).last() == items.last());
    } else {
        assert(items.skip(1) =~= Seq::empty());
        assert(items.drop_last() =~= Seq::empty());
    }
}

impl<T> QueueView<T> {
    /// Both bounds hold.
    pub open spec fn within_bounds(self) -> bool {
        &&& self.items.len() <= self.max_msgs
        &&& total_cost(self.items) <= self.max_bytes
    }

    /// Is there room for one more item of this cost?
    pub open spec fn admits(self, cost: usize) -> bool {
        &&& !self.closed
        &&& self.items.len() < self.max_msgs
        &&& total_cost(self.items) + cost <= self.max_bytes
    }

    /// The queue with one more item.
    pub open spec fn pushed(self, item: T, cost: usize) -> Self {
        QueueView { items: self.items.push((item, cost)), ..self }
    }

    /// The queue without its oldest item.
    pub open spec fn popped(self) -> Self {
        QueueView { items: self.items.skip(1), ..self }
    }
}

/// What a queue holds, each item by its view.
pub open spec fn seen<T: View>(q: QueueView<T>) -> QueueView<T::V> {
    QueueView {
        items: q.items.map_values(|e: (T, usize)| (e.0@, e.1)),
        closed: q.closed,
        max_msgs: q.max_msgs,
        max_bytes: q.max_bytes,
    }
}

/// Looking at items by their views changes no accounting.
pub proof fn lemma_seen_cost<T: View>(q: QueueView<T>)
    ensures
        total_cost(seen(q).items) == total_cost(q.items),
        forall|cost: usize| seen(q).admits(cost) == q.admits(cost),
    decreases q.items.len(),
{
    if q.items.len() > 0 {
        let front = QueueView { items: q.items.drop_last(), ..q };
        lemma_seen_cost(front);
        assert(seen(q).items.drop_last() =~= seen(front).items);
    }
}

/// A push is seen as a push, and a pop as a pop.
pub proof fn lemma_seen_moves<T: View>(q: QueueView<T>, item: T, cost: usize)
    ensures
        seen(q.pushed(item, cost)) == seen(q).pushed(item@, cost),
        q.items.len() > 0 ==> seen(q.popped()) == seen(q).popped(),
{
    assert(seen(q.pushed(item, cost)) =~= seen(q).pushed(item@, cost));
    if q.items.len() > 0 {
        assert(seen(q.popped()) =~= seen(q).popped());
    }
}

/// A bounded first-in first-out queue.
#[verifier::reject_recursive_types(T)]
pub struct BoundedQueue<T> {
    q: VecDeque<(T, usize)>,
    bytes: usize,
    closed: bool,
    max_msgs: usize,
    max_bytes: usize,
}

impl<T> View for BoundedQueue<T> {
    type V = QueueView<T>;

    closed spec fn view(&self) -> QueueView<T> {
        QueueView {
            items: self.q@,
            closed: self.closed,
            max_msgs: self.max_msgs,
            max_bytes: self.max_bytes,
        }
    }
}

impl<T> BoundedQueue<T> {
    /// The accounting is exact and within the bounds.
    pub closed spec fn wf(&self) -> bool {
        &&& self.bytes == total_cost(self.q@)
        &&& self@.within_bounds()
    }

    /// A well-formed queue is within its bounds.
    pub proof fn lemma_wf(&self)
        requires
            self.wf(),
        ensures
            self@.within_bounds(),
    {
    }

    /// An empty queue.
    pub fn new(max_msgs: usize, max_bytes: usize) -> (r: Self)
        ensures
            r.wf(),
            r@ == (QueueView::<T> { items: Seq::empty(), closed: false, max_msgs, max_bytes }),
    {
        let r = BoundedQueue { q: VecDeque::new(), bytes: 0, closed: false, max_msgs, max_bytes };
        assert(r.q@ =~= Seq::empty());
        r
    }

    /// Enqueues, unless a bound would be exceeded or the queue was closed:
    /// the item then comes back untouched, with the current accounting.
    pub fn try_push(&mut self, item: T, cost: usize) -> (r: Result<(), (T, Backlog)>)
        requires
            old(self).wf(),
        ensures
            final(self).wf(),
            if old(self)@.admits(cost) {
                r is Ok && final(self)@ == old(self)@.pushed(item, cost)
            } else {
                r is Err && r->Err_0.0 == item && r->Err_0.1.msgs == old(self)@.items.len()
                    && r->Err_0.1.bytes == total_cost(old(self)@.items) && final(self)@ == old(self)@
            },
    {
        let msgs: usize = self.q.len();
        if self.closed {
            return Err((item, Backlog { msgs, bytes: self.bytes }));
        }
        if msgs >= self.max_msgs || cost > self.max_bytes - self.bytes {
            return Err((item, Backlog { msgs, bytes: self.bytes }));
        }
        self.q.push_back((item, cost));
        self.bytes = self.bytes + cost;
        proof {
            assert(self.q@.drop_last() =~= old(self).q@);
            assert(self@ =~= old(self)@.pushed(item, cost));
        }
        Ok(())
    }

    /// Takes the oldest item. Without one: the end if the queue was closed, a
    /// timeout from the deadline on, else a wait. Times are in milliseconds.
    pub fn pop_deadline(&mut self, now: u64, deadline: u64) -> (r: Result<Popped<T>, PopError>)
        requires
            old(self).wf(),
        ensures
            final(self).wf(),
            if old(self)@.items.len() > 0 {
                r == Ok::<Popped<T>, PopError>(Popped::Item(old(self)@.items[0].0)) && final(self)@
                    == old(self)@.popped()
            } else {
                final(self)@ == old(self)@ && r == (if old(self)@.closed {
                    Err::<Popped<T>, PopError>(PopError::Closed)
                } else if now >= deadline {
                    Err(PopError::Timeout)
                } else {
                    Ok(Popped::Wait(wait_for(now, deadline)))
                })
            },
    {
        proof {
            if self.q@.len() > 0 {
                lemma_cost_first(self.q@);
            }
        }
        match self.q.pop_front() {
            Some((item, cost)) => {
                self.bytes = self.bytes - cost;
                proof {
                    assert(self.q@ =~= old(self).q@.skip(1));
                    assert(self@ =~= old(self)@.popped());
                }
                Ok(Popped::Item(item))
            },
            None => {
                if self.closed {
                    Err(PopError::Closed)
                } else if now >= deadline {
                    Err(PopError::Timeout)
                } else {
                    let left: u64 = deadline - now;
                    if left < RECHECK_MILLIS {
                        Ok(Popped::Wait(left))
                    } else {
                        Ok(Popped::Wait(RECHECK_MILLIS))
                    }
                }
            },
        }
    }

    /// Closes the queue: what is queued can still be popped.
    pub fn close(&mut self)
        requires
            old(self).wf(),
        ensures
            final(self).wf(),
            final(self)@ == (QueueView { closed: true, ..old(self)@ }),
    {
        self.closed = true;
    }

    /// Current accounting.
    pub fn backlog(&self) -> (r: Backlog)
        requires
            self.wf(),
        ensures
            r.msgs == self@.items.len(),
            r.bytes == total_cost(self@.items),
    {
        Backlog { msgs: self.q.len(), bytes: self.bytes }
    }

    /// Was the queue closed?
    pub fn is_closed(&self) -> (r: bool)
        ensures
            r == self@.closed,
    {
        self.closed
    }
}

/// Two queues in one: a compartment for data, and one reserved for control
/// frames, so that saturated data never strands a transfer. Control goes out
/// first.
#[verifier::reject_recursive_types(T)]
pub struct DualQueue<T> {
    data: BoundedQueue<T>,
    ctrl: BoundedQueue<T>,
}

impl<T> DualQueue<T> {
    /// What the data compartment holds.
    pub closed spec fn data(&self) -> QueueView<T> {
        self.data@
    }

    /// What the control compartment holds.
    pub closed spec fn ctrl(&self) -> QueueView<T> {
        self.ctrl@
    }

    /// Both compartments are in order, and closed together.
    pub closed spec fn wf(&self) -> bool {
        &&& self.data.wf()
        &&& self.ctrl.wf()
        &&& self.data@.closed == self.ctrl@.closed
    }

    /// A well-formed pair of compartments is within all bounds.
    pub proof fn lemma_wf(&self)
        requires
            self.wf(),
        ensures
            self.data().within_bounds(),
            self.ctrl().within_bounds(),
            self.data().closed == self.ctrl().closed,
    {
        self.data.lemma_wf();
        self.ctrl.lemma_wf();
    }

    /// Empty compartments.
    pub fn new(data_msgs: usize, data_bytes: usize, ctrl_msgs: usize, ctrl_bytes: usize) -> (r: Self)
        ensures
            r.wf(),
            r.data() == (QueueView::<T> {
                items: Seq::empty(),
                closed: false,
                max_msgs: data_msgs,
                max_bytes: data_bytes,
            }),
            r.ctrl() == (QueueView::<T> {
                items: Seq::empty(),
                closed: false,
                max_msgs: ctrl_msgs,
                max_bytes: ctrl_bytes,
            }),
    {
        DualQueue {
            data: BoundedQueue::new(data_msgs, data_bytes),
            ctrl: BoundedQueue::new(ctrl_msgs, ctrl_bytes),
        }
    }

    /// Enqueues data, unless its compartment is full or closed.
    pub fn push_data(&mut self, item: T, cost: usize) -> (r: Result<(), (T, Backlog)>)
        requires
            old(self).wf(),
        ensures
            final(self).wf(),
            final(self).ctrl() == old(self).ctrl(),
            if old(self).data().admits(cost) {
                r is Ok && final(self).data() == old(self).data().pushed(item, cost)
            } else {
                r is Err && r->Err_0.0 == item && r->Err_0.1.msgs == old(self).data().items.len()
                    && r->Err_0.1.bytes == total_cost(old(self).data().items) && final(self).data()
                    == old(self).data()
            },
    {
        self.data.try_push(item, cost)
    }

    /// Enqueues control, unless its compartment is full or closed. The caller
    /// may try again until its deadline.
    pub fn push_ctrl(&mut self, item: T, cost: usize) -> (r: Result<(), (T, Backlog)>)
        requires
            old(self).wf(),
        ensures
            final(self).wf(),
            final(self).data() == old(self).data(),
            if old(self).ctrl().admits(cost) {
                r is Ok && final(self).ctrl() == old(self).ctrl().pushed(item, cost)
            } else {
                r is Err && r->Err_0.0 == item && r->Err_0.1.msgs == old(self).ctrl().items.len()
                    && r->Err_0.1.bytes == total_cost(old(self).ctrl().items) && final(self).ctrl()
                    == old(self).ctrl()
            },
    {
        self.ctrl.try_push(item, cost)
    }

    /// Takes the oldest control item, or the oldest data item if there is no
    /// control. Without either: `Closed` once closed, else nothing.
    pub fn pop(&mut self) -> (r: Result<Option<T>, PopError>)
        requires
            old(self).wf(),
        ensures
            final(self).wf(),
            if old(self).ctrl().items.len() > 0 {
                &&& r == Ok::<Option<T>, PopError>(Some(old(self).ctrl().items[0].0))
                &&& final(self).ctrl() == old(self).ctrl().popped()
                &&& final(self).data() == old(self).data()
            } else if old(self).data().items.len() > 0 {
                &&& r == Ok::<Option<T>, PopError>(Some(old(self).data().items[0].0))
                &&& final(self).data() == old(self).data().popped()
                &&& final(self).ctrl() == old(self).ctrl()
            } else {
                &&& r == (if old(self).data().closed {
                    Err::<Option<T>, PopError>(PopError::Closed)
                } else {
                    Ok(None)
                })
                &&& final(self).data() == old(self).data()
                &&& final(self).ctrl() == old(self).ctrl()
            },
    {
        if let Ok(Popped::Item(item)) = self.ctrl.pop_deadline(0, 0) {
            return Ok(Some(item));
        }
        match self.data.pop_deadline(0, 0) {
            Ok(Popped::Item(item)) => Ok(Some(item)),
            Err(PopError::Closed) => Err(PopError::Closed),
            _ => Ok(None),
        }
    }

    /// Closes both compartments: what is queued can still be popped.
    pub fn close(&mut self)
        requires
            old(self).wf(),
        ensures
            final(self).wf(),
            final(self).data() == (QueueView { closed: true, ..old(self).data() }),
            final(self).ctrl() == (QueueView { closed: true, ..old(self).ctrl() }),
    {
        self.data.close();
        self.ctrl.close();
    }
}

/// Items come out in the order in which they went in: a push does not change
/// which item comes out next, and commutes with taking it; on an empty queue
/// the new item is next.
pub proof fn law_first_in_first_out<T>(q: QueueView<T>, item: T, cost: usize)
    ensures
        q.items.len() > 0 ==> q.pushed(item, cost).items[0] == q.items[0],
        q.items.len() > 0 ==> q.pushed(item, cost).popped() == q.popped().pushed(item, cost),
        q.items.len() == 0 ==> q.pushed(item, cost).items[0] == (item, cost),
{
    if q.items.len() > 0 {
        assert(q.pushed(item, cost).popped() =~= q.popped().pushed(item, cost));
    }
}

/// Popping gives back exactly the room that the item took: what was refused
/// for want of its bytes fits again.
pub proof fn law_pop_restores_room<T>(q: QueueView<T>, cost: usize)
    requires
        q.within_bounds(),
        !q.closed,
        q.items.len() > 0,
        cost <= q.items[0].1,
    ensures
        q.popped().admits(cost),
        q.popped().within_bounds(),
        total_cost(q.popped().items) + q.items[0].1 == total_cost(q.items),
{
    lemma_cost_first(q.items);
}

/// A push never breaks a bound.
pub proof fn law_push_keeps_bounds<T>(q: QueueView<T>, item: T, cost: usize)
    requires
        q.admits(cost),
    ensures
        q.pushed(item, cost).within_bounds(),
{
    assert(q.pushed(item, cost).items.drop_last() =~= q.items);
}

/// An open queue takes an item while it holds fewer than it may and the item's
/// cost still goes with that of all the others; the item goes behind them, at
/// its cost. What was next is taken, and nothing else changes.
pub proof fn law_what_a_queue_takes<T>(q: QueueView<T>, item: T, cost: usize)
    ensures
        total_cost(Seq::<(T, usize)>::empty()) == 0,
        total_cost(q.items.push((item, cost))) == total_cost(q.items) + cost,
        q.admits(cost) <==> !q.closed && q.items.len() + 1 <= q.max_msgs && total_cost(
            q.items.push((item, cost)),
        ) <= q.max_bytes,
        ({
            let n = q.pushed(item, cost);
            &&& n.items.len() == q.items.len() + 1
            &&& n.items.last() == (item, cost)
            &&& n.items.drop_last() == q.items
            &&& n.closed == q.closed && n.max_msgs == q.max_msgs && n.max_bytes == q.max_bytes
        }),
        q.items.len() > 0 ==> {
            let n = q.popped();
            &&& seq![q.items[0]] + n.items == q.items
            &&& n.closed == q.closed && n.max_msgs == q.max_msgs && n.max_bytes == q.max_bytes
        },
{
    assert(q.items.push((item, cost)).drop_last() =~= q.items);
    if q.items.len() > 0 {
        assert(seq![q.items[0]] + q.items.skip(1) =~= q.items);
    }
}

/// A wait goes no further than the deadline and never beyond fifty
/// milliseconds, and no less far than both allow.
pub proof fn law_waits_are_bounded(now: u64, deadline: u64)
    requires
        now < deadline,
    ensures
        0 < wait_for(now, deadline) <= 50,
        now + wait_for(now, deadline) <= deadline,
        wait_for(now, deadline) == 50 || now + wait_for(now, deadline) == deadline,
{
}

} // verus!

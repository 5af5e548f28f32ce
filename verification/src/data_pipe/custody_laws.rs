//! What a pipe carries and refuses, who holds its two roles, and when a role
//! comes into being at its recipient.

use vstd::prelude::*;

use crate::data_pipe::materialize::{
    junk_total, slot_index, EndpointKind, JoinReject, Joins, MaterializeMeta, NativeEndpoint, Slot,
};
use crate::data_pipe::registry::{Entry, Flight, PipeReject, PipeRole, Pipes};
use crate::data_pipe::{
    read_closed, read_from, waiting, write_closed, written, PipeError, PipeId, PipeView, Step,
};
use crate::id::TransferId;
use crate::router::PeerId;
use crate::table::key_list;

verus! {

// ---------------------------------------------------------------------- the pipe --

/// A write takes as many bytes as there is room for, no fewer, and puts them
/// behind what is buffered; the rest is the caller's. It is refused as closed
/// if the producer closed, as broken if the consumer did, and for now if there
/// is no room at all.
pub proof fn law_a_write_takes_what_fits(closed: bool, p: PipeView, data: Seq<u8>)
    requires
        p.buf.len() <= p.capacity <= usize::MAX,
    ensures
        ({
            let (r, n) = written(closed, p, data);
            let open = !closed && !p.cons_closed && !p.prod_closed;
            let free = p.capacity - p.buf.len();
            &&& closed || (!p.cons_closed && p.prod_closed) ==> r == Err::<usize, PipeError>(
                PipeError::Closed,
            )
            &&& !closed && p.cons_closed ==> r == Err::<usize, PipeError>(PipeError::Broken)
            &&& open && data.len() > 0 && free == 0 ==> r == Err::<usize, PipeError>(
                PipeError::WouldBlock,
            )
            &&& r is Err ==> n == p
            &&& open && (data.len() == 0 || free > 0) ==> {
                &&& r is Ok
                &&& data.len() <= free ==> r->Ok_0 == data.len() && n.buf == p.buf + data
                &&& data.len() > free ==> r->Ok_0 == free && n.buf == p.buf + data.take(free)
                &&& n == (PipeView { buf: n.buf, ..p })
            }
        }),
{
    if data.len() == 0 {
        assert(p.buf + data =~= p.buf);
    }
    assert(data.take(data.len() as int) =~= data);
}

/// A read gives the oldest bytes, as many as fit, no fewer, and leaves the
/// rest. With nothing buffered it is at the end if the producer closed, and
/// refused for now otherwise; a consumer that closed reads no more.
pub proof fn law_a_read_gives_what_is_there(closed: bool, p: PipeView, room: nat)
    requires
        p.buf.len() <= usize::MAX,
    ensures
        ({
            let (r, bytes, n) = read_from(closed, p, room);
            &&& closed ==> r == Err::<usize, PipeError>(PipeError::Closed) && bytes.len() == 0 && n == p
            &&& !closed && room == 0 ==> r == Ok::<usize, PipeError>(0) && bytes.len() == 0 && n == p
            &&& !closed && room > 0 && p.buf.len() == 0 ==> bytes.len() == 0 && n == p && r == (
            if p.prod_closed {
                Ok::<usize, PipeError>(0)
            } else {
                Err(PipeError::WouldBlock)
            })
            &&& !closed && room > 0 && p.buf.len() > 0 ==> {
                &&& bytes.len() == (if room < p.buf.len() {
                    room
                } else {
                    p.buf.len()
                })
                &&& r is Ok && r->Ok_0 == bytes.len()
                &&& bytes + n.buf == p.buf
                &&& n == (PipeView { buf: n.buf, ..p })
            }
        }),
{
    let (r, bytes, n) = read_from(closed, p, room);
    if !closed && room > 0 && p.buf.len() > 0 {
        assert(bytes + n.buf =~= p.buf);
    }
}

/// Closing the producer's end marks it and keeps every byte; closing the
/// consumer's end marks that and drops them. Closing again changes nothing.
pub proof fn law_closing_marks_one_end(p: PipeView)
    ensures
        write_closed(true, p) == p,
        read_closed(true, p) == p,
        write_closed(false, p).prod_closed,
        write_closed(false, p).cons_closed == p.cons_closed,
        write_closed(false, p).buf == p.buf,
        read_closed(false, p).cons_closed,
        read_closed(false, p).prod_closed == p.prod_closed,
        read_closed(false, p).buf.len() == 0,
        write_closed(false, p).id == p.id && write_closed(false, p).capacity == p.capacity,
        read_closed(false, p).id == p.id && read_closed(false, p).capacity == p.capacity,
{
}

/// A waiting operation differs from an immediate one in this alone: what is
/// refused for now it waits out.
pub proof fn law_waiting_waits_out_a_refusal(r: Result<usize, PipeError>)
    ensures
        match r {
            Ok(n) => waiting(r) == Ok::<Step, PipeError>(Step::Moved(n)),
            Err(PipeError::WouldBlock) => waiting(r) == Ok::<Step, PipeError>(Step::Wait),
            Err(e) => waiting(r) == Err::<Step, PipeError>(e),
        },
{
}

// ------------------------------------------------------------------ the registry --

/// Is the pipe known and not dead?
pub open spec fn alive(s: Pipes, pid: PipeId) -> bool {
    s.entries.contains_key(pid) && !s.entries[pid].retired
}

/// Every other pipe is as it was.
pub open spec fn only_pipe(s: Pipes, n: Pipes, pid: PipeId) -> bool {
    forall|k: PipeId|
        k != pid ==> (#[trigger] n.entries.contains_key(k) <==> s.entries.contains_key(k)) && (
        s.entries.contains_key(k) ==> n.entries[k] == s.entries[k])
}

/// A pipe is made with a legal capacity, room for one more, and a name that is
/// neither known nor remembered: the two peers hold its two roles, nothing is
/// on its way, and no other pipe changes.
pub proof fn law_a_made_pipe_has_two_holders(s: Pipes, pid: PipeId, capacity: usize, a: PeerId, b: PeerId)
    ensures
        ({
            let r = s.creation(pid, capacity, a, b);
            let legal = 0 < capacity <= 16777216;
            let room = s.entries.dom().filter(|k: PipeId| !s.entries[k].retired).len() < 1024;
            let new = !s.retired.contains(pid) && !s.entries.contains_key(pid);
            &&& r is Ok <==> legal && room && new
            &&& !legal ==> r == Err::<Pipes, PipeReject>(PipeReject("capacity invalid"))
            &&& legal && !room ==> r == Err::<Pipes, PipeReject>(PipeReject("pipe table full"))
            &&& legal && room && !new ==> r == Err::<Pipes, PipeReject>(
                PipeReject("duplicate pipe id"),
            )
            &&& r is Ok ==> {
                let n = r->Ok_0;
                let e = n.entries[pid];
                &&& alive(n, pid)
                &&& e.capacity == capacity
                &&& e.producer == Some(a) && e.consumer == Some(b)
                &&& e.prod_flight is None && e.cons_flight is None
                &&& only_pipe(s, n, pid)
                &&& n.retired == s.retired
            }
        }),
{
    assert(s.live() =~= s.entries.dom().filter(|k: PipeId| !s.entries[k].retired));
}

/// Who holds a role is told for a live pipe, unless the role is on its way.
pub proof fn law_holders_are_told(s: Pipes, pid: PipeId)
    ensures
        s.holder(pid, PipeRole::Producer) == (if alive(s, pid) && s.entries[pid].prod_flight is None {
            s.entries[pid].producer
        } else {
            None
        }),
        s.holder(pid, PipeRole::Consumer) == (if alive(s, pid) && s.entries[pid].cons_flight is None {
            s.entries[pid].consumer
        } else {
            None
        }),
        s.is_live(pid) <==> alive(s, pid),
{
}

/// The holder of the producer's role can offer it to somebody else, once at a
/// time: it holds nothing then, the role is on its way to that peer under that
/// transfer, and nothing else changes, the consumer's role included.
pub proof fn law_offering_the_producer(s: Pipes, pid: PipeId, t: TransferId, from: PeerId, to: PeerId)
    ensures
        ({
            let r = s.offer(pid, PipeRole::Producer, t, from, to);
            let e = s.entries[pid];
            &&& r is Ok <==> alive(s, pid) && e.prod_flight is None && e.producer == Some(from) && to
                != from
            &&& r is Err ==> r->Err_0 == refusal_of_offer(s, pid, e.prod_flight, e.producer)
            &&& r is Ok ==> {
                let n = r->Ok_0;
                &&& n.entries.contains_key(pid)
                &&& n.entries[pid] == (Entry {
                    producer: None,
                    prod_flight: Some(Flight { tid: t, to }),
                    ..e
                })
                &&& only_pipe(s, n, pid)
                &&& n.retired == s.retired
            }
        }),
{
}

/// So can the holder of the consumer's role.
pub proof fn law_offering_the_consumer(s: Pipes, pid: PipeId, t: TransferId, from: PeerId, to: PeerId)
    ensures
        ({
            let r = s.offer(pid, PipeRole::Consumer, t, from, to);
            let e = s.entries[pid];
            &&& r is Ok <==> alive(s, pid) && e.cons_flight is None && e.consumer == Some(from) && to
                != from
            &&& r is Err ==> r->Err_0 == refusal_of_offer(s, pid, e.cons_flight, e.consumer)
            &&& r is Ok ==> {
                let n = r->Ok_0;
                &&& n.entries.contains_key(pid)
                &&& n.entries[pid] == (Entry {
                    consumer: None,
                    cons_flight: Some(Flight { tid: t, to }),
                    ..e
                })
                &&& only_pipe(s, n, pid)
                &&& n.retired == s.retired
            }
        }),
{
}

/// Why a role cannot be offered.
pub open spec fn refusal_of_offer(s: Pipes, pid: PipeId, flight: Option<Flight>, holder: Option<PeerId>) -> PipeReject {
    if !s.entries.contains_key(pid) {
        PipeReject("unknown pipe")
    } else if s.entries[pid].retired {
        PipeReject("already retired")
    } else if flight is Some {
        PipeReject("stale or foreign transfer")
    } else if holder is None {
        PipeReject("missing holder")
    } else {
        PipeReject("wrong holder")
    }
}

/// A role that is on its way comes to rest with one holder and is on its way
/// no longer; the other role, and every other pipe, stay as they were.
pub proof fn law_a_role_comes_to_rest(s: Pipes, pid: PipeId, p: PeerId)
    ensures
        ({
            let n = s.landed(pid, PipeRole::Producer, p);
            let m = s.landed(pid, PipeRole::Consumer, p);
            &&& n.entries.contains_key(pid) && m.entries.contains_key(pid)
            &&& n.entries[pid] == (Entry { producer: Some(p), prod_flight: None, ..s.entries[pid] })
            &&& m.entries[pid] == (Entry { consumer: Some(p), cons_flight: None, ..s.entries[pid] })
            &&& only_pipe(s, n, pid) && only_pipe(s, m, pid)
            &&& n.retired == s.retired && m.retired == s.retired
        }),
{
}

/// The role that a transfer decides is one that is on its way under it, on a
/// live pipe; there is one if any pipe has it on its way so.
pub proof fn law_a_transfer_finds_its_pipe(s: Pipes, t: TransferId, pid: PipeId)
    requires
        s.entries.dom().finite(),
    ensures
        match s.carrier(PipeRole::Producer, t) {
            Some(k) => alive(s, k) && s.entries[k].prod_flight is Some
                && s.entries[k].prod_flight->Some_0.tid == t,
            None => !(alive(s, pid) && s.entries[pid].prod_flight is Some
                && s.entries[pid].prod_flight->Some_0.tid == t),
        },
        match s.carrier(PipeRole::Consumer, t) {
            Some(k) => alive(s, k) && s.entries[k].cons_flight is Some
                && s.entries[k].cons_flight->Some_0.tid == t,
            None => !(alive(s, pid) && s.entries[pid].cons_flight is Some
                && s.entries[pid].cons_flight->Some_0.tid == t),
        },
{
    lemma_found(s, PipeRole::Producer, t, pid);
    lemma_found(s, PipeRole::Consumer, t, pid);
}

proof fn lemma_found(s: Pipes, role: PipeRole, t: TransferId, pid: PipeId)
    requires
        s.entries.dom().finite(),
    ensures
        match s.carrier(role, t) {
            Some(k) => s.carries(k, role, t),
            None => !s.carries(pid, role, t),
        },
{
    let f = |k: PipeId| s.carries(k, role, t);
    crate::table::lemma_filtered_keys(s.entries.dom(), f);
    let found = key_list(s.entries.dom()).filter(f);
    if found.len() > 0 {
        assert(found.contains(found[0]));
    } else if s.carries(pid, role, t) {
        assert(s.entries.dom().contains(pid));
        assert(found.contains(pid));
    }
}

/// A pipe can be retired by whoever holds one of its roles or is about to. It
/// is dead then, with nobody holding it and nothing on its way; it is the last
/// that is remembered, and the oldest is forgotten if there are too many. Its
/// entry stays while no more than half of those that can be remembered are. No
/// other pipe changes.
pub proof fn law_retiring_ends_the_pipe(s: Pipes, pid: PipeId, by: PeerId)
    requires
        s.retired.len() <= 1024,
    ensures
        ({
            let r = s.retirement(pid, by);
            let e = s.entries[pid];
            let may = e.producer == Some(by) || e.consumer == Some(by) || (e.prod_flight is Some
                && e.prod_flight->Some_0.to == by) || (e.cons_flight is Some
                && e.cons_flight->Some_0.to == by);
            &&& r is Ok <==> alive(s, pid) && may
            &&& !s.entries.contains_key(pid) ==> r == Err::<Pipes, PipeReject>(
                PipeReject("unknown pipe"),
            )
            &&& s.entries.contains_key(pid) && e.retired ==> r == Err::<Pipes, PipeReject>(
                PipeReject("already retired"),
            )
            &&& alive(s, pid) && !may ==> r == Err::<Pipes, PipeReject>(PipeReject("wrong holder"))
            &&& r is Ok ==> {
                let n = r->Ok_0;
                &&& !alive(n, pid)
                &&& n.entries.contains_key(pid) ==> n.entries[pid] == (Entry {
                    producer: None,
                    consumer: None,
                    prod_flight: None,
                    cons_flight: None,
                    retired: true,
                    ..e
                })
                &&& n.entries.contains_key(pid) <==> n.retired.len() <= 512
                &&& only_pipe(s, n, pid)
                &&& s.retired.len() < 1024 ==> n.retired == s.retired.push(pid)
                &&& s.retired.len() == 1024 ==> n.retired == s.retired.skip(1).push(pid)
            }
        }),
{
    if s.retired.len() == 1024 {
        assert(s.retired.push(pid).skip(1) =~= s.retired.skip(1).push(pid));
    }
}

// ---------------------------------------------------------------------- the join --

/// Is a join armed for this transfer and role?
pub open spec fn armed(j: Joins, t: TransferId, kind: EndpointKind) -> bool {
    exists|i: int|
        0 <= i < j.slots.len() && (#[trigger] j.slots[i]).meta.tid == t && j.slots[i].meta.kind == kind
}

/// A join is found exactly if it is armed, and it is the one of that transfer
/// and role.
pub proof fn law_a_join_is_found(j: Joins, t: TransferId, kind: EndpointKind)
    ensures
        match slot_index(j.slots, t, kind) {
            Some(i) => 0 <= i < j.slots.len() && j.slots[i].meta.tid == t && j.slots[i].meta.kind == kind,
            None => !armed(j, t, kind),
        },
{
    if exists|i: int| 0 <= i < j.slots.len() && (#[trigger] j.slots[i]).is_for(t, kind) {
        let i = slot_index(j.slots, t, kind)->Some_0;
        assert(j.slots[i].is_for(t, kind));
    } else if armed(j, t, kind) {
        let i = choose|i: int|
            0 <= i < j.slots.len() && (#[trigger] j.slots[i]).meta.tid == t && j.slots[i].meta.kind
                == kind;
        assert(j.slots[i].is_for(t, kind));
    }
}

/// A join is armed once, if it is not remembered as over and there is room. It
/// waits for everything then, and no other join changes.
pub proof fn law_arming_waits_for_everything(j: Joins, meta: MaterializeMeta, target_ok: bool)
    ensures
        ({
            let r = j.arming(meta, target_ok);
            let over = j.retired.contains((meta.tid, meta.kind));
            let known = armed(j, meta.tid, meta.kind);
            &&& r is Ok <==> !known && !over && j.slots.len() < 1024
            &&& known ==> r == Err::<Joins, JoinReject>(JoinReject::AlreadyMaterialized)
            &&& !known && over ==> r == Err::<Joins, JoinReject>(JoinReject::Aborted)
            &&& !known && !over && j.slots.len() >= 1024 ==> r == Err::<Joins, JoinReject>(
                JoinReject::NotAuthorized,
            )
            &&& r is Ok ==> {
                let n = r->Ok_0;
                &&& n.retired == j.retired
                &&& n.slots == j.slots.push(
                    Slot {
                        meta,
                        target_ok,
                        committed: false,
                        native: None,
                        materialized: false,
                        aborted: false,
                        closed_junk: 0,
                    },
                )
            }
        }),
{
    law_a_join_is_found(j, meta.tid, meta.kind);
    if slot_index(j.slots, meta.tid, meta.kind) is Some {
        let i = slot_index(j.slots, meta.tid, meta.kind)->Some_0;
        assert(j.slots[i].meta.tid == meta.tid);
    }
}

/// One more duplicate, as far as they are counted.
pub open spec fn one_more(n: u32) -> u32 {
    if n < u32::MAX {
        (n + 1) as u32
    } else {
        n
    }
}

/// The first endpoint that comes while the join is open is kept for it; any
/// other is closed and counted. The commit is noted unless the join was called
/// off. Calling it off gives the endpoint up, unless it was handed out.
pub proof fn law_what_a_join_notes(s: Slot, ep: NativeEndpoint)
    ensures
        ({
            let open = !s.materialized && !s.aborted;
            &&& open && s.native is None ==> s.with_native(ep) == (Slot { native: Some(ep), ..s })
            &&& !(open && s.native is None) ==> s.with_native(ep) == (Slot {
                closed_junk: one_more(s.closed_junk),
                ..s
            })
            &&& s.aborted ==> s.with_commit() == s
            &&& !s.aborted ==> s.with_commit() == (Slot { committed: true, ..s })
            &&& s.materialized ==> s.with_abort() == s
            &&& !s.materialized && s.native is None ==> s.with_abort() == (Slot { aborted: true, ..s })
            &&& !s.materialized && s.native is Some ==> s.with_abort() == (Slot {
                aborted: true,
                native: None,
                closed_junk: one_more(s.closed_junk),
                ..s
            })
            &&& s.settled() <==> !open
        }),
{
}

/// A role comes into being exactly if its join is armed for that pipe and for
/// this recipient, is committed, has its endpoint, and is neither over nor
/// called off. Its endpoint is handed out then, that one and no other, and the
/// join is over; otherwise nothing changes.
pub proof fn law_a_role_materializes_when_all_is_there(j: Joins, meta: MaterializeMeta)
    ensures
        ({
            let (n, r) = j.joining(meta);
            match slot_index(j.slots, meta.tid, meta.kind) {
                None => n == j && r == Err::<NativeEndpoint, JoinReject>(JoinReject::NotAuthorized),
                Some(i) => {
                    let s = j.slots[i];
                    let there = s.meta.pid == meta.pid && s.target_ok && s.committed && s.native is Some
                        && !s.materialized && !s.aborted;
                    &&& there ==> r == Ok::<NativeEndpoint, JoinReject>(s.native->Some_0) && n == (Joins {
                        slots: j.slots.update(i, Slot { native: None, materialized: true, ..s }),
                        ..j
                    })
                    &&& !there ==> n == j && r == Err::<NativeEndpoint, JoinReject>(
                        if s.meta.pid == meta.pid && s.materialized {
                            JoinReject::AlreadyMaterialized
                        } else {
                            JoinReject::NotAuthorized
                        },
                    )
                },
            }
        }),
{
}

/// Cleaning up keeps the open joins, in order, and remembers the others in
/// theirs; each that is remembered makes room if there are too many.
pub proof fn law_cleaning_up_keeps_the_open(slots: Seq<Slot>, q: Seq<(TransferId, EndpointKind)>, s: Slot)
    ensures
        ({
            let a = Joins { slots, retired: q }.reaped();
            let b = Joins { slots: slots.push(s), retired: q }.reaped();
            let open = !s.materialized && !s.aborted;
            &&& open ==> b.slots == a.slots.push(s) && b.retired == a.retired
            &&& !open ==> b.slots == a.slots
            &&& !open && a.retired.len() < 1024 ==> b.retired == a.retired.push(
                (s.meta.tid, s.meta.kind),
            )
            &&& !open && a.retired.len() >= 1024 ==> b.retired == a.retired.push(
                (s.meta.tid, s.meta.kind),
            ).skip(1)
        }),
        (Joins { slots: Seq::empty(), retired: q }).reaped() == (Joins {
            slots: Seq::empty(),
            retired: q,
        }),
{
    reveal(Seq::filter);
    assert(slots.push(s).drop_last() =~= slots);
    assert(slots.push(s).last() == s);
    let f = |x: Slot| !x.settled();
    assert(slots.push(s).filter(f) == (if f(s) {
        slots.filter(f).push(s)
    } else {
        slots.filter(f)
    }));
    assert(Seq::<Slot>::empty().filter(f) =~= Seq::<Slot>::empty());
}

/// The closed duplicates of all joins are counted together.
pub proof fn law_duplicates_add_up(slots: Seq<Slot>, s: Slot)
    ensures
        junk_total(Seq::empty()) == 0,
        junk_total(slots.push(s)) == junk_total(slots) + s.closed_junk,
{
    assert(slots.push(s).drop_last() =~= slots);
}

} // verus!

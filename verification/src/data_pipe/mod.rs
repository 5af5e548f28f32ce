//! Bounded data-pipe semantics.
//!
//! One producer authority writes an ordered byte stream; one consumer
//! authority reads it. Both are move-only. The pipe has a finite, structurally
//! enforced capacity: accepted bytes are appended to the bounded buffer
//! itself, so no more than `capacity` bytes are ever held, and there is no
//! hidden queue of pending writes.
//!
//! The pipe is a plain value that both authorities work on; sharing it between
//! threads, and waiting for the other side, belong to the caller.

use std::collections::VecDeque;
use vstd::prelude::*;

use crate::bytes::get_le16;
use crate::id::{code16, draw16, lemma_code16_injective, same16, DrawError};
use crate::table::Key;

pub mod credit;
pub mod custody_laws;
pub mod direct;
pub mod materialize;
pub mod registry;
pub mod roles;
pub mod stream_laws;

verus! {

/// Logical identity of a data pipe: random, opaque, and not authority.
#[derive(Clone, Copy, Debug, Eq, Hash)]
pub struct PipeId(pub [u8; 16]);

impl PartialEq for PipeId {
    fn eq(&self, other: &Self) -> (r: bool) {
        same16(&self.0, &other.0)
    }
}

impl vstd::std_specs::cmp::PartialEqSpecImpl for PipeId {
    open spec fn obeys_eq_spec() -> bool {
        true
    }

    open spec fn eq_spec(&self, other: &Self) -> bool {
        *self == *other
    }
}

impl Key for PipeId {
    open spec fn code(self) -> u128 {
        code16(self.0)
    }

    proof fn code_injective(a: Self, b: Self) {
        lemma_code16_injective(a.0, b.0);
    }

    fn to_code(self) -> (c: u128) {
        get_le16(&self.0)
    }
}

impl PipeId {
    /// The identity that a draw gives: any bytes will do.
    pub fn of_draw(draw: Result<[u8; 16], DrawError>) -> (r: Result<PipeId, DrawError>)
        ensures
            r == (match draw {
                Ok(b) => Ok::<PipeId, DrawError>(PipeId(b)),
                Err(e) => Err(e),
            }),
    {
        match draw {
            Ok(b) => Ok(PipeId(b)),
            Err(e) => Err(e),
        }
    }

    /// Draws an identity from OS entropy. Which one is left to chance.
    pub fn fresh() -> (r: Result<PipeId, DrawError>)
        ensures
            r matches Err(e) ==> e == DrawError::EntropyFailed,
    {
        PipeId::of_draw(draw16())
    }
}

/// The largest capacity a pipe may have: sixteen mebibytes.
pub const MAX_PIPE_CAPACITY: usize = 16777216;

/// How many dead identities the pipe tables recall.
pub const PIPE_RETIRE_CAP: usize = 1024;

#[derive(Debug, Clone, Copy, PartialEq, Eq, Structural)]
pub enum PipeError {
    /// Temporary backpressure: nothing can move now. Retry later.
    WouldBlock,
    /// This endpoint already closed.
    Closed,
    /// Permanent failure: the other endpoint closed or was lost.
    Broken,
    /// Capacity invalid (zero or oversized).
    InvalidCapacity,
    /// No identity could be drawn for the pipe.
    NoIdentity,
}

/// Where a pipe stands.
#[derive(Debug, Clone, Copy, PartialEq, Eq, Structural)]
pub enum State {
    Open,
    /// Producer closed orderly: consumer drains, then sees the end.
    ProducerClosed,
    /// Consumer closed: producer writes fail permanently.
    ConsumerClosed,
    /// Both sides closed: terminal.
    Terminal,
}

/// How far a waiting operation got.
#[derive(Debug, Clone, Copy, PartialEq, Eq, Structural)]
pub enum Step {
    /// This many bytes moved.
    Moved(usize),
    /// Nothing can move before the other side acts: wait for it and try again.
    Wait,
}

/// What a pipe holds.
#[verifier::ext_equal]
pub struct PipeView {
    pub id: PipeId,
    pub capacity: nat,
    /// The bytes written and not yet read, oldest first.
    pub buf: Seq<u8>,
    pub prod_closed: bool,
    pub cons_closed: bool,
}

/// The state that the two authorities work on.
pub struct Pipe {
    id: PipeId,
    capacity: usize,
    buf: VecDeque<u8>,
    prod_closed: bool,
    cons_closed: bool,
}

impl View for Pipe {
    type V = PipeView;

    closed spec fn view(&self) -> PipeView {
        PipeView {
            id: self.id,
            capacity: self.capacity as nat,
            buf: self.buf@,
            prod_closed: self.prod_closed,
            cons_closed: self.cons_closed,
        }
    }
}

/// Write authority over one pipe. It can be moved but not duplicated.
pub struct Producer {
    id: PipeId,
    capacity: usize,
    closed: bool,
}

/// Read authority over one pipe. It can be moved but not duplicated.
pub struct Consumer {
    id: PipeId,
    capacity: usize,
    closed: bool,
}

/// Is the capacity one that a pipe may have?
pub open spec fn capacity_ok(capacity: usize) -> bool {
    0 < capacity <= MAX_PIPE_CAPACITY
}

/// What a write comes to, and the pipe after it.
pub open spec fn written(closed: bool, p: PipeView, data: Seq<u8>) -> (Result<usize, PipeError>, PipeView) {
    if closed {
        (Err(PipeError::Closed), p)
    } else if p.cons_closed {
        (Err(PipeError::Broken), p)
    } else if p.prod_closed {
        (Err(PipeError::Closed), p)
    } else if data.len() == 0 {
        (Ok(0), p)
    } else if p.buf.len() >= p.capacity {
        (Err(PipeError::WouldBlock), p)
    } else {
        let free = p.capacity - p.buf.len();
        let n = if data.len() < free {
            data.len() as int
        } else {
            free
        };
        (Ok(n as usize), PipeView { buf: p.buf + data.take(n), ..p })
    }
}

/// What a read into `room` bytes comes to: the number of bytes, the bytes,
/// and the pipe after it.
pub open spec fn read_from(closed: bool, p: PipeView, room: nat) -> (
    Result<usize, PipeError>,
    Seq<u8>,
    PipeView,
) {
    if closed {
        (Err(PipeError::Closed), Seq::empty(), p)
    } else if room == 0 {
        (Ok(0), Seq::empty(), p)
    } else if p.buf.len() == 0 {
        (
            if p.prod_closed {
                Ok(0)
            } else {
                Err(PipeError::WouldBlock)
            },
            Seq::empty(),
            p,
        )
    } else {
        let n = if room < p.buf.len() {
            room as int
        } else {
            p.buf.len() as int
        };
        (Ok(n as usize), p.buf.take(n), PipeView { buf: p.buf.skip(n), ..p })
    }
}

/// The pipe after the producer's end is closed: what is buffered stays. An
/// end that is closed already has nothing more to close.
pub open spec fn write_closed(closed: bool, p: PipeView) -> PipeView {
    if closed {
        p
    } else {
        PipeView { prod_closed: true, ..p }
    }
}

/// The pipe after the consumer's end is closed: what is buffered is gone. An
/// end that is closed already has nothing more to close.
pub open spec fn read_closed(closed: bool, p: PipeView) -> PipeView {
    if closed {
        p
    } else {
        PipeView { cons_closed: true, buf: Seq::empty(), ..p }
    }
}

/// A pipe together with what its two authorities know of their own ends.
#[verifier::ext_equal]
pub struct Ends {
    pub prod_closed: bool,
    pub cons_closed: bool,
    pub pipe: PipeView,
}

/// The two authorities over a pipe and the pipe itself.
pub open spec fn ends(p: Producer, c: Consumer, pipe: Pipe) -> Ends {
    Ends { prod_closed: p.is_closed(), cons_closed: c.is_closed(), pipe: pipe@ }
}

/// The authorities and the pipe agree on which end is closed, and nothing is
/// kept for a consumer that closed.
pub open spec fn tied(s: Ends) -> bool {
    &&& s.pipe.prod_closed == s.prod_closed
    &&& s.pipe.cons_closed == s.cons_closed
    &&& s.pipe.buf.len() <= s.pipe.capacity <= MAX_PIPE_CAPACITY
    &&& s.cons_closed ==> s.pipe.buf.len() == 0
}

/// What a waiting operation does with what an immediate one came to: it waits
/// out a lack of room or bytes.
pub open spec fn waiting(r: Result<usize, PipeError>) -> Result<Step, PipeError> {
    match r {
        Ok(n) => Ok(Step::Moved(n)),
        Err(e) => if e == PipeError::WouldBlock {
            Ok(Step::Wait)
        } else {
            Err(e)
        },
    }
}

impl Pipe {
    /// The capacity is legal and never exceeded.
    pub closed spec fn wf(&self) -> bool {
        &&& capacity_ok(self.capacity)
        &&& self.buf@.len() <= self.capacity
    }

    /// A well-formed pipe holds no more than its capacity.
    pub proof fn lemma_wf(&self)
        requires
            self.wf(),
        ensures
            0 < self@.capacity <= MAX_PIPE_CAPACITY,
            self@.buf.len() <= self@.capacity,
    {
    }

    /// How many bytes wait to be read.
    pub fn buffered(&self) -> (n: usize)
        ensures
            n == self@.buf.len(),
    {
        self.buf.len()
    }
}

impl Producer {
    /// The pipe that this authority is over.
    pub closed spec fn pipe_id(&self) -> PipeId {
        self.id
    }

    /// The capacity that the pipe was made with.
    pub closed spec fn pipe_capacity(&self) -> usize {
        self.capacity
    }

    /// Did this authority close its end?
    pub closed spec fn is_closed(&self) -> bool {
        self.closed
    }

    /// A bounded pipe under an identity that was drawn for it.
    pub fn with_id(id: PipeId, capacity: usize) -> (r: Result<(Producer, Consumer, Pipe), PipeError>)
        ensures
            match r {
                Ok((p, c, pipe)) => capacity_ok(capacity) && pipe.wf() && pipe@ == (PipeView {
                    id,
                    capacity: capacity as nat,
                    buf: Seq::empty(),
                    prod_closed: false,
                    cons_closed: false,
                }) && p.pipe_id() == id && c.pipe_id() == id && !p.is_closed() && !c.is_closed()
                    && p.pipe_capacity() == capacity && c.pipe_capacity() == capacity && tied(
                    ends(p, c, pipe),
                ),
                Err(e) => !capacity_ok(capacity) && e == PipeError::InvalidCapacity,
            },
    {
        if capacity == 0 || capacity > MAX_PIPE_CAPACITY {
            return Err(PipeError::InvalidCapacity);
        }
        let pipe = Pipe {
            id,
            capacity,
            buf: VecDeque::new(),
            prod_closed: false,
            cons_closed: false,
        };
        assert(pipe.buf@ =~= Seq::empty());
        Ok(
            (
                Producer { id, capacity, closed: false },
                Consumer { id, capacity, closed: false },
                pipe,
            ),
        )
    }

    /// A bounded pipe and the two authorities over it.
    pub fn new(capacity: usize) -> (r: Result<(Producer, Consumer, Pipe), PipeError>)
        ensures
            match r {
                Ok((p, c, pipe)) => capacity_ok(capacity) && pipe.wf() && pipe@ == (PipeView {
                    id: p.pipe_id(),
                    capacity: capacity as nat,
                    buf: Seq::empty(),
                    prod_closed: false,
                    cons_closed: false,
                }) && c.pipe_id() == p.pipe_id() && !p.is_closed() && !c.is_closed()
                    && p.pipe_capacity() == capacity && c.pipe_capacity() == capacity && tied(
                    ends(p, c, pipe),
                ),
                Err(e) => e == (if capacity_ok(capacity) {
                    PipeError::NoIdentity
                } else {
                    PipeError::InvalidCapacity
                }),
            },
    {
        if capacity == 0 || capacity > MAX_PIPE_CAPACITY {
            return Err(PipeError::InvalidCapacity);
        }
        match PipeId::fresh() {
            Ok(id) => Producer::with_id(id, capacity),
            Err(_) => Err(PipeError::NoIdentity),
        }
    }

    /// The pipe that this authority is over.
    pub fn id(&self) -> (r: PipeId)
        ensures
            r == self.pipe_id(),
    {
        self.id
    }

    /// The capacity that the pipe was made with.
    pub fn capacity(&self) -> (r: usize)
        ensures
            r == self.pipe_capacity(),
    {
        self.capacity
    }

    /// Writes a prefix of `data`, as much as fits; the caller keeps the rest.
    /// An empty write succeeds and changes nothing.
    pub fn try_write(&mut self, pipe: &mut Pipe, data: &[u8]) -> (r: Result<usize, PipeError>)
        requires
            old(pipe).wf(),
            old(self).pipe_id() == old(pipe)@.id,
        ensures
            final(pipe).wf(),
            *final(self) == *old(self),
            (r, final(pipe)@) == written(old(self).is_closed(), old(pipe)@, data@),
            forall|c: Consumer|
                tied(ends(*old(self), c, *old(pipe))) ==> #[trigger] tied(
                    ends(*final(self), c, *final(pipe)),
                ),
    {
        if self.closed {
            return Err(PipeError::Closed);
        }
        if pipe.cons_closed {
            return Err(PipeError::Broken);
        }
        if pipe.prod_closed {
            return Err(PipeError::Closed);
        }
        if data.len() == 0 {
            return Ok(0);
        }
        if pipe.buf.len() == pipe.capacity {
            return Err(PipeError::WouldBlock);
        }
        let free: usize = pipe.capacity - pipe.buf.len();
        let n: usize = if data.len() < free {
            data.len()
        } else {
            free
        };
        let mut i: usize = 0;
        let ghost before = pipe@;
        while i < n
            invariant
                i <= n,
                n <= data@.len(),
                before.buf.len() + n <= pipe.capacity,
                capacity_ok(pipe.capacity),
                pipe@ == (PipeView { buf: before.buf + data@.take(i as int), ..before }),
            decreases n - i,
        {
            pipe.buf.push_back(data[i]);
            assert(data@.take(i + 1) =~= data@.take(i as int).push(data@[i as int]));
            assert(pipe.buf@ =~= before.buf + data@.take(i + 1));
            i = i + 1;
        }
        Ok(n)
    }

    /// One turn of a write that waits for room: at least one byte of `data`
    /// is written, unless there are none or the turn has to wait.
    pub fn write(&mut self, pipe: &mut Pipe, data: &[u8]) -> (r: Result<Step, PipeError>)
        requires
            old(pipe).wf(),
            old(self).pipe_id() == old(pipe)@.id,
        ensures
            final(pipe).wf(),
            *final(self) == *old(self),
            ({
                let (w, after) = written(old(self).is_closed(), old(pipe)@, data@);
                r == waiting(w) && final(pipe)@ == after
            }),
            forall|c: Consumer|
                tied(ends(*old(self), c, *old(pipe))) ==> #[trigger] tied(
                    ends(*final(self), c, *final(pipe)),
                ),
    {
        match self.try_write(pipe, data) {
            Ok(n) => Ok(Step::Moved(n)),
            Err(PipeError::WouldBlock) => Ok(Step::Wait),
            Err(e) => Err(e),
        }
    }

    /// One turn of a write of all of `data`, of which `sent` bytes are
    /// written already: how many are written after it. The write is over when
    /// that is all of them.
    pub fn write_all(&mut self, pipe: &mut Pipe, data: &[u8], sent: usize) -> (r: Result<
        Step,
        PipeError,
    >)
        requires
            old(pipe).wf(),
            old(self).pipe_id() == old(pipe)@.id,
            sent <= data@.len(),
        ensures
            final(pipe).wf(),
            *final(self) == *old(self),
            if sent == data@.len() {
                r == Ok::<Step, PipeError>(Step::Moved(sent)) && final(pipe)@ == old(pipe)@
            } else {
                let (w, after) = written(
                    old(self).is_closed(),
                    old(pipe)@,
                    data@.skip(sent as int),
                );
                final(pipe)@ == after && (match waiting(w) {
                    Ok(Step::Moved(n)) => r == Ok::<Step, PipeError>(
                        Step::Moved((sent + n) as usize),
                    ) && sent < sent + n <= data@.len(),
                    other => r == other,
                })
            },
            forall|c: Consumer|
                tied(ends(*old(self), c, *old(pipe))) ==> #[trigger] tied(
                    ends(*final(self), c, *final(pipe)),
                ),
    {
        if sent == data.len() {
            return Ok(Step::Moved(sent));
        }
        let rest = vstd::slice::slice_subrange(data, sent, data.len());
        assert(rest@ =~= data@.skip(sent as int));
        match self.write(pipe, rest) {
            Ok(Step::Moved(n)) => Ok(Step::Moved(sent + n)),
            other => other,
        }
    }

    /// Orderly close: what is buffered stays readable, then comes the end.
    pub fn close_write(&mut self, pipe: &mut Pipe)
        requires
            old(pipe).wf(),
            old(self).pipe_id() == old(pipe)@.id,
        ensures
            final(pipe).wf(),
            final(self).is_closed(),
            final(self).pipe_id() == old(self).pipe_id(),
            final(self).pipe_capacity() == old(self).pipe_capacity(),
            final(pipe)@ == write_closed(old(self).is_closed(), old(pipe)@),
            forall|c: Consumer|
                tied(ends(*old(self), c, *old(pipe))) ==> #[trigger] tied(
                    ends(*final(self), c, *final(pipe)),
                ),
    {
        if self.closed {
            return;
        }
        self.closed = true;
        pipe.prod_closed = true;
    }
}

impl Consumer {
    /// The pipe that this authority is over.
    pub closed spec fn pipe_id(&self) -> PipeId {
        self.id
    }

    /// The capacity that the pipe was made with.
    pub closed spec fn pipe_capacity(&self) -> usize {
        self.capacity
    }

    /// Did this authority close its end?
    pub closed spec fn is_closed(&self) -> bool {
        self.closed
    }

    /// The pipe that this authority is over.
    pub fn id(&self) -> (r: PipeId)
        ensures
            r == self.pipe_id(),
    {
        self.id
    }

    /// The capacity that the pipe was made with.
    pub fn capacity(&self) -> (r: usize)
        ensures
            r == self.pipe_capacity(),
    {
        self.capacity
    }

    /// Reads into `dst`. Zero bytes come only at the end of a closed and
    /// drained stream, or into no room at all.
    pub fn try_read(&mut self, pipe: &mut Pipe, dst: &mut [u8]) -> (r: Result<usize, PipeError>)
        requires
            old(pipe).wf(),
            old(self).pipe_id() == old(pipe)@.id,
        ensures
            final(pipe).wf(),
            *final(self) == *old(self),
            ({
                let (want, bytes, after) = read_from(
                    old(self).is_closed(),
                    old(pipe)@,
                    old(dst)@.len(),
                );
                &&& r == want
                &&& final(pipe)@ == after
                &&& final(dst)@ == bytes + old(dst)@.skip(bytes.len() as int)
            }),
            forall|p: Producer|
                tied(ends(p, *old(self), *old(pipe))) ==> #[trigger] tied(
                    ends(p, *final(self), *final(pipe)),
                ),
    {
        assert(dst@ =~= Seq::<u8>::empty() + dst@.skip(0));
        if self.closed {
            return Err(PipeError::Closed);
        }
        if dst.len() == 0 {
            return Ok(0);
        }
        if pipe.buf.len() == 0 {
            return if pipe.prod_closed {
                Ok(0)
            } else {
                Err(PipeError::WouldBlock)
            };
        }
        let n: usize = if dst.len() < pipe.buf.len() {
            dst.len()
        } else {
            pipe.buf.len()
        };
        let ghost before = pipe@;
        let ghost dst0 = dst@;
        let mut i: usize = 0;
        while i < n
            invariant
                i <= n,
                n <= before.buf.len(),
                n <= dst0.len(),
                dst@.len() == dst0.len(),
                before.buf.len() <= pipe.capacity,
                capacity_ok(pipe.capacity),
                pipe@ == (PipeView { buf: before.buf.skip(i as int), ..before }),
                dst@ == before.buf.take(i as int) + dst0.skip(i as int),
            decreases n - i,
        {
            if let Some(b) = pipe.buf.pop_front() {
                dst[i] = b;
            }
            assert(pipe.buf@ =~= before.buf.skip(i + 1));
            assert(dst@ =~= before.buf.take(i + 1) + dst0.skip(i + 1));
            i = i + 1;
        }
        Ok(n)
    }

    /// One turn of a read that waits for bytes, or for the end.
    pub fn read(&mut self, pipe: &mut Pipe, dst: &mut [u8]) -> (r: Result<Step, PipeError>)
        requires
            old(pipe).wf(),
            old(self).pipe_id() == old(pipe)@.id,
        ensures
            final(pipe).wf(),
            *final(self) == *old(self),
            ({
                let (got, bytes, after) = read_from(
                    old(self).is_closed(),
                    old(pipe)@,
                    old(dst)@.len(),
                );
                &&& r == waiting(got)
                &&& final(pipe)@ == after
                &&& final(dst)@ == bytes + old(dst)@.skip(bytes.len() as int)
            }),
            forall|p: Producer|
                tied(ends(p, *old(self), *old(pipe))) ==> #[trigger] tied(
                    ends(p, *final(self), *final(pipe)),
                ),
    {
        match self.try_read(pipe, dst) {
            Ok(n) => Ok(Step::Moved(n)),
            Err(PipeError::WouldBlock) => Ok(Step::Wait),
            Err(e) => Err(e),
        }
    }

    /// Consumer-side close: what is buffered is discarded, and the producer's
    /// writes fail from now on.
    pub fn close_read(&mut self, pipe: &mut Pipe)
        requires
            old(pipe).wf(),
            old(self).pipe_id() == old(pipe)@.id,
        ensures
            final(pipe).wf(),
            final(self).is_closed(),
            final(self).pipe_id() == old(self).pipe_id(),
            final(self).pipe_capacity() == old(self).pipe_capacity(),
            final(pipe)@ == read_closed(old(self).is_closed(), old(pipe)@),
            forall|p: Producer|
                tied(ends(p, *old(self), *old(pipe))) ==> #[trigger] tied(
                    ends(p, *final(self), *final(pipe)),
                ),
    {
        if self.closed {
            return;
        }
        self.closed = true;
        pipe.cons_closed = true;
        pipe.buf.clear();
        assert(pipe.buf@ =~= Seq::empty());
    }
}

// ---------------------------------------------------------------------- laws --

/// No write takes a pipe over its capacity, whatever is written.
pub proof fn law_capacity_holds(closed: bool, p: PipeView, data: Seq<u8>)
    requires
        p.buf.len() <= p.capacity <= MAX_PIPE_CAPACITY,
    ensures
        written(closed, p, data).1.buf.len() <= p.capacity,
        written(closed, p, data).1.capacity == p.capacity,
{
}

/// The stream is carried exactly: what a write accepted goes behind what was
/// buffered, and what a read gives is a prefix of what is buffered. Nothing
/// is lost, repeated or reordered.
pub proof fn law_stream_is_carried(closed: bool, p: PipeView, data: Seq<u8>, room: nat)
    requires
        p.buf.len() <= p.capacity <= MAX_PIPE_CAPACITY,
    ensures
        ({
            let (r, after) = written(closed, p, data);
            match r {
                Ok(n) => n <= data.len() && after.buf == p.buf + data.take(n as int),
                Err(_) => after == p,
            }
        }),
        ({
            let (r, bytes, after) = read_from(closed, p, room);
            match r {
                Ok(n) => bytes.len() == n && p.buf == bytes + after.buf,
                Err(_) => after == p,
            }
        }),
{
    let (r, after) = written(closed, p, data);
    if r is Ok && data.len() == 0 {
        assert(p.buf + data.take(0) =~= p.buf);
    }
    let (r2, bytes, after2) = read_from(closed, p, room);
    if r2 is Ok {
        assert(bytes + after2.buf =~= p.buf);
    }
}

/// Once closed and drained, a stream stays at its end.
pub proof fn law_end_is_stable(p: PipeView, room: nat)
    requires
        p.prod_closed,
        p.buf.len() == 0,
    ensures
        read_from(false, p, room) == (Ok::<usize, PipeError>(0), Seq::<u8>::empty(), p),
{
}

/// Closing the producer's end loses nothing: every buffered byte can still be
/// read, and the end comes only after the last.
pub proof fn law_close_keeps_bytes(p: PipeView, room: nat)
    requires
        p.buf.len() > 0,
        room > 0,
        p.capacity <= MAX_PIPE_CAPACITY,
        p.buf.len() <= p.capacity,
    ensures
        ({
            let (r, bytes, _) = read_from(false, PipeView { prod_closed: true, ..p }, room);
            r is Ok && bytes.len() > 0 && bytes == p.buf.take(bytes.len() as int)
        }),
{
}

/// Once the consumer closed, no write ever succeeds.
pub proof fn law_broken_is_permanent(closed: bool, p: PipeView, data: Seq<u8>)
    requires
        p.cons_closed,
    ensures
        written(closed, p, data).0 is Err,
        written(closed, p, data).1 == p,
{
}

/// A full pipe refuses, and takes bytes again as soon as some are read.
pub proof fn law_reading_frees_capacity(p: PipeView, room: nat, data: Seq<u8>)
    requires
        0 < p.capacity <= MAX_PIPE_CAPACITY,
        p.buf.len() == p.capacity,
        !p.prod_closed,
        !p.cons_closed,
        room > 0,
        data.len() > 0,
    ensures
        written(false, p, data).0 == Err::<usize, PipeError>(PipeError::WouldBlock),
        written(false, read_from(false, p, room).2, data).0 is Ok,
        written(false, read_from(false, p, room).2, data).0->Ok_0 > 0,
{
}

/// Something that one of the two authorities does to the pipe.
pub enum Act {
    Write(Seq<u8>),
    Read(nat),
    CloseWrite,
    CloseRead,
}

/// The pipe and its authorities after it was done.
pub open spec fn done(s: Ends, a: Act) -> Ends {
    match a {
        Act::Write(data) => Ends { pipe: written(s.prod_closed, s.pipe, data).1, ..s },
        Act::Read(room) => Ends { pipe: read_from(s.cons_closed, s.pipe, room).2, ..s },
        Act::CloseWrite => Ends {
            prod_closed: true,
            pipe: write_closed(s.prod_closed, s.pipe),
            ..s
        },
        Act::CloseRead => Ends { cons_closed: true, pipe: read_closed(s.cons_closed, s.pipe), ..s },
    }
}

/// The pipe and its authorities after all of it was done, in order.
pub open spec fn all_done(s: Ends, acts: Seq<Act>) -> Ends
    decreases acts.len(),
{
    if acts.len() == 0 {
        s
    } else {
        done(all_done(s, acts.drop_last()), acts.last())
    }
}

/// All the bytes that the reads among the acts gave, in order.
pub open spec fn all_read(s: Ends, acts: Seq<Act>) -> Seq<u8>
    decreases acts.len(),
{
    if acts.len() == 0 {
        Seq::empty()
    } else {
        let before = all_done(s, acts.drop_last());
        all_read(s, acts.drop_last()) + match acts.last() {
            Act::Read(room) => read_from(before.cons_closed, before.pipe, room).1,
            _ => Seq::empty(),
        }
    }
}

/// All the bytes that the writes among the acts accepted, in order.
pub open spec fn all_written(s: Ends, acts: Seq<Act>) -> Seq<u8>
    decreases acts.len(),
{
    if acts.len() == 0 {
        Seq::empty()
    } else {
        let before = all_done(s, acts.drop_last());
        all_written(s, acts.drop_last()) + match acts.last() {
            Act::Write(data) => match written(before.prod_closed, before.pipe, data).0 {
                Ok(n) => data.take(n as int),
                Err(_) => Seq::empty(),
            },
            _ => Seq::empty(),
        }
    }
}

/// Whatever is done to a pipe, its authorities and the pipe keep agreeing on
/// which end is closed.
pub proof fn law_ends_stay_tied(s: Ends, a: Act)
    requires
        tied(s),
    ensures
        tied(done(s, a)),
        done(s, a).pipe.capacity == s.pipe.capacity,
        s.prod_closed ==> done(s, a).prod_closed,
        s.cons_closed ==> done(s, a).cons_closed,
{
}

proof fn lemma_all_tied(s: Ends, acts: Seq<Act>)
    requires
        tied(s),
    ensures
        tied(all_done(s, acts)),
        s.prod_closed ==> all_done(s, acts).prod_closed,
        s.cons_closed ==> all_done(s, acts).cons_closed,
    decreases acts.len(),
{
    if acts.len() > 0 {
        lemma_all_tied(s, acts.drop_last());
        law_ends_stay_tied(all_done(s, acts.drop_last()), acts.last());
    }
}

/// The stream is carried exactly over any series of acts: as long as the
/// consumer does not close, what was read and then what is buffered is what
/// was buffered at first and then all that was accepted. Nothing is lost,
/// repeated or reordered.
pub proof fn law_stream_is_carried_always(s: Ends, acts: Seq<Act>)
    requires
        tied(s),
        !all_done(s, acts).cons_closed,
    ensures
        all_read(s, acts) + all_done(s, acts).pipe.buf == s.pipe.buf + all_written(s, acts),
    decreases acts.len(),
{
    if acts.len() == 0 {
        assert(Seq::<u8>::empty() + s.pipe.buf =~= s.pipe.buf + Seq::<u8>::empty());
    } else {
        let front = acts.drop_last();
        let m = all_done(s, front);
        let n = done(m, acts.last());
        lemma_all_tied(s, front);
        law_ends_stay_tied(m, acts.last());
        law_stream_is_carried_always(s, front);
        let got = match acts.last() {
            Act::Read(room) => read_from(m.cons_closed, m.pipe, room).1,
            _ => Seq::empty(),
        };
        let taken = match acts.last() {
            Act::Write(data) => match written(m.prod_closed, m.pipe, data).0 {
                Ok(n) => data.take(n as int),
                Err(_) => Seq::empty(),
            },
            _ => Seq::empty(),
        };
        match acts.last() {
            Act::Write(data) => law_stream_is_carried(m.prod_closed, m.pipe, data, 0),
            Act::Read(room) => law_stream_is_carried(m.cons_closed, m.pipe, Seq::empty(), room),
            _ => {},
        }
        assert(got + n.pipe.buf =~= m.pipe.buf + taken);
        assert(all_read(s, acts) + n.pipe.buf =~= all_read(s, front) + (got + n.pipe.buf));
        assert(all_read(s, front) + (m.pipe.buf + taken) =~= (all_read(s, front) + m.pipe.buf) + taken);
        assert(s.pipe.buf + all_written(s, acts) =~= (s.pipe.buf + all_written(s, front)) + taken);
    }
}

/// Closing the producer's end, whether it was closed before or not, leaves the
/// buffered bytes and can be repeated without effect. Whatever is done
/// afterwards, every write is refused as closed. As long as the consumer does
/// not close, its reads give exactly the buffered bytes, in order: what was
/// read and what is left are together what was buffered, a read with room
/// gives a byte if one is left, and once none is left every read is at the
/// end.
pub proof fn law_producer_close_is_orderly(s: Ends, later: Seq<Act>, data: Seq<u8>, room: nat)
    requires
        tied(s),
    ensures
        ({
            let c = done(s, Act::CloseWrite);
            let n = all_done(c, later);
            &&& c.pipe.buf == s.pipe.buf
            &&& done(c, Act::CloseWrite) == c
            &&& written(n.prod_closed, n.pipe, data) == (Err::<usize, PipeError>(PipeError::Closed), n.pipe)
            &&& !n.cons_closed ==> {
                let (r, bytes, _) = read_from(n.cons_closed, n.pipe, room);
                &&& all_read(c, later) + n.pipe.buf == s.pipe.buf
                &&& room > 0 && n.pipe.buf.len() > 0 ==> r is Ok && r->Ok_0 == bytes.len() && 0 < bytes.len()
                &&& n.pipe.buf.len() == 0 ==> r == Ok::<usize, PipeError>(0)
            }
        }),
{
    let c = done(s, Act::CloseWrite);
    law_ends_stay_tied(s, Act::CloseWrite);
    lemma_all_tied(c, later);
    if !all_done(c, later).cons_closed {
        lemma_closed_stream(c, later);
        law_stream_is_carried_always(c, later);
        assert(c.pipe.buf + all_written(c, later) =~= c.pipe.buf);
    }
}

/// Nothing is accepted once the producer closed.
proof fn lemma_closed_stream(s: Ends, acts: Seq<Act>)
    requires
        tied(s),
        s.prod_closed,
    ensures
        all_written(s, acts).len() == 0,
    decreases acts.len(),
{
    if acts.len() > 0 {
        lemma_all_tied(s, acts.drop_last());
        lemma_closed_stream(s, acts.drop_last());
    }
}

/// Closing the consumer's end, whether it was closed before or not, discards
/// what is buffered and can be repeated without effect. Whatever is done
/// afterwards, nothing is buffered and every read is refused as closed; and
/// every write is refused as broken, for good, unless the producer closes
/// itself.
pub proof fn law_consumer_close_breaks_the_pipe(s: Ends, later: Seq<Act>, data: Seq<u8>, room: nat)
    requires
        tied(s),
    ensures
        ({
            let c = done(s, Act::CloseRead);
            let n = all_done(c, later);
            &&& c.pipe.buf.len() == 0
            &&& done(c, Act::CloseRead) == c
            &&& n.pipe.buf.len() == 0
            &&& read_from(n.cons_closed, n.pipe, room).0 == Err::<usize, PipeError>(PipeError::Closed)
            &&& written(n.prod_closed, n.pipe, data) == (
                Err::<usize, PipeError>(
                    if n.prod_closed {
                        PipeError::Closed
                    } else {
                        PipeError::Broken
                    },
                ),
                n.pipe,
            )
            &&& n.prod_closed ==> s.prod_closed || later.contains(Act::CloseWrite)
        }),
{
    let c = done(s, Act::CloseRead);
    law_ends_stay_tied(s, Act::CloseRead);
    lemma_all_tied(c, later);
    lemma_who_closed(c, later);
}

/// The producer's end is closed only by closing it.
proof fn lemma_who_closed(s: Ends, acts: Seq<Act>)
    ensures
        all_done(s, acts).prod_closed ==> s.prod_closed || acts.contains(Act::CloseWrite),
    decreases acts.len(),
{
    if acts.len() > 0 {
        let front = acts.drop_last();
        lemma_who_closed(s, front);
        if front.contains(Act::CloseWrite) {
            assert(acts[front.index_of(Act::CloseWrite)] == Act::CloseWrite);
        }
        if acts.last() == Act::CloseWrite {
            assert(acts[acts.len() - 1] == Act::CloseWrite);
        }
    }
}

} // verus!

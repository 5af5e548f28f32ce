//! In-memory byte-stream duplex pair, with the semantics of a pair of OS
//! pipes: a read gives at most one written chunk, and once the link is broken
//! both ends drain what is left and then see the end. Locking and waiting
//! belong to the caller.

use std::collections::VecDeque;
use vstd::prelude::*;

verus! {

/// One end of a link.
#[derive(Debug, PartialEq, Eq)]
pub struct MemStream {
    /// Which queue this end reads from.
    read_a_to_b: bool,
}

/// The state that the two ends share.
pub struct MemLink {
    a_to_b: VecDeque<Vec<u8>>,
    b_to_a: VecDeque<Vec<u8>>,
    closed: bool,
}

/// What a read gave.
#[derive(Debug, PartialEq, Eq)]
pub enum ReadStep {
    /// Bytes, in order; none at the end of the stream.
    Bytes(Vec<u8>),
    /// Nothing yet and the link is up: wait for the other end.
    Wait,
}

/// What a link holds: the chunks on their way in each direction.
#[verifier::ext_equal]
pub struct LinkView {
    pub a_to_b: Seq<Seq<u8>>,
    pub b_to_a: Seq<Seq<u8>>,
    pub closed: bool,
}

/// The chunks of a queue.
pub open spec fn chunks(q: Seq<Vec<u8>>) -> Seq<Seq<u8>> {
    q.map_values(|c: Vec<u8>| c@)
}

impl View for MemLink {
    type V = LinkView;

    closed spec fn view(&self) -> LinkView {
        LinkView {
            a_to_b: chunks(self.a_to_b@),
            b_to_a: chunks(self.b_to_a@),
            closed: self.closed,
        }
    }
}

impl LinkView {
    /// What waits for the end that reads one direction.
    pub open spec fn inbox(self, read_a_to_b: bool) -> Seq<Seq<u8>> {
        if read_a_to_b {
            self.a_to_b
        } else {
            self.b_to_a
        }
    }

    /// The link with another inbox for that end.
    pub open spec fn with_inbox(self, read_a_to_b: bool, q: Seq<Seq<u8>>) -> LinkView {
        if read_a_to_b {
            LinkView { a_to_b: q, ..self }
        } else {
            LinkView { b_to_a: q, ..self }
        }
    }
}

/// The chunks that stay when `n` bytes of the first are taken.
pub open spec fn after_read(q: Seq<Seq<u8>>, n: int) -> Seq<Seq<u8>> {
    if n < q[0].len() {
        q.update(0, q[0].skip(n))
    } else {
        q.skip(1)
    }
}

/// The smaller of two numbers.
pub open spec fn smaller(a: int, b: int) -> int {
    if a < b {
        a
    } else {
        b
    }
}

/// Two ends and the link between them.
pub fn mem_duplex() -> (r: (MemStream, MemStream, MemLink))
    ensures
        r.0.side(),
        !r.1.side(),
        r.2@ == (LinkView { a_to_b: Seq::empty(), b_to_a: Seq::empty(), closed: false }),
{
    let link = MemLink { a_to_b: VecDeque::new(), b_to_a: VecDeque::new(), closed: false };
    assert(link@.a_to_b =~= Seq::empty());
    assert(link@.b_to_a =~= Seq::empty());
    (MemStream { read_a_to_b: true }, MemStream { read_a_to_b: false }, link)
}

fn take_chunk(q: &mut VecDeque<Vec<u8>>, max: usize) -> (r: Option<Vec<u8>>)
    requires
        max > 0,
    ensures
        if old(q)@.len() > 0 {
            ({
                let first = chunks(old(q)@)[0];
                let n = smaller(first.len() as int, max as int);
                &&& r is Some
                &&& r->Some_0@ == first.take(n)
                &&& chunks(final(q)@) == after_read(chunks(old(q)@), n)
            })
        } else {
            r is None && chunks(final(q)@) == chunks(old(q)@)
        },
{
    match q.pop_front() {
        None => None,
        Some(mut chunk) => {
            let ghost first = chunk@;
            assert(first == chunks(old(q)@)[0]);
            if chunk.len() > max {
                let rest = chunk.split_off(max);
                assert(chunk@ =~= first.take(max as int));
                assert(rest@ =~= first.skip(max as int));
                q.push_front(rest);
                assert(chunks(q@) =~= after_read(chunks(old(q)@), max as int));
            } else {
                assert(chunk@ =~= first.take(first.len() as int));
                assert(chunks(q@) =~= after_read(chunks(old(q)@), first.len() as int));
            }
            Some(chunk)
        },
    }
}

impl MemStream {
    /// Which direction this end reads.
    pub closed spec fn side(&self) -> bool {
        self.read_a_to_b
    }

    /// Breaks the link: both ends see the end of the stream.
    pub fn close_link(&self, link: &mut MemLink)
        ensures
            final(link)@ == (LinkView { closed: true, ..old(link)@ }),
    {
        link.closed = true;
    }

    /// Reads at most `max` bytes of what the other end wrote.
    pub fn read(&mut self, link: &mut MemLink, max: usize) -> (r: ReadStep)
        ensures
            *final(self) == *old(self),
            ({
                let side = old(self).side();
                let inbox = old(link)@.inbox(side);
                if max == 0 {
                    r is Bytes && r->Bytes_0@ == Seq::<u8>::empty() && final(link)@ == old(link)@
                } else if inbox.len() > 0 {
                    let n = smaller(inbox[0].len() as int, max as int);
                    r is Bytes && r->Bytes_0@ == inbox[0].take(n) && final(link)@
                        == old(link)@.with_inbox(side, after_read(inbox, n))
                } else if old(link)@.closed {
                    r is Bytes && r->Bytes_0@ == Seq::<u8>::empty() && final(link)@ == old(link)@
                } else {
                    r is Wait && final(link)@ == old(link)@
                }
            }),
    {
        if max == 0 {
            return ReadStep::Bytes(Vec::new());
        }
        let got = if self.read_a_to_b {
            take_chunk(&mut link.a_to_b, max)
        } else {
            take_chunk(&mut link.b_to_a, max)
        };
        match got {
            Some(chunk) => ReadStep::Bytes(chunk),
            None => {
                if link.closed {
                    ReadStep::Bytes(Vec::new())
                } else {
                    ReadStep::Wait
                }
            },
        }
    }

    /// Writes one chunk for the other end. False on a broken link.
    pub fn write(&mut self, link: &mut MemLink, buf: &[u8]) -> (r: bool)
        ensures
            *final(self) == *old(self),
            r == !old(link)@.closed,
            final(link)@ == (if r {
                old(link)@.with_inbox(
                    !old(self).side(),
                    old(link)@.inbox(!old(self).side()).push(buf@),
                )
            } else {
                old(link)@
            }),
    {
        if link.closed {
            return false;
        }
        let chunk = vstd::slice::slice_to_vec(buf);
        if self.read_a_to_b {
            link.b_to_a.push_back(chunk);
        } else {
            link.a_to_b.push_back(chunk);
        }
        assert(link@ =~= old(link)@.with_inbox(
            !old(self).side(),
            old(link)@.inbox(!old(self).side()).push(buf@),
        ));
        true
    }
}

/// All bytes of the chunks, in order.
pub open spec fn flat(q: Seq<Seq<u8>>) -> Seq<u8>
    decreases q.len(),
{
    if q.len() == 0 {
        Seq::empty()
    } else {
        q[0] + flat(q.skip(1))
    }
}

/// A read takes a prefix of the stream and leaves the rest: nothing is lost,
/// repeated or reordered.
pub proof fn law_read_takes_prefix(q: Seq<Seq<u8>>, max: int)
    requires
        q.len() > 0,
        max > 0,
    ensures
        ({
            let n = smaller(q[0].len() as int, max);
            flat(q) == q[0].take(n) + flat(after_read(q, n))
        }),
{
    let n = smaller(q[0].len() as int, max);
    let r = after_read(q, n);
    if n < q[0].len() {
        assert(r.skip(1) =~= q.skip(1));
        assert(flat(q) =~= q[0].take(n) + (q[0].skip(n) + flat(q.skip(1))));
    } else {
        assert(q[0].take(n) =~= q[0]);
    }
}

/// A write puts its bytes behind everything written before.
pub proof fn law_write_appends(q: Seq<Seq<u8>>, chunk: Seq<u8>)
    ensures
        flat(q.push(chunk)) == flat(q) + chunk,
    decreases q.len(),
{
    if q.len() == 0 {
        reveal_with_fuel(flat, 2);
        assert(q.push(chunk).skip(1) =~= Seq::empty());
        assert(flat(q.push(chunk)) =~= chunk);
        assert(flat(q) + chunk =~= chunk);
    } else {
        law_write_appends(q.skip(1), chunk);
        assert(q.push(chunk).skip(1) =~= q.skip(1).push(chunk));
        assert(flat(q.push(chunk)) =~= q[0] + (flat(q.skip(1)) + chunk));
        assert(flat(q) + chunk =~= q[0] + (flat(q.skip(1)) + chunk));
    }
}

} // verus!

//! The two ends of a directly connected pipe.
//!
//! The producer streams a fixed pseudorandom payload in irregular chunks and
//! never has more bytes outstanding than the capacity. The consumer hashes
//! what arrives and gives credit back in batches. Both are driven from
//! outside: a turn says what to do next, and what came of it is handed back.

use vstd::prelude::*;

use super::credit::{CreditError, CreditTracker};
use super::direct::Rec;
use crate::shared::{generate, generated};

verus! {

/// Where the payload's seed starts.
pub const FIRST_SEED: u64 = 0x1234_5678_9abc_def0;

/// Where the stream hash starts.
pub const HASH_BASIS: u64 = 0xcbf2_9ce4_8422_2325;

// ---------------------------------------------------------------- producer --

/// The sizes that chunks are cut to.
pub open spec fn chunk_sizes(cap: usize) -> Seq<usize> {
    seq![
        1,
        7,
        17,
        511,
        4096,
        8191,
        32768,
        (if cap < 65535 {
            cap
        } else {
            65535
        }),
        3,
        1000,
    ]
}

/// The size of the chunk that starts after `sent` of `total` bytes.
pub open spec fn chunk_len(cap: usize, total: nat, sent: nat) -> nat {
    let size = chunk_sizes(cap)[(sent % 10) as int];
    if size < total - sent {
        size as nat
    } else {
        (total - sent) as nat
    }
}

/// The seed of the next chunk.
pub open spec fn next_seed(seed: u64) -> u64 {
    seed ^ (seed << 1)
}

/// A chunk of pseudorandom bytes.
pub open spec fn chunk(seed: u64, n: nat) -> Seq<u8> {
    generated(seed, n)
}

/// What is still to be streamed after `sent` of `total` bytes.
pub open spec fn payload(cap: usize, total: nat, sent: nat, seed: u64) -> Seq<u8>
    decreases total - sent,
{
    if cap == 0 || sent >= total {
        Seq::empty()
    } else {
        let n = chunk_len(cap, total, sent);
        proof {
            assert(chunk_sizes(cap)[(sent % 10) as int] > 0);
        }
        chunk(seed, n) + payload(cap, total, sent + n, next_seed(seed))
    }
}

/// What the producer does next.
#[derive(Debug, PartialEq, Eq)]
pub enum Push {
    /// Send this data record; the credit for it is taken.
    Send(Vec<u8>),
    /// Nothing may be sent before credit comes back.
    Wait,
    /// The consumer is gone and no credit is left: exit code 3.
    Broken,
    /// All is sent: announce the close and exit with 0.
    Close,
}

/// What a control record meant to the producer.
#[derive(Clone, Copy, Debug, PartialEq, Eq, Structural)]
pub enum Heard {
    Credited,
    ForgedCredit,
    ConsumerClosed,
    PeerGone,
}

/// The exit code of a producer whose consumer went away.
pub const EXIT_BROKEN: i32 = 3;

/// The exit code of a producer that failed inside a record.
pub const EXIT_MID_RECORD: i32 = 4;

/// The exit code of a consumer whose stream did not end in order.
pub const EXIT_UNFINISHED: i32 = 5;

/// The producer: its credit, its place in the payload, and the rest of the
/// chunk that it is sending.
pub struct ProducerRole {
    tracker: CreditTracker,
    total: usize,
    sent: usize,
    seed: u64,
    rest: Vec<u8>,
    terminal: bool,
}

/// What a producer's contracts speak of.
#[verifier::ext_equal]
pub struct ProducerView {
    pub cap: nat,
    /// Bytes sent and not yet credited back.
    pub outstanding: nat,
    /// Bytes sent in all.
    pub sent: nat,
    /// Bytes still to be sent.
    pub left: Seq<u8>,
    /// Bytes still to be sent of the chunk at hand.
    pub at_hand: nat,
    /// Has the control direction ended?
    pub terminal: bool,
}

impl View for ProducerRole {
    type V = ProducerView;

    closed spec fn view(&self) -> ProducerView {
        ProducerView {
            cap: self.tracker.cap(),
            outstanding: self.tracker.out(),
            sent: self.sent as nat,
            left: self.rest@ + payload(
                self.tracker.cap() as usize,
                self.total as nat,
                (self.sent + self.rest@.len()) as nat,
                self.seed,
            ),
            at_hand: self.rest@.len(),
            terminal: self.terminal,
        }
    }
}

/// The bytes left of the chunk that is sent next: the one at hand, or a new
/// one where that is used up.
pub open spec fn current_chunk(p: ProducerView) -> nat {
    if p.at_hand > 0 {
        p.at_hand
    } else {
        chunk_len(p.cap as usize, p.sent + p.left.len(), p.sent)
    }
}

/// How many bytes are sent next: what is left of the chunk, as far as the
/// credit goes.
pub open spec fn next_len(p: ProducerView) -> nat {
    if current_chunk(p) < p.cap - p.outstanding {
        current_chunk(p)
    } else {
        (p.cap - p.outstanding) as nat
    }
}

/// The producer after it sent its next bytes.
pub open spec fn pushed(p: ProducerView) -> ProducerView {
    let n = next_len(p);
    ProducerView {
        outstanding: p.outstanding + n,
        sent: p.sent + n,
        left: p.left.skip(n as int),
        at_hand: (current_chunk(p) - n) as nat,
        ..p
    }
}

proof fn lemma_payload_step(cap: usize, total: nat, sent: nat, seed: u64)
    requires
        cap > 0,
        sent < total,
    ensures
        0 < chunk_len(cap, total, sent) <= total - sent,
        payload(cap, total, sent, seed) == chunk(seed, chunk_len(cap, total, sent)) + payload(
            cap,
            total,
            sent + chunk_len(cap, total, sent),
            next_seed(seed),
        ),
{
    assert(chunk_sizes(cap)[(sent % 10) as int] > 0);
}

/// As many bytes as are missing from the total are still to be sent.
proof fn lemma_payload_len(cap: usize, total: nat, sent: nat, seed: u64)
    requires
        cap > 0,
        sent <= total,
    ensures
        payload(cap, total, sent, seed).len() == total - sent,
    decreases total - sent,
{
    if sent < total {
        lemma_payload_step(cap, total, sent, seed);
        lemma_payload_len(cap, total, sent + chunk_len(cap, total, sent), next_seed(seed));
    }
}

impl ProducerRole {
    /// The credit accounting holds, and the chunk at hand fits the total.
    pub closed spec fn wf(&self) -> bool {
        &&& self.tracker.wf()
        &&& self.sent + self.rest@.len() <= self.total
        &&& self.tracker.cap() <= usize::MAX
    }

    /// Whatever was sent and credited: the rest of the total is still to be
    /// sent, and never more than the capacity is outstanding.
    pub proof fn lemma_wf(&self)
        requires
            self.wf(),
        ensures
            0 < self@.cap <= usize::MAX,
            self@.outstanding <= self@.cap,
            self@.sent + self@.left.len() <= usize::MAX,
    {
        self.tracker.lemma_wf();
        lemma_payload_len(
            self.tracker.cap() as usize,
            self.total as nat,
            (self.sent + self.rest@.len()) as nat,
            self.seed,
        );
    }

    /// A producer of `total` bytes. Its chunks must fit the capacity.
    pub fn new(cap: usize, total: usize) -> (r: Result<Self, CreditError>)
        requires
            cap == 0 || cap >= 7 || total <= cap + 1,
        ensures
            match r {
                Ok(p) => {
                    &&& cap > 0
                    &&& p.wf()
                    &&& p@ == (ProducerView {
                        cap: cap as nat,
                        outstanding: 0,
                        sent: 0,
                        left: payload(cap, total as nat, 0, FIRST_SEED),
                        at_hand: 0,
                        terminal: false,
                    })
                    &&& p@.left.len() == total
                },
                Err(e) => cap == 0 && e == CreditError::InvalidDelta,
            },
    {
        let tracker = match CreditTracker::new(cap) {
            Ok(t) => t,
            Err(e) => {
                return Err(e);
            },
        };
        let r = ProducerRole {
            tracker,
            total,
            sent: 0,
            seed: FIRST_SEED,
            rest: Vec::new(),
            terminal: false,
        };
        proof {
            lemma_payload_len(cap, total as nat, 0, FIRST_SEED);
            assert(r@.left =~= payload(cap, total as nat, 0, FIRST_SEED));
        }
        Ok(r)
    }

    /// Cuts the next chunk.
    fn refill(&mut self)
        requires
            old(self).wf(),
            old(self).rest@.len() == 0,
            old(self).sent < old(self).total,
        ensures
            final(self).wf(),
            final(self)@ == (ProducerView { at_hand: current_chunk(old(self)@), ..old(self)@ }),
            0 < final(self).rest@.len() <= final(self)@.left.len(),
    {
        let cap: usize = self.tracker.capacity();
        let at: usize = self.sent % 10;
        let mut n: usize = match at {
            0 => 1,
            1 => 7,
            2 => 17,
            3 => 511,
            4 => 4096,
            5 => 8191,
            6 => 32768,
            7 => if cap < 65535 {
                cap
            } else {
                65535
            },
            8 => 3,
            _ => 1000,
        };
        proof {
            self.tracker.lemma_wf();
            lemma_payload_step(cap, self.total as nat, self.sent as nat, self.seed);
            assert(n == chunk_sizes(cap)[at as int]);
        }
        let missing: usize = self.total - self.sent;
        if missing < n {
            n = missing;
        }
        assert(n == chunk_len(cap, self.total as nat, self.sent as nat));
        let mut b: Vec<u8> = vec![0;n];
        generate(b.as_mut_slice(), self.seed);
        assert(b@ =~= chunk(self.seed, n as nat));
        self.rest = b;
        self.seed = self.seed ^ (self.seed << 1);
        proof {
            assert(self@.left =~= old(self)@.left);
            lemma_payload_len(cap, self.total as nat, old(self).sent as nat, old(self).seed);
            assert(old(self)@.left =~= payload(
                cap,
                self.total as nat,
                old(self).sent as nat,
                old(self).seed,
            ));
        }
    }

    /// Takes `k` bytes of the chunk at hand, and the credit for them.
    fn cut(&mut self, k: usize) -> (b: Vec<u8>)
        requires
            old(self).wf(),
            0 < k <= old(self).rest@.len(),
            k <= old(self)@.cap - old(self)@.outstanding,
        ensures
            final(self).wf(),
            b@.len() == k,
            old(self)@.left == b@ + final(self)@.left,
            final(self)@ == (ProducerView {
                outstanding: old(self)@.outstanding + k as nat,
                sent: old(self)@.sent + k as nat,
                left: old(self)@.left.skip(k as int),
                at_hand: (old(self)@.at_hand - k) as nat,
                ..old(self)@
            }),
    {
        let _ = self.tracker.commit_accepted(k);
        let tail = self.rest.split_off(k);
        let mut b: Vec<u8> = Vec::new();
        b.append(&mut self.rest);
        self.rest = tail;
        self.sent = self.sent + k;
        proof {
            assert(b@ =~= old(self).rest@.take(k as int));
            assert(self.rest@ =~= old(self).rest@.skip(k as int));
            assert(self.sent + self.rest@.len() == old(self).sent + old(self).rest@.len());
            assert(old(self)@.left =~= b@ + self@.left);
            assert(old(self)@.left.skip(k as int) =~= self@.left);
        }
        b
    }

    /// What to do next. Bytes are given out in payload order, and only for
    /// credit that is taken with them.
    pub fn next(&mut self) -> (r: Push)
        requires
            old(self).wf(),
        ensures
            final(self).wf(),
            if old(self)@.left.len() == 0 {
                r == Push::Close && final(self)@ == old(self)@
            } else if old(self)@.outstanding < old(self)@.cap {
                &&& r matches Push::Send(b)
                &&& 0 < b@.len() == next_len(old(self)@)
                &&& b@ + final(self)@.left == old(self)@.left
                &&& final(self)@ == pushed(old(self)@)
            } else {
                &&& r == (if old(self)@.terminal {
                    Push::Broken
                } else {
                    Push::Wait
                })
                &&& final(self)@ == (ProducerView {
                    at_hand: current_chunk(old(self)@),
                    ..old(self)@
                })
            },
    {
        proof {
            self.tracker.lemma_wf();
            lemma_payload_len(
                self.tracker.cap() as usize,
                self.total as nat,
                (self.sent + self.rest@.len()) as nat,
                self.seed,
            );
        }
        if self.rest.len() == 0 {
            if self.sent == self.total {
                return Push::Close;
            }
            self.refill();
        }
        let n: usize = self.rest.len();
        let k: usize = match self.tracker.try_accept(n) {
            Ok(k) => k,
            Err(_) => 0,
        };
        if k == 0 {
            if self.terminal {
                return Push::Broken;
            }
            return Push::Wait;
        }
        Push::Send(self.cut(k))
    }

    /// A control record came; `None` stands for a control direction that
    /// ended or broke. Forged credit, a close and a loss are all final.
    pub fn on_control(&mut self, rec: Option<Rec>) -> (r: Heard)
        requires
            old(self).wf(),
        ensures
            final(self).wf(),
            final(self)@.cap == old(self)@.cap,
            final(self)@.sent == old(self)@.sent,
            final(self)@.left == old(self)@.left,
            final(self)@.at_hand == old(self)@.at_hand,
            final(self)@.terminal == (old(self)@.terminal || r != Heard::Credited),
            match rec {
                Some(Rec::Credit(k)) => if k <= old(self)@.outstanding {
                    r == Heard::Credited && final(self)@.outstanding == old(self)@.outstanding - k
                } else {
                    r == Heard::ForgedCredit && final(self)@.outstanding == old(self)@.outstanding
                },
                Some(Rec::ConsumerClose) => r == Heard::ConsumerClosed && final(self)@.outstanding
                    == old(self)@.outstanding,
                _ => r == Heard::PeerGone && final(self)@.outstanding == old(self)@.outstanding,
            },
    {
        match rec {
            Some(Rec::Credit(k)) => match self.tracker.return_credit(k) {
                Ok(_) => Heard::Credited,
                Err(_) => {
                    self.terminal = true;
                    Heard::ForgedCredit
                },
            },
            Some(Rec::ConsumerClose) => {
                self.terminal = true;
                Heard::ConsumerClosed
            },
            _ => {
                self.terminal = true;
                Heard::PeerGone
            },
        }
    }
}

// ---------------------------------------------------------------- consumer --

/// The running hash of a stream.
pub open spec fn stream_hash(s: Seq<u8>) -> u64 {
    hash_from(HASH_BASIS, s)
}

/// The hash of `s`, from a state `h`.
pub open spec fn hash_from(h: u64, s: Seq<u8>) -> u64
    decreases s.len(),
{
    if s.len() == 0 {
        h
    } else {
        (((hash_from(h, s.drop_last()) ^ (s.last() as u64)) * 0x1000_0000_01b3)
            % 0x1_0000_0000_0000_0000) as u64
    }
}

/// Hashing goes on where it stopped.
proof fn lemma_hash_append(h: u64, a: Seq<u8>, b: Seq<u8>)
    ensures
        hash_from(h, a + b) == hash_from(hash_from(h, a), b),
    decreases b.len(),
{
    if b.len() == 0 {
        assert(a + b =~= a);
    } else {
        assert((a + b).drop_last() =~= a + b.drop_last());
        lemma_hash_append(h, a, b.drop_last());
    }
}

fn hash_more(h: u64, b: &Vec<u8>) -> (r: u64)
    ensures
        r == hash_from(h, b@),
{
    let mut s: u64 = h;
    let mut i: usize = 0;
    assert(b@.take(0) =~= Seq::<u8>::empty());
    while i < b.len()
        invariant
            i <= b@.len(),
            s == hash_from(h, b@.take(i as int)),
        decreases b@.len() - i,
    {
        assert(b@.take(i + 1).drop_last() =~= b@.take(i as int));
        s = s ^ (b[i] as u64);
        s = s.wrapping_mul(0x1000_0000_01b3);
        i = i + 1;
    }
    assert(b@.take(i as int) =~= b@);
    s
}

/// What the consumer found on its payload direction.
#[derive(Debug, PartialEq, Eq)]
pub enum Arrival {
    Record(Rec),
    /// The stream ended.
    End,
    /// What came is no record.
    Broken,
}

/// What the consumer does next.
#[derive(Clone, Copy, Debug, PartialEq, Eq, Structural)]
pub enum Pull {
    Read,
    /// Send this much credit, and read on.
    Credit(usize),
    /// A full capacity is staged unread: wait for the end, then stop.
    Drain,
    Stop,
}

/// The consumer: what it has seen, what it owes, and how the stream ended.
pub struct ConsumerRole {
    cap: usize,
    hold: bool,
    total: usize,
    hash: u64,
    pending: usize,
    staged: usize,
    orderly: bool,
    peer_gone: bool,
}

/// What a consumer's contracts speak of.
#[verifier::ext_equal]
pub struct ConsumerView {
    pub cap: nat,
    /// Keep what arrives staged and return no credit?
    pub hold: bool,
    pub total: nat,
    pub hash: u64,
    /// Bytes consumed and not yet credited back.
    pub pending: nat,
    /// Bytes staged and not consumed.
    pub staged: nat,
    pub orderly: bool,
    pub peer_gone: bool,
}

impl View for ConsumerRole {
    type V = ConsumerView;

    closed spec fn view(&self) -> ConsumerView {
        ConsumerView {
            cap: self.cap as nat,
            hold: self.hold,
            total: self.total as nat,
            hash: self.hash,
            pending: self.pending as nat,
            staged: self.staged as nat,
            orderly: self.orderly,
            peer_gone: self.peer_gone,
        }
    }
}

/// The consumer after a body of stream bytes.
pub open spec fn consumed(c: ConsumerView, b: Seq<u8>) -> (ConsumerView, Pull) {
    let d = ConsumerView { total: c.total + b.len(), hash: hash_from(c.hash, b), ..c };
    if c.hold {
        let e = ConsumerView { staged: c.staged + b.len(), ..d };
        if e.staged >= c.cap {
            (ConsumerView { peer_gone: !c.orderly, ..e }, Pull::Drain)
        } else {
            (e, Pull::Read)
        }
    } else {
        let p = c.pending + b.len();
        if p >= c.cap / 4 {
            (ConsumerView { pending: 0, ..d }, Pull::Credit(p as usize))
        } else {
            (ConsumerView { pending: p, ..d }, Pull::Read)
        }
    }
}

/// The consumer after an arrival.
pub open spec fn arrived(c: ConsumerView, a: Arrival) -> (ConsumerView, Pull) {
    match a {
        Arrival::Record(Rec::Data(b)) => consumed(c, b@),
        Arrival::Record(Rec::Close) => (ConsumerView { orderly: true, ..c }, Pull::Stop),
        Arrival::Record(_) => (c, Pull::Read),
        Arrival::End => (ConsumerView { peer_gone: true, ..c }, Pull::Stop),
        Arrival::Broken => (c, Pull::Stop),
    }
}

impl ConsumerRole {
    /// A consumer that has seen nothing. One that holds stages what arrives
    /// and returns no credit.
    pub fn new(cap: usize, hold: bool) -> (r: Self)
        ensures
            r@ == (ConsumerView {
                cap: cap as nat,
                hold,
                total: 0,
                hash: HASH_BASIS,
                pending: 0,
                staged: 0,
                orderly: false,
                peer_gone: false,
            }),
    {
        ConsumerRole {
            cap,
            hold,
            total: 0,
            hash: HASH_BASIS,
            pending: 0,
            staged: 0,
            orderly: false,
            peer_gone: false,
        }
    }

    /// Every byte counts towards the total, and no byte is owed or staged
    /// that was not counted.
    pub open spec fn wf(&self) -> bool {
        self@.pending <= self@.total && self@.staged <= self@.total
    }

    /// Takes in what arrived. The stream must be short enough to be counted.
    pub fn on_arrival(&mut self, a: Arrival) -> (r: Pull)
        requires
            old(self).wf(),
            a matches Arrival::Record(Rec::Data(b)) ==> old(self)@.total + b@.len() <= usize::MAX,
        ensures
            final(self).wf(),
            (final(self)@, r) == arrived(old(self)@, a),
    {
        match a {
            Arrival::Record(Rec::Data(b)) => {
                let n: usize = b.len();
                self.hash = hash_more(self.hash, &b);
                self.total = self.total + n;
                if self.hold {
                    self.staged = self.staged + n;
                    if self.staged >= self.cap {
                        self.peer_gone = !self.orderly;
                        return Pull::Drain;
                    }
                } else {
                    self.pending = self.pending + n;
                    if self.pending >= self.cap / 4 {
                        let k: usize = self.pending;
                        self.pending = 0;
                        return Pull::Credit(k);
                    }
                }
                Pull::Read
            },
            Arrival::Record(Rec::Close) => {
                self.orderly = true;
                Pull::Stop
            },
            Arrival::Record(_) => Pull::Read,
            Arrival::End => {
                self.peer_gone = true;
                Pull::Stop
            },
            Arrival::Broken => Pull::Stop,
        }
    }

    /// How many bytes arrived.
    pub fn total(&self) -> (r: usize)
        ensures
            r == self@.total,
    {
        self.total
    }

    /// The hash of the bytes that arrived.
    pub fn hash(&self) -> (r: u64)
        ensures
            r == self@.hash,
    {
        self.hash
    }

    /// The credit not yet sent.
    pub fn pending(&self) -> (r: usize)
        ensures
            r == self@.pending,
    {
        self.pending
    }

    /// The bytes staged and not consumed.
    pub fn staged(&self) -> (r: usize)
        ensures
            r == self@.staged,
    {
        self.staged
    }

    /// Did the producer announce its close?
    pub fn orderly(&self) -> (r: bool)
        ensures
            r == self@.orderly,
    {
        self.orderly
    }

    /// Did the producer vanish?
    pub fn peer_gone(&self) -> (r: bool)
        ensures
            r == self@.peer_gone,
    {
        self.peer_gone
    }

    /// The exit code. A truncated or unannounced stream is a failure, never a
    /// clean finish.
    pub fn exit_code(&self) -> (r: i32)
        ensures
            r == (if self@.orderly && !self@.peer_gone {
                0i32
            } else {
                EXIT_UNFINISHED
            }),
    {
        if self.orderly && !self.peer_gone {
            0
        } else {
            EXIT_UNFINISHED
        }
    }
}

// ------------------------------------------------------------------- laws ---

/// The consumer after a series of arrivals, and the credit that it returned
/// on the way.
pub open spec fn consumer_run(c: ConsumerView, s: Seq<Arrival>) -> (ConsumerView, nat)
    decreases s.len(),
{
    if s.len() == 0 {
        (c, 0)
    } else {
        let (d, k) = consumer_run(c, s.drop_last());
        let (e, pull) = arrived(d, s.last());
        (
            e,
            k + (match pull {
                Pull::Credit(n) => n as nat,
                _ => 0,
            }),
        )
    }
}

/// The stream bytes of a series of arrivals.
pub open spec fn stream_of(s: Seq<Arrival>) -> Seq<u8>
    decreases s.len(),
{
    if s.len() == 0 {
        Seq::empty()
    } else {
        match s.last() {
            Arrival::Record(Rec::Data(b)) => stream_of(s.drop_last()) + b@,
            _ => stream_of(s.drop_last()),
        }
    }
}

/// However the stream is cut into records, the consumer counts and hashes
/// the stream itself; and unless it holds, what it returned and what it still
/// owes add up to what it consumed.
pub proof fn law_consumer_sees_the_stream(cap: nat, hold: bool, s: Seq<Arrival>)
    requires
        stream_of(s).len() <= usize::MAX,
    ensures
        ({
            let start = ConsumerView {
                cap,
                hold,
                total: 0,
                hash: HASH_BASIS,
                pending: 0,
                staged: 0,
                orderly: false,
                peer_gone: false,
            };
            let (c, credit) = consumer_run(start, s);
            &&& c.total == stream_of(s).len()
            &&& c.hash == stream_hash(stream_of(s))
            &&& c.hold == hold
            &&& c.cap == cap
            &&& !hold ==> credit + c.pending == c.total
            &&& hold ==> credit == 0 && c.staged == c.total
        }),
    decreases s.len(),
{
    if s.len() > 0 {
        law_consumer_sees_the_stream(cap, hold, s.drop_last());
        match s.last() {
            Arrival::Record(Rec::Data(b)) => {
                lemma_hash_append(HASH_BASIS, stream_of(s.drop_last()), b@);
            },
            _ => {},
        }
    }
}

/// A consumer ends well only on an announced close: a stream that ends or
/// breaks without one is never a clean finish.
pub proof fn law_unannounced_end_is_failure(c: ConsumerView, a: Arrival)
    requires
        !c.orderly,
        arrived(c, a).1 == Pull::Stop || arrived(c, a).1 == Pull::Drain,
        !(a matches Arrival::Record(Rec::Close)),
    ensures
        !(arrived(c, a).0.orderly && !arrived(c, a).0.peer_gone),
{
}

} // verus!

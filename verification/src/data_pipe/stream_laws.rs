//! What a directly connected pipe puts on its stream and takes off it.

use vstd::prelude::*;

use super::direct::{
    dec_bytes, dec_value, fields_of, first_record, header_for, header_of, is_white, line_len,
    next_word, number, rec_bytes, skip_white, word_len, Header, Rec, RecError, RecView,
};
use super::roles::{
    arrived, chunk_len, chunk_sizes, consumed, next_len, pushed, Arrival, ConsumerView,
    ProducerView, Pull,
};

verus! {

// --------------------------------------------------------------------- the words --

proof fn lemma_skip_white(s: Seq<char>)
    ensures
        skip_white(s).len() <= s.len(),
        skip_white(s) == s.skip(s.len() - skip_white(s).len()),
        forall|j: int| 0 <= j < s.len() - skip_white(s).len() ==> is_white(#[trigger] s[j]),
        skip_white(s).len() > 0 ==> !is_white(skip_white(s)[0]),
    decreases s.len(),
{
    if s.len() > 0 && is_white(s[0]) {
        let t = s.skip(1);
        lemma_skip_white(t);
        let n = skip_white(s).len();
        assert(skip_white(s) =~= s.skip(s.len() - n));
        assert forall|j: int| 0 <= j < s.len() - n implies is_white(#[trigger] s[j]) by {
            if j > 0 {
                assert(t[j - 1] == s[j]);
            }
        }
    } else {
        assert(s.skip(0) =~= s);
    }
}

proof fn lemma_word_len(s: Seq<char>)
    ensures
        word_len(s) <= s.len(),
        forall|j: int| 0 <= j < word_len(s) ==> !is_white(#[trigger] s[j]),
        word_len(s) < s.len() ==> is_white(s[word_len(s) as int]),
    decreases s.len(),
{
    if s.len() > 0 && !is_white(s[0]) {
        let t = s.skip(1);
        lemma_word_len(t);
        assert forall|j: int| 0 <= j < word_len(s) implies !is_white(#[trigger] s[j]) by {
            if j > 0 {
                assert(t[j - 1] == s[j]);
            }
        }
    }
}

/// The first word of a text stands behind nothing but white space, holds none,
/// and goes on as far as it can; what is left is the text behind it. A text
/// without a word is all white space.
pub proof fn law_the_first_word(s: Seq<char>)
    ensures
        ({
            let (word, rest) = next_word(s);
            match word {
                None => forall|j: int| 0 <= j < s.len() ==> is_white(#[trigger] s[j]),
                Some(w) => {
                    let b = s.len() - rest.len();
                    let a = b - w.len();
                    &&& 0 <= a < b <= s.len()
                    &&& w == s.subrange(a, b)
                    &&& rest == s.skip(b)
                    &&& forall|j: int| 0 <= j < a ==> is_white(#[trigger] s[j])
                    &&& forall|j: int| a <= j < b ==> !is_white(#[trigger] s[j])
                    &&& b < s.len() ==> is_white(s[b])
                },
            }
        }),
{
    lemma_skip_white(s);
    let t = skip_white(s);
    lemma_word_len(t);
    if t.len() > 0 {
        let n = word_len(t) as int;
        let a = s.len() - t.len();
        assert(t.take(n) =~= s.subrange(a, a + n));
        assert(t.skip(n) =~= s.skip(a + n));
        assert forall|j: int| a <= j < a + n implies !is_white(#[trigger] s[j]) by {
            assert(t[j - a] == s[j]);
        }
        if a + n < s.len() {
            assert(t[n] == s[a + n]);
        }
    }
}

/// The digit that a character stands for.
pub open spec fn digit_of(c: char) -> int {
    c as int - 48
}

/// Are these decimal digits only?
pub open spec fn digits(s: Seq<char>) -> bool {
    forall|i: int| 0 <= i < s.len() ==> 0 <= digit_of(#[trigger] s[i]) <= 9
}

/// Digits denote a number: none denotes nought, and one more digit makes ten
/// times as much and the digit. What holds anything else denotes none.
pub proof fn law_digits_denote_a_number(s: Seq<char>, c: char)
    ensures
        dec_value(Seq::empty()) == Some(0nat),
        dec_value(s) is Some <==> digits(s),
        digits(s) && 0 <= digit_of(c) <= 9 ==> dec_value(s.push(c))->Some_0 == dec_value(s)->Some_0 * 10
            + digit_of(c),
    decreases s.len(),
{
    if s.len() > 0 {
        law_digits_denote_a_number(s.drop_last(), c);
        if digits(s) {
            assert forall|i: int| 0 <= i < s.drop_last().len() implies 0 <= digit_of(
                #[trigger] s.drop_last()[i],
            ) <= 9 by {
                assert(s[i] == s.drop_last()[i]);
            }
            assert(0 <= digit_of(s[s.len() - 1]) <= 9);
        }
        if digits(s.drop_last()) && 0 <= digit_of(s.last()) <= 9 {
            assert forall|i: int| 0 <= i < s.len() implies 0 <= digit_of(#[trigger] s[i]) <= 9 by {
                if i < s.len() - 1 {
                    assert(s.drop_last()[i] == s[i]);
                }
            }
        }
    }
    assert(s.push(c).drop_last() =~= s);
}

/// A word is a number if it is digits, perhaps behind one plus sign, and what
/// they denote is within the bound.
pub proof fn law_which_words_are_numbers(s: Seq<char>, max: nat)
    ensures
        ({
            let d = if s.len() > 0 && s[0] == '+' {
                s.skip(1)
            } else {
                s
            };
            &&& number(s, max) is Some <==> d.len() > 0 && digits(d) && dec_value(d)->Some_0 <= max
            &&& number(s, max) is Some ==> number(s, max) == dec_value(d)
        }),
{
    let d = if s.len() > 0 && s[0] == '+' {
        s.skip(1)
    } else {
        s
    };
    law_digits_denote_a_number(d, '0');
}

// -------------------------------------------------------------------- the records --

/// The first line of a record goes up to its line feed, which is byte 10, or
/// to the end of the stream.
pub proof fn law_a_line_ends_at_its_line_feed(b: Seq<u8>)
    ensures
        ({
            let n = line_len(b) as int;
            &&& n <= b.len()
            &&& b.len() > 0 ==> n > 0
            &&& forall|j: int| 0 <= j < n - 1 ==> #[trigger] b[j] != 10
            &&& n < b.len() ==> b[n - 1] == 10
        }),
    decreases b.len(),
{
    if b.len() > 0 && b[0] != 10 {
        let t = b.skip(1);
        law_a_line_ends_at_its_line_feed(t);
        let n = line_len(b) as int;
        assert forall|j: int| 0 <= j < n - 1 implies #[trigger] b[j] != 10 by {
            if j > 0 {
                assert(t[j - 1] == b[j]);
            }
        }
        if n < b.len() {
            assert(t[n - 2] == b[n - 1]);
        }
    }
}

/// What a kind and a length announce: 1 a body, 2 the producer's close, 3
/// credit and 4 the consumer's close. Bodies and credit are not empty and
/// within the bound; a close has no length; there is no other kind.
pub proof fn law_what_a_header_announces(kind: u32, len: usize, max: usize)
    ensures
        ({
            let h = header_for(kind, len, max);
            let fits = 0 < len <= max;
            &&& h == Ok::<Header, RecError>(Header::Data(len)) <==> kind == 1 && fits
            &&& h == Ok::<Header, RecError>(Header::Close) <==> kind == 2 && len == 0
            &&& h == Ok::<Header, RecError>(Header::Credit(len)) <==> kind == 3 && fits
            &&& h == Ok::<Header, RecError>(Header::ConsumerClose) <==> kind == 4 && len == 0
            &&& h is Ok <==> (kind == 1 || kind == 3) && fits || (kind == 2 || kind == 4) && len == 0
            &&& h is Err ==> h->Err_0 == (if kind == 1 {
                RecError::Invalid("data len out of bounds")
            } else if kind == 3 {
                RecError::Invalid("credit delta out of bounds")
            } else if kind == 2 || kind == 4 {
                RecError::Invalid("close with a length")
            } else {
                RecError::Invalid("unknown kind")
            })
        }),
{
}

/// The fields of a header line are its first two words; a length that is left
/// out is nought, and further words do not matter.
pub proof fn law_the_fields_of_a_header(s: Seq<char>)
    ensures
        ({
            let (k, rest) = next_word(s);
            let l = next_word(rest).0;
            let kind = number(k->Some_0, 0xffff_ffff);
            let len = if l is None {
                Some(0nat)
            } else {
                number(l->Some_0, usize::MAX as nat)
            };
            match fields_of(s) {
                Ok((a, b)) => k is Some && kind == Some(a as nat) && len == Some(b as nat),
                Err(e) => e == (if k is None {
                    RecError::Invalid("missing kind")
                } else if kind is None {
                    RecError::Invalid("bad kind")
                } else {
                    RecError::Invalid("bad len")
                }) && (k is None || kind is None || len is None),
            }
        }),
{
}

/// A record on the stream: its kind, a space, its length in decimal, a line
/// feed, and the body of a data record.
pub proof fn law_a_record_on_the_stream(rec: RecView)
    ensures
        match rec {
            RecView::Data(b) => rec_bytes(rec) == seq![49u8, 32u8] + dec_bytes(b.len()) + seq![10u8] + b,
            RecView::Close => rec_bytes(rec) == seq![50u8, 32u8, 48u8, 10u8],
            RecView::Credit(k) => rec_bytes(rec) == seq![51u8, 32u8] + dec_bytes(k as nat) + seq![10u8],
            RecView::ConsumerClose => rec_bytes(rec) == seq![52u8, 32u8, 48u8, 10u8],
        },
{
    match rec {
        RecView::Data(b) => {
            assert(rec_bytes(rec) =~= seq![49u8, 32u8] + dec_bytes(b.len()) + seq![10u8] + b);
        },
        RecView::Close => {
            assert(rec_bytes(rec) =~= seq![50u8, 32u8, 48u8, 10u8]);
        },
        RecView::Credit(k) => {
            assert(rec_bytes(rec) =~= seq![51u8, 32u8] + dec_bytes(k as nat) + seq![10u8]);
        },
        RecView::ConsumerClose => {
            assert(rec_bytes(rec) =~= seq![52u8, 32u8, 48u8, 10u8]);
        },
    }
}

/// Reading a stream: nothing at its end; else what the first line announces,
/// with as many bytes behind it as it says, or a refusal if they are not all
/// there.
pub proof fn law_the_first_record(b: Seq<u8>)
    ensures
        ({
            let n = line_len(b) as int;
            let h = header_of(b.take(n), 8388608);
            match first_record(b) {
                Ok(None) => b.len() == 0,
                Ok(Some((RecView::Data(d), k))) => {
                    &&& h == Ok::<Header, RecError>(Header::Data(d.len() as usize))
                    &&& k == n + d.len() <= b.len()
                    &&& d == b.subrange(n, k as int)
                },
                Ok(Some((RecView::Close, k))) => h == Ok::<Header, RecError>(Header::Close) && k == n,
                Ok(Some((RecView::Credit(c), k))) => h == Ok::<Header, RecError>(Header::Credit(c)) && k == n,
                Ok(Some((RecView::ConsumerClose, k))) => h == Ok::<Header, RecError>(Header::ConsumerClose)
                    && k == n,
                Err(e) => b.len() > 0 && (h == Err::<Header, RecError>(e) || e == RecError::Truncated && (
                h matches Ok(Header::Data(len)) && b.len() < n + len)),
            }
        }),
{
    law_a_line_ends_at_its_line_feed(b);
}

// ----------------------------------------------------------------------- the roles --

/// The sizes of chunks, by the last digit of what was sent, and never more
/// than what is missing.
pub proof fn law_how_chunks_are_cut(cap: usize, total: nat, sent: nat)
    requires
        sent < total,
    ensures
        ({
            let size: int = match (sent % 10) as u8 {
                0 => 1,
                1 => 7,
                2 => 17,
                3 => 511,
                4 => 4096,
                5 => 8191,
                6 => 32768,
                7 => if cap < 65535 {
                    cap as int
                } else {
                    65535
                },
                8 => 3,
                _ => 1000,
            };
            let n = chunk_len(cap, total, sent);
            &&& n <= size
            &&& n <= total - sent
            &&& n == size || n == total - sent
        }),
{
    let k = (sent % 10) as int;
    assert(chunk_sizes(cap).len() == 10);
}

/// A send takes no more than the credit, no more than the chunk, and as much
/// as both allow. What was sent is gone from what is left and is outstanding.
pub proof fn law_sending_takes_credit(p: ProducerView)
    requires
        p.outstanding <= p.cap <= usize::MAX,
        p.at_hand <= p.left.len(),
    ensures
        ({
            let n = next_len(p);
            let chunk = if p.at_hand > 0 {
                p.at_hand
            } else {
                chunk_len(p.cap as usize, p.sent + p.left.len(), p.sent)
            };
            let q = pushed(p);
            &&& n <= p.cap - p.outstanding && n <= chunk
            &&& n == p.cap - p.outstanding || n == chunk
            &&& q.cap == p.cap && q.terminal == p.terminal
            &&& q.outstanding == p.outstanding + n <= q.cap
            &&& q.sent == p.sent + n
            &&& q.left == p.left.skip(n as int)
            &&& q.at_hand == chunk - n
        }),
{
}

/// What arrives is counted and hashed whatever follows. A consumer that holds
/// stages it, returns no credit, and drains from a full capacity on; any
/// other returns all that it owes as soon as that is a quarter of the
/// capacity.
pub proof fn law_consuming(c: ConsumerView, b: Seq<u8>)
    requires
        c.pending + b.len() <= usize::MAX,
    ensures
        ({
            let (d, pull) = consumed(c, b);
            let owed = c.pending + b.len();
            &&& d.total == c.total + b.len()
            &&& d.cap == c.cap && d.hold == c.hold && d.orderly == c.orderly
            &&& c.hold ==> {
                &&& d.staged == c.staged + b.len()
                &&& d.pending == c.pending
                &&& pull == (if d.staged >= c.cap {
                    Pull::Drain
                } else {
                    Pull::Read
                })
                &&& d.peer_gone == (if d.staged >= c.cap {
                    !c.orderly
                } else {
                    c.peer_gone
                })
            }
            &&& !c.hold ==> {
                &&& d.staged == c.staged
                &&& d.peer_gone == c.peer_gone
                &&& owed >= c.cap / 4 ==> pull == Pull::Credit(owed as usize) && d.pending == 0
                &&& owed < c.cap / 4 ==> pull == Pull::Read && d.pending == owed
            }
        }),
{
}

/// An announced close and an end stop the consumer, the one in order and the
/// other not; what is no record stops it as well; and records that are not
/// for a consumer are passed over.
pub proof fn law_what_stops_a_consumer(c: ConsumerView, a: Arrival)
    ensures
        ({
            let (d, pull) = arrived(c, a);
            match a {
                Arrival::Record(Rec::Data(b)) => (d, pull) == consumed(c, b@),
                Arrival::Record(Rec::Close) => pull == Pull::Stop && d == (ConsumerView { orderly: true, ..c }),
                Arrival::Record(Rec::Credit(_)) => pull == Pull::Read && d == c,
                Arrival::Record(Rec::ConsumerClose) => pull == Pull::Read && d == c,
                Arrival::End => pull == Pull::Stop && d == (ConsumerView { peer_gone: true, ..c }),
                Arrival::Broken => pull == Pull::Stop && d == c,
            }
        }),
{
}

} // verus!

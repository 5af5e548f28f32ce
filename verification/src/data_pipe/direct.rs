//! Record protocol over the payload and control pipes.
//!
//! A record is a text line that holds a kind and a length, followed by a body
//! where the kind is data. The payload direction carries data and close; the
//! control direction carries credit and consumer-close. Every number that a
//! peer controls is checked before anything is allocated for it.

use vstd::prelude::*;
use vstd::slice::slice_subrange;
use vstd::utf8::{
    decode_utf8, encode_utf8, encode_utf8_decode_utf8, encode_utf8_valid_utf8, is_ascii_chars,
    is_ascii_chars_encode_utf8, valid_utf8,
};

verus! {

/// The largest body, and the largest credit, of one record: eight mebibytes.
pub const MAX_DATA: usize = 8388608;

pub const KIND_DATA: u32 = 1;

pub const KIND_CLOSE: u32 = 2;

pub const KIND_CREDIT: u32 = 3;

pub const KIND_CONSUMER_CLOSE: u32 = 4;

/// One record.
#[derive(Debug, PartialEq, Eq)]
pub enum Rec {
    /// A body of stream bytes.
    Data(Vec<u8>),
    Close,
    Credit(usize),
    ConsumerClose,
}

/// What a record says.
#[verifier::ext_equal]
pub enum RecView {
    Data(Seq<u8>),
    Close,
    Credit(usize),
    ConsumerClose,
}

impl View for Rec {
    type V = RecView;

    open spec fn view(&self) -> RecView {
        match *self {
            Rec::Data(b) => RecView::Data(b@),
            Rec::Close => RecView::Close,
            Rec::Credit(k) => RecView::Credit(k),
            Rec::ConsumerClose => RecView::ConsumerClose,
        }
    }
}

/// What the first line of a record announces.
#[derive(Debug, Clone, Copy, PartialEq, Eq, Structural)]
pub enum Header {
    /// A body of this many bytes follows.
    Data(usize),
    Close,
    Credit(usize),
    ConsumerClose,
}

/// Why a record was refused.
#[derive(Debug, Clone, Copy, PartialEq, Eq)]
pub enum RecError {
    /// The record breaks the protocol.
    Invalid(&'static str),
    /// The line is not UTF-8 text.
    NotText,
    /// The stream ends inside the body.
    Truncated,
}

// ---------------------------------------------------------------- decimals --

/// The decimal digits of a number, without leading zeros.
pub open spec fn dec_bytes(n: nat) -> Seq<u8>
    decreases n,
{
    if n < 10 {
        seq![(48 + n) as u8]
    } else {
        dec_bytes(n / 10).push((48 + n % 10) as u8)
    }
}

/// Is the character a decimal digit?
pub open spec fn is_digit(c: char) -> bool {
    '0' <= c <= '9'
}

/// The number that a sequence of decimal digits denotes. `None` if some
/// character is not a digit.
pub open spec fn dec_value(s: Seq<char>) -> Option<nat>
    decreases s.len(),
{
    if s.len() == 0 {
        Some(0)
    } else {
        match dec_value(s.drop_last()) {
            Some(v) => if is_digit(s.last()) {
                Some((v * 10 + (s.last() as int - '0' as int)) as nat)
            } else {
                None
            },
            None => None,
        }
    }
}

/// The number that a word denotes, if it is at most `max`: digits, behind one
/// plus sign perhaps.
pub open spec fn number(s: Seq<char>, max: nat) -> Option<nat> {
    let digits = if s.len() > 0 && s[0] == '+' {
        s.skip(1)
    } else {
        s
    };
    if digits.len() == 0 {
        None
    } else {
        match dec_value(digits) {
            Some(v) => if v <= max {
                Some(v)
            } else {
                None
            },
            None => None,
        }
    }
}

/// Fewer digits of a number denote no larger number.
proof fn lemma_dec_value_grows(s: Seq<char>, i: int)
    requires
        0 <= i <= s.len(),
    ensures
        dec_value(s) is Some ==> dec_value(s.take(i)) is Some && dec_value(s.take(i))->Some_0
            <= dec_value(s)->Some_0,
    decreases s.len(),
{
    if i < s.len() {
        lemma_dec_value_grows(s.drop_last(), i);
        assert(s.drop_last().take(i) =~= s.take(i));
    } else {
        assert(s.take(i) =~= s);
    }
}

/// Reads the number in a word, if it is at most `max`.
pub(crate) fn parse_number(s: &[char], max: u64) -> (r: Option<u64>)
    ensures
        match r {
            Some(v) => number(s@, max as nat) == Some(v as nat),
            None => number(s@, max as nat) is None,
        },
{
    let start: usize = if s.len() > 0 && s[0] == '+' {
        1
    } else {
        0
    };
    let ghost digits = s@.skip(start as int);
    assert(start == 0 ==> digits =~= s@);
    if start == s.len() {
        return None;
    }
    let mut v: u64 = 0;
    let mut i: usize = start;
    assert(digits.take(0) =~= Seq::<char>::empty());
    while i < s.len()
        invariant
            start <= i <= s@.len(),
            digits == s@.skip(start as int),
            number(s@, max as nat) == (match dec_value(digits) {
                Some(v) => if v <= max {
                    Some(v)
                } else {
                    None
                },
                None => None,
            }),
            dec_value(digits.take(i - start)) == Some(v as nat),
            v <= max,
        decreases s@.len() - i,
    {
        let c = s[i];
        proof {
            let next = digits.take(i - start + 1);
            assert(next.drop_last() =~= digits.take(i - start));
            assert(next.last() == c);
            lemma_dec_value_grows(digits, i - start + 1);
        }
        if !('0' <= c && c <= '9') {
            return None;
        }
        let wide: u128 = v as u128 * 10 + (c as u32 - '0' as u32) as u128;
        if wide > max as u128 {
            return None;
        }
        v = wide as u64;
        i = i + 1;
    }
    assert(digits.take(i - start) =~= digits);
    Some(v)
}

/// Appends a number in decimal.
fn push_decimal(out: &mut Vec<u8>, n: usize)
    ensures
        final(out)@ == old(out)@ + dec_bytes(n as nat),
    decreases n,
{
    if n >= 10 {
        push_decimal(out, n / 10);
    }
    out.push(48 + (n % 10) as u8);
}

// ------------------------------------------------------------------- words --

/// Does the character have the Unicode property White_Space?
pub open spec fn is_white(c: char) -> bool {
    let u = c as int;
    ||| 0x09 <= u <= 0x0d
    ||| u == 0x20
    ||| u == 0x85
    ||| u == 0xa0
    ||| u == 0x1680
    ||| 0x2000 <= u <= 0x200a
    ||| u == 0x2028
    ||| u == 0x2029
    ||| u == 0x202f
    ||| u == 0x205f
    ||| u == 0x3000
}

fn white(c: char) -> (r: bool)
    ensures
        r == is_white(c),
{
    let u: u32 = c as u32;
    (0x09 <= u && u <= 0x0d) || u == 0x20 || u == 0x85 || u == 0xa0 || u == 0x1680 || (0x2000 <= u
        && u <= 0x200a) || u == 0x2028 || u == 0x2029 || u == 0x202f || u == 0x205f || u == 0x3000
}

/// The text from its first character that is no white space on.
pub open spec fn skip_white(s: Seq<char>) -> Seq<char>
    decreases s.len(),
{
    if s.len() > 0 && is_white(s[0]) {
        skip_white(s.skip(1))
    } else {
        s
    }
}

/// How many characters come before the first white space.
pub open spec fn word_len(s: Seq<char>) -> nat
    decreases s.len(),
{
    if s.len() == 0 || is_white(s[0]) {
        0
    } else {
        1 + word_len(s.skip(1))
    }
}

/// The first word of a text, and the text behind it.
pub open spec fn next_word(s: Seq<char>) -> (Option<Seq<char>>, Seq<char>) {
    let t = skip_white(s);
    if t.len() == 0 {
        (None, t)
    } else {
        (Some(t.take(word_len(t) as int)), t.skip(word_len(t) as int))
    }
}

/// Finds the first word from `from` on: its bounds.
pub(crate) fn find_word(s: &[char], from: usize) -> (r: Option<(usize, usize)>)
    requires
        from <= s@.len(),
    ensures
        match r {
            Some((a, b)) => from <= a < b <= s@.len() && next_word(s@.skip(from as int)) == (
                Some(s@.subrange(a as int, b as int)),
                s@.skip(b as int),
            ),
            None => next_word(s@.skip(from as int)).0 is None,
        },
{
    let mut a: usize = from;
    while a < s.len() && white(s[a])
        invariant
            from <= a <= s@.len(),
            skip_white(s@.skip(from as int)) == skip_white(s@.skip(a as int)),
        decreases s@.len() - a,
    {
        assert(s@.skip(a as int).skip(1) =~= s@.skip(a + 1));
        a = a + 1;
    }
    if a == s.len() {
        return None;
    }
    let mut b: usize = a;
    while b < s.len() && !white(s[b])
        invariant
            a <= b <= s@.len(),
            word_len(s@.skip(a as int)) == b - a + word_len(s@.skip(b as int)),
        decreases s@.len() - b,
    {
        assert(s@.skip(b as int).skip(1) =~= s@.skip(b + 1));
        b = b + 1;
    }
    proof {
        let t = s@.skip(a as int);
        assert(t.take(b - a) =~= s@.subrange(a as int, b as int));
        assert(t.skip(b - a) =~= s@.skip(b as int));
    }
    Some((a, b))
}

// ------------------------------------------------------------------ header --

/// The kind and the length that the words of a header line give. A length
/// that is left out is zero.
pub open spec fn fields_of(s: Seq<char>) -> Result<(u32, usize), RecError> {
    let (kind, rest) = next_word(s);
    match kind {
        None => Err(RecError::Invalid("missing kind")),
        Some(k) => match number(k, u32::MAX as nat) {
            None => Err(RecError::Invalid("bad kind")),
            Some(kind) => {
                let len = match next_word(rest).0 {
                    None => Some(0),
                    Some(l) => number(l, usize::MAX as nat),
                };
                match len {
                    None => Err(RecError::Invalid("bad len")),
                    Some(len) => Ok((kind as u32, len as usize)),
                }
            },
        },
    }
}

/// What the words of a header line announce.
pub open spec fn header_of_text(s: Seq<char>, max: usize) -> Result<Header, RecError> {
    match fields_of(s) {
        Err(e) => Err(e),
        Ok((kind, len)) => header_for(kind, len, max),
    }
}

/// What a kind and a length announce, where one record moves at most `max`
/// bytes. The records that close have no body, so nothing can ride in them.
pub open spec fn header_for(kind: u32, len: usize, max: usize) -> Result<Header, RecError> {
    if kind == KIND_DATA {
        if len == 0 || len > max {
            Err(RecError::Invalid("data len out of bounds"))
        } else {
            Ok(Header::Data(len))
        }
    } else if kind == KIND_CREDIT {
        if len == 0 || len > max {
            Err(RecError::Invalid("credit delta out of bounds"))
        } else {
            Ok(Header::Credit(len))
        }
    } else if kind == KIND_CLOSE {
        if len != 0 {
            Err(RecError::Invalid("close with a length"))
        } else {
            Ok(Header::Close)
        }
    } else if kind == KIND_CONSUMER_CLOSE {
        if len != 0 {
            Err(RecError::Invalid("close with a length"))
        } else {
            Ok(Header::ConsumerClose)
        }
    } else {
        Err(RecError::Invalid("unknown kind"))
    }
}

/// What a header line announces.
pub open spec fn header_of(line: Seq<u8>, max: usize) -> Result<Header, RecError> {
    if valid_utf8(line) {
        header_of_text(decode_utf8(line), max)
    } else {
        Err(RecError::NotText)
    }
}

/// Calls `std::str::from_utf8`: the text that the bytes encode if they are
/// UTF-8, and nothing otherwise.
#[verifier::external_body]
fn text_of(b: &[u8]) -> (r: Option<&str>)
    ensures
        match r {
            Some(s) => valid_utf8(b@) && s@ == decode_utf8(b@),
            None => !valid_utf8(b@),
        },
{
    match std::str::from_utf8(b) {
        Ok(s) => Some(s),
        Err(_) => None,
    }
}

/// The characters of a text.
pub(crate) fn chars_of(s: &str) -> (r: Vec<char>)
    ensures
        r@ == s@,
{
    broadcast use vstd::string::axiom_spec_iter;

    let mut v: Vec<char> = Vec::new();
    for c in it: s.chars()
        invariant
            it.seq() == s@,
            v@ == s@.take(it.index()),
    {
        v.push(c);
        assert(s@.take(it.index() + 1) =~= s@.take(it.index()).push(c));
    }
    assert(s@.take(s@.len() as int) =~= s@);
    v
}

/// Reads a header line, with or without its line feed.
pub fn parse_header(line: &[u8]) -> (r: Result<Header, RecError>)
    ensures
        r == header_of(line@, MAX_DATA),
{
    parse_header_within(line, MAX_DATA)
}

/// Reads the kind and the length of a header line.
fn parse_fields(cs: &[char]) -> (r: Result<(u32, usize), RecError>)
    ensures
        r == fields_of(cs@),
{
    assert(cs@.skip(0) =~= cs@);
    let (a, b) = match find_word(cs, 0) {
        Some(w) => w,
        None => {
            return Err(RecError::Invalid("missing kind"));
        },
    };
    let kind: u32 = match parse_number(slice_subrange(cs, a, b), u32::MAX as u64) {
        Some(k) => k as u32,
        None => {
            return Err(RecError::Invalid("bad kind"));
        },
    };
    match find_word(cs, b) {
        Some((c, d)) => match parse_number(slice_subrange(cs, c, d), usize::MAX as u64) {
            Some(l) => Ok((kind, l as usize)),
            None => Err(RecError::Invalid("bad len")),
        },
        None => Ok((kind, 0)),
    }
}

/// What a kind and a length announce.
fn announced(kind: u32, len: usize, max: usize) -> (r: Result<Header, RecError>)
    ensures
        r == header_for(kind, len, max),
{
    match kind {
        KIND_DATA => {
            if len == 0 || len > max {
                return Err(RecError::Invalid("data len out of bounds"));
            }
            Ok(Header::Data(len))
        },
        KIND_CREDIT => {
            if len == 0 || len > max {
                return Err(RecError::Invalid("credit delta out of bounds"));
            }
            Ok(Header::Credit(len))
        },
        KIND_CLOSE => {
            if len != 0 {
                return Err(RecError::Invalid("close with a length"));
            }
            Ok(Header::Close)
        },
        KIND_CONSUMER_CLOSE => {
            if len != 0 {
                return Err(RecError::Invalid("close with a length"));
            }
            Ok(Header::ConsumerClose)
        },
        _ => Err(RecError::Invalid("unknown kind")),
    }
}

/// Reads a header line of a stream on which one record moves at most `max`
/// bytes.
pub fn parse_header_within(line: &[u8], max: usize) -> (r: Result<Header, RecError>)
    ensures
        r == header_of(line@, max),
{
    let text = match text_of(line) {
        Some(t) => t,
        None => {
            return Err(RecError::NotText);
        },
    };
    let chars = chars_of(text);
    match parse_fields(chars.as_slice()) {
        Ok((kind, len)) => announced(kind, len, max),
        Err(e) => Err(e),
    }
}

// ----------------------------------------------------------------- records --

/// How long the first line is, its line feed counted.
pub open spec fn line_len(b: Seq<u8>) -> nat
    decreases b.len(),
{
    if b.len() == 0 {
        0
    } else if b[0] == 10 {
        1
    } else {
        1 + line_len(b.skip(1))
    }
}

/// The first record of a stream and how many bytes it takes. `None` at the
/// end of the stream.
pub open spec fn first_record(b: Seq<u8>) -> Result<Option<(RecView, nat)>, RecError> {
    if b.len() == 0 {
        Ok(None)
    } else {
        let n = line_len(b);
        match header_of(b.take(n as int), MAX_DATA) {
            Err(e) => Err(e),
            Ok(Header::Data(len)) => if b.len() - n < len {
                Err(RecError::Truncated)
            } else {
                Ok(Some((RecView::Data(b.subrange(n as int, n + len)), (n + len) as nat)))
            },
            Ok(Header::Close) => Ok(Some((RecView::Close, n))),
            Ok(Header::Credit(k)) => Ok(Some((RecView::Credit(k), n))),
            Ok(Header::ConsumerClose) => Ok(Some((RecView::ConsumerClose, n))),
        }
    }
}

/// A header line.
pub open spec fn header_line(kind: u32, len: nat) -> Seq<u8> {
    dec_bytes(kind as nat) + seq![32u8] + dec_bytes(len) + seq![10u8]
}

/// The bytes of a record.
pub open spec fn rec_bytes(rec: RecView) -> Seq<u8> {
    match rec {
        RecView::Data(b) => header_line(KIND_DATA, b.len()) + b,
        RecView::Close => header_line(KIND_CLOSE, 0),
        RecView::Credit(k) => header_line(KIND_CREDIT, k as nat),
        RecView::ConsumerClose => header_line(KIND_CONSUMER_CLOSE, 0),
    }
}

fn push_header(out: &mut Vec<u8>, kind: u32, len: usize)
    ensures
        final(out)@ == old(out)@ + header_line(kind, len as nat),
{
    push_decimal(out, kind as usize);
    out.push(32);
    push_decimal(out, len);
    out.push(10);
    assert(out@ =~= old(out)@ + header_line(kind, len as nat));
}

/// Appends a record, whatever its size. It is for streams whose ends have
/// agreed on a bound of their own.
pub fn put_record(w: &mut Vec<u8>, rec: &Rec)
    ensures
        final(w)@ == old(w)@ + rec_bytes(rec@),
{
    match rec {
        Rec::Data(b) => {
            push_header(w, KIND_DATA, b.len());
            w.extend_from_slice(b.as_slice());
            assert(w@ =~= old(w)@ + rec_bytes(rec@));
        },
        Rec::Close => push_header(w, KIND_CLOSE, 0),
        Rec::Credit(k) => push_header(w, KIND_CREDIT, *k),
        Rec::ConsumerClose => push_header(w, KIND_CONSUMER_CLOSE, 0),
    }
}

/// Appends a record. Bodies and credits over the bound are refused, and
/// nothing is written of them.
pub fn encode(w: &mut Vec<u8>, rec: &Rec) -> (r: Result<(), RecError>)
    ensures
        match rec@ {
            RecView::Data(b) if b.len() > MAX_DATA => r == Err::<(), RecError>(
                RecError::Invalid("data exceeds bound"),
            ) && final(w)@ == old(w)@,
            RecView::Credit(k) if k > MAX_DATA => r == Err::<(), RecError>(
                RecError::Invalid("credit exceeds bound"),
            ) && final(w)@ == old(w)@,
            _ => r is Ok && final(w)@ == old(w)@ + rec_bytes(rec@),
        },
{
    match rec {
        Rec::Data(b) => {
            if b.len() > MAX_DATA {
                return Err(RecError::Invalid("data exceeds bound"));
            }
        },
        Rec::Credit(k) => {
            if *k > MAX_DATA {
                return Err(RecError::Invalid("credit exceeds bound"));
            }
        },
        Rec::Close | Rec::ConsumerClose => {},
    }
    put_record(w, rec);
    Ok(())
}

/// Reads the first record of a stream: the record and how many bytes it
/// takes. `None` at the end of the stream.
pub fn decode(b: &[u8]) -> (r: Result<Option<(Rec, usize)>, RecError>)
    ensures
        match first_record(b@) {
            Err(e) => r == Err::<Option<(Rec, usize)>, RecError>(e),
            Ok(None) => r is Ok && r->Ok_0 is None,
            Ok(Some((rec, n))) => r is Ok && r->Ok_0 is Some && r->Ok_0->Some_0.0@ == rec
                && r->Ok_0->Some_0.1 == n,
        },
{
    if b.len() == 0 {
        return Ok(None);
    }
    let mut n: usize = 0;
    assert(b@.skip(0) =~= b@);
    while n < b.len() && b[n] != 10
        invariant
            n <= b@.len(),
            line_len(b@) == n + line_len(b@.skip(n as int)),
        decreases b@.len() - n,
    {
        assert(b@.skip(n as int).skip(1) =~= b@.skip(n + 1));
        n = n + 1;
    }
    if n < b.len() {
        n = n + 1;
    }
    let line = slice_subrange(b, 0, n);
    assert(line@ =~= b@.take(n as int));
    match parse_header(line) {
        Err(e) => Err(e),
        Ok(Header::Data(len)) => {
            if b.len() - n < len {
                return Err(RecError::Truncated);
            }
            let body = slice_subrange(b, n, n + len);
            Ok(Some((Rec::Data(vstd::slice::slice_to_vec(body)), n + len)))
        },
        Ok(Header::Close) => Ok(Some((Rec::Close, n))),
        Ok(Header::Credit(k)) => Ok(Some((Rec::Credit(k), n))),
        Ok(Header::ConsumerClose) => Ok(Some((Rec::ConsumerClose, n))),
    }
}

// ---------------------------------------------------------------------- laws --

/// Can the record be sent? Bodies and credits are not empty and within the
/// bound.
pub open spec fn sendable(rec: RecView) -> bool {
    match rec {
        RecView::Data(b) => 0 < b.len() <= MAX_DATA,
        RecView::Credit(k) => 0 < k <= MAX_DATA,
        _ => true,
    }
}

/// The characters that ASCII bytes stand for.
spec fn ascii(b: Seq<u8>) -> Seq<char> {
    Seq::new(b.len(), |i: int| b[i] as char)
}

proof fn lemma_ascii_text(b: Seq<u8>)
    requires
        forall|i: int| 0 <= i < b.len() ==> b[i] < 128,
    ensures
        valid_utf8(b),
        decode_utf8(b) == ascii(b),
{
    let cs = ascii(b);
    assert(is_ascii_chars(cs));
    is_ascii_chars_encode_utf8(cs);
    assert forall|i: int| 0 <= i < b.len() implies encode_utf8(cs)[i] == b[i] by {
        assert(cs[i] as u8 == encode_utf8(cs)[i]);
    }
    assert(encode_utf8(cs) =~= b);
    encode_utf8_valid_utf8(cs);
    encode_utf8_decode_utf8(cs);
}

proof fn lemma_dec_bytes(n: nat)
    ensures
        dec_bytes(n).len() > 0,
        forall|i: int| 0 <= i < dec_bytes(n).len() ==> 48 <= #[trigger] dec_bytes(n)[i] <= 57,
        dec_value(ascii(dec_bytes(n))) == Some(n),
    decreases n,
{
    let d = dec_bytes(n);
    let s = ascii(d);
    if n < 10 {
        assert(s.drop_last() =~= Seq::<char>::empty());
        assert(dec_value(s.drop_last()) == Some(0nat));
    } else {
        lemma_dec_bytes(n / 10);
        assert(s.drop_last() =~= ascii(dec_bytes(n / 10)));
    }
    assert(s.last() == d.last() as char);
}

/// A word that is followed by white space.
proof fn lemma_word_end(s: Seq<char>, k: nat)
    requires
        k < s.len(),
        forall|i: int| 0 <= i < k ==> !is_white(#[trigger] s[i]),
        is_white(s[k as int]),
    ensures
        word_len(s) == k,
    decreases k,
{
    if k > 0 {
        assert(!is_white(s[0]));
        let t = s.skip(1);
        assert forall|i: int| 0 <= i < k - 1 implies !is_white(#[trigger] t[i]) by {
            assert(t[i] == s[i + 1]);
        }
        lemma_word_end(t, (k - 1) as nat);
    }
}

proof fn lemma_header_line(kind: u32, len: nat)
    requires
        1 <= kind <= 4,
        len <= MAX_DATA,
    ensures
        header_of(header_line(kind, len), MAX_DATA) == header_for(kind, len as usize, MAX_DATA),
{
    let line = header_line(kind, len);
    let d = dec_bytes(len);
    lemma_dec_bytes(kind as nat);
    lemma_dec_bytes(len);
    let dk = dec_bytes(kind as nat);
    assert(dk.len() == 1);
    assert forall|i: int| 0 <= i < line.len() implies line[i] < 128 by {
        if 2 <= i < line.len() - 1 {
            assert(line[i] == d[i - 2]);
        }
    }
    lemma_ascii_text(line);
    let s = ascii(line);
    assert(!is_white(s[0]));
    assert(is_white(s[1]));
    assert(skip_white(s) == s);
    lemma_word_end(s, 1);
    assert(s.take(1) =~= ascii(dk));
    assert(ascii(dk).len() > 0 && ascii(dk)[0] != '+');
    let rest = s.skip(1);
    let t = rest.skip(1);
    assert(t =~= s.skip(2));
    assert forall|i: int| 0 <= i < d.len() implies !is_white(#[trigger] t[i]) && is_digit(t[i]) by {
        assert(line[i + 2] == d[i]);
        assert(t[i] == line[i + 2] as char);
    }
    assert(t.len() == d.len() + 1);
    assert(t[d.len() as int] == 10u8 as char);
    assert(!is_white(t[0]));
    assert(is_white(rest[0]));
    assert(skip_white(t) == t);
    assert(skip_white(rest) == t);
    lemma_word_end(t, d.len());
    assert(t.take(d.len() as int) =~= ascii(d));
    assert(ascii(d)[0] != '+') by {
        assert(is_digit(t[0]));
    }
}

proof fn lemma_line_len(b: Seq<u8>, k: nat)
    requires
        k < b.len(),
        forall|i: int| 0 <= i < k ==> #[trigger] b[i] != 10,
        b[k as int] == 10,
    ensures
        line_len(b) == k + 1,
    decreases k,
{
    if k > 0 {
        assert(b[0] != 10);
        let t = b.skip(1);
        assert forall|i: int| 0 <= i < k - 1 implies #[trigger] t[i] != 10 by {
            assert(t[i] == b[i + 1]);
        }
        lemma_line_len(t, (k - 1) as nat);
    }
}

/// What is sent is received: the bytes of a record, followed by anything,
/// decode to that record, and to no byte more.
pub proof fn law_record_round_trip(rec: RecView, rest: Seq<u8>)
    requires
        sendable(rec),
    ensures
        first_record(rec_bytes(rec) + rest) == Ok::<Option<(RecView, nat)>, RecError>(
            Some((rec, rec_bytes(rec).len())),
        ),
{
    let (kind, len, body): (u32, nat, Seq<u8>) = match rec {
        RecView::Data(b) => (KIND_DATA, b.len(), b),
        RecView::Close => (KIND_CLOSE, 0nat, Seq::empty()),
        RecView::Credit(k) => (KIND_CREDIT, k as nat, Seq::empty()),
        RecView::ConsumerClose => (KIND_CONSUMER_CLOSE, 0nat, Seq::empty()),
    };
    let line = header_line(kind, len);
    let all = rec_bytes(rec) + rest;
    assert(rec_bytes(rec) =~= line + body);
    assert(all =~= line + body + rest);
    lemma_dec_bytes(kind as nat);
    lemma_dec_bytes(len);
    assert(dec_bytes(kind as nat).len() == 1);
    assert forall|i: int| 0 <= i < line.len() - 1 implies #[trigger] all[i] != 10 by {
        assert(all[i] == line[i]);
        if i >= 2 {
            assert(line[i] == dec_bytes(len)[i - 2]);
        }
    }
    assert(all[line.len() - 1] == 10);
    lemma_line_len(all, (line.len() - 1) as nat);
    assert(all.take(line.len() as int) =~= line);
    lemma_header_line(kind, len);
    assert(all.subrange(line.len() as int, (line.len() + body.len()) as int) =~= body);
}

} // verus!

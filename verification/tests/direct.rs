use authority_fabric::data_pipe::direct::{
    decode, encode, put_record, Rec, RecError, KIND_CREDIT, KIND_DATA, MAX_DATA,
};

/// A stream of records, read one after the other.
struct Stream<'a> {
    rest: &'a [u8],
}

impl<'a> Stream<'a> {
    fn new(rest: &'a [u8]) -> Self {
        Stream { rest }
    }

    fn next(&mut self) -> Result<Option<Rec>, RecError> {
        match decode(self.rest)? {
            Some((rec, n)) => {
                self.rest = &self.rest[n..];
                Ok(Some(rec))
            }
            None => Ok(None),
        }
    }
}

fn roundtrip(rec: &Rec) -> Rec {
    let mut buf: Vec<u8> = Vec::new();
    encode(&mut buf, rec).unwrap();
    let mut br = Stream::new(&buf[..]);
    br.next().unwrap().expect("record")
}

#[test]
fn data_roundtrip() {
    assert_eq!(
        roundtrip(&Rec::Data(b"hello".to_vec())),
        Rec::Data(b"hello".to_vec())
    );
}

#[test]
fn close_roundtrip() {
    assert_eq!(roundtrip(&Rec::Close), Rec::Close);
}

#[test]
fn credit_roundtrip() {
    assert_eq!(roundtrip(&Rec::Credit(4096)), Rec::Credit(4096));
}

#[test]
fn consumer_close_roundtrip() {
    assert_eq!(roundtrip(&Rec::ConsumerClose), Rec::ConsumerClose);
}

/// unknown record kind fails closed.
#[test]
fn m1_unknown_kind_rejected() {
    let buf = b"9 0\n";
    let mut br = Stream::new(&buf[..]);
    assert!(br.next().is_err());
}

/// oversized DATA length rejected before allocation.
#[test]
fn m2_oversized_data_len_rejected() {
    let buf = format!("{} {}\n", KIND_DATA, usize::MAX).into_bytes();
    let mut br = Stream::new(&buf[..]);
    assert!(br.next().is_err());
}

/// truncated header (no len) rejected.
#[test]
fn m3_truncated_header_rejected() {
    let buf = format!("{}\n", KIND_DATA).into_bytes();
    let mut br = Stream::new(&buf[..]);
    assert!(br.next().is_err());
}

/// truncated DATA body: header parses but body read fails.
#[test]
fn m4_truncated_body_fails() {
    let mut buf: Vec<u8> = Vec::new();
    encode(&mut buf, &Rec::Data(vec![1, 2, 3])).unwrap();
    let mut br = Stream::new(&buf[..buf.len() - 1]); // cut last byte
    assert!(br.next().is_err());
}

/// zero credit delta rejected by the codec bound (delta must be
/// >=1), matching the tracker's no-zero-credit policy.
#[test]
fn m5_zero_credit_rejected() {
    let buf = format!("{} 0\n", KIND_CREDIT).into_bytes();
    let mut br = Stream::new(&buf[..]);
    assert!(br.next().is_err());
}

/// duplicate CLOSE decodes twice; idempotence is the caller's duty
/// (first terminal transition wins) - verified at the runtime layer.
#[test]
fn m6_duplicate_close_parses() {
    let mut buf: Vec<u8> = Vec::new();
    encode(&mut buf, &Rec::Close).unwrap();
    encode(&mut buf, &Rec::Close).unwrap();
    let mut br = Stream::new(&buf[..]);
    assert_eq!(br.next().unwrap(), Some(Rec::Close));
    assert_eq!(br.next().unwrap(), Some(Rec::Close));
    assert_eq!(br.next().unwrap(), None);
}

/// DATA after CLOSE parses at the codec layer; ordering enforcement
/// is the runtime's terminal-state machine responsibility.
#[test]
fn d9_data_after_close_parses_at_codec_layer() {
    let mut buf: Vec<u8> = Vec::new();
    encode(&mut buf, &Rec::Close).unwrap();
    encode(&mut buf, &Rec::Data(b"x".to_vec())).unwrap();
    let mut br = Stream::new(&buf[..]);
    assert_eq!(br.next().unwrap(), Some(Rec::Close));
    assert_eq!(br.next().unwrap(), Some(Rec::Data(b"x".to_vec())));
}

/// a closing record has no body, so no payload can ride in it.
#[test]
fn closing_records_carry_nothing() {
    for kind in [2, 4] {
        let bare = format!("{kind} 0\n");
        assert!(decode(bare.as_bytes()).unwrap().is_some());
        let short = format!("{kind}\n");
        assert!(decode(short.as_bytes()).unwrap().is_some());
        let laden = format!("{kind} 5\nhello");
        assert_eq!(decode(laden.as_bytes()).err(), Some(RecError::Invalid("close with a length")));
    }
}

/// A stream with a bound of its own carries credits that the pipe's refuses.
#[test]
fn unbounded_credit_is_written() {
    let mut buf = Vec::new();
    assert!(encode(&mut buf, &Rec::Credit(MAX_DATA + 1)).is_err());
    assert!(buf.is_empty());
    put_record(&mut buf, &Rec::Credit(MAX_DATA + 1));
    assert_eq!(buf, format!("{} {}\n", KIND_CREDIT, MAX_DATA + 1).into_bytes());
    let mut one = Vec::new();
    put_record(&mut one, &Rec::Data(b"ab".to_vec()));
    assert_eq!(one, format!("{} 2\nab", KIND_DATA).into_bytes());
}

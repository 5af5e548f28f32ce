use authority_fabric::data_pipe::credit::CreditError;
use authority_fabric::data_pipe::direct::{encode, parse_header, parse_header_within, Header, Rec, RecError};
use authority_fabric::data_pipe::roles::{Arrival, ConsumerRole, Heard, ProducerRole, Pull, Push, FIRST_SEED, HASH_BASIS};
use authority_fabric::shared::generate;

/// The payload, cut the way the producer cuts it.
fn expected(cap: usize, total: usize) -> Vec<u8> {
    let sizes = [1usize, 7, 17, 511, 4096, 8191, 32768, 65535.min(cap), 3, 1000];
    let mut out = Vec::new();
    let mut seed = FIRST_SEED;
    while out.len() < total {
        let n = sizes[out.len() % 10].min(total - out.len());
        let mut c = vec![0u8; n];
        generate(&mut c, seed);
        out.extend_from_slice(&c);
        seed ^= seed << 1;
    }
    out
}

fn hash(b: &[u8]) -> u64 {
    let mut h = HASH_BASIS;
    for x in b {
        h ^= *x as u64;
        h = h.wrapping_mul(0x1000_0000_01b3);
    }
    h
}

#[test]
fn producer_and_consumer_carry_the_payload() {
    let (cap, total) = (64, 1000);
    let mut p = ProducerRole::new(cap, total).unwrap();
    let mut c = ConsumerRole::new(cap, false);
    let mut stream = Vec::new();
    let mut outstanding = 0;
    loop {
        match p.next() {
            Push::Send(b) => {
                outstanding += b.len();
                assert!(outstanding <= cap);
                stream.extend_from_slice(&b);
                match c.on_arrival(Arrival::Record(Rec::Data(b))) {
                    Pull::Credit(k) => {
                        assert!(k >= cap / 4);
                        outstanding -= k;
                        assert_eq!(p.on_control(Some(Rec::Credit(k))), Heard::Credited);
                    }
                    other => assert_eq!(other, Pull::Read),
                }
            }
            Push::Close => {
                assert_eq!(c.on_arrival(Arrival::Record(Rec::Close)), Pull::Stop);
                break;
            }
            other => panic!("{other:?}"),
        }
    }
    assert_eq!(stream, expected(cap, total));
    assert_eq!(c.total(), total);
    assert_eq!(c.hash(), hash(&stream));
    assert_eq!(c.pending(), outstanding);
    assert!(c.orderly() && !c.peer_gone());
    assert_eq!(c.exit_code(), 0);
}

#[test]
fn producer_starts_with_one_byte_and_then_seven() {
    let mut p = ProducerRole::new(65536, 32768).unwrap();
    let mut lens = Vec::new();
    for _ in 0..4 {
        match p.next() {
            Push::Send(b) => lens.push(b.len()),
            other => panic!("{other:?}"),
        }
    }
    assert_eq!(lens, vec![1, 7, 3, 7]);
}

#[test]
fn producer_never_exceeds_the_capacity() {
    let mut p = ProducerRole::new(10, 100).unwrap();
    let mut out = 0;
    while let Push::Send(b) = p.next() {
        out += b.len();
    }
    assert_eq!(out, 10);
    assert_eq!(p.next(), Push::Wait);
    assert_eq!(p.on_control(Some(Rec::Credit(4))), Heard::Credited);
    assert!(matches!(p.next(), Push::Send(_)));
}

#[test]
fn forged_credit_and_departures_break_the_producer() {
    for (rec, heard) in [
        (Some(Rec::Credit(11)), Heard::ForgedCredit),
        (Some(Rec::ConsumerClose), Heard::ConsumerClosed),
        (Some(Rec::Close), Heard::PeerGone),
        (None, Heard::PeerGone),
    ] {
        let mut p = ProducerRole::new(10, 100).unwrap();
        while let Push::Send(_) = p.next() {}
        assert_eq!(p.on_control(rec), heard);
        assert_eq!(p.next(), Push::Broken);
    }
}

#[test]
fn producer_needs_capacity() {
    assert!(matches!(ProducerRole::new(0, 10), Err(CreditError::InvalidDelta)));
    let mut p = ProducerRole::new(8, 0).unwrap();
    assert_eq!(p.next(), Push::Close);
}

#[test]
fn holding_consumer_stages_and_returns_nothing() {
    let mut c = ConsumerRole::new(16, true);
    assert_eq!(c.on_arrival(Arrival::Record(Rec::Data(vec![1; 15]))), Pull::Read);
    assert_eq!(c.on_arrival(Arrival::Record(Rec::Data(vec![2]))), Pull::Drain);
    assert_eq!((c.staged(), c.pending(), c.total()), (16, 0, 16));
    assert!(c.peer_gone());
    assert_eq!(c.exit_code(), 5);
}

#[test]
fn unannounced_end_is_no_clean_finish() {
    let mut c = ConsumerRole::new(16, false);
    assert_eq!(c.on_arrival(Arrival::Record(Rec::Credit(3))), Pull::Read);
    assert_eq!(c.on_arrival(Arrival::Record(Rec::ConsumerClose)), Pull::Read);
    assert_eq!(c.on_arrival(Arrival::End), Pull::Stop);
    assert!(c.peer_gone());
    assert_eq!(c.exit_code(), 5);
    let mut c = ConsumerRole::new(16, false);
    assert_eq!(c.on_arrival(Arrival::Broken), Pull::Stop);
    assert!(!c.peer_gone() && !c.orderly());
    assert_eq!(c.exit_code(), 5);
    assert_eq!(c.hash(), HASH_BASIS);
}

#[test]
fn header_is_held_to_its_bound() {
    assert_eq!(parse_header_within(b"1 16\n", 16), Ok(Header::Data(16)));
    assert_eq!(
        parse_header_within(b"1 17\n", 16),
        Err(RecError::Invalid("data len out of bounds"))
    );
    assert_eq!(
        parse_header_within(b"3 17\n", 16),
        Err(RecError::Invalid("credit delta out of bounds"))
    );
    assert_eq!(parse_header_within(b"3 16", 16), Ok(Header::Credit(16)));
    assert_eq!(parse_header_within(b"4", 16), Ok(Header::ConsumerClose));
    assert_eq!(parse_header(b"2 0\n"), Ok(Header::Close));
}

#[test]
fn every_malformed_header_is_refused() {
    for (line, why) in [
        (&b"\n"[..], "missing kind"),
        (b"x 1\n", "bad kind"),
        (b"1 x\n", "bad len"),
        (b"1 0\n", "data len out of bounds"),
        (b"3 0\n", "credit delta out of bounds"),
        (b"9 1\n", "unknown kind"),
        (b"4294967296 1\n", "bad kind"),
    ] {
        assert_eq!(parse_header(line), Err(RecError::Invalid(why)), "{line:?}");
    }
    assert_eq!(parse_header(&[0xff, 0xfe, b'\n']), Err(RecError::NotText));
    // White space that is not ASCII separates words as well.
    assert_eq!(parse_header("1\u{2003}5\n".as_bytes()), Ok(Header::Data(5)));
    let mut w = Vec::new();
    encode(&mut w, &Rec::Credit(12)).unwrap();
    assert_eq!(w, b"3 12\n");
}

use authority_fabric::memstream::{mem_duplex, ReadStep};
use std::io::Read;

#[test]
fn datapipe_native_payload_eof_on_producer_death() {
    // When the only writer dies, the reader sees the end of the stream.
    let (mut rx, tx) = std::io::pipe().unwrap();
    drop(tx);
    let mut b = [0u8; 4];
    assert_eq!(rx.read(&mut b).unwrap(), 0, "writer death must yield EOF");
}

#[test]
fn datapipe_native_control_eof_on_consumer_death() {
    let (rx, tx) = std::io::pipe().unwrap();
    drop(rx);
    // With the only reader gone, write wakes/fails (broken pipe).
    let mut wtx: Box<dyn std::io::Write> = Box::new(tx);
    let res = wtx.write_all(b"ping");
    assert!(res.is_err() || res.is_ok()); // must not hang; error typical
}

/// A stream in memory behaves as the native one does.
#[test]
fn memory_stream_ends_when_the_link_closes() {
    let (mut a, mut b, mut link) = mem_duplex();
    assert!(a.write(&mut link, b"hi"));
    a.close_link(&mut link);
    assert!(!a.write(&mut link, b"more"));
    assert!(matches!(b.read(&mut link, 8), ReadStep::Bytes(v) if v == b"hi"));
    assert!(matches!(b.read(&mut link, 8), ReadStep::Bytes(v) if v.is_empty()));
}

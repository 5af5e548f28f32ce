use authority_fabric::memstream::{mem_duplex, ReadStep};

fn bytes(r: ReadStep) -> Vec<u8> {
    match r {
        ReadStep::Bytes(b) => b,
        ReadStep::Wait => panic!("nothing there"),
    }
}

#[test]
fn bytes_arrive_in_order_and_in_parts() {
    let (mut a, mut b, mut link) = mem_duplex();
    assert!(a.write(&mut link, b"hello"));
    assert!(a.write(&mut link, b"you"));
    assert_eq!(bytes(b.read(&mut link, 2)), b"he");
    assert_eq!(bytes(b.read(&mut link, 100)), b"llo");
    assert_eq!(bytes(b.read(&mut link, 0)), b"");
    assert_eq!(bytes(b.read(&mut link, 100)), b"you");
    assert!(matches!(b.read(&mut link, 1), ReadStep::Wait));
    // The other direction is a stream of its own.
    assert!(matches!(a.read(&mut link, 1), ReadStep::Wait));
    assert!(b.write(&mut link, b"x"));
    assert_eq!(bytes(a.read(&mut link, 1)), b"x");
}

#[test]
fn broken_link_drains_and_then_ends() {
    let (mut a, mut b, mut link) = mem_duplex();
    assert!(a.write(&mut link, b"last"));
    a.close_link(&mut link);
    assert!(!a.write(&mut link, b"more"));
    assert!(!b.write(&mut link, b"more"));
    assert_eq!(bytes(b.read(&mut link, 100)), b"last");
    assert_eq!(bytes(b.read(&mut link, 100)), b"");
    assert_eq!(bytes(a.read(&mut link, 100)), b"");
}

use authority_fabric::data_pipe::{Consumer, Pipe, PipeError, Producer, Step, MAX_PIPE_CAPACITY};

fn write(p: &mut Producer, pipe: &mut Pipe, data: &[u8]) -> Result<usize, PipeError> {
    match p.write(pipe, data)? {
        Step::Moved(n) => Ok(n),
        Step::Wait => panic!("the writer would wait forever"),
    }
}

fn read(c: &mut Consumer, pipe: &mut Pipe, dst: &mut [u8]) -> Result<usize, PipeError> {
    match c.read(pipe, dst)? {
        Step::Moved(n) => Ok(n),
        Step::Wait => panic!("the reader would wait forever"),
    }
}

#[test]
fn u1_empty_try_read_would_block() {
    let (_p, mut c, mut pipe) = Producer::new(16).unwrap();
    let mut b = [0u8; 4];
    assert_eq!(c.try_read(&mut pipe, &mut b), Err(PipeError::WouldBlock));
}

#[test]
fn u2_write_then_exact_read() {
    let (mut p, mut c, mut pipe) = Producer::new(16).unwrap();
    assert_eq!(p.try_write(&mut pipe, b"hello").unwrap(), 5);
    let mut b = [0u8; 5];
    assert_eq!(c.try_read(&mut pipe, &mut b).unwrap(), 5);
    assert_eq!(&b, b"hello");
}

#[test]
fn u3_partial_write_when_capacity_tight() {
    let (mut p, mut c, mut pipe) = Producer::new(4).unwrap();
    // 6 bytes into capacity 4 => Written(4), caller keeps rest.
    assert_eq!(p.try_write(&mut pipe, b"abcdef").unwrap(), 4);
    // drain to allow the remainder conceptually; remainder is CALLER's.
    let mut b = [0u8; 4];
    assert_eq!(c.try_read(&mut pipe, &mut b).unwrap(), 4);
    assert_eq!(&b, b"abcd");
    assert_eq!(p.try_write(&mut pipe, b"ef").unwrap(), 2); // retry by caller
}

#[test]
fn u4_partial_read_smaller_than_buffered() {
    let (mut p, mut c, mut pipe) = Producer::new(16).unwrap();
    p.try_write(&mut pipe, b"0123456789").unwrap();
    let mut b = [0u8; 3];
    assert_eq!(c.try_read(&mut pipe, &mut b).unwrap(), 3);
    assert_eq!(&b, b"012");
    let mut rest = [0u8; 7];
    assert_eq!(c.try_read(&mut pipe, &mut rest).unwrap(), 7);
    assert_eq!(&rest, b"3456789");
}

#[test]
fn u5_full_capacity_next_write_would_block() {
    let (mut p, mut _c, mut pipe) = Producer::new(4).unwrap();
    assert_eq!(p.try_write(&mut pipe, b"abcd").unwrap(), 4);
    assert_eq!(p.try_write(&mut pipe, b"x"), Err(PipeError::WouldBlock));
}

#[test]
fn u6_read_frees_capacity_writer_writable_again() {
    let (mut p, mut c, mut pipe) = Producer::new(2).unwrap();
    p.try_write(&mut pipe, b"ab").unwrap();
    assert_eq!(p.try_write(&mut pipe, b"c"), Err(PipeError::WouldBlock));
    let mut b = [0u8; 1];
    c.try_read(&mut pipe, &mut b).unwrap();
    assert_eq!(p.try_write(&mut pipe, b"c").unwrap(), 1);
}

#[test]
fn u7_producer_close_preserves_buffered_bytes() {
    let (mut p, mut c, mut pipe) = Producer::new(16).unwrap();
    p.try_write(&mut pipe, b"ABCDEF").unwrap();
    p.close_write(&mut pipe);
    let mut b = [0u8; 6];
    assert_eq!(c.try_read(&mut pipe, &mut b).unwrap(), 6);
    assert_eq!(&b, b"ABCDEF");
}

#[test]
fn u8_after_drain_eof_then_stays_eof() {
    let (mut p, mut c, mut pipe) = Producer::new(16).unwrap();
    p.try_write(&mut pipe, b"xy").unwrap();
    p.close_write(&mut pipe);
    let mut b = [0u8; 2];
    assert_eq!(read(&mut c, &mut pipe, &mut b).unwrap(), 2);
    assert_eq!(read(&mut c, &mut pipe, &mut b).unwrap(), 0, "EOF");
    assert_eq!(read(&mut c, &mut pipe, &mut b).unwrap(), 0, "EOF stable");
}

#[test]
fn u9_consumer_close_breaks_producer_permanently() {
    let (mut p, mut c, mut pipe) = Producer::new(16).unwrap();
    c.close_read(&mut pipe);
    assert_eq!(p.try_write(&mut pipe, b"z"), Err(PipeError::Broken));
    assert_eq!(write(&mut p, &mut pipe, b"z"), Err(PipeError::Broken));
}

#[test]
fn u10_ordering_exact_under_variable_chunks() {
    // Single-threaded ping-pong: bounded pipe forces interleaved
    // partial writes/reads; ordering must survive both.
    let (mut p, mut c, mut pipe) = Producer::new(7).unwrap();
    let payload: Vec<u8> = (0..=255u8).collect();
    let mut sent = 0usize;
    let mut got = Vec::new();
    let mut rb = [0u8; 5];
    while sent < payload.len() || got.len() < payload.len() {
        if sent < payload.len() {
            sent += p.try_write(&mut pipe, &payload[sent..]).unwrap_or(0);
        }
        let n = read(&mut c, &mut pipe, &mut rb).unwrap_or(0);
        got.extend_from_slice(&rb[..n]);
    }
    assert_eq!(got, payload);
}

#[test]
fn u11_zero_length_ops_defined() {
    let (mut p, mut c, mut pipe) = Producer::new(4).unwrap();
    assert_eq!(p.try_write(&mut pipe, &[]).unwrap(), 0);
    let mut none = [];
    assert_eq!(c.try_read(&mut pipe, &mut none).unwrap(), 0);
    // zero-len read never means EOF even when empty+open:
    let mut e = [];
    assert_eq!(read(&mut c, &mut pipe, &mut e).unwrap(), 0);
}

#[test]
fn u12_zero_capacity_rejected() {
    assert_eq!(Producer::new(0).err(), Some(PipeError::InvalidCapacity));
}

#[test]
fn u13_oversized_capacity_rejected_checked() {
    assert_eq!(
        Producer::new(MAX_PIPE_CAPACITY + 1).err(),
        Some(PipeError::InvalidCapacity)
    );
    assert_eq!(
        Producer::new(usize::MAX).err(),
        Some(PipeError::InvalidCapacity)
    );
}

#[test]
fn u14_no_hidden_pending_queue_bound_holds_after_every_op() {
    let (mut p, mut c, mut pipe) = Producer::new(64).unwrap();
    let mut total_in = 0usize;
    let mut total_out = 0usize;
    for i in 0..10_000u32 {
        let chunk = [(i & 0xff) as u8; 37];
        total_in += write(&mut p, &mut pipe, &chunk).unwrap();
        let mut b = [0u8; 23];
        total_out += read(&mut c, &mut pipe, &mut b).unwrap_or(0);
        // structural bound: internal buffer can never exceed capacity
        assert!(total_in - total_out <= 64 + 37);
    }
    c.close_read(&mut pipe);
    p.close_write(&mut pipe);
}

/// closing an end that is closed already changes nothing, and the other end
/// sees what it saw before.
#[test]
fn second_close_changes_nothing() {
    let (mut p, mut c, mut pipe) = Producer::new(8).unwrap();
    p.try_write(&mut pipe, b"abc").unwrap();
    p.close_write(&mut pipe);
    p.close_write(&mut pipe);
    assert_eq!(pipe.buffered(), 3);
    assert_eq!(p.try_write(&mut pipe, b"x"), Err(PipeError::Closed));
    let mut b = [0u8; 2];
    assert_eq!(c.try_read(&mut pipe, &mut b), Ok(2));
    p.close_write(&mut pipe);
    assert_eq!(c.try_read(&mut pipe, &mut b), Ok(1));
    assert_eq!(c.try_read(&mut pipe, &mut b), Ok(0));
    assert_eq!(c.try_read(&mut pipe, &mut b), Ok(0));

    let (mut p, mut c, mut pipe) = Producer::new(8).unwrap();
    p.try_write(&mut pipe, b"abc").unwrap();
    c.close_read(&mut pipe);
    assert_eq!(pipe.buffered(), 0);
    c.close_read(&mut pipe);
    let mut b = [0u8; 2];
    assert_eq!(c.try_read(&mut pipe, &mut b), Err(PipeError::Closed));
    assert_eq!(p.try_write(&mut pipe, b"x"), Err(PipeError::Broken));
    assert_eq!(write(&mut p, &mut pipe, b"x"), Err(PipeError::Broken));
    p.close_write(&mut pipe);
    assert_eq!(p.try_write(&mut pipe, b"x"), Err(PipeError::Closed));
}

/// over any series of writes and reads, what went in comes out.
#[test]
fn stream_is_carried_over_a_series() {
    let (mut p, mut c, mut pipe) = Producer::new(5).unwrap();
    let (mut put, mut got) = (Vec::new(), Vec::new());
    for i in 0..200usize {
        if i % 3 != 2 {
            let data: Vec<u8> = (0..i % 7).map(|k| (i + k) as u8).collect();
            if let Ok(n) = p.try_write(&mut pipe, &data) {
                put.extend_from_slice(&data[..n]);
            }
        } else {
            let mut b = vec![0u8; i % 4];
            if let Ok(n) = c.try_read(&mut pipe, &mut b) {
                got.extend_from_slice(&b[..n]);
            }
        }
        assert!(put.starts_with(&got));
        assert_eq!(put.len() - got.len(), pipe.buffered());
    }
    assert!(got.len() > 50);
}

use authority_fabric::data_pipe::registry::{PipeRole, PipeTable};
use authority_fabric::data_pipe::{Consumer, Pipe, Producer, Step};
use authority_fabric::id::TransferId;
use authority_fabric::router::PeerId;

fn tid(n: u8) -> TransferId {
    TransferId([n; 16])
}

fn write(p: &mut Producer, pipe: &mut Pipe, data: &[u8]) {
    assert_eq!(p.write(pipe, data), Ok(Step::Moved(data.len())));
}

fn read(c: &mut Consumer, pipe: &mut Pipe, dst: &mut [u8]) -> usize {
    match c.read(pipe, dst) {
        Ok(Step::Moved(n)) => n,
        other => panic!("{other:?}"),
    }
}

/// The holder of the producer changes in mid-stream.
#[test]
fn stream_continues_under_another_producer() {
    let (mut p, mut c, mut pipe) = Producer::new(4096).unwrap();
    let id = p.id();
    write(&mut p, &mut pipe, b"PREFIX-");
    let mut moved = p;
    write(&mut moved, &mut pipe, b"SUFFIX");
    moved.close_write(&mut pipe);
    assert_eq!(moved.id(), id);
    assert_eq!(moved.capacity(), 4096);
    let mut got = Vec::new();
    loop {
        let mut buf = [0u8; 64];
        let n = read(&mut c, &mut pipe, &mut buf);
        if n == 0 {
            break;
        }
        got.extend_from_slice(&buf[..n]);
    }
    assert_eq!(got, b"PREFIX-SUFFIX");
}

/// The holder of the consumer changes in mid-stream.
#[test]
fn reading_resumes_at_the_unread_position() {
    let (mut p, mut c, mut pipe) = Producer::new(1024).unwrap();
    write(&mut p, &mut pipe, b"0123456789");
    let mut head = [0u8; 4];
    assert_eq!(read(&mut c, &mut pipe, &mut head), 4);
    assert_eq!(&head, b"0123");
    write(&mut p, &mut pipe, b"ABCDEF");
    p.close_write(&mut pipe);
    let mut moved = c;
    let mut out = Vec::new();
    loop {
        let mut buf = [0u8; 8];
        let n = read(&mut moved, &mut pipe, &mut buf);
        if n == 0 {
            break;
        }
        out.extend_from_slice(&buf[..n]);
    }
    assert_eq!(out, b"456789ABCDEF");
}

#[test]
fn registry_abort_restores_and_sender_continues() {
    let mut table = PipeTable::new();
    let (mut p, mut c, mut pipe) = Producer::new(512).unwrap();
    let pid = p.id();
    table.create(pid, 512, PeerId(1), PeerId(2)).unwrap();

    write(&mut p, &mut pipe, b"before-");

    // Escrow A->B, then the recipient fails pre-commit: abort restores A.
    table
        .offer_transfer(&pid, PipeRole::Producer, tid(1), PeerId(1), PeerId(3))
        .unwrap();
    assert_eq!(table.producer_holder(&pid), None);
    table
        .abort_transfer(PipeRole::Producer, tid(1), PeerId(1))
        .unwrap();
    assert_eq!(table.producer_holder(&pid), Some(PeerId(1)));

    // Restored A continues the same stream unchanged, then closes orderly.
    write(&mut p, &mut pipe, b"after");
    p.close_write(&mut pipe);

    let mut got = Vec::new();
    loop {
        let mut buf = [0u8; 32];
        let n = read(&mut c, &mut pipe, &mut buf);
        if n == 0 {
            break;
        }
        got.extend_from_slice(&buf[..n]);
    }
    assert_eq!(got, b"before-after");
}

#[test]
fn registry_commit_join_is_order_independent_single_mint() {
    let mut table = PipeTable::new();
    let pid = authority_fabric::data_pipe::PipeId([9u8; 16]);
    table.create(pid, 64, PeerId(1), PeerId(2)).unwrap();
    table
        .offer_transfer(&pid, PipeRole::Consumer, tid(3), PeerId(2), PeerId(5))
        .unwrap();
    table
        .offer_transfer(&pid, PipeRole::Producer, tid(4), PeerId(1), PeerId(4))
        .unwrap();
    // Reverse-order commit of both arcs mints each authority exactly once.
    table.commit_transfer(PipeRole::Consumer, tid(3)).unwrap();
    table.commit_transfer(PipeRole::Producer, tid(4)).unwrap();
    assert_eq!(
        (table.producer_holder(&pid), table.consumer_holder(&pid)),
        (Some(PeerId(4)), Some(PeerId(5)))
    );
}

#[test]
fn registry_10k_churn_bounded() {
    // 10,000 full create -> offer -> commit -> retire arcs. Table size,
    // retirement ledger, and authority count must stay bounded throughout;
    // no state may grow with cycle count.
    let mut table = PipeTable::new();
    for i in 0..10_000u32 {
        let mut b = [0u8; 16];
        b[..4].copy_from_slice(&i.to_be_bytes());
        let pid = authority_fabric::data_pipe::PipeId(b);
        table.create(pid, 64, PeerId(1), PeerId(2)).unwrap();
        assert_eq!(table.live(), 1);
        table
            .offer_transfer(
                &pid,
                PipeRole::Producer,
                tid((i % 251) as u8 + 1),
                PeerId(1),
                PeerId(7),
            )
            .unwrap();
        assert_eq!(table.producer_holder(&pid), None);
        assert_eq!(
            table.commit_transfer(PipeRole::Producer, tid((i % 251) as u8 + 1)),
            Ok(pid)
        );
        assert_eq!(table.producer_holder(&pid), Some(PeerId(7)));
        table.retire(&pid, PeerId(7)).unwrap();
        assert_eq!(table.live(), 0);
        assert!(table.retired_len() <= authority_fabric::data_pipe::PIPE_RETIRE_CAP);
    }
}

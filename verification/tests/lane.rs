use authority_fabric::bench::{mib_per_s, parse_command, seed_of, sizes, touch, Command};
use authority_fabric::frame::FrameError;
use authority_fabric::id::{NoneTaken, TransferId};
use authority_fabric::native::{check_lane, fresh_resource_id, lane_note, read_lane_note, LaneErr, ResourceId};
use authority_fabric::shared::{fnv64, fill_pattern, generate, slice_bounds, SharedRegion, ViewErr};
use authority_fabric::{Cause, FabError, Limits};

#[test]
fn lane_note_round_trip() {
    let mut t = [0u8; 16];
    let mut r = [0u8; 16];
    for i in 0..16u8 {
        t[i as usize] = i;
        r[i as usize] = 100 + i;
    }
    let n = lane_note(TransferId(t), ResourceId(r));
    assert_eq!(n[..16], t);
    assert_eq!(n[16..], r);
    assert_eq!(read_lane_note(&n), (TransferId(t), ResourceId(r)));
}

#[test]
fn lane_takes_exactly_one_descriptor() {
    assert_eq!(check_lane(1, 1), Ok(()));
    assert_eq!(check_lane(0, 1), Err(LaneErr::Closed));
    assert_eq!(check_lane(1, 0), Err(LaneErr::Missing));
    assert_eq!(check_lane(1, 3), Err(LaneErr::TooMany(3)));
    assert_eq!(LaneErr::Closed.message(), "lane closed");
    assert_eq!(LaneErr::Missing.message(), "no SCM_RIGHTS in message");
    assert_eq!(LaneErr::TooMany(12).message(), "expected 1 descriptor, got 12");
}

#[test]
fn drawn_resources_differ() {
    let a = fresh_resource_id(&NoneTaken).unwrap();
    let b = fresh_resource_id(&NoneTaken).unwrap();
    assert!(!a.is_zero());
    assert_ne!(a, b);
}

#[test]
fn content_hash_is_fnv1a() {
    assert_eq!(fnv64(b""), 0xcbf2_9ce4_8422_2325);
    assert_eq!(fnv64(b"a"), 0xaf63_dc4c_8601_ec8c);
    assert_eq!(fnv64(b"foobar"), 0x8594_4171_f739_67e8);
}

#[test]
fn pattern_never_starts_from_zero() {
    let mut a = [0u8; 8];
    fill_pattern(&mut a, 0);
    let mut b = [0u8; 8];
    fill_pattern(&mut b, 1);
    assert_eq!(a, b);
    assert!(a.iter().any(|x| *x != 0));
    // One step from 1: 1 ^ (1 << 13) = 0x2001, ^ >> 7 = 0x2041, ^ << 17.
    assert_eq!(a[0], 0x41);
}

#[test]
fn pattern_is_never_blank() {
    // The generator gives a zero byte first for this seed.
    let mut raw = [9u8; 1];
    generate(&mut raw, 0x6081);
    assert_eq!(raw, [0]);
    let mut one = [9u8; 1];
    fill_pattern(&mut one, 0x6081);
    assert_eq!(one, [1]);
    // A longer pattern that is not blank is left as it is.
    let mut raw = [9u8; 4];
    generate(&mut raw, 0x6081);
    let mut four = [9u8; 4];
    fill_pattern(&mut four, 0x6081);
    assert_eq!(four, raw);
    for seed in 0..2000 {
        let mut b = [0u8; 1];
        fill_pattern(&mut b, seed);
        assert_ne!(b, [0]);
    }
    fill_pattern(&mut [], 7);
}

#[test]
fn region_size_is_bounded() {
    let lim = Limits { max_region_size: 4096, ..Limits::default() };
    assert!(matches!(SharedRegion::create(0, &lim), Err(ViewErr::SizeOutOfBounds)));
    assert!(matches!(SharedRegion::create(4097, &lim), Err(ViewErr::SizeOutOfBounds)));
    let r = SharedRegion::create(4096, &lim).unwrap();
    assert_eq!(r.size(), 4096);
    assert_eq!(r.map_read_write(), Ok(4096));
    let (id, rights, size) = r.into_backing();
    let back = SharedRegion::from_backing(id, rights, size);
    assert_eq!((back.id(), back.rights(), back.map_read_only()), (id, rights, 4096));
}

#[test]
fn slice_stays_inside_the_mapping() {
    assert_eq!(slice_bounds(10, 2, 8), Ok((2, 10)));
    assert_eq!(slice_bounds(10, 10, 0), Ok((10, 10)));
    assert_eq!(slice_bounds(10, 2, 9), Err(ViewErr::BeyondRegion));
    assert_eq!(slice_bounds(10, 1, usize::MAX), Err(ViewErr::RangeOverflow));
    for (e, m) in [
        (ViewErr::SizeOutOfBounds, "region size out of bounds"),
        (ViewErr::NotWritable, "read-only capability cannot map writable"),
        (ViewErr::RangeOverflow, "offset+len overflow"),
        (ViewErr::BeyondRegion, "mapping extends beyond region"),
        (ViewErr::NoIdentity, "OS entropy source failed"),
    ] {
        assert_eq!(e.message(), m);
    }
}

#[test]
fn errors_read_as_sentences() {
    for (e, m) in [
        (FabError::Closed(Cause::PeerLost), "endpoint closed (PeerLost)"),
        (FabError::StaleEndpoint, "stale endpoint identity"),
        (
            FabError::Backpressured { queued_msgs: 3, queued_bytes: 40 },
            "backpressured (3 msgs, 40 bytes queued)",
        ),
        (FabError::Timeout, "operation timed out"),
        (FabError::FabricLost, "fabric transport lost"),
        (FabError::ProtocolViolation("x"), "protocol violation: x"),
        (FabError::InvalidMessage("y"), "invalid message payload: y"),
        (FabError::TransferAborted("z"), "transfer aborted: z"),
        (FabError::TransferUnknown, "transfer outcome unknown"),
        (FabError::NoIdentity, "no identity could be drawn"),
    ] {
        assert_eq!(e.message(), m);
    }
    let io = FabError::from(std::io::Error::new(std::io::ErrorKind::Other, "pipe gone"));
    assert_eq!(io.message(), "io error: pipe gone");
    for (e, m) in [
        (FrameError::Truncated, "frame truncated"),
        (FrameError::TooLarge { declared: 70000, cap: 65536 }, "declared frame 70000 exceeds cap 65536"),
        (FrameError::UnknownKind(200), "unknown frame kind 200"),
        (FrameError::BadMagic(0x0a5f), "bad hello magic 0x0a5f"),
        (FrameError::BadVersion(7), "bad protocol version 7"),
        (FrameError::AttachCountExceedsLimit(17), "17 attachments exceeds limit"),
        (FrameError::DuplicateAttachment, "duplicate attachment id in one frame"),
        (FrameError::BodyTooShort, "frame body shorter than its own header claims"),
    ] {
        assert_eq!(e.message(), m);
    }
}

#[test]
fn benchmark_arithmetic() {
    assert_eq!(touch(&[]), 0);
    assert_eq!(touch(&[1]), 2);
    assert_eq!(touch(&[1, 2]), 8);
    assert_eq!(seed_of(0), 0xDEAD_BEEF);
    assert_eq!(seed_of(1), 0x9E37_79B9_7F4A_7C15 ^ 0xDEAD_BEEF);
    assert_eq!(mib_per_s(1048576, 1_000_000), 1);
    assert_eq!(mib_per_s(4194304, 0), 4_000_000);
    assert_eq!(mib_per_s(4096, 1), 3906);
    assert_eq!(sizes().len(), 5);
    assert_eq!(sizes()[3], ("4MiB", 4194304, 150));
}

#[test]
fn benchmark_commands_are_read() {
    assert_eq!(parse_command("SYNC\n"), Command::Sync);
    assert_eq!(parse_command("  GO 4096 \n"), Command::Go(4096));
    assert_eq!(parse_command("COPY 67108864 more"), Command::Copy(67108864));
    assert_eq!(
        parse_command("MAPW 18446744073709551615 4096"),
        Command::MapHandle { value: Some(u64::MAX), size: Some(4096) }
    );
    assert_eq!(
        parse_command("MAPU 17 3 65536\n"),
        Command::MapFile { pid: Some(17), fd: Some(3), size: Some(65536) }
    );
    assert_eq!(
        parse_command("MAPU 17 -1 x"),
        Command::MapFile { pid: Some(17), fd: None, size: None }
    );
    assert_eq!(parse_command("QUIT"), Command::Quit);
    assert_eq!(parse_command("QUITE"), Command::Unknown);
    assert_eq!(parse_command("sync"), Command::Unknown);
    assert_eq!(parse_command(" \n"), Command::Malformed);
    assert_eq!(parse_command("GO"), Command::Malformed);
    assert_eq!(parse_command("COPY all"), Command::Malformed);
    assert_eq!(parse_command("MAPW 1"), Command::Malformed);
    assert_eq!(parse_command("MAPU 1 2"), Command::Malformed);
}

use authority_fabric::fabric_error::Cause;
use authority_fabric::frame::{
    decode, decode_rest, encode, read_prefix, Attachment, DataInner, Frame, FrameError, XferMsg,
    ERR_CAPACITY, KIND_DATA, KIND_SHUTDOWN, XFER_ST_COMMITTED,
};
use authority_fabric::id::{EpId, TransferId};
use authority_fabric::limits::Limits;
use authority_fabric::native::ResourceId;
use std::io::Read;

fn lim() -> Limits {
    Limits { max_frame_body: 128, ..Limits::default() }
}

fn ep(n: u8) -> EpId {
    let mut b = [0u8; 16];
    b[15] = n;
    EpId(b)
}
fn tid(n: u8) -> TransferId {
    let mut b = [0u8; 16];
    b[15] = n;
    TransferId(b)
}

#[test]
fn roundtrip_all_kinds() {
    let l = lim();
    let frames = vec![
        Frame::Hello { magic: 0x5345, version: 2 },
        Frame::Data(DataInner {
            target: ep(7),
            corr: 9,
            attachments: vec![Attachment { tid: tid(1), id: ep(100), partner: ep(101) }],
            payload: vec![1, 2, 3],
            native: None,
                shared: None,
        }),
        Frame::Close { target: ep(7) },
        Frame::ClosedNotify {
            entries: vec![(ep(1), Cause::Graceful), (ep(2), Cause::PeerLost)],
        },
        Frame::Grant { ep: ep(10), partner: ep(11), tid: tid(3) },
        Frame::Create,
        Frame::CreateAck { impl_ep: ep(12), transferable_ep: ep(13) },
        Frame::Error(ERR_CAPACITY),
        Frame::Shutdown,
        Frame::Xfer(XferMsg::Accept { tid: tid(4) }),
        Frame::Xfer(XferMsg::Commit { tid: tid(5), ep: ep(6), partner: ep(7) }),
        Frame::Xfer(XferMsg::StatusAck { tid: tid(8), status: XFER_ST_COMMITTED }),
    ];
    for f in frames {
        let buf = encode(&f);
        assert_eq!(decode(&buf, &l).unwrap(), f);
    }
}

#[test]
fn oversized_declared_len_rejected_before_body() {
    let l = lim();
    let mut buf = Vec::new();
    buf.extend_from_slice(&(1u32 << 30).to_le_bytes()); // huge declared
    buf.push(KIND_SHUTDOWN);
    match decode(&buf, &l) {
        Err(FrameError::TooLarge { declared, cap }) => {
            assert_eq!(cap, 128);
            assert_eq!(declared, 1 << 30);
        }
        other => panic!("expected TooLarge, got {other:?}"),
    }
}

#[test]
fn truncated_frames_rejected() {
    let l = lim();
    let buf = encode(&Frame::Hello { magic: 1, version: 1 });
    for cut in [0usize, 1, 3, 4, buf.len() - 1] {
        assert_eq!(
            decode(&buf[..cut.min(buf.len())], &l),
            Err(FrameError::Truncated),
            "cut at {cut}"
        );
    }
}

#[test]
fn ascii_stdout_pollution_is_oversized_not_a_frame() {
    // "CLIENT_OK\n" on the protocol pipe: first 4 bytes are ASCII
    // 'C','L','I','E' = 0x45494C43 >> 64KiB cap.
    let l = lim();
    let buf = b"CLIENT_OK\n";
    match decode(buf, &l) {
        Err(FrameError::TooLarge { declared, .. }) => {
            assert_eq!(declared, u32::from_le_bytes(*b"CLIE"));
        }
        other => panic!("expected TooLarge, got {other:?}"),
    }
}

#[test]
fn unknown_kind_rejected() {
    let l = lim();
    let mut buf = Vec::new();
    buf.extend_from_slice(&1u32.to_le_bytes());
    buf.push(200);
    buf.push(0);
    assert_eq!(decode(&buf, &l), Err(FrameError::UnknownKind(200)));
}

#[test]
fn attach_count_over_limit_rejected() {
    let l = Limits { max_attachments: 2, max_frame_body: 4096, ..lim() };
    let mut buf = Vec::new();
    let body_len = 16 + 4 + 1 + 3 * 48 + 1;
    buf.extend_from_slice(&((1 + body_len) as u32).to_le_bytes());
    buf.push(KIND_DATA);
    buf.extend_from_slice(&[0u8; 15]);
    buf.push(7);
    buf.extend_from_slice(&0u32.to_le_bytes());
    buf.push(3); // declares 3 > limit 2
    for i in 0..3u8 {
        buf.extend_from_slice(&[0u8; 15]);
        buf.push(i); // tid
        buf.extend_from_slice(&[0u8; 15]);
        buf.push(i); // id
        buf.extend_from_slice(&[0u8; 15]);
        buf.push(i.saturating_add(50)); // partner
    }
    buf.push(0); // has_native = 0
    assert_eq!(
        decode(&buf, &l),
        Err(FrameError::AttachCountExceedsLimit(3))
    );
}

#[test]
fn duplicate_attachment_rejected() {
    let l = lim();
    let mut buf = Vec::new();
    let body_len = 16 + 4 + 1 + 2 * 48 + 1;
    buf.extend_from_slice(&((1 + body_len) as u32).to_le_bytes());
    buf.push(KIND_DATA);
    buf.extend_from_slice(&[0u8; 15]);
    buf.push(7);
    buf.extend_from_slice(&0u32.to_le_bytes());
    buf.push(2);
    for _ in 0..2 {
        buf.extend_from_slice(&[0u8; 16]); // tid
        buf.extend_from_slice(&[0u8; 15]);
        buf.push(99); // duplicate id
        buf.extend_from_slice(&[0u8; 15]);
        buf.push(100);
    }
    buf.push(0); // has_native = 0
    assert_eq!(decode(&buf, &l), Err(FrameError::DuplicateAttachment));
}

/// Mock reader that fails the test if anyone attempts to read more than
/// the cap allows — proves allocation never follows hostile length.
struct GuardedReader {
    data: Vec<u8>,
    pos: usize,
    max_read: usize,
}
impl Read for GuardedReader {
    fn read(&mut self, out: &mut [u8]) -> std::io::Result<usize> {
        let n = out.len().min(self.data.len() - self.pos);
        self.max_read = self.max_read.max(n);
        out[..n].copy_from_slice(&self.data[self.pos..self.pos + n]);
        self.pos += n;
        Ok(n)
    }
}

/// Reads one frame from a stream: the declared length first, and what it
/// declares only if that is within the cap.
fn read_frame(r: &mut GuardedReader, lim: &Limits) -> Result<Frame, FrameError> {
    let mut prefix = [0u8; 4];
    r.read_exact(&mut prefix).map_err(|_| FrameError::Truncated)?;
    let declared = read_prefix(&prefix, lim)?;
    let mut rest = vec![0u8; declared as usize];
    r.read_exact(&mut rest).map_err(|_| FrameError::Truncated)?;
    decode_rest(&rest, lim)
}

#[test]
fn streaming_reader_never_reads_beyond_cap() {
    let l = lim();
    // Declared 2GB, but stream only contains the header. Reader must bail
    // on the cap check without attempting a giant read.
    let mut g = GuardedReader { data: vec![], pos: 0, max_read: 0 };
    g.data.extend_from_slice(&(1u32 << 31).to_le_bytes());
    g.data.push(KIND_SHUTDOWN);
    assert!(matches!(
        read_frame(&mut g, &l),
        Err(FrameError::TooLarge { .. })
    ));
    assert!(g.max_read <= 5, "reader consumed {} bytes", g.max_read);
}

#[test]
fn native_abort_may_name_the_object() {
    // With the object: length, kind, sub-kind, transfer, resource, value.
    let object = Some((ResourceId([3; 16]), 0x1122));
    let f = Frame::Xfer(XferMsg::NativeAbort { tid: tid(1), object });
    let buf = encode(&f);
    assert_eq!(buf.len(), 4 + 1 + 1 + 16 + 16 + 8);
    assert_eq!(f.cost(), 46);
    assert_eq!(decode(&buf, &lim()).unwrap(), f);
    assert!(decode(&buf[..buf.len() - 1], &lim()).is_err());
    // The transfer alone.
    let f = Frame::Xfer(XferMsg::NativeAbort { tid: tid(1), object: None });
    let mut bytes = vec![18, 0, 0, 0, 10, 10];
    bytes.extend_from_slice(&tid(1).0);
    assert_eq!(encode(&f), bytes);
    assert_eq!(f.cost(), 22);
    assert_eq!(decode(&bytes, &lim()).unwrap(), f);
    // Too little behind the transfer to name an object is ignored.
    let mut longer = bytes.clone();
    longer[0] += 23;
    longer.extend_from_slice(&[9; 23]);
    assert_eq!(decode(&longer, &lim()).unwrap(), f);
}

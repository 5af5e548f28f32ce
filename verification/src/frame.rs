//! Wire frames, in a hand-written bounded encoding.
//!
//! Layout on the wire:
//!
//! ```text
//! u32le body_len          (body_len <= limits.max_frame_body, checked pre-allocation)
//! u8   kind
//! ... kind-specific body
//! ```
//!
//! Kinds:
//! - `Hello        (1)`: u16 magic | u16 version                      child -> host once
//! - `Data         (2)`: 16B target | u32 corr | u8 natt |
//!                       natt*(16B tid | 16B id | 16B partner) |
//!                       u8 flags (1 = native, 2 = shared) |
//!                       native? 16B tid | 16B rid | u64 handle |
//!                       shared? 16B tid | 16B rid | u8 rights | u64 handle | payload
//! - `Close        (3)`: 16B target
//! - `ClosedNotify (4)`: u16 count | count*(16B id | u8 cause)
//! - `Grant        (5)`: 16B ep | 16B partner | 16B tid               host -> peer (offer)
//! - `Create       (6)`: empty
//! - `Shutdown     (7)`: empty
//! - `CreateAck    (8)`: 16B impl | 16B transferable                  host -> peer
//! - `Error        (9)`: u8 code
//! - `Xfer        (10)`: u8 sub | 16B tid | optional ids              transfer control

use vstd::prelude::*;

use crate::bytes::{get_le, le_bytes, le_value, put_le};
use crate::fabric_error::Cause;
use crate::id::{EpId, TransferId};
use crate::limits::Limits;
use crate::native::ResourceId;
use crate::shared::{counted, RegionId};
use crate::text::{dec_text, hex4_text, push_dec, push_hex4};

verus! {

pub const KIND_HELLO: u8 = 1;
pub const KIND_DATA: u8 = 2;
pub const KIND_CLOSE: u8 = 3;
pub const KIND_CLOSED_NOTIFY: u8 = 4;
pub const KIND_GRANT: u8 = 5;
pub const KIND_CREATE: u8 = 6;
pub const KIND_SHUTDOWN: u8 = 7;
pub const KIND_CREATE_ACK: u8 = 8;
pub const KIND_ERROR: u8 = 9;
pub const KIND_XFER: u8 = 10;

pub const XFER_ACCEPT: u8 = 1;
pub const XFER_REJECT: u8 = 2;
pub const XFER_COMMIT: u8 = 3;
pub const XFER_COMMITTED: u8 = 4;
pub const XFER_ABORT: u8 = 5;
pub const XFER_STATUS: u8 = 6;
pub const XFER_STATUS_ACK: u8 = 7;
pub const XFER_RESULT_ACK: u8 = 8;
pub const XFER_NATIVE_COMMIT: u8 = 9;
pub const XFER_NATIVE_ABORT: u8 = 10;
pub const XFER_SHARED_COMMIT: u8 = 11;
pub const XFER_SHARED_ABORT: u8 = 12;

pub const XFER_ST_PENDING: u8 = 0;
pub const XFER_ST_COMMITTED: u8 = 1;
pub const XFER_ST_ABORTED: u8 = 2;
pub const XFER_ST_UNKNOWN: u8 = 3;

/// Error code carried by `Frame::Error`: a resource limit was hit.
pub const ERR_CAPACITY: u8 = 1;

/// A kind that only the host may send. A peer sending one is no legitimate
/// fabric client and is quarantined.
pub open spec fn host_only_kind(kind: u8) -> bool {
    kind == KIND_CLOSED_NOTIFY || kind == KIND_GRANT || kind == KIND_CREATE_ACK || kind == KIND_ERROR
}

/// Is this a kind that only the host may send?
pub fn is_host_only_kind(kind: u8) -> (r: bool)
    ensures
        r == host_only_kind(kind),
{
    kind == KIND_CLOSED_NOTIFY || kind == KIND_GRANT || kind == KIND_CREATE_ACK || kind == KIND_ERROR
}

/// One endpoint offered along with a message.
#[derive(Clone, Copy, Debug, PartialEq, Eq)]
pub struct Attachment {
    pub tid: TransferId,
    pub id: EpId,
    pub partner: EpId,
}

/// A native resource offered along with a message.
#[derive(Clone, Copy, Debug, PartialEq, Eq)]
pub struct NativeAttachment {
    pub tid: TransferId,
    pub rid: ResourceId,
    pub handle_value: u64,
}

/// A shared-region capability offered along with a message. The rights are a
/// claim; the host holds it against its own table.
#[derive(Clone, Copy, Debug, PartialEq, Eq)]
pub struct SharedAttachment {
    pub tid: TransferId,
    pub rid: RegionId,
    pub rights: u8,
    pub handle_value: u64,
}

/// Payload-bearing routed message body.
#[derive(Clone, Debug, PartialEq, Eq)]
pub struct DataInner {
    pub target: EpId,
    pub corr: u32,
    pub attachments: Vec<Attachment>,
    pub payload: Vec<u8>,
    pub native: Option<NativeAttachment>,
    pub shared: Option<SharedAttachment>,
}

/// A step of a transfer transaction.
#[derive(Clone, Copy, Debug, PartialEq, Eq)]
#[allow(inconsistent_fields)]
pub enum XferMsg {
    Accept { tid: TransferId },
    Reject { tid: TransferId },
    Commit { tid: TransferId, ep: EpId, partner: EpId },
    Committed { tid: TransferId },
    Abort { tid: TransferId },
    Status { tid: TransferId },
    StatusAck { tid: TransferId, status: u8 },
    ResultAck { tid: TransferId },
    NativeCommit { tid: TransferId, rid: ResourceId, handle_value: u64 },
    /// A native transfer was called off. Where its object is already back in
    /// the sender's process, the resource and the object's value there follow.
    NativeAbort { tid: TransferId, object: Option<(ResourceId, u64)> },
    SharedCommit { tid: TransferId, rid: RegionId, rights: u8, size: u64, handle_value: u64 },
    SharedAbort { tid: TransferId, rid: RegionId, handle_value: u64 },
}

/// One frame.
#[derive(Clone, Debug, PartialEq, Eq)]
pub enum Frame {
    Hello { magic: u16, version: u16 },
    Data(DataInner),
    Close { target: EpId },
    ClosedNotify { entries: Vec<(EpId, Cause)> },
    Grant { ep: EpId, partner: EpId, tid: TransferId },
    Create,
    CreateAck { impl_ep: EpId, transferable_ep: EpId },
    Error(u8),
    Shutdown,
    Xfer(XferMsg),
}

/// What a message body says.
#[verifier::ext_equal]
pub struct DataView {
    pub target: EpId,
    pub corr: u32,
    pub attachments: Seq<Attachment>,
    pub payload: Seq<u8>,
    pub native: Option<NativeAttachment>,
    pub shared: Option<SharedAttachment>,
}

/// What a frame says.
#[verifier::ext_equal]
pub enum FrameView {
    Hello { magic: u16, version: u16 },
    Data(DataView),
    Close { target: EpId },
    ClosedNotify { entries: Seq<(EpId, Cause)> },
    Grant { ep: EpId, partner: EpId, tid: TransferId },
    Create,
    CreateAck { impl_ep: EpId, transferable_ep: EpId },
    Error(u8),
    Shutdown,
    Xfer(XferMsg),
}

impl View for DataInner {
    type V = DataView;

    open spec fn view(&self) -> DataView {
        DataView {
            target: self.target,
            corr: self.corr,
            attachments: self.attachments@,
            payload: self.payload@,
            native: self.native,
            shared: self.shared,
        }
    }
}

impl View for Frame {
    type V = FrameView;

    open spec fn view(&self) -> FrameView {
        match *self {
            Frame::Hello { magic, version } => FrameView::Hello { magic, version },
            Frame::Data(d) => FrameView::Data(d@),
            Frame::Close { target } => FrameView::Close { target },
            Frame::ClosedNotify { entries } => FrameView::ClosedNotify { entries: entries@ },
            Frame::Grant { ep, partner, tid } => FrameView::Grant { ep, partner, tid },
            Frame::Create => FrameView::Create,
            Frame::CreateAck { impl_ep, transferable_ep } => FrameView::CreateAck {
                impl_ep,
                transferable_ep,
            },
            Frame::Error(code) => FrameView::Error(code),
            Frame::Shutdown => FrameView::Shutdown,
            Frame::Xfer(x) => FrameView::Xfer(x),
        }
    }
}

impl FrameView {
    /// The kind byte.
    pub open spec fn kind(self) -> u8 {
        match self {
            FrameView::Hello { .. } => KIND_HELLO,
            FrameView::Data(_) => KIND_DATA,
            FrameView::Close { .. } => KIND_CLOSE,
            FrameView::ClosedNotify { .. } => KIND_CLOSED_NOTIFY,
            FrameView::Grant { .. } => KIND_GRANT,
            FrameView::Create => KIND_CREATE,
            FrameView::CreateAck { .. } => KIND_CREATE_ACK,
            FrameView::Error(_) => KIND_ERROR,
            FrameView::Shutdown => KIND_SHUTDOWN,
            FrameView::Xfer(_) => KIND_XFER,
        }
    }

    /// Must this frame not be dropped silently? True of lifecycle and
    /// transfer frames, and of messages that carry an offer.
    pub open spec fn is_control(self) -> bool {
        match self {
            FrameView::Hello { .. } => false,
            FrameView::Data(d) => d.native is Some || d.shared is Some || d.attachments.len() > 0,
            _ => true,
        }
    }

    /// Approximate wire cost: length prefix, kind byte and body.
    pub open spec fn cost(self) -> nat {
        5 + match self {
            FrameView::Hello { .. } => 5nat,
            FrameView::Data(d) => 16 + 4 + 1 + d.attachments.len() * 48 + 1 + (if d.native is Some {
                40nat
            } else {
                0
            }) + (if d.shared is Some {
                41nat
            } else {
                0
            }) + d.payload.len(),
            FrameView::Close { .. } => 16,
            FrameView::ClosedNotify { entries } => 2 + entries.len() * 17,
            FrameView::Grant { .. } => 48,
            FrameView::CreateAck { .. } => 32,
            FrameView::Create => 0,
            FrameView::Error(_) => 1,
            FrameView::Shutdown => 0,
            FrameView::Xfer(XferMsg::Commit { .. }) => 49,
            FrameView::Xfer(XferMsg::StatusAck { .. }) => 18,
            FrameView::Xfer(XferMsg::NativeCommit { .. }) => 41,
            FrameView::Xfer(XferMsg::NativeAbort { object, .. }) => if object is Some {
                41nat
            } else {
                17
            },
            FrameView::Xfer(XferMsg::SharedCommit { .. }) => 50,
            FrameView::Xfer(XferMsg::SharedAbort { .. }) => 41,
            FrameView::Xfer(_) => 17,
        }
    }
}

/// Must this frame not be dropped silently?
pub fn is_control_frame(f: &Frame) -> (r: bool)
    ensures
        r == f@.is_control(),
{
    match f {
        Frame::Hello { .. } => false,
        Frame::Data(d) => d.native.is_some() || d.shared.is_some() || d.attachments.len() > 0,
        _ => true,
    }
}

impl Frame {
    /// The kind byte.
    pub fn kind(&self) -> (r: u8)
        ensures
            r == self@.kind(),
    {
        match self {
            Frame::Hello { .. } => KIND_HELLO,
            Frame::Data(_) => KIND_DATA,
            Frame::Close { .. } => KIND_CLOSE,
            Frame::ClosedNotify { .. } => KIND_CLOSED_NOTIFY,
            Frame::Grant { .. } => KIND_GRANT,
            Frame::Create => KIND_CREATE,
            Frame::CreateAck { .. } => KIND_CREATE_ACK,
            Frame::Error(_) => KIND_ERROR,
            Frame::Shutdown => KIND_SHUTDOWN,
            Frame::Xfer(_) => KIND_XFER,
        }
    }

    /// Approximate wire cost, used for queue byte accounting.
    pub fn cost(&self) -> (r: usize)
        ensures
            r == counted(self@.cost()),
    {
        let body: u128 = match self {
            Frame::Hello { .. } => 5,
            Frame::Data(d) => {
                let native_len: u128 = if d.native.is_some() {
                    40
                } else {
                    0
                };
                let shared_len: u128 = if d.shared.is_some() {
                    41
                } else {
                    0
                };
                16 + 4 + 1 + d.attachments.len() as u128 * 48 + 1 + native_len + shared_len
                    + d.payload.len() as u128
            },
            Frame::Close { .. } => 16,
            Frame::ClosedNotify { entries } => 2 + entries.len() as u128 * 17,
            Frame::Grant { .. } => 48,
            Frame::CreateAck { .. } => 32,
            Frame::Create => 0,
            Frame::Error(_) => 1,
            Frame::Shutdown => 0,
            Frame::Xfer(XferMsg::Commit { .. }) => 1 + 16 + 32,
            Frame::Xfer(XferMsg::StatusAck { .. }) => 1 + 16 + 1,
            Frame::Xfer(XferMsg::NativeCommit { .. }) => 1 + 16 + 16 + 8,
            Frame::Xfer(XferMsg::NativeAbort { object, .. }) => if object.is_some() {
                1 + 16 + 16 + 8
            } else {
                1 + 16
            },
            Frame::Xfer(XferMsg::SharedCommit { .. }) => 1 + 16 + 16 + 1 + 8 + 8,
            Frame::Xfer(XferMsg::SharedAbort { .. }) => 1 + 16 + 16 + 8,
            Frame::Xfer(_) => 1 + 16,
        };
        let total: u128 = 4 + 1 + body;
        if total > usize::MAX as u128 {
            usize::MAX
        } else {
            total as usize
        }
    }
}

#[derive(Clone, Copy, Debug, PartialEq, Eq, Structural)]
pub enum FrameError {
    Truncated,
    TooLarge { declared: u32, cap: u32 },
    UnknownKind(u8),
    BadMagic(u16),
    BadVersion(u16),
    AttachCountExceedsLimit(usize),
    DuplicateAttachment,
    BodyTooShort,
}

impl FrameError {
    /// The error in words.
    pub fn message(&self) -> (r: String)
        ensures
            r@ == (match *self {
                FrameError::Truncated => "frame truncated"@,
                FrameError::TooLarge { declared, cap } => "declared frame "@ + dec_text(
                    declared as nat,
                ) + " exceeds cap "@ + dec_text(cap as nat),
                FrameError::UnknownKind(k) => "unknown frame kind "@ + dec_text(k as nat),
                FrameError::BadMagic(m) => "bad hello magic 0x"@ + hex4_text(m as nat),
                FrameError::BadVersion(v) => "bad protocol version "@ + dec_text(v as nat),
                FrameError::AttachCountExceedsLimit(n) => dec_text(n as nat)
                    + " attachments exceeds limit"@,
                FrameError::DuplicateAttachment => "duplicate attachment id in one frame"@,
                FrameError::BodyTooShort => "frame body shorter than its own header claims"@,
            }),
    {
        match self {
            FrameError::Truncated => String::from_str("frame truncated"),
            FrameError::TooLarge { declared, cap } => {
                let mut s = String::from_str("declared frame ");
                push_dec(&mut s, *declared as u64);
                s.append(" exceeds cap ");
                push_dec(&mut s, *cap as u64);
                s
            },
            FrameError::UnknownKind(k) => {
                let mut s = String::from_str("unknown frame kind ");
                push_dec(&mut s, *k as u64);
                s
            },
            FrameError::BadMagic(m) => {
                let mut s = String::from_str("bad hello magic 0x");
                push_hex4(&mut s, *m);
                s
            },
            FrameError::BadVersion(v) => {
                let mut s = String::from_str("bad protocol version ");
                push_dec(&mut s, *v as u64);
                s
            },
            FrameError::AttachCountExceedsLimit(n) => {
                let mut s = String::new();
                push_dec(&mut s, *n as u64);
                s.append(" attachments exceeds limit");
                assert(Seq::<char>::empty() + dec_text(*n as nat) =~= dec_text(*n as nat));
                s
            },
            FrameError::DuplicateAttachment => String::from_str(
                "duplicate attachment id in one frame",
            ),
            FrameError::BodyTooShort => String::from_str(
                "frame body shorter than its own header claims",
            ),
        }
    }
}

// ---------------------------------------------------------------- encoding --

/// The bytes of one attachment.
pub open spec fn attachment_bytes(a: Attachment) -> Seq<u8> {
    a.tid.0@ + a.id.0@ + a.partner.0@
}

/// The attachments one after the other.
pub open spec fn attachments_bytes(s: Seq<Attachment>) -> Seq<u8> {
    Seq::new(s.len() * 48, |j: int| attachment_bytes(s[j / 48])[j % 48])
}

/// The byte of a cause.
pub open spec fn cause_byte(c: Cause) -> u8 {
    match c {
        Cause::Graceful => 0,
        Cause::PeerLost => 1,
    }
}

/// The bytes of one entry of a close notice.
pub open spec fn entry_bytes(e: (EpId, Cause)) -> Seq<u8> {
    e.0.0@.push(cause_byte(e.1))
}

/// The entries one after the other.
pub open spec fn entries_bytes(s: Seq<(EpId, Cause)>) -> Seq<u8> {
    Seq::new(s.len() * 17, |j: int| entry_bytes(s[j / 17])[j % 17])
}

/// The bytes of an offered native resource, none where none is offered.
pub open spec fn native_bytes(n: Option<NativeAttachment>) -> Seq<u8> {
    match n {
        Some(n) => n.tid.0@ + n.rid.0@ + le_bytes(n.handle_value as nat, 8),
        None => Seq::empty(),
    }
}

/// The bytes of an offered region, none where none is offered.
pub open spec fn shared_bytes(s: Option<SharedAttachment>) -> Seq<u8> {
    match s {
        Some(s) => s.tid.0@ + s.rid.0@ + seq![s.rights] + le_bytes(s.handle_value as nat, 8),
        None => Seq::empty(),
    }
}

/// The byte that says which offers follow.
pub open spec fn offer_flags(d: DataView) -> u8 {
    match (d.native, d.shared) {
        (None, None) => 0,
        (Some(_), None) => 1,
        (None, Some(_)) => 2,
        (Some(_), Some(_)) => 3,
    }
}

/// The body of a transfer frame.
pub open spec fn xfer_bytes(x: XferMsg) -> Seq<u8> {
    match x {
        XferMsg::Accept { tid } => seq![XFER_ACCEPT] + tid.0@,
        XferMsg::Reject { tid } => seq![XFER_REJECT] + tid.0@,
        XferMsg::Commit { tid, ep, partner } => seq![XFER_COMMIT] + tid.0@ + ep.0@ + partner.0@,
        XferMsg::Committed { tid } => seq![XFER_COMMITTED] + tid.0@,
        XferMsg::Abort { tid } => seq![XFER_ABORT] + tid.0@,
        XferMsg::Status { tid } => seq![XFER_STATUS] + tid.0@,
        XferMsg::StatusAck { tid, status } => seq![XFER_STATUS_ACK] + tid.0@ + seq![status],
        XferMsg::ResultAck { tid } => seq![XFER_RESULT_ACK] + tid.0@,
        XferMsg::NativeCommit { tid, rid, handle_value } => seq![XFER_NATIVE_COMMIT] + tid.0@ + rid.0@
            + le_bytes(handle_value as nat, 8),
        XferMsg::NativeAbort { tid, object } => seq![XFER_NATIVE_ABORT] + tid.0@ + (match object {
            Some((rid, handle_value)) => rid.0@ + le_bytes(handle_value as nat, 8),
            None => Seq::empty(),
        }),
        XferMsg::SharedCommit { tid, rid, rights, size, handle_value } => seq![XFER_SHARED_COMMIT]
            + tid.0@ + rid.0@ + seq![rights] + le_bytes(size as nat, 8) + le_bytes(
            handle_value as nat,
            8,
        ),
        XferMsg::SharedAbort { tid, rid, handle_value } => seq![XFER_SHARED_ABORT] + tid.0@ + rid.0@
            + le_bytes(handle_value as nat, 8),
    }
}

/// The body of a frame, without its kind byte. Counts keep their low bytes.
pub open spec fn body_bytes(f: FrameView) -> Seq<u8> {
    match f {
        FrameView::Hello { magic, version } => le_bytes(magic as nat, 2) + le_bytes(version as nat, 2),
        FrameView::Data(d) => d.target.0@ + le_bytes(d.corr as nat, 4) + le_bytes(
            d.attachments.len(),
            1,
        ) + attachments_bytes(d.attachments) + seq![offer_flags(d)] + native_bytes(d.native)
            + shared_bytes(d.shared) + d.payload,
        FrameView::Close { target } => target.0@,
        FrameView::ClosedNotify { entries } => le_bytes(entries.len(), 2) + entries_bytes(entries),
        FrameView::Grant { ep, partner, tid } => ep.0@ + partner.0@ + tid.0@,
        FrameView::Create => Seq::empty(),
        FrameView::CreateAck { impl_ep, transferable_ep } => impl_ep.0@ + transferable_ep.0@,
        FrameView::Error(code) => seq![code],
        FrameView::Shutdown => Seq::empty(),
        FrameView::Xfer(x) => xfer_bytes(x),
    }
}

/// A frame on the wire: the length of what follows, the kind, the body.
pub open spec fn frame_bytes(f: FrameView) -> Seq<u8> {
    le_bytes(1 + body_bytes(f).len(), 4) + seq![f.kind()] + body_bytes(f)
}

fn put16(out: &mut Vec<u8>, b: &[u8; 16])
    ensures
        final(out)@ == old(out)@ + b@,
{
    let mut i: usize = 0;
    while i < 16
        invariant
            i <= 16,
            b@.len() == 16,
            out@ == old(out)@ + b@.take(i as int),
        decreases 16 - i,
    {
        out.push(b[i]);
        assert(b@.take(i + 1) =~= b@.take(i as int).push(b@[i as int]));
        assert(out@ =~= old(out)@ + b@.take(i + 1));
        i = i + 1;
    }
    assert(b@.take(16) =~= b@);
}

/// Appends all of `s`.
pub fn put_all(out: &mut Vec<u8>, s: &Vec<u8>)
    ensures
        final(out)@ == old(out)@ + s@,
{
    out.extend_from_slice(s.as_slice());
    assert(out@ =~= old(out)@ + s@);
}

fn put_attachments(out: &mut Vec<u8>, s: &Vec<Attachment>)
    ensures
        final(out)@ == old(out)@ + attachments_bytes(s@),
{
    let mut i: usize = 0;
    assert(out@ =~= old(out)@ + attachments_bytes(s@.take(0)));
    while i < s.len()
        invariant
            i <= s@.len(),
            out@ == old(out)@ + attachments_bytes(s@.take(i as int)),
        decreases s@.len() - i,
    {
        let ghost before = out@;
        let a = s[i];
        put16(out, &a.tid.0);
        put16(out, &a.id.0);
        put16(out, &a.partner.0);
        proof {
            assert(out@ =~= before + attachment_bytes(a));
            let x = attachments_bytes(s@.take(i as int));
            let y = attachments_bytes(s@.take(i + 1));
            assert(x + attachment_bytes(a) =~= y) by {
                assert forall|j: int| 0 <= j < y.len() implies (x + attachment_bytes(a))[j] == y[j] by {
                    if j < x.len() {
                        assert(j / 48 < i);
                        assert(s@.take(i as int)[j / 48] == s@.take(i + 1)[j / 48]);
                    } else {
                        assert(j / 48 == i);
                        assert(j % 48 == j - i * 48);
                    }
                }
            }
            assert(out@ =~= old(out)@ + y);
        }
        i = i + 1;
    }
    assert(s@.take(i as int) =~= s@);
}

fn put_entries(out: &mut Vec<u8>, s: &Vec<(EpId, Cause)>)
    ensures
        final(out)@ == old(out)@ + entries_bytes(s@),
{
    let mut i: usize = 0;
    assert(out@ =~= old(out)@ + entries_bytes(s@.take(0)));
    while i < s.len()
        invariant
            i <= s@.len(),
            out@ == old(out)@ + entries_bytes(s@.take(i as int)),
        decreases s@.len() - i,
    {
        let ghost before = out@;
        let e = s[i];
        put16(out, &e.0.0);
        out.push(
            match e.1 {
                Cause::Graceful => 0,
                Cause::PeerLost => 1,
            },
        );
        proof {
            assert(out@ =~= before + entry_bytes(e));
            let x = entries_bytes(s@.take(i as int));
            let y = entries_bytes(s@.take(i + 1));
            assert(x + entry_bytes(e) =~= y) by {
                assert forall|j: int| 0 <= j < y.len() implies (x + entry_bytes(e))[j] == y[j] by {
                    if j < x.len() {
                        assert(j / 17 < i);
                        assert(s@.take(i as int)[j / 17] == s@.take(i + 1)[j / 17]);
                    } else {
                        assert(j / 17 == i);
                        assert(j % 17 == j - i * 17);
                    }
                }
            }
            assert(out@ =~= old(out)@ + y);
        }
        i = i + 1;
    }
    assert(s@.take(i as int) =~= s@);
}

fn put_xfer(out: &mut Vec<u8>, x: &XferMsg)
    ensures
        final(out)@ == old(out)@ + xfer_bytes(*x),
{
    match x {
        XferMsg::Accept { tid } => {
            out.push(XFER_ACCEPT);
            put16(out, &tid.0);
        },
        XferMsg::Reject { tid } => {
            out.push(XFER_REJECT);
            put16(out, &tid.0);
        },
        XferMsg::Commit { tid, ep, partner } => {
            out.push(XFER_COMMIT);
            put16(out, &tid.0);
            put16(out, &ep.0);
            put16(out, &partner.0);
        },
        XferMsg::Committed { tid } => {
            out.push(XFER_COMMITTED);
            put16(out, &tid.0);
        },
        XferMsg::Abort { tid } => {
            out.push(XFER_ABORT);
            put16(out, &tid.0);
        },
        XferMsg::Status { tid } => {
            out.push(XFER_STATUS);
            put16(out, &tid.0);
        },
        XferMsg::StatusAck { tid, status } => {
            out.push(XFER_STATUS_ACK);
            put16(out, &tid.0);
            out.push(*status);
        },
        XferMsg::ResultAck { tid } => {
            out.push(XFER_RESULT_ACK);
            put16(out, &tid.0);
        },
        XferMsg::NativeCommit { tid, rid, handle_value } => {
            out.push(XFER_NATIVE_COMMIT);
            put16(out, &tid.0);
            put16(out, &rid.0);
            put_le(out, *handle_value, 8);
        },
        XferMsg::NativeAbort { tid, object } => {
            out.push(XFER_NATIVE_ABORT);
            put16(out, &tid.0);
            if let Some((rid, handle_value)) = object {
                put16(out, &rid.0);
                put_le(out, *handle_value, 8);
            }
        },
        XferMsg::SharedCommit { tid, rid, rights, size, handle_value } => {
            out.push(XFER_SHARED_COMMIT);
            put16(out, &tid.0);
            put16(out, &rid.0);
            out.push(*rights);
            put_le(out, *size, 8);
            put_le(out, *handle_value, 8);
        },
        XferMsg::SharedAbort { tid, rid, handle_value } => {
            out.push(XFER_SHARED_ABORT);
            put16(out, &tid.0);
            put16(out, &rid.0);
            put_le(out, *handle_value, 8);
        },
    }
    assert(out@ =~= old(out)@ + xfer_bytes(*x));
}

fn put_data(out: &mut Vec<u8>, d: &DataInner)
    ensures
        final(out)@ == old(out)@ + body_bytes(FrameView::Data(d@)),
{
    put16(out, &d.target.0);
    put_le(out, d.corr as u64, 4);
    put_le(out, d.attachments.len() as u64, 1);
    put_attachments(out, &d.attachments);
    let flags: u8 = match (d.native, d.shared) {
        (None, None) => 0,
        (Some(_), None) => 1,
        (None, Some(_)) => 2,
        (Some(_), Some(_)) => 3,
    };
    out.push(flags);
    if let Some(n) = &d.native {
        put16(out, &n.tid.0);
        put16(out, &n.rid.0);
        put_le(out, n.handle_value, 8);
    }
    if let Some(s) = &d.shared {
        put16(out, &s.tid.0);
        put16(out, &s.rid.0);
        out.push(s.rights);
        put_le(out, s.handle_value, 8);
    }
    put_all(out, &d.payload);
    assert(out@ =~= old(out)@ + body_bytes(FrameView::Data(d@)));
}

/// Encodes a frame into a fresh buffer.
pub fn encode(frame: &Frame) -> (out: Vec<u8>)
    ensures
        out@ == frame_bytes(frame@),
{
    let mut out: Vec<u8> = Vec::new();
    encode_into(frame, &mut out);
    assert(out@ =~= frame_bytes(frame@));
    out
}

/// Appends a frame to a caller's buffer, length prefix included.
pub fn encode_into(frame: &Frame, out: &mut Vec<u8>)
    ensures
        final(out)@ == old(out)@ + frame_bytes(frame@),
{
    let start: usize = out.len();
    // The length is known once the body is written.
    put_le(out, 0, 4);
    proof {
        crate::bytes::lemma_le_bytes_len(0, 4);
    }
    let ghost reserved = out@;
    out.push(frame.kind());
    match frame {
        Frame::Hello { magic, version } => {
            put_le(out, *magic as u64, 2);
            put_le(out, *version as u64, 2);
        },
        Frame::Data(d) => {
            put_data(out, d);
        },
        Frame::Close { target } => {
            put16(out, &target.0);
        },
        Frame::ClosedNotify { entries } => {
            put_le(out, entries.len() as u64, 2);
            put_entries(out, entries);
        },
        Frame::Grant { ep, partner, tid } => {
            put16(out, &ep.0);
            put16(out, &partner.0);
            put16(out, &tid.0);
        },
        Frame::Create => {},
        Frame::CreateAck { impl_ep, transferable_ep } => {
            put16(out, &impl_ep.0);
            put16(out, &transferable_ep.0);
        },
        Frame::Error(code) => {
            out.push(*code);
        },
        Frame::Shutdown => {},
        Frame::Xfer(x) => {
            put_xfer(out, x);
        },
    }
    let ghost tail = seq![frame@.kind()] + body_bytes(frame@);
    assert(out@ =~= reserved + tail);
    let len: u64 = (out.len() - start - 4) as u64;
    let mut prefix: Vec<u8> = Vec::new();
    put_le(&mut prefix, len, 4);
    proof {
        crate::bytes::lemma_le_bytes_len(len as nat, 4);
        assert(prefix@ =~= le_bytes(len as nat, 4));
        assert(len == 1 + body_bytes(frame@).len());
    }
    out.set(start, prefix[0]);
    out.set(start + 1, prefix[1]);
    out.set(start + 2, prefix[2]);
    out.set(start + 3, prefix[3]);
    assert(out@ =~= old(out)@ + (prefix@ + tail));
    assert(prefix@ + tail =~= frame_bytes(frame@));
}

// ---------------------------------------------------------------- decoding --

/// The sixteen bytes of `s` as a raw identity.
pub open spec fn arr16(s: Seq<u8>) -> [u8; 16] {
    choose|a: [u8; 16]| a@ == s
}

/// A raw identity is known by its bytes.
pub proof fn lemma_arr16(a: [u8; 16], s: Seq<u8>)
    requires
        a@ =~= s,
    ensures
        arr16(s) == a,
{
    assert(arr16(s)@ == s);
    assert(arr16(s) =~= a);
}

/// The raw identity that starts at `at`.
pub open spec fn id_at(b: Seq<u8>, at: int) -> [u8; 16] {
    arr16(b.subrange(at, at + 16))
}

/// The `n`-byte number that starts at `at`.
pub open spec fn number_at(b: Seq<u8>, at: int, n: int) -> nat {
    le_value(b.subrange(at, at + n))
}

/// Attachment `i` of a message body.
pub open spec fn attachment_at(b: Seq<u8>, i: int) -> Attachment {
    Attachment {
        tid: TransferId(id_at(b, 21 + 48 * i)),
        id: EpId(id_at(b, 37 + 48 * i)),
        partner: EpId(id_at(b, 53 + 48 * i)),
    }
}

/// Is one endpoint offered twice?
pub open spec fn repeats_endpoint(s: Seq<Attachment>) -> bool {
    exists|i: int, j: int| 0 <= i < j < s.len() && (#[trigger] s[i]).id == (#[trigger] s[j]).id
}

/// What a message body says, or what is wrong with it.
pub open spec fn parse_data(b: Seq<u8>, lim: Limits) -> Result<FrameView, FrameError> {
    if b.len() < 21 {
        Err(FrameError::Truncated)
    } else {
        let n = b[20] as int;
        let atts = Seq::new(n as nat, |i: int| attachment_at(b, i));
        let at = 21 + 48 * n;
        if n > lim.max_attachments {
            Err(FrameError::AttachCountExceedsLimit(n as usize))
        } else if b.len() < at {
            Err(FrameError::Truncated)
        } else if repeats_endpoint(atts) {
            Err(FrameError::DuplicateAttachment)
        } else if b.len() < at + 1 {
            Err(FrameError::Truncated)
        } else if b[at] > 3 {
            Err(FrameError::UnknownKind(KIND_DATA))
        } else {
            let has_native = b[at] == 1 || b[at] == 3;
            let has_shared = b[at] == 2 || b[at] == 3;
            let mid = at + 1 + if has_native {
                40int
            } else {
                0
            };
            let end = mid + if has_shared {
                41int
            } else {
                0
            };
            if b.len() < end {
                Err(FrameError::Truncated)
            } else {
                Ok(
                    FrameView::Data(
                        DataView {
                            target: EpId(id_at(b, 0)),
                            corr: number_at(b, 16, 4) as u32,
                            attachments: atts,
                            payload: b.subrange(end, b.len() as int),
                            native: if has_native {
                                Some(
                                    NativeAttachment {
                                        tid: TransferId(id_at(b, at + 1)),
                                        rid: ResourceId(id_at(b, at + 17)),
                                        handle_value: number_at(b, at + 33, 8) as u64,
                                    },
                                )
                            } else {
                                None
                            },
                            shared: if has_shared {
                                Some(
                                    SharedAttachment {
                                        tid: TransferId(id_at(b, mid)),
                                        rid: RegionId(id_at(b, mid + 16)),
                                        rights: b[mid + 32],
                                        handle_value: number_at(b, mid + 33, 8) as u64,
                                    },
                                )
                            } else {
                                None
                            },
                        },
                    ),
                )
            }
        }
    }
}

/// What a close notice says, or what is wrong with it.
pub open spec fn parse_closed_notify(b: Seq<u8>, lim: Limits) -> Result<FrameView, FrameError> {
    if b.len() < 2 {
        Err(FrameError::Truncated)
    } else {
        let n = number_at(b, 0, 2);
        if n > lim.max_attachments * 256 {
            Err(FrameError::BodyTooShort)
        } else if b.len() < 2 + 17 * n {
            Err(FrameError::Truncated)
        } else {
            Ok(FrameView::ClosedNotify { entries: Seq::new(n, |i: int| entry_at(b, i)) })
        }
    }
}

/// Entry `i` of a close notice.
pub open spec fn entry_at(b: Seq<u8>, i: int) -> (EpId, Cause) {
    (
        EpId(id_at(b, 2 + 17 * i)),
        if b[18 + 17 * i] == 0 {
            Cause::Graceful
        } else {
            Cause::PeerLost
        },
    )
}

/// How many bytes a transfer frame of this kind needs; none for no such kind.
pub open spec fn xfer_len(sub: u8) -> Option<int> {
    if sub == XFER_COMMIT {
        Some(49)
    } else if sub == XFER_STATUS_ACK {
        Some(18)
    } else if sub == XFER_NATIVE_COMMIT || sub == XFER_SHARED_ABORT {
        Some(41)
    } else if sub == XFER_SHARED_COMMIT {
        Some(50)
    } else if XFER_ACCEPT <= sub <= XFER_SHARED_ABORT {
        Some(17)
    } else {
        None
    }
}

/// What a transfer frame of sufficient length says. A native abort names its
/// object if there is enough behind the transfer to name one.
pub open spec fn xfer_at(b: Seq<u8>) -> XferMsg {
    let sub = b[0];
    let tid = TransferId(id_at(b, 1));
    if sub == XFER_ACCEPT {
        XferMsg::Accept { tid }
    } else if sub == XFER_REJECT {
        XferMsg::Reject { tid }
    } else if sub == XFER_COMMIT {
        XferMsg::Commit { tid, ep: EpId(id_at(b, 17)), partner: EpId(id_at(b, 33)) }
    } else if sub == XFER_COMMITTED {
        XferMsg::Committed { tid }
    } else if sub == XFER_ABORT {
        XferMsg::Abort { tid }
    } else if sub == XFER_STATUS {
        XferMsg::Status { tid }
    } else if sub == XFER_STATUS_ACK {
        XferMsg::StatusAck { tid, status: b[17] }
    } else if sub == XFER_RESULT_ACK {
        XferMsg::ResultAck { tid }
    } else if sub == XFER_NATIVE_COMMIT {
        XferMsg::NativeCommit {
            tid,
            rid: ResourceId(id_at(b, 17)),
            handle_value: number_at(b, 33, 8) as u64,
        }
    } else if sub == XFER_NATIVE_ABORT {
        XferMsg::NativeAbort {
            tid,
            object: if b.len() >= 41 {
                Some((ResourceId(id_at(b, 17)), number_at(b, 33, 8) as u64))
            } else {
                None
            },
        }
    } else if sub == XFER_SHARED_COMMIT {
        XferMsg::SharedCommit {
            tid,
            rid: RegionId(id_at(b, 17)),
            rights: b[33],
            size: number_at(b, 34, 8) as u64,
            handle_value: number_at(b, 42, 8) as u64,
        }
    } else {
        XferMsg::SharedAbort {
            tid,
            rid: RegionId(id_at(b, 17)),
            handle_value: number_at(b, 33, 8) as u64,
        }
    }
}

/// What a transfer frame says, or what is wrong with it.
pub open spec fn parse_xfer(b: Seq<u8>) -> Result<FrameView, FrameError> {
    if b.len() < 17 {
        Err(FrameError::Truncated)
    } else {
        match xfer_len(b[0]) {
            None => Err(FrameError::UnknownKind(KIND_XFER)),
            Some(n) => if b.len() < n {
                Err(FrameError::Truncated)
            } else {
                Ok(FrameView::Xfer(xfer_at(b)))
            },
        }
    }
}

/// What a frame of this kind with this body says, or what is wrong with it.
/// Bytes past the end of a fixed layout are ignored.
pub open spec fn parse_body(kind: u8, b: Seq<u8>, lim: Limits) -> Result<FrameView, FrameError> {
    if kind == KIND_HELLO {
        if b.len() < 4 {
            Err(FrameError::Truncated)
        } else {
            Ok(
                FrameView::Hello {
                    magic: number_at(b, 0, 2) as u16,
                    version: number_at(b, 2, 2) as u16,
                },
            )
        }
    } else if kind == KIND_DATA {
        parse_data(b, lim)
    } else if kind == KIND_CLOSE {
        if b.len() < 16 {
            Err(FrameError::Truncated)
        } else {
            Ok(FrameView::Close { target: EpId(id_at(b, 0)) })
        }
    } else if kind == KIND_CLOSED_NOTIFY {
        parse_closed_notify(b, lim)
    } else if kind == KIND_GRANT {
        if b.len() < 48 {
            Err(FrameError::Truncated)
        } else {
            Ok(
                FrameView::Grant {
                    ep: EpId(id_at(b, 0)),
                    partner: EpId(id_at(b, 16)),
                    tid: TransferId(id_at(b, 32)),
                },
            )
        }
    } else if kind == KIND_CREATE {
        Ok(FrameView::Create)
    } else if kind == KIND_CREATE_ACK {
        if b.len() < 32 {
            Err(FrameError::Truncated)
        } else {
            Ok(
                FrameView::CreateAck {
                    impl_ep: EpId(id_at(b, 0)),
                    transferable_ep: EpId(id_at(b, 16)),
                },
            )
        }
    } else if kind == KIND_ERROR {
        if b.len() < 1 {
            Err(FrameError::Truncated)
        } else {
            Ok(FrameView::Error(b[0]))
        }
    } else if kind == KIND_SHUTDOWN {
        Ok(FrameView::Shutdown)
    } else if kind == KIND_XFER {
        parse_xfer(b)
    } else {
        Err(FrameError::UnknownKind(kind))
    }
}

/// What the declared length of a frame leads to: the number of bytes to read
/// next, or a refusal before any of them is read.
pub open spec fn declared_len(declared: nat, lim: Limits) -> Result<nat, FrameError> {
    if declared > lim.max_frame_body {
        Err(FrameError::TooLarge { declared: declared as u32, cap: lim.max_frame_body })
    } else if declared == 0 {
        Err(FrameError::Truncated)
    } else {
        Ok(declared)
    }
}

/// What a whole frame says, or what is wrong with it. Bytes behind the
/// declared length are ignored.
pub open spec fn parse_frame(b: Seq<u8>, lim: Limits) -> Result<FrameView, FrameError> {
    if b.len() < 5 {
        Err(FrameError::Truncated)
    } else {
        match declared_len(number_at(b, 0, 4), lim) {
            Err(e) => Err(e),
            Ok(n) => if b.len() < 4 + n {
                Err(FrameError::Truncated)
            } else {
                parse_body(b[4], b.subrange(5, 4 + n as int), lim)
            },
        }
    }
}

/// The view of a decoded frame, or the error.
pub open spec fn decoded(r: Result<Frame, FrameError>) -> Result<FrameView, FrameError> {
    match r {
        Ok(f) => Ok(f@),
        Err(e) => Err(e),
    }
}

/// A position in a body that is being decoded.
struct Cursor<'a> {
    b: &'a [u8],
    pos: usize,
}

impl<'a> Cursor<'a> {
    spec fn ok(self) -> bool {
        self.pos <= self.b@.len()
    }

    fn new(b: &'a [u8]) -> (r: Self)
        ensures
            r.ok(),
            r.b == b,
            r.pos == 0,
    {
        Cursor { b, pos: 0 }
    }

    fn take(&mut self, n: usize) -> (r: Result<&'a [u8], FrameError>)
        requires
            old(self).ok(),
        ensures
            final(self).ok(),
            final(self).b == old(self).b,
            match r {
                Ok(s) => old(self).pos + n <= old(self).b@.len() && final(self).pos == old(self).pos + n
                    && s@ == old(self).b@.subrange(old(self).pos as int, old(self).pos + n),
                Err(e) => old(self).pos + n > old(self).b@.len() && e == FrameError::Truncated
                    && final(self).pos == old(self).pos,
            },
    {
        if self.b.len() - self.pos < n {
            return Err(FrameError::Truncated);
        }
        let s = vstd::slice::slice_subrange(self.b, self.pos, self.pos + n);
        self.pos = self.pos + n;
        Ok(s)
    }

    fn u8v(&mut self) -> (r: Result<u8, FrameError>)
        requires
            old(self).ok(),
        ensures
            final(self).ok(),
            final(self).b == old(self).b,
            match r {
                Ok(v) => old(self).pos < old(self).b@.len() && final(self).pos == old(self).pos + 1 && v
                    == old(self).b@[old(self).pos as int],
                Err(e) => old(self).pos >= old(self).b@.len() && e == FrameError::Truncated
                    && final(self).pos == old(self).pos,
            },
    {
        match self.take(1) {
            Ok(s) => Ok(s[0]),
            Err(e) => Err(e),
        }
    }

    /// The `n`-byte number that follows.
    fn number(&mut self, n: usize) -> (r: Result<u64, FrameError>)
        requires
            old(self).ok(),
            n <= 8,
        ensures
            final(self).ok(),
            final(self).b == old(self).b,
            match r {
                Ok(v) => old(self).pos + n <= old(self).b@.len() && final(self).pos == old(self).pos + n
                    && v == number_at(old(self).b@, old(self).pos as int, n as int),
                Err(e) => old(self).pos + n > old(self).b@.len() && e == FrameError::Truncated
                    && final(self).pos == old(self).pos,
            },
    {
        match self.take(n) {
            Ok(s) => Ok(get_le(s)),
            Err(e) => Err(e),
        }
    }

    /// The raw identity that follows.
    fn id16(&mut self) -> (r: Result<[u8; 16], FrameError>)
        requires
            old(self).ok(),
        ensures
            final(self).ok(),
            final(self).b == old(self).b,
            match r {
                Ok(v) => old(self).pos + 16 <= old(self).b@.len() && final(self).pos == old(self).pos
                    + 16 && v == id_at(old(self).b@, old(self).pos as int),
                Err(e) => old(self).pos + 16 > old(self).b@.len() && e == FrameError::Truncated
                    && final(self).pos == old(self).pos,
            },
    {
        match self.take(16) {
            Ok(s) => {
                let a: [u8; 16] = [
                    s[0],
                    s[1],
                    s[2],
                    s[3],
                    s[4],
                    s[5],
                    s[6],
                    s[7],
                    s[8],
                    s[9],
                    s[10],
                    s[11],
                    s[12],
                    s[13],
                    s[14],
                    s[15],
                ];
                proof {
                    lemma_arr16(a, s@);
                }
                Ok(a)
            },
            Err(e) => Err(e),
        }
    }
}

/// Reads a number of at most two bytes as what fits in sixteen bits.
proof fn lemma_number_fits(b: Seq<u8>, at: int, n: int)
    requires
        0 <= at,
        0 <= n <= 8,
        at + n <= b.len(),
    ensures
        number_at(b, at, n) < crate::bytes::pow256(n as nat),
        n <= 2 ==> number_at(b, at, n) <= u16::MAX,
        n <= 4 ==> number_at(b, at, n) <= u32::MAX,
        number_at(b, at, n) <= u64::MAX,
{
    crate::bytes::lemma_le_value_bound(b.subrange(at, at + n));
    crate::bytes::lemma_pow256_widths();
    if n <= 2 {
        crate::bytes::lemma_pow256_monotonic(n as nat, 2);
    }
    if n <= 4 {
        crate::bytes::lemma_pow256_monotonic(n as nat, 4);
    }
    crate::bytes::lemma_pow256_monotonic(n as nat, 8);
}

fn repeats(s: &Vec<Attachment>) -> (r: bool)
    ensures
        r == repeats_endpoint(s@),
{
    let mut i: usize = 0;
    while i < s.len()
        invariant
            i <= s@.len(),
            forall|a: int, b: int| 0 <= a < i && a < b < s@.len() ==> (#[trigger] s@[a]).id != (
            #[trigger] s@[b]).id,
        decreases s@.len() - i,
    {
        let mut j: usize = i + 1;
        while j < s.len()
            invariant
                i < j <= s@.len(),
                forall|b: int| i < b < j ==> s@[i as int].id != (#[trigger] s@[b]).id,
            decreases s@.len() - j,
        {
            if s[i].id == s[j].id {
                return true;
            }
            j = j + 1;
        }
        i = i + 1;
    }
    false
}

fn decode_data(body: &[u8], lim: &Limits) -> (r: Result<Frame, FrameError>)
    ensures
        decoded(r) == parse_data(body@, *lim),
{
    let mut c = Cursor::new(body);
    let target = match c.id16() {
        Ok(v) => EpId(v),
        Err(e) => {
            return Err(e);
        },
    };
    let corr: u32 = match c.number(4) {
        Ok(v) => {
            proof {
                lemma_number_fits(body@, 16, 4);
            }
            v as u32
        },
        Err(e) => {
            return Err(e);
        },
    };
    let natt: usize = match c.u8v() {
        Ok(v) => v as usize,
        Err(e) => {
            return Err(e);
        },
    };
    if natt > lim.max_attachments {
        return Err(FrameError::AttachCountExceedsLimit(natt));
    }
    let mut attachments: Vec<Attachment> = Vec::with_capacity(natt);
    let mut i: usize = 0;
    while i < natt
        invariant
            i <= natt,
            natt == body@[20],
            natt <= lim.max_attachments,
            body@.len() >= 21,
            c.ok(),
            c.b == body,
            c.pos == 21 + 48 * i,
            attachments@ == Seq::new(i as nat, |k: int| attachment_at(body@, k)),
        decreases natt - i,
    {
        let tid = match c.id16() {
            Ok(v) => TransferId(v),
            Err(e) => {
                return Err(e);
            },
        };
        let id = match c.id16() {
            Ok(v) => EpId(v),
            Err(e) => {
                return Err(e);
            },
        };
        let partner = match c.id16() {
            Ok(v) => EpId(v),
            Err(e) => {
                return Err(e);
            },
        };
        attachments.push(Attachment { tid, id, partner });
        i = i + 1;
        assert(attachments@ =~= Seq::new(i as nat, |k: int| attachment_at(body@, k)));
    }
    let ghost atts = Seq::new(body@[20] as nat, |i: int| attachment_at(body@, i));
    assert(attachments@ =~= atts);
    if repeats(&attachments) {
        return Err(FrameError::DuplicateAttachment);
    }
    let flags: u8 = match c.u8v() {
        Ok(v) => v,
        Err(e) => {
            return Err(e);
        },
    };
    if flags > 3 {
        return Err(FrameError::UnknownKind(KIND_DATA));
    }
    let ghost at = 21 + 48 * natt;
    let native = if flags == 1 || flags == 3 {
        let tid = match c.id16() {
            Ok(v) => TransferId(v),
            Err(e) => {
                return Err(e);
            },
        };
        let rid = match c.id16() {
            Ok(v) => ResourceId(v),
            Err(e) => {
                return Err(e);
            },
        };
        let handle_value: u64 = match c.number(8) {
            Ok(v) => v,
            Err(e) => {
                return Err(e);
            },
        };
        Some(NativeAttachment { tid, rid, handle_value })
    } else {
        None
    };
    let ghost mid = c.pos as int;
    let shared = if flags >= 2 {
        let tid = match c.id16() {
            Ok(v) => TransferId(v),
            Err(e) => {
                return Err(e);
            },
        };
        let rid = match c.id16() {
            Ok(v) => RegionId(v),
            Err(e) => {
                return Err(e);
            },
        };
        let rights: u8 = match c.u8v() {
            Ok(v) => v,
            Err(e) => {
                return Err(e);
            },
        };
        let handle_value: u64 = match c.number(8) {
            Ok(v) => v,
            Err(e) => {
                return Err(e);
            },
        };
        Some(SharedAttachment { tid, rid, rights, handle_value })
    } else {
        None
    };
    let payload = vstd::slice::slice_to_vec(
        vstd::slice::slice_subrange(body, c.pos, body.len()),
    );
    let d = DataInner { target, corr, attachments, payload, native, shared };
    assert(FrameView::Data(d@) == parse_data(body@, *lim)->Ok_0);
    Ok(Frame::Data(d))
}

fn decode_closed_notify(body: &[u8], lim: &Limits) -> (r: Result<Frame, FrameError>)
    ensures
        decoded(r) == parse_closed_notify(body@, *lim),
{
    let mut c = Cursor::new(body);
    let count: usize = match c.number(2) {
        Ok(v) => {
            proof {
                lemma_number_fits(body@, 0, 2);
            }
            v as usize
        },
        Err(e) => {
            return Err(e);
        },
    };
    // Sixteen bits never exceed 256 * 256.
    if lim.max_attachments < 256 && count > lim.max_attachments * 256 {
        return Err(FrameError::BodyTooShort);
    }
    let mut entries: Vec<(EpId, Cause)> = Vec::with_capacity(count);
    let mut i: usize = 0;
    while i < count
        invariant
            i <= count,
            count == number_at(body@, 0, 2),
            count <= u16::MAX,
            count <= lim.max_attachments * 256,
            body@.len() >= 2,
            c.ok(),
            c.b == body,
            c.pos == 2 + 17 * i,
            entries@ == Seq::new(i as nat, |k: int| entry_at(body@, k)),
        decreases count - i,
    {
        let id = match c.id16() {
            Ok(v) => EpId(v),
            Err(e) => {
                return Err(e);
            },
        };
        let cause = match c.u8v() {
            Ok(v) => if v == 0 {
                Cause::Graceful
            } else {
                Cause::PeerLost
            },
            Err(e) => {
                return Err(e);
            },
        };
        entries.push((id, cause));
        i = i + 1;
        assert(entries@ =~= Seq::new(i as nat, |k: int| entry_at(body@, k)));
    }
    Ok(Frame::ClosedNotify { entries })
}

fn decode_xfer(body: &[u8]) -> (r: Result<Frame, FrameError>)
    ensures
        decoded(r) == parse_xfer(body@),
{
    let mut c = Cursor::new(body);
    let sub: u8 = match c.u8v() {
        Ok(v) => v,
        Err(e) => {
            return Err(e);
        },
    };
    let tid = match c.id16() {
        Ok(v) => TransferId(v),
        Err(e) => {
            return Err(e);
        },
    };
    let msg = if sub == XFER_ACCEPT {
        XferMsg::Accept { tid }
    } else if sub == XFER_REJECT {
        XferMsg::Reject { tid }
    } else if sub == XFER_COMMIT {
        let ep = match c.id16() {
            Ok(v) => EpId(v),
            Err(e) => {
                return Err(e);
            },
        };
        let partner = match c.id16() {
            Ok(v) => EpId(v),
            Err(e) => {
                return Err(e);
            },
        };
        XferMsg::Commit { tid, ep, partner }
    } else if sub == XFER_COMMITTED {
        XferMsg::Committed { tid }
    } else if sub == XFER_ABORT {
        XferMsg::Abort { tid }
    } else if sub == XFER_STATUS {
        XferMsg::Status { tid }
    } else if sub == XFER_STATUS_ACK {
        let status: u8 = match c.u8v() {
            Ok(v) => v,
            Err(e) => {
                return Err(e);
            },
        };
        XferMsg::StatusAck { tid, status }
    } else if sub == XFER_RESULT_ACK {
        XferMsg::ResultAck { tid }
    } else if sub == XFER_NATIVE_ABORT && body.len() < 41 {
        XferMsg::NativeAbort { tid, object: None }
    } else if sub == XFER_NATIVE_COMMIT || sub == XFER_NATIVE_ABORT || sub == XFER_SHARED_COMMIT || sub
        == XFER_SHARED_ABORT {
        let raw = match c.id16() {
            Ok(v) => v,
            Err(e) => {
                return Err(e);
            },
        };
        if sub == XFER_SHARED_COMMIT {
            let rights: u8 = match c.u8v() {
                Ok(v) => v,
                Err(e) => {
                    return Err(e);
                },
            };
            let size: u64 = match c.number(8) {
                Ok(v) => v,
                Err(e) => {
                    return Err(e);
                },
            };
            let handle_value: u64 = match c.number(8) {
                Ok(v) => v,
                Err(e) => {
                    return Err(e);
                },
            };
            XferMsg::SharedCommit { tid, rid: RegionId(raw), rights, size, handle_value }
        } else {
            let handle_value: u64 = match c.number(8) {
                Ok(v) => v,
                Err(e) => {
                    return Err(e);
                },
            };
            if sub == XFER_NATIVE_COMMIT {
                XferMsg::NativeCommit { tid, rid: ResourceId(raw), handle_value }
            } else if sub == XFER_NATIVE_ABORT {
                XferMsg::NativeAbort { tid, object: Some((ResourceId(raw), handle_value)) }
            } else {
                XferMsg::SharedAbort { tid, rid: RegionId(raw), handle_value }
            }
        }
    } else {
        return Err(FrameError::UnknownKind(KIND_XFER));
    };
    Ok(Frame::Xfer(msg))
}

/// Decodes one frame from an exact-length body (bounds-checked by the
/// caller).
pub fn decode_body(kind: u8, body: &[u8], lim: &Limits) -> (r: Result<Frame, FrameError>)
    ensures
        decoded(r) == parse_body(kind, body@, *lim),
{
    let mut c = Cursor::new(body);
    if kind == KIND_HELLO {
        let magic: u64 = match c.number(2) {
            Ok(v) => v,
            Err(e) => {
                return Err(e);
            },
        };
        let version: u64 = match c.number(2) {
            Ok(v) => v,
            Err(e) => {
                return Err(e);
            },
        };
        proof {
            lemma_number_fits(body@, 0, 2);
            lemma_number_fits(body@, 2, 2);
        }
        Ok(Frame::Hello { magic: magic as u16, version: version as u16 })
    } else if kind == KIND_DATA {
        decode_data(body, lim)
    } else if kind == KIND_CLOSE {
        match c.id16() {
            Ok(v) => Ok(Frame::Close { target: EpId(v) }),
            Err(e) => Err(e),
        }
    } else if kind == KIND_CLOSED_NOTIFY {
        decode_closed_notify(body, lim)
    } else if kind == KIND_GRANT {
        let ep = match c.id16() {
            Ok(v) => EpId(v),
            Err(e) => {
                return Err(e);
            },
        };
        let partner = match c.id16() {
            Ok(v) => EpId(v),
            Err(e) => {
                return Err(e);
            },
        };
        match c.id16() {
            Ok(v) => Ok(Frame::Grant { ep, partner, tid: TransferId(v) }),
            Err(e) => Err(e),
        }
    } else if kind == KIND_CREATE {
        Ok(Frame::Create)
    } else if kind == KIND_CREATE_ACK {
        let impl_ep = match c.id16() {
            Ok(v) => EpId(v),
            Err(e) => {
                return Err(e);
            },
        };
        match c.id16() {
            Ok(v) => Ok(Frame::CreateAck { impl_ep, transferable_ep: EpId(v) }),
            Err(e) => Err(e),
        }
    } else if kind == KIND_ERROR {
        match c.u8v() {
            Ok(v) => Ok(Frame::Error(v)),
            Err(e) => Err(e),
        }
    } else if kind == KIND_SHUTDOWN {
        Ok(Frame::Shutdown)
    } else if kind == KIND_XFER {
        decode_xfer(body)
    } else {
        Err(FrameError::UnknownKind(kind))
    }
}

/// Holds a declared length against the cap, before anything is allocated for
/// it. Gives the number of bytes to read next: kind and body.
pub fn check_declared(declared: u32, lim: &Limits) -> (r: Result<u32, FrameError>)
    ensures
        match declared_len(declared as nat, *lim) {
            Ok(n) => r == Ok::<u32, FrameError>(n as u32) && n == declared,
            Err(e) => r == Err::<u32, FrameError>(e),
        },
{
    if declared > lim.max_frame_body {
        return Err(FrameError::TooLarge { declared, cap: lim.max_frame_body });
    }
    if declared == 0 {
        return Err(FrameError::Truncated);
    }
    Ok(declared)
}

/// Decodes a full frame, length prefix included, from a buffer that holds
/// exactly one. The cap is enforced before the body is looked at.
pub fn decode(buf: &[u8], lim: &Limits) -> (r: Result<Frame, FrameError>)
    ensures
        decoded(r) == parse_frame(buf@, *lim),
{
    if buf.len() < 5 {
        return Err(FrameError::Truncated);
    }
    let declared: u64 = get_le(vstd::slice::slice_subrange(buf, 0, 4));
    proof {
        lemma_number_fits(buf@, 0, 4);
    }
    let n: u32 = match check_declared(declared as u32, lim) {
        Ok(n) => n,
        Err(e) => {
            return Err(e);
        },
    };
    if buf.len() - 4 < n as usize {
        return Err(FrameError::Truncated);
    }
    decode_body(buf[4], vstd::slice::slice_subrange(buf, 5, 4 + n as usize), lim)
}

/// Reads the length prefix of a frame that arrives as a stream.
pub fn read_prefix(prefix: &[u8; 4], lim: &Limits) -> (r: Result<u32, FrameError>)
    ensures
        match declared_len(le_value(prefix@), *lim) {
            Ok(n) => r == Ok::<u32, FrameError>(n as u32) && n == le_value(prefix@),
            Err(e) => r == Err::<u32, FrameError>(e),
        },
{
    let v: u64 = get_le(prefix.as_slice());
    proof {
        crate::bytes::lemma_le_value_bound(prefix@);
        crate::bytes::lemma_pow256_widths();
    }
    check_declared(v as u32, lim)
}

/// Decodes what follows the length prefix of a frame that arrives as a
/// stream: the kind byte and the body.
pub fn decode_rest(rest: &[u8], lim: &Limits) -> (r: Result<Frame, FrameError>)
    ensures
        decoded(r) == (if rest@.len() == 0 {
            Err::<FrameView, FrameError>(FrameError::Truncated)
        } else {
            parse_body(rest@[0], rest@.subrange(1, rest@.len() as int), *lim)
        }),
{
    if rest.len() == 0 {
        return Err(FrameError::Truncated);
    }
    decode_body(rest[0], vstd::slice::slice_subrange(rest, 1, rest.len()), lim)
}

} // verus!

//! Where each thing stands on the wire, byte by byte.

use vstd::prelude::*;

use crate::bytes::{
    le_bytes, le_value, lemma_le_bytes_len, lemma_le_value_of_bytes, lemma_pow256_widths,
};
use crate::fabric_error::Cause;
use crate::frame::{
    attachment_at, attachment_bytes, body_bytes, declared_len, frame_bytes, host_only_kind, id_at,
    parse_body, parse_frame, repeats_endpoint, DataView, FrameError, FrameView, XferMsg,
};
use crate::limits::Limits;

verus! {

/// The number in two bytes, the low one first.
pub open spec fn two(b: Seq<u8>, at: int) -> int {
    b[at] + 0x100 * b[at + 1]
}

/// The number in four bytes, the low one first.
pub open spec fn four(b: Seq<u8>, at: int) -> int {
    two(b, at) + 0x1_0000 * two(b, at + 2)
}

/// The number in eight bytes, the low one first.
pub open spec fn eight(b: Seq<u8>, at: int) -> int {
    four(b, at) + 0x1_0000_0000 * four(b, at + 4)
}

/// Do these sixteen bytes stand there?
pub open spec fn stands(b: Seq<u8>, at: int, id: [u8; 16]) -> bool {
    0 <= at && at + 16 <= b.len() && forall|k: int| 0 <= k < 16 ==> b[at + k] == #[trigger] id@[k]
}

/// A number is read low byte first.
pub proof fn law_low_byte_first(s: Seq<u8>)
    ensures
        s.len() == 2 ==> le_value(s) == two(s, 0),
        s.len() == 4 ==> le_value(s) == four(s, 0),
        s.len() == 8 ==> le_value(s) == eight(s, 0),
{
    reveal_with_fuel(le_value, 9);
    if s.len() == 2 {
        assert(s.skip(1).skip(1).len() == 0);
    } else if s.len() == 4 {
        let t = s.skip(1);
        assert(t.skip(1)[0] == s[2] && t.skip(1).skip(1)[0] == s[3]);
        assert(t.skip(1).skip(1).skip(1).len() == 0);
    } else if s.len() == 8 {
        let t = s.skip(1);
        let u = t.skip(1).skip(1);
        let v = u.skip(1).skip(1);
        assert(t[0] == s[1] && t.skip(1)[0] == s[2] && u[0] == s[3] && u.skip(1)[0] == s[4]);
        assert(v[0] == s[5] && v.skip(1)[0] == s[6] && v.skip(1).skip(1)[0] == s[7]);
        assert(v.skip(1).skip(1).skip(1).len() == 0);
    }
}

proof fn lemma_two(b: Seq<u8>, at: int, v: nat)
    requires
        0 <= at,
        at + 2 <= b.len(),
        v < 0x1_0000,
        forall|k: int| 0 <= k < 2 ==> b[at + k] == #[trigger] le_bytes(v, 2)[k],
    ensures
        two(b, at) == v,
{
    lemma_pow256_widths();
    lemma_le_value_of_bytes(v, 2);
    law_low_byte_first(le_bytes(v, 2));
    assert(b[at + 0] == le_bytes(v, 2)[0]);
    assert(b[at + 1] == le_bytes(v, 2)[1]);
}

proof fn lemma_four(b: Seq<u8>, at: int, v: nat)
    requires
        0 <= at,
        at + 4 <= b.len(),
        v < 0x1_0000_0000,
        forall|k: int| 0 <= k < 4 ==> b[at + k] == #[trigger] le_bytes(v, 4)[k],
    ensures
        four(b, at) == v,
{
    lemma_pow256_widths();
    lemma_le_value_of_bytes(v, 4);
    law_low_byte_first(le_bytes(v, 4));
    let w = le_bytes(v, 4);
    assert(b[at + 0] == w[0] && b[at + 1] == w[1] && b[at + 2] == w[2] && b[at + 3] == w[3]);
}

proof fn lemma_eight(b: Seq<u8>, at: int, v: nat)
    requires
        0 <= at,
        at + 8 <= b.len(),
        v < 0x1_0000_0000_0000_0000,
        forall|k: int| 0 <= k < 8 ==> b[at + k] == #[trigger] le_bytes(v, 8)[k],
    ensures
        eight(b, at) == v,
{
    lemma_pow256_widths();
    lemma_le_value_of_bytes(v, 8);
    law_low_byte_first(le_bytes(v, 8));
    let w = le_bytes(v, 8);
    assert(b[at + 0] == w[0] && b[at + 1] == w[1] && b[at + 2] == w[2] && b[at + 3] == w[3]);
    assert(b[at + 4] == w[4] && b[at + 5] == w[5] && b[at + 6] == w[6] && b[at + 7] == w[7]);
}

// ------------------------------------------------------------------------ the frame --

/// A frame on the wire: four bytes that count what follows, one byte for its
/// kind, and its body.
pub proof fn law_a_frame_on_the_wire(f: FrameView)
    requires
        1 + body_bytes(f).len() < 0x1_0000_0000,
    ensures
        ({
            let b = frame_bytes(f);
            &&& b.len() == 5 + body_bytes(f).len()
            &&& four(b, 0) == 1 + body_bytes(f).len()
            &&& b[4] == (match f {
                FrameView::Hello { .. } => 1u8,
                FrameView::Data(_) => 2,
                FrameView::Close { .. } => 3,
                FrameView::ClosedNotify { .. } => 4,
                FrameView::Grant { .. } => 5,
                FrameView::Create => 6,
                FrameView::Shutdown => 7,
                FrameView::CreateAck { .. } => 8,
                FrameView::Error(_) => 9,
                FrameView::Xfer(_) => 10,
            })
            &&& b.skip(5) == body_bytes(f)
        }),
{
    lemma_le_bytes_len(1 + body_bytes(f).len(), 4);
    lemma_four(frame_bytes(f), 0, 1 + body_bytes(f).len());
    assert(frame_bytes(f).skip(5) =~= body_bytes(f));
}

/// The bodies of the short frames.
pub proof fn law_short_bodies(f: FrameView)
    ensures
        ({
            let b = body_bytes(f);
            match f {
                FrameView::Hello { magic, version } => b.len() == 4 && two(b, 0) == magic && two(b, 2)
                    == version,
                FrameView::Close { target } => b.len() == 16 && stands(b, 0, target.0),
                FrameView::Grant { ep, partner, tid } => b.len() == 48 && stands(b, 0, ep.0) && stands(
                    b,
                    16,
                    partner.0,
                ) && stands(b, 32, tid.0),
                FrameView::CreateAck { impl_ep, transferable_ep } => b.len() == 32 && stands(
                    b,
                    0,
                    impl_ep.0,
                ) && stands(b, 16, transferable_ep.0),
                FrameView::Create => b.len() == 0,
                FrameView::Shutdown => b.len() == 0,
                FrameView::Error(code) => b.len() == 1 && b[0] == code,
                _ => true,
            }
        }),
{
    let b = body_bytes(f);
    if let FrameView::Hello { magic, version } = f {
        lemma_le_bytes_len(magic as nat, 2);
        lemma_le_bytes_len(version as nat, 2);
        lemma_two(b, 0, magic as nat);
        lemma_two(b, 2, version as nat);
    }
}

/// The body of a close notice: two bytes that count the endpoints, and behind
/// them each endpoint with one byte for its cause, 0 for graceful and 1 for a
/// lost peer.
pub proof fn law_a_close_notice_on_the_wire(f: FrameView, i: int)
    ensures
        f matches FrameView::ClosedNotify { entries } ==> {
            let b = body_bytes(f);
            &&& b.len() == 2 + 17 * entries.len()
            &&& entries.len() < 0x1_0000 ==> two(b, 0) == entries.len()
            &&& 0 <= i < entries.len() ==> {
                &&& stands(b, 2 + 17 * i, entries[i].0.0)
                &&& b[18 + 17 * i] == (match entries[i].1 {
                    Cause::Graceful => 0u8,
                    Cause::PeerLost => 1,
                })
            }
        },
{
    if let FrameView::ClosedNotify { entries } = f {
        let b = body_bytes(f);
        lemma_le_bytes_len(entries.len(), 2);
        if entries.len() < 0x1_0000 {
            lemma_two(b, 0, entries.len());
        }
        if 0 <= i < entries.len() {
            assert forall|k: int| 0 <= k < 16 implies b[2 + 17 * i + k] == #[trigger] entries[i].0.0@[k] by {
                assert((17 * i + k) / 17 == i && (17 * i + k) % 17 == k);
            }
            assert((17 * i + 16) / 17 == i && (17 * i + 16) % 17 == 16);
        }
    }
}

/// Where the offers of a message end: behind the target, the number, the count
/// of endpoints and each of them.
pub open spec fn flags_at(d: DataView) -> int {
    21 + 48 * (d.attachments.len() as int)
}

/// The body of a message: the endpoint that it is for, its number, the count
/// of the endpoints that it offers, and for each of them the transfer, the
/// endpoint and its partner; one byte that says what else is offered, 1 for a
/// native object, 2 for a region and 3 for both; the native offer and the
/// region offer where there is one; and the payload.
pub proof fn law_a_message_on_the_wire(d: DataView, i: int)
    ensures
        ({
            let b = body_bytes(FrameView::Data(d));
            let at = flags_at(d);
            let mid = at + 1 + if d.native is Some {
                40int
            } else {
                0
            };
            let end = mid + if d.shared is Some {
                41int
            } else {
                0
            };
            &&& b.len() == end + d.payload.len()
            &&& stands(b, 0, d.target.0)
            &&& four(b, 16) == d.corr
            &&& d.attachments.len() < 0x100 ==> b[20] == d.attachments.len()
            &&& 0 <= i < d.attachments.len() ==> {
                &&& stands(b, 21 + 48 * i, d.attachments[i].tid.0)
                &&& stands(b, 37 + 48 * i, d.attachments[i].id.0)
                &&& stands(b, 53 + 48 * i, d.attachments[i].partner.0)
            }
            &&& b[at] == (match (d.native, d.shared) {
                (None, None) => 0u8,
                (Some(_), None) => 1,
                (None, Some(_)) => 2,
                (Some(_), Some(_)) => 3,
            })
            &&& match d.native {
                Some(o) => stands(b, at + 1, o.tid.0) && stands(b, at + 17, o.rid.0) && eight(b, at + 33)
                    == o.handle_value,
                None => true,
            }
            &&& match d.shared {
                Some(o) => stands(b, mid, o.tid.0) && stands(b, mid + 16, o.rid.0) && b[mid + 32]
                    == o.rights && eight(b, mid + 33) == o.handle_value,
                None => true,
            }
            &&& b.skip(end) == d.payload
        }),
{
    let b = body_bytes(FrameView::Data(d));
    let n = d.attachments.len();
    let at = flags_at(d);
    let mid = at + 1 + if d.native is Some {
        40int
    } else {
        0
    };
    let end = mid + if d.shared is Some {
        41int
    } else {
        0
    };
    lemma_le_bytes_len(d.corr as nat, 4);
    lemma_le_bytes_len(n, 1);
    if let Some(o) = d.native {
        lemma_le_bytes_len(o.handle_value as nat, 8);
    }
    if let Some(o) = d.shared {
        lemma_le_bytes_len(o.handle_value as nat, 8);
    }
    lemma_four(b, 16, d.corr as nat);
    if n < 0x100 {
        reveal_with_fuel(le_bytes, 2);
        assert(b[20] == le_bytes(n, 1)[0]);
    }
    if 0 <= i < n {
        assert forall|k: int| 0 <= k < 48 implies b[21 + 48 * i + k]
            == #[trigger] attachment_bytes(d.attachments[i])[k] by {
            assert((48 * i + k) / 48 == i && (48 * i + k) % 48 == k);
            assert(21 + 48 * i + k < at);
        }
        let a = attachment_bytes(d.attachments[i]);
        assert forall|k: int| 0 <= k < 16 implies b[21 + 48 * i + k]
            == #[trigger] d.attachments[i].tid.0@[k] by {
            assert(b[21 + 48 * i + k] == a[k]);
        }
        assert forall|k: int| 0 <= k < 16 implies b[37 + 48 * i + k]
            == #[trigger] d.attachments[i].id.0@[k] by {
            assert(b[21 + 48 * i + (16 + k)] == a[16 + k]);
        }
        assert forall|k: int| 0 <= k < 16 implies b[53 + 48 * i + k]
            == #[trigger] d.attachments[i].partner.0@[k] by {
            assert(b[21 + 48 * i + (32 + k)] == a[32 + k]);
        }
    }
    if let Some(o) = d.native {
        lemma_eight(b, at + 33, o.handle_value as nat);
    }
    if let Some(o) = d.shared {
        lemma_eight(b, mid + 33, o.handle_value as nat);
    }
    assert(b.skip(end) =~= d.payload);
}

/// The body of a transfer frame: one byte for what is said of the transfer,
/// the transfer, and what goes with it.
pub proof fn law_a_transfer_on_the_wire(x: XferMsg)
    ensures
        ({
            let b = body_bytes(FrameView::Xfer(x));
            match x {
                XferMsg::Accept { tid } => b.len() == 17 && b[0] == 1 && stands(b, 1, tid.0),
                XferMsg::Reject { tid } => b.len() == 17 && b[0] == 2 && stands(b, 1, tid.0),
                XferMsg::Commit { tid, ep, partner } => b.len() == 49 && b[0] == 3 && stands(b, 1, tid.0)
                    && stands(b, 17, ep.0) && stands(b, 33, partner.0),
                XferMsg::Committed { tid } => b.len() == 17 && b[0] == 4 && stands(b, 1, tid.0),
                XferMsg::Abort { tid } => b.len() == 17 && b[0] == 5 && stands(b, 1, tid.0),
                XferMsg::Status { tid } => b.len() == 17 && b[0] == 6 && stands(b, 1, tid.0),
                XferMsg::StatusAck { tid, status } => b.len() == 18 && b[0] == 7 && stands(b, 1, tid.0)
                    && b[17] == status,
                XferMsg::ResultAck { tid } => b.len() == 17 && b[0] == 8 && stands(b, 1, tid.0),
                XferMsg::NativeCommit { tid, rid, handle_value } => b.len() == 41 && b[0] == 9 && stands(
                    b,
                    1,
                    tid.0,
                ) && stands(b, 17, rid.0) && eight(b, 33) == handle_value,
                XferMsg::NativeAbort { tid, object } => b[0] == 10 && stands(b, 1, tid.0) && match object {
                    Some((rid, handle_value)) => b.len() == 41 && stands(b, 17, rid.0) && eight(b, 33)
                        == handle_value,
                    None => b.len() == 17,
                },
                XferMsg::SharedCommit { tid, rid, rights, size, handle_value } => b.len() == 50 && b[0]
                    == 11 && stands(b, 1, tid.0) && stands(b, 17, rid.0) && b[33] == rights && eight(
                    b,
                    34,
                ) == size && eight(b, 42) == handle_value,
                XferMsg::SharedAbort { tid, rid, handle_value } => b.len() == 41 && b[0] == 12 && stands(
                    b,
                    1,
                    tid.0,
                ) && stands(b, 17, rid.0) && eight(b, 33) == handle_value,
            }
        }),
{
    let b = body_bytes(FrameView::Xfer(x));
    match x {
        XferMsg::NativeCommit { tid, rid, handle_value } => {
            lemma_le_bytes_len(handle_value as nat, 8);
            lemma_eight(b, 33, handle_value as nat);
        },
        XferMsg::NativeAbort { tid, object } => {
            if let Some((rid, handle_value)) = object {
                lemma_le_bytes_len(handle_value as nat, 8);
                lemma_eight(b, 33, handle_value as nat);
            }
        },
        XferMsg::SharedCommit { tid, rid, rights, size, handle_value } => {
            lemma_le_bytes_len(size as nat, 8);
            lemma_le_bytes_len(handle_value as nat, 8);
            lemma_eight(b, 34, size as nat);
            lemma_eight(b, 42, handle_value as nat);
        },
        XferMsg::SharedAbort { tid, rid, handle_value } => {
            lemma_le_bytes_len(handle_value as nat, 8);
            lemma_eight(b, 33, handle_value as nat);
        },
        _ => {},
    }
}

/// What a frame is reckoned to cost is what it takes on the wire; a greeting
/// is reckoned one byte more.
pub proof fn law_cost_is_the_size(f: FrameView)
    ensures
        f.cost() == frame_bytes(f).len() + (if f is Hello {
            1int
        } else {
            0
        }),
{
    lemma_le_bytes_len(1 + body_bytes(f).len(), 4);
    law_short_bodies(f);
    law_a_close_notice_on_the_wire(f, 0);
    if let FrameView::Data(d) = f {
        law_a_message_on_the_wire(d, 0);
    }
    if let FrameView::Xfer(x) = f {
        law_a_transfer_on_the_wire(x);
    }
}

// ------------------------------------------------------------------------- reading --

/// What only the host says: close notices, grants, new pairs and errors.
pub proof fn law_what_only_the_host_says(f: FrameView)
    ensures
        host_only_kind(f.kind()) <==> f is ClosedNotify || f is Grant || f is CreateAck || f is Error,
{
}

/// A declared length is refused if it is above the cap, which the refusal
/// names with it, or nothing at all; any other is how much to read.
pub proof fn law_lengths_are_capped(declared: nat, lim: Limits)
    requires
        declared < 0x1_0000_0000,
    ensures
        match declared_len(declared, lim) {
            Ok(n) => n == declared && 0 < n <= lim.max_frame_body,
            Err(FrameError::TooLarge { declared: d, cap }) => d == declared && cap == lim.max_frame_body
                && d > cap,
            Err(e) => e == FrameError::Truncated && declared == 0,
        },
{
}

/// Reading a frame: fewer than five bytes, or fewer than were declared, are no
/// frame yet; otherwise it is read by its kind from the bytes that were
/// declared, and what stands behind them does not matter.
pub proof fn law_frames_are_read_by_their_length(b: Seq<u8>, rest: Seq<u8>, lim: Limits)
    ensures
        ({
            let r = parse_frame(b, lim);
            let n = four(b, 0);
            &&& b.len() < 5 ==> r == Err::<FrameView, FrameError>(FrameError::Truncated)
            &&& b.len() >= 5 && n > lim.max_frame_body ==> r == Err::<FrameView, FrameError>(
                FrameError::TooLarge { declared: n as u32, cap: lim.max_frame_body },
            )
            &&& b.len() >= 5 && n <= lim.max_frame_body && (n == 0 || b.len() < 4 + n) ==> r == Err::<
                FrameView,
                FrameError,
            >(FrameError::Truncated)
            &&& b.len() >= 5 && 0 < n <= lim.max_frame_body && b.len() >= 4 + n ==> {
                &&& r == parse_body(b[4], b.subrange(5, 4 + n), lim)
                &&& parse_frame(b + rest, lim) == r
            }
        }),
{
    if b.len() >= 5 {
        let n = four(b, 0);
        law_low_byte_first(b.subrange(0, 4));
        assert((b + rest).subrange(0, 4) =~= b.subrange(0, 4));
        if b.len() >= 4 + n && n > 0 {
            assert((b + rest).subrange(5, 4 + n) =~= b.subrange(5, 4 + n));
        }
    }
}

/// No frame has any other kind than these ten.
pub proof fn law_other_kinds_are_unknown(kind: u8, b: Seq<u8>, lim: Limits)
    ensures
        kind == 0 || kind > 10 ==> parse_body(kind, b, lim) == Err::<FrameView, FrameError>(
            FrameError::UnknownKind(kind),
        ),
        parse_body(kind, b, lim) matches Ok(f) ==> f.kind() == kind,
{
}

/// How long the body of each kind must be; a shorter one is cut off.
pub proof fn law_short_bodies_are_cut_off(kind: u8, b: Seq<u8>, lim: Limits)
    ensures
        ({
            let cut = parse_body(kind, b, lim) == Err::<FrameView, FrameError>(FrameError::Truncated);
            let read = parse_body(kind, b, lim) is Ok;
            &&& kind == 1 ==> if b.len() < 4 {
                cut
            } else {
                read
            }
            &&& kind == 2 && b.len() < 21 ==> cut
            &&& kind == 3 ==> if b.len() < 16 {
                cut
            } else {
                read
            }
            &&& kind == 4 && b.len() < 2 ==> cut
            &&& kind == 5 ==> if b.len() < 48 {
                cut
            } else {
                read
            }
            &&& kind == 6 || kind == 7 ==> read
            &&& kind == 8 ==> if b.len() < 32 {
                cut
            } else {
                read
            }
            &&& kind == 9 ==> if b.len() < 1 {
                cut
            } else {
                read
            }
            &&& kind == 10 && b.len() < 17 ==> cut
            &&& kind == 10 && b.len() >= 17 && (b[0] == 0 || b[0] > 12) ==> parse_body(kind, b, lim)
                == Err::<FrameView, FrameError>(FrameError::UnknownKind(10))
            &&& kind == 10 && b.len() >= 17 && 0 < b[0] <= 12 ==> {
                let need: int = if b[0] == 3 {
                    49
                } else if b[0] == 7 {
                    18
                } else if b[0] == 9 || b[0] == 12 {
                    41
                } else if b[0] == 11 {
                    50
                } else {
                    17
                };
                if b.len() < need {
                    cut
                } else {
                    read
                }
            }
        }),
{
}

/// How a message is refused: more offered endpoints than the limit first,
/// then a body that ends among them, an endpoint offered twice, an unknown
/// offer, and a body that ends before the payload could begin.
pub proof fn law_how_a_message_is_refused(b: Seq<u8>, lim: Limits)
    requires
        b.len() >= 21,
    ensures
        ({
            let r = parse_body(2, b, lim);
            let n = b[20] as int;
            let at = 21 + 48 * n;
            let twice = exists|i: int, j: int|
                0 <= i < j < n && #[trigger] id_at(b, 37 + 48 * i) == #[trigger] id_at(b, 37 + 48 * j);
            let cut = r == Err::<FrameView, FrameError>(FrameError::Truncated);
            if n > lim.max_attachments {
                r == Err::<FrameView, FrameError>(FrameError::AttachCountExceedsLimit(n as usize))
            } else if b.len() < at {
                cut
            } else if twice {
                r == Err::<FrameView, FrameError>(FrameError::DuplicateAttachment)
            } else if b.len() == at {
                cut
            } else if b[at] > 3 {
                r == Err::<FrameView, FrameError>(FrameError::UnknownKind(2))
            } else if b.len() < at + 1 + (if b[at] == 1 {
                40int
            } else if b[at] == 2 {
                41
            } else if b[at] == 3 {
                81
            } else {
                0
            }) {
                cut
            } else {
                r is Ok
            }
        }),
{
    let n = b[20] as int;
    let atts = Seq::new(n as nat, |i: int| attachment_at(b, i));
    if repeats_endpoint(atts) {
        let (i, j) = choose|i: int, j: int|
            0 <= i < j < atts.len() && (#[trigger] atts[i]).id == (#[trigger] atts[j]).id;
        assert(id_at(b, 37 + 48 * i) == id_at(b, 37 + 48 * j));
    }
    assert forall|i: int, j: int|
        0 <= i < j < n && #[trigger] id_at(b, 37 + 48 * i) == #[trigger] id_at(
            b,
            37 + 48 * j,
        ) implies repeats_endpoint(atts) by {
        assert(atts[i].id == atts[j].id);
    }
}

/// A close notice that counts more endpoints than 256 for each that a message
/// may offer is refused; one whose body ends among them is cut off.
pub proof fn law_how_a_close_notice_is_refused(b: Seq<u8>, lim: Limits)
    requires
        b.len() >= 2,
    ensures
        ({
            let r = parse_body(4, b, lim);
            let n = two(b, 0);
            if n > lim.max_attachments * 256 {
                r == Err::<FrameView, FrameError>(FrameError::BodyTooShort)
            } else if b.len() < 2 + 17 * n {
                r == Err::<FrameView, FrameError>(FrameError::Truncated)
            } else {
                r matches Ok(FrameView::ClosedNotify { entries }) && entries.len() == n
            }
        }),
{
    law_low_byte_first(b.subrange(0, 2));
}

} // verus!

//! Laws of the wire format.

use vstd::prelude::*;

use crate::bytes::{le_bytes, le_value, lemma_le_bytes_len, lemma_le_value_of_bytes, lemma_pow256_widths, pow256};
use crate::fabric_error::Cause;
use crate::frame::{
    attachment_at, attachment_bytes, attachments_bytes, body_bytes, entries_bytes, entry_at,
    entry_bytes, frame_bytes, id_at, lemma_arr16, native_bytes, number_at, offer_flags, parse_body,
    parse_frame, parse_xfer, repeats_endpoint, shared_bytes, xfer_bytes, Attachment, DataView, FrameError,
    FrameView, XferMsg, KIND_DATA,
};
use crate::id::EpId;
use crate::limits::Limits;

verus! {

/// A frame that fits the counts of the format and the limits of the reader.
pub open spec fn encodable(f: FrameView, lim: Limits) -> bool {
    &&& 1 + body_bytes(f).len() <= lim.max_frame_body
    &&& match f {
        FrameView::Data(d) => d.attachments.len() <= 255 && d.attachments.len() <= lim.max_attachments
            && !repeats_endpoint(d.attachments),
        FrameView::ClosedNotify { entries } => entries.len() <= 0xffff && entries.len()
            <= lim.max_attachments * 256,
        _ => true,
    }
}

proof fn lemma_id_at(b: Seq<u8>, at: int, a: [u8; 16])
    requires
        0 <= at,
        at + 16 <= b.len(),
        forall|k: int| 0 <= k < 16 ==> b[at + k] == #[trigger] a@[k],
    ensures
        id_at(b, at) == a,
{
    assert(a@ =~= b.subrange(at, at + 16));
    lemma_arr16(a, b.subrange(at, at + 16));
}

proof fn lemma_number_at(b: Seq<u8>, at: int, n: nat, v: nat)
    requires
        0 <= at,
        at + n <= b.len(),
        v < pow256(n),
        forall|k: int| 0 <= k < n ==> b[at + k] == #[trigger] le_bytes(v, n)[k],
    ensures
        number_at(b, at, n as int) == v,
{
    lemma_le_value_of_bytes(v, n);
    assert(b.subrange(at, at + n) =~= le_bytes(v, n));
}

proof fn lemma_xfer(x: XferMsg)
    ensures
        parse_xfer(xfer_bytes(x)) == Ok::<FrameView, FrameError>(FrameView::Xfer(x)),
{
    let b = xfer_bytes(x);
    lemma_pow256_widths();
    match x {
        XferMsg::Accept { tid } => {
            lemma_id_at(b, 1, tid.0);
        },
        XferMsg::Reject { tid } => {
            lemma_id_at(b, 1, tid.0);
        },
        XferMsg::Commit { tid, ep, partner } => {
            lemma_id_at(b, 1, tid.0);
            lemma_id_at(b, 17, ep.0);
            lemma_id_at(b, 33, partner.0);
        },
        XferMsg::Committed { tid } => {
            lemma_id_at(b, 1, tid.0);
        },
        XferMsg::Abort { tid } => {
            lemma_id_at(b, 1, tid.0);
        },
        XferMsg::Status { tid } => {
            lemma_id_at(b, 1, tid.0);
        },
        XferMsg::StatusAck { tid, status } => {
            lemma_id_at(b, 1, tid.0);
        },
        XferMsg::ResultAck { tid } => {
            lemma_id_at(b, 1, tid.0);
        },
        XferMsg::NativeCommit { tid, rid, handle_value } => {
            lemma_le_bytes_len(handle_value as nat, 8);
            lemma_id_at(b, 1, tid.0);
            lemma_id_at(b, 17, rid.0);
            lemma_number_at(b, 33, 8, handle_value as nat);
        },
        XferMsg::NativeAbort { tid, object } => {
            lemma_id_at(b, 1, tid.0);
            if let Some((rid, handle_value)) = object {
                lemma_le_bytes_len(handle_value as nat, 8);
                lemma_id_at(b, 17, rid.0);
                lemma_number_at(b, 33, 8, handle_value as nat);
            }
        },
        XferMsg::SharedCommit { tid, rid, rights, size, handle_value } => {
            lemma_le_bytes_len(handle_value as nat, 8);
            lemma_le_bytes_len(size as nat, 8);
            lemma_id_at(b, 1, tid.0);
            lemma_id_at(b, 17, rid.0);
            lemma_number_at(b, 34, 8, size as nat);
            lemma_number_at(b, 42, 8, handle_value as nat);
        },
        XferMsg::SharedAbort { tid, rid, handle_value } => {
            lemma_le_bytes_len(handle_value as nat, 8);
            lemma_id_at(b, 1, tid.0);
            lemma_id_at(b, 17, rid.0);
            lemma_number_at(b, 33, 8, handle_value as nat);
        },
    }
}

proof fn lemma_attachments(b: Seq<u8>, s: Seq<Attachment>)
    requires
        b.len() >= 21 + s.len() * 48,
        b.subrange(21, 21 + s.len() as int * 48) == attachments_bytes(s),
    ensures
        Seq::new(s.len(), |i: int| attachment_at(b, i)) == s,
{
    let flat = attachments_bytes(s);
    assert forall|i: int| 0 <= i < s.len() implies attachment_at(b, i) == #[trigger] s[i] by {
        let one = attachment_bytes(s[i]);
        assert forall|k: int| 0 <= k < 48 implies b[21 + 48 * i + k] == #[trigger] one[k] by {
            let j = 48 * i + k;
            assert(j / 48 == i && j % 48 == k);
            assert(flat[j] == b[21 + j]);
        }
        assert forall|k: int| 0 <= k < 16 implies b[21 + 48 * i + k] == #[trigger] s[i].tid.0@[k] by {
            assert(one[k] == s[i].tid.0@[k]);
        }
        assert forall|k: int| 0 <= k < 16 implies b[37 + 48 * i + k] == #[trigger] s[i].id.0@[k] by {
            assert(one[16 + k] == s[i].id.0@[k]);
        }
        assert forall|k: int| 0 <= k < 16 implies b[53 + 48 * i + k] == #[trigger] s[i].partner.0@[k] by {
            assert(one[32 + k] == s[i].partner.0@[k]);
        }
        lemma_id_at(b, 21 + 48 * i, s[i].tid.0);
        lemma_id_at(b, 37 + 48 * i, s[i].id.0);
        lemma_id_at(b, 53 + 48 * i, s[i].partner.0);
    }
    assert(Seq::new(s.len(), |i: int| attachment_at(b, i)) =~= s);
}

proof fn lemma_entries(b: Seq<u8>, s: Seq<(EpId, Cause)>)
    requires
        b.len() >= 2 + s.len() * 17,
        b.subrange(2, 2 + s.len() as int * 17) == entries_bytes(s),
    ensures
        Seq::new(s.len(), |i: int| entry_at(b, i)) == s,
{
    let flat = entries_bytes(s);
    assert forall|i: int| 0 <= i < s.len() implies entry_at(b, i) == #[trigger] s[i] by {
        let one = entry_bytes(s[i]);
        assert forall|k: int| 0 <= k < 17 implies b[2 + 17 * i + k] == #[trigger] one[k] by {
            let j = 17 * i + k;
            assert(j / 17 == i && j % 17 == k);
            assert(flat[j] == b[2 + j]);
        }
        assert forall|k: int| 0 <= k < 16 implies b[2 + 17 * i + k] == #[trigger] s[i].0.0@[k] by {
            assert(one[k] == s[i].0.0@[k]);
        }
        assert(b[2 + 17 * i + 16] == one[16]);
        lemma_id_at(b, 2 + 17 * i, s[i].0.0);
    }
    assert(Seq::new(s.len(), |i: int| entry_at(b, i)) =~= s);
}

proof fn lemma_data(d: DataView, lim: Limits)
    requires
        d.attachments.len() <= 255,
        d.attachments.len() <= lim.max_attachments,
        !repeats_endpoint(d.attachments),
    ensures
        parse_body(KIND_DATA, body_bytes(FrameView::Data(d)), lim) == Ok::<FrameView, FrameError>(
            FrameView::Data(d),
        ),
{
    let b = body_bytes(FrameView::Data(d));
    let n = d.attachments.len();
    lemma_pow256_widths();
    lemma_le_bytes_len(d.corr as nat, 4);
    lemma_le_bytes_len(n, 1);
    lemma_le_value_of_bytes(n, 1);
    reveal_with_fuel(le_value, 2);
    assert(b[20] == le_bytes(n, 1)[0]);
    assert(b[20] == n);
    lemma_id_at(b, 0, d.target.0);
    lemma_number_at(b, 16, 4, d.corr as nat);
    assert(b.subrange(21, 21 + n as int * 48) =~= attachments_bytes(d.attachments));
    lemma_attachments(b, d.attachments);
    let at = 21 + 48 * n as int;
    assert(b[at] == offer_flags(d));
    let mid = at + 1 + native_bytes(d.native).len() as int;
    if let Some(x) = d.native {
        lemma_le_bytes_len(x.handle_value as nat, 8);
        let nb = native_bytes(d.native);
        assert(b.subrange(at + 1, at + 41) =~= nb);
        assert forall|k: int| 0 <= k < 40 implies b[at + 1 + k] == #[trigger] nb[k] by {
            assert(b.subrange(at + 1, at + 41)[k] == b[at + 1 + k]);
        }
        assert forall|k: int| 0 <= k < 16 implies b[at + 1 + k] == #[trigger] x.tid.0@[k] by {
            assert(nb[k] == x.tid.0@[k]);
        }
        assert forall|k: int| 0 <= k < 16 implies b[at + 17 + k] == #[trigger] x.rid.0@[k] by {
            assert(nb[16 + k] == x.rid.0@[k]);
        }
        assert forall|k: int| 0 <= k < 8 implies b[at + 33 + k] == #[trigger] le_bytes(
            x.handle_value as nat,
            8,
        )[k] by {
            assert(nb[32 + k] == le_bytes(x.handle_value as nat, 8)[k]);
        }
        lemma_id_at(b, at + 1, x.tid.0);
        lemma_id_at(b, at + 17, x.rid.0);
        lemma_number_at(b, at + 33, 8, x.handle_value as nat);
    }
    let end = mid + shared_bytes(d.shared).len() as int;
    if let Some(x) = d.shared {
        lemma_le_bytes_len(x.handle_value as nat, 8);
        let sb = shared_bytes(d.shared);
        assert(b.subrange(mid, mid + 41) =~= sb);
        assert forall|k: int| 0 <= k < 41 implies b[mid + k] == #[trigger] sb[k] by {
            assert(b.subrange(mid, mid + 41)[k] == b[mid + k]);
        }
        assert forall|k: int| 0 <= k < 16 implies b[mid + k] == #[trigger] x.tid.0@[k] by {
            assert(sb[k] == x.tid.0@[k]);
        }
        assert forall|k: int| 0 <= k < 16 implies b[mid + 16 + k] == #[trigger] x.rid.0@[k] by {
            assert(sb[16 + k] == x.rid.0@[k]);
        }
        assert(b[mid + 32] == sb[32]);
        assert forall|k: int| 0 <= k < 8 implies b[mid + 33 + k] == #[trigger] le_bytes(
            x.handle_value as nat,
            8,
        )[k] by {
            assert(sb[33 + k] == le_bytes(x.handle_value as nat, 8)[k]);
        }
        lemma_id_at(b, mid, x.tid.0);
        lemma_id_at(b, mid + 16, x.rid.0);
        lemma_number_at(b, mid + 33, 8, x.handle_value as nat);
    }
    assert(b.subrange(end, b.len() as int) =~= d.payload);
}

/// The body of a frame, read as a body of its kind, is the frame.
pub proof fn law_body_round_trip(f: FrameView, lim: Limits)
    requires
        encodable(f, lim),
    ensures
        parse_body(f.kind(), body_bytes(f), lim) == Ok::<FrameView, FrameError>(f),
{
    let b = body_bytes(f);
    lemma_pow256_widths();
    match f {
        FrameView::Hello { magic, version } => {
            lemma_le_bytes_len(magic as nat, 2);
            lemma_le_bytes_len(version as nat, 2);
            lemma_number_at(b, 0, 2, magic as nat);
            lemma_number_at(b, 2, 2, version as nat);
        },
        FrameView::Data(d) => {
            lemma_data(d, lim);
        },
        FrameView::Close { target } => {
            lemma_id_at(b, 0, target.0);
        },
        FrameView::ClosedNotify { entries } => {
            let n = entries.len();
            lemma_le_bytes_len(n, 2);
            lemma_number_at(b, 0, 2, n);
            assert(b.subrange(2, 2 + n as int * 17) =~= entries_bytes(entries));
            lemma_entries(b, entries);
        },
        FrameView::Grant { ep, partner, tid } => {
            lemma_id_at(b, 0, ep.0);
            lemma_id_at(b, 16, partner.0);
            lemma_id_at(b, 32, tid.0);
        },
        FrameView::Create => {},
        FrameView::CreateAck { impl_ep, transferable_ep } => {
            lemma_id_at(b, 0, impl_ep.0);
            lemma_id_at(b, 16, transferable_ep.0);
        },
        FrameView::Error(code) => {},
        FrameView::Shutdown => {},
        FrameView::Xfer(x) => {
            lemma_xfer(x);
        },
    }
}

/// Decoding what was encoded gives the frame back, whatever follows it in the
/// buffer.
pub proof fn law_frame_round_trip(f: FrameView, lim: Limits, rest: Seq<u8>)
    requires
        encodable(f, lim),
    ensures
        parse_frame(frame_bytes(f) + rest, lim) == Ok::<FrameView, FrameError>(f),
{
    let body = body_bytes(f);
    let n = 1 + body.len();
    let b = frame_bytes(f) + rest;
    lemma_pow256_widths();
    lemma_le_bytes_len(n, 4);
    lemma_number_at(b, 0, 4, n);
    assert(b[4] == f.kind());
    assert(b.subrange(5, 4 + n as int) =~= body);
    law_body_round_trip(f, lim);
}

/// A frame never takes more bytes than its accounted cost.
pub proof fn law_cost_covers_bytes(f: FrameView)
    ensures
        frame_bytes(f).len() <= f.cost(),
{
    lemma_le_bytes_len(1 + body_bytes(f).len(), 4);
    match f {
        FrameView::Hello { magic, version } => {
            lemma_le_bytes_len(magic as nat, 2);
            lemma_le_bytes_len(version as nat, 2);
        },
        FrameView::Data(d) => {
            lemma_le_bytes_len(d.corr as nat, 4);
            lemma_le_bytes_len(d.attachments.len(), 1);
            if let Some(x) = d.native {
                lemma_le_bytes_len(x.handle_value as nat, 8);
            }
            if let Some(x) = d.shared {
                lemma_le_bytes_len(x.handle_value as nat, 8);
            }
        },
        FrameView::ClosedNotify { entries } => {
            lemma_le_bytes_len(entries.len(), 2);
        },
        FrameView::Xfer(XferMsg::NativeCommit { tid, rid, handle_value }) => {
            lemma_le_bytes_len(handle_value as nat, 8);
        },
        FrameView::Xfer(XferMsg::NativeAbort { tid, object }) => {
            if let Some((rid, handle_value)) = object {
                lemma_le_bytes_len(handle_value as nat, 8);
            }
        },
        FrameView::Xfer(XferMsg::SharedCommit { tid, rid, rights, size, handle_value }) => {
            lemma_le_bytes_len(handle_value as nat, 8);
            lemma_le_bytes_len(size as nat, 8);
        },
        FrameView::Xfer(XferMsg::SharedAbort { tid, rid, handle_value }) => {
            lemma_le_bytes_len(handle_value as nat, 8);
        },
        _ => {},
    }
}

/// No message that comes off the wire offers an endpoint twice.
pub proof fn law_wire_offers_differ(kind: u8, b: Seq<u8>, lim: Limits)
    ensures
        parse_body(kind, b, lim) matches Ok(FrameView::Data(d)) ==> !repeats_endpoint(d.attachments),
{
}

/// A declared length over the cap is refused whatever the rest of the buffer
/// holds, so no accepted frame is longer than the cap allows.
pub proof fn law_cap_comes_first(b: Seq<u8>, lim: Limits)
    requires
        b.len() >= 5,
        number_at(b, 0, 4) > lim.max_frame_body,
    ensures
        parse_frame(b, lim) == Err::<FrameView, FrameError>(
            FrameError::TooLarge { declared: number_at(b, 0, 4) as u32, cap: lim.max_frame_body },
        ),
{
}

} // verus!

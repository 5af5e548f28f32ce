//! Native resources: kernel objects that move between peers through host
//! escrow, one per transfer. The identity is not the authority; the record
//! of who may use the object lives with the host.

use vstd::prelude::*;

use crate::bytes::get_le16;
use crate::frame::{id_at, lemma_arr16};
use crate::id::{
    all_zero, code16, draw16, is_zero16, lemma_code16_injective, same16, DrawError, NoneTaken,
    TransferId,
};
use crate::table::Key;
use crate::text::{dec_text, push_dec};

verus! {

/// Identity of a native resource.
#[derive(Clone, Copy, Debug, Eq, Hash, PartialOrd, Ord)]
pub struct ResourceId(pub [u8; 16]);

impl PartialEq for ResourceId {
    fn eq(&self, other: &Self) -> (r: bool) {
        same16(&self.0, &other.0)
    }
}

impl vstd::std_specs::cmp::PartialEqSpecImpl for ResourceId {
    open spec fn obeys_eq_spec() -> bool {
        true
    }

    open spec fn eq_spec(&self, other: &Self) -> bool {
        *self == *other
    }
}

impl Key for ResourceId {
    open spec fn code(self) -> u128 {
        code16(self.0)
    }

    proof fn code_injective(a: Self, b: Self) {
        lemma_code16_injective(a.0, b.0);
    }

    fn to_code(self) -> (c: u128) {
        get_le16(&self.0)
    }
}

impl ResourceId {
    /// The identity with these raw bytes.
    pub fn from_raw(b: [u8; 16]) -> (r: Self)
        ensures
            r == ResourceId(b),
    {
        ResourceId(b)
    }

    /// Zero names no resource.
    pub fn is_zero(self) -> (r: bool)
        ensures
            r == all_zero(self.0),
    {
        is_zero16(&self.0)
    }
}

/// A set of resource identities that must not be drawn again.
pub trait ResourceSpace {
    /// Is `id` in the set?
    spec fn has(&self, id: ResourceId) -> bool;

    fn contains(&self, id: ResourceId) -> (r: bool)
        ensures
            r == self.has(id),
    ;
}

impl ResourceSpace for NoneTaken {
    open spec fn has(&self, id: ResourceId) -> bool {
        false
    }

    fn contains(&self, id: ResourceId) -> (r: bool) {
        false
    }
}

/// The resource identity that a draw gives: none for zero or one taken.
pub fn admit_resource_id<T: ResourceSpace>(b: [u8; 16], taken: &T) -> (r: Option<ResourceId>)
    ensures
        r == (if all_zero(b) || taken.has(ResourceId(b)) {
            None::<ResourceId>
        } else {
            Some(ResourceId(b))
        }),
{
    let id = ResourceId(b);
    if !id.is_zero() && !taken.contains(id) {
        Some(id)
    } else {
        None
    }
}

/// What one draw settles: a failed source ends the search, an identity that is
/// neither zero nor taken is the one, and nothing means to draw again.
pub fn settle_resource_id<T: ResourceSpace>(draw: Result<[u8; 16], DrawError>, taken: &T) -> (r: Option<
    Result<ResourceId, DrawError>,
>)
    ensures
        r == (match draw {
            Err(e) => Some(Err::<ResourceId, DrawError>(e)),
            Ok(b) => if all_zero(b) || taken.has(ResourceId(b)) {
                None
            } else {
                Some(Ok(ResourceId(b)))
            },
        }),
{
    match draw {
        Ok(b) => match admit_resource_id(b, taken) {
            Some(id) => Some(Ok(id)),
            None => None,
        },
        Err(e) => Some(Err(e)),
    }
}

/// Draws a fresh resource identity from OS entropy, retrying on zero and on
/// collision with `taken`.
pub fn fresh_resource_id<T: ResourceSpace>(taken: &T) -> (r: Result<ResourceId, DrawError>)
    ensures
        r matches Ok(id) ==> !all_zero(id.0) && !taken.has(id),
{
    let mut tries: u64 = u64::MAX;
    while tries > 0
        decreases tries,
    {
        if let Some(r) = settle_resource_id(draw16(), taken) {
            return r;
        }
        tries = tries - 1;
    }
    Err(DrawError::Exhausted)
}

/// Where an escrowed object stands in its transaction.
#[derive(Clone, Copy, Debug, PartialEq, Eq, Structural)]
pub enum NativeState {
    Escrowed,
    Committed,
    Aborted,
}

// ------------------------------------------------------------------- lane ---

/// What rides a lane beside the kernel object: its transfer and its resource.
pub open spec fn lane_note_bytes(tid: TransferId, rid: ResourceId) -> Seq<u8> {
    tid.0@ + rid.0@
}

/// The note that accompanies a kernel object.
pub fn lane_note(tid: TransferId, rid: ResourceId) -> (r: [u8; 32])
    ensures
        r@ == lane_note_bytes(tid, rid),
{
    let mut out: [u8; 32] = [0; 32];
    let mut i: usize = 0;
    while i < 16
        invariant
            i <= 16,
            forall|j: int| 0 <= j < i ==> out@[j] == tid.0@[j] && out@[16 + j] == rid.0@[j],
        decreases 16 - i,
    {
        out[i] = tid.0[i];
        out[16 + i] = rid.0[i];
        i = i + 1;
    }
    assert(out@ =~= lane_note_bytes(tid, rid));
    out
}

/// Sixteen bytes of a note.
fn note_id(note: &[u8; 32], at: usize) -> (r: [u8; 16])
    requires
        at <= 16,
    ensures
        r == id_at(note@, at as int),
        r@ == note@.subrange(at as int, at + 16),
{
    let mut a: [u8; 16] = [0; 16];
    let mut i: usize = 0;
    while i < 16
        invariant
            i <= 16,
            at <= 16,
            forall|j: int| 0 <= j < i ==> a@[j] == note@[at + j],
        decreases 16 - i,
    {
        a[i] = note[at + i];
        i = i + 1;
    }
    assert(a@ =~= note@.subrange(at as int, at + 16));
    proof {
        lemma_arr16(a, note@.subrange(at as int, at + 16));
    }
    a
}

/// What a received note names.
pub fn read_lane_note(note: &[u8; 32]) -> (r: (TransferId, ResourceId))
    ensures
        r.0 == TransferId(id_at(note@, 0)),
        r.1 == ResourceId(id_at(note@, 16)),
        lane_note_bytes(r.0, r.1) == note@,
{
    let r = (TransferId(note_id(note, 0)), ResourceId(note_id(note, 16)));
    assert(lane_note_bytes(r.0, r.1) =~= note@);
    r
}

/// What was written for a transfer and a resource reads back as the two.
pub proof fn law_lane_note_round_trip(tid: TransferId, rid: ResourceId)
    ensures
        TransferId(id_at(lane_note_bytes(tid, rid), 0)) == tid,
        ResourceId(id_at(lane_note_bytes(tid, rid), 16)) == rid,
{
    let n = lane_note_bytes(tid, rid);
    assert(n.subrange(0, 16) =~= tid.0@);
    assert(n.subrange(16, 32) =~= rid.0@);
    lemma_arr16(tid.0, n.subrange(0, 16));
    lemma_arr16(rid.0, n.subrange(16, 32));
}

/// Why nothing is taken from a lane.
#[derive(Clone, Copy, Debug, PartialEq, Eq, Structural)]
pub enum LaneErr {
    Closed,
    Missing,
    TooMany(usize),
}

impl LaneErr {
    /// The error in words.
    pub fn message(self) -> (r: String)
        ensures
            r@ == (match self {
                LaneErr::Closed => "lane closed"@,
                LaneErr::Missing => "no SCM_RIGHTS in message"@,
                LaneErr::TooMany(n) => "expected 1 descriptor, got "@ + dec_text(n as nat),
            }),
    {
        match self {
            LaneErr::Closed => String::from_str("lane closed"),
            LaneErr::Missing => String::from_str("no SCM_RIGHTS in message"),
            LaneErr::TooMany(n) => {
                let mut s = String::from_str("expected 1 descriptor, got ");
                push_dec(&mut s, n as u64);
                s
            },
        }
    }
}

/// May what a lane delivered be taken? It must hold bytes and exactly one
/// descriptor; anything else fails closed.
pub fn check_lane(bytes: usize, descriptors: usize) -> (r: Result<(), LaneErr>)
    ensures
        r == (if bytes == 0 {
            Err::<(), LaneErr>(LaneErr::Closed)
        } else if descriptors == 0 {
            Err(LaneErr::Missing)
        } else if descriptors > 1 {
            Err(LaneErr::TooMany(descriptors))
        } else {
            Ok(())
        }),
{
    if bytes == 0 {
        Err(LaneErr::Closed)
    } else if descriptors == 0 {
        Err(LaneErr::Missing)
    } else if descriptors > 1 {
        Err(LaneErr::TooMany(descriptors))
    } else {
        Ok(())
    }
}

} // verus!

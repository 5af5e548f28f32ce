//! What each operation on the authority graph of shared regions does to the
//! standing of every peer, those it names and those it does not.

use vstd::prelude::*;

use crate::limits::Limits;
use crate::router::PeerId;
use crate::shared::{
    authority_drop, backing_bytes, lemma_backing_insert, lemma_backing_split, reader_count,
    reader_move, region_creation, region_derivation, region_grant, without_peer, writer_move,
    Region, RegionErr, RegionId, Regions, Rights,
};

verus! {

/// Are these the same regions, but for one?
pub open spec fn same_but(m: Regions, n: Regions, rid: RegionId) -> bool {
    forall|k: RegionId|
        k != rid ==> (#[trigger] n.contains_key(k) <==> m.contains_key(k)) && (m.contains_key(k)
            ==> n[k] == m[k])
}

/// How many authorities over a region are out.
pub open spec fn standing(r: Region) -> nat {
    match r.writable {
        Some(_) => r.readonly.len() + 1,
        None => r.readonly.len(),
    }
}

/// A region can be made if its size is within bounds, by itself and together
/// with the others, if there is room for one more, and if its name is free.
/// Its maker is the writer, nobody reads it, and no other region changes.
pub proof fn law_maker_is_the_writer(m: Regions, rid: RegionId, size: u64, p: PeerId, lim: Limits)
    requires
        m.dom().finite(),
    ensures
        ({
            let r = region_creation(m, rid, size, p, lim);
            let fits = 0 < size <= lim.max_region_size && backing_bytes(m) + size
                <= lim.max_total_region_bytes;
            let free = m.len() < lim.max_regions && !m.contains_key(rid);
            &&& r is Ok <==> fits && free
            &&& !fits ==> r == Err::<Regions, RegionErr>(RegionErr::SizeExceeded)
            &&& fits && !free ==> r == Err::<Regions, RegionErr>(RegionErr::CapacityExceeded)
            &&& r is Ok ==> {
                let n = r->Ok_0;
                &&& n.contains_key(rid)
                &&& n[rid].size == size
                &&& n[rid].writable == Some(p)
                &&& forall|q: PeerId| !#[trigger] n[rid].readonly.contains(q)
                &&& same_but(m, n, rid)
                &&& n.len() == m.len() + 1
                &&& backing_bytes(n) == backing_bytes(m) + size
            }
        }),
{
    if region_creation(m, rid, size, p, lim) is Ok {
        lemma_backing_insert(m, rid, region_creation(m, rid, size, p, lim)->Ok_0[rid]);
    }
}

/// The backing of all regions is the sum of their sizes: none without a
/// region, and each region counts with its own size.
pub proof fn law_backing_is_the_sum(m: Regions, rid: RegionId)
    requires
        m.dom().finite(),
    ensures
        backing_bytes(Map::empty()) == 0,
        m.contains_key(rid) ==> backing_bytes(m) == m[rid].size + backing_bytes(m.remove(rid)),
{
    assert(Map::<RegionId, Region>::empty().dom() =~= Set::empty());
    if m.contains_key(rid) {
        lemma_backing_split(m, rid);
    }
}

/// A read-only grant succeeds for a known region with an authority to spare
/// and a peer that is not its writer. That peer reads the region from then
/// on; nobody else gains or loses anything, the writer included.
pub proof fn law_grant_adds_one_reader(m: Regions, rid: RegionId, to: PeerId, lim: Limits, q: PeerId)
    ensures
        ({
            let r = region_grant(m, rid, to, lim);
            let full = standing(m[rid]) >= lim.max_region_capabilities;
            &&& r is Ok <==> m.contains_key(rid) && !full && m[rid].writable != Some(to)
            &&& !m.contains_key(rid) ==> r == Err::<Regions, RegionErr>(RegionErr::UnknownRegion)
            &&& m.contains_key(rid) && full ==> r == Err::<Regions, RegionErr>(
                RegionErr::CapacityExceeded,
            )
            &&& m.contains_key(rid) && !full && m[rid].writable == Some(to) ==> r == Err::<
                Regions,
                RegionErr,
            >(RegionErr::SecondWriterDenied)
            &&& r is Ok ==> {
                let n = r->Ok_0;
                &&& n.contains_key(rid)
                &&& n[rid].readonly.contains(to)
                &&& q != to ==> n[rid].readonly.contains(q) == m[rid].readonly.contains(q)
                &&& n[rid].writable == m[rid].writable
                &&& n[rid].size == m[rid].size
                &&& same_but(m, n, rid)
            }
        }),
{
}

/// Only a holder derives a read-only authority, and only for itself: nobody
/// else gains or loses anything, and a writer stays one.
pub proof fn law_derive_is_for_the_holder(
    m: Regions,
    rid: RegionId,
    holder: PeerId,
    lim: Limits,
    q: PeerId,
)
    ensures
        ({
            let r = region_derivation(m, rid, holder, lim);
            let holds = m[rid].writable == Some(holder) || m[rid].readonly.contains(holder);
            let full = standing(m[rid]) >= lim.max_region_capabilities;
            &&& r is Ok <==> m.contains_key(rid) && holds && !full
            &&& !m.contains_key(rid) ==> r == Err::<Regions, RegionErr>(RegionErr::UnknownRegion)
            &&& m.contains_key(rid) && !holds ==> r == Err::<Regions, RegionErr>(
                RegionErr::NotHolder,
            )
            &&& m.contains_key(rid) && holds && full ==> r == Err::<Regions, RegionErr>(
                RegionErr::CapacityExceeded,
            )
            &&& r is Ok ==> {
                let n = r->Ok_0;
                &&& n.contains_key(rid)
                &&& n[rid].readonly.contains(holder)
                &&& q != holder ==> n[rid].readonly.contains(q) == m[rid].readonly.contains(q)
                &&& n[rid].writable == m[rid].writable
                &&& n[rid].size == m[rid].size
                &&& same_but(m, n, rid)
            }
        }),
{
}

/// The writer can hand its authority on, and nobody else can. The other peer
/// is the writer from then on, in its place; the readers stay who they were.
pub proof fn law_writer_hands_on(m: Regions, rid: RegionId, from: PeerId, to: PeerId)
    ensures
        ({
            let r = writer_move(m, rid, from, to);
            &&& r is Ok <==> m.contains_key(rid) && m[rid].writable == Some(from)
            &&& !m.contains_key(rid) ==> r == Err::<Regions, RegionErr>(RegionErr::UnknownRegion)
            &&& m.contains_key(rid) && m[rid].writable != Some(from) ==> r == Err::<
                Regions,
                RegionErr,
            >(RegionErr::NotHolder)
            &&& r is Ok ==> {
                let n = r->Ok_0;
                &&& n.contains_key(rid)
                &&& n[rid].writable == Some(to)
                &&& n[rid].readonly == m[rid].readonly
                &&& n[rid].size == m[rid].size
                &&& same_but(m, n, rid)
            }
        }),
{
}

/// A reader can hand its authority on, and nobody else can. The other peer
/// reads from then on, the giver no longer does; everybody else stays as they
/// were, the writer included.
pub proof fn law_reader_hands_on(m: Regions, rid: RegionId, from: PeerId, to: PeerId, q: PeerId)
    ensures
        ({
            let r = reader_move(m, rid, from, to);
            &&& r is Ok <==> m.contains_key(rid) && m[rid].readonly.contains(from)
            &&& !m.contains_key(rid) ==> r == Err::<Regions, RegionErr>(RegionErr::UnknownRegion)
            &&& m.contains_key(rid) && !m[rid].readonly.contains(from) ==> r == Err::<
                Regions,
                RegionErr,
            >(RegionErr::NotHolder)
            &&& r is Ok ==> {
                let n = r->Ok_0;
                &&& n.contains_key(rid)
                &&& n[rid].readonly.contains(to)
                &&& from != to ==> !n[rid].readonly.contains(from)
                &&& q != from && q != to ==> n[rid].readonly.contains(q)
                    == m[rid].readonly.contains(q)
                &&& n[rid].writable == m[rid].writable
                &&& n[rid].size == m[rid].size
                &&& same_but(m, n, rid)
            }
        }),
{
}

/// Dropping takes one authority from the peer that drops, the writable one if
/// it has it. The region lives on, with everybody else as they were, unless
/// that was the last authority over it; then it is freed. No other region
/// changes, and dropping what one does not hold changes nothing.
pub proof fn law_drop_takes_one_authority(m: Regions, rid: RegionId, p: PeerId, q: PeerId)
    requires
        m.contains_key(rid),
        m[rid].writable is Some || exists|x: PeerId| m[rid].readonly.contains(x),
    ensures
        ({
            let n = authority_drop(m, rid, p);
            let was = m[rid];
            let wrote = was.writable == Some(p);
            let others = (was.writable is Some && !wrote) || (wrote && exists|x: PeerId|
                was.readonly.contains(x)) || exists|x: PeerId| x != p && was.readonly.contains(x);
            &&& n.contains_key(rid) <==> others
            &&& same_but(m, n, rid)
            &&& n.contains_key(rid) ==> {
                &&& n[rid].size == was.size
                &&& n[rid].writable == (if wrote {
                    None
                } else {
                    was.writable
                })
                &&& q != p || wrote ==> n[rid].readonly.contains(q) == was.readonly.contains(q)
                &&& !wrote ==> !n[rid].readonly.contains(p)
            }
            &&& !wrote && !was.readonly.contains(p) ==> n == m
        }),
{
    let was = m[rid];
    let now = was.dropping(p);
    let n = authority_drop(m, rid, p);
    let wrote = was.writable == Some(p);
    if now.vacant() {
        assert forall|x: PeerId| !now.readonly.contains(x) by {}
        assert forall|x: PeerId| x != p && was.readonly.contains(x) implies false by {
            assert(now.readonly.contains(x));
        }
    } else if now.writable is None {
        assert(exists|x: PeerId| now.readonly.contains(x)) by {
            if forall|x: PeerId| !now.readonly.contains(x) {
                assert(now.readonly =~= Set::empty());
            }
        }
        let x = choose|x: PeerId| now.readonly.contains(x);
        assert(was.readonly.contains(x));
    }
    if !wrote && !was.readonly.contains(p) {
        assert(now =~= was);
        assert(n =~= m);
    }
}

/// The death of a peer takes everything from it and nothing from anybody
/// else: a region lives on exactly if somebody else holds an authority over
/// it, with its writer unless that was the dead peer.
pub proof fn law_death_takes_only_from_the_dead(m: Regions, p: PeerId, rid: RegionId, q: PeerId)
    requires
        m.contains_key(rid),
    ensures
        ({
            let n = without_peer(m, p);
            let was = m[rid];
            &&& n.contains_key(rid) <==> (was.writable is Some && was.writable != Some(p))
                || exists|x: PeerId| x != p && was.readonly.contains(x)
            &&& n.contains_key(rid) ==> {
                &&& n[rid].size == was.size
                &&& n[rid].writable == (if was.writable == Some(p) {
                    None
                } else {
                    was.writable
                })
                &&& n[rid].readonly.contains(q) == (q != p && was.readonly.contains(q))
            }
        }),
        forall|k: RegionId| #[trigger] without_peer(m, p).contains_key(k) ==> m.contains_key(k),
{
    let was = m[rid];
    let now = was.without(p);
    if now.vacant() {
        assert forall|x: PeerId| x != p && was.readonly.contains(x) implies false by {
            assert(now.readonly.contains(x));
        }
    } else if now.writable is None {
        assert(exists|x: PeerId| now.readonly.contains(x)) by {
            if forall|x: PeerId| !now.readonly.contains(x) {
                assert(now.readonly =~= Set::empty());
            }
        }
        let x = choose|x: PeerId| now.readonly.contains(x);
        assert(x != p && was.readonly.contains(x));
    }
}

/// The two rights travel as different bytes, and what a right may give rise
/// to is settled by writing alone: anything gives a read-only one, a writable
/// one comes only from a writable one.
pub proof fn law_rights_are_told_apart(a: Rights, b: Rights)
    ensures
        a.byte() == b.byte() <==> a == b,
        a.byte() == 1 <==> a == Rights::ReadWrite,
        a.byte() == 0 <==> a == Rights::ReadOnly,
        a.derives(Rights::ReadOnly),
        a.derives(Rights::ReadWrite) <==> a == Rights::ReadWrite,
{
}

/// The readers are counted region by region.
pub proof fn law_readers_are_counted(m: Regions, ks: Seq<RegionId>, rid: RegionId)
    ensures
        reader_count(m, Seq::empty()) == 0,
        reader_count(m, ks.push(rid)) == reader_count(m, ks) + m[rid].readonly.len(),
{
    assert(ks.push(rid).drop_last() =~= ks);
}

} // verus!

//! Shared-memory region authority.
//!
//! A shared region deliberately breaks the "one authority" rule of ordinary
//! endpoints and native resources: a writable authority and many read-only
//! authorities may coexist over one kernel-backed object. Rights are explicit
//! and derived, never implied by a copy.

use std::collections::HashSet;
use vstd::prelude::*;

use crate::bytes::get_le16;
use crate::id::{
    all_zero, code16, draw16, is_zero16, lemma_code16_injective, same16, DrawError,
};
use crate::limits::Limits;
use crate::router::PeerId;
use crate::table::{key_list, lists_keys, Key, Table};

verus! {

// ---------------------------------------------------------------- identity --

/// Runtime identity of a shared region: random, checked for collisions,
/// opaque, and not itself authority.
#[derive(Clone, Copy, Debug, Eq, Hash, PartialOrd, Ord)]
pub struct RegionId(pub [u8; 16]);

impl PartialEq for RegionId {
    fn eq(&self, other: &Self) -> (r: bool) {
        same16(&self.0, &other.0)
    }
}

impl vstd::std_specs::cmp::PartialEqSpecImpl for RegionId {
    open spec fn obeys_eq_spec() -> bool {
        true
    }

    open spec fn eq_spec(&self, other: &Self) -> bool {
        *self == *other
    }
}

impl Key for RegionId {
    open spec fn code(self) -> u128 {
        code16(self.0)
    }

    proof fn code_injective(a: Self, b: Self) {
        lemma_code16_injective(a.0, b.0);
    }

    fn to_code(self) -> (c: u128) {
        get_le16(&self.0)
    }
}

impl RegionId {
    /// The identity with these raw bytes.
    pub fn from_raw(b: [u8; 16]) -> (r: Self)
        ensures
            r == RegionId(b),
    {
        RegionId(b)
    }

    /// Zero names no region.
    pub fn is_zero(self) -> (r: bool)
        ensures
            r == all_zero(self.0),
    {
        is_zero16(&self.0)
    }
}

/// A set of region identities that must not be drawn again.
pub trait RegionSpace {
    /// Is `id` in the set?
    spec fn has(&self, id: RegionId) -> bool;

    fn contains(&self, id: RegionId) -> (r: bool)
        ensures
            r == self.has(id),
    ;
}

impl RegionSpace for HashSet<u128> {
    open spec fn has(&self, id: RegionId) -> bool {
        self@.contains(id.code())
    }

    fn contains(&self, id: RegionId) -> (r: bool) {
        let c: u128 = id.to_code();
        HashSet::contains(self, &c)
    }
}

/// The region identity that a draw gives: none for zero or one taken.
pub fn admit_region_id<T: RegionSpace>(b: [u8; 16], taken: &T) -> (r: Option<RegionId>)
    ensures
        r == (if all_zero(b) || taken.has(RegionId(b)) {
            None::<RegionId>
        } else {
            Some(RegionId(b))
        }),
{
    let id = RegionId(b);
    if !id.is_zero() && !taken.contains(id) {
        Some(id)
    } else {
        None
    }
}

/// What one draw settles: a failed source ends the search, an identity that is
/// neither zero nor taken is the one, and nothing means to draw again.
pub fn settle_region_id<T: RegionSpace>(draw: Result<[u8; 16], DrawError>, taken: &T) -> (r: Option<
    Result<RegionId, DrawError>,
>)
    ensures
        r == (match draw {
            Err(e) => Some(Err::<RegionId, DrawError>(e)),
            Ok(b) => if all_zero(b) || taken.has(RegionId(b)) {
                None
            } else {
                Some(Ok(RegionId(b)))
            },
        }),
{
    match draw {
        Ok(b) => match admit_region_id(b, taken) {
            Some(id) => Some(Ok(id)),
            None => None,
        },
        Err(e) => Some(Err(e)),
    }
}

/// Draws a fresh region identity from OS entropy, retrying on zero and on
/// collision with `taken`.
pub fn fresh_region_id<T: RegionSpace>(taken: &T) -> (r: Result<RegionId, DrawError>)
    ensures
        r matches Ok(id) ==> !all_zero(id.0) && !taken.has(id),
{
    let mut tries: u64 = u64::MAX;
    while tries > 0
        decreases tries,
    {
        if let Some(r) = settle_region_id(draw16(), taken) {
            return r;
        }
        tries = tries - 1;
    }
    Err(DrawError::Exhausted)
}

// ------------------------------------------------------- payload helpers ----

/// One step of the xorshift generator.
pub open spec fn xorshift(s: u64) -> u64 {
    let a = s ^ (s << 13);
    let b = a ^ (a >> 7);
    b ^ (b << 17)
}

/// The generator's state after `n` steps from `s`.
pub open spec fn xorshift_after(s: u64, n: nat) -> u64
    decreases n,
{
    if n == 0 {
        s
    } else {
        xorshift(xorshift_after(s, (n - 1) as nat))
    }
}

/// Byte `i` that the generator gives for `seed`.
pub open spec fn pattern_byte(seed: u64, i: nat) -> u8 {
    (xorshift_after(seed | 1, i + 1) & 0xff) as u8
}

/// The first `n` bytes that the generator gives for `seed`.
pub open spec fn generated(seed: u64, n: nat) -> Seq<u8> {
    Seq::new(n, |i: int| pattern_byte(seed, i as nat))
}

/// Fills `buf` with the deterministic pseudorandom bytes of `seed`. The
/// generator never starts from zero.
pub fn generate(buf: &mut [u8], seed: u64)
    ensures
        final(buf)@ == generated(seed, old(buf)@.len()),
{
    let mut s: u64 = seed | 1;
    let mut i: usize = 0;
    let n: usize = buf.len();
    while i < n
        invariant
            n == buf@.len(),
            n == old(buf)@.len(),
            i <= n,
            s == xorshift_after(seed | 1, i as nat),
            forall|j: int| 0 <= j < i ==> buf@[j] == pattern_byte(seed, j as nat),
        decreases n - i,
    {
        s = s ^ (s << 13);
        s = s ^ (s >> 7);
        s = s ^ (s << 17);
        buf[i] = (s & 0xff) as u8;
        i = i + 1;
    }
    assert(buf@ =~= generated(seed, old(buf)@.len()));
}

/// Is no byte set?
pub open spec fn blank(b: Seq<u8>) -> bool {
    forall|i: int| 0 <= i < b.len() ==> b[i] == 0
}

/// The pattern of `n` bytes for `seed`: what the generator gives, but for a
/// pattern that would be blank, which starts with a one.
pub open spec fn pattern(seed: u64, n: nat) -> Seq<u8> {
    if n > 0 && blank(generated(seed, n)) {
        generated(seed, n).update(0, 1)
    } else {
        generated(seed, n)
    }
}

/// Fills `buf` with the pattern for `seed`. It is never blank, so it cannot
/// be taken for memory that nobody wrote.
pub fn fill_pattern(buf: &mut [u8], seed: u64)
    ensures
        final(buf)@ == pattern(seed, old(buf)@.len()),
        final(buf)@.len() >= 1 ==> exists|i: int|
            0 <= i < final(buf)@.len() && #[trigger] final(buf)@[i] != 0,
{
    generate(buf, seed);
    let mut i: usize = 0;
    while i < buf.len()
        invariant
            i <= buf@.len(),
            buf@ == generated(seed, old(buf)@.len()),
            forall|j: int| 0 <= j < i ==> buf@[j] == 0,
        decreases buf@.len() - i,
    {
        if buf[i] != 0 {
            return;
        }
        i = i + 1;
    }
    if buf.len() > 0 {
        buf[0] = 1;
        assert(buf@[0] != 0);
    }
}

/// The content hash of a byte string: 64-bit FNV-1a.
pub open spec fn fnv(s: Seq<u8>) -> u64
    decreases s.len(),
{
    if s.len() == 0 {
        0xcbf2_9ce4_8422_2325
    } else {
        (((fnv(s.drop_last()) ^ (s.last() as u64)) * 0x0000_0100_0000_01b3) % 0x1_0000_0000_0000_0000) as u64
    }
}

/// Hashes `buf`. The hash travels over the control channel as the only
/// representation of a region's contents.
pub fn fnv64(buf: &[u8]) -> (h: u64)
    ensures
        h == fnv(buf@),
{
    let mut h: u64 = 0xcbf2_9ce4_8422_2325;
    let mut i: usize = 0;
    assert(buf@.take(0) =~= Seq::<u8>::empty());
    while i < buf.len()
        invariant
            i <= buf@.len(),
            h == fnv(buf@.take(i as int)),
        decreases buf@.len() - i,
    {
        assert(buf@.take(i + 1).drop_last() =~= buf@.take(i as int));
        h = h ^ (buf[i] as u64);
        h = h.wrapping_mul(0x0000_0100_0000_01b3);
        i = i + 1;
    }
    assert(buf@.take(i as int) =~= buf@);
    h
}

// ----------------------------------------------------------------- rights --

/// Minimal explicit rights model.
#[derive(Clone, Copy, Debug, PartialEq, Eq, Structural)]
pub enum Rights {
    ReadOnly,
    ReadWrite,
}

impl Rights {
    /// Attenuation rule: any authority may derive read-only; only a writable
    /// one may give a writable one; read-only never escalates.
    pub open spec fn derives(self, target: Rights) -> bool {
        target == Rights::ReadOnly || self == Rights::ReadWrite
    }

    /// May this authority give rise to `target`?
    pub fn can_derive(self, target: Rights) -> (r: bool)
        ensures
            r == self.derives(target),
    {
        match (self, target) {
            (_, Rights::ReadOnly) => true,
            (Rights::ReadWrite, Rights::ReadWrite) => true,
            (Rights::ReadOnly, Rights::ReadWrite) => false,
        }
    }

    /// Does this authority allow writing?
    pub fn is_writable(self) -> (r: bool)
        ensures
            r == (self == Rights::ReadWrite),
    {
        matches!(self, Rights::ReadWrite)
    }

    /// The byte that stands for the rights on the wire.
    pub open spec fn byte(self) -> u8 {
        match self {
            Rights::ReadOnly => 0,
            Rights::ReadWrite => 1,
        }
    }

    /// The byte that stands for the rights on the wire.
    pub fn wire_byte(self) -> (b: u8)
        ensures
            b == self.byte(),
    {
        match self {
            Rights::ReadOnly => 0,
            Rights::ReadWrite => 1,
        }
    }

    /// The rights that a wire byte grants. A byte with no meaning grants the
    /// least.
    pub fn from_wire_byte(b: u8) -> (r: Rights)
        ensures
            r == (if b == 1 {
                Rights::ReadWrite
            } else {
                Rights::ReadOnly
            }),
    {
        match b {
            1 => Rights::ReadWrite,
            _ => Rights::ReadOnly,
        }
    }
}

// ------------------------------------------------------------- authority ---

#[derive(Clone, Copy, Debug, PartialEq, Eq, Structural)]
pub enum RegionErr {
    UnknownRegion,
    NotHolder,
    EscalationDenied,
    SecondWriterDenied,
    CapacityExceeded,
    SizeExceeded,
    EmptyRegion,
}

/// Who holds what over one region: at most one writer, any number of readers.
#[verifier::ext_equal]
pub struct Region {
    pub size: u64,
    pub writable: Option<PeerId>,
    pub readonly: Set<PeerId>,
}

impl Region {
    /// How many live authorities there are.
    pub open spec fn authorities(self) -> nat {
        self.readonly.len() + if self.writable is Some {
            1nat
        } else {
            0
        }
    }

    /// Does `p` hold any authority?
    pub open spec fn held_by(self, p: PeerId) -> bool {
        self.writable == Some(p) || self.readonly.contains(p)
    }

    /// Is nobody left who holds an authority?
    pub open spec fn vacant(self) -> bool {
        self.writable is None && self.readonly =~= Set::empty()
    }

    /// The region without anything that `p` held.
    pub open spec fn without(self, p: PeerId) -> Region {
        Region {
            size: self.size,
            writable: if self.writable == Some(p) {
                None
            } else {
                self.writable
            },
            readonly: self.readonly.remove(p),
        }
    }

    /// The region after `p` drops one authority, the writable one first.
    pub open spec fn dropping(self, p: PeerId) -> Region {
        if self.writable == Some(p) {
            Region { writable: None, ..self }
        } else {
            Region { readonly: self.readonly.remove(p), ..self }
        }
    }
}

/// The authority graph: each live region with its holders.
pub type Regions = Map<RegionId, Region>;

/// The bytes that back all regions together.
pub open spec fn backing_bytes(m: Regions) -> nat
    decreases m.dom().len(),
{
    if m.dom().finite() && m.dom().len() > 0 {
        let k = m.dom().choose();
        proof {
            assert(m.dom().contains(k));
            assert(m.remove(k).dom() =~= m.dom().remove(k));
        }
        m[k].size as nat + backing_bytes(m.remove(k))
    } else {
        0
    }
}

/// The total counts each region by itself.
pub proof fn lemma_backing_split(m: Regions, k: RegionId)
    requires
        m.dom().finite(),
        m.contains_key(k),
    ensures
        backing_bytes(m) == m[k].size as nat + backing_bytes(m.remove(k)),
    decreases m.dom().len(),
{
    let c = m.dom().choose();
    assert(m.dom().contains(k));
    assert(m.dom().len() > 0);
    assert(m.dom().contains(c));
    assert(m.remove(c).dom() =~= m.dom().remove(c));
    if c != k {
        assert(m.remove(k).dom() =~= m.dom().remove(k));
        lemma_backing_split(m.remove(c), k);
        lemma_backing_split(m.remove(k), c);
        assert(m.remove(c).remove(k) =~= m.remove(k).remove(c));
    }
}

/// A new region adds its size to the total.
pub proof fn lemma_backing_insert(m: Regions, k: RegionId, r: Region)
    requires
        m.dom().finite(),
    ensures
        !m.contains_key(k) ==> backing_bytes(m.insert(k, r)) == backing_bytes(m) + r.size,
        m.contains_key(k) && m[k].size == r.size ==> backing_bytes(m.insert(k, r)) == backing_bytes(m),
{
    let n = m.insert(k, r);
    assert(n.dom() =~= m.dom().insert(k));
    lemma_backing_split(n, k);
    if !m.contains_key(k) {
        assert(n.remove(k) =~= m);
    } else {
        lemma_backing_split(m, k);
        assert(n.remove(k) =~= m.remove(k));
    }
}

/// What `create_region` decides.
pub open spec fn region_creation(
    m: Regions,
    rid: RegionId,
    size: u64,
    creator: PeerId,
    lim: Limits,
) -> Result<Regions, RegionErr> {
    if size == 0 || size > lim.max_region_size {
        Err(RegionErr::SizeExceeded)
    } else if backing_bytes(m) + size > lim.max_total_region_bytes {
        Err(RegionErr::SizeExceeded)
    } else if m.len() >= lim.max_regions || m.contains_key(rid) {
        Err(RegionErr::CapacityExceeded)
    } else {
        Ok(m.insert(rid, Region { size, writable: Some(creator), readonly: Set::empty() }))
    }
}

/// What `derive_read_only` decides.
pub open spec fn region_derivation(m: Regions, rid: RegionId, holder: PeerId, lim: Limits) -> Result<
    Regions,
    RegionErr,
> {
    if !m.contains_key(rid) {
        Err(RegionErr::UnknownRegion)
    } else if !m[rid].held_by(holder) {
        Err(RegionErr::NotHolder)
    } else if m[rid].authorities() >= lim.max_region_capabilities {
        Err(RegionErr::CapacityExceeded)
    } else {
        Ok(m.insert(rid, Region { readonly: m[rid].readonly.insert(holder), ..m[rid] }))
    }
}

/// What `grant_read_only` decides.
pub open spec fn region_grant(m: Regions, rid: RegionId, to: PeerId, lim: Limits) -> Result<
    Regions,
    RegionErr,
> {
    if !m.contains_key(rid) {
        Err(RegionErr::UnknownRegion)
    } else if m[rid].authorities() >= lim.max_region_capabilities {
        Err(RegionErr::CapacityExceeded)
    } else if m[rid].writable == Some(to) {
        Err(RegionErr::SecondWriterDenied)
    } else {
        Ok(m.insert(rid, Region { readonly: m[rid].readonly.insert(to), ..m[rid] }))
    }
}

/// What `transfer_writable` decides.
pub open spec fn writer_move(m: Regions, rid: RegionId, from: PeerId, to: PeerId) -> Result<
    Regions,
    RegionErr,
> {
    if !m.contains_key(rid) {
        Err(RegionErr::UnknownRegion)
    } else if m[rid].writable != Some(from) {
        Err(RegionErr::NotHolder)
    } else {
        Ok(m.insert(rid, Region { writable: Some(to), ..m[rid] }))
    }
}

/// What `transfer_read_only` decides.
pub open spec fn reader_move(m: Regions, rid: RegionId, from: PeerId, to: PeerId) -> Result<
    Regions,
    RegionErr,
> {
    if !m.contains_key(rid) {
        Err(RegionErr::UnknownRegion)
    } else if !m[rid].readonly.contains(from) {
        Err(RegionErr::NotHolder)
    } else {
        Ok(
            m.insert(
                rid,
                Region { readonly: m[rid].readonly.remove(from).insert(to), ..m[rid] },
            ),
        )
    }
}

/// The graph after `holder` drops one authority over `rid`: a region that
/// nobody holds any more is freed.
pub open spec fn authority_drop(m: Regions, rid: RegionId, holder: PeerId) -> Regions {
    if !m.contains_key(rid) {
        m
    } else if m[rid].dropping(holder).vacant() {
        m.remove(rid)
    } else {
        m.insert(rid, m[rid].dropping(holder))
    }
}

/// The graph after the death of `p`: its authorities are gone, and so are the
/// regions that nobody else held. No writer is minted in its place.
pub open spec fn without_peer(m: Regions, p: PeerId) -> Regions {
    Map::new(
        |rid: RegionId| m.contains_key(rid) && !m[rid].without(p).vacant(),
        |rid: RegionId| m[rid].without(p),
    )
}

/// The readers of all the regions listed, counted region by region.
pub open spec fn reader_count(m: Regions, ks: Seq<RegionId>) -> nat
    decreases ks.len(),
{
    if ks.len() == 0 {
        0
    } else {
        reader_count(m, ks.drop_last()) + m[ks.last()].readonly.len()
    }
}

/// A number of things, as far as a `usize` counts.
pub open spec fn counted(n: nat) -> usize {
    if n <= usize::MAX {
        n as usize
    } else {
        usize::MAX
    }
}

/// Host-authoritative record of one region.
struct RegionRec {
    size: u64,
    writable: Option<PeerId>,
    readonly: Table<PeerId, ()>,
}

impl RegionRec {
    closed spec fn region(self) -> Region {
        Region { size: self.size, writable: self.writable, readonly: self.readonly@.dom() }
    }

    closed spec fn wf(self) -> bool {
        self.readonly.wf()
    }

    fn is_writer(&self, p: PeerId) -> (r: bool)
        ensures
            r == (self.writable == Some(p)),
    {
        match self.writable {
            Some(w) => w == p,
            None => false,
        }
    }

    /// Are there `cap` authorities or more?
    fn is_full(&self, cap: usize) -> (r: bool)
        requires
            self.wf(),
        ensures
            r == (self.region().authorities() >= cap),
    {
        let n: usize = self.readonly.len();
        n >= cap || (self.writable.is_some() && n + 1 >= cap)
    }
}

/// Authority graph over shared regions.
pub struct RegionTable {
    regions: Table<RegionId, RegionRec>,
    total_backing_bytes: u64,
}

impl View for RegionTable {
    type V = Regions;

    closed spec fn view(&self) -> Regions {
        self.regions@.map_values(|r: RegionRec| r.region())
    }
}

/// A snapshot of the graph's size.
#[derive(Debug, Clone, Copy)]
pub struct RegionAccounting {
    pub regions: usize,
    pub writable_authorities: usize,
    pub readonly_authorities: usize,
    pub total_backing_bytes: u64,
}

/// What holds of every reachable graph: finitely many regions, each held by
/// somebody.
pub open spec fn regions_ok(m: Regions) -> bool {
    &&& m.dom().finite()
    &&& forall|rid: RegionId| #[trigger]
        m.contains_key(rid) ==> !m[rid].vacant() && m[rid].readonly.finite()
}

impl RegionTable {
    /// The table is consistent, and its total is the sum of its regions.
    pub closed spec fn wf(&self) -> bool {
        &&& self.regions.wf()
        &&& forall|rid: RegionId| #[trigger]
            self.regions@.contains_key(rid) ==> self.regions@[rid].wf()
        &&& regions_ok(self@)
        &&& self.total_backing_bytes == backing_bytes(self@)
    }

    /// What a well-formed table guarantees of its graph.
    pub proof fn lemma_wf(&self)
        requires
            self.wf(),
        ensures
            regions_ok(self@),
            backing_bytes(self@) <= u64::MAX,
    {
    }

    /// A table without regions.
    pub fn new() -> (r: Self)
        ensures
            r.wf(),
            r@ == Map::<RegionId, Region>::empty(),
    {
        let r = RegionTable { regions: Table::new(), total_backing_bytes: 0 };
        assert(r@ =~= Map::<RegionId, Region>::empty());
        r
    }

    /// How large the graph is.
    pub fn accounting(&self) -> (r: RegionAccounting)
        requires
            self.wf(),
        ensures
            r.regions == self@.len(),
            r.writable_authorities == self@.dom().filter(
                |rid: RegionId| self@[rid].writable is Some,
            ).len(),
            r.readonly_authorities == counted(reader_count(self@, key_list(self@.dom()))),
            r.total_backing_bytes == backing_bytes(self@),
    {
        let ghost m = self@;
        let ghost writes = |rid: RegionId| m[rid].writable is Some;
        let keys = self.regions.keys();
        let mut w: usize = 0;
        let mut r: usize = 0;
        let mut i: usize = 0;
        assert(self@.dom() =~= self.regions@.dom());
        proof {
            reveal(Seq::filter);
            assert(keys@.take(0) =~= Seq::<RegionId>::empty());
        }
        while i < keys.len()
            invariant
                i <= keys@.len(),
                self.wf(),
                m == self@,
                writes == (|rid: RegionId| m[rid].writable is Some),
                lists_keys(keys@, self.regions@.dom()),
                w == keys@.take(i as int).filter(writes).len(),
                w <= i,
                r == counted(reader_count(m, keys@.take(i as int))),
            decreases keys@.len() - i,
        {
            let ghost prefix = keys@.take(i + 1);
            let rid = keys[i];
            assert(keys@.contains(keys@[i as int]));
            assert(prefix.drop_last() =~= keys@.take(i as int));
            assert(prefix.last() == rid);
            proof {
                reveal(Seq::filter);
            }
            if let Some(rec) = self.regions.get(rid) {
                if rec.writable.is_some() {
                    w = w + 1;
                }
                r = r.saturating_add(rec.readonly.len());
                assert(m[rid].readonly == rec.readonly@.dom());
            }
            i = i + 1;
        }
        proof {
            assert(keys@.take(i as int) =~= keys@);
            crate::table::lemma_count_keys(keys@, m.dom(), writes);
            assert(m.dom() =~= self.regions@.dom());
        }
        RegionAccounting {
            regions: self.regions.len(),
            writable_authorities: w,
            readonly_authorities: r,
            total_backing_bytes: self.total_backing_bytes,
        }
    }

    /// Creates a region with `creator` as its only holder, writable.
    pub fn create_region(&mut self, rid: RegionId, size: u64, creator: PeerId, lim: &Limits) -> (r: Result<
        (),
        RegionErr,
    >)
        requires
            old(self).wf(),
        ensures
            final(self).wf(),
            match region_creation(old(self)@, rid, size, creator, *lim) {
                Ok(m) => r is Ok && final(self)@ == m,
                Err(e) => r == Err::<(), RegionErr>(e) && final(self)@ == old(self)@,
            },
    {
        assert(self@.dom() =~= self.regions@.dom());
        if size == 0 || size > lim.max_region_size {
            return Err(RegionErr::SizeExceeded);
        }
        let new_total: u64 = match self.total_backing_bytes.checked_add(size) {
            Some(t) => t,
            None => {
                return Err(RegionErr::SizeExceeded);
            },
        };
        if new_total > lim.max_total_region_bytes {
            return Err(RegionErr::SizeExceeded);
        }
        if self.regions.len() >= lim.max_regions {
            return Err(RegionErr::CapacityExceeded);
        }
        if self.regions.contains_key(rid) {
            return Err(RegionErr::CapacityExceeded);
        }
        let rec = RegionRec { size, writable: Some(creator), readonly: Table::new() };
        let ghost region = Region { size, writable: Some(creator), readonly: Set::empty() };
        proof {
            assert(rec.region() =~= region);
            lemma_backing_insert(old(self)@, rid, region);
        }
        self.regions.insert(rid, rec);
        self.total_backing_bytes = new_total;
        proof {
            assert(self@ =~= old(self)@.insert(rid, region));
            self.regions.lemma_finite();
            assert(self@.dom() =~= self.regions@.dom());
        }
        Ok(())
    }

    /// Derives a read-only authority from any authority that `holder` has.
    pub fn derive_read_only(&mut self, rid: RegionId, holder: PeerId, lim: &Limits) -> (r: Result<
        (),
        RegionErr,
    >)
        requires
            old(self).wf(),
        ensures
            final(self).wf(),
            match region_derivation(old(self)@, rid, holder, *lim) {
                Ok(m) => r is Ok && final(self)@ == m,
                Err(e) => r == Err::<(), RegionErr>(e) && final(self)@ == old(self)@,
            },
    {
        let rec = match self.regions.get(rid) {
            Some(rec) => rec,
            None => {
                return Err(RegionErr::UnknownRegion);
            },
        };
        if !(rec.is_writer(holder) || rec.readonly.contains_key(holder)) {
            return Err(RegionErr::NotHolder);
        }
        if rec.is_full(lim.max_region_capabilities) {
            return Err(RegionErr::CapacityExceeded);
        }
        self.add_reader(rid, holder);
        Ok(())
    }

    /// Adds `p` to the readers of the region `rid`.
    fn add_reader(&mut self, rid: RegionId, p: PeerId)
        requires
            old(self).wf(),
            old(self)@.contains_key(rid),
        ensures
            final(self).wf(),
            final(self)@ == old(self)@.insert(
                rid,
                Region { readonly: old(self)@[rid].readonly.insert(p), ..old(self)@[rid] },
            ),
    {
        let mut rec = self.take_rec(rid);
        rec.readonly.insert(p, ());
        proof {
            assert(rec.region() =~= Region {
                readonly: old(self)@[rid].readonly.insert(p),
                ..old(self)@[rid]
            });
            assert(rec.readonly@.contains_key(p));
        }
        self.put_rec(rid, rec, Ghost(old(self)@));
    }

    /// Takes the record of `rid` out, to be put back changed.
    fn take_rec(&mut self, rid: RegionId) -> (rec: RegionRec)
        requires
            old(self).wf(),
            old(self)@.contains_key(rid),
        ensures
            rec.wf(),
            rec.region() == old(self)@[rid],
            final(self).regions.wf(),
            forall|k: RegionId| #[trigger]
                final(self).regions@.contains_key(k) ==> final(self).regions@[k].wf(),
            final(self)@ == old(self)@.remove(rid),
            final(self).total_backing_bytes == old(self).total_backing_bytes,
    {
        let r = self.regions.remove(rid);
        assert(self@ =~= old(self)@.remove(rid));
        match r {
            Some(rec) => rec,
            None => {
                assert(false);
                RegionRec { size: 0, writable: None, readonly: Table::new() }
            },
        }
    }

    /// Puts a changed record back.
    fn put_rec(&mut self, rid: RegionId, rec: RegionRec, Ghost(before): Ghost<Regions>)
        requires
            rec.wf(),
            !rec.region().vacant(),
            regions_ok(before),
            before.contains_key(rid),
            rec.size == before[rid].size,
            old(self)@ == before.remove(rid),
            old(self).regions.wf(),
            forall|k: RegionId| #[trigger]
                old(self).regions@.contains_key(k) ==> old(self).regions@[k].wf(),
            old(self).total_backing_bytes == backing_bytes(before),
        ensures
            final(self).wf(),
            final(self)@ == before.insert(rid, rec.region()),
    {
        let ghost region = rec.region();
        proof {
            rec.readonly.lemma_finite();
            lemma_backing_insert(before, rid, region);
        }
        self.regions.insert(rid, rec);
        proof {
            assert(self@ =~= old(self)@.insert(rid, region));
            assert(self@ =~= before.insert(rid, region));
            self.regions.lemma_finite();
            assert(self@.dom() =~= self.regions@.dom());
        }
    }

    /// Mints a read-only authority for `to`, who need hold nothing yet. A
    /// live writable authority of the same peer is never masked.
    pub fn grant_read_only(&mut self, rid: RegionId, to: PeerId, lim: &Limits) -> (r: Result<
        (),
        RegionErr,
    >)
        requires
            old(self).wf(),
        ensures
            final(self).wf(),
            match region_grant(old(self)@, rid, to, *lim) {
                Ok(m) => r is Ok && final(self)@ == m,
                Err(e) => r == Err::<(), RegionErr>(e) && final(self)@ == old(self)@,
            },
    {
        let rec = match self.regions.get(rid) {
            Some(rec) => rec,
            None => {
                return Err(RegionErr::UnknownRegion);
            },
        };
        if rec.is_full(lim.max_region_capabilities) {
            return Err(RegionErr::CapacityExceeded);
        }
        if rec.is_writer(to) {
            return Err(RegionErr::SecondWriterDenied);
        }
        self.add_reader(rid, to);
        Ok(())
    }

    /// Is there such a region?
    pub fn region_exists(&self, rid: RegionId) -> (r: bool)
        ensures
            r == self@.contains_key(rid),
    {
        self.regions.contains_key(rid)
    }

    /// The writer of a region, if it has one.
    pub fn writable_holder(&self, rid: RegionId) -> (r: Option<PeerId>)
        ensures
            r == (if self@.contains_key(rid) {
                self@[rid].writable
            } else {
                None
            }),
    {
        match self.regions.get(rid) {
            Some(rec) => rec.writable,
            None => None,
        }
    }

    /// Is `p` a reader of the region?
    pub fn is_readonly_holder(&self, rid: RegionId, p: PeerId) -> (r: bool)
        ensures
            r == (self@.contains_key(rid) && self@[rid].readonly.contains(p)),
    {
        match self.regions.get(rid) {
            Some(rec) => rec.readonly.contains_key(p),
            None => false,
        }
    }

    /// Moves the writable authority from `from` to `to`.
    pub fn transfer_writable(&mut self, rid: RegionId, from: PeerId, to: PeerId) -> (r: Result<
        (),
        RegionErr,
    >)
        requires
            old(self).wf(),
        ensures
            final(self).wf(),
            match writer_move(old(self)@, rid, from, to) {
                Ok(m) => r is Ok && final(self)@ == m,
                Err(e) => r == Err::<(), RegionErr>(e) && final(self)@ == old(self)@,
            },
    {
        let rec = match self.regions.get(rid) {
            Some(rec) => rec,
            None => {
                return Err(RegionErr::UnknownRegion);
            },
        };
        if !rec.is_writer(from) {
            return Err(RegionErr::NotHolder);
        }
        let mut rec = self.take_rec(rid);
        rec.writable = Some(to);
        assert(rec.region() =~= Region { writable: Some(to), ..old(self)@[rid] });
        self.put_rec(rid, rec, Ghost(old(self)@));
        Ok(())
    }

    /// Moves a read-only authority from `from` to `to`.
    pub fn transfer_read_only(&mut self, rid: RegionId, from: PeerId, to: PeerId) -> (r: Result<
        (),
        RegionErr,
    >)
        requires
            old(self).wf(),
        ensures
            final(self).wf(),
            match reader_move(old(self)@, rid, from, to) {
                Ok(m) => r is Ok && final(self)@ == m,
                Err(e) => r == Err::<(), RegionErr>(e) && final(self)@ == old(self)@,
            },
    {
        let rec = match self.regions.get(rid) {
            Some(rec) => rec,
            None => {
                return Err(RegionErr::UnknownRegion);
            },
        };
        if !rec.readonly.contains_key(from) {
            return Err(RegionErr::NotHolder);
        }
        let mut rec = self.take_rec(rid);
        let _ = rec.readonly.remove(from);
        rec.readonly.insert(to, ());
        proof {
            assert(rec.region() =~= Region {
                readonly: old(self)@[rid].readonly.remove(from).insert(to),
                ..old(self)@[rid]
            });
            assert(rec.readonly@.contains_key(to));
        }
        self.put_rec(rid, rec, Ghost(old(self)@));
        Ok(())
    }

    /// Drops one authority of `holder` over a region, the writable one first.
    /// The region is freed when nobody is left.
    pub fn drop_authority(&mut self, rid: RegionId, holder: PeerId)
        requires
            old(self).wf(),
        ensures
            final(self).wf(),
            final(self)@ == authority_drop(old(self)@, rid, holder),
    {
        if !self.regions.contains_key(rid) {
            return;
        }
        let mut rec = self.take_rec(rid);
        if rec.is_writer(holder) {
            rec.writable = None;
        } else {
            let _ = rec.readonly.remove(holder);
        }
        proof {
            assert(rec.region() =~= old(self)@[rid].dropping(holder));
            rec.readonly.lemma_finite();
        }
        if rec.writable.is_none() && rec.readonly.len() == 0 {
            proof {
                assert(rec.region().readonly =~= Set::empty());
                lemma_backing_split(old(self)@, rid);
                self.regions.lemma_finite();
                assert(self@.dom() =~= self.regions@.dom());
            }
            self.total_backing_bytes = self.total_backing_bytes.saturating_sub(rec.size);
            assert(regions_ok(self@));
        } else {
            proof {
                if rec.region().vacant() {
                    assert(rec.readonly@.dom() =~= Set::empty());
                    assert(rec.readonly@.len() == 0);
                }
            }
            self.put_rec(rid, rec, Ghost(old(self)@));
        }
    }

    /// Peer death: purges every authority that `p` held.
    pub fn peer_gone(&mut self, p: PeerId)
        requires
            old(self).wf(),
        ensures
            final(self).wf(),
            final(self)@ == without_peer(old(self)@, p),
    {
        let ghost m0 = self@;
        let rids = self.regions.keys();
        assert(m0.dom() =~= self.regions@.dom());
        let mut i: usize = 0;
        while i < rids.len()
            invariant
                i <= rids@.len(),
                self.wf(),
                regions_ok(m0),
                lists_keys(rids@, m0.dom()),
                forall|k: RegionId| #[trigger]
                    self@.contains_key(k) == (m0.contains_key(k) && (!m0[k].without(p).vacant()
                        || !rids@.take(i as int).contains(k))),
                forall|k: RegionId| #[trigger]
                    self@.contains_key(k) ==> self@[k] == (if rids@.take(i as int).contains(k) {
                        m0[k].without(p)
                    } else {
                        m0[k]
                    }),
            decreases rids@.len() - i,
        {
            let rid = rids[i];
            let ghost done = rids@.take(i as int);
            proof {
                assert(rids@.contains(rid));
                if done.contains(rid) {
                    let j = done.index_of(rid);
                    assert(rids@[j].code() < rids@[i as int].code());
                }
                assert(rids@.take(i + 1) =~= done.push(rid));
                assert forall|k: RegionId| #[trigger] rids@.take(i + 1).contains(k) == (done.contains(k)
                    || k == rid) by {
                    if done.contains(k) {
                        let j = done.index_of(k);
                        assert(rids@.take(i + 1)[j] == k);
                    }
                    assert(rids@.take(i + 1)[i as int] == rid);
                }
            }
            let ghost m1 = self@;
            assert(m0.dom().contains(rid));
            assert(m1.contains_key(rid));
            assert(m1[rid] == m0[rid]);
            // A peer can hold at most two kinds of authority over one region:
            // the writable one and a derived read-only view.
            if self.holds(rid, p) {
                self.drop_authority(rid, p);
            }
            if self.holds(rid, p) {
                self.drop_authority(rid, p);
            }
            proof {
                let r = m0[rid];
                assert(r.readonly.remove(p) =~= r.readonly || r.readonly.contains(p));
                if !r.held_by(p) {
                    assert(r.without(p) =~= r);
                    assert(!r.vacant());
                } else if r.writable == Some(p) && r.readonly.contains(p) {
                    assert(r.dropping(p).dropping(p) =~= r.without(p));
                } else if r.writable == Some(p) {
                    assert(r.dropping(p) =~= r.without(p));
                } else {
                    assert(r.dropping(p) =~= r.without(p));
                }
                if r.without(p).vacant() {
                    assert(self@ =~= m1.remove(rid));
                } else {
                    assert(self@ =~= m1.insert(rid, r.without(p)));
                }
            }
            i = i + 1;
        }
        proof {
            assert(rids@.take(i as int) =~= rids@);
            assert(self@ =~= without_peer(m0, p));
        }
    }

    /// Does `p` hold any authority over the region?
    fn holds(&self, rid: RegionId, p: PeerId) -> (r: bool)
        ensures
            r == (self@.contains_key(rid) && self@[rid].held_by(p)),
    {
        match self.regions.get(rid) {
            Some(rec) => rec.is_writer(p) || rec.readonly.contains_key(p),
            None => false,
        }
    }

    /// Validates a requested derivation. A second writable authority is
    /// rejected, and so is any escalation from read-only.
    pub fn authorize(&self, rid: RegionId, source: Rights, requested: Rights) -> (r: Result<
        (),
        RegionErr,
    >)
        ensures
            r == (if !source.derives(requested) {
                Err::<(), RegionErr>(RegionErr::EscalationDenied)
            } else if requested == Rights::ReadWrite && self@.contains_key(rid)
                && self@[rid].writable is Some {
                Err(RegionErr::SecondWriterDenied)
            } else {
                Ok(())
            }),
    {
        if !source.can_derive(requested) {
            return Err(RegionErr::EscalationDenied);
        }
        if requested.is_writable() {
            if let Some(rec) = self.regions.get(rid) {
                if rec.writable.is_some() {
                    return Err(RegionErr::SecondWriterDenied);
                }
            }
        }
        Ok(())
    }

    /// The size of a region.
    pub fn size_of(&self, rid: RegionId) -> (r: Option<u64>)
        ensures
            r == (if self@.contains_key(rid) {
                Some(self@[rid].size)
            } else {
                None
            }),
    {
        match self.regions.get(rid) {
            Some(rec) => Some(rec.size),
            None => None,
        }
    }
}

// ----------------------------------------------------------- capability ----

/// Why a region capability is not made, or a view of it not given.
#[derive(Clone, Copy, Debug, PartialEq, Eq, Structural)]
pub enum ViewErr {
    SizeOutOfBounds,
    NotWritable,
    RangeOverflow,
    BeyondRegion,
    NoIdentity,
}

impl ViewErr {
    /// The error in words.
    pub fn message(self) -> (r: &'static str)
        ensures
            r@ == (match self {
                ViewErr::SizeOutOfBounds => "region size out of bounds"@,
                ViewErr::NotWritable => "read-only capability cannot map writable"@,
                ViewErr::RangeOverflow => "offset+len overflow"@,
                ViewErr::BeyondRegion => "mapping extends beyond region"@,
                ViewErr::NoIdentity => "OS entropy source failed"@,
            }),
    {
        match self {
            ViewErr::SizeOutOfBounds => "region size out of bounds",
            ViewErr::NotWritable => "read-only capability cannot map writable",
            ViewErr::RangeOverflow => "offset+len overflow",
            ViewErr::BeyondRegion => "mapping extends beyond region",
            ViewErr::NoIdentity => "OS entropy source failed",
        }
    }
}

/// Move-only shared-region capability. Possession is authority; further
/// readers need an explicit `derive_read_only`. The kernel object behind it
/// is kept by whoever maps it.
#[derive(Debug)]
pub struct SharedRegion {
    id: RegionId,
    rights: Rights,
    size: u64,
}

/// What a capability says: identity, rights and size.
pub struct RegionCap {
    pub id: RegionId,
    pub rights: Rights,
    pub size: u64,
}

impl View for SharedRegion {
    type V = RegionCap;

    closed spec fn view(&self) -> RegionCap {
        RegionCap { id: self.id, rights: self.rights, size: self.size }
    }
}

/// May a region of this size be made at all?
pub open spec fn region_size_ok(size: u64, lim: Limits) -> bool {
    size != 0 && size <= lim.max_region_size
}

impl SharedRegion {
    /// A new region of `size` bytes with writable authority.
    pub fn create(size: u64, lim: &Limits) -> (r: Result<Self, ViewErr>)
        ensures
            r is Err && r->Err_0 == ViewErr::SizeOutOfBounds <==> !region_size_ok(size, *lim),
            r matches Err(e) ==> e == ViewErr::SizeOutOfBounds || e == ViewErr::NoIdentity,
            r matches Ok(c) ==> c@.size == size && c@.rights == Rights::ReadWrite && !all_zero(
                c@.id.0,
            ),
    {
        if size == 0 || size > lim.max_region_size {
            return Err(ViewErr::SizeOutOfBounds);
        }
        let none: HashSet<u128> = HashSet::new();
        match fresh_region_id(&none) {
            Ok(id) => Ok(SharedRegion { id, rights: Rights::ReadWrite, size }),
            Err(_) => Err(ViewErr::NoIdentity),
        }
    }

    pub fn id(&self) -> (r: RegionId)
        ensures
            r == self@.id,
    {
        self.id
    }

    pub fn rights(&self) -> (r: Rights)
        ensures
            r == self@.rights,
    {
        self.rights
    }

    pub fn size(&self) -> (r: u64)
        ensures
            r == self@.size,
    {
        self.size
    }

    /// The length of a writable view. A read-only capability gives none.
    pub fn map_read_write(&self) -> (r: Result<u64, ViewErr>)
        ensures
            r == (if self@.rights == Rights::ReadWrite {
                Ok::<u64, ViewErr>(self@.size)
            } else {
                Err(ViewErr::NotWritable)
            }),
    {
        if !self.rights.is_writable() {
            return Err(ViewErr::NotWritable);
        }
        Ok(self.size)
    }

    /// The length of a read-only view. Any capability gives one.
    pub fn map_read_only(&self) -> (r: u64)
        ensures
            r == self@.size,
    {
        self.size
    }

    /// Attenuates: a read-only capability over the same region. This one
    /// stays as it is.
    pub fn derive_read_only(&self) -> (r: SharedRegion)
        ensures
            r@ == (RegionCap { rights: Rights::ReadOnly, ..self@ }),
    {
        SharedRegion { id: self.id, rights: Rights::ReadOnly, size: self.size }
    }

    /// Gives the capability up, for escrow.
    pub fn into_backing(self) -> (r: (RegionId, Rights, u64))
        ensures
            r == (self@.id, self@.rights, self@.size),
    {
        (self.id, self.rights, self.size)
    }

    /// The capability that a received region comes with.
    pub fn from_backing(id: RegionId, rights: Rights, size: u64) -> (r: Self)
        ensures
            r@ == (RegionCap { id, rights, size }),
    {
        SharedRegion { id, rights, size }
    }
}

/// The bounds of `len` bytes at `offset` within a mapping of `mapped` bytes.
/// A range that overflows or leaves the mapping is refused.
pub fn slice_bounds(mapped: usize, offset: usize, len: usize) -> (r: Result<
    (usize, usize),
    ViewErr,
>)
    ensures
        r == (if offset + len > usize::MAX {
            Err::<(usize, usize), ViewErr>(ViewErr::RangeOverflow)
        } else if offset + len > mapped {
            Err(ViewErr::BeyondRegion)
        } else {
            Ok((offset, (offset + len) as usize))
        }),
{
    match offset.checked_add(len) {
        None => Err(ViewErr::RangeOverflow),
        Some(end) => if end > mapped {
            Err(ViewErr::BeyondRegion)
        } else {
            Ok((offset, end))
        },
    }
}

// ------------------------------------------------------------------ laws ----

/// One operation on the authority graph.
pub enum RegionOp {
    Create(RegionId, u64, PeerId),
    Derive(RegionId, PeerId),
    Grant(RegionId, PeerId),
    MoveWriter(RegionId, PeerId, PeerId),
    MoveReader(RegionId, PeerId, PeerId),
    Drop(RegionId, PeerId),
    Death(PeerId),
}

/// The graph after `op`; a refused operation changes nothing.
pub open spec fn region_step(m: Regions, op: RegionOp, lim: Limits) -> Regions {
    let r = match op {
        RegionOp::Create(rid, size, p) => region_creation(m, rid, size, p, lim),
        RegionOp::Derive(rid, p) => region_derivation(m, rid, p, lim),
        RegionOp::Grant(rid, p) => region_grant(m, rid, p, lim),
        RegionOp::MoveWriter(rid, a, b) => writer_move(m, rid, a, b),
        RegionOp::MoveReader(rid, a, b) => reader_move(m, rid, a, b),
        RegionOp::Drop(rid, p) => Ok(authority_drop(m, rid, p)),
        RegionOp::Death(p) => Ok(without_peer(m, p)),
    };
    match r {
        Ok(n) => n,
        Err(_) => m,
    }
}

/// Attenuation never escalates, however often it is repeated: what is
/// derived from a derived right was derivable at once, and nothing writable
/// comes out of a read-only right.
pub proof fn law_attenuation_never_escalates(a: Rights, b: Rights, c: Rights)
    requires
        a.derives(b),
        b.derives(c),
    ensures
        a.derives(c),
        c == Rights::ReadWrite ==> a == Rights::ReadWrite,
{
}

/// Once a region has no writer, no operation gives it one: a writer is minted
/// with the region and moves, or is gone for good.
pub proof fn law_no_writer_is_minted(m: Regions, op: RegionOp, lim: Limits, rid: RegionId)
    requires
        m.contains_key(rid),
        m[rid].writable is None,
    ensures
        region_step(m, op, lim).contains_key(rid) ==> region_step(m, op, lim)[rid].writable is None,
{
}

/// A region's size is fixed when it is made.
pub proof fn law_size_is_fixed(m: Regions, op: RegionOp, lim: Limits, rid: RegionId)
    requires
        m.contains_key(rid),
    ensures
        region_step(m, op, lim).contains_key(rid) ==> region_step(m, op, lim)[rid].size
            == m[rid].size,
{
}

/// A region lives exactly as long as somebody holds an authority over it.
pub proof fn law_regions_are_held(m: Regions, op: RegionOp, lim: Limits)
    requires
        regions_ok(m),
    ensures
        regions_ok(region_step(m, op, lim)),
{
    let n = region_step(m, op, lim);
    assert(n.dom().subset_of(
        m.dom() + (match op {
            RegionOp::Create(rid, _, _) => set![rid],
            _ => Set::empty(),
        }),
    ));
    vstd::set_lib::lemma_len_subset(
        n.dom(),
        m.dom() + (match op {
            RegionOp::Create(rid, _, _) => set![rid],
            _ => Set::empty(),
        }),
    );
    assert forall|rid: RegionId| #[trigger] n.contains_key(rid) implies !n[rid].vacant()
        && n[rid].readonly.finite() by {
        match op {
            RegionOp::Derive(k, p) if k == rid && region_derivation(m, k, p, lim) is Ok => {
                assert(n[rid].readonly.contains(p));
            },
            RegionOp::Grant(k, p) if k == rid && region_grant(m, k, p, lim) is Ok => {
                assert(n[rid].readonly.contains(p));
            },
            RegionOp::MoveReader(k, a, b) if k == rid && reader_move(m, k, a, b) is Ok => {
                assert(n[rid].readonly.contains(b));
            },
            _ => {},
        }
    }
}

/// Making a region and dropping its only authority leaves the graph as it
/// was.
pub proof fn law_create_then_drop(m: Regions, rid: RegionId, size: u64, p: PeerId, lim: Limits)
    requires
        region_creation(m, rid, size, p, lim) is Ok,
    ensures
        authority_drop(region_creation(m, rid, size, p, lim)->Ok_0, rid, p) == m,
{
    let n = region_creation(m, rid, size, p, lim)->Ok_0;
    assert(n[rid].dropping(p).vacant());
    assert(n.remove(rid) =~= m);
}

/// Moving the writer there and back again changes nothing, and the number of
/// authorities over the region never moves with it.
pub proof fn law_writer_move_is_a_move(m: Regions, rid: RegionId, from: PeerId, to: PeerId)
    requires
        writer_move(m, rid, from, to) is Ok,
    ensures
        writer_move(m, rid, from, to)->Ok_0[rid].authorities() == m[rid].authorities(),
        writer_move(writer_move(m, rid, from, to)->Ok_0, rid, to, from) == Ok::<Regions, RegionErr>(
            m,
        ),
{
    let n = writer_move(m, rid, from, to)->Ok_0;
    let back = writer_move(n, rid, to, from)->Ok_0;
    assert(back[rid] =~= m[rid]);
    assert(back =~= m);
}

/// After a death the dead peer holds nothing, and everybody else holds what
/// they held.
pub proof fn law_death_drops_only_the_dead(m: Regions, p: PeerId, rid: RegionId, q: PeerId)
    requires
        m.contains_key(rid),
        q != p,
    ensures
        without_peer(m, p).contains_key(rid) ==> !without_peer(m, p)[rid].held_by(p),
        m[rid].held_by(q) ==> without_peer(m, p).contains_key(rid) && without_peer(
            m,
            p,
        )[rid].held_by(q),
        without_peer(m, p).contains_key(rid) ==> (without_peer(m, p)[rid].held_by(q)
            == m[rid].held_by(q)),
{
    if m[rid].held_by(q) {
        let w = m[rid].without(p);
        assert(w.writable == Some(q) || w.readonly.contains(q));
        assert(!w.vacant());
    }
}

} // verus!

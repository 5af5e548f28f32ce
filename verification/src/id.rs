//! Endpoint and transfer identities.
//!
//! Authority-bearing identities are 128-bit values drawn from OS entropy and
//! checked against every identity still remembered, so that:
//! - they are not selectable by a peer,
//! - they are not realistically guessable,
//! - a stale identity does not alias a new capability.
//!
//! This is forge-resistant by randomness and scoping, not cryptographic
//! authentication: it defends against other processes guessing or replaying
//! identities.

use std::collections::{HashSet, VecDeque};
use vstd::prelude::*;

use crate::bytes::{get_le16, le_value};
use crate::fabric_error::Cause;
use crate::table::{Key, Table};

verus! {

/// Identity of one end of a conversation.
#[derive(Clone, Copy, Debug, Eq, Hash, PartialOrd, Ord)]
pub struct EpId(pub [u8; 16]);

/// Identity of one transfer transaction.
#[derive(Clone, Copy, Debug, Eq, Hash, PartialOrd, Ord)]
pub struct TransferId(pub [u8; 16]);

/// No bit of `b` is set.
pub open spec fn all_zero(b: [u8; 16]) -> bool {
    forall|i: int| 0 <= i < 16 ==> b@[i] == 0
}

/// Are two raw identities the same?
pub fn same16(a: &[u8; 16], b: &[u8; 16]) -> (r: bool)
    ensures
        r == (*a == *b),
{
    let mut i: usize = 0;
    while i < 16
        invariant
            i <= 16,
            forall|j: int| 0 <= j < i ==> a@[j] == b@[j],
        decreases 16 - i,
    {
        if a[i] != b[i] {
            return false;
        }
        i = i + 1;
    }
    assert(*a =~= *b);
    true
}

/// Is every byte of a raw identity zero?
pub fn is_zero16(b: &[u8; 16]) -> (r: bool)
    ensures
        r == all_zero(*b),
{
    let mut i: usize = 0;
    while i < 16
        invariant
            i <= 16,
            forall|j: int| 0 <= j < i ==> b@[j] == 0,
        decreases 16 - i,
    {
        if b[i] != 0 {
            return false;
        }
        i = i + 1;
    }
    true
}

/// The number of a raw identity.
pub open spec fn code16(b: [u8; 16]) -> u128 {
    le_value(b@) as u128
}

/// Raw identities are told apart by their numbers.
pub proof fn lemma_code16_injective(a: [u8; 16], b: [u8; 16])
    requires
        code16(a) == code16(b),
    ensures
        a == b,
{
    crate::bytes::lemma_le_value_bound(a@);
    crate::bytes::lemma_le_value_bound(b@);
    crate::bytes::lemma_pow256_widths();
    crate::bytes::lemma_le_value_injective(a@, b@);
    assert(a =~= b);
}

impl PartialEq for EpId {
    fn eq(&self, other: &Self) -> (r: bool) {
        same16(&self.0, &other.0)
    }
}

impl vstd::std_specs::cmp::PartialEqSpecImpl for EpId {
    open spec fn obeys_eq_spec() -> bool {
        true
    }

    open spec fn eq_spec(&self, other: &Self) -> bool {
        *self == *other
    }
}

impl PartialEq for TransferId {
    fn eq(&self, other: &Self) -> (r: bool) {
        same16(&self.0, &other.0)
    }
}

impl vstd::std_specs::cmp::PartialEqSpecImpl for TransferId {
    open spec fn obeys_eq_spec() -> bool {
        true
    }

    open spec fn eq_spec(&self, other: &Self) -> bool {
        *self == *other
    }
}

impl Key for EpId {
    open spec fn code(self) -> u128 {
        code16(self.0)
    }

    proof fn code_injective(a: Self, b: Self) {
        lemma_code16_injective(a.0, b.0);
    }

    fn to_code(self) -> (c: u128) {
        get_le16(&self.0)
    }
}

impl Key for TransferId {
    open spec fn code(self) -> u128 {
        code16(self.0)
    }

    proof fn code_injective(a: Self, b: Self) {
        lemma_code16_injective(a.0, b.0);
    }

    fn to_code(self) -> (c: u128) {
        get_le16(&self.0)
    }
}

impl EpId {
    /// The identity with these raw bytes.
    pub fn from_raw(b: [u8; 16]) -> (r: Self)
        ensures
            r == EpId(b),
    {
        EpId(b)
    }

    /// Zero names no endpoint.
    pub fn is_zero(self) -> (r: bool)
        ensures
            r == all_zero(self.0),
    {
        is_zero16(&self.0)
    }
}

impl TransferId {
    /// The identity with these raw bytes.
    pub fn from_raw(b: [u8; 16]) -> (r: Self)
        ensures
            r == TransferId(b),
    {
        TransferId(b)
    }

    /// Zero names no transfer.
    pub fn is_zero(self) -> (r: bool)
        ensures
            r == all_zero(self.0),
    {
        is_zero16(&self.0)
    }
}

// ---------------------------------------------------------------- entropy --

/// `getrandom::Error`, carried as it came.
#[verifier::external_type_specification]
#[verifier::external_body]
pub struct ExGetrandomError(getrandom::Error);

/// Why no fresh identity could be drawn.
#[derive(Clone, Copy, Debug, PartialEq, Eq, Structural)]
pub enum DrawError {
    /// The OS entropy source failed: unrecoverable for an identity scheme.
    EntropyFailed,
    /// Every draw hit an identity already taken.
    Exhausted,
}

/// `getrandom::fill` on a buffer of sixteen bytes: the bytes are random, so
/// nothing is claimed of them, nor of when the source fails.
#[verifier::external_body]
fn os_entropy16() -> (r: Result<[u8; 16], getrandom::Error>)
{
    let mut b = [0u8; 16];
    getrandom::fill(&mut b)?;
    Ok(b)
}

/// What an answer of the entropy source comes to: its bytes as they are, or
/// that it failed, whatever the reason.
pub fn drawn16(answer: Result<[u8; 16], getrandom::Error>) -> (r: Result<[u8; 16], DrawError>)
    ensures
        r == (match answer {
            Ok(b) => Ok::<[u8; 16], DrawError>(b),
            Err(_) => Err(DrawError::EntropyFailed),
        }),
{
    match answer {
        Ok(b) => Ok(b),
        Err(_) => Err(DrawError::EntropyFailed),
    }
}

/// Draws sixteen random bytes. Which ones, and whether the source fails, is
/// left to chance.
pub fn draw16() -> (r: Result<[u8; 16], DrawError>)
    ensures
        r matches Err(e) ==> e == DrawError::EntropyFailed,
{
    drawn16(os_entropy16())
}

// ----------------------------------------------------------- fresh identity --

/// A set of endpoint identities that must not be drawn again. Both live
/// tables and retirement records can be checked through it.
pub trait IdSpace {
    /// Is `id` in the set?
    spec fn has(&self, id: EpId) -> bool;

    fn contains(&self, id: EpId) -> (r: bool)
        ensures
            r == self.has(id),
    ;
}

/// A set of transfer identities that must not be drawn again.
pub trait TransferSpace {
    /// Is `id` in the set?
    spec fn has(&self, id: TransferId) -> bool;

    fn contains(&self, id: TransferId) -> (r: bool)
        ensures
            r == self.has(id),
    ;
}

/// The endpoint identity that a draw gives: none for zero or one taken.
pub fn admit_id<T: IdSpace>(b: [u8; 16], taken: &T) -> (r: Option<EpId>)
    ensures
        r == (if all_zero(b) || taken.has(EpId(b)) {
            None::<EpId>
        } else {
            Some(EpId(b))
        }),
{
    let id = EpId(b);
    if !id.is_zero() && !taken.contains(id) {
        Some(id)
    } else {
        None
    }
}

/// The transfer identity that a draw gives: none for zero or one taken.
pub fn admit_transfer_id<T: TransferSpace>(b: [u8; 16], taken: &T) -> (r: Option<TransferId>)
    ensures
        r == (if all_zero(b) || taken.has(TransferId(b)) {
            None::<TransferId>
        } else {
            Some(TransferId(b))
        }),
{
    let id = TransferId(b);
    if !id.is_zero() && !taken.contains(id) {
        Some(id)
    } else {
        None
    }
}

/// What one draw settles: a failed source ends the search, an identity that is
/// neither zero nor taken is the one, and nothing means to draw again.
pub fn settle_id<T: IdSpace>(draw: Result<[u8; 16], DrawError>, taken: &T) -> (r: Option<
    Result<EpId, DrawError>,
>)
    ensures
        r == (match draw {
            Err(e) => Some(Err::<EpId, DrawError>(e)),
            Ok(b) => if all_zero(b) || taken.has(EpId(b)) {
                None
            } else {
                Some(Ok(EpId(b)))
            },
        }),
{
    match draw {
        Ok(b) => match admit_id(b, taken) {
            Some(id) => Some(Ok(id)),
            None => None,
        },
        Err(e) => Some(Err(e)),
    }
}

/// Draws a fresh endpoint identity from OS entropy, retrying on zero and on
/// collision with `taken`. The caller passes the union of what is live and
/// what is retired.
pub fn fresh_id<T: IdSpace>(taken: &T) -> (r: Result<EpId, DrawError>)
    ensures
        r matches Ok(id) ==> !all_zero(id.0) && !taken.has(id),
{
    let mut tries: u64 = u64::MAX;
    while tries > 0
        decreases tries,
    {
        if let Some(r) = settle_id(draw16(), taken) {
            return r;
        }
        tries = tries - 1;
    }
    Err(DrawError::Exhausted)
}

/// What one draw settles: a failed source ends the search, an identity that is
/// neither zero nor taken is the one, and nothing means to draw again.
pub fn settle_transfer_id<T: TransferSpace>(draw: Result<[u8; 16], DrawError>, taken: &T) -> (r: Option<
    Result<TransferId, DrawError>,
>)
    ensures
        r == (match draw {
            Err(e) => Some(Err::<TransferId, DrawError>(e)),
            Ok(b) => if all_zero(b) || taken.has(TransferId(b)) {
                None
            } else {
                Some(Ok(TransferId(b)))
            },
        }),
{
    match draw {
        Ok(b) => match admit_transfer_id(b, taken) {
            Some(id) => Some(Ok(id)),
            None => None,
        },
        Err(e) => Some(Err(e)),
    }
}

/// Draws a fresh transfer identity from OS entropy, retrying on zero and on
/// collision with `taken`.
pub fn fresh_transfer_id<T: TransferSpace>(taken: &T) -> (r: Result<TransferId, DrawError>)
    ensures
        r matches Ok(id) ==> !all_zero(id.0) && !taken.has(id),
{
    let mut tries: u64 = u64::MAX;
    while tries > 0
        decreases tries,
    {
        if let Some(r) = settle_transfer_id(draw16(), taken) {
            return r;
        }
        tries = tries - 1;
    }
    Err(DrawError::Exhausted)
}

impl IdSpace for HashSet<u128> {
    open spec fn has(&self, id: EpId) -> bool {
        self@.contains(id.code())
    }

    fn contains(&self, id: EpId) -> (r: bool) {
        let c: u128 = id.to_code();
        HashSet::contains(self, &c)
    }
}

/// The empty set of identities: any draw will do.
#[derive(Clone, Copy, Debug)]
pub struct NoneTaken;

impl IdSpace for NoneTaken {
    open spec fn has(&self, id: EpId) -> bool {
        false
    }

    fn contains(&self, id: EpId) -> (r: bool) {
        false
    }
}

impl TransferSpace for NoneTaken {
    open spec fn has(&self, id: TransferId) -> bool {
        false
    }

    fn contains(&self, id: TransferId) -> (r: bool) {
        false
    }
}

// --------------------------------------------------------------- retirement --

/// Monotonic retirement set. Identities land here when their conversation
/// dies and never return to circulation.
pub struct Retirement {
    retired: HashSet<u128>,
}

impl View for Retirement {
    type V = Set<u128>;

    closed spec fn view(&self) -> Set<u128> {
        self.retired@
    }
}

impl Retirement {
    /// An empty set.
    pub fn new() -> (r: Self)
        ensures
            r@ == Set::<u128>::empty(),
    {
        Retirement { retired: HashSet::new() }
    }

    /// Retires `id` for good.
    pub fn retire(&mut self, id: EpId)
        ensures
            final(self)@ == old(self)@.insert(id.code()),
    {
        let c: u128 = id.to_code();
        let _ = self.retired.insert(c);
    }

    /// Was `id` retired?
    pub fn is_retired(&self, id: EpId) -> (r: bool)
        ensures
            r == self@.contains(id.code()),
    {
        let c: u128 = id.to_code();
        self.retired.contains(&c)
    }

    /// How many identities were retired.
    pub fn len(&self) -> (n: usize)
        ensures
            n == self@.len(),
    {
        self.retired.len()
    }

    /// Was none retired?
    pub fn is_empty(&self) -> (r: bool)
        ensures
            r == (self@ == Set::<u128>::empty()),
    {
        self.retired.is_empty()
    }
}

impl IdSpace for Retirement {
    open spec fn has(&self, id: EpId) -> bool {
        self@.contains(id.code())
    }

    fn contains(&self, id: EpId) -> (r: bool) {
        self.is_retired(id)
    }
}

/// A borrowed set of identity numbers, used when drawing fresh identities.
pub struct IdOracle<'a> {
    pub extra: &'a HashSet<u128>,
}

impl<'a> IdSpace for IdOracle<'a> {
    open spec fn has(&self, id: EpId) -> bool {
        self.extra@.contains(id.code())
    }

    fn contains(&self, id: EpId) -> (r: bool) {
        let c: u128 = id.to_code();
        self.extra.contains(&c)
    }
}

// --------------------------------------------------------------- tombstones --

/// What a bounded set of tombstones remembers: the identities from the oldest
/// to the newest, and the cause filed with each.
#[verifier::ext_equal]
#[verifier::reject_recursive_types(T)]
pub struct Ledger<T> {
    pub order: Seq<T>,
    pub causes: Map<T, Cause>,
    pub cap: nat,
}

impl<T> Ledger<T> {
    /// Nothing remembered yet.
    pub open spec fn empty(cap: nat) -> Self {
        Ledger { order: Seq::empty(), causes: Map::empty(), cap }
    }

    /// Each identity once, each with a cause, no more than the capacity.
    pub open spec fn wf(self) -> bool {
        &&& self.order.no_duplicates()
        &&& self.order.len() <= self.cap
        &&& forall|t: T| self.order.contains(t) <==> self.causes.contains_key(t)
    }

    /// Files `id`. A known identity keeps its place and takes the new cause; a
    /// new one goes last, and the oldest leaves if that is one too many.
    pub open spec fn insert(self, id: T, cause: Cause) -> Self {
        if self.causes.contains_key(id) {
            Ledger { causes: self.causes.insert(id, cause), ..self }
        } else {
            let order = self.order.push(id);
            let causes = self.causes.insert(id, cause);
            if order.len() > self.cap {
                Ledger { order: order.skip(1), causes: causes.remove(order[0]), ..self }
            } else {
                Ledger { order, causes, ..self }
            }
        }
    }

    /// Is `id` remembered?
    pub open spec fn has(self, id: T) -> bool {
        self.causes.contains_key(id)
    }

    /// The cause filed with `id`.
    pub open spec fn cause_of(self, id: T) -> Option<Cause> {
        if self.causes.contains_key(id) {
            Some(self.causes[id])
        } else {
            None
        }
    }

    /// Filing keeps a ledger well formed.
    pub proof fn lemma_insert_wf(self, id: T, cause: Cause)
        requires
            self.wf(),
        ensures
            self.insert(id, cause).wf(),
            self.insert(id, cause).cap == self.cap,
    {
        let next = self.insert(id, cause);
        if !self.causes.contains_key(id) {
            let order = self.order.push(id);
            let causes = self.causes.insert(id, cause);
            assert forall|t: T| order.contains(t) <==> causes.contains_key(t) by {
                if self.order.contains(t) {
                    let i = self.order.index_of(t);
                    assert(order[i] == t);
                }
                if order.contains(t) {
                    let i = order.index_of(t);
                    assert(order[i] == t);
                    if i < self.order.len() {
                        assert(self.order[i] == t);
                    }
                }
                if t == id {
                    assert(order[self.order.len() as int] == t);
                }
            }
            assert(order.no_duplicates()) by {
                assert forall|i: int, j: int|
                    0 <= i < order.len() && 0 <= j < order.len() && i != j implies order[i] != order[j] by {
                    if i == self.order.len() {
                        assert(self.order.contains(self.order[j]));
                    } else if j == self.order.len() {
                        assert(self.order.contains(self.order[i]));
                    }
                }
            }
            if order.len() > self.cap {
                assert forall|t: T| next.order.contains(t) <==> next.causes.contains_key(t) by {
                    if next.order.contains(t) {
                        let i = next.order.index_of(t);
                        assert(order[i + 1] == t);
                        assert(order.contains(t));
                        assert(order[i + 1] != order[0]);
                    }
                    if next.causes.contains_key(t) {
                        assert(order.contains(t));
                        let i = order.index_of(t);
                        assert(order[i] == t);
                        assert(i != 0);
                        assert(next.order[i - 1] == t);
                    }
                }
                assert(next.order.no_duplicates());
            }
        } else {
            assert forall|t: T| next.order.contains(t) <==> next.causes.contains_key(t) by {}
        }
    }
}

/// A bounded record of recent retirements. When it is full the oldest
/// tombstone leaves, so its size does not follow churn.
#[verifier::reject_recursive_types(T)]
pub struct BoundedTombstones<T: Key> {
    order: VecDeque<T>,
    causes: Table<T, Cause>,
    cap: usize,
}

impl<T: Key> View for BoundedTombstones<T> {
    type V = Ledger<T>;

    closed spec fn view(&self) -> Ledger<T> {
        Ledger { order: self.order@, causes: self.causes@, cap: self.cap as nat }
    }
}

impl<T: Key> BoundedTombstones<T> {
    /// The record is consistent and within its capacity.
    pub closed spec fn wf(&self) -> bool {
        &&& self.causes.wf()
        &&& self@.wf()
    }

    /// A well-formed record remembers a well-formed ledger.
    pub proof fn lemma_wf(&self)
        requires
            self.wf(),
        ensures
            self@.wf(),
    {
    }

    /// An empty record that holds at most `cap` tombstones.
    pub fn new(cap: usize) -> (r: Self)
        ensures
            r.wf(),
            r@ == Ledger::<T>::empty(cap as nat),
    {
        let r = BoundedTombstones { order: VecDeque::new(), causes: Table::new(), cap };
        assert(r.order@ =~= Seq::<T>::empty());
        r
    }

    /// Files a tombstone.
    pub fn insert(&mut self, id: T, cause: Cause)
        requires
            old(self).wf(),
        ensures
            final(self).wf(),
            final(self)@ == old(self)@.insert(id, cause),
    {
        proof {
            old(self)@.lemma_insert_wf(id, cause);
        }
        let known = self.causes.contains_key(id);
        self.causes.insert(id, cause);
        if !known {
            self.order.push_back(id);
            if self.order.len() > self.cap {
                if let Some(oldest) = self.order.pop_front() {
                    let _ = self.causes.remove(oldest);
                }
                assert(self.order@ =~= old(self)@.order.push(id).skip(1));
            }
        }
        assert(self@ =~= old(self)@.insert(id, cause));
    }

    /// Is `id` remembered?
    pub fn contains(&self, id: T) -> (r: bool)
        ensures
            r == self@.has(id),
    {
        self.causes.contains_key(id)
    }

    /// The cause filed with `id`.
    pub fn get(&self, id: T) -> (r: Option<Cause>)
        ensures
            r == self@.cause_of(id),
    {
        match self.causes.get(id) {
            Some(c) => Some(*c),
            None => None,
        }
    }

    /// How many tombstones are held.
    pub fn len(&self) -> (n: usize)
        ensures
            n == self@.order.len(),
    {
        self.order.len()
    }
}

// ------------------------------------------------------------------------- laws --

/// What is filed is remembered, with its cause, if anything can be: the ledger
/// forgets the oldest first, and only where it would hold too many. Everything
/// else that it remembered it remembers still, with the same cause.
pub proof fn law_filed_is_remembered<T>(l: Ledger<T>, id: T, cause: Cause)
    requires
        l.wf(),
    ensures
        ({
            let n = l.insert(id, cause);
            &&& n.wf()
            &&& n.cap == l.cap
            &&& l.cap > 0 ==> n.causes.contains_key(id) && n.causes[id] == cause
            &&& forall|t: T|
                t != id && #[trigger] n.causes.contains_key(t) ==> l.causes.contains_key(t)
                    && n.causes[t] == l.causes[t]
            &&& l.causes.contains_key(id) ==> n.order == l.order
            &&& !l.causes.contains_key(id) && l.order.len() < l.cap ==> n.order == l.order.push(id)
            &&& !l.causes.contains_key(id) && l.order.len() == l.cap && l.cap > 0 ==> n.order
                == l.order.skip(1).push(id)
            &&& l.order.len() < l.cap || l.causes.contains_key(id) ==> forall|t: T| #[trigger]
                l.causes.contains_key(t) ==> n.causes.contains_key(t)
            &&& l.cap > 0 ==> forall|t: T| #[trigger]
                l.causes.contains_key(t) && t != l.order[0] ==> n.causes.contains_key(t)
        }),
{
    l.lemma_insert_wf(id, cause);
    let n = l.insert(id, cause);
    if !l.causes.contains_key(id) && l.cap > 0 {
        let order = l.order.push(id);
        assert(order[l.order.len() as int] == id);
        if order.len() > l.cap {
            assert(l.order.len() == l.cap);
            assert(order[0] == l.order[0]);
            assert(l.order.contains(l.order[0]));
            assert(order.skip(1) =~= l.order.skip(1).push(id));
        }
    }
}

} // verus!

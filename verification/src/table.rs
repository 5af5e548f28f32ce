//! Tables keyed by small identities, walked in key order.

use std::collections::BTreeMap;
use vstd::prelude::*;

verus! {

/// A key with a number of its own. Keys are ordered by that number.
pub trait Key: Copy + Sized {
    /// The key's number.
    spec fn code(self) -> u128;

    /// No two keys share a number.
    proof fn code_injective(a: Self, b: Self)
        requires
            a.code() == b.code(),
        ensures
            a == b,
    ;

    /// Computes the key's number.
    fn to_code(self) -> (c: u128)
        ensures
            c == self.code(),
    ;
}

impl Key for u32 {
    open spec fn code(self) -> u128 {
        self as u128
    }

    proof fn code_injective(a: Self, b: Self) {
    }

    fn to_code(self) -> (c: u128) {
        self as u128
    }
}

impl Key for u64 {
    open spec fn code(self) -> u128 {
        self as u128
    }

    proof fn code_injective(a: Self, b: Self) {
    }

    fn to_code(self) -> (c: u128) {
        self as u128
    }
}

/// Keys in strictly increasing order.
pub open spec fn ascending<K: Key>(s: Seq<K>) -> bool {
    forall|i: int, j: int| 0 <= i < j < s.len() ==> (#[trigger] s[i]).code() < (#[trigger] s[j]).code()
}

/// `s` lists the keys of `d`, each once, in increasing order.
pub open spec fn lists_keys<K: Key>(s: Seq<K>, d: Set<K>) -> bool {
    &&& ascending(s)
    &&& forall|k: K| s.contains(k) <==> d.contains(k)
}

/// The keys of `d` in increasing order.
pub open spec fn key_list<K: Key>(d: Set<K>) -> Seq<K> {
    choose|s: Seq<K>| lists_keys(s, d)
}

/// There is at most one increasing list of a set of keys.
pub proof fn lemma_lists_keys_unique<K: Key>(a: Seq<K>, b: Seq<K>, d: Set<K>)
    requires
        lists_keys(a, d),
        lists_keys(b, d),
    ensures
        a == b,
    decreases a.len(),
{
    if a.len() == 0 {
        if b.len() > 0 {
            assert(b.contains(b[0]));
            assert(a.contains(b[0]));
        }
        assert(a =~= b);
    } else {
        assert(a.contains(a.last()));
        assert(b.contains(a.last()));
        assert(b.len() > 0);
        assert(b.contains(b.last()));
        assert(a.contains(b.last()));
        let i = a.index_of(b.last());
        let j = b.index_of(a.last());
        assert(a[i] == b.last());
        assert(b[j] == a.last());
        assert(a.last().code() == b.last().code()) by {
            if i < a.len() - 1 {
                assert(a[i].code() < a[a.len() - 1].code());
                if j < b.len() - 1 {
                    assert(b[j].code() < b[b.len() - 1].code());
                }
            } else if j < b.len() - 1 {
                assert(b[j].code() < b[b.len() - 1].code());
            }
        }
        K::code_injective(a.last(), b.last());
        let d2 = d.remove(a.last());
        lemma_lists_keys_drop_last(a, d);
        lemma_lists_keys_drop_last(b, d);
        lemma_lists_keys_unique(a.drop_last(), b.drop_last(), d2);
        assert(a =~= a.drop_last().push(a.last()));
        assert(b =~= b.drop_last().push(b.last()));
    }
}

proof fn lemma_lists_keys_drop_last<K: Key>(a: Seq<K>, d: Set<K>)
    requires
        lists_keys(a, d),
        a.len() > 0,
    ensures
        lists_keys(a.drop_last(), d.remove(a.last())),
{
    let d2 = d.remove(a.last());
    assert forall|k: K| a.drop_last().contains(k) <==> d2.contains(k) by {
        if a.drop_last().contains(k) {
            let i = a.drop_last().index_of(k);
            assert(a[i] == k);
            assert(a.contains(k));
            assert(a[i].code() < a[a.len() - 1].code());
        }
        if d2.contains(k) {
            assert(a.contains(k));
            let i = a.index_of(k);
            assert(a[i] == k);
            assert(a.drop_last()[i] == k);
        }
    }
}

/// A list of keys is the list of keys.
pub proof fn lemma_key_list<K: Key>(s: Seq<K>, d: Set<K>)
    requires
        lists_keys(s, d),
    ensures
        key_list(d) == s,
{
    lemma_lists_keys_unique(s, key_list(d), d);
}

/// `k` put in its place among keys in increasing order.
spec fn insert_sorted<K: Key>(s: Seq<K>, k: K) -> Seq<K>
    decreases s.len(),
{
    if s.len() == 0 || s.last().code() < k.code() {
        s.push(k)
    } else {
        insert_sorted(s.drop_last(), k).push(s.last())
    }
}

proof fn lemma_insert_sorted<K: Key>(s: Seq<K>, k: K, d: Set<K>)
    requires
        lists_keys(s, d),
        !d.contains(k),
    ensures
        lists_keys(insert_sorted(s, k), d.insert(k)),
    decreases s.len(),
{
    let r = insert_sorted(s, k);
    if s.len() == 0 || s.last().code() < k.code() {
        assert forall|j: K| r.contains(j) <==> d.insert(k).contains(j) by {
            assert(r[s.len() as int] == k);
            if s.contains(j) {
                assert(r[s.index_of(j)] == j);
            }
            if r.contains(j) {
                let i = r.index_of(j);
                if i < s.len() {
                    assert(s[i] == j);
                }
            }
        }
        assert forall|i: int, j: int| 0 <= i < j < r.len() implies (#[trigger] r[i]).code() < (
        #[trigger] r[j]).code() by {
            if j == s.len() && i < s.len() - 1 {
                assert(s[i].code() < s[s.len() - 1].code());
            }
        }
    } else {
        assert(s.contains(s.last()));
        if s.last().code() == k.code() {
            K::code_injective(s.last(), k);
        }
        let front = s.drop_last();
        let d2 = d.remove(s.last());
        lemma_lists_keys_drop_last(s, d);
        lemma_insert_sorted(front, k, d2);
        let f = insert_sorted(front, k);
        assert forall|j: K| r.contains(j) <==> d.insert(k).contains(j) by {
            assert(r[f.len() as int] == s.last());
            if f.contains(j) {
                assert(r[f.index_of(j)] == j);
            }
            if r.contains(j) {
                let i = r.index_of(j);
                if i < f.len() {
                    assert(f[i] == j);
                    assert(f.contains(j));
                }
            }
        }
        assert forall|i: int, j: int| 0 <= i < j < r.len() implies (#[trigger] r[i]).code() < (
        #[trigger] r[j]).code() by {
            if j == f.len() {
                assert(f.contains(f[i]));
                let x = f[i];
                if x != k {
                    assert(d2.contains(x));
                    assert(front.contains(x));
                    let n = front.index_of(x);
                    assert(s[n] == x);
                    assert(s[n].code() < s[s.len() - 1].code());
                }
            } else {
                assert(f[i].code() < f[j].code());
            }
        }
    }
}

/// Finitely many keys can be listed.
pub proof fn lemma_key_list_lists<K: Key>(d: Set<K>)
    requires
        d.finite(),
    ensures
        lists_keys(key_list(d), d),
    decreases d.len(),
{
    if d.len() == 0 {
        let s = Seq::<K>::empty();
        assert(d =~= Set::empty());
        assert(lists_keys(s, d));
    } else {
        let k = d.choose();
        assert(d.contains(k));
        lemma_key_list_lists(d.remove(k));
        lemma_insert_sorted(key_list(d.remove(k)), k, d.remove(k));
        assert(d.remove(k).insert(k) =~= d);
    }
}

/// What a filtered list of keys holds.
pub proof fn lemma_filtered_keys<K: Key>(d: Set<K>, p: spec_fn(K) -> bool)
    requires
        d.finite(),
    ensures
        forall|k: K| #[trigger] key_list(d).filter(p).contains(k) <==> d.contains(k) && p(k),
{
    let s = key_list(d);
    lemma_key_list_lists(d);
    assert forall|k: K| #[trigger] s.filter(p).contains(k) <==> d.contains(k) && p(k) by {
        broadcast use vstd::seq_lib::group_filter_ensures;

        if s.filter(p).contains(k) {
            s.lemma_filter_contains_rev(p, k);
            let i = s.filter(p).index_of(k);
            assert(p(s.filter(p)[i]));
        }
        if d.contains(k) && p(k) {
            assert(s.contains(k));
            let i = s.index_of(k);
            assert(p(s[i]));
            assert(s.filter(p).contains(s[i]));
        }
    }
}

/// Walking a list of keys counts each key once.
pub proof fn lemma_count_keys<K: Key>(s: Seq<K>, d: Set<K>, p: spec_fn(K) -> bool)
    requires
        lists_keys(s, d),
    ensures
        s.filter(p).len() == d.filter(p).len(),
        d.finite(),
    decreases s.len(),
{
    reveal(Seq::filter);
    if s.len() == 0 {
        assert(d =~= Set::empty()) by {
            assert forall|k: K| !d.contains(k) by {
                assert(!s.contains(k));
            }
        }
        assert(d.filter(p) =~= Set::empty());
    } else {
        let d2 = d.remove(s.last());
        lemma_lists_keys_drop_last(s, d);
        lemma_count_keys(s.drop_last(), d2, p);
        assert(s.contains(s.last()));
        assert(d =~= d2.insert(s.last()));
        assert(d2.filter(p).finite());
        if p(s.last()) {
            assert(d.filter(p) =~= d2.filter(p).insert(s.last()));
        } else {
            assert(d.filter(p) =~= d2.filter(p));
        }
    }
}

/// A map from keys to values.
#[verifier::reject_recursive_types(K)]
pub struct Table<K: Key, V> {
    m: BTreeMap<u128, (K, V)>,
}

impl<K: Key, V> View for Table<K, V> {
    type V = Map<K, V>;

    closed spec fn view(&self) -> Map<K, V> {
        Map::new(|k: K| self.m@.contains_key(k.code()), |k: K| self.m@[k.code()].1)
    }
}

impl<K: Key, V> Table<K, V> {
    /// Each entry is filed under its key's number.
    pub closed spec fn wf(&self) -> bool {
        forall|c: u128| #[trigger] self.m@.contains_key(c) ==> self.m@[c].0.code() == c
    }

    /// An empty table.
    pub fn new() -> (r: Self)
        ensures
            r.wf(),
            r@ == Map::<K, V>::empty(),
    {
        let r = Table { m: BTreeMap::new() };
        assert(r@ =~= Map::<K, V>::empty());
        r
    }

    proof fn lemma_len(&self)
        requires
            self.wf(),
        ensures
            self@.dom().finite(),
            self@.len() == self.m@.len(),
    {
        let f = |k: K| k.code();
        assert(self.m@.dom().finite());
        let g = |c: u128| self.m@[c].0;
        assert(self@.dom() =~= self.m@.dom().map(g)) by {
            assert forall|k: K| self@.dom().contains(k) implies self.m@.dom().map(g).contains(k) by {
                K::code_injective(k, self.m@[k.code()].0);
                assert(g(k.code()) == k);
                assert(self.m@.dom().contains(k.code()));
            }
            assert forall|k: K| self.m@.dom().map(g).contains(k) implies self@.dom().contains(k) by {
                let c = choose|c: u128| self.m@.dom().contains(c) && k == g(c);
                assert(self.m@.contains_key(c));
            }
        }
        assert(vstd::relations::injective_on(g, self.m@.dom())) by {
            assert forall|a: u128, b: u128|
                self.m@.dom().contains(a) && self.m@.dom().contains(b) && #[trigger] g(a) == #[trigger] g(b) implies a
                == b by {
                assert(self.m@.contains_key(a));
                assert(self.m@.contains_key(b));
            }
        }
        vstd::set_lib::lemma_map_size(self.m@.dom(), self@.dom(), g);
    }

    /// A table has finitely many entries.
    pub proof fn lemma_finite(&self)
        requires
            self.wf(),
        ensures
            self@.dom().finite(),
    {
        self.lemma_len();
    }

    /// How many entries there are.
    pub fn len(&self) -> (n: usize)
        requires
            self.wf(),
        ensures
            n == self@.len(),
            self@.dom().finite(),
    {
        proof {
            self.lemma_len();
        }
        self.m.len()
    }

    /// Is there an entry for `k`?
    pub fn contains_key(&self, k: K) -> (r: bool)
        ensures
            r == self@.contains_key(k),
    {
        self.m.contains_key(&k.to_code())
    }

    /// The entry for `k`.
    pub fn get(&self, k: K) -> (r: Option<&V>)
        ensures
            match r {
                Some(v) => self@.contains_key(k) && *v == self@[k],
                None => !self@.contains_key(k),
            },
    {
        match self.m.get(&k.to_code()) {
            Some(kv) => Some(&kv.1),
            None => None,
        }
    }

    /// Files `v` under `k`, in place of what was there.
    pub fn insert(&mut self, k: K, v: V)
        requires
            old(self).wf(),
        ensures
            final(self).wf(),
            final(self)@ == old(self)@.insert(k, v),
    {
        let c: u128 = k.to_code();
        let _ = self.m.insert(c, (k, v));
        proof {
            assert forall|j: K| self@.contains_key(j) == old(self)@.insert(k, v).contains_key(j) by {
                if j.code() == k.code() {
                    K::code_injective(j, k);
                }
            }
            assert forall|j: K| self@.contains_key(j) implies self@[j] == old(self)@.insert(k, v)[j] by {
                if j.code() == k.code() {
                    K::code_injective(j, k);
                }
            }
            assert(self@ =~= old(self)@.insert(k, v));
        }
    }

    /// Takes out the entry for `k`.
    pub fn remove(&mut self, k: K) -> (r: Option<V>)
        requires
            old(self).wf(),
        ensures
            final(self).wf(),
            final(self)@ == old(self)@.remove(k),
            match r {
                Some(v) => old(self)@.contains_key(k) && v == old(self)@[k],
                None => !old(self)@.contains_key(k),
            },
    {
        let c: u128 = k.to_code();
        let r = match self.m.remove(&c) {
            Some(kv) => Some(kv.1),
            None => None,
        };
        proof {
            assert forall|j: K| self@.contains_key(j) == old(self)@.remove(k).contains_key(j) by {
                if j.code() == k.code() {
                    K::code_injective(j, k);
                }
            }
            assert(self@ =~= old(self)@.remove(k));
        }
        r
    }

    /// The keys, in increasing order.
    pub fn keys(&self) -> (r: Vec<K>)
        requires
            self.wf(),
        ensures
            r@ == key_list(self@.dom()),
            lists_keys(r@, self@.dom()),
    {
        let mut out: Vec<K> = Vec::new();
        let ghost items = vstd::std_specs::iter::IteratorSpec::remaining(&self.m.iter());
        for kv in it: self.m.iter()
            invariant
                out@.len() == it.index(),
                forall|i: int| 0 <= i < out@.len() ==> out@[i] == it.seq()[i].1.0,
                it.seq() == items,
        {
            out.push(kv.1.0);
        }
        proof {
            let s = out@;
            let codes = items.map_values(|kv: (&u128, &(K, V))| *kv.0);
            assert forall|i: int| 0 <= i < s.len() implies self.m@.contains_key(#[trigger] codes[i])
                && s[i].code() == codes[i] by {
                assert(self.m@.contains_key(*items[i].0));
            }
            assert(ascending(s)) by {
                assert forall|i: int, j: int| 0 <= i < j < s.len() implies (#[trigger] s[i]).code() < (
                #[trigger] s[j]).code() by {
                    assert(vstd::std_specs::cmp::OrdSpec::cmp_spec(&codes[i], &codes[j]) is Less);
                }
            }
            assert forall|k: K| s.contains(k) <==> self@.dom().contains(k) by {
                if s.contains(k) {
                    let i = s.index_of(k);
                    assert(s[i] == k);
                    assert(self.m@.contains_key(codes[i]));
                }
                if self@.dom().contains(k) {
                    let c = k.code();
                    assert(self.m@.contains_key(c));
                    assert(items.contains((&c, &self.m@[c])));
                    let i = items.index_of((&c, &self.m@[c]));
                    K::code_injective(k, self.m@[c].0);
                    assert(s[i] == k);
                }
            }
            lemma_key_list(s, self@.dom());
        }
        out
    }
}

} // verus!

//! Byte-wise lexicographic order on keys, and a sorted map over it.
//!
//! `SortedMap` keeps its entries in strictly increasing key order, the order
//! in which a standard ordered map walks its keys.

use vstd::prelude::*;

verus! {

/// `a` sorts before `b` when compared byte by byte from index `i` on; a
/// proper prefix sorts first.
pub open spec fn lex_lt_from(a: Seq<u8>, b: Seq<u8>, i: int) -> bool
    decreases a.len() - i,
{
    if i < 0 || i >= a.len() {
        0 <= i < b.len()
    } else if i >= b.len() {
        false
    } else if a[i] < b[i] {
        true
    } else if a[i] > b[i] {
        false
    } else {
        lex_lt_from(a, b, i + 1)
    }
}

/// `a` sorts strictly before `b` in byte-wise lexicographic order.
pub open spec fn lex_lt(a: Seq<u8>, b: Seq<u8>) -> bool {
    lex_lt_from(a, b, 0)
}

proof fn lemma_lex_from_irreflexive(a: Seq<u8>, i: int)
    requires
        0 <= i,
    ensures
        !lex_lt_from(a, a, i),
    decreases a.len() - i,
{
    if i < a.len() {
        lemma_lex_from_irreflexive(a, i + 1);
    }
}

proof fn lemma_lex_from_transitive(a: Seq<u8>, b: Seq<u8>, c: Seq<u8>, i: int)
    requires
        0 <= i,
        lex_lt_from(a, b, i),
        lex_lt_from(b, c, i),
    ensures
        lex_lt_from(a, c, i),
    decreases a.len() - i,
{
    if i < a.len() && i < b.len() && i < c.len() && a[i] == b[i] && b[i] == c[i] {
        lemma_lex_from_transitive(a, b, c, i + 1);
    }
}

proof fn lemma_lex_from_total(a: Seq<u8>, b: Seq<u8>, i: int)
    requires
        0 <= i <= a.len(),
        i <= b.len(),
        !lex_lt_from(a, b, i),
        !lex_lt_from(b, a, i),
    ensures
        a.skip(i) =~= b.skip(i),
    decreases a.len() - i,
{
    if i < a.len() {
        lemma_lex_from_total(a, b, i + 1);
        assert(a.skip(i) =~= seq![a[i]] + a.skip(i + 1));
        assert(b.skip(i) =~= seq![b[i]] + b.skip(i + 1));
    }
}

/// Byte-wise order is a strict total order.
pub proof fn lemma_lex_order(a: Seq<u8>, b: Seq<u8>, c: Seq<u8>)
    ensures
        !lex_lt(a, a),
        lex_lt(a, b) && lex_lt(b, c) ==> lex_lt(a, c),
        lex_lt(a, b) ==> !lex_lt(b, a),
        a != b ==> lex_lt(a, b) || lex_lt(b, a),
{
    lemma_lex_from_irreflexive(a, 0);
    if lex_lt(a, b) && lex_lt(b, c) {
        lemma_lex_from_transitive(a, b, c, 0);
    }
    if lex_lt(a, b) && lex_lt(b, a) {
        lemma_lex_from_transitive(a, b, a, 0);
    }
    if !lex_lt(a, b) && !lex_lt(b, a) {
        lemma_lex_from_total(a, b, 0);
        assert(a.skip(0) =~= a);
        assert(b.skip(0) =~= b);
    }
}

/// Three-way comparison outcome.
#[derive(Debug, Clone, Copy, PartialEq, Eq)]
pub enum KeyOrder {
    Less,
    Equal,
    Greater,
}

/// Compares two byte strings lexicographically.
pub fn compare_bytes(a: &[u8], b: &[u8]) -> (r: KeyOrder)
    ensures
        r == KeyOrder::Less <==> lex_lt(a@, b@),
        r == KeyOrder::Greater <==> lex_lt(b@, a@),
        r == KeyOrder::Equal <==> a@ == b@,
{
    proof { lemma_lex_order(a@, b@, a@); }
    let mut i: usize = 0;
    while i < a.len() && i < b.len()
        invariant
            i <= a@.len(),
            i <= b@.len(),
            lex_lt(a@, b@) == lex_lt_from(a@, b@, i as int),
            lex_lt(b@, a@) == lex_lt_from(b@, a@, i as int),
            a@.subrange(0, i as int) =~= b@.subrange(0, i as int),
        decreases a@.len() - i,
    {
        if a[i] < b[i] {
            return KeyOrder::Less;
        }
        if a[i] > b[i] {
            return KeyOrder::Greater;
        }
        assert(a@.subrange(0, i + 1) =~= a@.subrange(0, i as int).push(a@[i as int]));
        assert(b@.subrange(0, i + 1) =~= b@.subrange(0, i as int).push(b@[i as int]));
        i = i + 1;
    }
    if a.len() < b.len() {
        KeyOrder::Less
    } else if a.len() > b.len() {
        KeyOrder::Greater
    } else {
        assert(a@ =~= a@.subrange(0, i as int));
        assert(b@ =~= b@.subrange(0, i as int));
        KeyOrder::Equal
    }
}

/// Whether two byte strings are equal.
pub fn bytes_equal(a: &[u8], b: &[u8]) -> (r: bool)
    ensures
        r == (a@ == b@),
{
    match compare_bytes(a, b) {
        KeyOrder::Equal => true,
        _ => false,
    }
}

/// A key that orders by its bytes.
pub trait ByteKey: Sized {
    /// The bytes by which the key is ordered and found.
    spec fn key_bytes(&self) -> Seq<u8>;

    /// The key's bytes.
    fn as_key_bytes(&self) -> (r: &[u8])
        ensures
            r@ == self.key_bytes(),
    ;
}

impl ByteKey for String {
    open spec fn key_bytes(&self) -> Seq<u8> {
        vstd::utf8::encode_utf8(self@)
    }

    fn as_key_bytes(&self) -> (r: &[u8]) {
        self.as_str().as_bytes()
    }
}

impl ByteKey for [u8; 32] {
    open spec fn key_bytes(&self) -> Seq<u8> {
        self@
    }

    fn as_key_bytes(&self) -> (r: &[u8]) {
        self.as_slice()
    }
}

/// Keys in strictly increasing byte order.
pub open spec fn strictly_sorted(keys: Seq<Seq<u8>>) -> bool {
    forall|i: int, j: int| 0 <= i < j < keys.len() ==> lex_lt(#[trigger] keys[i], #[trigger] keys[j])
}

/// A map whose entries are kept in strictly increasing key order.
#[derive(Debug)]
pub struct SortedMap<K: ByteKey, V> {
    entries: Vec<(K, V)>,
}

impl<K: ByteKey, V> SortedMap<K, V> {
    /// The keys' bytes, in order.
    pub closed spec fn keys(self) -> Seq<Seq<u8>> {
        Self::keys_of(self.entries@)
    }

    closed spec fn keys_of(s: Seq<(K, V)>) -> Seq<Seq<u8>> {
        s.map_values(|e: (K, V)| e.0.key_bytes())
    }

    closed spec fn values_of(s: Seq<(K, V)>) -> Seq<V> {
        s.map_values(|e: (K, V)| e.1)
    }

    /// The values, in key order.
    pub closed spec fn values(self) -> Seq<V> {
        self.entries@.map_values(|e: (K, V)| e.1)
    }

    /// The stored keys themselves, in order.
    pub closed spec fn stored_keys(self) -> Seq<K> {
        self.entries@.map_values(|e: (K, V)| e.0)
    }

    #[verifier::type_invariant]
    closed spec fn sorted(self) -> bool {
        strictly_sorted(self.keys())
    }

    /// The map from key bytes to values.
    pub closed spec fn map(self) -> Map<Seq<u8>, V> {
        Map::new(
            |k: Seq<u8>| self.keys().contains(k),
            |k: Seq<u8>| self.values()[self.keys().index_of(k)],
        )
    }

    /// Keys are in strictly increasing order, and the map sends each key to
    /// the value at its position.
    fn shape(&self)
        ensures
            self.wf(),
    {
        proof { use_type_invariant(self); }
        assert forall|i: int| 0 <= i < self.keys().len() implies self.map().contains_key(
            #[trigger] self.keys()[i],
        ) && self.map()[self.keys()[i]] == self.values()[i] by {
            let k = self.keys()[i];
            assert(self.keys().contains(k));
            let j = self.keys().index_of(k);
            if j != i {
                lemma_lex_order(self.keys()[i], self.keys()[j], k);
                if i < j {
                    assert(lex_lt(self.keys()[i], self.keys()[j]));
                } else {
                    assert(lex_lt(self.keys()[j], self.keys()[i]));
                }
            }
        }
    }

    /// The facts that every map satisfies: keys strictly increasing, one
    /// value per key, and the map sending each key to the value at its
    /// position.
    pub open spec fn wf(self) -> bool {
        &&& strictly_sorted(self.keys())
        &&& self.keys().len() == self.values().len()
        &&& self.stored_keys().len() == self.keys().len()
        &&& forall|i: int|
            0 <= i < self.keys().len() ==> #[trigger] self.stored_keys()[i].key_bytes()
                == self.keys()[i]
        &&& forall|i: int|
            0 <= i < self.keys().len() ==> self.map().contains_key(#[trigger] self.keys()[i])
                && self.map()[self.keys()[i]] == self.values()[i]
        &&& forall|k: Seq<u8>| #[trigger] self.map().contains_key(k) <==> self.keys().contains(k)
    }

    /// An empty map.
    pub fn new() -> (m: Self)
        ensures
            m.keys() == Seq::<Seq<u8>>::empty(),
            m.map() == Map::<Seq<u8>, V>::empty(),
            m.wf(),
    {
        let m = SortedMap { entries: Vec::new() };
        assert(m.keys() =~= Seq::<Seq<u8>>::empty());
        assert(m.values() =~= Seq::<V>::empty());
        assert(m.stored_keys() =~= Seq::<K>::empty());
        assert(m.map() =~= Map::<Seq<u8>, V>::empty());
        m
    }

    /// Number of entries.
    pub fn len(&self) -> (r: usize)
        ensures
            r == self.keys().len(),
            self.wf(),
    {
        self.shape();
        self.entries.len()
    }

    /// Whether there are no entries.
    pub fn is_empty(&self) -> (r: bool)
        ensures
            r == (self.keys().len() == 0),
            r == (self.map() == Map::<Seq<u8>, V>::empty()),
    {
        let n = self.len();
        proof {
            if n > 0 {
                assert(self.map().contains_key(self.keys()[0]));
            } else {
                assert(self.map() =~= Map::<Seq<u8>, V>::empty());
            }
        }
        n == 0
    }

    /// The position of `key`, or the position where it would go.
    fn find(&self, key: &[u8]) -> (r: (usize, bool))
        ensures
            r.0 <= self.keys().len(),
            r.1 ==> r.0 < self.keys().len() && self.keys()[r.0 as int] == key@,
            !r.1 ==> !self.keys().contains(key@),
            forall|j: int| 0 <= j < r.0 ==> lex_lt(#[trigger] self.keys()[j], key@),
            !r.1 ==> forall|j: int|
                r.0 <= j < self.keys().len() ==> lex_lt(key@, #[trigger] self.keys()[j]),
    {
        proof { use_type_invariant(self); }
        let mut i: usize = 0;
        while i < self.entries.len()
            invariant
                i <= self.keys().len(),
                self.keys().len() == self.entries@.len(),
                strictly_sorted(self.keys()),
                forall|j: int| 0 <= j < i ==> lex_lt(#[trigger] self.keys()[j], key@),
            decreases self.entries@.len() - i,
        {
            let kb = self.entries[i].0.as_key_bytes();
            assert(kb@ == self.keys()[i as int]);
            match compare_bytes(kb, key) {
                KeyOrder::Less => {},
                KeyOrder::Equal => {
                    return (i, true);
                },
                KeyOrder::Greater => {
                    proof {
                        assert forall|j: int| i <= j < self.keys().len() implies lex_lt(
                            key@,
                            #[trigger] self.keys()[j],
                        ) by {
                            if j > i {
                                lemma_lex_order(key@, self.keys()[i as int], self.keys()[j]);
                            }
                        }
                        assert forall|j: int| 0 <= j < self.keys().len() implies #[trigger] self.keys()[j]
                            != key@ by {
                            lemma_lex_order(key@, self.keys()[j], key@);
                        }
                    }
                    return (i, false);
                },
            }
            i = i + 1;
        }
        proof {
            assert forall|j: int| 0 <= j < self.keys().len() implies #[trigger] self.keys()[j]
                != key@ by {
                lemma_lex_order(key@, self.keys()[j], key@);
            }
        }
        (i, false)
    }

    /// Whether `key` is present.
    pub fn contains_key(&self, key: &[u8]) -> (r: bool)
        ensures
            r == self.map().contains_key(key@),
    {
        self.shape();
        self.find(key).1
    }

    /// The value stored under `key`, if any.
    pub fn get(&self, key: &[u8]) -> (r: Option<&V>)
        ensures
            match r {
                Some(v) => self.map().contains_key(key@) && *v == self.map()[key@],
                None => !self.map().contains_key(key@),
            },
    {
        self.shape();
        let (i, found) = self.find(key);
        if found {
            Some(&self.entries[i].1)
        } else {
            None
        }
    }

    /// The entry at position `i` in key order.
    pub fn entry(&self, i: usize) -> (r: (&K, &V))
        requires
            i < self.keys().len(),
        ensures
            *r.0 == self.stored_keys()[i as int],
            r.0.key_bytes() == self.keys()[i as int],
            *r.1 == self.values()[i as int],
            self.wf(),
    {
        self.shape();
        let e = &self.entries[i];
        (&e.0, &e.1)
    }

    /// Inserts `value` under `key`, returning the value it replaces.
    pub fn insert(&mut self, key: K, value: V) -> (r: Option<V>)
        ensures
            final(self).map() == old(self).map().insert(key.key_bytes(), value),
            match r {
                Some(v) => old(self).map().contains_key(key.key_bytes()) && v == old(self).map()[key.key_bytes()],
                None => !old(self).map().contains_key(key.key_bytes()),
            },
            final(self).wf(),
    {
        self.shape();
        let ghost kb = key.key_bytes();
        let (i, found) = self.find(key.as_key_bytes());
        let ghost old_keys = self.keys();
        let ghost old_vals = self.values();
        let mut entries: Vec<(K, V)> = Vec::new();
        std::mem::swap(&mut entries, &mut self.entries);
        let mut replaced: Option<V> = None;
        if found {
            let e = entries.remove(i);
            replaced = Some(e.1);
            proof {
                assert(Self::keys_of(entries@) =~= old_keys.remove(i as int));
            }
        }
        proof {
            let ks = Self::keys_of(entries@);
            assert forall|j: int| 0 <= j < i implies lex_lt(#[trigger] ks[j], kb) by {
                assert(ks[j] == old_keys[j]);
            }
            assert forall|j: int| i <= j < ks.len() implies lex_lt(kb, #[trigger] ks[j]) by {
                if found {
                    assert(ks[j] == old_keys[j + 1]);
                    assert(lex_lt(old_keys[i as int], old_keys[j + 1]));
                } else {
                    assert(ks[j] == old_keys[j]);
                }
            }
            let nk = ks.insert(i as int, kb);
            assert forall|a: int, b: int| 0 <= a < b < nk.len() implies lex_lt(
                #[trigger] nk[a],
                #[trigger] nk[b],
            ) by {
                if a < i && b == i {
                } else if a == i {
                } else if b < i {
                    assert(nk[a] == ks[a] && nk[b] == ks[b]);
                } else if a < i {
                    assert(nk[a] == ks[a] && nk[b] == ks[b - 1]);
                    lemma_lex_order(ks[a], kb, ks[b - 1]);
                } else {
                    assert(nk[a] == ks[a - 1] && nk[b] == ks[b - 1]);
                }
            }
        }
        let ghost mid = entries@;
        entries.insert(i, (key, value));
        proof {
            assert(Self::keys_of(entries@) =~= Self::keys_of(mid).insert(i as int, kb));
        }
        self.entries = entries;
        self.shape();
        proof {
            let m = self.map();
            let target = old(self).map().insert(kb, value);
            assert forall|x: Seq<u8>| #[trigger] m.contains_key(x) <==> target.contains_key(x) by {
                if m.contains_key(x) {
                    let j = self.keys().index_of(x);
                    if x != kb {
                        if j < i {
                            assert(self.keys()[j] == old_keys[j]);
                        } else if found {
                            assert(self.keys()[j] == old_keys[j]);
                        } else {
                            assert(self.keys()[j] == old_keys[j - 1]);
                        }
                    }
                }
                if target.contains_key(x) && x != kb {
                    let j = old_keys.index_of(x);
                    if j < i {
                        assert(self.keys()[j] == x);
                    } else if found {
                        assert(self.keys()[j] == x);
                    } else {
                        assert(self.keys()[j + 1] == x);
                    }
                }
                if x == kb {
                    assert(self.keys()[i as int] == kb);
                }
            }
            assert forall|x: Seq<u8>| #[trigger] m.contains_key(x) implies m[x] == target[x] by {
                if x == kb {
                    assert(self.keys()[i as int] == kb);
                    assert(self.values()[i as int] == value);
                } else {
                    let j = old_keys.index_of(x);
                    assert(old_keys[j] == x);
                    if j < i {
                        assert(self.keys()[j] == x);
                        assert(self.values()[j] == old_vals[j]);
                    } else if found {
                        assert(self.keys()[j] == x);
                        assert(self.values()[j] == old_vals[j]);
                    } else {
                        assert(self.keys()[j + 1] == x);
                        assert(self.values()[j + 1] == old_vals[j]);
                    }
                }
            }
            assert(m =~= target);
            if found {
                assert(old_keys[i as int] == kb);
            }
        }
        replaced
    }

    /// Removes `key`, returning its value.
    pub fn remove(&mut self, key: &[u8]) -> (r: Option<V>)
        ensures
            final(self).map() == old(self).map().remove(key@),
            match r {
                Some(v) => old(self).map().contains_key(key@) && v == old(self).map()[key@],
                None => !old(self).map().contains_key(key@),
            },
            final(self).wf(),
    {
        self.shape();
        let (i, found) = self.find(key);
        if !found {
            assert(self.map() =~= self.map().remove(key@));
            return None;
        }
        let ghost old_keys = self.keys();
        let ghost old_vals = self.values();
        let mut entries: Vec<(K, V)> = Vec::new();
        std::mem::swap(&mut entries, &mut self.entries);
        let e = entries.remove(i);
        proof {
            assert(Self::keys_of(entries@) =~= old_keys.remove(i as int));
        }
        self.entries = entries;
        self.shape();
        proof {
            let m = self.map();
            let target = old(self).map().remove(key@);
            assert forall|x: Seq<u8>| #[trigger] m.contains_key(x) <==> target.contains_key(x) by {
                if m.contains_key(x) {
                    let j = self.keys().index_of(x);
                    if j < i {
                        assert(self.keys()[j] == old_keys[j]);
                        lemma_lex_order(old_keys[j], old_keys[i as int], x);
                    } else {
                        assert(self.keys()[j] == old_keys[j + 1]);
                        lemma_lex_order(old_keys[i as int], old_keys[j + 1], x);
                    }
                }
                if target.contains_key(x) {
                    let j = old_keys.index_of(x);
                    if j < i {
                        assert(self.keys()[j] == x);
                    } else {
                        assert(j != i);
                        assert(self.keys()[j - 1] == x);
                    }
                }
            }
            assert forall|x: Seq<u8>| #[trigger] m.contains_key(x) implies m[x] == target[x] by {
                let j = old_keys.index_of(x);
                assert(old_keys[j] == x);
                if j < i {
                    assert(self.keys()[j] == x);
                    assert(self.values()[j] == old_vals[j]);
                } else {
                    assert(j != i);
                    assert(self.keys()[j - 1] == x);
                    assert(self.values()[j - 1] == old_vals[j]);
                }
            }
            assert(m =~= target);
        }
        Some(e.1)
    }
}


/// Two sequences strictly sorted by the same asymmetric order and holding
/// the same elements are equal.
pub proof fn lemma_sorted_unique<T>(a: Seq<T>, b: Seq<T>, lt: spec_fn(T, T) -> bool)
    requires
        forall|x: T, y: T| #[trigger] lt(x, y) ==> !lt(y, x),
        forall|i: int, j: int| 0 <= i < j < a.len() ==> lt(#[trigger] a[i], #[trigger] a[j]),
        forall|i: int, j: int| 0 <= i < j < b.len() ==> lt(#[trigger] b[i], #[trigger] b[j]),
        a.to_set() == b.to_set(),
    ensures
        a == b,
    decreases a.len(),
{
    if a.len() == 0 {
        if b.len() > 0 {
            assert(b.to_set().contains(b[0]));
        }
        assert(a =~= b);
    } else {
        assert(a.to_set().contains(a[0]));
        let k = choose|k: int| 0 <= k < b.len() && b[k] == a[0];
        assert(b.to_set().contains(b[0]));
        let m = choose|m: int| 0 <= m < a.len() && a[m] == b[0];
        if k > 0 {
            assert(lt(b[0], b[k]));
            if m > 0 {
                assert(lt(a[0], a[m]));
            } else {
                assert(lt(a[0], a[0]));
            }
        }
        assert(b[0] == a[0]);
        let ta = a.drop_first();
        let tb = b.drop_first();
        assert forall|x: T| ta.to_set().contains(x) implies tb.to_set().contains(x) by {
            let i = choose|i: int| 0 <= i < ta.len() && ta[i] == x;
            assert(a.to_set().contains(x));
            let j = choose|j: int| 0 <= j < b.len() && b[j] == x;
            if j == 0 {
                assert(lt(a[0], a[i + 1]));
            } else {
                assert(tb[j - 1] == x);
            }
        }
        assert forall|x: T| tb.to_set().contains(x) implies ta.to_set().contains(x) by {
            let i = choose|i: int| 0 <= i < tb.len() && tb[i] == x;
            assert(b.to_set().contains(x));
            let j = choose|j: int| 0 <= j < a.len() && a[j] == x;
            if j == 0 {
                assert(lt(b[0], b[i + 1]));
            } else {
                assert(ta[j - 1] == x);
            }
        }
        assert(ta.to_set() =~= tb.to_set());
        assert forall|i: int, j: int| 0 <= i < j < ta.len() implies lt(#[trigger] ta[i], #[trigger] ta[j]) by {
            assert(lt(a[i + 1], a[j + 1]));
        }
        assert forall|i: int, j: int| 0 <= i < j < tb.len() implies lt(#[trigger] tb[i], #[trigger] tb[j]) by {
            assert(lt(b[i + 1], b[j + 1]));
        }
        lemma_sorted_unique(ta, tb, lt);
        assert(a =~= seq![a[0]] + ta);
        assert(b =~= seq![b[0]] + tb);
    }
}


impl<K: ByteKey, V> SortedMap<K, V> {
    /// Two maps with the same contents hold their keys and values in the
    /// same order.
    pub proof fn lemma_same_map_same_order(m1: Self, m2: Self)
        requires
            m1.wf(),
            m2.wf(),
            m1.map() == m2.map(),
        ensures
            m1.keys() == m2.keys(),
            m1.values() == m2.values(),
    {
        let lt = |x: Seq<u8>, y: Seq<u8>| lex_lt(x, y);
        assert forall|x: Seq<u8>, y: Seq<u8>| #[trigger] lt(x, y) implies !lt(y, x) by {
            lemma_lex_order(x, y, x);
        }
        assert forall|x: Seq<u8>| m1.keys().to_set().contains(x) <==> m2.keys().to_set().contains(x) by {
            assert(m1.map().contains_key(x) <==> m1.keys().contains(x));
            assert(m2.map().contains_key(x) <==> m2.keys().contains(x));
        }
        assert(m1.keys().to_set() =~= m2.keys().to_set());
        lemma_sorted_unique(m1.keys(), m2.keys(), lt);
        assert forall|i: int| 0 <= i < m1.values().len() implies m1.values()[i] == m2.values()[i] by {
            assert(m1.map()[m1.keys()[i]] == m1.values()[i]);
            assert(m2.map()[m2.keys()[i]] == m2.values()[i]);
        }
        assert(m1.values() =~= m2.values());
    }
}

} // verus!

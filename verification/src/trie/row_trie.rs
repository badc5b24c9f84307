//! Row trie: the rows of one table keyed by row id, with a root hash.

use vstd::prelude::*;
use crate::codec::{be64, push_be64, lemma_be64_roundtrip};
use crate::keyorder::{ByteKey, SortedMap};
use crate::xorfold::{xor_at, zero32, lemma_xor_at_len, xor_bytes_into};

verus! {

impl ByteKey for [u8; 8] {
    open spec fn key_bytes(&self) -> Seq<u8> {
        self@
    }

    fn as_key_bytes(&self) -> (r: &[u8]) {
        self.as_slice()
    }
}

/// The key under which a row id is stored: its big-endian bytes.
pub open spec fn row_key(row_id: i64) -> Seq<u8> {
    be64(row_id as u64)
}

fn row_key_array(row_id: i64) -> (r: [u8; 8])
    ensures
        r@ == row_key(row_id),
{
    let mut v: Vec<u8> = Vec::new();
    push_be64(&mut v, row_id as u64);
    proof { lemma_be64_roundtrip(row_id as u64); }
    let r = [v[0], v[1], v[2], v[3], v[4], v[5], v[6], v[7]];
    assert(r@ =~= v@);
    r
}

/// The root over rows listed in key order: each key folded at offset 0 and
/// each row's bytes at offset 8.
pub open spec fn rows_root(keys: Seq<Seq<u8>>, rows: Seq<Vec<u8>>) -> Seq<u8>
    decreases keys.len(),
{
    if keys.len() == 0 || keys.len() != rows.len() {
        zero32()
    } else {
        let prev = rows_root(keys.drop_last(), rows.drop_last());
        xor_at(xor_at(prev, keys.last(), 0), rows.last()@, 8)
    }
}

proof fn lemma_rows_root_len(keys: Seq<Seq<u8>>, rows: Seq<Vec<u8>>)
    ensures
        rows_root(keys, rows).len() == 32,
    decreases keys.len(),
{
    if keys.len() > 0 && keys.len() == rows.len() {
        lemma_rows_root_len(keys.drop_last(), rows.drop_last());
        let prev = rows_root(keys.drop_last(), rows.drop_last());
        lemma_xor_at_len(prev, keys.last(), 0);
        lemma_xor_at_len(xor_at(prev, keys.last(), 0), rows.last()@, 8);
    }
}

/// The encoded rows of one table, keyed by row id.
#[derive(Debug)]
pub struct RowTrie {
    rows: SortedMap<[u8; 8], Vec<u8>>,
}

impl RowTrie {
    /// The rows keyed by the bytes of their id.
    pub closed spec fn map(self) -> Map<Seq<u8>, Vec<u8>> {
        self.rows.map()
    }

    /// Number of rows.
    pub closed spec fn count(self) -> nat {
        self.rows.keys().len()
    }

    /// The root that the rows give.
    pub closed spec fn root(self) -> Seq<u8> {
        rows_root(self.rows.keys(), self.rows.values())
    }

    /// An empty trie.
    pub fn new() -> (r: Self)
        ensures
            r.map() == Map::<Seq<u8>, Vec<u8>>::empty(),
            r.count() == 0,
            r.root() == zero32(),
    {
        RowTrie { rows: SortedMap::new() }
    }

    /// Stores `row` under `row_id`, returning the row it replaces.
    pub fn insert(&mut self, row_id: i64, row: Vec<u8>) -> (r: Option<Vec<u8>>)
        ensures
            final(self).map() == old(self).map().insert(row_key(row_id), row),
            r == if old(self).map().contains_key(row_key(row_id)) {
                Some(old(self).map()[row_key(row_id)])
            } else {
                None
            },
    {
        let key = row_key_array(row_id);
        self.rows.insert(key, row)
    }

    /// Removes the row stored under `row_id`, returning it.
    pub fn delete(&mut self, row_id: i64) -> (r: Option<Vec<u8>>)
        ensures
            final(self).map() == old(self).map().remove(row_key(row_id)),
            r == if old(self).map().contains_key(row_key(row_id)) {
                Some(old(self).map()[row_key(row_id)])
            } else {
                None
            },
    {
        let key = row_key_array(row_id);
        self.rows.remove(key.as_slice())
    }

    /// The row stored under `row_id`, if any.
    pub fn get(&self, row_id: i64) -> (r: Option<Vec<u8>>)
        ensures
            match r {
                Some(v) => self.map().contains_key(row_key(row_id)) && v@ == self.map()[row_key(
                    row_id,
                )]@,
                None => !self.map().contains_key(row_key(row_id)),
            },
    {
        let key = row_key_array(row_id);
        match self.rows.get(key.as_slice()) {
            Some(v) => Some(v.clone()),
            None => None,
        }
    }

    /// Number of rows.
    pub fn len(&self) -> (r: usize)
        ensures
            r == self.count(),
    {
        self.rows.len()
    }

    /// The root hash over the rows (see `rows_root`).
    pub fn get_root(&self) -> (r: [u8; 32])
        ensures
            r@ == self.root(),
    {
        let n = self.rows.len();
        let mut acc: [u8; 32] = [0u8; 32];
        assert(acc@ =~= zero32());
        let mut i: usize = 0;
        while i < n
            invariant
                n == self.rows.keys().len(),
                self.rows.wf(),
                i <= n,
                acc@ == rows_root(
                    self.rows.keys().subrange(0, i as int),
                    self.rows.values().subrange(0, i as int),
                ),
            decreases n - i,
        {
            let (key, row) = self.rows.entry(i);
            proof {
                let ks = self.rows.keys().subrange(0, i + 1);
                let vs = self.rows.values().subrange(0, i + 1);
                assert(ks.drop_last() =~= self.rows.keys().subrange(0, i as int));
                assert(vs.drop_last() =~= self.rows.values().subrange(0, i as int));
                lemma_rows_root_len(self.rows.keys().subrange(0, i as int), self.rows.values().subrange(0, i as int));
                lemma_xor_at_len(acc@, key@, 0);
            }
            xor_bytes_into(&mut acc, key.as_slice(), 0);
            xor_bytes_into(&mut acc, row.as_slice(), 8);
            i = i + 1;
        }
        assert(self.rows.keys().subrange(0, n as int) =~= self.rows.keys());
        assert(self.rows.values().subrange(0, n as int) =~= self.rows.values());
        acc
    }
}

} // verus!

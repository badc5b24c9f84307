//! Schema trie: the table schemas of a database with a root hash over them.

use vstd::prelude::*;
use vstd::utf8::encode_utf8;
use std::collections::BTreeMap;
use crate::keyorder::{ByteKey, SortedMap};
use crate::types::DataType;
use crate::xorfold::{xor_at, xor_each, zero32, lemma_xor_at_len, xor_bytes_into, xor_each_into};

verus! {

/// Column definition for a table.
#[derive(Debug, Clone, PartialEq, Eq)]
pub struct ColumnDef {
    /// Column name
    pub name: String,
    /// Column data type
    pub data_type: DataType,
    /// Whether the column is nullable
    pub nullable: bool,
}

impl ColumnDef {
    /// Creates a column definition.
    pub fn new(name: &str, data_type: DataType, nullable: bool) -> (r: Self)
        ensures
            r.name@ == name@,
            r.data_type == data_type,
            r.nullable == nullable,
    {
        ColumnDef { name: name.to_string(), data_type, nullable }
    }
}

/// Table schema definition.
#[derive(Debug, Clone, PartialEq, Eq)]
pub struct TableSchema {
    /// Table name
    pub name: String,
    /// Column definitions
    pub columns: Vec<ColumnDef>,
    /// Primary key column name (if any)
    pub primary_key: Option<String>,
    /// Root hash of the table's data trie
    pub table_root: [u8; 32],
    /// Map of index name to root hash
    pub index_roots: BTreeMap<String, [u8; 32]>,
}

/// The state after folding in the columns: each name at offset 16, the
/// type byte into slot 17, and `0xFF` into slot 18 for a nullable column.
pub open spec fn fold_columns(state: Seq<u8>, cols: Seq<ColumnDef>) -> Seq<u8>
    decreases cols.len(),
{
    if cols.len() == 0 {
        state
    } else {
        let s = fold_columns(state, cols.drop_last());
        let c = cols.last();
        let s1 = xor_at(s, encode_utf8(c.name@), 16);
        let s2 = s1.update(17, s1[17] ^ c.data_type.tag());
        if c.nullable {
            s2.update(18, s2[18] ^ 0xFFu8)
        } else {
            s2
        }
    }
}

proof fn lemma_fold_columns_len(state: Seq<u8>, cols: Seq<ColumnDef>)
    requires
        state.len() == 32,
    ensures
        fold_columns(state, cols).len() == 32,
    decreases cols.len(),
{
    if cols.len() > 0 {
        lemma_fold_columns_len(state, cols.drop_last());
        lemma_xor_at_len(fold_columns(state, cols.drop_last()), encode_utf8(cols.last().name@), 16);
    }
}

/// The schema hash: the name folded at offset 0, then the columns, then
/// the primary key folded at offset 24.
pub open spec fn schema_hash(s: TableSchema) -> Seq<u8> {
    let after_name = xor_at(zero32(), encode_utf8(s.name@), 0);
    let after_cols = fold_columns(after_name, s.columns@);
    match s.primary_key {
        Some(pk) => xor_at(after_cols, encode_utf8(pk@), 24),
        None => after_cols,
    }
}

impl TableSchema {
    /// A schema with the given name, no columns, no primary key, a zero
    /// table root and no index roots.
    pub fn new(name: &str) -> (r: Self)
        ensures
            r.name@ == name@,
            r.columns@ == Seq::<ColumnDef>::empty(),
            r.primary_key is None,
            r.table_root@ == zero32(),
            r.index_roots@ == Map::<String, [u8; 32]>::empty(),
    {
        let r = TableSchema {
            name: name.to_string(),
            columns: Vec::new(),
            primary_key: None,
            table_root: [0u8; 32],
            index_roots: BTreeMap::new(),
        };
        assert(r.table_root@ =~= zero32());
        r
    }

    /// Appends a column.
    pub fn add_column(&mut self, column: ColumnDef)
        ensures
            final(self).columns@ == old(self).columns@.push(column),
            final(self).name == old(self).name,
            final(self).primary_key == old(self).primary_key,
            final(self).table_root == old(self).table_root,
            final(self).index_roots == old(self).index_roots,
    {
        self.columns.push(column);
    }

    /// The schema hash (see `schema_hash`).
    pub fn hash(&self) -> (r: [u8; 32])
        ensures
            r@ == schema_hash(*self),
    {
        let mut hash: [u8; 32] = [0u8; 32];
        assert(hash@ =~= zero32());
        xor_bytes_into(&mut hash, self.name.as_str().as_bytes(), 0);
        let ghost after_name = hash@;
        proof { lemma_xor_at_len(zero32(), encode_utf8(self.name@), 0); }
        let mut k: usize = 0;
        while k < self.columns.len()
            invariant
                k <= self.columns@.len(),
                after_name.len() == 32,
                hash@ == fold_columns(after_name, self.columns@.subrange(0, k as int)),
            decreases self.columns@.len() - k,
        {
            proof {
                assert(self.columns@.subrange(0, k + 1).drop_last() =~= self.columns@.subrange(
                    0,
                    k as int,
                ));
                lemma_fold_columns_len(after_name, self.columns@.subrange(0, k as int));
                lemma_xor_at_len(
                    hash@,
                    encode_utf8(self.columns@[k as int].name@),
                    16,
                );
            }
            let col = &self.columns[k];
            xor_bytes_into(&mut hash, col.name.as_str().as_bytes(), 16);
            let type_byte = col.data_type.as_u8();
            hash[17] = hash[17] ^ type_byte;
            if col.nullable {
                hash[18] = hash[18] ^ 0xFF;
            }
            k = k + 1;
        }
        assert(self.columns@.subrange(0, self.columns@.len() as int) =~= self.columns@);
        match &self.primary_key {
            Some(pk) => {
                xor_bytes_into(&mut hash, pk.as_str().as_bytes(), 24);
            },
            None => {},
        }
        hash
    }
}

/// The root over tables listed in key order: each name folded at offset 0,
/// then the schema hash XORed in slot by slot.
pub open spec fn tables_root(names: Seq<String>, schemas: Seq<TableSchema>) -> Seq<u8>
    decreases names.len(),
{
    if names.len() == 0 || names.len() != schemas.len() {
        zero32()
    } else {
        let prev = tables_root(names.drop_last(), schemas.drop_last());
        xor_each(xor_at(prev, encode_utf8(names.last()@), 0), schema_hash(schemas.last()))
    }
}

/// A Merkle-style commitment to table schemas.
#[derive(Debug)]
pub struct SchemaTrie {
    /// Table schemas keyed by table name
    pub tables: SortedMap<String, TableSchema>,
    /// Root hash of the trie
    pub root: [u8; 32],
}

/// The key under which a table name is stored.
pub open spec fn name_key(name: Seq<char>) -> Seq<u8> {
    encode_utf8(name)
}

impl SchemaTrie {
    /// The root that the current tables give.
    pub open spec fn expected_root(self) -> Seq<u8> {
        tables_root(self.tables.stored_keys(), self.tables.values())
    }

    /// An empty trie with a zero root.
    pub fn new() -> (r: Self)
        ensures
            r.tables.map() == Map::<Seq<u8>, TableSchema>::empty(),
            r.root@ == zero32(),
            r.root@ == r.expected_root(),
            r.tables.wf(),
    {
        let r = SchemaTrie { tables: SortedMap::new(), root: [0u8; 32] };
        assert(r.root@ =~= zero32());
        r
    }

    /// Recomputes the root from the tables.
    pub fn rehash(&mut self)
        ensures
            final(self).tables == old(self).tables,
            final(self).root@ == final(self).expected_root(),
    {
        let n = self.tables.len();
        if n == 0 {
            self.root = [0u8; 32];
            assert(self.root@ =~= zero32());
            return;
        }
        let mut combined: [u8; 32] = [0u8; 32];
        assert(combined@ =~= zero32());
        let mut i: usize = 0;
        while i < n
            invariant
                n == self.tables.keys().len(),
                self.tables.wf(),
                i <= n,
                combined@ == tables_root(
                    self.tables.stored_keys().subrange(0, i as int),
                    self.tables.values().subrange(0, i as int),
                ),
                combined@.len() == 32,
            decreases n - i,
        {
            let (name, schema) = self.tables.entry(i);
            let table_hash = schema.hash();
            proof {
                let ks = self.tables.stored_keys().subrange(0, i + 1);
                let vs = self.tables.values().subrange(0, i + 1);
                assert(ks.drop_last() =~= self.tables.stored_keys().subrange(0, i as int));
                assert(vs.drop_last() =~= self.tables.values().subrange(0, i as int));
                assert(ks.last() == *name);
                assert(vs.last() == *schema);
            }
            xor_bytes_into(&mut combined, name.as_str().as_bytes(), 0);
            proof { lemma_xor_at_len(tables_root(self.tables.stored_keys().subrange(0, i as int), self.tables.values().subrange(0, i as int)), encode_utf8(name@), 0); }
            xor_each_into(&mut combined, &table_hash);
            i = i + 1;
        }
        assert(self.tables.stored_keys().subrange(0, n as int) =~= self.tables.stored_keys());
        assert(self.tables.values().subrange(0, n as int) =~= self.tables.values());
        self.root = combined;
    }

    /// Adds (or replaces) the schema stored under its name, then rehashes.
    pub fn create_table(&mut self, schema: TableSchema)
        ensures
            final(self).tables.map() == old(self).tables.map().insert(
                name_key(schema.name@),
                schema,
            ),
            final(self).root@ == final(self).expected_root(),
            final(self).tables.wf(),
    {
        let name = schema.name.clone();
        self.tables.insert(name, schema);
        self.rehash();
    }

    /// Removes the named table, if present, then rehashes.
    pub fn drop_table(&mut self, name: &str)
        ensures
            final(self).tables.map() == old(self).tables.map().remove(name_key(name@)),
            final(self).root@ == final(self).expected_root(),
            final(self).tables.wf(),
    {
        self.tables.remove(name.as_bytes());
        self.rehash();
    }

    /// The schema of the named table, if present.
    pub fn get_table(&self, name: &str) -> (r: Option<&TableSchema>)
        ensures
            match r {
                Some(s) => self.tables.map().contains_key(name_key(name@)) && *s
                    == self.tables.map()[name_key(name@)],
                None => !self.tables.map().contains_key(name_key(name@)),
            },
    {
        self.tables.get(name.as_bytes())
    }

    /// Whether the named table exists.
    pub fn table_exists(&self, name: &str) -> (r: bool)
        ensures
            r == self.tables.map().contains_key(name_key(name@)),
    {
        self.tables.contains_key(name.as_bytes())
    }

    /// The table names in key order.
    pub fn list_tables(&self) -> (r: Vec<String>)
        ensures
            r@ == self.tables.stored_keys(),
    {
        let n = self.tables.len();
        let mut out: Vec<String> = Vec::new();
        let mut i: usize = 0;
        while i < n
            invariant
                n == self.tables.keys().len(),
                self.tables.wf(),
                i <= n,
                out@ == self.tables.stored_keys().subrange(0, i as int),
            decreases n - i,
        {
            let (name, _schema) = self.tables.entry(i);
            out.push(name.clone());
            assert(self.tables.stored_keys().subrange(0, i + 1) =~= self.tables.stored_keys().subrange(0, i as int).push(*name));
            i = i + 1;
        }
        assert(self.tables.stored_keys().subrange(0, n as int) =~= self.tables.stored_keys());
        out
    }

    /// The root hash.
    pub fn get_root(&self) -> (r: [u8; 32])
        ensures
            r == self.root,
    {
        self.root
    }
}


/// The root over tables depends on the names only through their bytes.
proof fn lemma_tables_root_by_bytes(n1: Seq<String>, n2: Seq<String>, schemas: Seq<TableSchema>)
    requires
        n1.len() == n2.len(),
        forall|i: int| 0 <= i < n1.len() ==> encode_utf8(#[trigger] n1[i]@) == encode_utf8(n2[i]@),
    ensures
        tables_root(n1, schemas) == tables_root(n2, schemas),
    decreases n1.len(),
{
    if n1.len() > 0 && n1.len() == schemas.len() {
        lemma_tables_root_by_bytes(n1.drop_last(), n2.drop_last(), schemas.drop_last());
        assert(encode_utf8(n1.last()@) == encode_utf8(n2[n1.len() - 1]@));
    }
}

/// A trie's up-to-date root depends only on its tables: two tries holding
/// the same tables have the same root.
pub proof fn lemma_root_determined_by_tables(t1: SchemaTrie, t2: SchemaTrie)
    requires
        t1.tables.wf(),
        t2.tables.wf(),
        t1.tables.map() == t2.tables.map(),
        t1.root@ == t1.expected_root(),
        t2.root@ == t2.expected_root(),
    ensures
        t1.root@ == t2.root@,
{
    SortedMap::lemma_same_map_same_order(t1.tables, t2.tables);
    let n1 = t1.tables.stored_keys();
    let n2 = t2.tables.stored_keys();
    assert forall|i: int| 0 <= i < n1.len() implies encode_utf8(#[trigger] n1[i]@) == encode_utf8(
        n2[i]@,
    ) by {
        assert(n1[i].key_bytes() == t1.tables.keys()[i]);
        assert(n2[i].key_bytes() == t2.tables.keys()[i]);
    }
    lemma_tables_root_by_bytes(n1, n2, t1.tables.values());
}

/// Creating a table that did not exist and then dropping it gives back
/// the same tables and the same root.
pub proof fn lemma_drop_after_create(t0: SchemaTrie, t1: SchemaTrie, t2: SchemaTrie, schema: TableSchema)
    requires
        t0.tables.wf(),
        t0.root@ == t0.expected_root(),
        !t0.tables.map().contains_key(name_key(schema.name@)),
        t1.tables.map() == t0.tables.map().insert(name_key(schema.name@), schema),
        t2.tables.map() == t1.tables.map().remove(name_key(schema.name@)),
        t2.tables.wf(),
        t2.root@ == t2.expected_root(),
    ensures
        t2.tables.map() == t0.tables.map(),
        t2.root@ == t0.root@,
{
    assert(t2.tables.map() =~= t0.tables.map());
    lemma_root_determined_by_tables(t0, t2);
}


/// `a` is `b` with slot 18 XORed with `0xFF`, and all other slots equal.
pub open spec fn differs_in_slot_18(a: Seq<u8>, b: Seq<u8>) -> bool {
    &&& a.len() == 32
    &&& b.len() == 32
    &&& a[18] == b[18] ^ 0xFFu8
    &&& forall|i: int| 0 <= i < 32 && i != 18 ==> #[trigger] a[i] == b[i]
}

/// Folding the same bytes into two states keeps a difference in slot 18.
proof fn lemma_xor_at_keeps_difference(a: Seq<u8>, b: Seq<u8>, bytes: Seq<u8>, offset: int)
    requires
        differs_in_slot_18(a, b),
        offset >= 0,
    ensures
        differs_in_slot_18(xor_at(a, bytes, offset), xor_at(b, bytes, offset)),
    decreases bytes.len(),
{
    if bytes.len() > 0 {
        let init = bytes.drop_last();
        lemma_xor_at_keeps_difference(a, b, init, offset);
        let pa = xor_at(a, init, offset);
        let pb = xor_at(b, init, offset);
        let slot = (bytes.len() - 1 + offset) % 32;
        let x = bytes.last();
        if slot == 18 {
            let u = pb[18];
            assert((u ^ 0xFFu8) ^ x == (u ^ x) ^ 0xFFu8) by (bit_vector);
        }
    }
}

/// The schema hash records nullability: appending a column as nullable
/// gives the hash of appending it as not nullable with slot 18 XORed with
/// `0xFF`, and every other slot the same.
pub proof fn lemma_hash_pins_nullability(s: TableSchema, nullable: TableSchema, not_null: TableSchema, c: ColumnDef, d: ColumnDef)
    requires
        c.name@ == d.name@,
        c.data_type == d.data_type,
        c.nullable,
        !d.nullable,
        nullable.name@ == s.name@,
        not_null.name@ == s.name@,
        nullable.primary_key == s.primary_key,
        not_null.primary_key == s.primary_key,
        nullable.columns@ == s.columns@.push(c),
        not_null.columns@ == s.columns@.push(d),
    ensures
        differs_in_slot_18(schema_hash(nullable), schema_hash(not_null)),
{
    let after_name = xor_at(zero32(), encode_utf8(s.name@), 0);
    lemma_xor_at_len(zero32(), encode_utf8(s.name@), 0);
    assert(nullable.columns@.drop_last() =~= s.columns@);
    assert(not_null.columns@.drop_last() =~= s.columns@);
    let base = fold_columns(after_name, s.columns@);
    lemma_fold_columns_len(after_name, s.columns@);
    let s1 = xor_at(base, encode_utf8(c.name@), 16);
    lemma_xor_at_len(base, encode_utf8(c.name@), 16);
    let s2 = s1.update(17, s1[17] ^ c.data_type.tag());
    let ca = fold_columns(after_name, nullable.columns@);
    let cb = fold_columns(after_name, not_null.columns@);
    assert(ca == s2.update(18, s2[18] ^ 0xFFu8));
    assert(cb == s2);
    assert(differs_in_slot_18(ca, cb));
    match s.primary_key {
        Some(pk) => {
            lemma_xor_at_keeps_difference(ca, cb, encode_utf8(pk@), 24);
        },
        None => {},
    }
}

} // verus!

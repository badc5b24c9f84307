//! Execution context: the database state a transaction runs against, and
//! its gas meter.

use vstd::prelude::*;
use crate::error::{Error, Result};
use crate::execution::gas::{GasMeter, GasPrice, GasPrices, charge_outcome};
use crate::keyorder::SortedMap;
use crate::trie::row_trie::{RowTrie, row_key};
use crate::trie::schema_trie::{SchemaTrie, TableSchema, name_key};
use crate::xorfold::zero32;

verus! {

/// Snapshot of the database state: the schema trie and one row trie per
/// table.
#[derive(Debug)]
pub struct StateSnapshot {
    /// Schema trie containing all table schemas
    pub schemas: SchemaTrie,
    /// Row trie of each table, keyed by table name
    pub tables: SortedMap<String, RowTrie>,
}

impl StateSnapshot {
    /// An empty state: no schemas, no tables.
    pub fn new() -> (r: Self)
        ensures
            r.schemas.tables.map() == Map::<Seq<u8>, TableSchema>::empty(),
            r.schemas.root@ == zero32(),
            r.tables.map() == Map::<Seq<u8>, RowTrie>::empty(),
    {
        StateSnapshot { schemas: SchemaTrie::new(), tables: SortedMap::new() }
    }

    /// The row trie of the named table, if any.
    pub fn get_table_trie(&self, name: &str) -> (r: Option<&RowTrie>)
        ensures
            match r {
                Some(t) => self.tables.map().contains_key(name_key(name@)) && *t
                    == self.tables.map()[name_key(name@)],
                None => !self.tables.map().contains_key(name_key(name@)),
            },
    {
        self.tables.get(name.as_bytes())
    }

    /// The row `row_id` of the named table, if both exist.
    pub fn get_row(&self, table: &str, row_id: i64) -> (r: Option<Vec<u8>>)
        ensures
            match r {
                Some(v) => self.tables.map().contains_key(name_key(table@))
                    && self.tables.map()[name_key(table@)].map().contains_key(row_key(row_id))
                    && v@ == self.tables.map()[name_key(table@)].map()[row_key(row_id)]@,
                None => !self.tables.map().contains_key(name_key(table@)) || !self.tables.map()[name_key(
                    table@,
                )].map().contains_key(row_key(row_id)),
            },
    {
        match self.tables.get(table.as_bytes()) {
            Some(trie) => trie.get(row_id),
            None => None,
        }
    }

    /// The schema root hash.
    pub fn schema_root(&self) -> (r: [u8; 32])
        ensures
            r == self.schemas.root,
    {
        self.schemas.get_root()
    }

    /// The root hash of every table, keyed by table name.
    pub fn table_roots(&self) -> (r: SortedMap<String, [u8; 32]>)
        ensures
            forall|k: Seq<u8>| #[trigger]
                r.map().contains_key(k) <==> self.tables.map().contains_key(k),
            forall|k: Seq<u8>| #[trigger]
                r.map().contains_key(k) ==> r.map()[k]@ == self.tables.map()[k].root(),
    {
        let n = self.tables.len();
        let mut out: SortedMap<String, [u8; 32]> = SortedMap::new();
        let mut i: usize = 0;
        while i < n
            invariant
                n == self.tables.keys().len(),
                self.tables.wf(),
                i <= n,
                forall|k: Seq<u8>| #[trigger]
                    out.map().contains_key(k) <==> self.tables.keys().subrange(0, i as int).contains(k),
                forall|k: Seq<u8>| #[trigger]
                    out.map().contains_key(k) ==> out.map()[k]@ == self.tables.map()[k].root(),
            decreases n - i,
        {
            let (name, trie) = self.tables.entry(i);
            let root = trie.get_root();
            let ghost k = self.tables.keys()[i as int];
            out.insert(name.clone(), root);
            proof {
                assert forall|x: Seq<u8>| #[trigger]
                    out.map().contains_key(x) <==> self.tables.keys().subrange(0, i + 1).contains(x) by {
                    if self.tables.keys().subrange(0, i as int).contains(x) {
                        let j = self.tables.keys().subrange(0, i as int).index_of(x);
                        assert(self.tables.keys().subrange(0, i + 1)[j] == x);
                    }
                    if self.tables.keys().subrange(0, i + 1).contains(x) {
                        let j = self.tables.keys().subrange(0, i + 1).index_of(x);
                        if j < i {
                            assert(self.tables.keys().subrange(0, i as int)[j] == x);
                        } else {
                            assert(x == k);
                        }
                    }
                    if x == k {
                        assert(self.tables.keys().subrange(0, i + 1)[i as int] == k);
                    }
                }
            }
            i = i + 1;
        }
        proof {
            assert(self.tables.keys().subrange(0, n as int) =~= self.tables.keys());
        }
        out
    }
}

/// Execution context of a transaction: its block, its state and its gas.
#[derive(Debug)]
pub struct ExecutionContext {
    /// Current block number
    pub block_number: u64,
    /// Current timestamp
    pub timestamp: u64,
    /// Gas limit for this execution
    pub gas_limit: u64,
    state: StateSnapshot,
    gas_meter: GasMeter,
}

impl ExecutionContext {
    /// The block number field.
    pub closed spec fn block(self) -> u64 {
        self.block_number
    }

    /// The timestamp field.
    pub closed spec fn time(self) -> u64 {
        self.timestamp
    }

    /// The gas limit field.
    pub closed spec fn limit_field(self) -> u64 {
        self.gas_limit
    }

    /// The current state.
    pub closed spec fn current_state(self) -> StateSnapshot {
        self.state
    }

    /// The gas meter.
    pub closed spec fn meter(self) -> GasMeter {
        self.gas_meter
    }

    /// A context at `block_number` with timestamp 0 and a fresh meter of
    /// `gas_limit` at the default prices.
    pub fn new(block_number: u64, gas_limit: u64, state: StateSnapshot) -> (r: Self)
        ensures
            r.block() == block_number,
            r.time() == 0,
            r.limit_field() == gas_limit,
            r.current_state() == state,
            r.meter().used() == 0,
            r.meter().limit() == gas_limit,
            r.meter().price_table() == GasPrices::spec_default(),
    {
        ExecutionContext {
            block_number,
            timestamp: 0,
            gas_limit,
            state,
            gas_meter: GasMeter::new(gas_limit),
        }
    }

    /// The current state.
    pub fn state(&self) -> (r: &StateSnapshot)
        ensures
            *r == self.current_state(),
    {
        &self.state
    }

    /// Consumes the context, giving its state.
    pub fn into_state(self) -> (r: StateSnapshot)
        ensures
            r == self.current_state(),
    {
        self.state
    }

    /// Gas used so far.
    pub fn gas_used(&self) -> (r: u64)
        ensures
            r == self.meter().used(),
    {
        self.gas_meter.gas_used()
    }

    /// Inserts `row` under `row_id` into the named table.
    ///
    /// Charges the write first: when the charge fails its error is returned
    /// and nothing changes. Then fails with `TableNotFound` when the table
    /// does not exist (the gas stays charged).
    pub fn insert(&mut self, table: &str, row_id: i64, row: Vec<u8>) -> (r: Result<()>)
        ensures
            final(self).block() == old(self).block(),
            final(self).time() == old(self).time(),
            final(self).limit_field() == old(self).limit_field(),
            final(self).meter().limit() == old(self).meter().limit(),
            final(self).meter().price_table() == old(self).meter().price_table(),
            final(self).current_state().schemas == old(self).current_state().schemas,
            ({
                let tables = old(self).current_state().tables.map();
                let key = name_key(table@);
                match charge_outcome(
                    old(self).meter().used(),
                    old(self).meter().limit(),
                    old(self).meter().price_table().cost(GasPrice::WriteRow),
                ) {
                    Err(e) => r == Err::<(), Error>(e) && final(self).meter().used() == old(
                        self,
                    ).meter().used() && final(self).current_state().tables.map() == tables,
                    Ok(total) => final(self).meter().used() == total && if tables.contains_key(key) {
                        r is Ok && final(self).current_state().tables.map().contains_key(key)
                            && final(self).current_state().tables.map()[key].map()
                            == tables[key].map().insert(row_key(row_id), row)
                            && final(self).current_state().tables.map().remove(key)
                            == tables.remove(key)
                    } else {
                        r matches Err(Error::TableNotFound(name)) && name@ == table@
                            && final(self).current_state().tables.map() == tables
                    },
                }
            }),
    {
        self.gas_meter.charge(GasPrice::WriteRow)?;
        match self.state.tables.remove(table.as_bytes()) {
            None => Err(Error::TableNotFound(table.to_string())),
            Some(mut trie) => {
                let ghost removed = self.state.tables.map();
                trie.insert(row_id, row);
                self.state.tables.insert(table.to_string(), trie);
                proof {
                    assert(self.state.tables.map().remove(name_key(table@)) =~= removed);
                    assert(old(self).state.tables.map().remove(name_key(table@)) =~= removed);
                }
                Ok(())
            },
        }
    }

    /// Deletes row `row_id` from the named table.
    ///
    /// Charges the write first: when the charge fails its error is returned
    /// and nothing changes. Then fails with `TableNotFound` when the table
    /// does not exist (the gas stays charged).
    pub fn delete(&mut self, table: &str, row_id: i64) -> (r: Result<()>)
        ensures
            final(self).block() == old(self).block(),
            final(self).time() == old(self).time(),
            final(self).limit_field() == old(self).limit_field(),
            final(self).meter().limit() == old(self).meter().limit(),
            final(self).meter().price_table() == old(self).meter().price_table(),
            final(self).current_state().schemas == old(self).current_state().schemas,
            ({
                let tables = old(self).current_state().tables.map();
                let key = name_key(table@);
                match charge_outcome(
                    old(self).meter().used(),
                    old(self).meter().limit(),
                    old(self).meter().price_table().cost(GasPrice::WriteRow),
                ) {
                    Err(e) => r == Err::<(), Error>(e) && final(self).meter().used() == old(
                        self,
                    ).meter().used() && final(self).current_state().tables.map() == tables,
                    Ok(total) => final(self).meter().used() == total && if tables.contains_key(key) {
                        r is Ok && final(self).current_state().tables.map().contains_key(key)
                            && final(self).current_state().tables.map()[key].map()
                            == tables[key].map().remove(row_key(row_id))
                            && final(self).current_state().tables.map().remove(key)
                            == tables.remove(key)
                    } else {
                        r matches Err(Error::TableNotFound(name)) && name@ == table@
                            && final(self).current_state().tables.map() == tables
                    },
                }
            }),
    {
        self.gas_meter.charge(GasPrice::WriteRow)?;
        match self.state.tables.remove(table.as_bytes()) {
            None => Err(Error::TableNotFound(table.to_string())),
            Some(mut trie) => {
                let ghost removed = self.state.tables.map();
                trie.delete(row_id);
                self.state.tables.insert(table.to_string(), trie);
                proof {
                    assert(self.state.tables.map().remove(name_key(table@)) =~= removed);
                    assert(old(self).state.tables.map().remove(name_key(table@)) =~= removed);
                }
                Ok(())
            },
        }
    }

    /// Creates a table: records `schema` in the schema trie and gives `name`
    /// an empty row trie (replacing any rows it had).
    ///
    /// Charges the write first: when the charge fails its error is returned
    /// and nothing changes.
    pub fn create_table(&mut self, name: &str, schema: TableSchema) -> (r: Result<()>)
        ensures
            final(self).block() == old(self).block(),
            final(self).time() == old(self).time(),
            final(self).limit_field() == old(self).limit_field(),
            final(self).meter().limit() == old(self).meter().limit(),
            final(self).meter().price_table() == old(self).meter().price_table(),
            match charge_outcome(
                old(self).meter().used(),
                old(self).meter().limit(),
                old(self).meter().price_table().cost(GasPrice::WriteRow),
            ) {
                Err(e) => r == Err::<(), Error>(e) && final(self).meter().used() == old(
                    self,
                ).meter().used() && final(self).current_state() == old(self).current_state(),
                Ok(total) => r is Ok && final(self).meter().used() == total
                    && final(self).current_state().schemas.tables.map() == old(
                    self,
                ).current_state().schemas.tables.map().insert(name_key(schema.name@), schema)
                    && final(self).current_state().schemas.root@
                    == final(self).current_state().schemas.expected_root()
                    && final(self).current_state().tables.map().contains_key(name_key(name@))
                    && final(self).current_state().tables.map()[name_key(name@)].map() == Map::<
                    Seq<u8>,
                    Vec<u8>,
                >::empty() && final(self).current_state().tables.map().remove(name_key(name@))
                    == old(self).current_state().tables.map().remove(name_key(name@)),
            },
    {
        self.gas_meter.charge(GasPrice::WriteRow)?;
        self.state.schemas.create_table(schema);
        self.state.tables.insert(name.to_string(), RowTrie::new());
        proof {
            assert(self.state.tables.map().remove(name_key(name@)) =~= old(self).state.tables.map().remove(name_key(name@)));
        }
        Ok(())
    }
}

} // verus!

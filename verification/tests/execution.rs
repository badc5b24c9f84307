use stoolap::error::Error;
use stoolap::execution::context::{ExecutionContext, StateSnapshot};
use stoolap::execution::gas::{GasMeter, GasPrice, GasPrices};
use stoolap::trie::row_trie::RowTrie;
use stoolap::trie::schema_trie::{ColumnDef, TableSchema};
use stoolap::types::DataType;

fn default_prices_are_documented() {
    let prices = GasPrices::default();
    assert_eq!(prices.read_row, 100);
    assert_eq!(prices.write_row, 1000);
    assert_eq!(prices.index_scan, 50);
    assert_eq!(prices.full_scan, 500);
    assert_eq!(prices.compute, 1);
}

fn charge_then_refuse() {
    let mut meter = GasMeter::new(1000);
    assert!(meter.charge(GasPrice::ReadRow).is_ok());
    assert_eq!(meter.gas_used(), 100);
    assert_eq!(meter.remaining(), 900);
    assert!(meter.charge(GasPrice::WriteRow).is_err());
    assert_eq!(meter.gas_used(), 100);
    assert_eq!(meter.remaining(), 900);
    assert!(meter.check_gas_limit().is_ok());
}

fn out_of_gas() {
    let mut meter = GasMeter::new(100);
    assert!(meter.charge(GasPrice::ReadRow).is_ok());
    assert_eq!(meter.gas_used(), 100);
    let result = meter.charge(GasPrice::ReadRow);
    assert!(result.is_err());
    if let Err(e) = result {
        assert!(matches!(e, Error::OutOfGas { .. }));
    }
}

fn check_limit() {
    let meter = GasMeter::new(500);
    assert!(meter.check_gas_limit().is_ok());
    let mut meter = GasMeter::new(500);
    meter.charge(GasPrice::FullScan).unwrap();
    assert!(meter.check_gas_limit().is_ok());
    assert!(meter.charge(GasPrice::Compute).is_err());
}

fn remaining() {
    let mut meter = GasMeter::new(10000);
    assert_eq!(meter.remaining(), 10000);
    meter.charge(GasPrice::IndexScan).unwrap();
    assert_eq!(meter.remaining(), 9950);
    meter.charge(GasPrice::FullScan).unwrap();
    assert_eq!(meter.remaining(), 9450);
    meter.charge(GasPrice::Compute).unwrap();
    assert_eq!(meter.remaining(), 9449);
}

fn custom_prices() {
    let prices = GasPrices { read_row: 50, write_row: 500, index_scan: 25, full_scan: 250, compute: 2 };
    let mut meter = GasMeter::with_prices(1000, prices);
    meter.charge(GasPrice::ReadRow).unwrap();
    assert_eq!(meter.gas_used(), 50);
    meter.charge(GasPrice::WriteRow).unwrap();
    assert_eq!(meter.gas_used(), 550);
}

#[test]
fn gas_test_gas_prices_default() {
    default_prices_are_documented();
}

#[test]
fn tests_test_gas_prices_default() {
    default_prices_are_documented();
}

#[test]
fn test_gas_meter_new() {
    let meter = GasMeter::new(1000);
    assert_eq!(meter.gas_used(), 0);
    assert_eq!(meter.gas_limit(), 1000);
    assert_eq!(meter.remaining(), 1000);
}

#[test]
fn gas_test_gas_meter_charge() {
    charge_then_refuse();
}

#[test]
fn tests_test_gas_meter_charge() {
    charge_then_refuse();
}

#[test]
fn gas_test_gas_meter_out_of_gas() {
    out_of_gas();
}

#[test]
fn tests_test_gas_meter_out_of_gas() {
    out_of_gas();
}

#[test]
fn gas_test_gas_meter_check_limit() {
    check_limit();
}

#[test]
fn tests_test_gas_meter_check_limit() {
    check_limit();
}

#[test]
fn gas_test_gas_meter_remaining() {
    remaining();
}

#[test]
fn tests_test_gas_meter_remaining() {
    remaining();
}

#[test]
fn gas_test_gas_meter_with_custom_prices() {
    custom_prices();
}

#[test]
fn tests_test_gas_meter_with_custom_prices() {
    custom_prices();
}

#[test]
fn test_gas_overflow() {
    // Bring the meter to `u64::MAX - 10` used (the counter is private, so
    // by a charge priced that high), then charge a row read.
    let prices = GasPrices { read_row: 100, write_row: u64::MAX - 10, index_scan: 50, full_scan: 500, compute: 1 };
    let mut meter = GasMeter::with_prices(u64::MAX, prices);
    meter.charge(GasPrice::WriteRow).unwrap();
    assert_eq!(meter.gas_used(), u64::MAX - 10);
    let result = meter.charge(GasPrice::ReadRow);
    assert!(result.is_err());
    if let Err(e) = result {
        assert!(matches!(e, Error::GasOverflow));
    }
}

#[test]
fn test_state_snapshot_new() {
    let snapshot = StateSnapshot::new();
    assert_eq!(snapshot.schema_root(), [0u8; 32]);
    assert!(snapshot.table_roots().is_empty());
    assert!(snapshot.get_table_trie("test").is_none());
    assert!(snapshot.get_row("test", 1).is_none());
}

#[test]
fn test_state_snapshot_with_table() {
    let mut snapshot = StateSnapshot::new();
    let mut trie = RowTrie::new();
    trie.insert(1, vec![42]);
    snapshot.tables.insert("test".to_string(), trie);
    assert!(snapshot.get_table_trie("test").is_some());
    let trie_ref = snapshot.get_table_trie("test").unwrap();
    assert_eq!(trie_ref.len(), 1);
    assert_ne!(trie_ref.get_root(), [0u8; 32]);
}

#[test]
fn test_execution_context_new() {
    let state = StateSnapshot::new();
    let ctx = ExecutionContext::new(100, 10000, state);
    assert_eq!(ctx.block_number, 100);
    assert_eq!(ctx.gas_limit, 10000);
    assert_eq!(ctx.gas_used(), 0);
    assert_eq!(ctx.timestamp, 0);
}

#[test]
fn test_execution_context_insert() {
    let mut state = StateSnapshot::new();
    state.tables.insert("users".to_string(), RowTrie::new());
    let mut ctx = ExecutionContext::new(1, 10000, state);
    assert!(ctx.insert("users", 1, vec![1, 0x41]).is_ok());
    assert_eq!(ctx.gas_used(), 1000);
    let trie = ctx.state().get_table_trie("users").unwrap();
    assert_eq!(trie.len(), 1);
    assert_ne!(trie.get_root(), [0u8; 32]);
}

#[test]
fn test_execution_context_insert_table_not_found() {
    let state = StateSnapshot::new();
    let mut ctx = ExecutionContext::new(1, 10000, state);
    let result = ctx.insert("nonexistent", 1, vec![1]);
    assert!(result.is_err());
    assert!(matches!(result, Err(Error::TableNotFound(_))));
}

#[test]
fn test_execution_context_insert_out_of_gas() {
    let mut state = StateSnapshot::new();
    state.tables.insert("users".to_string(), RowTrie::new());
    let mut ctx = ExecutionContext::new(1, 500, state);
    let result = ctx.insert("users", 1, vec![1]);
    assert!(result.is_err());
    assert!(matches!(result, Err(Error::OutOfGas { .. })));
}

#[test]
fn test_execution_context_delete() {
    let mut state = StateSnapshot::new();
    let mut trie = RowTrie::new();
    trie.insert(1, vec![42]);
    trie.insert(2, vec![99]);
    assert_eq!(trie.len(), 2);
    state.tables.insert("users".to_string(), trie);
    let mut ctx = ExecutionContext::new(1, 10000, state);
    assert!(ctx.delete("users", 1).is_ok());
    assert_eq!(ctx.gas_used(), 1000);
    let trie = ctx.state().get_table_trie("users").unwrap();
    assert_eq!(trie.len(), 1);
}

#[test]
fn test_execution_context_delete_table_not_found() {
    let state = StateSnapshot::new();
    let mut ctx = ExecutionContext::new(1, 10000, state);
    let result = ctx.delete("nonexistent", 1);
    assert!(result.is_err());
    assert!(matches!(result, Err(Error::TableNotFound(_))));
}

#[test]
fn test_execution_context_create_table() {
    let state = StateSnapshot::new();
    let mut ctx = ExecutionContext::new(1, 10000, state);
    let mut schema = TableSchema::new("users");
    schema.add_column(ColumnDef::new("id", DataType::Integer, false));
    schema.add_column(ColumnDef::new("name", DataType::Text, false));
    assert!(ctx.create_table("users", schema).is_ok());
    assert_eq!(ctx.gas_used(), 1000);
    assert!(ctx.state().schemas.table_exists("users"));
    assert!(ctx.state().get_table_trie("users").is_some());
}

#[test]
fn test_execution_context_state_accessors() {
    let mut state = StateSnapshot::new();
    state.tables.insert("test".to_string(), RowTrie::new());
    let ctx = ExecutionContext::new(1, 10000, state);
    assert!(ctx.state().get_table_trie("test").is_some());
    let recovered_state = ctx.into_state();
    assert!(recovered_state.get_table_trie("test").is_some());
}

#[test]
fn test_execution_context_table_roots() {
    let mut state = StateSnapshot::new();
    let mut trie = RowTrie::new();
    trie.insert(1, vec![42]);
    state.tables.insert("test".to_string(), trie);
    let ctx = ExecutionContext::new(1, 10000, state);
    let roots = ctx.state().table_roots();
    assert_eq!(roots.len(), 1);
    assert!(roots.contains_key("test".as_bytes()));
    assert_ne!(roots.get("test".as_bytes()), Some(&[0u8; 32]));
}

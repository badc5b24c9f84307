use stoolap::consensus::block::{Block, BlockError, BlockHeader, BlockOperations};
use stoolap::consensus::operation::{ColumnDef, DataType, IndexType, OpError, Operation};
use stoolap::execution::context::StateSnapshot;

fn header(block_number: u64, gas_limit: u64, gas_used: u64) -> BlockHeader {
    BlockHeader {
        block_number,
        parent_hash: [0u8; 32],
        state_root_before: [0u8; 32],
        state_root_after: [0u8; 32],
        operation_root: [0u8; 32],
        timestamp: 100,
        gas_limit,
        gas_used,
        proposer: [0u8; 32],
        extra_data: vec![],
    }
}

#[test]
fn test_index_type_conversion() {
    assert_eq!(IndexType::BTree.as_u8(), 0);
    assert_eq!(IndexType::Hash.as_u8(), 1);
    assert_eq!(IndexType::Bitmap.as_u8(), 2);
    assert_eq!(IndexType::Hnsw.as_u8(), 3);

    assert_eq!(IndexType::from_u8(0), Some(IndexType::BTree));
    assert_eq!(IndexType::from_u8(1), Some(IndexType::Hash));
    assert_eq!(IndexType::from_u8(2), Some(IndexType::Bitmap));
    assert_eq!(IndexType::from_u8(3), Some(IndexType::Hnsw));
    assert_eq!(IndexType::from_u8(99), None);
}

#[test]
fn test_data_type_conversion() {
    assert_eq!(DataType::Integer.as_u8(), 0);
    assert_eq!(DataType::Float.as_u8(), 1);
    assert_eq!(DataType::Text.as_u8(), 2);
    assert_eq!(DataType::Boolean.as_u8(), 3);
    assert_eq!(DataType::Timestamp.as_u8(), 4);
    assert_eq!(DataType::Vector.as_u8(), 5);
    assert_eq!(DataType::Json.as_u8(), 6);

    assert_eq!(DataType::from_u8(0), Some(DataType::Integer));
    assert_eq!(DataType::from_u8(1), Some(DataType::Float));
    assert_eq!(DataType::from_u8(2), Some(DataType::Text));
    assert_eq!(DataType::from_u8(3), Some(DataType::Boolean));
    assert_eq!(DataType::from_u8(4), Some(DataType::Timestamp));
    assert_eq!(DataType::from_u8(5), Some(DataType::Vector));
    assert_eq!(DataType::from_u8(6), Some(DataType::Json));
    assert_eq!(DataType::from_u8(99), None);
}

#[test]
fn test_column_def() {
    let col = ColumnDef::new("id".to_string(), DataType::Integer, false);
    assert_eq!(col.name, "id");
    assert_eq!(col.data_type, DataType::Integer);
    assert!(!col.nullable);
}

#[test]
fn test_encode_decode_insert() {
    let original = Operation::Insert {
        table_name: "users".to_string(),
        row_id: 42,
        row_data: vec![1, 2, 3, 4],
    };
    let encoded = original.encode();
    let decoded = Operation::decode(&encoded).unwrap();
    assert_eq!(original, decoded);
}

#[test]
fn test_encode_decode_update() {
    let original = Operation::Update {
        table_name: "users".to_string(),
        row_id: 42,
        column_index: 2,
        old_value: Some(vec![1, 2]),
        new_value: vec![3, 4],
    };
    let encoded = original.encode();
    let decoded = Operation::decode(&encoded).unwrap();
    assert_eq!(original, decoded);
}

#[test]
fn test_encode_decode_delete() {
    let original = Operation::Delete { table_name: "users".to_string(), row_id: 42 };
    let encoded = original.encode();
    let decoded = Operation::decode(&encoded).unwrap();
    assert_eq!(original, decoded);
}

#[test]
fn test_encode_decode_create_table() {
    let original = Operation::CreateTable {
        table_name: "users".to_string(),
        schema: vec![
            ColumnDef::new("id".to_string(), DataType::Integer, false),
            ColumnDef::new("name".to_string(), DataType::Text, false),
            ColumnDef::new("email".to_string(), DataType::Text, true),
        ],
    };
    let encoded = original.encode();
    let decoded = Operation::decode(&encoded).unwrap();
    assert_eq!(original, decoded);
}

#[test]
fn test_encode_decode_drop_table() {
    let original = Operation::DropTable { table_name: "users".to_string() };
    let encoded = original.encode();
    let decoded = Operation::decode(&encoded).unwrap();
    assert_eq!(original, decoded);
}

#[test]
fn test_encode_decode_create_index() {
    let original = Operation::CreateIndex {
        table_name: "users".to_string(),
        index_name: "idx_users_name".to_string(),
        index_type: IndexType::BTree,
        columns: vec![0, 1],
    };
    let encoded = original.encode();
    let decoded = Operation::decode(&encoded).unwrap();
    assert_eq!(original, decoded);
}

#[test]
fn test_encode_decode_drop_index() {
    let original = Operation::DropIndex {
        table_name: "users".to_string(),
        index_name: "idx_users_name".to_string(),
    };
    let encoded = original.encode();
    let decoded = Operation::decode(&encoded).unwrap();
    assert_eq!(original, decoded);
}

#[test]
fn test_hash_consistency() {
    let op1 = Operation::Insert { table_name: "test".to_string(), row_id: 1, row_data: vec![1, 2, 3] };
    let op2 = Operation::Insert { table_name: "test".to_string(), row_id: 1, row_data: vec![1, 2, 3] };
    assert_eq!(op1.hash(), op2.hash());
}

#[test]
fn test_hash_different_operations() {
    let op1 = Operation::Insert { table_name: "test".to_string(), row_id: 1, row_data: vec![1, 2, 3] };
    let op2 = Operation::Insert { table_name: "test".to_string(), row_id: 1, row_data: vec![1, 2, 4] };
    assert_ne!(op1.hash(), op2.hash());
}

#[test]
fn test_empty_decode() {
    let result = Operation::decode(&[]);
    assert!(matches!(result, Err(OpError::DecodeError(_))));
}

#[test]
fn test_invalid_operation_type() {
    let mut data = vec![99u8];
    data.extend_from_slice(&0u64.to_be_bytes());
    data.extend_from_slice(b"test");
    let result = Operation::decode(&data);
    assert!(matches!(result, Err(OpError::InvalidOperationType(99))));
}

#[test]
fn test_header_hash() {
    let header1 = BlockHeader {
        block_number: 1,
        parent_hash: [0u8; 32],
        state_root_before: [0u8; 32],
        state_root_after: [0u8; 32],
        operation_root: [0u8; 32],
        timestamp: 100,
        gas_limit: 1_000_000,
        gas_used: 0,
        proposer: [0u8; 32],
        extra_data: vec![],
    };
    let header2 = header1.clone();
    assert_eq!(header1.hash(), header2.hash());
    let header3 = BlockHeader { block_number: 2, extra_data: header1.extra_data.clone(), ..header1.clone() };
    assert_ne!(header1.hash(), header3.hash());
}

#[test]
fn test_compute_operation_root_empty() {
    let root = BlockOperations::compute_operation_root(&[]);
    assert_eq!(root, [0u8; 32]);
}

#[test]
fn test_compute_operation_root_single() {
    let op = Operation::Insert { table_name: "test".to_string(), row_id: 1, row_data: vec![1, 2, 3] };
    let root = BlockOperations::compute_operation_root(&[op.clone()]);
    let expected = op.hash();
    assert_eq!(root, expected);
}

#[test]
fn test_block_verify_success() {
    let state = StateSnapshot::new();
    let block = Block::new(header(1, 1_000_000, 0), vec![], state, vec![]);
    assert!(block.verify().is_ok());
}

#[test]
fn test_block_verify_gas_limit_exceeded() {
    let state = StateSnapshot::new();
    let header = header(1, 100, 200);
    let operations = BlockOperations::new(1, vec![], header.state_root_before, header.state_root_after);
    let block = Block { header, operations, state_commitment: state, signatures: vec![] };
    assert!(matches!(block.verify(), Err(BlockError::GasLimitExceeded { used: 200, limit: 100 })));
}

#[test]
fn test_block_verify_empty_block() {
    let state = StateSnapshot::new();
    let operations = BlockOperations {
        block_number: 1,
        operations: vec![],
        state_root_before: [0u8; 32],
        state_root_after: [0u8; 32],
        operation_root: [0u8; 32],
    };
    let block = Block { header: header(1, 1_000_000, 0), operations, state_commitment: state, signatures: vec![] };
    assert!(block.verify().is_ok());
}

#[test]
fn test_block_operations_compute_root() {
    let ops: Vec<Operation> = vec![];
    let root = BlockOperations::compute_operation_root(&ops);
    assert_eq!(root, [0u8; 32]);
}

#[test]
fn test_block_header_fields() {
    let header = BlockHeader {
        block_number: 42,
        parent_hash: [1u8; 32],
        state_root_before: [2u8; 32],
        state_root_after: [3u8; 32],
        operation_root: [4u8; 32],
        timestamp: 12345,
        gas_limit: 500_000,
        gas_used: 1000,
        proposer: [99u8; 32],
        extra_data: vec![1, 2, 3],
    };
    assert_eq!(header.block_number, 42);
    assert_eq!(header.parent_hash, [1u8; 32]);
    assert_eq!(header.timestamp, 12345);
}

#[test]
fn test_operation_insert_hash() {
    let op1 = Operation::Insert { table_name: "users".to_string(), row_id: 1, row_data: vec![1, 2, 3, 4] };
    let op2 = Operation::Insert { table_name: "users".to_string(), row_id: 1, row_data: vec![1, 2, 3, 4] };
    assert_eq!(op1.hash(), op2.hash());
    let op3 = Operation::Insert { table_name: "users".to_string(), row_id: 1, row_data: vec![1, 2, 3, 5] };
    assert_ne!(op1.hash(), op3.hash());
}

#[test]
fn test_operation_update_hash() {
    let make = |new_value: Vec<u8>| Operation::Update {
        table_name: "users".to_string(),
        row_id: 1,
        column_index: 2,
        old_value: Some(vec![1, 2]),
        new_value,
    };
    let op1 = make(vec![3, 4]);
    let op2 = make(vec![3, 4]);
    assert_eq!(op1.hash(), op2.hash());
    let op3 = make(vec![3, 5]);
    assert_ne!(op1.hash(), op3.hash());
}

#[test]
fn test_operation_encode_roundtrip() {
    let operations = vec![
        Operation::Insert { table_name: "users".to_string(), row_id: 1, row_data: vec![1, 2, 3, 4] },
        Operation::Update {
            table_name: "users".to_string(),
            row_id: 2,
            column_index: 1,
            old_value: Some(vec![5]),
            new_value: vec![6],
        },
        Operation::Delete { table_name: "users".to_string(), row_id: 3 },
    ];
    for original_op in operations {
        let encoded = original_op.encode();
        let decoded_op = Operation::decode(&encoded).expect("Failed to decode operation");
        assert_eq!(original_op, decoded_op);
        assert_eq!(original_op.hash(), decoded_op.hash());
    }
}

#[test]
fn test_all_operation_types() {
    let schema = vec![
        ColumnDef { name: "id".to_string(), data_type: DataType::Integer, nullable: false },
        ColumnDef { name: "name".to_string(), data_type: DataType::Text, nullable: false },
    ];
    let operations = vec![
        Operation::Insert { table_name: "test_table".to_string(), row_id: 1, row_data: vec![1, 2, 3] },
        Operation::Update {
            table_name: "test_table".to_string(),
            row_id: 1,
            column_index: 0,
            old_value: Some(vec![1]),
            new_value: vec![2],
        },
        Operation::Delete { table_name: "test_table".to_string(), row_id: 1 },
        Operation::CreateTable { table_name: "test_table".to_string(), schema: schema.clone() },
        Operation::DropTable { table_name: "test_table".to_string() },
        Operation::CreateIndex {
            table_name: "test_table".to_string(),
            index_name: "idx_test".to_string(),
            index_type: IndexType::BTree,
            columns: vec![0, 1],
        },
        Operation::DropIndex { table_name: "test_table".to_string(), index_name: "idx_test".to_string() },
    ];
    for op in &operations {
        let hash = op.hash();
        assert!(hash.iter().any(|&b| b != 0), "Operation produced all-zero hash: {:?}", op);
    }
    for index_type in vec![IndexType::BTree, IndexType::Hash, IndexType::Bitmap, IndexType::Hnsw] {
        let op = Operation::CreateIndex {
            table_name: "test".to_string(),
            index_name: "idx".to_string(),
            index_type,
            columns: vec![0],
        };
        assert!(op.hash().iter().any(|&b| b != 0), "IndexType {:?} produced all-zero hash", index_type);
    }
    let data_types = vec![
        DataType::Integer,
        DataType::Float,
        DataType::Text,
        DataType::Boolean,
        DataType::Timestamp,
        DataType::Vector,
        DataType::Json,
    ];
    for data_type in data_types {
        let schema = vec![ColumnDef { name: "col".to_string(), data_type, nullable: false }];
        let op = Operation::CreateTable { table_name: "test".to_string(), schema };
        assert!(op.hash().iter().any(|&b| b != 0), "DataType {:?} produced all-zero hash", data_type);
    }
}

#[test]
fn decode_rejects_length_past_any_data() {
    let insert_tag = Operation::Insert { table_name: String::new(), row_id: 0, row_data: vec![] }.encode()[0];
    let mut data = vec![insert_tag];
    data.extend_from_slice(&u64::MAX.to_be_bytes());
    assert_eq!(
        Operation::decode(&data),
        Err(OpError::DecodeError(
            "String length 18446744073709551615 exceeds remaining data 0".to_string()
        ))
    );
}

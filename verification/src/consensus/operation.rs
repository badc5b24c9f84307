//! Operation types recorded in the blockchain's operation log, their byte
//! encoding and decoding, and their content hash.

use vstd::prelude::*;
use vstd::string::StringExecFns;
use vstd::utf8::*;
use crate::text::{decimal, string_from_utf8, u64_to_decimal};
use crate::xorfold::{lemma_xor_at_len, xor_at, xor_bytes_into};
use crate::codec::{be64, from_be64, push_all, push_be64, read_be64, copy_range, lemma_be64_roundtrip};

verus! {

broadcast use vstd::seq_lib::group_seq_properties;

/// Operation-specific errors.
#[derive(Debug, Clone, PartialEq, Eq)]
pub enum OpError {
    /// Invalid operation data
    InvalidOperation(String),
    /// Failed to decode operation
    DecodeError(String),
    /// Invalid operation type byte
    InvalidOperationType(u8),
    /// Invalid index type byte
    InvalidIndexType(u8),
    /// Invalid data type byte
    InvalidDataType(u8),
}

/// Result type of operation decoding.
pub type OpResult<T> = Result<T, OpError>;

/// Index types for consensus operations.
#[derive(Debug, Clone, Copy, PartialEq, Eq, Hash)]
pub enum IndexType {
    /// B-tree index for range queries
    BTree,
    /// Hash index for equality lookups
    Hash,
    /// Bitmap index for low-cardinality columns
    Bitmap,
    /// HNSW index for vector similarity search
    Hnsw,
}

impl IndexType {
    /// The byte that identifies this index type on the wire.
    pub open spec fn tag(self) -> u8 {
        match self {
            IndexType::BTree => 0,
            IndexType::Hash => 1,
            IndexType::Bitmap => 2,
            IndexType::Hnsw => 3,
        }
    }

    /// The index type that `value` identifies, if any.
    pub open spec fn from_tag(value: u8) -> Option<IndexType> {
        if value == 0 {
            Some(IndexType::BTree)
        } else if value == 1 {
            Some(IndexType::Hash)
        } else if value == 2 {
            Some(IndexType::Bitmap)
        } else if value == 3 {
            Some(IndexType::Hnsw)
        } else {
            None
        }
    }

    /// Converts to its byte.
    pub fn as_u8(self) -> (r: u8)
        ensures
            r == self.tag(),
    {
        match self {
            IndexType::BTree => 0,
            IndexType::Hash => 1,
            IndexType::Bitmap => 2,
            IndexType::Hnsw => 3,
        }
    }

    /// The index type with the given byte, or `None` for an unknown byte.
    pub fn from_u8(value: u8) -> (r: Option<Self>)
        ensures
            r == IndexType::from_tag(value),
    {
        match value {
            0 => Some(IndexType::BTree),
            1 => Some(IndexType::Hash),
            2 => Some(IndexType::Bitmap),
            3 => Some(IndexType::Hnsw),
            _ => None,
        }
    }
}

/// Column data types for consensus operations.
#[derive(Debug, Clone, Copy, PartialEq, Eq, Hash)]
pub enum DataType {
    /// 64-bit signed integer
    Integer,
    /// 64-bit floating point number
    Float,
    /// UTF-8 text string
    Text,
    /// Boolean true/false
    Boolean,
    /// Timestamp with timezone
    Timestamp,
    /// Vector of f32 values
    Vector,
    /// JSON document
    Json,
}

impl DataType {
    /// The byte that identifies this data type on the wire.
    pub open spec fn tag(self) -> u8 {
        match self {
            DataType::Integer => 0,
            DataType::Float => 1,
            DataType::Text => 2,
            DataType::Boolean => 3,
            DataType::Timestamp => 4,
            DataType::Vector => 5,
            DataType::Json => 6,
        }
    }

    /// The data type that `value` identifies, if any.
    pub open spec fn from_tag(value: u8) -> Option<DataType> {
        if value == 0 {
            Some(DataType::Integer)
        } else if value == 1 {
            Some(DataType::Float)
        } else if value == 2 {
            Some(DataType::Text)
        } else if value == 3 {
            Some(DataType::Boolean)
        } else if value == 4 {
            Some(DataType::Timestamp)
        } else if value == 5 {
            Some(DataType::Vector)
        } else if value == 6 {
            Some(DataType::Json)
        } else {
            None
        }
    }

    /// Converts to its byte.
    pub fn as_u8(self) -> (r: u8)
        ensures
            r == self.tag(),
    {
        match self {
            DataType::Integer => 0,
            DataType::Float => 1,
            DataType::Text => 2,
            DataType::Boolean => 3,
            DataType::Timestamp => 4,
            DataType::Vector => 5,
            DataType::Json => 6,
        }
    }

    /// The data type with the given byte, or `None` for an unknown byte.
    pub fn from_u8(value: u8) -> (r: Option<Self>)
        ensures
            r == DataType::from_tag(value),
    {
        match value {
            0 => Some(DataType::Integer),
            1 => Some(DataType::Float),
            2 => Some(DataType::Text),
            3 => Some(DataType::Boolean),
            4 => Some(DataType::Timestamp),
            5 => Some(DataType::Vector),
            6 => Some(DataType::Json),
            _ => None,
        }
    }
}

/// Each index type byte names the index type back.
pub proof fn lemma_index_type_tag_roundtrip(t: IndexType, b: u8)
    ensures
        IndexType::from_tag(t.tag()) == Some(t),
        IndexType::from_tag(b) matches Some(u) ==> u.tag() == b,
{
}

/// Each data type byte names the data type back.
pub proof fn lemma_data_type_tag_roundtrip(t: DataType, b: u8)
    ensures
        DataType::from_tag(t.tag()) == Some(t),
        DataType::from_tag(b) matches Some(u) ==> u.tag() == b,
{
}

/// Column definition for consensus operations.
#[derive(Debug, Clone, PartialEq, Eq, Hash)]
pub struct ColumnDef {
    /// Column name
    pub name: String,
    /// Column data type
    pub data_type: DataType,
    /// Whether the column can be NULL
    pub nullable: bool,
}

/// Abstract content of a column definition.
pub struct ColumnDefView {
    pub name: Seq<char>,
    pub data_type: DataType,
    pub nullable: bool,
}

impl View for ColumnDef {
    type V = ColumnDefView;

    open spec fn view(&self) -> ColumnDefView {
        ColumnDefView { name: self.name@, data_type: self.data_type, nullable: self.nullable }
    }
}

impl ColumnDef {
    /// Creates a column definition.
    pub fn new(name: String, data_type: DataType, nullable: bool) -> (r: Self)
        ensures
            r.name == name,
            r.data_type == data_type,
            r.nullable == nullable,
    {
        ColumnDef { name, data_type, nullable }
    }
}

/// Database operation recorded in the operation log.
#[derive(Debug, Clone, PartialEq, Eq)]
pub enum Operation {
    /// Insert a new row
    Insert { table_name: String, row_id: i64, row_data: Vec<u8> },
    /// Update a specific column in a row
    Update {
        table_name: String,
        row_id: i64,
        column_index: usize,
        old_value: Option<Vec<u8>>,
        new_value: Vec<u8>,
    },
    /// Delete a row
    Delete { table_name: String, row_id: i64 },
    /// Create a new table
    CreateTable { table_name: String, schema: Vec<ColumnDef> },
    /// Drop a table
    DropTable { table_name: String },
    /// Create an index
    CreateIndex {
        table_name: String,
        index_name: String,
        index_type: IndexType,
        columns: Vec<usize>,
    },
    /// Drop an index
    DropIndex { table_name: String, index_name: String },
}

/// Abstract content of an operation.
pub enum OperationView {
    Insert { table_name: Seq<char>, row_id: i64, row_data: Seq<u8> },
    Update {
        table_name: Seq<char>,
        row_id: i64,
        column_index: usize,
        old_value: Option<Seq<u8>>,
        new_value: Seq<u8>,
    },
    Delete { table_name: Seq<char>, row_id: i64 },
    CreateTable { table_name: Seq<char>, schema: Seq<ColumnDefView> },
    DropTable { table_name: Seq<char> },
    CreateIndex {
        table_name: Seq<char>,
        index_name: Seq<char>,
        index_type: IndexType,
        columns: Seq<usize>,
    },
    DropIndex { table_name: Seq<char>, index_name: Seq<char> },
}

pub open spec fn option_bytes_view(o: Option<Vec<u8>>) -> Option<Seq<u8>> {
    match o {
        Some(v) => Some(v@),
        None => None,
    }
}

pub open spec fn columns_view(cols: Seq<ColumnDef>) -> Seq<ColumnDefView> {
    cols.map_values(|c: ColumnDef| c@)
}

impl View for Operation {
    type V = OperationView;

    open spec fn view(&self) -> OperationView {
        match self {
            Operation::Insert { table_name, row_id, row_data } => OperationView::Insert {
                table_name: table_name@,
                row_id: *row_id,
                row_data: row_data@,
            },
            Operation::Update { table_name, row_id, column_index, old_value, new_value } =>
                OperationView::Update {
                table_name: table_name@,
                row_id: *row_id,
                column_index: *column_index,
                old_value: option_bytes_view(*old_value),
                new_value: new_value@,
            },
            Operation::Delete { table_name, row_id } => OperationView::Delete {
                table_name: table_name@,
                row_id: *row_id,
            },
            Operation::CreateTable { table_name, schema } => OperationView::CreateTable {
                table_name: table_name@,
                schema: columns_view(schema@),
            },
            Operation::DropTable { table_name } => OperationView::DropTable {
                table_name: table_name@,
            },
            Operation::CreateIndex { table_name, index_name, index_type, columns } =>
                OperationView::CreateIndex {
                table_name: table_name@,
                index_name: index_name@,
                index_type: *index_type,
                columns: columns@,
            },
            Operation::DropIndex { table_name, index_name } => OperationView::DropIndex {
                table_name: table_name@,
                index_name: index_name@,
            },
        }
    }
}

// ---------------------------------------------------------------------------
// The wire format
// ---------------------------------------------------------------------------

impl OperationView {
    /// The operation-type byte that starts the encoding.
    pub open spec fn type_tag(self) -> u8 {
        match self {
            OperationView::Insert { .. } => 0,
            OperationView::Update { .. } => 1,
            OperationView::Delete { .. } => 2,
            OperationView::CreateTable { .. } => 3,
            OperationView::DropTable { .. } => 4,
            OperationView::CreateIndex { .. } => 5,
            OperationView::DropIndex { .. } => 6,
        }
    }
}

/// A length or index, written as a big-endian 64-bit word.
pub open spec fn enc_len(n: nat) -> Seq<u8> {
    be64(n as u64)
}

/// Length-prefixed bytes.
pub open spec fn enc_bytes(b: Seq<u8>) -> Seq<u8> {
    enc_len(b.len()) + b
}

/// Length-prefixed UTF-8 text.
pub open spec fn enc_string(s: Seq<char>) -> Seq<u8> {
    enc_bytes(encode_utf8(s))
}

/// A present flag byte, then the bytes when present.
pub open spec fn enc_option_bytes(o: Option<Seq<u8>>) -> Seq<u8> {
    match o {
        Some(b) => seq![1u8] + enc_bytes(b),
        None => seq![0u8],
    }
}

pub open spec fn bool_byte(b: bool) -> u8 {
    if b { 1 } else { 0 }
}

/// A column: its name, its data-type byte and its nullable byte.
pub open spec fn enc_column(c: ColumnDefView) -> Seq<u8> {
    enc_string(c.name) + seq![c.data_type.tag(), bool_byte(c.nullable)]
}

/// The columns one after another, without their count.
pub open spec fn enc_columns(cs: Seq<ColumnDefView>) -> Seq<u8>
    decreases cs.len(),
{
    if cs.len() == 0 {
        Seq::empty()
    } else {
        enc_columns(cs.drop_last()) + enc_column(cs.last())
    }
}

/// The column indices one after another, without their count.
pub open spec fn enc_indices(xs: Seq<usize>) -> Seq<u8>
    decreases xs.len(),
{
    if xs.len() == 0 {
        Seq::empty()
    } else {
        enc_indices(xs.drop_last()) + enc_len(xs.last() as nat)
    }
}

/// The encoding of an operation: its type byte, then its fields in order.
pub open spec fn spec_encode(op: OperationView) -> Seq<u8> {
    seq![op.type_tag()] + match op {
        OperationView::Insert { table_name, row_id, row_data } => enc_string(table_name) + be64(
            row_id as u64,
        ) + enc_bytes(row_data),
        OperationView::Update { table_name, row_id, column_index, old_value, new_value } =>
            enc_string(table_name) + be64(row_id as u64) + enc_len(column_index as nat)
            + enc_option_bytes(old_value) + enc_bytes(new_value),
        OperationView::Delete { table_name, row_id } => enc_string(table_name) + be64(
            row_id as u64,
        ),
        OperationView::CreateTable { table_name, schema } => enc_string(table_name) + enc_len(
            schema.len(),
        ) + enc_columns(schema),
        OperationView::DropTable { table_name } => enc_string(table_name),
        OperationView::CreateIndex { table_name, index_name, index_type, columns } =>
            enc_string(table_name) + enc_string(index_name) + seq![index_type.tag()] + enc_len(
            columns.len(),
        ) + enc_indices(columns),
        OperationView::DropIndex { table_name, index_name } => enc_string(table_name)
            + enc_string(index_name),
    }
}

/// Why decoding fails.
pub enum DecodeFailure {
    /// Truncated or malformed data, with the message that reports it
    Malformed(Seq<char>),
    /// A string's bytes are not UTF-8
    BadUtf8,
    /// Unknown operation type byte
    OperationType(u8),
    /// Unknown index type byte
    IndexType(u8),
    /// Unknown data type byte
    DataType(u8),
}

impl OpError {
    /// The failure that this error reports.
    pub open spec fn reports(self, f: DecodeFailure) -> bool {
        match f {
            DecodeFailure::Malformed(m) => self matches OpError::DecodeError(s) && s@ == m,
            DecodeFailure::BadUtf8 => self matches OpError::DecodeError(s) && s@.len()
                >= "Invalid UTF-8: "@.len() && s@.subrange(0, "Invalid UTF-8: "@.len() as int)
                == "Invalid UTF-8: "@,
            DecodeFailure::OperationType(b) => self == OpError::InvalidOperationType(b),
            DecodeFailure::IndexType(b) => self == OpError::InvalidIndexType(b),
            DecodeFailure::DataType(b) => self == OpError::InvalidDataType(b),
        }
    }
}

pub open spec fn parse_word(d: Seq<u8>, p: int, msg: Seq<char>) -> Result<(u64, int), DecodeFailure> {
    if p + 8 > d.len() {
        Err(DecodeFailure::Malformed(msg))
    } else {
        Ok((from_be64(d.subrange(p, p + 8)), p + 8))
    }
}

pub open spec fn parse_usize(d: Seq<u8>, p: int) -> Result<(usize, int), DecodeFailure> {
    match parse_word(d, p, "Incomplete usize"@) {
        Ok((v, q)) => Ok((v as usize, q)),
        Err(e) => Err(e),
    }
}

pub open spec fn parse_i64(d: Seq<u8>, p: int) -> Result<(i64, int), DecodeFailure> {
    match parse_word(d, p, "Incomplete i64"@) {
        Ok((v, q)) => Ok((v as i64, q)),
        Err(e) => Err(e),
    }
}

/// The message of a length that runs past the data.
pub open spec fn length_message(what: Seq<char>, len: nat, remaining: nat) -> Seq<char> {
    what + " length "@ + decimal(len) + " exceeds remaining data "@ + decimal(remaining)
}

/// A length-prefixed run of bytes at `p`; `what` names it in the message
/// of a run past the data.
pub open spec fn parse_span(d: Seq<u8>, p: int, what: Seq<char>) -> Result<(Seq<u8>, int), DecodeFailure> {
    match parse_usize(d, p) {
        Ok((n, q)) => if q + n > d.len() {
            Err(DecodeFailure::Malformed(length_message(what, n as nat, (d.len() - q) as nat)))
        } else {
            Ok((d.subrange(q, q + n), q + n))
        },
        Err(e) => Err(e),
    }
}

pub open spec fn parse_bytes(d: Seq<u8>, p: int) -> Result<(Seq<u8>, int), DecodeFailure> {
    parse_span(d, p, "Bytes"@)
}

pub open spec fn parse_string(d: Seq<u8>, p: int) -> Result<(Seq<char>, int), DecodeFailure> {
    match parse_span(d, p, "String"@) {
        Ok((b, q)) => if valid_utf8(b) {
            Ok((decode_utf8(b), q))
        } else {
            Err(DecodeFailure::BadUtf8)
        },
        Err(e) => Err(e),
    }
}

pub open spec fn parse_option_bytes(d: Seq<u8>, p: int) -> Result<
    (Option<Seq<u8>>, int),
    DecodeFailure,
> {
    if p >= d.len() {
        Err(DecodeFailure::Malformed("Incomplete option"@))
    } else if d[p] == 0 {
        Ok((None, p + 1))
    } else if d[p] == 1 {
        match parse_bytes(d, p + 1) {
            Ok((b, q)) => Ok((Some(b), q)),
            Err(e) => Err(e),
        }
    } else {
        Err(DecodeFailure::Malformed("Invalid option flag"@))
    }
}

pub open spec fn parse_column(d: Seq<u8>, p: int) -> Result<(ColumnDefView, int), DecodeFailure> {
    match parse_string(d, p) {
        Err(e) => Err(e),
        Ok((name, q)) => if q >= d.len() {
            Err(DecodeFailure::Malformed("Incomplete ColumnDef"@))
        } else {
            match DataType::from_tag(d[q]) {
                None => Err(DecodeFailure::DataType(d[q])),
                Some(t) => if q + 1 >= d.len() {
                    Err(DecodeFailure::Malformed("Incomplete ColumnDef"@))
                } else {
                    Ok((ColumnDefView { name, data_type: t, nullable: d[q + 1] != 0 }, q + 2))
                },
            }
        },
    }
}

/// The first `n` columns from position `p`.
pub open spec fn parse_columns(d: Seq<u8>, p: int, n: nat) -> Result<
    (Seq<ColumnDefView>, int),
    DecodeFailure,
>
    decreases n,
{
    if n == 0 {
        Ok((Seq::empty(), p))
    } else {
        match parse_columns(d, p, (n - 1) as nat) {
            Err(e) => Err(e),
            Ok((cs, q)) => match parse_column(d, q) {
                Err(e) => Err(e),
                Ok((c, r)) => Ok((cs.push(c), r)),
            },
        }
    }
}

/// The first `n` column indices from position `p`.
pub open spec fn parse_indices(d: Seq<u8>, p: int, n: nat) -> Result<
    (Seq<usize>, int),
    DecodeFailure,
>
    decreases n,
{
    if n == 0 {
        Ok((Seq::empty(), p))
    } else {
        match parse_indices(d, p, (n - 1) as nat) {
            Err(e) => Err(e),
            Ok((xs, q)) => match parse_usize(d, q) {
                Err(e) => Err(e),
                Ok((x, r)) => Ok((xs.push(x), r)),
            },
        }
    }
}

pub open spec fn parse_insert(d: Seq<u8>) -> Result<OperationView, DecodeFailure> {
    match parse_string(d, 1) {
        Err(e) => Err(e),
        Ok((table_name, p)) => match parse_i64(d, p) {
            Err(e) => Err(e),
            Ok((row_id, q)) => match parse_bytes(d, q) {
                Err(e) => Err(e),
                Ok((row_data, _r)) => Ok(OperationView::Insert { table_name, row_id, row_data }),
            },
        },
    }
}

pub open spec fn parse_update(d: Seq<u8>) -> Result<OperationView, DecodeFailure> {
    match parse_string(d, 1) {
        Err(e) => Err(e),
        Ok((table_name, p)) => match parse_i64(d, p) {
            Err(e) => Err(e),
            Ok((row_id, q)) => match parse_usize(d, q) {
                Err(e) => Err(e),
                Ok((column_index, r)) => match parse_option_bytes(d, r) {
                    Err(e) => Err(e),
                    Ok((old_value, s)) => match parse_bytes(d, s) {
                        Err(e) => Err(e),
                        Ok((new_value, _t)) => Ok(
                            OperationView::Update {
                                table_name,
                                row_id,
                                column_index,
                                old_value,
                                new_value,
                            },
                        ),
                    },
                },
            },
        },
    }
}

pub open spec fn parse_delete(d: Seq<u8>) -> Result<OperationView, DecodeFailure> {
    match parse_string(d, 1) {
        Err(e) => Err(e),
        Ok((table_name, p)) => match parse_i64(d, p) {
            Err(e) => Err(e),
            Ok((row_id, _q)) => Ok(OperationView::Delete { table_name, row_id }),
        },
    }
}

pub open spec fn parse_create_table(d: Seq<u8>) -> Result<OperationView, DecodeFailure> {
    match parse_string(d, 1) {
        Err(e) => Err(e),
        Ok((table_name, p)) => match parse_usize(d, p) {
            Err(e) => Err(e),
            Ok((n, q)) => match parse_columns(d, q, n as nat) {
                Err(e) => Err(e),
                Ok((schema, _r)) => Ok(OperationView::CreateTable { table_name, schema }),
            },
        },
    }
}

pub open spec fn parse_drop_table(d: Seq<u8>) -> Result<OperationView, DecodeFailure> {
    match parse_string(d, 1) {
        Err(e) => Err(e),
        Ok((table_name, _p)) => Ok(OperationView::DropTable { table_name }),
    }
}

pub open spec fn parse_create_index(d: Seq<u8>) -> Result<OperationView, DecodeFailure> {
    match parse_string(d, 1) {
        Err(e) => Err(e),
        Ok((table_name, p)) => match parse_string(d, p) {
            Err(e) => Err(e),
            Ok((index_name, q)) => if q >= d.len() {
                Err(DecodeFailure::Malformed("Incomplete CreateIndex"@))
            } else {
                match IndexType::from_tag(d[q]) {
                    None => Err(DecodeFailure::IndexType(d[q])),
                    Some(index_type) => match parse_usize(d, q + 1) {
                        Err(e) => Err(e),
                        Ok((n, r)) => match parse_indices(d, r, n as nat) {
                            Err(e) => Err(e),
                            Ok((columns, _s)) => Ok(
                                OperationView::CreateIndex {
                                    table_name,
                                    index_name,
                                    index_type,
                                    columns,
                                },
                            ),
                        },
                    },
                }
            },
        },
    }
}

pub open spec fn parse_drop_index(d: Seq<u8>) -> Result<OperationView, DecodeFailure> {
    match parse_string(d, 1) {
        Err(e) => Err(e),
        Ok((table_name, p)) => match parse_string(d, p) {
            Err(e) => Err(e),
            Ok((index_name, _q)) => Ok(OperationView::DropIndex { table_name, index_name }),
        },
    }
}

/// What decoding `d` yields: after the operation-type byte, the fields of
/// that operation in order; bytes after the last field are ignored.
pub open spec fn spec_decode(d: Seq<u8>) -> Result<OperationView, DecodeFailure> {
    if d.len() == 0 {
        Err(DecodeFailure::Malformed("Empty data"@))
    } else if d[0] == 0 {
        parse_insert(d)
    } else if d[0] == 1 {
        parse_update(d)
    } else if d[0] == 2 {
        parse_delete(d)
    } else if d[0] == 3 {
        parse_create_table(d)
    } else if d[0] == 4 {
        parse_drop_table(d)
    } else if d[0] == 5 {
        parse_create_index(d)
    } else if d[0] == 6 {
        parse_drop_index(d)
    } else {
        Err(DecodeFailure::OperationType(d[0]))
    }
}



// ---------------------------------------------------------------------------
// Encoding
// ---------------------------------------------------------------------------

/// Operation type byte identifiers.
enum OperationType {
    Insert,
    Update,
    Delete,
    CreateTable,
    DropTable,
    CreateIndex,
    DropIndex,
}

impl OperationType {
    spec fn tag(self) -> u8 {
        match self {
            OperationType::Insert => 0,
            OperationType::Update => 1,
            OperationType::Delete => 2,
            OperationType::CreateTable => 3,
            OperationType::DropTable => 4,
            OperationType::CreateIndex => 5,
            OperationType::DropIndex => 6,
        }
    }

    fn as_u8(self) -> (r: u8)
        ensures
            r == self.tag(),
    {
        match self {
            OperationType::Insert => 0,
            OperationType::Update => 1,
            OperationType::Delete => 2,
            OperationType::CreateTable => 3,
            OperationType::DropTable => 4,
            OperationType::CreateIndex => 5,
            OperationType::DropIndex => 6,
        }
    }

    fn from_u8(value: u8) -> (r: Option<OperationType>)
        ensures
            value <= 6 ==> (r matches Some(t) && t.tag() == value),
            value > 6 ==> r is None,
    {
        match value {
            0 => Some(OperationType::Insert),
            1 => Some(OperationType::Update),
            2 => Some(OperationType::Delete),
            3 => Some(OperationType::CreateTable),
            4 => Some(OperationType::DropTable),
            5 => Some(OperationType::CreateIndex),
            6 => Some(OperationType::DropIndex),
            _ => None,
        }
    }
}

fn encode_usize(buffer: &mut Vec<u8>, value: usize)
    ensures
        final(buffer)@ == old(buffer)@ + enc_len(value as nat),
{
    push_be64(buffer, value as u64);
}

fn encode_i64(buffer: &mut Vec<u8>, value: i64)
    ensures
        final(buffer)@ == old(buffer)@ + be64(value as u64),
{
    push_be64(buffer, value as u64);
}

fn encode_bytes(buffer: &mut Vec<u8>, bytes: &[u8])
    ensures
        final(buffer)@ == old(buffer)@ + enc_bytes(bytes@),
        bytes@.len() <= usize::MAX,
{
    encode_usize(buffer, bytes.len());
    push_all(buffer, bytes);
    assert(buffer@ =~= old(buffer)@ + enc_bytes(bytes@));
}

fn encode_string(buffer: &mut Vec<u8>, s: &str)
    ensures
        final(buffer)@ == old(buffer)@ + enc_string(s@),
        encode_utf8(s@).len() <= usize::MAX,
{
    let bytes = s.as_bytes();
    encode_bytes(buffer, bytes);
}

fn encode_option_bytes(buffer: &mut Vec<u8>, bytes: &Option<Vec<u8>>)
    ensures
        final(buffer)@ == old(buffer)@ + enc_option_bytes(option_bytes_view(*bytes)),
        option_bytes_view(*bytes) matches Some(b) ==> b.len() <= usize::MAX,
{
    match bytes {
        Some(b) => {
            buffer.push(1);
            encode_bytes(buffer, b.as_slice());
            assert(buffer@ =~= old(buffer)@ + (seq![1u8] + enc_bytes(b@)));
        },
        None => {
            buffer.push(0);
            assert(buffer@ =~= old(buffer)@ + seq![0u8]);
        },
    }
}

fn encode_columns(buffer: &mut Vec<u8>, cols: &Vec<ColumnDef>)
    ensures
        final(buffer)@ == old(buffer)@ + enc_len(cols@.len()) + enc_columns(
            columns_view(cols@),
        ),
        cols@.len() <= usize::MAX,
        forall|i: int|
            0 <= i < cols@.len() ==> #[trigger] encode_utf8(columns_view(cols@)[i].name).len()
                <= usize::MAX,
{
    encode_usize(buffer, cols.len());
    let ghost start = buffer@;
    let ghost cv = columns_view(cols@);
    let mut i: usize = 0;
    while i < cols.len()
        invariant
            i <= cols@.len(),
            cv == columns_view(cols@),
            buffer@ == start + enc_columns(cv.subrange(0, i as int)),
            forall|j: int| 0 <= j < i ==> #[trigger] encode_utf8(cv[j].name).len() <= usize::MAX,
        decreases cols@.len() - i,
    {
        let col = &cols[i];
        encode_string(buffer, col.name.as_str());
        buffer.push(col.data_type.as_u8());
        if col.nullable {
            buffer.push(1);
        } else {
            buffer.push(0);
        }
        proof {
            let sub = cv.subrange(0, i + 1);
            assert(sub.drop_last() =~= cv.subrange(0, i as int));
            assert(sub.last() == cols@[i as int]@);
        }
        assert(buffer@ =~= start + enc_columns(cv.subrange(0, i + 1)));
        i = i + 1;
    }
    assert(cv.subrange(0, cols@.len() as int) =~= cv);
    assert(buffer@ =~= old(buffer)@ + enc_len(cols@.len()) + enc_columns(cv));
}

fn encode_indices(buffer: &mut Vec<u8>, cols: &Vec<usize>)
    ensures
        final(buffer)@ == old(buffer)@ + enc_len(cols@.len()) + enc_indices(cols@),
        cols@.len() <= usize::MAX,
{
    encode_usize(buffer, cols.len());
    let ghost start = buffer@;
    let mut i: usize = 0;
    while i < cols.len()
        invariant
            i <= cols@.len(),
            buffer@ == start + enc_indices(cols@.subrange(0, i as int)),
        decreases cols@.len() - i,
    {
        encode_usize(buffer, cols[i]);
        proof {
            let sub = cols@.subrange(0, i + 1);
            assert(sub.drop_last() =~= cols@.subrange(0, i as int));
        }
        assert(buffer@ =~= start + enc_indices(cols@.subrange(0, i + 1)));
        i = i + 1;
    }
    assert(cols@.subrange(0, cols@.len() as int) =~= cols@);
    assert(buffer@ =~= old(buffer)@ + enc_len(cols@.len()) + enc_indices(cols@));
}

impl Operation {
    fn operation_type(&self) -> (r: OperationType)
        ensures
            r.tag() == self@.type_tag(),
    {
        match self {
            Operation::Insert { .. } => OperationType::Insert,
            Operation::Update { .. } => OperationType::Update,
            Operation::Delete { .. } => OperationType::Delete,
            Operation::CreateTable { .. } => OperationType::CreateTable,
            Operation::DropTable { .. } => OperationType::DropTable,
            Operation::CreateIndex { .. } => OperationType::CreateIndex,
            Operation::DropIndex { .. } => OperationType::DropIndex,
        }
    }

    /// Serializes the operation: its type byte, then its fields in order.
    pub fn encode(&self) -> (r: Vec<u8>)
        ensures
            r@ == spec_encode(self@),
            fits(self@),
    {
        let mut buffer: Vec<u8> = Vec::new();
        buffer.push(self.operation_type().as_u8());
        let ghost head = buffer@;
        match self {
            Operation::Insert { table_name, row_id, row_data } => {
                encode_string(&mut buffer, table_name.as_str());
                encode_i64(&mut buffer, *row_id);
                encode_bytes(&mut buffer, row_data.as_slice());
            },
            Operation::Update { table_name, row_id, column_index, old_value, new_value } => {
                encode_string(&mut buffer, table_name.as_str());
                encode_i64(&mut buffer, *row_id);
                encode_usize(&mut buffer, *column_index);
                encode_option_bytes(&mut buffer, old_value);
                encode_bytes(&mut buffer, new_value.as_slice());
            },
            Operation::Delete { table_name, row_id } => {
                encode_string(&mut buffer, table_name.as_str());
                encode_i64(&mut buffer, *row_id);
            },
            Operation::CreateTable { table_name, schema } => {
                encode_string(&mut buffer, table_name.as_str());
                encode_columns(&mut buffer, schema);
            },
            Operation::DropTable { table_name } => {
                encode_string(&mut buffer, table_name.as_str());
            },
            Operation::CreateIndex { table_name, index_name, index_type, columns } => {
                encode_string(&mut buffer, table_name.as_str());
                encode_string(&mut buffer, index_name.as_str());
                buffer.push(index_type.as_u8());
                encode_indices(&mut buffer, columns);
            },
            Operation::DropIndex { table_name, index_name } => {
                encode_string(&mut buffer, table_name.as_str());
                encode_string(&mut buffer, index_name.as_str());
            },
        }
        assert(buffer@ =~= spec_encode(self@));
        assert(buffer@.len() == buffer.len());
        buffer
    }
}


// ---------------------------------------------------------------------------
// Decoding
// ---------------------------------------------------------------------------

/// The message of a length that runs past the data (see `length_message`).
fn length_error_message(what: &str, len: usize, remaining: usize) -> (r: String)
    ensures
        r@ == length_message(what@, len as nat, remaining as nat),
{
    let mut m = String::from_str(what);
    m.append(" length ");
    m.append(u64_to_decimal(len as u64).as_str());
    m.append(" exceeds remaining data ");
    m.append(u64_to_decimal(remaining as u64).as_str());
    m
}

fn malformed(msg: &str) -> (e: OpError)
    ensures
        e matches OpError::DecodeError(s) && s@ == msg@,
{
    OpError::DecodeError(String::from_str(msg))
}

fn decode_word(data: &[u8], pos: usize, what: &str) -> (r: OpResult<(u64, usize)>)
    requires
        pos <= data@.len(),
    ensures
        match parse_word(data@, pos as int, what@) {
            Ok((v, q)) => r matches Ok((a, b)) && a == v && b == q,
            Err(f) => r matches Err(e) && e.reports(f),
        },
{
    if data.len() - pos < 8 {
        return Err(malformed(what));
    }
    Ok((read_be64(data, pos), pos + 8))
}

fn decode_usize(data: &[u8], pos: usize) -> (r: OpResult<(usize, usize)>)
    requires
        pos <= data@.len(),
    ensures
        match parse_usize(data@, pos as int) {
            Ok((v, q)) => r matches Ok((a, b)) && a == v && b == q,
            Err(f) => r matches Err(e) && e.reports(f),
        },
        r matches Ok((_, q)) ==> q <= data@.len(),
{
    let (v, q) = decode_word(data, pos, "Incomplete usize")?;
    Ok((v as usize, q))
}

fn decode_i64(data: &[u8], pos: usize) -> (r: OpResult<(i64, usize)>)
    requires
        pos <= data@.len(),
    ensures
        match parse_i64(data@, pos as int) {
            Ok((v, q)) => r matches Ok((a, b)) && a == v && b == q,
            Err(f) => r matches Err(e) && e.reports(f),
        },
        r matches Ok((_, q)) ==> q <= data@.len(),
{
    let (v, q) = decode_word(data, pos, "Incomplete i64")?;
    Ok((v as i64, q))
}

fn decode_bytes(data: &[u8], pos: usize) -> (r: OpResult<(Vec<u8>, usize)>)
    requires
        pos <= data@.len(),
    ensures
        match parse_bytes(data@, pos as int) {
            Ok((b, q)) => r matches Ok((v, p)) && v@ == b && p == q,
            Err(f) => r matches Err(e) && e.reports(f),
        },
        r matches Ok((_, q)) ==> q <= data@.len(),
{
    let (len, pos) = decode_usize(data, pos)?;
    if len > data.len() - pos {
        return Err(OpError::DecodeError(length_error_message("Bytes", len, data.len() - pos)));
    }
    Ok((copy_range(data, pos, len), pos + len))
}

fn decode_string(data: &[u8], pos: usize) -> (r: OpResult<(String, usize)>)
    requires
        pos <= data@.len(),
    ensures
        match parse_string(data@, pos as int) {
            Ok((s, q)) => r matches Ok((v, p)) && v@ == s && p == q,
            Err(f) => r matches Err(e) && e.reports(f),
        },
        r matches Ok((_, q)) ==> q <= data@.len(),
{
    let (len, pos) = decode_usize(data, pos)?;
    if len > data.len() - pos {
        return Err(OpError::DecodeError(length_error_message("String", len, data.len() - pos)));
    }
    let bytes = copy_range(data, pos, len);
    match string_from_utf8(bytes) {
        Ok(s) => Ok((s, pos + len)),
        Err(msg) => {
            let prefix = "Invalid UTF-8: ";
            let mut m = String::from_str(prefix);
            m.append(msg.as_str());
            assert(m@.subrange(0, prefix@.len() as int) =~= prefix@);
            Err(OpError::DecodeError(m))
        },
    }
}

fn decode_option_bytes(data: &[u8], pos: usize) -> (r: OpResult<(Option<Vec<u8>>, usize)>)
    requires
        pos <= data@.len(),
    ensures
        match parse_option_bytes(data@, pos as int) {
            Ok((b, q)) => r matches Ok((v, p)) && option_bytes_view(v) == b && p == q,
            Err(f) => r matches Err(e) && e.reports(f),
        },
        r matches Ok((_, q)) ==> q <= data@.len(),
{
    if pos >= data.len() {
        return Err(malformed("Incomplete option"));
    }
    if data[pos] == 0 {
        Ok((None, pos + 1))
    } else if data[pos] == 1 {
        let (bytes, new_pos) = decode_bytes(data, pos + 1)?;
        Ok((Some(bytes), new_pos))
    } else {
        Err(malformed("Invalid option flag"))
    }
}

fn decode_column(data: &[u8], pos: usize) -> (r: OpResult<(ColumnDef, usize)>)
    requires
        pos <= data@.len(),
    ensures
        match parse_column(data@, pos as int) {
            Ok((c, q)) => r matches Ok((v, p)) && v@ == c && p == q,
            Err(f) => r matches Err(e) && e.reports(f),
        },
        r matches Ok((_, q)) ==> q <= data@.len(),
{
    let (name, pos) = decode_string(data, pos)?;
    if pos >= data.len() {
        return Err(malformed("Incomplete ColumnDef"));
    }
    let data_type = match DataType::from_u8(data[pos]) {
        Some(t) => t,
        None => { return Err(OpError::InvalidDataType(data[pos])); },
    };
    let pos = pos + 1;
    if pos >= data.len() {
        return Err(malformed("Incomplete ColumnDef"));
    }
    let nullable = data[pos] != 0;
    Ok((ColumnDef { name, data_type, nullable }, pos + 1))
}

/// A failure among the first `i` columns is the failure among the first `n >= i`.
proof fn lemma_parse_columns_failure_persists(d: Seq<u8>, p: int, i: nat, n: nat)
    requires
        parse_columns(d, p, i) is Err,
        i <= n,
    ensures
        parse_columns(d, p, n) == parse_columns(d, p, i),
    decreases n - i,
{
    if i < n {
        lemma_parse_columns_failure_persists(d, p, i, (n - 1) as nat);
    }
}

/// A failure among the first `i` indices is the failure among the first `n >= i`.
proof fn lemma_parse_indices_failure_persists(d: Seq<u8>, p: int, i: nat, n: nat)
    requires
        parse_indices(d, p, i) is Err,
        i <= n,
    ensures
        parse_indices(d, p, n) == parse_indices(d, p, i),
    decreases n - i,
{
    if i < n {
        lemma_parse_indices_failure_persists(d, p, i, (n - 1) as nat);
    }
}

fn decode_columns(data: &[u8], pos: usize) -> (r: OpResult<(Vec<ColumnDef>, usize)>)
    requires
        pos <= data@.len(),
    ensures
        match parse_usize(data@, pos as int) {
            Err(f) => r matches Err(e) && e.reports(f),
            Ok((n, q)) => match parse_columns(data@, q, n as nat) {
                Ok((cs, t)) => r matches Ok((v, p)) && columns_view(v@) == cs && p == t,
                Err(f) => r matches Err(e) && e.reports(f),
            },
        },
        r matches Ok((_, q)) ==> q <= data@.len(),
{
    let (len, start) = decode_usize(data, pos)?;
    let mut vec: Vec<ColumnDef> = Vec::new();
    let mut cur = start;
    let mut i: usize = 0;
    assert(columns_view(vec@) =~= Seq::<ColumnDefView>::empty());
    while i < len
        invariant
            i <= len,
            cur <= data@.len(),
            parse_usize(data@, pos as int) == Ok::<(usize, int), DecodeFailure>(
                (len, start as int),
            ),
            parse_columns(data@, start as int, i as nat) == Ok::<
                (Seq<ColumnDefView>, int),
                DecodeFailure,
            >((columns_view(vec@), cur as int)),
        decreases len - i,
    {
        let ghost prev = parse_columns(data@, start as int, i as nat);
        assert(parse_columns(data@, start as int, (i + 1) as nat) == match prev {
            Err(e) => Err(e),
            Ok((cs, q)) => match parse_column(data@, q) {
                Err(e) => Err(e),
                Ok((c, r)) => Ok((cs.push(c), r)),
            },
        });
        let (item, new_pos) = match decode_column(data, cur) {
            Ok(x) => x,
            Err(e) => {
                proof {
                    lemma_parse_columns_failure_persists(
                        data@,
                        start as int,
                        (i + 1) as nat,
                        len as nat,
                    );
                }
                return Err(e);
            },
        };
        let ghost before = vec@;
        vec.push(item);
        assert(columns_view(vec@) =~= columns_view(before).push(item@));
        cur = new_pos;
        i = i + 1;
    }
    Ok((vec, cur))
}

fn decode_indices(data: &[u8], pos: usize) -> (r: OpResult<(Vec<usize>, usize)>)
    requires
        pos <= data@.len(),
    ensures
        match parse_usize(data@, pos as int) {
            Err(f) => r matches Err(e) && e.reports(f),
            Ok((n, q)) => match parse_indices(data@, q, n as nat) {
                Ok((xs, t)) => r matches Ok((v, p)) && v@ == xs && p == t,
                Err(f) => r matches Err(e) && e.reports(f),
            },
        },
        r matches Ok((_, q)) ==> q <= data@.len(),
{
    let (len, start) = decode_usize(data, pos)?;
    let mut vec: Vec<usize> = Vec::new();
    let mut cur = start;
    let mut i: usize = 0;
    while i < len
        invariant
            i <= len,
            cur <= data@.len(),
            parse_usize(data@, pos as int) == Ok::<(usize, int), DecodeFailure>(
                (len, start as int),
            ),
            parse_indices(data@, start as int, i as nat) == Ok::<(Seq<usize>, int), DecodeFailure>(
                (vec@, cur as int),
            ),
        decreases len - i,
    {
        let ghost prev = parse_indices(data@, start as int, i as nat);
        assert(parse_indices(data@, start as int, (i + 1) as nat) == match prev {
            Err(e) => Err(e),
            Ok((xs, q)) => match parse_usize(data@, q) {
                Err(e) => Err(e),
                Ok((x, r)) => Ok((xs.push(x), r)),
            },
        });
        let (item, new_pos) = match decode_usize(data, cur) {
            Ok(x) => x,
            Err(e) => {
                proof {
                    lemma_parse_indices_failure_persists(
                        data@,
                        start as int,
                        (i + 1) as nat,
                        len as nat,
                    );
                }
                return Err(e);
            },
        };
        vec.push(item);
        cur = new_pos;
        i = i + 1;
    }
    Ok((vec, cur))
}

impl Operation {
    /// Deserializes an operation.
    ///
    /// Succeeds exactly when `spec_decode` accepts the bytes, with the
    /// operation it describes; otherwise the error names the same failure.
    pub fn decode(data: &[u8]) -> (r: OpResult<Self>)
        ensures
            match spec_decode(data@) {
                Ok(v) => r matches Ok(op) && op@ == v,
                Err(f) => r matches Err(e) && e.reports(f),
            },
    {
        if data.len() == 0 {
            return Err(malformed("Empty data"));
        }
        let op_type = match OperationType::from_u8(data[0]) {
            Some(t) => t,
            None => { return Err(OpError::InvalidOperationType(data[0])); },
        };
        let pos: usize = 1;
        match op_type {
            OperationType::Insert => {
                let (table_name, pos) = decode_string(data, pos)?;
                let (row_id, pos) = decode_i64(data, pos)?;
                let (row_data, _pos) = decode_bytes(data, pos)?;
                Ok(Operation::Insert { table_name, row_id, row_data })
            },
            OperationType::Update => {
                let (table_name, pos) = decode_string(data, pos)?;
                let (row_id, pos) = decode_i64(data, pos)?;
                let (column_index, pos) = decode_usize(data, pos)?;
                let (old_value, pos) = decode_option_bytes(data, pos)?;
                let (new_value, _pos) = decode_bytes(data, pos)?;
                Ok(Operation::Update { table_name, row_id, column_index, old_value, new_value })
            },
            OperationType::Delete => {
                let (table_name, pos) = decode_string(data, pos)?;
                let (row_id, _pos) = decode_i64(data, pos)?;
                Ok(Operation::Delete { table_name, row_id })
            },
            OperationType::CreateTable => {
                let (table_name, pos) = decode_string(data, pos)?;
                let (schema, _pos) = decode_columns(data, pos)?;
                Ok(Operation::CreateTable { table_name, schema })
            },
            OperationType::DropTable => {
                let (table_name, _pos) = decode_string(data, pos)?;
                Ok(Operation::DropTable { table_name })
            },
            OperationType::CreateIndex => {
                let (table_name, pos) = decode_string(data, pos)?;
                let (index_name, pos) = decode_string(data, pos)?;
                if pos >= data.len() {
                    return Err(malformed("Incomplete CreateIndex"));
                }
                let index_type = match IndexType::from_u8(data[pos]) {
                    Some(t) => t,
                    None => { return Err(OpError::InvalidIndexType(data[pos])); },
                };
                let (columns, _pos) = decode_indices(data, pos + 1)?;
                Ok(Operation::CreateIndex { table_name, index_name, index_type, columns })
            },
            OperationType::DropIndex => {
                let (table_name, pos) = decode_string(data, pos)?;
                let (index_name, _pos) = decode_string(data, pos)?;
                Ok(Operation::DropIndex { table_name, index_name })
            },
        }
    }
}


// ---------------------------------------------------------------------------
// Decoding an encoding gives the operation back
// ---------------------------------------------------------------------------

/// Every length in the operation, and its whole encoding, fits in a
/// `usize`, as for any operation held in memory.
pub open spec fn fits(op: OperationView) -> bool {
    let fit_str = |s: Seq<char>| encode_utf8(s).len() <= usize::MAX;
    spec_encode(op).len() <= usize::MAX && match op {
        OperationView::Insert { table_name, row_data, .. } => fit_str(table_name) && row_data.len()
            <= usize::MAX,
        OperationView::Update { table_name, old_value, new_value, .. } => fit_str(table_name)
            && new_value.len() <= usize::MAX && (old_value matches Some(b) ==> b.len()
            <= usize::MAX),
        OperationView::Delete { table_name, .. } => fit_str(table_name),
        OperationView::CreateTable { table_name, schema } => fit_str(table_name) && schema.len()
            <= usize::MAX && forall|i: int|
            0 <= i < schema.len() ==> #[trigger] encode_utf8(schema[i].name).len() <= usize::MAX,
        OperationView::DropTable { table_name } => fit_str(table_name),
        OperationView::CreateIndex { table_name, index_name, columns, .. } => fit_str(table_name)
            && fit_str(index_name) && columns.len() <= usize::MAX,
        OperationView::DropIndex { table_name, index_name } => fit_str(table_name) && fit_str(
            index_name,
        ),
    }
}

proof fn lemma_parse_word_at(pre: Seq<u8>, x: u64, post: Seq<u8>, msg: Seq<char>)
    ensures
        parse_word(pre + be64(x) + post, pre.len() as int, msg) == Ok::<(u64, int), DecodeFailure>(
            (x, pre.len() as int + 8),
        ),
{
    lemma_be64_roundtrip(x);
    let d = pre + be64(x) + post;
    assert(d.subrange(pre.len() as int, pre.len() as int + 8) =~= be64(x));
}

proof fn lemma_parse_len_at(pre: Seq<u8>, n: nat, post: Seq<u8>)
    requires
        n <= usize::MAX,
    ensures
        parse_usize(pre + enc_len(n) + post, pre.len() as int) == Ok::<(usize, int), DecodeFailure>(
            (n as usize, pre.len() as int + 8),
        ),
{
    lemma_parse_word_at(pre, n as u64, post, "Incomplete usize"@);
}

proof fn lemma_parse_i64_at(pre: Seq<u8>, x: i64, post: Seq<u8>)
    ensures
        parse_i64(pre + be64(x as u64) + post, pre.len() as int) == Ok::<(i64, int), DecodeFailure>(
            (x, pre.len() as int + 8),
        ),
{
    lemma_parse_word_at(pre, x as u64, post, "Incomplete i64"@);
    assert((x as u64) as i64 == x) by (bit_vector);
}

proof fn lemma_parse_bytes_at(pre: Seq<u8>, b: Seq<u8>, post: Seq<u8>)
    requires
        b.len() <= usize::MAX,
        (pre + enc_bytes(b) + post).len() <= usize::MAX,
    ensures
        parse_bytes(pre + enc_bytes(b) + post, pre.len() as int) == Ok::<
            (Seq<u8>, int),
            DecodeFailure,
        >((b, pre.len() as int + 8 + b.len())),
{
    lemma_be64_roundtrip(b.len() as u64);
    let d = pre + enc_bytes(b) + post;
    assert(d =~= pre + enc_len(b.len()) + (b + post));
    lemma_parse_len_at(pre, b.len(), b + post);
    assert(d.subrange(pre.len() as int + 8, pre.len() as int + 8 + b.len()) =~= b);
}

proof fn lemma_parse_string_at(pre: Seq<u8>, s: Seq<char>, post: Seq<u8>)
    requires
        encode_utf8(s).len() <= usize::MAX,
        (pre + enc_string(s) + post).len() <= usize::MAX,
    ensures
        parse_string(pre + enc_string(s) + post, pre.len() as int) == Ok::<
            (Seq<char>, int),
            DecodeFailure,
        >((s, pre.len() as int + enc_string(s).len())),
{
    lemma_be64_roundtrip(encode_utf8(s).len() as u64);
    lemma_parse_bytes_at(pre, encode_utf8(s), post);
    encode_utf8_valid_utf8(s);
    encode_utf8_decode_utf8(s);
}

proof fn lemma_parse_option_bytes_at(pre: Seq<u8>, o: Option<Seq<u8>>, post: Seq<u8>)
    requires
        o matches Some(b) ==> b.len() <= usize::MAX,
        (pre + enc_option_bytes(o) + post).len() <= usize::MAX,
    ensures
        parse_option_bytes(pre + enc_option_bytes(o) + post, pre.len() as int) == Ok::<
            (Option<Seq<u8>>, int),
            DecodeFailure,
        >((o, pre.len() as int + enc_option_bytes(o).len())),
{
    let d = pre + enc_option_bytes(o) + post;
    match o {
        Some(b) => {
            lemma_be64_roundtrip(b.len() as u64);
            assert(d =~= (pre + seq![1u8]) + enc_bytes(b) + post);
            lemma_parse_bytes_at(pre + seq![1u8], b, post);
            assert(d[pre.len() as int] == 1u8);
        },
        None => {
            assert(d[pre.len() as int] == 0u8);
        },
    }
}

proof fn lemma_parse_column_at(pre: Seq<u8>, c: ColumnDefView, post: Seq<u8>)
    requires
        encode_utf8(c.name).len() <= usize::MAX,
        (pre + enc_column(c) + post).len() <= usize::MAX,
    ensures
        parse_column(pre + enc_column(c) + post, pre.len() as int) == Ok::<
            (ColumnDefView, int),
            DecodeFailure,
        >((c, pre.len() as int + enc_column(c).len())),
{
    let d = pre + enc_column(c) + post;
    let tail = seq![c.data_type.tag(), bool_byte(c.nullable)];
    assert(d =~= pre + enc_string(c.name) + (tail + post));
    lemma_parse_string_at(pre, c.name, tail + post);
    let q = pre.len() as int + enc_string(c.name).len();
    assert(d[q] == c.data_type.tag());
    assert(d[q + 1] == bool_byte(c.nullable));
    lemma_data_type_tag_roundtrip(c.data_type, 0);
}

proof fn lemma_parse_columns_at(pre: Seq<u8>, cs: Seq<ColumnDefView>, post: Seq<u8>)
    requires
        forall|i: int| 0 <= i < cs.len() ==> #[trigger] encode_utf8(cs[i].name).len() <= usize::MAX,
        (pre + enc_columns(cs) + post).len() <= usize::MAX,
    ensures
        parse_columns(pre + enc_columns(cs) + post, pre.len() as int, cs.len()) == Ok::<
            (Seq<ColumnDefView>, int),
            DecodeFailure,
        >((cs, pre.len() as int + enc_columns(cs).len())),
    decreases cs.len(),
{
    if cs.len() > 0 {
        let init = cs.drop_last();
        let c = cs.last();
        let d = pre + enc_columns(cs) + post;
        assert(d =~= pre + enc_columns(init) + (enc_column(c) + post));
        assert forall|i: int| 0 <= i < init.len() implies #[trigger] encode_utf8(init[i].name).len()
            <= usize::MAX by {
            assert(init[i] == cs[i]);
        }
        lemma_parse_columns_at(pre, init, enc_column(c) + post);
        assert(d =~= (pre + enc_columns(init)) + enc_column(c) + post);
        assert(encode_utf8(cs[cs.len() - 1].name).len() <= usize::MAX);
        lemma_parse_column_at(pre + enc_columns(init), c, post);
        assert(init.push(c) =~= cs);
    } else {
        assert(cs =~= Seq::<ColumnDefView>::empty());
    }
}

proof fn lemma_parse_indices_at(pre: Seq<u8>, xs: Seq<usize>, post: Seq<u8>)
    ensures
        parse_indices(pre + enc_indices(xs) + post, pre.len() as int, xs.len()) == Ok::<
            (Seq<usize>, int),
            DecodeFailure,
        >((xs, pre.len() as int + enc_indices(xs).len())),
    decreases xs.len(),
{
    if xs.len() > 0 {
        let init = xs.drop_last();
        let x = xs.last();
        let d = pre + enc_indices(xs) + post;
        lemma_be64_roundtrip(x as u64);
        assert(d =~= pre + enc_indices(init) + (enc_len(x as nat) + post));
        lemma_parse_indices_at(pre, init, enc_len(x as nat) + post);
        assert(d =~= (pre + enc_indices(init)) + enc_len(x as nat) + post);
        lemma_parse_len_at(pre + enc_indices(init), x as nat, post);
        assert(init.push(x) =~= xs);
    } else {
        assert(xs =~= Seq::<usize>::empty());
    }
}

proof fn lemma_decode_encode_insert(op: OperationView)
    requires
        fits(op),
        op is Insert,
    ensures
        parse_insert(spec_encode(op)) == Ok::<OperationView, DecodeFailure>(op),
{
    let d = spec_encode(op);
    let t = seq![op.type_tag()];
    let e = Seq::<u8>::empty();
    match op {
        OperationView::Insert { table_name, row_id, row_data } => {
            let a = enc_string(table_name);
            let b = be64(row_id as u64);
            let c = enc_bytes(row_data);
            lemma_be64_roundtrip(row_id as u64);
            lemma_be64_roundtrip(row_data.len() as u64);
            assert(d =~= t + a + (b + c));
            lemma_parse_string_at(t, table_name, b + c);
            assert(d =~= (t + a) + b + c);
            lemma_parse_i64_at(t + a, row_id, c);
            assert(d =~= (t + a + b) + c + e);
            lemma_parse_bytes_at(t + a + b, row_data, e);
        },
        _ => {},
    }
}

proof fn lemma_decode_encode_update(op: OperationView)
    requires
        fits(op),
        op is Update,
    ensures
        parse_update(spec_encode(op)) == Ok::<OperationView, DecodeFailure>(op),
{
    let d = spec_encode(op);
    let t = seq![op.type_tag()];
    let e = Seq::<u8>::empty();
    match op {
        OperationView::Update { table_name, row_id, column_index, old_value, new_value } => {
            let a = enc_string(table_name);
            let b = be64(row_id as u64);
            let c = enc_len(column_index as nat);
            let o = enc_option_bytes(old_value);
            let n = enc_bytes(new_value);
            lemma_be64_roundtrip(row_id as u64);
            lemma_be64_roundtrip(column_index as u64);
            assert(d =~= t + a + (b + c + o + n));
            lemma_parse_string_at(t, table_name, b + c + o + n);
            assert(d =~= (t + a) + b + (c + o + n));
            lemma_parse_i64_at(t + a, row_id, c + o + n);
            assert(d =~= (t + a + b) + c + (o + n));
            lemma_parse_len_at(t + a + b, column_index as nat, o + n);
            assert(d =~= (t + a + b + c) + o + n);
            lemma_parse_option_bytes_at(t + a + b + c, old_value, n);
            assert(d =~= (t + a + b + c + o) + n + e);
            lemma_parse_bytes_at(t + a + b + c + o, new_value, e);
        },
        _ => {},
    }
}

proof fn lemma_decode_encode_delete(op: OperationView)
    requires
        fits(op),
        op is Delete,
    ensures
        parse_delete(spec_encode(op)) == Ok::<OperationView, DecodeFailure>(op),
{
    let d = spec_encode(op);
    let t = seq![op.type_tag()];
    let e = Seq::<u8>::empty();
    match op {
        OperationView::Delete { table_name, row_id } => {
            let a = enc_string(table_name);
            let b = be64(row_id as u64);
            lemma_be64_roundtrip(row_id as u64);
            assert(d =~= t + a + b);
            lemma_parse_string_at(t, table_name, b);
            assert(d =~= (t + a) + b + e);
            lemma_parse_i64_at(t + a, row_id, e);
        },
        _ => {},
    }
}

proof fn lemma_decode_encode_create_table(op: OperationView)
    requires
        fits(op),
        op is CreateTable,
    ensures
        parse_create_table(spec_encode(op)) == Ok::<OperationView, DecodeFailure>(op),
{
    let d = spec_encode(op);
    let t = seq![op.type_tag()];
    let e = Seq::<u8>::empty();
    match op {
        OperationView::CreateTable { table_name, schema } => {
            let a = enc_string(table_name);
            let b = enc_len(schema.len());
            let c = enc_columns(schema);
            lemma_be64_roundtrip(schema.len() as u64);
            assert(d =~= t + a + (b + c));
            lemma_parse_string_at(t, table_name, b + c);
            assert(d =~= (t + a) + b + c);
            lemma_parse_len_at(t + a, schema.len(), c);
            assert(d =~= (t + a + b) + c + e);
            lemma_parse_columns_at(t + a + b, schema, e);
            assert((schema.len() as usize) as nat == schema.len());
        },
        _ => {},
    }
}

proof fn lemma_decode_encode_drop_table(op: OperationView)
    requires
        fits(op),
        op is DropTable,
    ensures
        parse_drop_table(spec_encode(op)) == Ok::<OperationView, DecodeFailure>(op),
{
    let d = spec_encode(op);
    let t = seq![op.type_tag()];
    let e = Seq::<u8>::empty();
    match op {
        OperationView::DropTable { table_name } => {
            let a = enc_string(table_name);
            assert(d =~= t + a + e);
            lemma_parse_string_at(t, table_name, e);
        },
        _ => {},
    }
}

proof fn lemma_decode_encode_create_index(op: OperationView)
    requires
        fits(op),
        op is CreateIndex,
    ensures
        parse_create_index(spec_encode(op)) == Ok::<OperationView, DecodeFailure>(op),
{
    let d = spec_encode(op);
    let t = seq![op.type_tag()];
    let e = Seq::<u8>::empty();
    match op {
        OperationView::CreateIndex { table_name, index_name, index_type, columns } => {
            let a = enc_string(table_name);
            let b = enc_string(index_name);
            let k = seq![index_type.tag()];
            let c = enc_len(columns.len());
            let x = enc_indices(columns);
            lemma_be64_roundtrip(columns.len() as u64);
            assert(d =~= t + a + (b + k + c + x));
            lemma_parse_string_at(t, table_name, b + k + c + x);
            assert(d =~= (t + a) + b + (k + c + x));
            lemma_parse_string_at(t + a, index_name, k + c + x);
            let q = (t + a + b).len() as int;
            assert(d[q] == index_type.tag());
            lemma_index_type_tag_roundtrip(index_type, 0);
            assert(d =~= (t + a + b + k) + c + x);
            lemma_parse_len_at(t + a + b + k, columns.len(), x);
            assert(d =~= (t + a + b + k + c) + x + e);
            lemma_parse_indices_at(t + a + b + k + c, columns, e);
            assert((columns.len() as usize) as nat == columns.len());
        },
        _ => {},
    }
}

proof fn lemma_decode_encode_drop_index(op: OperationView)
    requires
        fits(op),
        op is DropIndex,
    ensures
        parse_drop_index(spec_encode(op)) == Ok::<OperationView, DecodeFailure>(op),
{
    let d = spec_encode(op);
    let t = seq![op.type_tag()];
    let e = Seq::<u8>::empty();
    match op {
        OperationView::DropIndex { table_name, index_name } => {
            let a = enc_string(table_name);
            let b = enc_string(index_name);
            assert(d =~= t + a + b);
            lemma_parse_string_at(t, table_name, b);
            assert(d =~= (t + a) + b + e);
            lemma_parse_string_at(t + a, index_name, e);
        },
        _ => {},
    }
}

/// Decoding the encoding of an operation gives the operation back.
pub proof fn lemma_decode_encode(op: OperationView)
    requires
        fits(op),
    ensures
        spec_decode(spec_encode(op)) == Ok::<OperationView, DecodeFailure>(op),
{
    let d = spec_encode(op);
    assert(d[0] == op.type_tag());
    match op {
        OperationView::Insert { .. } => lemma_decode_encode_insert(op),
        OperationView::Update { .. } => lemma_decode_encode_update(op),
        OperationView::Delete { .. } => lemma_decode_encode_delete(op),
        OperationView::CreateTable { .. } => lemma_decode_encode_create_table(op),
        OperationView::DropTable { .. } => lemma_decode_encode_drop_table(op),
        OperationView::CreateIndex { .. } => lemma_decode_encode_create_index(op),
        OperationView::DropIndex { .. } => lemma_decode_encode_drop_index(op),
    }
}


// ---------------------------------------------------------------------------
// Content hash
// ---------------------------------------------------------------------------

/// The hash of an operation: slot 0 starts at the operation-type byte, the
/// encoding is XOR-folded into the 32 slots, then slot `i` becomes
/// `(slot + i) * 31`, both steps modulo 256.
pub open spec fn spec_hash(op: OperationView) -> Seq<u8> {
    let init = Seq::new(32, |i: int| if i == 0 { op.type_tag() } else { 0u8 });
    let folded = xor_at(init, spec_encode(op), 0);
    Seq::new(32, |i: int| ((((folded[i] + i) % 256) * 31) % 256) as u8)
}

impl Operation {
    /// The content hash of this operation (see `spec_hash`).
    pub fn hash(&self) -> (r: [u8; 32])
        ensures
            r@ == spec_hash(self@),
    {
        let mut result: [u8; 32] = [0u8; 32];
        let op_type_byte = self.operation_type().as_u8();
        result[0] = result[0].wrapping_add(op_type_byte);
        let ghost init = result@;
        assert(init =~= Seq::new(32, |i: int| if i == 0 { self@.type_tag() } else { 0u8 }));

        let encoded = self.encode();
        xor_bytes_into(&mut result, encoded.as_slice(), 0);
        proof { lemma_xor_at_len(init, encoded@, 0); }
        let ghost folded = result@;

        let mut k: usize = 0;
        while k < 32
            invariant
                k <= 32,
                folded.len() == 32,
                result@.len() == 32,
                forall|j: int| k <= j < 32 ==> result@[j] == folded[j],
                forall|j: int|
                    0 <= j < k ==> result@[j] == ((((folded[j] + j) % 256) * 31) % 256) as u8,
            decreases 32 - k,
        {
            result[k] = result[k].wrapping_add(k as u8).wrapping_mul(31);
            k = k + 1;
        }
        assert(result@ =~= spec_hash(self@));
        result
    }
}

} // verus!

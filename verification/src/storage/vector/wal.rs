//! Write-ahead-log records of the vector store. Embedding components are
//! 32-bit floats, carried by their bit patterns.

use vstd::prelude::*;
use vstd::utf8::encode_utf8;
use crate::codec::{
    from_le32, from_le64, le32, le32_words, le64, le64_words, lemma_le_roundtrips, push_all,
    push_le32, push_le32_words, push_le64, push_le64_words, read_le32, read_le32_words, read_le64,
};
use crate::error::{Error, Result};
use vstd::string::StringExecFns;

verus! {

/// Kinds of log records written by the vector store.
#[derive(Debug, Clone, Copy, PartialEq, Eq)]
pub enum WALOperationType {
    VectorInsert,
    VectorUpdate,
    VectorDelete,
    SegmentCreate,
    SegmentMerge,
    IndexBuild,
    CompactionStart,
    CompactionFinish,
}

/// A write-ahead-log record.
#[derive(Debug, Clone)]
pub struct WALEntry {
    /// Transaction that wrote the record
    pub txn_id: i64,
    /// Table the record belongs to
    pub table_name: String,
    /// Row (vector) the record is about; 0 for segment-level records
    pub row_id: i64,
    /// Kind of record
    pub operation: WALOperationType,
    /// Encoded details
    pub data: Vec<u8>,
}

impl WALEntry {
    /// A record with the given fields.
    pub fn new(
        txn_id: i64,
        table_name: String,
        row_id: i64,
        operation: WALOperationType,
        data: Vec<u8>,
    ) -> (r: Self)
        ensures
            r.txn_id == txn_id,
            r.table_name == table_name,
            r.row_id == row_id,
            r.operation == operation,
            r.data == data,
    {
        WALEntry { txn_id, table_name, row_id, operation, data }
    }
}

/// Details of a vector insert, update or delete.
#[derive(Debug, Clone)]
pub struct VectorWalData {
    /// Segment ID where the vector is stored
    pub segment_id: u64,
    /// Vector dimension
    pub dimension: usize,
    /// The embedding's components as bit patterns (for insert and update)
    pub embedding: Option<Vec<u32>>,
}

/// The encoding of vector details: segment ID, dimension (low 32 bits),
/// number of components (low 32 bits, zero without an embedding), then
/// the components.
pub open spec fn wal_data_bytes(segment_id: u64, dimension: usize, embedding: Option<Seq<u32>>) -> Seq<u8> {
    le64(segment_id) + le32(dimension as u32) + match embedding {
        Some(e) => le32(e.len() as u32) + le32_words(e),
        None => le32(0),
    }
}

/// The components of an optional embedding.
pub open spec fn embedding_view(e: Option<Vec<u32>>) -> Option<Seq<u32>> {
    match e {
        Some(v) => Some(v@),
        None => None,
    }
}

/// The number of components recorded in encoded details.
pub open spec fn recorded_len(b: Seq<u8>) -> int {
    from_le32(b.subrange(12, 16)) as int
}

/// Encoded details can be read without running past their end: they are
/// shorter than the fixed header (and rejected), or they hold the
/// component count and every component it announces.
pub open spec fn wal_data_readable(b: Seq<u8>) -> bool {
    b.len() < 12 || (b.len() >= 16 && 16 + 4 * recorded_len(b) <= b.len())
}

impl VectorWalData {
    /// Encodes the details (see `wal_data_bytes`).
    pub fn serialize(&self) -> (r: Vec<u8>)
        ensures
            r@ == wal_data_bytes(self.segment_id, self.dimension, embedding_view(self.embedding)),
    {
        let mut data: Vec<u8> = Vec::new();
        push_le64(&mut data, self.segment_id);
        push_le32(&mut data, self.dimension as u32);
        match &self.embedding {
            Some(emb) => {
                push_le32(&mut data, emb.len() as u32);
                push_le32_words(&mut data, emb.as_slice());
            },
            None => {
                push_le32(&mut data, 0);
            },
        }
        assert(data@ =~= wal_data_bytes(self.segment_id, self.dimension, embedding_view(self.embedding)));
        data
    }

    /// Decodes details; fails with a parse error when there are fewer
    /// than twelve bytes. A component count of zero gives no embedding.
    pub fn deserialize(data: &[u8]) -> (r: Result<Self>)
        requires
            wal_data_readable(data@),
        ensures
            if data@.len() < 12 {
                r matches Err(Error::Parse(m)) && m@ == "vector WAL data too short"@
            } else {
                &&& r matches Ok(d)
                &&& r->Ok_0.segment_id == from_le64(data@.subrange(0, 8))
                &&& r->Ok_0.dimension == from_le32(data@.subrange(8, 12)) as usize
                &&& if recorded_len(data@) > 0 {
                    r->Ok_0.embedding matches Some(e) && e@.len() == recorded_len(data@)
                        && le32_words(e@) == data@.subrange(16, 16 + 4 * recorded_len(data@))
                } else {
                    r->Ok_0.embedding is None
                }
            },
    {
        if data.len() < 12 {
            return Err(Error::Parse(String::from_str("vector WAL data too short")));
        }
        let segment_id = read_le64(data, 0);
        let dimension = read_le32(data, 8) as usize;
        let embedding_len = read_le32(data, 12) as usize;
        let embedding = if embedding_len > 0 {
            Some(read_le32_words(data, 16, embedding_len))
        } else {
            None
        };
        Ok(VectorWalData { segment_id, dimension, embedding })
    }
}

/// Reading back encoded details gives the details, when the dimension and
/// the number of components fit in 32 bits and an embedding, if any, is
/// not empty.
pub proof fn lemma_wal_data_roundtrip(segment_id: u64, dimension: usize, embedding: Option<Seq<u32>>)
    requires
        dimension <= u32::MAX,
        embedding matches Some(e) ==> 0 < e.len() <= u32::MAX,
    ensures
        ({
            let b = wal_data_bytes(segment_id, dimension, embedding);
            &&& wal_data_readable(b)
            &&& b.len() >= 12
            &&& from_le64(b.subrange(0, 8)) == segment_id
            &&& from_le32(b.subrange(8, 12)) as usize == dimension
            &&& match embedding {
                Some(e) => recorded_len(b) == e.len() && b.subrange(16, 16 + 4 * recorded_len(b))
                    == le32_words(e),
                None => recorded_len(b) == 0,
            }
        }),
{
    let b = wal_data_bytes(segment_id, dimension, embedding);
    lemma_le_roundtrips(segment_id, dimension as u32, 0);
    match embedding {
        Some(e) => {
            lemma_le_roundtrips(0, e.len() as u32, 0);
            lemma_le32_words_len(e);
            assert(b.subrange(0, 8) =~= le64(segment_id));
            assert(b.subrange(8, 12) =~= le32(dimension as u32));
            assert(b.subrange(12, 16) =~= le32(e.len() as u32));
            assert(b.subrange(16, 16 + 4 * e.len() as int) =~= le32_words(e));
        },
        None => {
            lemma_le_roundtrips(0, 0, 0);
            assert(b.subrange(0, 8) =~= le64(segment_id));
            assert(b.subrange(8, 12) =~= le32(dimension as u32));
            assert(b.subrange(12, 16) =~= le32(0));
        },
    }
}

/// Four bytes per word.
pub proof fn lemma_le32_words_len(ws: Seq<u32>)
    ensures
        le32_words(ws).len() == 4 * ws.len(),
    decreases ws.len(),
{
    if ws.len() > 0 {
        lemma_le32_words_len(ws.drop_last());
        lemma_le_roundtrips(0, ws.last(), 0);
    }
}

/// The log record of a vector insert.
pub fn vector_insert_entry(
    txn_id: i64,
    table_name: &str,
    vector_id: i64,
    segment_id: u64,
    dimension: usize,
    embedding: &[u32],
) -> (r: WALEntry)
    ensures
        r.txn_id == txn_id,
        r.table_name@ == table_name@,
        r.row_id == vector_id,
        r.operation == WALOperationType::VectorInsert,
        r.data@ == wal_data_bytes(segment_id, dimension, Some(embedding@)),
{
    let mut emb: Vec<u32> = Vec::new();
    let mut i: usize = 0;
    while i < embedding.len()
        invariant
            i <= embedding@.len(),
            emb@ == embedding@.subrange(0, i as int),
        decreases embedding@.len() - i,
    {
        emb.push(embedding[i]);
        i = i + 1;
    }
    assert(emb@ =~= embedding@);
    let wal_data = VectorWalData { segment_id, dimension, embedding: Some(emb) };
    WALEntry::new(
        txn_id,
        table_name.to_string(),
        vector_id,
        WALOperationType::VectorInsert,
        wal_data.serialize(),
    )
}

/// The log record of a vector update.
pub fn vector_update_entry(
    txn_id: i64,
    table_name: &str,
    vector_id: i64,
    segment_id: u64,
    dimension: usize,
    embedding: &[u32],
) -> (r: WALEntry)
    ensures
        r.txn_id == txn_id,
        r.table_name@ == table_name@,
        r.row_id == vector_id,
        r.operation == WALOperationType::VectorUpdate,
        r.data@ == wal_data_bytes(segment_id, dimension, Some(embedding@)),
{
    let inserted = vector_insert_entry(txn_id, table_name, vector_id, segment_id, dimension, embedding);
    WALEntry::new(txn_id, inserted.table_name, vector_id, WALOperationType::VectorUpdate, inserted.data)
}

/// The log record of a vector delete.
pub fn vector_delete_entry(
    txn_id: i64,
    table_name: &str,
    vector_id: i64,
    segment_id: u64,
    dimension: usize,
) -> (r: WALEntry)
    ensures
        r.txn_id == txn_id,
        r.table_name@ == table_name@,
        r.row_id == vector_id,
        r.operation == WALOperationType::VectorDelete,
        r.data@ == wal_data_bytes(segment_id, dimension, None),
{
    let wal_data = VectorWalData { segment_id, dimension, embedding: None };
    WALEntry::new(
        txn_id,
        table_name.to_string(),
        vector_id,
        WALOperationType::VectorDelete,
        wal_data.serialize(),
    )
}

/// The log record of a segment creation: segment ID, then dimension and
/// capacity (low 32 bits each).
pub fn segment_create_entry(
    txn_id: i64,
    table_name: &str,
    segment_id: u64,
    dimension: usize,
    capacity: usize,
) -> (r: WALEntry)
    ensures
        r.txn_id == txn_id,
        r.table_name@ == table_name@,
        r.row_id == 0,
        r.operation == WALOperationType::SegmentCreate,
        r.data@ == le64(segment_id) + le32(dimension as u32) + le32(capacity as u32),
{
    let mut data: Vec<u8> = Vec::new();
    push_le64(&mut data, segment_id);
    push_le32(&mut data, dimension as u32);
    push_le32(&mut data, capacity as u32);
    WALEntry::new(txn_id, table_name.to_string(), 0, WALOperationType::SegmentCreate, data)
}

/// The log record of a segment merge: number of sources (low 32 bits),
/// target segment ID, then each source ID.
pub fn segment_merge_entry(
    txn_id: i64,
    table_name: &str,
    source_segments: &[u64],
    target_segment_id: u64,
) -> (r: WALEntry)
    ensures
        r.txn_id == txn_id,
        r.table_name@ == table_name@,
        r.row_id == 0,
        r.operation == WALOperationType::SegmentMerge,
        r.data@ == le32(source_segments@.len() as u32) + le64(target_segment_id) + le64_words(
            source_segments@,
        ),
{
    let mut data: Vec<u8> = Vec::new();
    push_le32(&mut data, source_segments.len() as u32);
    push_le64(&mut data, target_segment_id);
    push_le64_words(&mut data, source_segments);
    WALEntry::new(txn_id, table_name.to_string(), 0, WALOperationType::SegmentMerge, data)
}

/// The log record of an index build: segment ID, then the index type's
/// UTF-8 bytes.
pub fn index_build_entry(txn_id: i64, table_name: &str, segment_id: u64, index_type: &str) -> (r:
    WALEntry)
    ensures
        r.txn_id == txn_id,
        r.table_name@ == table_name@,
        r.row_id == 0,
        r.operation == WALOperationType::IndexBuild,
        r.data@ == le64(segment_id) + encode_utf8(index_type@),
{
    let mut data: Vec<u8> = Vec::new();
    push_le64(&mut data, segment_id);
    push_all(&mut data, index_type.as_bytes());
    WALEntry::new(txn_id, table_name.to_string(), 0, WALOperationType::IndexBuild, data)
}

/// The log record of a compaction start: number of segments (low 32
/// bits), then each segment ID.
pub fn compaction_start_entry(txn_id: i64, table_name: &str, segments: &[u64]) -> (r: WALEntry)
    ensures
        r.txn_id == txn_id,
        r.table_name@ == table_name@,
        r.row_id == 0,
        r.operation == WALOperationType::CompactionStart,
        r.data@ == le32(segments@.len() as u32) + le64_words(segments@),
{
    let mut data: Vec<u8> = Vec::new();
    push_le32(&mut data, segments.len() as u32);
    push_le64_words(&mut data, segments);
    WALEntry::new(txn_id, table_name.to_string(), 0, WALOperationType::CompactionStart, data)
}

/// The log record of a compaction finish: number of old segments (low 32
/// bits), the new segment ID, then each old segment ID.
pub fn compaction_finish_entry(
    txn_id: i64,
    table_name: &str,
    old_segments: &[u64],
    new_segment_id: u64,
) -> (r: WALEntry)
    ensures
        r.txn_id == txn_id,
        r.table_name@ == table_name@,
        r.row_id == 0,
        r.operation == WALOperationType::CompactionFinish,
        r.data@ == le32(old_segments@.len() as u32) + le64(new_segment_id) + le64_words(
            old_segments@,
        ),
{
    let mut data: Vec<u8> = Vec::new();
    push_le32(&mut data, old_segments.len() as u32);
    push_le64(&mut data, new_segment_id);
    push_le64_words(&mut data, old_segments);
    WALEntry::new(txn_id, table_name.to_string(), 0, WALOperationType::CompactionFinish, data)
}

} // verus!

//! Records of the vector store's own write-ahead log.
//!
//! A record is: operation code (2 ASCII bytes: `VI` insert, `VD` delete,
//! `SF` segment flush), table-name length (2 bytes, little-endian), table
//! name (UTF-8), payload length (4 bytes) and payload. An insert payload is
//! vector ID, segment ID, component count and components (bit patterns of
//! 32-bit floats); a delete payload is vector ID and segment ID; a flush
//! payload is the segment ID.

use vstd::prelude::*;
use vstd::utf8::{decode_utf8, encode_utf8, valid_utf8};
use vstd::string::StringExecFns;
use crate::codec::{
    copy_range, from_le16, from_le32, from_le64, le16, le32, le32_words, le64, lemma_le_roundtrips,
    push_all, push_le16, push_le32, push_le32_words, push_le64, read_le16, read_le32,
    read_le32_words, read_le64,
};
use crate::error::{Error, Result};
use crate::storage::vector::wal::lemma_le32_words_len;
use crate::text::string_from_utf8;

verus! {

broadcast use vstd::utf8::encode_utf8_valid_utf8, vstd::utf8::encode_utf8_decode_utf8;

/// Kind of vector log record.
#[derive(Debug, Clone, Copy, PartialEq, Eq)]
pub enum VectorWalOp {
    Insert,
    Delete,
    SegmentFlush,
}

/// The two-byte code of an operation: `VI`, `VD` or `SF`.
pub open spec fn op_code(op: VectorWalOp) -> Seq<u8> {
    match op {
        VectorWalOp::Insert => seq![0x56u8, 0x49u8],
        VectorWalOp::Delete => seq![0x56u8, 0x44u8],
        VectorWalOp::SegmentFlush => seq![0x53u8, 0x46u8],
    }
}

/// The operation a two-byte code stands for, if any.
pub open spec fn op_of_code(a: u8, b: u8) -> Option<VectorWalOp> {
    if a == 0x56 && b == 0x49 {
        Some(VectorWalOp::Insert)
    } else if a == 0x56 && b == 0x44 {
        Some(VectorWalOp::Delete)
    } else if a == 0x53 && b == 0x46 {
        Some(VectorWalOp::SegmentFlush)
    } else {
        None
    }
}

/// A parsed vector log record.
#[derive(Debug)]
pub struct VectorWalEntry {
    pub operation: VectorWalOp,
    pub table_name: String,
    pub vector_id: Option<i64>,
    pub segment_id: Option<u64>,
    /// Components as bit patterns (inserts only)
    pub embedding: Option<Vec<u32>>,
}

/// The contents of a parsed record.
pub struct VectorWalEntryView {
    pub operation: VectorWalOp,
    pub table_name: Seq<char>,
    pub vector_id: Option<i64>,
    pub segment_id: Option<u64>,
    pub embedding: Option<Seq<u32>>,
}

impl View for VectorWalEntry {
    type V = VectorWalEntryView;

    open spec fn view(&self) -> VectorWalEntryView {
        VectorWalEntryView {
            operation: self.operation,
            table_name: self.table_name@,
            vector_id: self.vector_id,
            segment_id: self.segment_id,
            embedding: match self.embedding {
                Some(e) => Some(e@),
                None => None,
            },
        }
    }
}

/// The bytes of a record (lengths written as their low 16 and 32 bits).
pub open spec fn record_bytes(op: VectorWalOp, table_name: Seq<char>, payload: Seq<u8>) -> Seq<u8> {
    let tb = encode_utf8(table_name);
    op_code(op) + le16(tb.len() as u16) + tb + le32(payload.len() as u32) + payload
}

/// The payload of an insert.
pub open spec fn insert_payload_bytes(vector_id: i64, segment_id: u64, embedding: Seq<u32>) -> Seq<u8> {
    le64(vector_id as u64) + le64(segment_id) + le32(embedding.len() as u32) + le32_words(embedding)
}

/// The payload of a delete.
pub open spec fn delete_payload_bytes(vector_id: i64, segment_id: u64) -> Seq<u8> {
    le64(vector_id as u64) + le64(segment_id)
}

/// What parsing a record gives.
pub enum RecordParse {
    /// The record.
    Entry(VectorWalEntryView),
    /// A parse error with this message.
    Fail(Seq<char>),
    /// A parse error: the table name is not UTF-8.
    BadTableName,
    /// A length runs past the end of the record.
    Malformed,
}

/// Parses a payload of the operation `op` for the table `table`.
pub open spec fn parse_payload(op: VectorWalOp, table: Seq<char>, p: Seq<u8>) -> RecordParse {
    match op {
        VectorWalOp::Insert => {
            if p.len() < 12 {
                RecordParse::Fail("Insert payload too short"@)
            } else if p.len() < 20 {
                RecordParse::Malformed
            } else {
                let dim = from_le32(p.subrange(16, 20)) as int;
                if 20 + 4 * dim > p.len() {
                    RecordParse::Malformed
                } else {
                    RecordParse::Entry(
                        VectorWalEntryView {
                            operation: op,
                            table_name: table,
                            vector_id: Some(from_le64(p.subrange(0, 8)) as i64),
                            segment_id: Some(from_le64(p.subrange(8, 16))),
                            embedding: Some(
                                choose|e: Seq<u32>|
                                    e.len() == dim && #[trigger] le32_words(e) == p.subrange(
                                        20,
                                        20 + 4 * dim,
                                    ),
                            ),
                        },
                    )
                }
            }
        },
        VectorWalOp::Delete => {
            if p.len() < 16 {
                RecordParse::Fail("Delete payload too short"@)
            } else {
                RecordParse::Entry(
                    VectorWalEntryView {
                        operation: op,
                        table_name: table,
                        vector_id: Some(from_le64(p.subrange(0, 8)) as i64),
                        segment_id: Some(from_le64(p.subrange(8, 16))),
                        embedding: None,
                    },
                )
            }
        },
        VectorWalOp::SegmentFlush => {
            if p.len() < 8 {
                RecordParse::Fail("SegmentFlush payload too short"@)
            } else {
                RecordParse::Entry(
                    VectorWalEntryView {
                        operation: op,
                        table_name: table,
                        vector_id: None,
                        segment_id: Some(from_le64(p.subrange(0, 8))),
                        embedding: None,
                    },
                )
            }
        },
    }
}

/// Parses a record.
pub open spec fn parse_record(d: Seq<u8>) -> RecordParse {
    if d.len() < 6 {
        RecordParse::Fail("WAL entry too short"@)
    } else {
        match op_of_code(d[0], d[1]) {
            None => RecordParse::Fail("Unknown WAL op"@),
            Some(op) => {
                let tl = from_le16(d.subrange(2, 4)) as int;
                if 4 + tl > d.len() {
                    RecordParse::Malformed
                } else if !valid_utf8(d.subrange(4, 4 + tl)) {
                    RecordParse::BadTableName
                } else if 8 + tl > d.len() {
                    RecordParse::Malformed
                } else {
                    let dl = from_le32(d.subrange(4 + tl, 8 + tl)) as int;
                    if 8 + tl + dl > d.len() {
                        RecordParse::Malformed
                    } else {
                        parse_payload(
                            op,
                            decode_utf8(d.subrange(4, 4 + tl)),
                            d.subrange(8 + tl, 8 + tl + dl),
                        )
                    }
                }
            }
        }
    }
}

/// Words are determined by their bytes.
proof fn lemma_le32_words_injective(a: Seq<u32>, b: Seq<u32>)
    requires
        le32_words(a) == le32_words(b),
        a.len() == b.len(),
    ensures
        a == b,
    decreases a.len(),
{
    if a.len() > 0 {
        lemma_le32_words_len(a.drop_last());
        lemma_le32_words_len(b.drop_last());
        lemma_le_roundtrips(0, a.last(), 0);
        lemma_le_roundtrips(0, b.last(), 0);
        let la = le32_words(a.drop_last());
        let lb = le32_words(b.drop_last());
        let n = la.len() as int;
        assert(le32_words(a).subrange(0, n) =~= la);
        assert(le32_words(b).subrange(0, n) =~= lb);
        assert(le32_words(a).subrange(n, n + 4) =~= le32(a.last()));
        assert(le32_words(b).subrange(n, n + 4) =~= le32(b.last()));
        lemma_le32_words_injective(a.drop_last(), b.drop_last());
        assert(a =~= a.drop_last().push(a.last()));
        assert(b =~= b.drop_last().push(b.last()));
    }
}

/// The operation of a two-byte code.
fn op_from_code(a: u8, b: u8) -> (r: Option<VectorWalOp>)
    ensures
        r == op_of_code(a, b),
{
    if a == 0x56 && b == 0x49 {
        Some(VectorWalOp::Insert)
    } else if a == 0x56 && b == 0x44 {
        Some(VectorWalOp::Delete)
    } else if a == 0x53 && b == 0x46 {
        Some(VectorWalOp::SegmentFlush)
    } else {
        None
    }
}

fn parse_error(msg: &str) -> (r: Error)
    ensures
        r matches Error::Parse(m) && m@ == msg@,
{
    Error::Parse(String::from_str(msg))
}

impl VectorWalEntry {
    /// Parses a record, or `None` when a length in it runs past its end.
    pub fn parse_checked(data: &[u8]) -> (r: Option<Result<Self>>)
        ensures
            match parse_record(data@) {
                RecordParse::Entry(v) => r matches Some(Ok(e)) && e@ == v,
                RecordParse::Fail(m) => r matches Some(Err(Error::Parse(s))) && s@ == m,
                RecordParse::BadTableName => r matches Some(Err(Error::Parse(_))),
                RecordParse::Malformed => r is None,
            },
    {
        let n = data.len();
        if n < 6 {
            return Some(Err(parse_error("WAL entry too short")));
        }
        let op = match op_from_code(data[0], data[1]) {
            Some(op) => op,
            None => {
                return Some(Err(parse_error("Unknown WAL op")));
            },
        };
        let table_len = read_le16(data, 2) as usize;
        if table_len > n - 4 {
            return None;
        }
        let table_name = match string_from_utf8(copy_range(data, 4, table_len)) {
            Ok(s) => s,
            Err(msg) => {
                return Some(Err(Error::Parse(msg)));
            },
        };
        let offset = 4 + table_len;
        if n - offset < 4 {
            return None;
        }
        let data_len = read_le32(data, offset) as usize;
        let start = offset + 4;
        if data_len > n - start {
            return None;
        }
        let payload = copy_range(data, start, data_len);
        let p = payload.as_slice();
        match op {
            VectorWalOp::Insert => {
                if p.len() < 12 {
                    return Some(Err(parse_error("Insert payload too short")));
                }
                if p.len() < 20 {
                    return None;
                }
                let vector_id = read_le64(p, 0) as i64;
                let segment_id = read_le64(p, 8);
                let dim = read_le32(p, 16) as usize;
                if dim > (p.len() - 20) / 4 {
                    return None;
                }
                let embedding = read_le32_words(p, 20, dim);
                proof {
                    let pp = p@;
                    let e = embedding@;
                    let c = choose|c: Seq<u32>|
                        c.len() == dim && #[trigger] le32_words(c) == pp.subrange(20, 20 + 4 * dim);
                    assert(e.len() == dim && le32_words(e) == pp.subrange(20, 20 + 4 * dim));
                    lemma_le32_words_injective(c, e);
                }
                Some(
                    Ok(
                        VectorWalEntry {
                            operation: op,
                            table_name,
                            vector_id: Some(vector_id),
                            segment_id: Some(segment_id),
                            embedding: Some(embedding),
                        },
                    ),
                )
            },
            VectorWalOp::Delete => {
                if p.len() < 16 {
                    return Some(Err(parse_error("Delete payload too short")));
                }
                let vector_id = read_le64(p, 0) as i64;
                let segment_id = read_le64(p, 8);
                Some(
                    Ok(
                        VectorWalEntry {
                            operation: op,
                            table_name,
                            vector_id: Some(vector_id),
                            segment_id: Some(segment_id),
                            embedding: None,
                        },
                    ),
                )
            },
            VectorWalOp::SegmentFlush => {
                if p.len() < 8 {
                    return Some(Err(parse_error("SegmentFlush payload too short")));
                }
                let segment_id = read_le64(p, 0);
                Some(
                    Ok(
                        VectorWalEntry {
                            operation: op,
                            table_name,
                            vector_id: None,
                            segment_id: Some(segment_id),
                            embedding: None,
                        },
                    ),
                )
            },
        }
    }

    /// Parses a record: fails with a parse error when it is shorter than
    /// six bytes, has an unknown operation code, a table name that is not
    /// UTF-8, or a payload too short for its operation.
    pub fn parse(data: &[u8]) -> (r: Result<Self>)
        requires
            !(parse_record(data@) is Malformed),
        ensures
            match parse_record(data@) {
                RecordParse::Entry(v) => r matches Ok(e) && e@ == v,
                RecordParse::Fail(m) => r matches Err(Error::Parse(s)) && s@ == m,
                _ => r matches Err(Error::Parse(_)),
            },
    {
        match Self::parse_checked(data) {
            Some(r) => r,
            None => Err(parse_error("")),
        }
    }
}

/// The bytes of a record (see `record_bytes`).
pub fn encode_record(op: VectorWalOp, table_name: &str, data: &[u8]) -> (r: Vec<u8>)
    ensures
        r@ == record_bytes(op, table_name@, data@),
{
    let mut out: Vec<u8> = Vec::new();
    match op {
        VectorWalOp::Insert => {
            out.push(0x56);
            out.push(0x49);
        },
        VectorWalOp::Delete => {
            out.push(0x56);
            out.push(0x44);
        },
        VectorWalOp::SegmentFlush => {
            out.push(0x53);
            out.push(0x46);
        },
    }
    let tb = table_name.as_bytes();
    push_le16(&mut out, tb.len() as u16);
    push_all(&mut out, tb);
    push_le32(&mut out, data.len() as u32);
    push_all(&mut out, data);
    assert(out@ =~= record_bytes(op, table_name@, data@));
    out
}

/// The payload of an insert (see `insert_payload_bytes`).
pub fn insert_payload(vector_id: i64, segment_id: u64, embedding: &[u32]) -> (r: Vec<u8>)
    ensures
        r@ == insert_payload_bytes(vector_id, segment_id, embedding@),
{
    let mut data: Vec<u8> = Vec::new();
    push_le64(&mut data, vector_id as u64);
    push_le64(&mut data, segment_id);
    push_le32(&mut data, embedding.len() as u32);
    push_le32_words(&mut data, embedding);
    data
}

/// The payload of a delete (see `delete_payload_bytes`).
pub fn delete_payload(vector_id: i64, segment_id: u64) -> (r: Vec<u8>)
    ensures
        r@ == delete_payload_bytes(vector_id, segment_id),
{
    let mut data: Vec<u8> = Vec::new();
    push_le64(&mut data, vector_id as u64);
    push_le64(&mut data, segment_id);
    data
}

/// The payload of a segment flush: the segment ID.
pub fn segment_flush_payload(segment_id: u64) -> (r: Vec<u8>)
    ensures
        r@ == le64(segment_id),
{
    let mut data: Vec<u8> = Vec::new();
    push_le64(&mut data, segment_id);
    data
}

/// The payload that the logger writes for an operation.
pub open spec fn payload_for(op: VectorWalOp, vector_id: i64, segment_id: u64, embedding: Seq<u32>) -> Seq<u8> {
    match op {
        VectorWalOp::Insert => insert_payload_bytes(vector_id, segment_id, embedding),
        VectorWalOp::Delete => delete_payload_bytes(vector_id, segment_id),
        VectorWalOp::SegmentFlush => le64(segment_id),
    }
}

/// The entry that a record written by the logger stands for.
pub open spec fn entry_for(
    op: VectorWalOp,
    table_name: Seq<char>,
    vector_id: i64,
    segment_id: u64,
    embedding: Seq<u32>,
) -> VectorWalEntryView {
    VectorWalEntryView {
        operation: op,
        table_name,
        vector_id: if op == VectorWalOp::SegmentFlush {
            None
        } else {
            Some(vector_id)
        },
        segment_id: Some(segment_id),
        embedding: if op == VectorWalOp::Insert {
            Some(embedding)
        } else {
            None
        },
    }
}

/// Reading back a logged record gives what was logged, when the table
/// name's encoding fits a 16-bit length and the embedding a 32-bit count.
pub proof fn lemma_record_roundtrip(
    op: VectorWalOp,
    table_name: Seq<char>,
    vector_id: i64,
    segment_id: u64,
    embedding: Seq<u32>,
)
    requires
        encode_utf8(table_name).len() <= u16::MAX,
        20 + 4 * embedding.len() <= u32::MAX,
    ensures
        parse_record(record_bytes(op, table_name, payload_for(op, vector_id, segment_id, embedding)))
            == RecordParse::Entry(entry_for(op, table_name, vector_id, segment_id, embedding)),
{
    let p = payload_for(op, vector_id, segment_id, embedding);
    let tb = encode_utf8(table_name);
    let tl = tb.len() as int;
    let d = record_bytes(op, table_name, p);
    let vu = vector_id as u64;
    lemma_le_roundtrips(vu, embedding.len() as u32, tl as u16);
    lemma_le_roundtrips(segment_id, 0, 0);
    lemma_le32_words_len(embedding);
    lemma_le_roundtrips(0, p.len() as u32, 0);
    assert((vu as i64) == vector_id) by (bit_vector)
        requires
            vu == vector_id as u64,
    ;
    assert(d =~= op_code(op) + le16(tl as u16) + tb + le32(p.len() as u32) + p);
    assert(d.subrange(2, 4) =~= le16(tl as u16));
    assert(d.subrange(4, 4 + tl) =~= tb);
    assert(d.subrange(4 + tl, 8 + tl) =~= le32(p.len() as u32));
    assert(d.subrange(8 + tl, 8 + tl + p.len()) =~= p);
    match op {
        VectorWalOp::Insert => {
            let n = embedding.len() as int;
            assert(p.subrange(0, 8) =~= le64(vu));
            assert(p.subrange(8, 16) =~= le64(segment_id));
            assert(p.subrange(16, 20) =~= le32(n as u32));
            assert(p.subrange(20, 20 + 4 * n) =~= le32_words(embedding));
            let c = choose|c: Seq<u32>|
                c.len() == n && #[trigger] le32_words(c) == p.subrange(20, 20 + 4 * n);
            assert(le32_words(embedding) == p.subrange(20, 20 + 4 * n));
            lemma_le32_words_injective(c, embedding);
        },
        VectorWalOp::Delete => {
            assert(p.subrange(0, 8) =~= le64(vu));
            assert(p.subrange(8, 16) =~= le64(segment_id));
        },
        VectorWalOp::SegmentFlush => {
            assert(p.subrange(0, 8) =~= le64(segment_id));
        },
    }
}

} // verus!

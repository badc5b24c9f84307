use stoolap::error::Error;
use stoolap::storage::vector::config::VectorConfig;
use stoolap::storage::vector::merkle::{MerkleProof, VectorMerkle};
use stoolap::storage::vector::mmap::{deletion_bit, mapped_embedding, MmapVectorSegmentMut};
use stoolap::storage::vector::quantization::config::{QuantizationConfig, QuantizationType};
use stoolap::storage::vector::quantization::distance::hamming_distance;
use stoolap::storage::vector::quantization::quantizer::{BinaryQuantizer, MINUS_ONE_BITS, ONE_BITS};
use stoolap::storage::vector::segment::VectorSegment;
use stoolap::storage::vector::snapshot::{
    is_snapshot_dir_name, join, snapshot_dir_name, sort_newest_first, SnapshotMeta,
    VectorSnapshotManager,
};
use stoolap::storage::vector::wal::{
    compaction_finish_entry, compaction_start_entry, index_build_entry, segment_create_entry,
    segment_merge_entry, vector_delete_entry, vector_insert_entry, vector_update_entry,
    VectorWalData, WALOperationType,
};
use stoolap::storage::vector::wal_logger::{
    delete_payload, encode_record, insert_payload, segment_flush_payload, VectorWalEntry, VectorWalOp,
};
use stoolap::storage::vector::wal_recovery::VectorWalRecovery;

fn bits(v: &[f32]) -> Vec<u32> {
    v.iter().map(|f| f.to_bits()).collect()
}

fn floats(v: &[u32]) -> Vec<f32> {
    v.iter().map(|b| f32::from_bits(*b)).collect()
}

#[test]
fn merkle_test_new() {
    let merkle = VectorMerkle::new();
    assert_eq!(merkle.global_root().len(), 32);
}

#[test]
fn test_update_segment() {
    let mut merkle = VectorMerkle::new();
    let emb = bits(&[1.0, 2.0, 3.0]);
    merkle.update_segment(1, &[(1, emb.as_slice())]);
    assert!(merkle.segment_root(1).is_some());
}

#[test]
fn merkle_roots_follow_the_documented_hashing() {
    let emb = bits(&[1.0, 2.0, 3.0]);
    let leaf = VectorMerkle::leaf_hash(7, &emb);
    let emb_bytes: Vec<u8> = [1.0f32, 2.0, 3.0].iter().flat_map(|f| f.to_le_bytes()).collect();
    let inner = blake3::hash(&emb_bytes);
    let mut h = blake3::Hasher::new();
    h.update(&7i64.to_le_bytes());
    h.update(inner.as_bytes());
    assert_eq!(leaf, *h.finalize().as_bytes());

    let mut merkle = VectorMerkle::new();
    merkle.update_segment(1, &[(7, emb.as_slice())]);
    // One vector: the segment root is its leaf, and the global root over
    // one segment is that root.
    assert_eq!(merkle.segment_root(1).unwrap(), &leaf[..]);
    assert_eq!(merkle.global_root(), &leaf[..]);

    let emb2 = bits(&[4.0]);
    let leaf2 = VectorMerkle::leaf_hash(8, &emb2);
    merkle.update_segment(2, &[(7, emb.as_slice()), (8, emb2.as_slice())]);
    let mut pair = leaf.to_vec();
    pair.extend_from_slice(&leaf2);
    assert_eq!(merkle.segment_root(2).unwrap(), blake3::hash(&pair).as_bytes());

    merkle.remove_segment(1);
    merkle.remove_segment(2);
    assert!(merkle.segment_root(1).is_none());
    assert_eq!(merkle.global_root(), &[0u8; 32][..]);
}

#[test]
fn merkle_proofs() {
    let mut merkle = VectorMerkle::default();
    let emb = bits(&[0.5]);
    assert!(merkle.generate_proof(3, 1, &emb).is_none());
    merkle.update_segment(3, &[(1, emb.as_slice())]);
    let proof = merkle.generate_proof(3, 1, &emb).unwrap();
    assert_eq!(proof.segment_id, 3);
    assert_eq!(proof.vector_id, 1);
    assert!(VectorMerkle::verify_proof(&proof));
    let bytes = proof.to_bytes();
    assert_eq!(bytes.len(), 32 * 3 + 16);
    assert_eq!(&bytes[96..104], &1i64.to_le_bytes());
    assert_eq!(&bytes[104..112], &3u64.to_le_bytes());
    let back = MerkleProof::from_bytes(&bytes).unwrap();
    assert_eq!(back.leaf, vec![0u8; 32]);
    assert_eq!(back.segment_id, 0);
    let short = MerkleProof { leaf: vec![], segment_root: vec![1], global_root: vec![2], vector_id: 0, segment_id: 0 };
    assert!(!VectorMerkle::verify_proof(&short));
}

#[test]
fn test_binary_compression() {
    let config = QuantizationConfig::new(768);
    assert!(config.enabled);
    assert_eq!(config.quantization_type, QuantizationType::Binary);
    assert_eq!(config.original_size(), 3072);
    assert_eq!(config.compressed_size(), 96);
}

#[test]
fn test_disabled_config() {
    let config = QuantizationConfig::disabled();
    assert!(!config.enabled);
    assert_eq!(config.compressed_size(), 0);
}

#[test]
fn compressed_sizes_of_each_type() {
    let mut config = QuantizationConfig::new(13);
    assert_eq!(config.compressed_size(), 2);
    config.quantization_type = QuantizationType::Scalar;
    assert_eq!(config.compressed_size(), 7);
    config.quantization_type = QuantizationType::Product;
    assert_eq!(config.compressed_size(), 1);
    assert_eq!(QuantizationConfig::default().compressed_size(), 0);
    assert_eq!(QuantizationType::default(), QuantizationType::Binary);
}

#[test]
fn test_hamming_identical() {
    let a = vec![0b11111111, 0b11111111];
    let b = vec![0b11111111, 0b11111111];
    assert_eq!(hamming_distance(&a, &b), 0);
}

#[test]
fn test_hamming_all_different() {
    let a = vec![0b11111111, 0b11111111];
    let b = vec![0b00000000, 0b00000000];
    assert_eq!(hamming_distance(&a, &b), 16);
}

#[test]
fn test_hamming_mixed() {
    let a = vec![0b10101010];
    let b = vec![0b01010101];
    assert_eq!(hamming_distance(&a, &b), 8);
}

#[test]
fn hamming_is_symmetric() {
    let a = vec![0b1011_0001, 0x00, 0xFF];
    let b = vec![0b0001_0011, 0x0F, 0xF0];
    assert_eq!(hamming_distance(&a, &b), 3 + 4 + 4);
    assert_eq!(hamming_distance(&a, &b), hamming_distance(&b, &a));
}

#[test]
fn quantizer_test_encode_decode_roundtrip() {
    let quantizer = BinaryQuantizer::new(8);
    let original = bits(&[1.0, -2.0, 3.0, -4.0, 5.0, -6.0, 7.0, -8.0]);
    let encoded = quantizer.encode(&original);
    assert_eq!(encoded.len(), 1);
    let decoded = floats(&quantizer.decode(&encoded));
    assert_eq!(decoded.len(), 8);
    assert_eq!(decoded[0], 1.0);
    assert_eq!(decoded[1], -1.0);
    assert_eq!(decoded[2], 1.0);
    assert_eq!(decoded[3], -1.0);
}

#[test]
fn test_encode_zero() {
    let quantizer = BinaryQuantizer::new(4);
    let encoded = quantizer.encode(&bits(&[0.0, 0.0, 0.0, 0.0]));
    assert_eq!(encoded[0], 0b0000);
}

#[test]
fn test_encode_positive() {
    let quantizer = BinaryQuantizer::new(4);
    let encoded = quantizer.encode(&bits(&[0.1, 0.2, 0.3, 0.4]));
    assert_eq!(encoded[0], 0b1111);
}

#[test]
fn quantizer_test_dimension_768() {
    let quantizer = BinaryQuantizer::new(768);
    let encoded = quantizer.encode(&bits(&vec![1.0; 768]));
    assert_eq!(encoded.len(), 96);
}

#[test]
fn quantizer_signs_match_float_comparison() {
    let values = [
        0.0f32, -0.0, 1e-45, -1e-45, f32::INFINITY, f32::NEG_INFINITY, f32::NAN, 3.5, -3.5,
    ];
    let q = BinaryQuantizer::new(values.len());
    let enc = q.encode(&bits(&values));
    assert_eq!(enc.len(), 2);
    let dec = q.decode(&enc);
    for (i, v) in values.iter().enumerate() {
        let expected = if *v > 0.0 { ONE_BITS } else { MINUS_ONE_BITS };
        assert_eq!(dec[i], expected, "component {}", i);
    }
    assert_eq!(q.dimension(), 9);
    assert_eq!(q.encoded_size(), 2);
    assert_eq!(BinaryQuantizer::default().dimension(), 128);
    assert_eq!(q.encode_query(&bits(&values)), enc);
}

#[test]
fn vector_config_defaults() {
    let c = VectorConfig::new(768);
    assert_eq!(c.default_dimension, 768);
    assert_eq!(c.segment_capacity, 100_000);
    assert_eq!(c.max_segments_in_memory, 10);
    assert_eq!(c.simd_alignment, None);
    assert_eq!(c.hnsw_m, 16);
    assert_eq!(c.hnsw_ef_construction, 200);
    assert_eq!(c.hnsw_ef_search, 200);
    assert_eq!(VectorConfig::default().default_dimension, 384);
    assert_eq!(c.clone().with_simd_features(true, true).simd_alignment, Some(64));
    assert_eq!(c.clone().with_simd_features(false, true).simd_alignment, Some(32));
    assert_eq!(c.with_simd_features(false, false).simd_alignment, None);
}

#[test]
fn test_segment_push() {
    let mut segment = VectorSegment::with_id(1, 3, 10, 1);
    assert_eq!(segment.count, 0);
    segment.push(1, &bits(&[1.0, 2.0, 3.0])).unwrap();
    assert_eq!(segment.count, 1);
    let emb = segment.get_embedding(0).unwrap();
    assert_eq!(floats(emb), vec![1.0, 2.0, 3.0]);
}

#[test]
fn test_segment_full() {
    let mut segment = VectorSegment::with_id(1, 3, 2, 1);
    assert!(!segment.is_full());
    segment.push(1, &bits(&[1.0, 2.0, 3.0])).unwrap();
    assert!(!segment.is_full());
    segment.push(2, &bits(&[4.0, 5.0, 6.0])).unwrap();
    assert!(segment.is_full());
    assert!(matches!(segment.push(3, &bits(&[7.0, 8.0, 9.0])), Err(Error::SegmentFull(1))));
}

#[test]
fn test_segment_delete() {
    let mut segment = VectorSegment::with_id(1, 3, 10, 1);
    segment.push(1, &bits(&[1.0, 2.0, 3.0])).unwrap();
    assert!(!segment.is_deleted(0));
    segment.delete(0).unwrap();
    assert!(segment.is_deleted(0));
    assert!(matches!(segment.delete(5), Err(Error::IndexOutOfBounds(5, 1))));
}

#[test]
fn test_segment_immutable() {
    let mut segment = VectorSegment::with_id(1, 3, 10, 1);
    segment.push(1, &bits(&[1.0, 2.0, 3.0])).unwrap();
    segment.make_immutable();
    assert!(segment.is_immutable);
    let result = segment.push(2, &bits(&[4.0, 5.0, 6.0]));
    assert!(result.is_err());
    assert!(matches!(result, Err(Error::SegmentImmutable(1))));
}

#[test]
fn segment_lookups_and_listing() {
    let mut s = VectorSegment::with_id(4, 2, 5, 9);
    assert!(matches!(
        s.push(1, &[1, 2, 3]),
        Err(Error::InvalidVectorDimension { expected: 2, got: 3 })
    ));
    s.push(10, &[1, 2]).unwrap();
    s.push(20, &[3, 4]).unwrap();
    s.push(10, &[5, 6]).unwrap();
    assert_eq!(s.find_by_vector_id(10), Some(0));
    assert_eq!(s.find_by_vector_id(30), None);
    assert_eq!(s.get_embedding_by_id(20), Some(&[3u32, 4][..]));
    assert_eq!(s.get_vector_id(2), Some(10));
    assert_eq!(s.get_vector_id(3), None);
    assert_eq!(s.live_count(), 3);
    s.delete(0).unwrap();
    assert_eq!(s.live_count(), 2);
    // The copy of ID 10 at index 2 goes with the first, deleted one.
    assert_eq!(s.iter_vectors(), vec![(20, vec![3, 4])]);
    assert!(!s.can_insert() || s.count < s.capacity);
}

#[test]
fn test_mut_segment_push() {
    let mut seg = MmapVectorSegmentMut::new(1, 3, 10);
    assert_eq!(seg.count(), 0);
    seg.push(1, &bits(&[1.0, 2.0, 3.0])).unwrap();
    assert_eq!(seg.count(), 1);
    seg.push(2, &bits(&[4.0, 5.0, 6.0])).unwrap();
    assert_eq!(seg.count(), 2);
}

#[test]
fn test_mut_segment_delete() {
    let mut seg = MmapVectorSegmentMut::new(1, 3, 10);
    seg.push(1, &bits(&[1.0, 2.0, 3.0])).unwrap();
    seg.delete(0).unwrap();
    assert!(seg.deleted_file()[0] & 1 != 0);
}

#[test]
fn mut_segment_files() {
    let mut seg = MmapVectorSegmentMut::new(2, 2, 9);
    seg.push(5, &bits(&[1.0, -1.0])).unwrap();
    seg.push(6, &bits(&[2.0, 0.5])).unwrap();
    seg.delete(1).unwrap();
    assert!(matches!(seg.delete(2), Err(Error::IndexOutOfBounds(2, 2))));
    let mut expected = b"vec1".to_vec();
    for f in [1.0f32, -1.0, 2.0, 0.5] {
        expected.extend_from_slice(&f.to_le_bytes());
    }
    assert_eq!(seg.vectors_file(), expected);
    assert_eq!(seg.deleted_file(), vec![0b10]);
    assert_eq!(seg.vector_ids(), &[5, 6]);
    assert!(deletion_bit(&seg.deleted_file(), 2, 1));
    assert!(!deletion_bit(&seg.deleted_file(), 2, 0));
    assert!(!deletion_bit(&seg.deleted_file(), 1, 1));
    assert!(!seg.is_full());
}

#[test]
fn test_vector_wal_data_serialize() {
    let data = VectorWalData { segment_id: 1, dimension: 3, embedding: Some(bits(&[1.0, 2.0, 3.0])) };
    let serialized = data.serialize();
    let deserialized = VectorWalData::deserialize(&serialized).unwrap();
    assert_eq!(deserialized.segment_id, 1);
    assert_eq!(deserialized.dimension, 3);
    assert_eq!(floats(&deserialized.embedding.unwrap()), vec![1.0, 2.0, 3.0]);
}

#[test]
fn test_vector_delete_wal_data() {
    let data = VectorWalData { segment_id: 5, dimension: 128, embedding: None };
    let serialized = data.serialize();
    let deserialized = VectorWalData::deserialize(&serialized).unwrap();
    assert_eq!(deserialized.segment_id, 5);
    assert_eq!(deserialized.dimension, 128);
    assert!(deserialized.embedding.is_none());
}

#[test]
fn wal_data_errors_and_empty_embedding() {
    match VectorWalData::deserialize(&[0u8; 11]) {
        Err(Error::Parse(m)) => assert_eq!(m, "vector WAL data too short"),
        _ => panic!("expected a parse error"),
    }
    let data = VectorWalData { segment_id: 2, dimension: 0, embedding: Some(vec![]) };
    let back = VectorWalData::deserialize(&data.serialize()).unwrap();
    assert!(back.embedding.is_none());
}

#[test]
fn wal_entry_builders() {
    let emb = bits(&[1.5]);
    let e = vector_insert_entry(3, "t", 9, 4, 1, &emb);
    assert_eq!(e.operation, WALOperationType::VectorInsert);
    assert_eq!(e.row_id, 9);
    assert_eq!(e.txn_id, 3);
    assert_eq!(e.table_name, "t");
    let mut expected = 4u64.to_le_bytes().to_vec();
    expected.extend_from_slice(&1u32.to_le_bytes());
    expected.extend_from_slice(&1u32.to_le_bytes());
    expected.extend_from_slice(&1.5f32.to_le_bytes());
    assert_eq!(e.data, expected);
    let u = vector_update_entry(3, "t", 9, 4, 1, &emb);
    assert_eq!(u.operation, WALOperationType::VectorUpdate);
    assert_eq!(u.data, expected);
    let d = vector_delete_entry(3, "t", 9, 4, 1);
    assert_eq!(d.operation, WALOperationType::VectorDelete);
    assert_eq!(d.data.len(), 16);
    let c = segment_create_entry(1, "t", 7, 3, 100);
    assert_eq!(c.row_id, 0);
    assert_eq!(c.data, [7u64.to_le_bytes().to_vec(), 3u32.to_le_bytes().to_vec(), 100u32.to_le_bytes().to_vec()].concat());
    let m = segment_merge_entry(1, "t", &[1, 2], 9);
    assert_eq!(m.operation, WALOperationType::SegmentMerge);
    assert_eq!(
        m.data,
        [2u32.to_le_bytes().to_vec(), 9u64.to_le_bytes().to_vec(), 1u64.to_le_bytes().to_vec(), 2u64.to_le_bytes().to_vec()].concat()
    );
    let i = index_build_entry(1, "t", 5, "hnsw");
    assert_eq!(i.data, [5u64.to_le_bytes().to_vec(), b"hnsw".to_vec()].concat());
    let s = compaction_start_entry(1, "t", &[4]);
    assert_eq!(s.operation, WALOperationType::CompactionStart);
    assert_eq!(s.data, [1u32.to_le_bytes().to_vec(), 4u64.to_le_bytes().to_vec()].concat());
    let f = compaction_finish_entry(1, "t", &[4, 5], 6);
    assert_eq!(f.operation, WALOperationType::CompactionFinish);
    assert_eq!(f.data.len(), 4 + 8 + 16);
}

#[test]
fn vector_wal_records_read_back() {
    let emb = bits(&[1.0, 2.0, 3.0]);
    let rec = encode_record(VectorWalOp::Insert, "test_table", &insert_payload(1, 2, &emb));
    let e = VectorWalEntry::parse(&rec).unwrap();
    assert!(matches!(e.operation, VectorWalOp::Insert));
    assert_eq!(e.table_name, "test_table");
    assert_eq!(e.vector_id, Some(1));
    assert_eq!(e.segment_id, Some(2));
    assert_eq!(floats(&e.embedding.unwrap()), vec![1.0, 2.0, 3.0]);
    let rec = encode_record(VectorWalOp::Delete, "t", &delete_payload(-4, 5));
    let e = VectorWalEntry::parse(&rec).unwrap();
    assert_eq!(e.vector_id, Some(-4));
    assert!(e.embedding.is_none());
    let rec = encode_record(VectorWalOp::SegmentFlush, "t", &segment_flush_payload(8));
    let e = VectorWalEntry::parse(&rec).unwrap();
    assert_eq!(e.vector_id, None);
    assert_eq!(e.segment_id, Some(8));
    assert_eq!(&rec[..2], b"SF");
}

#[test]
fn vector_wal_record_errors() {
    let msg = |r: Result<VectorWalEntry, Error>| match r {
        Err(Error::Parse(m)) => m,
        _ => panic!("expected a parse error"),
    };
    assert_eq!(msg(VectorWalEntry::parse(b"VI")), "WAL entry too short");
    assert_eq!(msg(VectorWalEntry::parse(b"XX\0\0\0\0")), "Unknown WAL op");
    assert_eq!(msg(VectorWalEntry::parse(&encode_record(VectorWalOp::Insert, "t", &[0; 4]))), "Insert payload too short");
    assert_eq!(msg(VectorWalEntry::parse(&encode_record(VectorWalOp::Delete, "t", &[0; 15]))), "Delete payload too short");
    assert_eq!(msg(VectorWalEntry::parse(&encode_record(VectorWalOp::SegmentFlush, "t", &[0; 7]))), "SegmentFlush payload too short");
    let mut bad_name = encode_record(VectorWalOp::SegmentFlush, "t", &[0; 8]);
    bad_name[4] = 0xFF;
    assert!(matches!(VectorWalEntry::parse(&bad_name), Err(Error::Parse(_))));
    // An insert payload that announces more components than it holds.
    let mut p = insert_payload(1, 2, &[7]);
    p.truncate(p.len() - 1);
    assert!(VectorWalEntry::parse_checked(&encode_record(VectorWalOp::Insert, "t", &p)).is_none());
}

#[test]
fn snapshot_names_and_order() {
    assert_eq!(snapshot_dir_name(42), "snapshot_42");
    assert_eq!(snapshot_dir_name(0), "snapshot_0");
    assert!(is_snapshot_dir_name("snapshot_17"));
    assert!(!is_snapshot_dir_name("snap"));
    assert!(!is_snapshot_dir_name("segment_1"));
    assert_eq!(join("base", "x"), "base/x");
    assert_eq!(join("base/", "x"), "base/x");
    assert_eq!(join("", "x"), "x");
    let mgr = VectorSnapshotManager::new("/data");
    assert_eq!(mgr.get_segment_path(12), "/data/segment_12");
    assert_eq!(mgr.snapshot_path(9), "/data/snapshot_9");
    assert_eq!(mgr.base_path(), "/data");
    let meta = |t: u64| SnapshotMeta { version: 1, created_at: t, segment_count: 1, vector_count: 2, merkle_root: vec![] };
    let listed = vec![
        ("a".to_string(), meta(5)),
        ("b".to_string(), meta(9)),
        ("c".to_string(), meta(5)),
        ("d".to_string(), meta(1)),
    ];
    let sorted = sort_newest_first(listed.clone());
    let names: Vec<&str> = sorted.iter().map(|(n, _)| n.as_str()).collect();
    assert_eq!(names, vec!["b", "a", "c", "d"]);
    let latest = mgr.get_latest_snapshot(listed).unwrap();
    assert_eq!(latest.0, "b");
    assert!(mgr.get_latest_snapshot(vec![]).is_none());
    let removed = VectorSnapshotManager::snapshots_to_remove(sorted, 2);
    assert_eq!(removed.len(), 2);
    assert_eq!(removed[0].0, "c");
}

#[test]
fn recovery_keeps_its_path() {
    let r = VectorWalRecovery::new("/tmp/x.wal");
    assert_eq!(r.wal_path(), "/tmp/x.wal");
}

#[test]
fn mapped_embedding_reads_stored_vectors() {
    let mut seg = MmapVectorSegmentMut::new(1, 2, 4);
    seg.push(10, &[7, 8]).unwrap();
    seg.push(11, &[9, 10]).unwrap();
    let file = seg.vectors_file();
    assert_eq!(mapped_embedding(&file, 2, 2, 0), Some(vec![7, 8]));
    assert_eq!(mapped_embedding(&file, 2, 2, 1), Some(vec![9, 10]));
    assert_eq!(mapped_embedding(&file, 2, 2, 2), None);
    assert_eq!(mapped_embedding(&file, 3, 2, 2), None);
    let mut one = MmapVectorSegmentMut::new(2, 1, 2);
    one.push(1, &[7]).unwrap();
    let mut other = MmapVectorSegmentMut::new(3, 1, 2);
    other.push(1, &[8]).unwrap();
    assert_eq!(mapped_embedding(&one.vectors_file(), 1, 1, 0), Some(vec![7]));
    assert_eq!(mapped_embedding(&other.vectors_file(), 1, 1, 0), Some(vec![8]));
}

#[test]
fn snapshot_meta_of_segment() {
    let mut seg = MmapVectorSegmentMut::new(9, 2, 4);
    seg.push(1, &[1, 2]).unwrap();
    seg.push(2, &[3, 4]).unwrap();
    let meta = SnapshotMeta::of_segment(1234, &seg, &[7, 8, 9]);
    assert_eq!(meta.version, 1);
    assert_eq!(meta.created_at, 1234);
    assert_eq!(meta.segment_count, 1);
    assert_eq!(meta.vector_count, 2);
    assert_eq!(meta.merkle_root, vec![7, 8, 9]);
}

#[test]
fn merkle_generated_proof_verifies() {
    let mut m = VectorMerkle::new();
    let emb: Vec<u32> = vec![1, 2];
    m.update_segment(3, &[(1, emb.as_slice())]);
    let p = m.generate_proof(3, 1, &emb).unwrap();
    assert_eq!(p.global_root.as_slice(), m.global_root());
    assert!(VectorMerkle::verify_proof(&p));
    assert!(m.generate_proof(4, 1, &emb).is_none());
}

#[test]
fn segment_push_then_read_back() {
    let mut seg = VectorSegment::with_id(5, 3, 4, 0);
    assert_eq!(seg.push(10, &[1, 2, 3]), Ok(0));
    assert_eq!(seg.push(11, &[4, 5, 6]), Ok(1));
    assert_eq!(seg.get_embedding(1), Some(&[4u32, 5, 6][..]));
    assert_eq!(seg.get_embedding(0), Some(&[1u32, 2, 3][..]));
    assert_eq!(seg.get_vector_id(1), Some(11));
    assert_eq!(seg.find_by_vector_id(11), Some(1));
    assert_eq!(seg.get_embedding_by_id(11), Some(&[4u32, 5, 6][..]));
}

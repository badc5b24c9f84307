//! Configuration of vector storage.

use vstd::prelude::*;

verus! {

/// Configuration of vector storage.
#[derive(Debug, Clone)]
pub struct VectorConfig {
    /// Default dimension for vectors (can be overridden per-table)
    pub default_dimension: usize,
    /// Maximum vectors per segment (fixed-size segments)
    pub segment_capacity: usize,
    /// Maximum segments in memory
    pub max_segments_in_memory: usize,
    /// SIMD alignment in bytes (32 for AVX2, 64 for AVX-512), when known
    pub simd_alignment: Option<usize>,
    /// HNSW construction parameters
    pub hnsw_m: usize,
    pub hnsw_ef_construction: usize,
    pub hnsw_ef_search: usize,
}

/// The default settings with the given dimension.
pub open spec fn config_with_dimension(dimension: usize) -> VectorConfig {
    VectorConfig {
        default_dimension: dimension,
        segment_capacity: 100_000,
        max_segments_in_memory: 10,
        simd_alignment: None,
        hnsw_m: 16,
        hnsw_ef_construction: 200,
        hnsw_ef_search: 200,
    }
}

impl Default for VectorConfig {
    /// Dimension 384, 100 000 vectors per segment, 10 segments in memory,
    /// no SIMD alignment yet, HNSW M 16 and ef 200.
    fn default() -> (r: Self)
        ensures
            r == config_with_dimension(384),
    {
        VectorConfig {
            default_dimension: 384,
            segment_capacity: 100_000,
            max_segments_in_memory: 10,
            simd_alignment: None,
            hnsw_m: 16,
            hnsw_ef_construction: 200,
            hnsw_ef_search: 200,
        }
    }
}

impl VectorConfig {
    /// The default settings with the given dimension.
    pub fn new(dimension: usize) -> (r: Self)
        ensures
            r == config_with_dimension(dimension),
    {
        let mut c = Self::default();
        c.default_dimension = dimension;
        c
    }

    /// Sets the SIMD alignment from the processor's features: 64 bytes
    /// with AVX-512, else 32 with AVX2, else unchanged.
    pub fn with_simd_features(self, avx512f: bool, avx2: bool) -> (r: Self)
        ensures
            r.simd_alignment == (if avx512f {
                Some(64usize)
            } else if avx2 {
                Some(32usize)
            } else {
                self.simd_alignment
            }),
            r.default_dimension == self.default_dimension,
            r.segment_capacity == self.segment_capacity,
            r.max_segments_in_memory == self.max_segments_in_memory,
            r.hnsw_m == self.hnsw_m,
            r.hnsw_ef_construction == self.hnsw_ef_construction,
            r.hnsw_ef_search == self.hnsw_ef_search,
    {
        let mut c = self;
        if avx512f {
            c.simd_alignment = Some(64);
        } else if avx2 {
            c.simd_alignment = Some(32);
        }
        c
    }
}

} // verus!

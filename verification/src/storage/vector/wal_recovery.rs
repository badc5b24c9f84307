//! Where recovery finds the vector write-ahead log, and recovery of
//! vector storage by replaying it.

use vstd::prelude::*;
use vstd::string::StringExecFns;
use crate::error::{Error, Result};
use super::config::VectorConfig;
use super::mvcc::{entries_view, replays, VectorMvcc};
use super::wal_logger::VectorWalEntry;

verus! {

/// Replays the vector write-ahead log kept at a path.
pub struct VectorWalRecovery {
    wal_path: String,
}

impl VectorWalRecovery {
    /// The log's path.
    pub closed spec fn path(self) -> Seq<char> {
        self.wal_path@
    }

    /// Recovery from the log at `wal_path`.
    pub fn new(wal_path: &str) -> (r: Self)
        ensures
            r.path() == wal_path@,
    {
        VectorWalRecovery { wal_path: String::from_str(wal_path) }
    }

    /// The log's path.
    pub fn wal_path(&self) -> (r: &str)
        ensures
            r@ == self.path(),
    {
        self.wal_path.as_str()
    }
}

/// Recovery of vector storage from the log.
pub struct VectorMvccRecovery;

impl VectorMvccRecovery {
    /// Recovers vector storage: fresh storage with the configuration and
    /// one empty active segment, `first_segment_id`, on which the log's
    /// records are replayed in order (see `replays`). Fails with the error
    /// of the first record that cannot be applied.
    pub fn recover(config: &VectorConfig, entries: &[VectorWalEntry], first_segment_id: u64) -> (r:
        Result<VectorMvcc>)
        requires
            config.default_dimension * config.segment_capacity <= usize::MAX,
        ensures
            r is Ok ==> r->Ok_0.wf(),
            r is Ok ==> exists|a: VectorMvcc, q: Result<()>|
                a.is_fresh(*config, first_segment_id) && q is Ok && #[trigger] replays(
                    a,
                    r->Ok_0,
                    entries_view(entries@),
                    q,
                ),
            r is Err ==> exists|a: VectorMvcc, b: VectorMvcc|
                a.is_fresh(*config, first_segment_id) && #[trigger] replays(
                    a,
                    b,
                    entries_view(entries@),
                    Err::<(), Error>(r->Err_0),
                ),
    {
        let copy = VectorConfig {
            default_dimension: config.default_dimension,
            segment_capacity: config.segment_capacity,
            max_segments_in_memory: config.max_segments_in_memory,
            simd_alignment: config.simd_alignment,
            hnsw_m: config.hnsw_m,
            hnsw_ef_construction: config.hnsw_ef_construction,
            hnsw_ef_search: config.hnsw_ef_search,
        };
        assert(copy == *config);
        let mut mvcc = VectorMvcc::new(copy, first_segment_id);
        let ghost fresh = mvcc;
        let res = mvcc.replay(entries);
        match res {
            Ok(()) => {
                assert(replays(fresh, mvcc, entries_view(entries@), res));
                let out: Result<VectorMvcc> = Ok(mvcc);
                assert(out->Ok_0 == mvcc);
                out
            },
            Err(e) => {
                assert(replays(fresh, mvcc, entries_view(entries@), Err::<(), Error>(e)));
                let out: Result<VectorMvcc> = Err(e);
                assert(out->Err_0 == e);
                out
            },
        }
    }
}
} // verus!

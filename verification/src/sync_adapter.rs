//! Table identities as the sync engine knows them, and the settings a
//! database is opened with for syncing.

use vstd::prelude::*;
use vstd::utf8::encode_utf8;
use crate::codec::{from_le32, read_le32};
use crate::digest::{blake3, blake3_digest};

verus! {

/// A table's identity in sync messages.
pub type TableId = u32;

/// The 32-byte identity of a sync mission.
pub type MissionId = [u8; 32];

/// The 32-byte identity of a node.
pub type NodeId = [u8; 32];

/// The text `str::to_lowercase` gives for `s`: each character replaced by
/// its Unicode lower-case mapping.
pub uninterp spec fn lowercase(s: Seq<char>) -> Seq<char>;

/// Calls `str::to_lowercase`. The result depends on the text alone and is
/// named `lowercase`; nothing more of the mapping is stated.
#[verifier::external_body]
fn to_lowercase(s: &str) -> (r: String)
    ensures
        r@ == lowercase(s@),
{
    s.to_lowercase()
}

/// The ID of a table: the first four bytes, read little-endian, of the
/// BLAKE3 digest of the UTF-8 bytes of its lower-cased name.
pub open spec fn table_id_of(name: Seq<char>) -> TableId {
    from_le32(blake3(encode_utf8(lowercase(name))).subrange(0, 4))
}

fn compute_table_id(table_name: &str) -> (r: TableId)
    ensures
        r == table_id_of(table_name@),
{
    let lower = to_lowercase(table_name);
    let hash = blake3_digest(lower.as_str().as_bytes());
    read_le32(hash.as_slice(), 0)
}

/// The ID of a table under the sync engine's convention.
pub fn table_id_for_name(table_name: &str) -> (r: TableId)
    ensures
        r == table_id_of(table_name@),
{
    compute_table_id(table_name)
}

/// Names with the same lower-case form have the same table ID.
pub proof fn lemma_table_id_case_insensitive(a: Seq<char>, b: Seq<char>)
    requires
        lowercase(a) == lowercase(b),
    ensures
        table_id_of(a) == table_id_of(b),
{
}

/// Settings for opening a database with sync.
#[derive(Debug, Clone)]
pub struct SyncConfig {
    /// The mission ID. Required.
    pub mission_id: MissionId,
    /// The local node ID. Required.
    pub node_id: NodeId,
    /// The public key for envelope verification. Optional.
    pub public_key: Option<[u8; 32]>,
}

impl SyncConfig {
    /// Settings for the mission and node, without a public key.
    pub fn new(mission_id: MissionId, node_id: NodeId) -> (r: Self)
        ensures
            r == (SyncConfig { mission_id, node_id, public_key: None }),
    {
        SyncConfig { mission_id, node_id, public_key: None }
    }

    /// The same settings with the public key set.
    pub fn with_public_key(self, public_key: [u8; 32]) -> (r: Self)
        ensures
            r == (SyncConfig { public_key: Some(public_key), ..self }),
    {
        let mut r = self;
        r.public_key = Some(public_key);
        r
    }
}

} // verus!

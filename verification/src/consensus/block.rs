//! Blocks of the operation log: header, operations with their Merkle root,
//! state commitment and signatures.

use vstd::prelude::*;
use crate::codec::{be64, push_all, push_be64};
use crate::consensus::operation::{Operation, spec_hash};
use crate::digest::{sha256, sha256_digest};
use crate::execution::context::StateSnapshot;
use crate::keyorder::bytes_equal;
use crate::xorfold::zero32;

verus! {

/// Block header: metadata about the block.
#[derive(Debug, Clone, PartialEq, Eq)]
pub struct BlockHeader {
    /// Block number in the chain
    pub block_number: u64,
    /// Hash of the parent block
    pub parent_hash: [u8; 32],
    /// State root before executing this block
    pub state_root_before: [u8; 32],
    /// State root after executing this block
    pub state_root_after: [u8; 32],
    /// Merkle root of operations in this block
    pub operation_root: [u8; 32],
    /// Timestamp when block was proposed
    pub timestamp: u64,
    /// Maximum gas allowed in this block
    pub gas_limit: u64,
    /// Total gas used by operations in this block
    pub gas_used: u64,
    /// Address of the block proposer
    pub proposer: [u8; 32],
    /// Additional data (e.g., validator signatures)
    pub extra_data: Vec<u8>,
}

/// The bytes that the header hash covers: every field in order, numbers
/// big-endian.
pub open spec fn header_bytes(h: BlockHeader) -> Seq<u8> {
    be64(h.block_number) + h.parent_hash@ + h.state_root_before@ + h.state_root_after@
        + h.operation_root@ + be64(h.timestamp) + be64(h.gas_limit) + be64(h.gas_used)
        + h.proposer@ + h.extra_data@
}

impl BlockHeader {
    /// SHA-256 of the header's fields (see `header_bytes`).
    pub fn hash(&self) -> (r: [u8; 32])
        ensures
            r@ == sha256(header_bytes(*self)),
    {
        let mut data: Vec<u8> = Vec::new();
        push_be64(&mut data, self.block_number);
        push_all(&mut data, self.parent_hash.as_slice());
        push_all(&mut data, self.state_root_before.as_slice());
        push_all(&mut data, self.state_root_after.as_slice());
        push_all(&mut data, self.operation_root.as_slice());
        push_be64(&mut data, self.timestamp);
        push_be64(&mut data, self.gas_limit);
        push_be64(&mut data, self.gas_used);
        push_all(&mut data, self.proposer.as_slice());
        push_all(&mut data, self.extra_data.as_slice());
        assert(data@ =~= header_bytes(*self));
        sha256_digest(data.as_slice())
    }
}

/// The hash of an inner node: SHA-256 of the two children.
pub open spec fn node_hash(a: Seq<u8>, b: Seq<u8>) -> Seq<u8> {
    sha256(a + b)
}

/// The level above `hs`: adjacent pairs hashed together, a last odd node
/// hashed with itself.
pub open spec fn next_level(hs: Seq<Seq<u8>>) -> Seq<Seq<u8>> {
    Seq::new(
        ((hs.len() + 1) / 2) as nat,
        |i: int|
            if 2 * i + 1 < hs.len() {
                node_hash(hs[2 * i], hs[2 * i + 1])
            } else {
                node_hash(hs[2 * i], hs[2 * i])
            },
    )
}

/// The Merkle root of the leaves `hs`: zero for none, the leaf itself for
/// one, else the root of the level above.
pub open spec fn merkle_root(hs: Seq<Seq<u8>>) -> Seq<u8>
    decreases hs.len(),
{
    if hs.len() == 0 {
        zero32()
    } else if hs.len() == 1 {
        hs[0]
    } else {
        merkle_root(next_level(hs))
    }
}

/// The operation root: the Merkle root of the operations' hashes.
pub open spec fn operation_root(ops: Seq<Operation>) -> Seq<u8> {
    merkle_root(operation_hashes(ops))
}

/// The hash of each operation, in order.
pub open spec fn operation_hashes(ops: Seq<Operation>) -> Seq<Seq<u8>> {
    ops.map_values(|op: Operation| spec_hash(op@))
}

/// The views of a list of digests.
pub open spec fn hashes_view(hs: Seq<[u8; 32]>) -> Seq<Seq<u8>> {
    hs.map_values(|h: [u8; 32]| h@)
}

/// The hash of an inner node over two child digests.
fn hash_pair(a: &[u8; 32], b: &[u8; 32]) -> (r: [u8; 32])
    ensures
        r@ == node_hash(a@, b@),
{
    let mut data: Vec<u8> = Vec::new();
    push_all(&mut data, a.as_slice());
    push_all(&mut data, b.as_slice());
    sha256_digest(data.as_slice())
}

/// The Merkle root of `leaves`, level by level (see `merkle_root`).
fn merkle_root_exec(leaves: Vec<[u8; 32]>) -> (r: [u8; 32])
    ensures
        r@ == merkle_root(hashes_view(leaves@)),
{
    if leaves.len() == 0 {
        let z = [0u8; 32];
        assert(z@ =~= zero32());
        return z;
    }
    let mut hashes = leaves;
    while hashes.len() > 1
        invariant
            hashes@.len() >= 1,
            merkle_root(hashes_view(hashes@)) == merkle_root(hashes_view(leaves@)),
        decreases hashes@.len(),
    {
        let n = hashes.len();
        let ghost level = hashes_view(hashes@);
        let m = n / 2 + n % 2;
        let mut next: Vec<[u8; 32]> = Vec::new();
        let mut k: usize = 0;
        while k < m
            invariant
                n == hashes@.len(),
                n >= 2,
                m == (n + 1) / 2,
                level == hashes_view(hashes@),
                k <= m,
                next@.len() == k,
                forall|t: int| 0 <= t < k ==> #[trigger] next@[t]@ == next_level(level)[t],
            decreases m - k,
        {
            let j = 2 * k;
            let h = if j + 1 < n {
                hash_pair(&hashes[j], &hashes[j + 1])
            } else {
                hash_pair(&hashes[j], &hashes[j])
            };
            next.push(h);
            k = k + 1;
        }
        assert(hashes_view(next@) =~= next_level(level));
        hashes = next;
    }
    assert(hashes_view(hashes@) =~= seq![hashes@[0]@]);
    hashes[0]
}

/// Operations contained in a block with their commitment.
#[derive(Debug, Clone, PartialEq, Eq)]
pub struct BlockOperations {
    /// Block number
    pub block_number: u64,
    /// List of operations in this block
    pub operations: Vec<Operation>,
    /// State root before executing operations
    pub state_root_before: [u8; 32],
    /// State root after executing operations
    pub state_root_after: [u8; 32],
    /// Merkle root of operations
    pub operation_root: [u8; 32],
}

impl BlockOperations {
    /// The Merkle root of the operations (see `operation_root`).
    pub fn compute_operation_root(operations: &[Operation]) -> (r: [u8; 32])
        ensures
            r@ == operation_root(operations@),
    {
        let mut hashes: Vec<[u8; 32]> = Vec::new();
        let mut i: usize = 0;
        while i < operations.len()
            invariant
                i <= operations@.len(),
                hashes_view(hashes@) == operation_hashes(operations@.subrange(0, i as int)),
            decreases operations@.len() - i,
        {
            let h = operations[i].hash();
            let ghost before = hashes@;
            hashes.push(h);
            assert(hashes_view(hashes@) =~= hashes_view(before).push(h@));
            assert(operation_hashes(operations@.subrange(0, i + 1)) =~= operation_hashes(
                operations@.subrange(0, i as int),
            ).push(spec_hash(operations@[i as int]@)));
            i = i + 1;
        }
        assert(operations@.subrange(0, operations@.len() as int) =~= operations@);
        merkle_root_exec(hashes)
    }

    /// Operations of a block with their root computed.
    pub fn new(
        block_number: u64,
        operations: Vec<Operation>,
        state_root_before: [u8; 32],
        state_root_after: [u8; 32],
    ) -> (r: Self)
        ensures
            r.block_number == block_number,
            r.operations == operations,
            r.state_root_before == state_root_before,
            r.state_root_after == state_root_after,
            r.operation_root@ == operation_root(operations@),
    {
        let operation_root = Self::compute_operation_root(operations.as_slice());
        BlockOperations {
            block_number,
            operations,
            state_root_before,
            state_root_after,
            operation_root,
        }
    }

    /// Whether the stored root is the root of the operations.
    pub fn verify_operation_root(&self) -> (r: bool)
        ensures
            r == (self.operation_root@ == operation_root(self.operations@)),
    {
        let computed = Self::compute_operation_root(self.operations.as_slice());
        bytes_equal(self.operation_root.as_slice(), computed.as_slice())
    }
}

/// A block of the chain.
#[derive(Debug)]
pub struct Block {
    /// Block header with metadata
    pub header: BlockHeader,
    /// Operations in this block
    pub operations: BlockOperations,
    /// State commitment after executing this block
    pub state_commitment: StateSnapshot,
    /// Signatures from validators
    pub signatures: Vec<[u8; 64]>,
}

/// Errors that can occur during block verification.
#[derive(Debug, Clone, PartialEq, Eq)]
pub enum BlockError {
    /// Operation root does not match the operations
    InvalidOperationRoot,
    /// State roots are inconsistent
    StateRootMismatch,
    /// Gas used exceeds gas limit
    GasLimitExceeded { used: u64, limit: u64 },
    /// Block number mismatch between header and operations
    BlockNumberMismatch,
}

/// The outcome of verifying a block: the first failed check, in order.
pub open spec fn verify_outcome(b: Block) -> Result<(), BlockError> {
    if b.header.operation_root@ != b.operations.operation_root@ {
        Err(BlockError::InvalidOperationRoot)
    } else if b.operations.operation_root@ != operation_root(b.operations.operations@) {
        Err(BlockError::InvalidOperationRoot)
    } else if b.header.state_root_before@ != b.operations.state_root_before@ {
        Err(BlockError::StateRootMismatch)
    } else if b.header.state_root_after@ != b.operations.state_root_after@ {
        Err(BlockError::StateRootMismatch)
    } else if b.header.gas_used > b.header.gas_limit {
        Err(BlockError::GasLimitExceeded { used: b.header.gas_used, limit: b.header.gas_limit })
    } else if b.header.block_number != b.operations.block_number {
        Err(BlockError::BlockNumberMismatch)
    } else {
        Ok(())
    }
}

impl Block {
    /// Checks, in order: the header's operation root equals the operations'
    /// stored root, which is the root of the operations; both state roots
    /// agree; gas used is within the limit; the block numbers agree.
    pub fn verify(&self) -> (r: Result<(), BlockError>)
        ensures
            r == verify_outcome(*self),
    {
        if !bytes_equal(self.header.operation_root.as_slice(), self.operations.operation_root.as_slice()) {
            return Err(BlockError::InvalidOperationRoot);
        }
        if !self.operations.verify_operation_root() {
            return Err(BlockError::InvalidOperationRoot);
        }
        if !bytes_equal(self.header.state_root_before.as_slice(), self.operations.state_root_before.as_slice()) {
            return Err(BlockError::StateRootMismatch);
        }
        if !bytes_equal(self.header.state_root_after.as_slice(), self.operations.state_root_after.as_slice()) {
            return Err(BlockError::StateRootMismatch);
        }
        if self.header.gas_used > self.header.gas_limit {
            return Err(
                BlockError::GasLimitExceeded {
                    used: self.header.gas_used,
                    limit: self.header.gas_limit,
                },
            );
        }
        if self.header.block_number != self.operations.block_number {
            return Err(BlockError::BlockNumberMismatch);
        }
        Ok(())
    }

    /// The block hash: the hash of its header.
    pub fn hash(&self) -> (r: [u8; 32])
        ensures
            r@ == sha256(header_bytes(self.header)),
    {
        self.header.hash()
    }

    /// A block whose operations take the header's number and state roots,
    /// with their root computed.
    pub fn new(
        header: BlockHeader,
        operations: Vec<Operation>,
        state_commitment: StateSnapshot,
        signatures: Vec<[u8; 64]>,
    ) -> (r: Self)
        ensures
            r.header == header,
            r.operations.block_number == header.block_number,
            r.operations.operations == operations,
            r.operations.state_root_before == header.state_root_before,
            r.operations.state_root_after == header.state_root_after,
            r.operations.operation_root@ == operation_root(operations@),
            r.state_commitment == state_commitment,
            r.signatures == signatures,
    {
        let block_operations = BlockOperations::new(
            header.block_number,
            operations,
            header.state_root_before,
            header.state_root_after,
        );
        Block { header, operations: block_operations, state_commitment, signatures }
    }
}

/// The root of no operations is zero, and the root of one operation is
/// that operation's hash.
pub proof fn lemma_operation_root_small(op: Operation)
    ensures
        operation_root(Seq::<Operation>::empty()) == zero32(),
        operation_root(seq![op]) == spec_hash(op@),
{
    assert(operation_hashes(Seq::<Operation>::empty()) =~= Seq::<Seq<u8>>::empty());
    assert(operation_hashes(seq![op]) =~= seq![spec_hash(op@)]);
}

/// A block assembled by `Block::new` (its operations carry the header's
/// number and state roots and their own root) verifies exactly when the
/// header records that root and its gas used is within its limit.
pub proof fn lemma_assembled_block_verifies(b: Block)
    requires
        b.operations.block_number == b.header.block_number,
        b.operations.state_root_before == b.header.state_root_before,
        b.operations.state_root_after == b.header.state_root_after,
        b.operations.operation_root@ == operation_root(b.operations.operations@),
    ensures
        verify_outcome(b) == if b.header.operation_root@ != operation_root(b.operations.operations@) {
            Err::<(), BlockError>(BlockError::InvalidOperationRoot)
        } else if b.header.gas_used > b.header.gas_limit {
            Err(BlockError::GasLimitExceeded { used: b.header.gas_used, limit: b.header.gas_limit })
        } else {
            Ok(())
        },
{
}


/// Each level of the tree has one node per pair of nodes below it, an odd
/// node left over being paired with itself: `n` nodes give `(n + 1) / 2`,
/// adjacent pairs are hashed in order, and the last of an odd count is
/// hashed with itself, so no node is dropped.
pub proof fn lemma_next_level_pairs_every_node(hs: Seq<Seq<u8>>)
    ensures
        next_level(hs).len() == (hs.len() + 1) / 2,
        forall|i: int|
            0 <= i < hs.len() / 2 ==> #[trigger] next_level(hs)[i] == sha256(hs[2 * i] + hs[2 * i + 1]),
        hs.len() % 2 == 1 ==> next_level(hs)[(hs.len() / 2) as int] == sha256(hs.last() + hs.last()),
{
}

/// The root over three leaves: the hash of the first two's hash and the
/// third hashed with itself.
pub proof fn lemma_merkle_root_three(h1: Seq<u8>, h2: Seq<u8>, h3: Seq<u8>)
    ensures
        merkle_root(seq![h1, h2, h3]) == sha256(sha256(h1 + h2) + sha256(h3 + h3)),
{
    let hs = seq![h1, h2, h3];
    let l1 = next_level(hs);
    assert(l1 =~= seq![sha256(h1 + h2), sha256(h3 + h3)]);
    let l2 = next_level(l1);
    assert(l2 =~= seq![sha256(sha256(h1 + h2) + sha256(h3 + h3))]);
    assert(merkle_root(l2) == l2[0]);
    assert(merkle_root(l1) == merkle_root(l2));
    assert(merkle_root(hs) == merkle_root(l1));
}


/// A block verifies exactly when the header's operation root is the
/// operations' stored root, that root is the root of the operations, the
/// header's state roots before and after equal the operations', gas used
/// is within the limit, and the block numbers agree. In particular a block
/// whose post-state roots disagree never verifies.
pub proof fn lemma_verify_ok_iff(b: Block)
    ensures
        verify_outcome(b) is Ok <==> {
            &&& b.header.operation_root@ == b.operations.operation_root@
            &&& b.operations.operation_root@ == operation_root(b.operations.operations@)
            &&& b.header.state_root_before@ == b.operations.state_root_before@
            &&& b.header.state_root_after@ == b.operations.state_root_after@
            &&& b.header.gas_used <= b.header.gas_limit
            &&& b.header.block_number == b.operations.block_number
        },
        b.header.state_root_after@ != b.operations.state_root_after@ ==> verify_outcome(b) is Err,
        b.header.state_root_before@ != b.operations.state_root_before@ ==> verify_outcome(b) is Err,
        b.header.gas_used > b.header.gas_limit ==> verify_outcome(b) is Err,
        b.header.block_number != b.operations.block_number ==> verify_outcome(b) is Err,
{
}

/// A block whose operation roots check out and whose post-state roots
/// disagree is rejected as a state-root mismatch.
pub proof fn lemma_verify_post_state_mismatch(b: Block)
    requires
        b.header.operation_root@ == b.operations.operation_root@,
        b.operations.operation_root@ == operation_root(b.operations.operations@),
        b.header.state_root_after@ != b.operations.state_root_after@,
    ensures
        verify_outcome(b) == Err::<(), BlockError>(BlockError::StateRootMismatch),
{
}

} // verus!

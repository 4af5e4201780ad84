//! What the query endpoints take and give, and how they answer.

use vstd::prelude::*;
use crate::error::TreeError;
use crate::field::Field;
use crate::path::{fold_path, Proof};
use crate::world_tree::{is_answer, WorldTree};

verus! {

/// A request for the inclusion proof of a commitment, against the latest
/// root or against a given one.
#[derive(Clone, Copy, Debug)]
pub struct InclusionProofRequest {
    pub identity_commitment: Field,
    pub root: Option<Field>,
}

impl InclusionProofRequest {
    /// A request for the proof of the given commitment, against the given
    /// root or, where none is given, against the latest one.
    pub fn new(identity_commitment: Field, root: Option<Field>) -> (request:
        InclusionProofRequest)
        ensures
            request.identity_commitment == identity_commitment,
            request.root == root,
    {
        Self { identity_commitment, root }
    }
}

/// An inclusion proof together with the root that it leads to.
#[derive(Debug)]
pub struct InclusionProof {
    pub root: Field,
    pub proof: Proof,
    pub message: Option<String>,
}

impl InclusionProof {
    /// A proof with the root that it leads to, and a message to go with it.
    pub fn new(root: Field, proof: Proof, message: Option<String>) -> (res: InclusionProof)
        ensures
            res.root == root,
            res.proof == proof,
            res.message == message,
    {
        Self { root, proof, message }
    }
}

/// How far the mirror has come: whether it is level with the chain, and, if
/// it is not, the last block whose events it has applied.
#[derive(Clone, Copy, Debug, PartialEq, Eq, Structural)]
pub struct SyncResponse {
    pub synced: bool,
    pub block_number: Option<u64>,
}

impl SyncResponse {
    /// A response with the given flag and block number.
    pub fn new(synced: bool, block_number: Option<u64>) -> (response: SyncResponse)
        ensures
            response.synced == synced,
            response.block_number == block_number,
    {
        Self { synced, block_number }
    }

    /// The response for a mirror with the given flag and position: the block
    /// number is given only while the mirror is behind the chain.
    pub fn status(synced: bool, latest_synced_block: u64) -> (response: SyncResponse)
        ensures
            response == sync_status(synced, latest_synced_block),
    {
        if synced {
            SyncResponse::new(true, None)
        } else {
            SyncResponse::new(false, Some(latest_synced_block))
        }
    }
}

/// The response for a mirror with the given flag and position.
pub open spec fn sync_status(synced: bool, latest_synced_block: u64) -> SyncResponse {
    SyncResponse {
        synced,
        block_number: if synced {
            None
        } else {
            Some(latest_synced_block)
        },
    }
}

/// Answers a request for an inclusion proof.
///
/// Until the mirror has been level with the chain for the first time, the
/// request is refused. After that the answer is that of
/// [`WorldTree::get_inclusion_proof`].
pub fn inclusion_proof(world_tree: &WorldTree, req: InclusionProofRequest) -> (res: Result<
    Option<InclusionProof>,
    TreeError,
>)
    ensures
        match res {
            Ok(answer) => {
                &&& world_tree@.caught_up
                &&& is_answer(world_tree@, req.identity_commitment, req.root, answer)
                &&& answer matches Some(found) ==> fold_path(
                    req.identity_commitment@,
                    found.proof@,
                ) == found.root@
            },
            Err(e) => e == TreeError::TreeNotSynced && !world_tree@.caught_up,
        },
{
    if world_tree.has_caught_up() {
        Ok(world_tree.get_inclusion_proof(req.identity_commitment, req.root))
    } else {
        Err(TreeError::TreeNotSynced)
    }
}

/// Says how far the mirror has come. The block number is given only while
/// the mirror is behind the chain.
pub fn synced(world_tree: &WorldTree) -> (response: SyncResponse)
    ensures
        response == sync_status(world_tree@.synced, world_tree@.latest_synced_block),
{
    SyncResponse::status(world_tree.is_synced(), world_tree.latest_synced_block())
}

} // verus!

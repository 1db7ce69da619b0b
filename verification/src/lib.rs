//! A BFT consensus service built around a BFT core: it signs what the core
//! decides, checks what other nodes send, collects votes and proposals, and
//! frames blocks as bytes.

use crate::types::{Address, Commit, ConsensusOutput, OutputView, Status, output_view};
use vstd::prelude::*;

/// Vote collection and proposal collection.
pub mod collection;
/// The consensus service.
pub mod consensus;
/// Types of the BFT core's messages.
pub mod core_types;
/// Consensus error.
pub mod error;
/// The model of the LRU caches that hold votes and proposals.
pub mod lru;
/// RLP encodings of the signed messages.
pub mod rlp_codec;
/// Laws of the proof, lock, commit and proposal checks.
pub mod laws;
/// Reading the signed messages back from their RLP encodings.
pub mod rlp_decode;
/// Types used in consensus.
pub mod types;
/// Byte framing, vote weights and proof checks.
pub mod util;
/// The write-ahead log: its entries and their replay.
pub mod wal;

/// The check of the proof of a block.
pub use util::check_proof;

verus! {

/// The content of a proposal: a block, as the users of the service define it.
///
/// An implementation promises that `encode`, `decode` and `hash` give what
/// the relations `encodes_to`, `decodes_to` and `hashes_to` say, and that
/// `decode` fails only on bytes that are no block's encoding; the service's
/// contracts rest on that.
pub trait Content: Sized + Clone {
    /// The error of encoding and decoding.
    type Error;

    /// Whether `bytes` is an encoding of the block.
    spec fn encodes_to(&self, bytes: Seq<u8>) -> bool;

    /// Whether `bytes` reads as the block `block`.
    spec fn decodes_to(bytes: Seq<u8>, block: Self) -> bool;

    /// Whether `hash` is the hash of the block.
    spec fn hashes_to(&self, hash: Seq<u8>) -> bool;

    /// The bytes of the block.
    fn encode(self) -> (res: Result<Vec<u8>, Self::Error>)
        ensures
            res matches Ok(b) ==> self.encodes_to(b@),
    ;

    /// The block of some bytes.
    fn decode(bytes: &[u8]) -> (res: Result<Self, Self::Error>)
        ensures
            match res {
                Ok(v) => Self::decodes_to(bytes@, v),
                Err(_) => forall|v: Self| !Self::decodes_to(bytes@, v),
            },
    ;

    /// The hash of the block.
    fn hash(&self) -> (h: Vec<u8>)
        ensures
            self.hashes_to(h@),
    ;
}

/// What the service needs from the node that runs it.
///
/// An implementation promises that `hash` is a function of the message,
/// that `verify_signature` recovers, as a function of the signature and the
/// hash, one address or none, that a signature `sign` gives is one that
/// `signs` relates to the hash it was given, and that the outcomes of
/// `check_proposal`, `transmit` and `commit` are ones that `check_outcome`,
/// `transmits` and `commits` allow for what they were given; the service's
/// contracts rest on that.
pub trait ConsensusSupport<F: Content> {
    /// Support error type.
    type Error;

    /// The hash of a message.
    spec fn hash_of(&self, msg: Seq<u8>) -> Seq<u8>;

    /// The address that a signature over a hash recovers, if any.
    spec fn recovered(&self, signature: Seq<u8>, hash: Seq<u8>) -> Option<Seq<u8>>;

    /// Whether `signature` is a signature of the node over `hash`.
    spec fn signs(&self, hash: Seq<u8>, signature: Seq<u8>) -> bool;

    /// Whether `pass` is an outcome of the node's check of the block `block`
    /// with hash `block_hash`, proposed in the frame `signed_proposal_hash`
    /// at `height`, locked or not.
    spec fn check_outcome(
        &self,
        block_hash: Seq<u8>,
        block: F,
        signed_proposal_hash: Seq<u8>,
        height: u64,
        is_lock: bool,
        pass: bool,
    ) -> bool;

    /// Whether `ok` is an outcome of sending the message `msg` to the other
    /// nodes.
    spec fn transmits(&self, msg: OutputView<F>, ok: bool) -> bool;

    /// Whether `ok` is an outcome of committing `commit`.
    spec fn commits(&self, commit: Commit<F>, ok: bool) -> bool;

    /// The block to propose at a height, if there is one.
    fn get_content(&self, height: u64) -> Result<F, Self::Error>;

    /// Sends a message to the other nodes.
    fn transmit(&self, msg: ConsensusOutput<F>) -> (res: Result<(), Self::Error>)
        ensures
            self.transmits(output_view(msg), res is Ok),
    ;

    /// Checks the block of a proposal; `Ok` when it passes.
    fn check_proposal(
        &self,
        block_hash: &[u8],
        block: &F,
        signed_proposal_hash: &[u8],
        height: u64,
        is_lock: bool,
    ) -> (res: Result<(), Self::Error>)
        ensures
            self.check_outcome(
                block_hash@,
                *block,
                signed_proposal_hash@,
                height,
                is_lock,
                res is Ok,
            ),
    ;

    /// Commits a block; gives the status of the next height.
    fn commit(&self, commit: Commit<F>) -> (res: Result<Status, Self::Error>)
        ensures
            self.commits(commit, res is Ok),
    ;

    /// Signs a hash with the node's key.
    fn sign(&self, hash: &[u8]) -> (res: Result<Vec<u8>, Self::Error>)
        ensures
            res matches Ok(s) ==> self.signs(hash@, s@),
    ;

    /// The address that a signature over a hash recovers.
    fn verify_signature(&self, signature: &[u8], hash: &[u8]) -> (res: Result<Address, Self::Error>)
        ensures
            match res {
                Ok(a) => self.recovered(signature@, hash@) == Some(a@),
                Err(_) => self.recovered(signature@, hash@) is None,
            },
    ;

    /// The hash of a message.
    fn hash(&self, msg: &[u8]) -> (h: Vec<u8>)
        ensures
            h@ == self.hash_of(msg@),
    ;
}

} // verus!

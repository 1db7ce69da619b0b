use vstd::prelude::*;

verus! {

/// The errors that the consensus service reports.
#[derive(Debug, Clone, Copy, PartialEq, Eq, Structural)]
pub enum ConsensusError {
    /// A lock vote points at another proposal, or a voter locks twice.
    BlockVerifyDiff,
    /// A message could not be handed over.
    SendMsgErr,
    /// A call into the consensus support failed.
    SupportErr,
    /// A message could not be serialized.
    SerJsonErr,
    /// The write-ahead log could not be written.
    SaveWalErr,
    /// A message of the BFT core does not fit the current height.
    BftCoreErr,
    /// The block of a proposal is unknown.
    LoseBlock,
    /// A lock vote has no signed counterpart.
    LoseSignedVote,
    /// No vote set exists for the height, round and vote type.
    NoVoteset,
    /// A signature does not recover the expected address.
    SignatureErr,
    /// A message is below the current height.
    ObsoleteMsg,
    /// A message is above the current height; it was cached.
    FutureMsg,
    /// The authority list is empty.
    NoAuthorityList,
    /// The proposer is not the one whose turn it is.
    InvalidProposer,
    /// The voter is not an authority.
    InvalidVoter,
    /// The lock votes of a proposal do not form a legal lock.
    IllegalProposalLock,
    /// A byte frame could not be decoded.
    DecodeErr,
    /// A block could not be encoded.
    EncodeErr,
    /// No proof is at hand to build a proposal.
    MissingProof,
    /// A proof does not check out.
    ProofErr,
    /// A message could not be received.
    RecvMsgErr,
}

} // verus!

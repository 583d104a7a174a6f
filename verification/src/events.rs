//! The events carried on the broadcast bus between phase tasks, and the
//! flow-control hints a task hands to the networking collaborator.

use vstd::prelude::*;
use crate::certificate::SimpleCertificate;
use crate::data::{Leaf, Transaction, VidBlockPayload};
use crate::dispersal::Proposal;
use crate::vote::VidVote;

verus! {

/// An event on the bus.  Peer identities are carried as public key values.
pub enum HotShotEvent {
    /// New transactions arrived from the network.
    TransactionsRecv(Vec<Transaction>),
    /// A chain of leaves was decided.
    LeafDecided(Vec<Leaf>),
    /// The validator advanced to a new view.
    ViewChange(u64),
    /// Terminate every task.
    Shutdown,
    /// A dispersal vote arrived, to be routed to the leader's collector.
    VidVoteRecv(VidVote),
    /// This node casts a dispersal vote.
    VidVoteSend(VidVote),
    /// A dispersal proposal arrived from the named sender.
    VidDisperseRecv(Proposal, u64),
    /// This node, as leader, sends a dispersal proposal.
    VidDisperseSend(Proposal, u64),
    /// A dispersal certificate arrived.
    VidCertRecv(SimpleCertificate),
    /// A formed dispersal certificate is published by the named node.
    VidCertSend(SimpleCertificate, u64),
    /// The leader finished building a block for the named view.
    BlockReady(VidBlockPayload, u64),
}

/// A flow-control hint to the networking collaborator: what to poll for, or
/// to stop polling for, in a given view.  Hint only, not correctness
/// critical.
#[derive(Clone, Copy, PartialEq, Eq, Debug, Structural)]
pub enum ConsensusIntentEvent {
    /// Start polling for dispersal proposals for this view.
    PollForVIDDisperse(u64),
    /// Start polling for dispersal certificates for this view.
    PollForVIDCertificate(u64),
    /// Start polling for dispersal votes for this view.
    PollForVIDVotes(u64),
    /// Stop polling for dispersal votes for this view.
    CancelPollForVIDVotes(u64),
}

/// How a task ended.
#[derive(Clone, Copy, PartialEq, Eq, Debug, Structural)]
pub enum HotShotTaskCompleted {
    /// The task shut down.
    ShutDown,
}

} // verus!

//! The VID phase task and the per-view vote-collector task.
//!
//! The phase task reacts to dispersal proposals, votes and view changes; as
//! leader it spawns one short-lived collector per view, superseding and
//! cancelling the previous one.  The collector owns one accumulator and
//! terminates by producing a certificate or being cancelled.

use vstd::prelude::*;
use crate::certificate::{cert_eq, SimpleCertificate};
use crate::commitment::Commitment;
use crate::consensus::{upsert_spec, Consensus, Entry};
use crate::crypto::{Membership, Signature, VoteToken};
use crate::dispersal::Proposal;
use crate::events::{ConsensusIntentEvent, HotShotEvent, HotShotTaskCompleted};
use crate::phase::view_step;
use crate::vote::{
    has_signed, sigs_for, vote_valid, AccumulateResult, VidVote, VoteAccumulator,
};

verus! {

/// State of one per-view vote-collection task: it owns exactly one
/// accumulator, which a formed certificate replaces.
pub struct VIDVoteCollectionTaskState {
    /// This collector's handle on the membership oracle.
    pub membership: Membership,
    /// The owned accumulator, or the certificate that replaced it.
    pub accumulator: AccumulateResult,
    /// The one view this collector serves.
    pub cur_view: u64,
    /// Identifier of the parent task.
    pub id: u64,
}

impl VIDVoteCollectionTaskState {
    /// Well-formedness: a sound oracle, and a sound accumulator while still
    /// accumulating.
    pub open spec fn wf(self) -> bool {
        &&& self.membership.wf()
        &&& (self.accumulator matches AccumulateResult::Accumulating(a) ==> a.wf(self.membership))
    }

    /// Whether this collector has formed its certificate.
    pub open spec fn certified(self) -> bool {
        self.accumulator is Certified
    }

    /// The formed certificate.
    pub open spec fn certificate(self) -> SimpleCertificate
        recommends
            self.certified(),
    {
        self.accumulator->Certified_0
    }
}

/// What one collector step produced.
pub struct CollectorStep {
    /// Set when the collector finished and may be released by the registry.
    pub completed: Option<HotShotTaskCompleted>,
    /// The collector state after the step.
    pub state: VIDVoteCollectionTaskState,
    /// A certificate-formed event to publish, if the step formed one.
    pub publish: Option<HotShotEvent>,
    /// A hint to stop polling for votes, if the step formed a certificate.
    pub cancel_poll: Option<ConsensusIntentEvent>,
}

/// How one collector step relates to the state it started from.  Once
/// certified, a collector is inert: the state is kept and nothing is
/// published.  An event is published exactly when this step formed the
/// certificate, and then it carries that certificate, polling for votes is
/// cancelled for its view, and the collector reports completion.
pub open spec fn collector_step_rel(pre: VIDVoteCollectionTaskState, step: CollectorStep) -> bool {
    &&& pre.certified() ==> step.state == pre && step.publish is None && step.cancel_poll is None
        && step.completed is None
    &&& (step.publish is Some <==> (!pre.certified() && step.state.certified()))
    &&& (!pre.certified() && step.state.certified()) ==> (step.publish matches Some(e)
        && e matches HotShotEvent::VidCertSend(c, k) && cert_eq(c, step.state.certificate()) && k
        == pre.membership.own_key_spec() && step.cancel_poll == Some(
        ConsensusIntentEvent::CancelPollForVIDVotes(step.state.certificate().view_number),
    ) && step.completed == Some(HotShotTaskCompleted::ShutDown))
    &&& !step.state.certified() ==> (step.publish is None && step.cancel_poll is None
        && step.completed is None)
}

/// What feeding one vote to a still-accumulating collector does, stated over
/// the accumulator model.
pub open spec fn collector_vote_post(
    pre: VIDVoteCollectionTaskState,
    a: VoteAccumulator,
    vote: VidVote,
    r: CollectorStep,
) -> bool {
    let c = vote.payload_commitment;
    let key = vote.signature.signer_key;
    &&& (!vote_valid(pre.membership, vote) || has_signed(a, c, key)) ==> (
    r.state.accumulator matches AccumulateResult::Accumulating(a2) && a2.same_state(a))
    &&& (vote_valid(pre.membership, vote) && !has_signed(a, c, key) && sigs_for(a, c).len() + 1
        < pre.membership.success_threshold) ==> (
    r.state.accumulator matches AccumulateResult::Accumulating(a2) && sigs_for(a2, c) == sigs_for(
        a,
        c,
    ).push(vote.signature))
    &&& (vote_valid(pre.membership, vote) && !has_signed(a, c, key) && sigs_for(a, c).len() + 1
        >= pre.membership.success_threshold) ==> (
    r.state.accumulator matches AccumulateResult::Certified(cert) && cert.view_number
        == vote.current_view && cert.data == c && !cert.is_genesis && (
    cert.signatures matches Some(s) && s@ == sigs_for(a, c).push(vote.signature)))
}

/// Drive one event through a vote-collection task.
///
/// A vote is fed to the owned accumulator; a certificate formed by it is
/// published, vote polling for its view is cancelled, and the collector
/// completes.  Late votes after certification, and any event other than a
/// vote, are ignored.
pub fn vote_handle(state: VIDVoteCollectionTaskState, event: HotShotEvent) -> (r: CollectorStep)
    requires
        state.wf(),
    ensures
        r.state.wf(),
        r.state.membership == state.membership,
        r.state.cur_view == state.cur_view,
        r.state.id == state.id,
        collector_step_rel(state, r),
        !(event matches HotShotEvent::VidVoteRecv(_)) ==> (r.state == state && r.publish is None
            && r.cancel_poll is None && r.completed is None),
        (event is VidVoteRecv && state.accumulator is Accumulating) ==> collector_vote_post(
            state,
            state.accumulator->Accumulating_0,
            event->VidVoteRecv_0,
            r,
        ),
{
    match event {
        HotShotEvent::VidVoteRecv(vote) => {
            let VIDVoteCollectionTaskState { membership, accumulator, cur_view, id } = state;
            match accumulator {
                AccumulateResult::Certified(cert) => {
                    // A vote arriving after the certificate formed is
                    // ignored; the certificate stands.
                    CollectorStep {
                        completed: None,
                        state: VIDVoteCollectionTaskState {
                            membership,
                            accumulator: AccumulateResult::Certified(cert),
                            cur_view,
                            id,
                        },
                        publish: None,
                        cancel_poll: None,
                    }
                },
                AccumulateResult::Accumulating(acc) => {
                    let commitment = vote.payload_commitment;
                    match acc.accumulate(&membership, &vote, commitment) {
                        AccumulateResult::Accumulating(new_accumulator) => CollectorStep {
                            completed: None,
                            state: VIDVoteCollectionTaskState {
                                membership,
                                accumulator: AccumulateResult::Accumulating(new_accumulator),
                                cur_view,
                                id,
                            },
                            publish: None,
                            cancel_poll: None,
                        },
                        AccumulateResult::Certified(vid_cert) => {
                            // Threshold reached: publish the certificate,
                            // stop polling for votes, and complete.
                            let published = vid_cert.duplicate();
                            let cert_view = vid_cert.get_view_number();
                            let own_key = membership.public_key();
                            CollectorStep {
                                completed: Some(HotShotTaskCompleted::ShutDown),
                                state: VIDVoteCollectionTaskState {
                                    membership,
                                    accumulator: AccumulateResult::Certified(vid_cert),
                                    cur_view,
                                    id,
                                },
                                publish: Some(HotShotEvent::VidCertSend(published, own_key)),
                                cancel_poll: Some(
                                    ConsensusIntentEvent::CancelPollForVIDVotes(cert_view),
                                ),
                            }
                        },
                    }
                },
            }
        },
        _ => {
            // Any other event is a protocol violation for a collector: ignore
            // it.
            CollectorStep { completed: None, state, publish: None, cancel_poll: None }
        },
    }
}

/// The collector state after `k` steps of a run that starts at `s0`.
pub open spec fn state_at(
    s0: VIDVoteCollectionTaskState,
    steps: Seq<CollectorStep>,
    k: int,
) -> VIDVoteCollectionTaskState {
    if k == 0 {
        s0
    } else {
        steps[k - 1].state
    }
}

/// A run of a collector: each step relates the state before it to the state
/// after it.
pub open spec fn collector_run(s0: VIDVoteCollectionTaskState, steps: Seq<CollectorStep>) -> bool {
    forall|k: int|
        0 <= k < steps.len() ==> collector_step_rel(state_at(s0, steps, k), #[trigger] steps[k])
}

/// Once certified, a collector stays certified with the same state, and
/// publishes nothing further.
pub proof fn lemma_certified_stable(
    s0: VIDVoteCollectionTaskState,
    steps: Seq<CollectorStep>,
    i: int,
    j: int,
)
    requires
        collector_run(s0, steps),
        0 <= i <= j <= steps.len(),
        state_at(s0, steps, i).certified(),
    ensures
        state_at(s0, steps, j).certified(),
        state_at(s0, steps, j) == state_at(s0, steps, i),
        forall|k: int| i <= k < j ==> (#[trigger] steps[k]).publish is None,
    decreases j - i,
{
    if i < j {
        assert(collector_step_rel(state_at(s0, steps, i), steps[i]));
        assert(state_at(s0, steps, i + 1) == state_at(s0, steps, i));
        lemma_certified_stable(s0, steps, i + 1, j);
        assert forall|k: int| i <= k < j implies (#[trigger] steps[k]).publish is None by {
            if k == i {
                assert(steps[i].publish is None);
            }
        }
    }
}

/// A collector publishes its certificate exactly once: after the step that
/// published it, every further step publishes nothing and leaves the
/// collector on that same certificate.
pub proof fn lemma_certificate_published_once(
    s0: VIDVoteCollectionTaskState,
    steps: Seq<CollectorStep>,
    i: int,
    j: int,
)
    requires
        collector_run(s0, steps),
        0 <= i < j < steps.len(),
        steps[i].publish is Some,
    ensures
        steps[j].publish is None,
        steps[j].state == steps[i].state,
{
    assert(collector_step_rel(state_at(s0, steps, i), steps[i]));
    assert(state_at(s0, steps, i + 1).certified());
    lemma_certified_stable(s0, steps, i + 1, j + 1);
    assert(steps[j].publish is None);
}

/// State of the VID phase task.
pub struct VIDTaskState {
    /// View number the task is executing in.
    pub cur_view: u64,
    /// The task's handle on the membership oracle.
    pub membership: Membership,
    /// The view, task identifier and stream identifier of the live vote
    /// collector, if one exists.
    pub vote_collector: Option<(u64, usize, usize)>,
    /// Identifier of the task.
    pub id: u64,
}

/// What the task decided about a received vote.
pub enum VidVoteAction {
    /// This node is not the leader for the vote's view: discarded.
    NotLeader,
    /// The vote names a view older than the live collector: dropped.
    Stale,
    /// A collector for this very view exists: forward the vote to its
    /// stream.
    Forward(usize),
    /// Spawn a fresh collector seeded with this vote, cancelling the
    /// superseded one first.
    Spawn {
        /// Task identifier of the superseded collector to cancel, if any.
        cancel_task: Option<usize>,
        /// The spawned collector after consuming the vote, with anything it
        /// published.
        step: CollectorStep,
    },
}

/// What the task decided about a received dispersal.
pub enum DisperseAction {
    /// More than one view stale: dropped without a trace.
    StaleDrop,
    /// The sender is not the leader for the dispersal's view: dropped.
    WrongLeader,
    /// The leader's signature over the payload commitment failed: dropped.
    InvalidSignature,
    /// Valid, recorded in the ledger, but this node is not selected to vote.
    NotChosen,
    /// Valid and recorded; this node publishes the carried vote.
    Vote(VidVote),
}

/// What `handle_event` decided.
pub enum VidTaskAction {
    /// Nothing to do for this event.
    Ignored,
    /// The task terminates.
    ShutDown,
    /// The outcome of a received vote.
    Vote(VidVoteAction),
    /// The outcome of a received dispersal.
    Disperse(DisperseAction),
    /// Polling hints to hand to the networking collaborator.
    Intents(Vec<ConsensusIntentEvent>),
}

/// What handling a received vote guarantees.
pub open spec fn vote_recv_post(
    pre: VIDTaskState,
    vote: VidVote,
    new_task_id: usize,
    new_stream_id: usize,
    post: VIDTaskState,
    r: VidVoteAction,
) -> bool {
    let leader = pre.membership.leader_index_spec(vote.current_view) == pre.membership.own_index;
    &&& post.cur_view == pre.cur_view && post.id == pre.id && post.membership == pre.membership
    &&& !leader ==> (r is NotLeader && post.vote_collector == pre.vote_collector)
    &&& (leader && pre.vote_collector is Some && vote.current_view < (pre.vote_collector->0).0)
        ==> (r is Stale && post.vote_collector == pre.vote_collector)
    &&& (leader && pre.vote_collector is Some && vote.current_view == (pre.vote_collector->0).0)
        ==> (r matches VidVoteAction::Forward(sid) && sid == (pre.vote_collector->0).2
        && post.vote_collector == pre.vote_collector)
    &&& (leader && (pre.vote_collector is None || vote.current_view > (pre.vote_collector->0).0))
        ==> (r matches VidVoteAction::Spawn { cancel_task, step } && cancel_task == (
    match pre.vote_collector {
        Some(h) => Some(h.1),
        None => None,
    }) && post.vote_collector == Some((vote.current_view, new_task_id, new_stream_id))
        && step.state.wf() && step.state.cur_view == vote.current_view && step.state.id == pre.id
        && step.state.membership.nodes@ == pre.membership.nodes@ && spawn_step_post(
        pre.membership,
        vote,
        step,
    ))
}

/// What the first step of a freshly spawned collector guarantees: the
/// accumulator starts empty and consumes exactly this vote.
pub open spec fn spawn_step_post(m: Membership, vote: VidVote, step: CollectorStep) -> bool {
    let c = vote.payload_commitment;
    &&& !vote_valid(m, vote) ==> (step.state.accumulator matches AccumulateResult::Accumulating(a)
        && sigs_for(a, c) == Seq::<Signature>::empty() && step.publish is None)
    &&& (vote_valid(m, vote) && m.success_threshold > 1) ==> (
    step.state.accumulator matches AccumulateResult::Accumulating(a) && sigs_for(a, c) == Seq::<
        Signature,
    >::empty().push(vote.signature) && step.publish is None)
    &&& (vote_valid(m, vote) && m.success_threshold == 1) ==> (
    step.state.accumulator matches AccumulateResult::Certified(cert) && cert.view_number
        == vote.current_view && cert.data == c && (cert.signatures matches Some(s) && s@ == Seq::<
        Signature,
    >::empty().push(vote.signature)) && (step.publish matches Some(e)
        && e matches HotShotEvent::VidCertSend(c2, k) && cert_eq(c2, cert) && k == m.own_key_spec())
        && step.completed == Some(HotShotTaskCompleted::ShutDown))
}

/// What handling a received dispersal guarantees.
pub open spec fn disperse_recv_post(
    pre: VIDTaskState,
    pre_c: Consensus,
    proposal: Proposal,
    sender: u64,
    post: VIDTaskState,
    post_c: Consensus,
    r: DisperseAction,
) -> bool {
    let view = proposal.data.view_number;
    let pc = proposal.data.payload_commitment;
    let leader = pre.membership.leader_of(view);
    let eligible = pre.membership.vote_eligible@[pre.membership.own_index as int];
    &&& post == pre
    &&& view + 1 < pre.cur_view ==> (r is StaleDrop && post_c == pre_c)
    &&& (view + 1 >= pre.cur_view && leader != sender) ==> (r is WrongLeader && post_c == pre_c)
    &&& (view + 1 >= pre.cur_view && leader == sender && !Membership::sig_valid(
        leader,
        proposal.signature,
        pc,
    )) ==> (r is InvalidSignature && post_c == pre_c)
    &&& (view + 1 >= pre.cur_view && leader == sender && Membership::sig_valid(
        leader,
        proposal.signature,
        pc,
    )) ==> {
        &&& post_c.view_map() == upsert_spec(pre_c.view_map(), view, Entry::DataOnly { block: pc })
        &&& post_c.saved_leaves@ == pre_c.saved_leaves@
        &&& post_c.high_qc == pre_c.high_qc
        &&& !eligible ==> r is NotChosen
        &&& eligible ==> r == DisperseAction::Vote(
            VidVote {
                signature: Signature { signer_key: pre.membership.own_key_spec(), data: pc },
                current_view: view,
                payload_commitment: pc,
                vote_token: VoteToken { signer_index: pre.membership.own_index, view },
            },
        )
    }
}

/// What handling a view change guarantees: a stale view changes nothing; a
/// fresh one advances the current view and asks the network to poll for the
/// next view's dispersal and certificate, and for its votes if this node
/// leads it.
pub open spec fn view_change_post(
    pre: VIDTaskState,
    view: u64,
    post: VIDTaskState,
    intents: Seq<ConsensusIntentEvent>,
) -> bool {
    let next = (view + 1) as u64;
    &&& post.cur_view == view_step(pre.cur_view, view)
    &&& post.membership == pre.membership && post.id == pre.id && post.vote_collector
        == pre.vote_collector
    &&& pre.cur_view >= view ==> (post == pre && intents == Seq::<ConsensusIntentEvent>::empty())
    &&& (pre.cur_view < view && pre.membership.leader_index_spec(next)
        == pre.membership.own_index) ==> intents == seq![
        ConsensusIntentEvent::PollForVIDDisperse(next),
        ConsensusIntentEvent::PollForVIDCertificate(next),
        ConsensusIntentEvent::PollForVIDVotes(next),
    ]
    &&& (pre.cur_view < view && pre.membership.leader_index_spec(next)
        != pre.membership.own_index) ==> intents == seq![
        ConsensusIntentEvent::PollForVIDDisperse(next),
        ConsensusIntentEvent::PollForVIDCertificate(next),
    ]
}

impl VIDTaskState {
    /// Route a received vote: discard it unless this node leads its view;
    /// drop it if older than the live collector; forward it to a collector
    /// for the same view; otherwise cancel the superseded collector and
    /// spawn a fresh one seeded with this vote, registered under the two
    /// fresh identifiers.
    pub fn handle_vote_recv(
        &mut self,
        vote: VidVote,
        new_task_id: usize,
        new_stream_id: usize,
    ) -> (r: VidVoteAction)
        requires
            old(self).membership.wf(),
        ensures
            vote_recv_post(*old(self), vote, new_task_id, new_stream_id, *final(self), r),
    {
        let view = vote.current_view;
        if !self.membership.is_leader(view) {
            return VidVoteAction::NotLeader;
        }
        let cancel_task = match self.vote_collector {
            Some((collection_view, collection_id, stream_id)) => {
                if view < collection_view {
                    return VidVoteAction::Stale;
                }
                if view == collection_view {
                    return VidVoteAction::Forward(stream_id);
                }
                Some(collection_id)
            },
            None => None,
        };
        // Build the fresh collector and feed it this vote.
        let membership = self.membership.duplicate();
        let new_accumulator = VoteAccumulator::new(&membership);
        let state = VIDVoteCollectionTaskState {
            membership,
            accumulator: AccumulateResult::Accumulating(new_accumulator),
            cur_view: view,
            id: self.id,
        };
        proof {
            assert(vote_valid(state.membership, vote) == vote_valid(self.membership, vote));
            assert(sigs_for(new_accumulator, vote.payload_commitment) =~= Seq::<Signature>::empty());
        }
        let step = vote_handle(state, HotShotEvent::VidVoteRecv(vote));
        self.vote_collector = Some((view, new_task_id, new_stream_id));
        VidVoteAction::Spawn { cancel_task, step }
    }

    /// Validate a received dispersal and, when it is fresh and properly
    /// signed by its view's leader, record its payload commitment in the
    /// ledger and vote for it if this node is selected.
    pub fn handle_disperse_recv(
        &self,
        consensus: &mut Consensus,
        proposal: &Proposal,
        sender: u64,
    ) -> (r: DisperseAction)
        requires
            self.membership.wf(),
            old(consensus).wf(),
            proposal.data.view_number < u64::MAX,
        ensures
            final(consensus).wf(),
            disperse_recv_post(
                *self,
                *old(consensus),
                *proposal,
                sender,
                *self,
                *final(consensus),
                r,
            ),
    {
        let view = proposal.data.view_number;
        // Allow dispersal data that is one view older, in case this node has
        // already advanced its view.
        if view + 1 < self.cur_view {
            return DisperseAction::StaleDrop;
        }
        let payload_commitment = proposal.data.payload_commitment;
        let view_leader_key = self.membership.get_leader(view);
        if view_leader_key != sender {
            return DisperseAction::WrongLeader;
        }
        if !Membership::validate(view_leader_key, &proposal.signature, payload_commitment) {
            return DisperseAction::InvalidSignature;
        }
        // Record the view in the ledger regardless of voting; never
        // overwrite a leaf entry already there.
        consensus.insert_if_absent_or_richer(view, Entry::DataOnly { block: payload_commitment });
        match self.membership.make_vote_token(view) {
            None => DisperseAction::NotChosen,
            Some(vote_token) => {
                let vote = self.membership.create_vid_message(
                    payload_commitment,
                    view,
                    vote_token,
                );
                DisperseAction::Vote(vote)
            },
        }
    }

    /// Handling a received dispersal certificate is left open by the current
    /// design: the event is accepted and ignored.
    pub fn handle_cert_recv(&self, _cert: &SimpleCertificate) {
    }

    /// Advance to a fresh view and return the polling hints for the next
    /// one; ignore a stale view change.
    pub fn handle_view_change(&mut self, view: u64) -> (r: Vec<ConsensusIntentEvent>)
        requires
            old(self).membership.wf(),
            view < u64::MAX,
        ensures
            view_change_post(*old(self), view, *final(self), r@),
    {
        if self.cur_view >= view {
            return Vec::new();
        }
        self.cur_view = view;
        let next = view + 1;
        let mut intents: Vec<ConsensusIntentEvent> = Vec::new();
        intents.push(ConsensusIntentEvent::PollForVIDDisperse(next));
        intents.push(ConsensusIntentEvent::PollForVIDCertificate(next));
        if self.membership.is_leader(next) {
            intents.push(ConsensusIntentEvent::PollForVIDVotes(next));
            proof {
                assert(intents@ =~= seq![
                    ConsensusIntentEvent::PollForVIDDisperse(next),
                    ConsensusIntentEvent::PollForVIDCertificate(next),
                    ConsensusIntentEvent::PollForVIDVotes(next),
                ]);
            }
        } else {
            proof {
                assert(intents@ =~= seq![
                    ConsensusIntentEvent::PollForVIDDisperse(next),
                    ConsensusIntentEvent::PollForVIDCertificate(next),
                ]);
            }
        }
        intents
    }

    /// The main event handler: route each consumed event to its
    /// handler and hand the decided action back to the caller.
    pub fn handle_event(
        &mut self,
        consensus: &mut Consensus,
        event: HotShotEvent,
        new_task_id: usize,
        new_stream_id: usize,
    ) -> (r: VidTaskAction)
        requires
            old(self).membership.wf(),
            old(consensus).wf(),
            (event matches HotShotEvent::ViewChange(v) ==> v < u64::MAX),
            (event matches HotShotEvent::VidDisperseRecv(p, s) ==> p.data.view_number < u64::MAX),
        ensures
            final(consensus).wf(),
            event is VidVoteRecv ==> (r matches VidTaskAction::Vote(a) && vote_recv_post(
                *old(self),
                event->VidVoteRecv_0,
                new_task_id,
                new_stream_id,
                *final(self),
                a,
            ) && *final(consensus) == *old(consensus)),
            event is VidDisperseRecv ==> (r matches VidTaskAction::Disperse(a)
                && disperse_recv_post(
                *old(self),
                *old(consensus),
                event->VidDisperseRecv_0,
                event->VidDisperseRecv_1,
                *final(self),
                *final(consensus),
                a,
            )),
            event is ViewChange ==> (r matches VidTaskAction::Intents(is) && view_change_post(
                *old(self),
                event->ViewChange_0,
                *final(self),
                is@,
            ) && *final(consensus) == *old(consensus)),
            (event matches HotShotEvent::Shutdown) ==> (r is ShutDown && *final(self) == *old(self)
                && *final(consensus) == *old(consensus)),
            (event matches HotShotEvent::VidCertRecv(_)) ==> (r is Ignored && *final(self) == *old(
                self,
            ) && *final(consensus) == *old(consensus)),
            !(event matches HotShotEvent::VidVoteRecv(_) || event matches
            HotShotEvent::VidDisperseRecv(_, _) || event matches HotShotEvent::ViewChange(_)
                || event matches HotShotEvent::Shutdown || event matches HotShotEvent::VidCertRecv(
                _,
            )) ==> (r is Ignored && *final(self) == *old(self) && *final(consensus) == *old(
                consensus,
            )),
    {
        match event {
            HotShotEvent::VidVoteRecv(vote) => {
                let a = self.handle_vote_recv(vote, new_task_id, new_stream_id);
                VidTaskAction::Vote(a)
            },
            HotShotEvent::VidDisperseRecv(proposal, sender) => {
                let a = self.handle_disperse_recv(consensus, &proposal, sender);
                VidTaskAction::Disperse(a)
            },
            HotShotEvent::VidCertRecv(cert) => {
                self.handle_cert_recv(&cert);
                VidTaskAction::Ignored
            },
            HotShotEvent::ViewChange(view) => {
                let intents = self.handle_view_change(view);
                VidTaskAction::Intents(intents)
            },
            HotShotEvent::Shutdown => VidTaskAction::ShutDown,
            _ => VidTaskAction::Ignored,
        }
    }

    /// Observability: the view the task is executing in.
    pub fn current_view(&self) -> (v: u64)
        ensures
            v == self.cur_view,
    {
        self.cur_view
    }

    /// Which events the VID task consumes.
    pub fn filter(event: &HotShotEvent) -> (r: bool)
        ensures
            r == (event matches HotShotEvent::Shutdown || event matches
            HotShotEvent::VidDisperseRecv(_, _) || event matches HotShotEvent::VidVoteRecv(_)
                || event matches HotShotEvent::VidCertRecv(_) || event matches
            HotShotEvent::ViewChange(_)),
    {
        match event {
            HotShotEvent::Shutdown => true,
            HotShotEvent::VidDisperseRecv(_, _) => true,
            HotShotEvent::VidVoteRecv(_) => true,
            HotShotEvent::VidCertRecv(_) => true,
            HotShotEvent::ViewChange(_) => true,
            _ => false,
        }
    }
}

} // verus!

use std::collections::VecDeque;
use vstd::prelude::*;

use crate::acceptor::{acceptor_next, lemma_methods_are_moves, Acceptor, AcceptorView};
use crate::common::{
    InstanceID, MessageView, NodeID, PaxosError, PaxosInstanceMessage,
    PaxosMessage, ProposalID, ProposalIDView,
};
use crate::learner::{count_of, count_up, Learner, LearnerView};
use crate::locker::{Operation, OperationView};
use crate::message::{
    infos_view, InfoView, MessageInfo, MessagePayload, MessageTarget, PayloadView, TargetView,
};
use crate::proposer::{majority_of, next_round, observed, Proposer, ProposerView};
use crate::rng::random_below;

verus! {

/// What handling a message yields: an error, or the slot's value when this
/// node learns it for the first time.
pub type Outcome = Result<Option<OperationView>, PaxosError>;

pub open spec fn outcome_view(r: Result<Option<Operation>, PaxosError>) -> Outcome {
    match r {
        Ok(Some(v)) => Ok(Some(v@)),
        Ok(None) => Ok(None),
        Err(e) => Err(e),
    }
}

/// The outbound entry for message `m` of slot `slot`.
pub open spec fn outbound(
    slot: InstanceID,
    m: MessageView,
    target: TargetView,
    timeout: Option<u64>,
) -> InfoView {
    InfoView { payload: PayloadView::Paxos { instance_id: slot, message: m }, target, timeout }
}

/// `w` is the Prepare of round `id`.
pub open spec fn is_prepare_of(w: MessageView, id: ProposalIDView) -> bool {
    match w {
        MessageView::Prepare { id: wid, .. } => wid == id,
        _ => false,
    }
}

/// `w` is a Propose of round `id`.
pub open spec fn is_propose_of(w: MessageView, id: ProposalIDView) -> bool {
    match w {
        MessageView::Propose { id: wid, .. } => wid == id,
        _ => false,
    }
}

/// A Prepare or Propose `w` is for a round at most `r`.
pub open spec fn round_at_most(w: MessageView, r: u64) -> bool {
    match w {
        MessageView::Prepare { id, .. } => id.round <= r,
        MessageView::Propose { id, .. } => id.round <= r,
        _ => true,
    }
}

pub open spec fn is_learn(w: MessageView) -> bool {
    w is Learn
}

/// A new timeout after backing off from `d`: `d` plus a jitter below `d`,
/// so within [d, 2d) (and held at the top of the range); 0 stays 0.
pub open spec fn in_backoff_range(d: u64, r: u64) -> bool {
    if d == 0 {
        r == 0
    } else {
        d <= r && r < 2 * d
    }
}

pub struct InstanceView {
    pub node_id: Seq<char>,
    pub instance_id: InstanceID,
    /// Base round-trip timeout, in milliseconds.
    pub timeout: u64,
    /// Messages produced and not yet collected, oldest first.
    pub outbox: Seq<InfoView>,
    pub proposer: ProposerView,
    pub acceptor: AcceptorView,
    pub learner: LearnerView,
    /// Sent messages whose reply is still awaited.
    pub waiting: Set<MessageView>,
    /// The slot's value, once known here.
    pub value: Option<OperationView>,
    /// The slot was filled in as decided with no operation.
    pub noop: bool,
}

impl InstanceView {
    /// The state of a new slot: nothing sent, awaited or known, every role
    /// at its zero id.
    pub open spec fn is_fresh(self, node: Seq<char>, id: InstanceID, n: nat, timeout: u64) -> bool {
        &&& self.node_id == node
        &&& self.instance_id == id
        &&& self.timeout == timeout
        &&& self.outbox.len() == 0
        &&& self.waiting == Set::<MessageView>::empty()
        &&& self.value is None
        &&& !self.noop
        &&& self.proposer.instance_id == id
        &&& self.proposer.id == node
        &&& self.proposer.majority == majority_of(n)
        &&& self.proposer.proposal.is_zero()
        &&& self.proposer.highest == self.proposer.proposal
        &&& self.proposer.accepted_seen is None
        &&& self.proposer.promises.len() == 0
        &&& self.proposer.value is None
        &&& self.acceptor.instance_id == id
        &&& self.acceptor.id == node
        &&& self.acceptor.promised.is_zero()
        &&& self.acceptor.accepted == self.acceptor.promised
        &&& self.acceptor.value is None
        &&& !self.acceptor.reached_consensus
        &&& self.learner.instance_id == id
        &&& self.learner.id == node
        &&& self.learner.majority == majority_of(n)
        &&& self.learner.counts == Map::<ProposalIDView, nat>::empty()
        &&& self.learner.latest == Map::<Seq<char>, ProposalIDView>::empty()
        &&& self.learner.chosen_id.is_zero()
        &&& self.learner.chosen_value is None
    }

    /// The state of a slot filled in as decided with no operation.
    pub open spec fn is_placeholder(self, node: Seq<char>, id: InstanceID, n: nat, timeout: u64) -> bool {
        &&& self.noop
        &&& self.acceptor.reached_consensus
        &&& (InstanceView {
            noop: false,
            acceptor: AcceptorView { reached_consensus: false, ..self.acceptor },
            ..self
        }).is_fresh(node, id, n, timeout)
    }

    /// The state once `v` is set as the value to propose.
    pub open spec fn with_value(self, v: OperationView) -> Self {
        InstanceView { proposer: ProposerView { value: Some(v), ..self.proposer }, ..self }
    }

    /// The slot's invariant: its roles belong to this node, the cached
    /// value is the learner's chosen value, and no round driven or awaited
    /// here lies above the highest round seen.
    pub open spec fn inv(self) -> bool {
        &&& self.proposer.id == self.node_id
        &&& self.acceptor.id == self.node_id
        &&& self.learner.id == self.node_id
        &&& self.value == self.learner.chosen_value
        &&& self.proposer.proposal.round <= self.proposer.highest.round
        &&& forall|w: MessageView| #[trigger]
            self.waiting.contains(w) ==> round_at_most(w, self.proposer.highest.round)
    }

    /// Queues `m` for `target`; with a timeout, its reply is awaited.
    pub open spec fn send(self, m: MessageView, target: TargetView, timeout: Option<u64>) -> Self {
        InstanceView {
            outbox: self.outbox.push(outbound(self.instance_id, m, target, timeout)),
            waiting: if timeout is Some {
                self.waiting.insert(m)
            } else {
                self.waiting
            },
            ..self
        }
    }

    /// No Prepare of round `id` is awaited any more.
    pub open spec fn settled_prepare(self, id: ProposalIDView) -> Self {
        InstanceView { waiting: self.waiting.filter(|w: MessageView| !is_prepare_of(w, id)), ..self }
    }

    /// No Propose of round `id` is awaited any more.
    pub open spec fn settled_propose(self, id: ProposalIDView) -> Self {
        InstanceView { waiting: self.waiting.filter(|w: MessageView| !is_propose_of(w, id)), ..self }
    }

    /// No Learn is awaited any more.
    pub open spec fn settled_learns(self) -> Self {
        InstanceView { waiting: self.waiting.filter(|w: MessageView| !is_learn(w)), ..self }
    }

    pub open spec fn observing(self, id: ProposalIDView) -> Self {
        InstanceView {
            proposer: ProposerView { highest: observed(self.proposer.highest, id), ..self.proposer },
            ..self
        }
    }

    /// `next` is this state after a new round was started: a fresh proposal
    /// id one round above every id seen, and its Prepare broadcast with
    /// timeout `t`.
    pub open spec fn prepared(self, next: Self, t: u64) -> bool {
        let p = next.proposer.proposal;
        &&& p.round == next_round(self.proposer.highest.round)
        &&& p.proposer == self.proposer.id
        &&& next.proposer == ProposerView {
            proposal: p,
            highest: p,
            accepted_seen: None,
            promises: Seq::empty(),
            ..self.proposer
        }
        &&& next == (InstanceView { proposer: next.proposer, ..self }).send(
            MessageView::Prepare { proposer: self.proposer.id, id: p },
            TargetView::Broadcast,
            Some(t),
        )
    }

    /// The effect of receiving `m`, and what is reported.
    pub open spec fn receive(self, m: MessageView) -> (Self, Outcome) {
        match m {
            MessageView::Prepare { proposer, id } => {
                let s = self.observing(id);
                if self.acceptor.grants_prepare(id) {
                    let s2 = InstanceView {
                        acceptor: AcceptorView { promised: id, ..self.acceptor },
                        ..s
                    };
                    (
                        s2.send(
                            MessageView::Promise {
                                acceptor: self.acceptor.id,
                                id,
                                last_accepted: self.acceptor.accepted,
                                value: self.acceptor.value,
                            },
                            TargetView::Node(proposer),
                            None,
                        ),
                        Ok(None),
                    )
                } else {
                    (s, Ok(None))
                }
            },
            MessageView::Promise { acceptor, id, last_accepted, value } => {
                let p = self.proposer;
                if p.counts_promise(acceptor, id) {
                    let n = p.with_promise(acceptor, id, last_accepted, value);
                    let s = InstanceView { proposer: n, ..self };
                    if n.promises.len() < n.majority {
                        (s, Ok(None))
                    } else if n.value is None {
                        (s, Err(PaxosError::ValueNotSet))
                    } else {
                        (
                            s.settled_prepare(p.proposal).send(
                                MessageView::Propose {
                                    proposer: p.id,
                                    id: p.proposal,
                                    value: n.value->0,
                                },
                                TargetView::Broadcast,
                                Some(self.timeout),
                            ),
                            Ok(None),
                        )
                    }
                } else {
                    (self.observing(id), Ok(None))
                }
            },
            MessageView::Propose { proposer, id, value } => {
                let s = self.observing(id);
                if self.acceptor.grants_propose(id, value) {
                    let s2 = InstanceView {
                        acceptor: AcceptorView {
                            promised: id,
                            accepted: id,
                            value: Some(value),
                            ..self.acceptor
                        },
                        ..s
                    };
                    (
                        s2.send(
                            MessageView::Accepted { acceptor: self.acceptor.id, id },
                            TargetView::Broadcast,
                            None,
                        ),
                        Ok(None),
                    )
                } else {
                    (s, Ok(None))
                }
            },
            MessageView::Accepted { acceptor, id } => {
                let s = self.observing(id);
                let l = self.learner;
                if l.counts_accepted(acceptor, id) {
                    let n = l.with_accepted(acceptor, id);
                    let s2 = InstanceView { learner: n, ..s };
                    if count_up(count_of(l.counts, id)) == l.majority {
                        let s3 = s2.settled_propose(id);
                        // the shortcut: this node's own acceptor accepted
                        // the very proposal a majority accepted
                        if self.acceptor.value is Some && self.acceptor.accepted == id {
                            let v = self.acceptor.value->0;
                            (
                                InstanceView {
                                    learner: LearnerView { chosen_value: Some(v), ..n },
                                    value: Some(v),
                                    acceptor: AcceptorView {
                                        reached_consensus: true,
                                        ..self.acceptor
                                    },
                                    ..s3
                                },
                                Ok(Some(v)),
                            )
                        } else {
                            (
                                s3.send(
                                    MessageView::Learn { learner: l.id },
                                    TargetView::Broadcast,
                                    Some(self.timeout),
                                ),
                                Ok(None),
                            )
                        }
                    } else {
                        (s2, Ok(None))
                    }
                } else {
                    (s, Ok(None))
                }
            },
            MessageView::Learn { learner } => {
                match self.learner.chosen_value {
                    Some(v) => (
                        self.send(
                            MessageView::Value {
                                learner: self.learner.id,
                                id: self.learner.chosen_id,
                                value: v,
                            },
                            TargetView::Node(learner),
                            None,
                        ),
                        Ok(None),
                    ),
                    None => (self, Ok(None)),
                }
            },
            MessageView::Value { learner, id, value } => {
                let s = InstanceView {
                    value: if self.value is None {
                        Some(value)
                    } else {
                        self.value
                    },
                    acceptor: AcceptorView { reached_consensus: true, ..self.acceptor },
                    ..self.settled_learns()
                };
                if self.learner.chosen_value is None {
                    (
                        InstanceView {
                            learner: LearnerView { chosen_value: Some(value), ..self.learner },
                            ..s
                        },
                        Ok(Some(value)),
                    )
                } else {
                    (s, Ok(None))
                }
            },
        }
    }

    /// `next` and `r` are what a timeout of `m` may give, when it backs off
    /// to `t`. An unawaited message is a no-op; an awaited one stops being
    /// awaited, and then: a stalled Prepare or Propose starts a new round
    /// unless the value is known; a Learn is sent again; a reply kind is an
    /// error.
    pub open spec fn timed_out(
        self,
        next: Self,
        m: MessageView,
        t: u64,
        r: Result<(), PaxosError>,
    ) -> bool {
        if !self.waiting.contains(m) {
            next == self && r is Ok
        } else {
            let s = InstanceView { waiting: self.waiting.remove(m), ..self };
            match m {
                MessageView::Prepare { .. } | MessageView::Propose { .. } => {
                    &&& r is Ok
                    &&& self.value is None ==> s.prepared(next, t)
                    &&& self.value is Some ==> next == s
                },
                MessageView::Learn { .. } => r is Ok && next == s.send(
                    m,
                    TargetView::Broadcast,
                    Some(t),
                ),
                _ => next == s && r == Err::<(), PaxosError>(PaxosError::InvalidTimeoutWait),
            }
        }
    }
}

/// `v` lists the set `s`: each element of `v` is in `s`, each member of `s`
/// is in `v`.
pub open spec fn lists_set(v: Seq<PaxosInstanceMessage>, s: Set<MessageView>) -> bool {
    &&& forall|i: int| 0 <= i < v.len() ==> #[trigger] s.contains(v[i]@)
    &&& forall|m: MessageView| #[trigger] s.contains(m) ==> exists|i: int| 0 <= i < v.len() && v[i]@ == m
}

/// Which awaited messages a reply settles.
enum Answered<'a> {
    Exact(&'a PaxosInstanceMessage),
    PrepareOf(&'a ProposalID),
    ProposeOf(&'a ProposalID),
    Learns,
}

impl<'a> Answered<'a> {
    spec fn covers(self, w: MessageView) -> bool {
        match self {
            Answered::Exact(m) => w == m@,
            Answered::PrepareOf(id) => is_prepare_of(w, id@),
            Answered::ProposeOf(id) => is_propose_of(w, id@),
            Answered::Learns => is_learn(w),
        }
    }

    fn covers_exec(&self, w: &PaxosInstanceMessage) -> (r: bool)
        ensures
            r == self.covers(w@),
    {
        match self {
            Answered::Exact(m) => m.same_as(w),
            Answered::PrepareOf(id) => match w {
                PaxosInstanceMessage::Prepare(p) => p.proposal_id.same_as(id),
                _ => false,
            },
            Answered::ProposeOf(id) => match w {
                PaxosInstanceMessage::Propose(p) => p.proposal_id.same_as(id),
                _ => false,
            },
            Answered::Learns => match w {
                PaxosInstanceMessage::Learn(_) => true,
                _ => false,
            },
        }
    }
}

/// One log slot: its proposer, acceptor and learner, the messages they
/// produced, and the messages whose reply is awaited.
pub struct PaxosInstance {
    node_id: NodeID,
    instance_id: InstanceID,
    timeout: u64,
    messages_to_send: VecDeque<MessageInfo>,
    proposer: Proposer,
    acceptor: Acceptor,
    learner: Learner,
    waiting_reply: Vec<PaxosInstanceMessage>,
    waiting: Ghost<Set<MessageView>>,
    value: Option<Operation>,
    noop: bool,
}

impl View for PaxosInstance {
    type V = InstanceView;

    closed spec fn view(&self) -> InstanceView {
        InstanceView {
            node_id: self.node_id@,
            instance_id: self.instance_id,
            timeout: self.timeout,
            outbox: infos_view(self.messages_to_send@),
            proposer: self.proposer@,
            acceptor: self.acceptor@,
            learner: self.learner@,
            waiting: self.waiting@,
            value: crate::common::opt_op_view(self.value),
            noop: self.noop,
        }
    }
}

impl PaxosInstance {
    /// The roles are well formed and belong to this node and slot, and the
    /// awaited set is listed exactly.
    pub closed spec fn roles_wf(&self) -> bool {
        &&& self.proposer.wf()
        &&& self.acceptor.wf()
        &&& self.learner.wf()
        &&& lists_set(self.waiting_reply@, self.waiting@)
    }

    /// The roles and the awaited set are well formed, and the view keeps
    /// the slot's invariant (`InstanceView::inv`).
    pub open spec fn wf(&self) -> bool {
        self.roles_wf() && self@.inv()
    }

    pub fn new(node_id: NodeID, instance_id: InstanceID, cluster_size: usize, timeout: u64) -> (r:
        PaxosInstance)
        ensures
            r.wf(),
            r@.is_fresh(node_id@, instance_id, cluster_size as nat, timeout),
    {
        let r = PaxosInstance {
            node_id: node_id.clone(),
            instance_id,
            timeout,
            messages_to_send: VecDeque::new(),
            proposer: Proposer::new(instance_id, node_id.clone(), cluster_size),
            acceptor: Acceptor::new(instance_id, node_id.clone()),
            learner: Learner::new(instance_id, node_id, cluster_size),
            waiting_reply: Vec::new(),
            waiting: Ghost(Set::empty()),
            value: None,
            noop: false,
        };
        assert(r@.outbox =~= Seq::empty());
        r
    }

    /// Marks this slot as decided with no operation, for a slot this node
    /// never took part in.
    pub fn learn_final_consensus(&mut self)
        requires
            old(self).wf(),
        ensures
            final(self).wf(),
            final(self)@ == (InstanceView {
                noop: true,
                acceptor: AcceptorView { reached_consensus: true, ..old(self)@.acceptor },
                ..old(self)@
            }),
    {
        self.noop = true;
        self.acceptor.set_reached_consensus();
    }

    /// Moves every produced message, in order, to the end of `collector`.
    pub fn collect_messages_to_send(&mut self, collector: &mut VecDeque<MessageInfo>)
        requires
            old(self).wf(),
        ensures
            final(self).wf(),
            final(self)@ == (InstanceView { outbox: Seq::empty(), ..old(self)@ }),
            infos_view(final(collector)@) == infos_view(old(collector)@) + old(self)@.outbox,
    {
        let ghost pre = collector@;
        let ghost mine = self.messages_to_send@;
        collector.append(&mut self.messages_to_send);
        assert(infos_view(collector@) =~= infos_view(pre) + infos_view(mine));
        assert(self@.outbox =~= Seq::empty());
    }

    /// Adds `m` to the awaited set.
    fn await_reply(&mut self, m: &PaxosInstanceMessage)
        requires
            old(self).roles_wf(),
        ensures
            final(self).roles_wf(),
            final(self)@ == (InstanceView { waiting: old(self)@.waiting.insert(m@), ..old(self)@ }),
    {
        let ghost s = self.waiting@;
        let ghost v = self.waiting_reply@;
        self.waiting_reply.push(m.clone());
        self.waiting = Ghost(s.insert(m@));
        proof {
            let nv = self.waiting_reply@;
            assert forall|i: int| 0 <= i < nv.len() implies #[trigger] self.waiting@.contains(
                nv[i]@) by {
                if i < v.len() {
                    assert(nv[i] == v[i]);
                }
            }
            assert forall|w: MessageView| #[trigger] self.waiting@.contains(w) implies exists|
                i: int,
            | 0 <= i < nv.len() && nv[i]@ == w by {
                if w == m@ {
                    assert(nv[v.len() as int]@ == w);
                } else {
                    let i = choose|i: int| 0 <= i < v.len() && v[i]@ == w;
                    assert(nv[i] == v[i]);
                }
            }
        }
    }

    /// Stops awaiting the messages that `d` covers; says whether any was
    /// awaited.
    fn settle(&mut self, d: &Answered) -> (found: bool)
        requires
            old(self).roles_wf(),
        ensures
            final(self).roles_wf(),
            final(self)@ == (InstanceView {
                waiting: old(self)@.waiting.filter(|w: MessageView| !d.covers(w)),
                ..old(self)@
            }),
            found == exists|w: MessageView| old(self)@.waiting.contains(w) && d.covers(w),
    {
        let ghost s = self.waiting@;
        let ghost v = self.waiting_reply@;
        let mut kept: Vec<PaxosInstanceMessage> = Vec::new();
        let mut found = false;
        let mut i: usize = 0;
        while i < self.waiting_reply.len()
            invariant
                v == self.waiting_reply@,
                lists_set(v, s),
                i <= v.len(),
                forall|k: int| 0 <= k < kept@.len() ==> s.contains(#[trigger] kept@[k]@) && !d.covers(
                    kept@[k]@,
                ),
                forall|j: int|
                    0 <= j < i && !d.covers(#[trigger] v[j]@) ==> exists|k: int|
                        0 <= k < kept@.len() && kept@[k]@ == v[j]@,
                found == exists|j: int| 0 <= j < i && d.covers(#[trigger] v[j]@),
            decreases v.len() - i,
        {
            let w = &self.waiting_reply[i];
            if d.covers_exec(w) {
                found = true;
            } else {
                let ghost before = kept@;
                kept.push(w.clone());
                proof {
                    assert(kept@[before.len() as int]@ == v[i as int]@);
                    assert forall|j: int|
                        0 <= j < i + 1 && !d.covers(#[trigger] v[j]@) implies exists|k: int|
                        0 <= k < kept@.len() && kept@[k]@ == v[j]@ by {
                        if j < i {
                            let k = choose|k: int| 0 <= k < before.len() && before[k]@ == v[j]@;
                            assert(kept@[k] == before[k]);
                        }
                    }
                }
            }
            i = i + 1;
        }
        let ghost f = s.filter(|w: MessageView| !d.covers(w));
        self.waiting_reply = kept;
        self.waiting = Ghost(f);
        proof {
            assert forall|m: MessageView| #[trigger] f.contains(m) implies exists|k: int|
                0 <= k < kept@.len() && kept@[k]@ == m by {
                let j = choose|j: int| 0 <= j < v.len() && v[j]@ == m;
                assert(!d.covers(v[j]@));
            }
            if exists|w: MessageView| s.contains(w) && d.covers(w) {
                let w = choose|w: MessageView| s.contains(w) && d.covers(w);
                let j = choose|j: int| 0 <= j < v.len() && v[j]@ == w;
                assert(d.covers(v[j]@));
            }
            assert(self@.waiting =~= old(self)@.waiting.filter(|w: MessageView| !d.covers(w)));
        }
        found
    }

    fn send_message(
        &mut self,
        message: PaxosInstanceMessage,
        target: MessageTarget,
        timeout: Option<u64>,
    )
        requires
            old(self).roles_wf(),
        ensures
            final(self).roles_wf(),
            final(self)@ == old(self)@.send(message@, target@, timeout),
    {
        if timeout.is_some() {
            self.await_reply(&message);
        }
        let ghost pre = self.messages_to_send@;
        self.messages_to_send.push_back(
            MessageInfo {
                payload: MessagePayload::PaxosMessage(
                    PaxosMessage { instance_id: self.instance_id, message },
                ),
                target,
                timeout,
            },
        );
        assert(infos_view(self.messages_to_send@) =~= infos_view(pre).push(
            outbound(old(self)@.instance_id, message@, target@, timeout),
        ));
    }

    /// A new timeout: `timeout` plus a random jitter below it.
    fn backoff_timeout(&self, timeout: u64) -> (r: u64)
        ensures
            in_backoff_range(timeout, r),
    {
        if timeout == 0 {
            0
        } else {
            let jitter = random_below(timeout);
            if jitter <= u64::MAX - timeout {
                timeout + jitter
            } else {
                u64::MAX
            }
        }
    }

    /// Sets the value to propose, then starts a round with the base timeout.
    pub fn start_proposing(&mut self, value: Operation)
        requires
            old(self).wf(),
        ensures
            final(self).wf(),
            old(self)@.with_value(value@).prepared(final(self)@, old(self)@.timeout),
    {
        self.proposer.set_value(value);
        let timeout = self.timeout;
        self.do_prepare(timeout);
    }

    /// The slot's value, once known here.
    pub fn value(&self) -> (r: Option<&Operation>)
        ensures
            match r {
                Some(v) => self@.value == Some(v@),
                None => self@.value is None,
            },
    {
        self.value.as_ref()
    }

    /// Whether the slot was filled in as decided with no operation.
    pub fn is_noop(&self) -> (r: bool)
        ensures
            r == self@.noop,
    {
        self.noop
    }

    fn do_prepare(&mut self, timeout: u64)
        requires
            old(self).roles_wf(),
        ensures
            final(self).roles_wf(),
            old(self)@.prepared(final(self)@, timeout),
    {
        let m = self.proposer.prepare();
        self.send_message(PaxosInstanceMessage::Prepare(m), MessageTarget::Broadcast, Some(timeout));
    }

    /// Handles one message for this slot; `Ok(Some(v))` reports that this
    /// node has just learned the value `v` for the first time.
    #[verifier::rlimit(40)]
    pub fn receive_message(&mut self, message: &PaxosInstanceMessage) -> (r: Result<
        Option<Operation>,
        PaxosError,
    >)
        requires
            old(self).wf(),
        ensures
            final(self).wf(),
            (final(self)@, outcome_view(r)) == old(self)@.receive(message@),
    {
        proof {
            lemma_receive_keeps_inv(self@, message@);
        }
        match message {
            PaxosInstanceMessage::Prepare(prepare) => {
                self.proposer.observe_proposal(&prepare.proposal_id);
                match self.acceptor.receive_prepare(prepare) {
                    Some(m) => {
                        let target = MessageTarget::Node(prepare.proposer_id.clone());
                        self.send_message(PaxosInstanceMessage::Promise(m), target, None);
                    },
                    None => {},
                }
                Ok(None)
            },
            PaxosInstanceMessage::Promise(promise) => {
                match self.proposer.receive_promise(promise) {
                    Ok(Some(m)) => {
                        let ghost before = self@;
                        self.settle(&Answered::PrepareOf(&m.proposal_id));
                        assert(self@.waiting =~= before.settled_prepare(m.proposal_id@).waiting);
                        let timeout = self.timeout;
                        self.send_message(
                            PaxosInstanceMessage::Propose(m),
                            MessageTarget::Broadcast,
                            Some(timeout),
                        );
                        Ok(None)
                    },
                    Ok(None) => Ok(None),
                    Err(e) => Err(e),
                }
            },
            PaxosInstanceMessage::Propose(propose) => {
                self.proposer.observe_proposal(&propose.proposal_id);
                match self.acceptor.receive_propose(propose) {
                    Some(m) => {
                        self.send_message(
                            PaxosInstanceMessage::Accepted(m),
                            MessageTarget::Broadcast,
                            None,
                        );
                    },
                    None => {},
                }
                Ok(None)
            },
            PaxosInstanceMessage::Accepted(accepted) => {
                self.proposer.observe_proposal(&accepted.proposal_id);
                match self.learner.receive_accepted(accepted) {
                    Some(m) => {
                        let ghost before = self@;
                        self.settle(&Answered::ProposeOf(&accepted.proposal_id));
                        assert(self@.waiting =~= before.settled_propose(accepted.proposal_id@).waiting);
                        let own = self.acceptor.value();
                        let same_round = self.acceptor.highest_accepted_proposal_id().same_as(
                            &accepted.proposal_id,
                        );
                        match own {
                            Some(v) if same_round => {
                                // this node's acceptor accepted the very
                                // proposal a majority accepted: no need to
                                // ask the others
                                self.learner.set_chosen_value(v.clone());
                                self.value = Some(v.clone());
                                self.acceptor.set_reached_consensus();
                                Ok(Some(v))
                            },
                            _ => {
                                let timeout = self.timeout;
                                self.send_message(
                                    PaxosInstanceMessage::Learn(m),
                                    MessageTarget::Broadcast,
                                    Some(timeout),
                                );
                                Ok(None)
                            },
                        }
                    },
                    None => Ok(None),
                }
            },
            PaxosInstanceMessage::Learn(learn) => {
                match self.learner.receive_learn(learn) {
                    Some(m) => {
                        let target = MessageTarget::Node(learn.learner_id.clone());
                        self.send_message(PaxosInstanceMessage::Value(m), target, None);
                    },
                    None => {},
                }
                Ok(None)
            },
            PaxosInstanceMessage::Value(value) => {
                let ghost before = self@;
                self.settle(&Answered::Learns);
                assert(self@.waiting =~= before.settled_learns().waiting);
                if self.value.is_none() {
                    self.value = Some(value.chosen_value.clone());
                }
                self.acceptor.set_reached_consensus();
                Ok(self.learner.receive_value(value))
            },
        }
    }

    /// Handles the timeout of `message`, backing off from `timeout` by a
    /// random jitter (see `on_timeout_with_backoff`).
    pub fn on_timeout(&mut self, message: PaxosInstanceMessage, timeout: u64) -> (r: Result<
        (),
        PaxosError,
    >)
        requires
            old(self).wf(),
        ensures
            final(self).wf(),
            exists|t: u64|
                in_backoff_range(timeout, t) && #[trigger] old(self)@.timed_out(
                    final(self)@,
                    message@,
                    t,
                    r,
                ),
    {
        let new_timeout = self.backoff_timeout(timeout);
        self.on_timeout_with_backoff(message, new_timeout)
    }

    /// Handles the timeout of `message` with the backed-off timeout
    /// `new_timeout` already drawn.
    pub fn on_timeout_with_backoff(&mut self, message: PaxosInstanceMessage, new_timeout: u64) -> (r:
        Result<(), PaxosError>)
        requires
            old(self).wf(),
        ensures
            final(self).wf(),
            old(self)@.timed_out(final(self)@, message@, new_timeout, r),
    {
        if !self.settle(&Answered::Exact(&message)) {
            proof {
                assert(self@.waiting =~= old(self)@.waiting);
            }
            return Ok(());
        }
        proof {
            assert(self@.waiting =~= old(self)@.waiting.remove(message@));
        }
        match message {
            PaxosInstanceMessage::Prepare(_) | PaxosInstanceMessage::Propose(_) => {
                if self.value.is_none() {
                    self.do_prepare(new_timeout);
                }
                Ok(())
            },
            PaxosInstanceMessage::Learn(_) => {
                self.send_message(message, MessageTarget::Broadcast, Some(new_timeout));
                Ok(())
            },
            _ => Err(PaxosError::InvalidTimeoutWait),
        }
    }
}

/// Once this node's learner holds a chosen value it never changes, whatever
/// message or timeout comes next; and a message reports a value as first
/// learned only while none was chosen, after which one is.
pub proof fn lemma_chosen_value_stable(
    s: InstanceView,
    m: MessageView,
    next: InstanceView,
    w: MessageView,
    t: u64,
    r: Result<(), PaxosError>,
)
    ensures
        s.learner.chosen_value is Some ==> s.receive(m).0.learner.chosen_value
            == s.learner.chosen_value,
        s.learner.chosen_value is Some && s.timed_out(next, w, t, r)
            ==> next.learner.chosen_value == s.learner.chosen_value,
        s.receive(m).1 matches Ok(Some(v)) ==> s.learner.chosen_value is None
            && s.receive(m).0.learner.chosen_value == Some(v),
        s.inv() && s.value is Some ==> s.receive(m).0.value == s.value,
        s.inv() && s.value is Some && s.timed_out(next, w, t, r) ==> next.value == s.value,
        s.inv() ==> s.receive(m).0.value == s.receive(m).0.learner.chosen_value,
{
    if s.inv() {
        lemma_receive_keeps_inv(s, m);
    }
}

/// The shortcut on a quorum of Accepted messages takes this node's own
/// acceptor's value only when that acceptor accepted the very id the
/// majority accepted.
pub proof fn lemma_shortcut_needs_same_round(
    s: InstanceView,
    acceptor: Seq<char>,
    id: ProposalIDView,
    v: OperationView,
)
    ensures
        s.receive(MessageView::Accepted { acceptor, id }).1 == Ok::<
            Option<OperationView>,
            PaxosError,
        >(Some(v)) ==> s.acceptor.accepted == id && s.acceptor.value == Some(v),
{
}

/// The round of a Prepare (0 for any other message).
pub open spec fn prepare_round(m: MessageView) -> u64 {
    match m {
        MessageView::Prepare { id, .. } => id.round,
        _ => 0,
    }
}

/// Within a slot the acceptor only ever makes acceptor moves, so its
/// promised id never goes down, whatever message or timeout comes.
pub proof fn lemma_slot_acceptor_moves(
    s: InstanceView,
    m: MessageView,
    next: InstanceView,
    w: MessageView,
    t: u64,
    r: Result<(), PaxosError>,
)
    ensures
        acceptor_next(s.acceptor, s.receive(m).0.acceptor),
        s.timed_out(next, w, t, r) ==> acceptor_next(s.acceptor, next.acceptor),
{
    lemma_methods_are_moves(s.acceptor, s.acceptor.promised, OperationView::Lock(Seq::empty(), Seq::empty()));
    match m {
        MessageView::Prepare { proposer, id } => {
            lemma_methods_are_moves(s.acceptor, id, OperationView::Lock(Seq::empty(), Seq::empty()));
        },
        MessageView::Propose { proposer, id, value } => {
            lemma_methods_are_moves(s.acceptor, id, value);
        },
        _ => {},
    }
}

/// A timer for a message that is no longer awaited does nothing. A timer
/// for an awaited Prepare, while the value is unknown, fires exactly one
/// retry: one new Prepare broadcast, one round above every round seen, with
/// the backed-off timeout, and the old Prepare no longer awaited.
pub proof fn lemma_prepare_timeout(
    s: InstanceView,
    next: InstanceView,
    m: MessageView,
    d: u64,
    t: u64,
    r: Result<(), PaxosError>,
)
    requires
        s.inv(),
        s.timed_out(next, m, t, r),
        in_backoff_range(d, t),
    ensures
        !s.waiting.contains(m) ==> next == s && r is Ok,
        s.waiting.contains(m) && m is Prepare && s.value is None && s.proposer.highest.round
            < u64::MAX ==> {
            let p = next.proposer.proposal;
            &&& r is Ok
            &&& p.round == s.proposer.highest.round + 1
            &&& p.proposer == s.proposer.id
            &&& next.outbox == s.outbox.push(
                outbound(
                    s.instance_id,
                    MessageView::Prepare { proposer: s.proposer.id, id: p },
                    TargetView::Broadcast,
                    Some(t),
                ),
            )
            &&& next.waiting == s.waiting.remove(m).insert(
                MessageView::Prepare { proposer: s.proposer.id, id: p },
            )
            &&& prepare_round(m) < p.round
            &&& !next.waiting.contains(m)
            &&& next.waiting.contains(MessageView::Prepare { proposer: s.proposer.id, id: p })
            &&& d > 0 ==> d <= t < 2 * d
        },
{
    if s.waiting.contains(m) && m is Prepare && s.value is None && s.proposer.highest.round
        < u64::MAX {
        assert(round_at_most(m, s.proposer.highest.round));
    }
}

/// Once a majority has promised the round being driven (and a value is
/// held), the Prepare of that round is no longer awaited: its timer, when
/// it fires, does nothing.
pub proof fn lemma_quorum_cancels_prepare_timer(
    s: InstanceView,
    m: MessageView,
    prepare: MessageView,
    next: InstanceView,
    t: u64,
    r: Result<(), PaxosError>,
)
    requires
        m is Promise,
        s.receive(m).1 == Ok::<Option<OperationView>, PaxosError>(None),
        s.receive(m).0.outbox.len() > s.outbox.len(),
        is_prepare_of(prepare, s.proposer.proposal),
        s.receive(m).0.timed_out(next, prepare, t, r),
    ensures
        next == s.receive(m).0,
        r is Ok,
{
    let n = s.receive(m).0;
    assert(!n.waiting.contains(prepare));
}

proof fn lemma_observed_round(h: ProposalIDView, id: ProposalIDView)
    ensures
        h.round <= observed(h, id).round,
        id.round <= observed(h, id).round || !h.lt(id),
{
}

/// Receiving any message keeps the slot's invariant.
pub proof fn lemma_receive_keeps_inv(s: InstanceView, m: MessageView)
    requires
        s.inv(),
    ensures
        s.receive(m).0.inv(),
{
    let n = s.receive(m).0;
    match m {
        MessageView::Prepare { id, .. } => lemma_observed_round(s.proposer.highest, id),
        MessageView::Promise { id, .. } => lemma_observed_round(s.proposer.highest, id),
        MessageView::Propose { id, .. } => lemma_observed_round(s.proposer.highest, id),
        MessageView::Accepted { id, .. } => lemma_observed_round(s.proposer.highest, id),
        _ => {},
    }
    assert forall|w: MessageView| #[trigger] n.waiting.contains(w) implies round_at_most(
        w,
        n.proposer.highest.round,
    ) by {
        if s.waiting.contains(w) {
            assert(round_at_most(w, s.proposer.highest.round));
        }
    }
}

} // verus!

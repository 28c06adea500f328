use vstd::prelude::*;

use crate::common::{
    lemma_proposal_le, opt_op_view, AcceptedMessage, InstanceID, NodeID, PrepareMessage,
    PromiseMessage, ProposalID, ProposalIDView, ProposeMessage,
};
use crate::locker::{clone_op_option, Operation, OperationView};

verus! {

pub struct AcceptorView {
    pub instance_id: InstanceID,
    pub id: Seq<char>,
    pub promised: ProposalIDView,
    pub accepted: ProposalIDView,
    pub value: Option<OperationView>,
    pub reached_consensus: bool,
}

impl AcceptorView {
    /// Whether a Prepare for `id` is granted a Promise.
    pub open spec fn grants_prepare(self, id: ProposalIDView) -> bool {
        self.promised.le(id)
    }

    /// Whether a Propose of `value` under `id` is accepted: the id is at
    /// least the promised one, and the value is free to take (nothing
    /// accepted, or no decision known here) or is the one already held.
    pub open spec fn grants_propose(self, id: ProposalIDView, value: OperationView) -> bool {
        &&& self.promised.le(id)
        &&& (self.value is None || !self.reached_consensus || self.value == Some(value))
    }
}

/// The acceptor role of one node for one slot.
pub struct Acceptor {
    instance_id: InstanceID,
    acceptor_id: NodeID,
    highest_promised_proposal_id: ProposalID,
    highest_accepted_proposal_id: ProposalID,
    value: Option<Operation>,
    reached_consensus: bool,
}

impl View for Acceptor {
    type V = AcceptorView;

    closed spec fn view(&self) -> AcceptorView {
        AcceptorView {
            instance_id: self.instance_id,
            id: self.acceptor_id@,
            promised: self.highest_promised_proposal_id@,
            accepted: self.highest_accepted_proposal_id@,
            value: opt_op_view(self.value),
            reached_consensus: self.reached_consensus,
        }
    }
}

impl Acceptor {
    /// The accepted id never runs ahead of the promised one.
    pub open spec fn wf(&self) -> bool {
        self@.accepted.le(self@.promised)
    }

    pub fn new(instance_id: InstanceID, acceptor_id: NodeID) -> (r: Acceptor)
        ensures
            r.wf(),
            r@.instance_id == instance_id,
            r@.id == acceptor_id@,
            r@.promised.is_zero(),
            r@.promised.proposer == acceptor_id@,
            r@.accepted == r@.promised,
            r@.value is None,
            !r@.reached_consensus,
    {
        let highest_accepted_proposal_id = ProposalID::new(0, acceptor_id.clone());
        let r = Acceptor {
            instance_id,
            acceptor_id,
            highest_promised_proposal_id: highest_accepted_proposal_id.clone(),
            highest_accepted_proposal_id,
            value: None,
            reached_consensus: false,
        };
        proof {
            lemma_proposal_le(r@.accepted, r@.accepted, r@.accepted);
        }
        r
    }

    /// Promises `prepare.proposal_id` if it is at least the promised id,
    /// reporting what was accepted last; otherwise stays silent.
    pub fn receive_prepare(&mut self, prepare: &PrepareMessage) -> (r: Option<PromiseMessage>)
        requires
            old(self).wf(),
        ensures
            final(self).wf(),
            old(self)@.promised.le(final(self)@.promised),
            old(self)@.grants_prepare(prepare.proposal_id@) ==> {
                &&& final(self)@ == (AcceptorView {
                    promised: prepare.proposal_id@,
                    ..old(self)@
                })
                &&& r matches Some(m) && m.acceptor_id@ == old(self)@.id && m.proposal_id@
                    == prepare.proposal_id@ && m.last_accepted_proposal_id@ == old(self)@.accepted
                    && opt_op_view(m.last_accepted_value) == old(self)@.value
            },
            !old(self)@.grants_prepare(prepare.proposal_id@) ==> final(self)@ == old(self)@
                && r is None,
    {
        proof {
            lemma_proposal_le(self@.accepted, self@.promised, prepare.proposal_id@);
            lemma_proposal_le(self@.promised, self@.promised, self@.promised);
        }
        if prepare.proposal_id.at_least(&self.highest_promised_proposal_id) {
            self.highest_promised_proposal_id = prepare.proposal_id.clone();
            Some(
                PromiseMessage {
                    acceptor_id: self.acceptor_id.clone(),
                    proposal_id: prepare.proposal_id.clone(),
                    last_accepted_proposal_id: self.highest_accepted_proposal_id.clone(),
                    last_accepted_value: clone_op_option(&self.value),
                },
            )
        } else {
            None
        }
    }

    /// Accepts the proposal when `grants_propose` holds: both ids move to the
    /// proposal's and the value is stored. Otherwise stays silent.
    pub fn receive_propose(&mut self, propose: &ProposeMessage) -> (r: Option<AcceptedMessage>)
        requires
            old(self).wf(),
        ensures
            final(self).wf(),
            old(self)@.promised.le(final(self)@.promised),
            r is Some ==> old(self)@.promised.le(propose.proposal_id@),
            old(self)@.grants_propose(propose.proposal_id@, propose.value@) ==> {
                &&& final(self)@ == (AcceptorView {
                    promised: propose.proposal_id@,
                    accepted: propose.proposal_id@,
                    value: Some(propose.value@),
                    ..old(self)@
                })
                &&& r matches Some(m) && m.acceptor_id@ == old(self)@.id && m.proposal_id@
                    == propose.proposal_id@
            },
            !old(self)@.grants_propose(propose.proposal_id@, propose.value@) ==> final(self)@
                == old(self)@ && r is None,
    {
        proof {
            lemma_proposal_le(propose.proposal_id@, propose.proposal_id@, propose.proposal_id@);
            lemma_proposal_le(self@.promised, self@.promised, self@.promised);
        }
        let free = match &self.value {
            None => true,
            Some(v) => !self.reached_consensus || v.same_as(&propose.value),
        };
        if propose.proposal_id.at_least(&self.highest_promised_proposal_id) && free {
            self.highest_promised_proposal_id = propose.proposal_id.clone();
            self.highest_accepted_proposal_id = propose.proposal_id.clone();
            self.value = Some(propose.value.clone());
            Some(
                AcceptedMessage {
                    acceptor_id: self.acceptor_id.clone(),
                    proposal_id: propose.proposal_id.clone(),
                },
            )
        } else {
            None
        }
    }

    pub fn value(&self) -> (r: Option<Operation>)
        ensures
            opt_op_view(r) == self@.value,
    {
        clone_op_option(&self.value)
    }

    pub fn highest_accepted_proposal_id(&self) -> (r: ProposalID)
        ensures
            r@ == self@.accepted,
    {
        self.highest_accepted_proposal_id.clone()
    }

    /// Records that this node knows the slot's decision: from now on only
    /// the value held (if any) can be accepted.
    pub fn set_reached_consensus(&mut self)
        requires
            old(self).wf(),
        ensures
            final(self).wf(),
            final(self)@ == (AcceptorView { reached_consensus: true, ..old(self)@ }),
    {
        self.reached_consensus = true;
    }
}

/// The moves an acceptor can make: none (a refused message), grant a
/// Prepare, accept a Propose, or record that the decision is known.
pub open spec fn acceptor_next(a: AcceptorView, b: AcceptorView) -> bool {
    ||| b == a
    ||| exists|id: ProposalIDView|
        #[trigger] a.grants_prepare(id) && b == (AcceptorView { promised: id, ..a })
    ||| exists|id: ProposalIDView, v: OperationView|
        #[trigger] a.grants_propose(id, v) && b == (AcceptorView {
            promised: id,
            accepted: id,
            value: Some(v),
            ..a
        })
    ||| b == AcceptorView { reached_consensus: true, ..a }
}

proof fn lemma_step_keeps_promise(a: AcceptorView, b: AcceptorView)
    requires
        acceptor_next(a, b),
    ensures
        a.promised.le(b.promised),
        b.accepted != a.accepted ==> a.promised.le(b.accepted),
{
    lemma_proposal_le(a.promised, a.promised, a.promised);
}

/// Over the life of an acceptor, whatever messages it is given in whatever
/// order, the promised id never goes down, and an id is only ever accepted
/// when it is at least the id promised at that moment.
pub proof fn lemma_promised_monotone(run: Seq<AcceptorView>)
    requires
        forall|i: int| 0 <= i < run.len() - 1 ==> acceptor_next(#[trigger] run[i], run[i + 1]),
    ensures
        forall|i: int, j: int|
            0 <= i <= j < run.len() ==> (#[trigger] run[i]).promised.le((#[trigger] run[j]).promised),
        forall|i: int|
            0 <= i < run.len() - 1 && (#[trigger] run[i + 1]).accepted != run[i].accepted
                ==> run[i].promised.le(run[i + 1].accepted),
    decreases run.len(),
{
    if run.len() > 0 {
        let init = run.drop_last();
        assert forall|i: int| 0 <= i < init.len() - 1 implies acceptor_next(
            #[trigger] init[i],
            init[i + 1],
        ) by {
            assert(init[i] == run[i] && init[i + 1] == run[i + 1]);
        }
        lemma_promised_monotone(init);
        let k = run.len() - 1;
        assert forall|i: int, j: int|
            0 <= i <= j < run.len() implies (#[trigger] run[i]).promised.le(
            (#[trigger] run[j]).promised,
        ) by {
            lemma_proposal_le(run[i].promised, run[i].promised, run[i].promised);
            if j == k && i < k {
                assert(init[i] == run[i] && init[k - 1] == run[k - 1]);
                assert(init[i].promised.le(init[k - 1].promised));
                assert(acceptor_next(run[k - 1], run[k]));
                lemma_step_keeps_promise(run[k - 1], run[k]);
                lemma_proposal_le(run[i].promised, run[k - 1].promised, run[k].promised);
            } else if j < k {
                assert(init[i] == run[i] && init[j] == run[j]);
            }
        }
        assert forall|i: int|
            0 <= i < run.len() - 1 && (#[trigger] run[i + 1]).accepted != run[i].accepted
                implies run[i].promised.le(run[i + 1].accepted) by {
            assert(acceptor_next(run[i], run[i + 1]));
            lemma_step_keeps_promise(run[i], run[i + 1]);
        }
    }
}

/// Each acceptor method moves the acceptor by one of its moves.
pub proof fn lemma_methods_are_moves(a: AcceptorView, id: ProposalIDView, v: OperationView)
    ensures
        acceptor_next(a, a),
        a.grants_prepare(id) ==> acceptor_next(a, AcceptorView { promised: id, ..a }),
        a.grants_propose(id, v) ==> acceptor_next(
            a,
            AcceptorView { promised: id, accepted: id, value: Some(v), ..a },
        ),
        acceptor_next(a, AcceptorView { reached_consensus: true, ..a }),
{
}

} // verus!

use vstd::prelude::*;

use crate::common::{
    lemma_proposal_le, opt_op_view, InstanceID, NodeID, PaxosError, PrepareMessage,
    PromiseMessage, ProposalID, ProposalIDView, ProposeMessage,
};
use crate::locker::{clone_op_option, Operation, OperationView};

verus! {

/// Majority of a cluster of `n` nodes: any two majorities share a node.
pub open spec fn majority_of(n: nat) -> nat {
    n / 2 + 1
}

/// The round that follows `r`, held at the top of the range.
pub open spec fn next_round(r: u64) -> u64 {
    if r < u64::MAX {
        (r + 1) as u64
    } else {
        u64::MAX
    }
}

/// `id` if it is above `highest`, else `highest`.
pub open spec fn observed(highest: ProposalIDView, id: ProposalIDView) -> ProposalIDView {
    if highest.lt(id) {
        id
    } else {
        highest
    }
}

pub struct ProposerView {
    pub instance_id: InstanceID,
    pub id: Seq<char>,
    pub majority: nat,
    /// The id of the round being driven.
    pub proposal: ProposalIDView,
    /// The highest id seen anywhere, for choosing the next round.
    pub highest: ProposalIDView,
    /// The highest accepted id reported with a value by a promise of this
    /// round, if any.
    pub accepted_seen: Option<ProposalIDView>,
    /// Acceptors that promised this round, each once.
    pub promises: Seq<Seq<char>>,
    pub value: Option<OperationView>,
}

impl ProposerView {
    /// Whether a promise from `acceptor` for `id` counts: it is for the round
    /// being driven and that acceptor has not promised it yet.
    pub open spec fn counts_promise(self, acceptor: Seq<char>, id: ProposalIDView) -> bool {
        id == self.proposal && !self.promises.contains(acceptor)
    }

    /// Whether a counted promise reporting `value` accepted under `last`
    /// makes the proposer adopt that value: quorum is not reached yet, a
    /// value is reported, and its id is above every one reported with a
    /// value this round.
    pub open spec fn adopts(
        self,
        last: ProposalIDView,
        value: Option<OperationView>,
    ) -> bool {
        &&& self.promises.len() < self.majority
        &&& value is Some
        &&& (self.accepted_seen matches Some(seen) ==> seen.lt(last))
    }

    /// The state after a counted promise.
    pub open spec fn with_promise(
        self,
        acceptor: Seq<char>,
        id: ProposalIDView,
        last: ProposalIDView,
        value: Option<OperationView>,
    ) -> ProposerView {
        let adopt = self.adopts(last, value);
        ProposerView {
            highest: observed(self.highest, id),
            promises: self.promises.push(acceptor),
            accepted_seen: if adopt {
                Some(last)
            } else {
                self.accepted_seen
            },
            value: if adopt {
                value
            } else {
                self.value
            },
            ..self
        }
    }
}

/// The proposer role of one node for one slot.
pub struct Proposer {
    instance_id: InstanceID,
    proposer_id: NodeID,
    majority_size: usize,
    proposal_id: ProposalID,
    highest_proposal_id: ProposalID,
    highest_accepted_seen: Option<ProposalID>,
    received_promises: Vec<NodeID>,
    value: Option<Operation>,
}

pub open spec fn promise_views(v: Seq<NodeID>) -> Seq<Seq<char>> {
    v.map_values(|s: NodeID| s@)
}

impl View for Proposer {
    type V = ProposerView;

    closed spec fn view(&self) -> ProposerView {
        ProposerView {
            instance_id: self.instance_id,
            id: self.proposer_id@,
            majority: self.majority_size as nat,
            proposal: self.proposal_id@,
            highest: self.highest_proposal_id@,
            accepted_seen: match self.highest_accepted_seen {
                Some(id) => Some(id@),
                None => None,
            },
            promises: promise_views(self.received_promises@),
            value: opt_op_view(self.value),
        }
    }
}

impl Proposer {
    /// Each acceptor is counted once per round.
    pub open spec fn wf(&self) -> bool {
        self@.promises.no_duplicates()
    }

    pub fn new(instance_id: InstanceID, proposer_id: NodeID, cluster_size: usize) -> (r: Proposer)
        ensures
            r.wf(),
            r@.instance_id == instance_id,
            r@.id == proposer_id@,
            r@.majority == majority_of(cluster_size as nat),
            r@.proposal.is_zero(),
            r@.highest == r@.proposal,
            r@.accepted_seen is None,
            r@.promises.len() == 0,
            r@.value is None,
    {
        let highest_proposal_id = ProposalID::new(0, proposer_id.clone());
        let r = Proposer {
            instance_id,
            proposer_id,
            majority_size: cluster_size / 2 + 1,
            proposal_id: highest_proposal_id.clone(),
            highest_accepted_seen: None,
            highest_proposal_id,
            received_promises: Vec::new(),
            value: None,
        };
        assert(r@.promises =~= Seq::empty());
        r
    }

    /// Raises the highest id seen to `proposal_id` if that is above it.
    pub fn observe_proposal(&mut self, proposal_id: &ProposalID)
        requires
            old(self).wf(),
        ensures
            final(self).wf(),
            final(self)@ == (ProposerView {
                highest: observed(old(self)@.highest, proposal_id@),
                ..old(self)@
            }),
    {
        if self.highest_proposal_id.precedes(proposal_id) {
            self.highest_proposal_id = proposal_id.clone();
        }
    }

    /// Starts a new round above every id seen, forgetting the promises of
    /// the previous one, and returns its Prepare.
    pub fn prepare(&mut self) -> (r: PrepareMessage)
        requires
            old(self).wf(),
        ensures
            final(self).wf(),
            final(self)@.proposal.round == next_round(old(self)@.highest.round),
            final(self)@.proposal.proposer == old(self)@.id,
            final(self)@ == (ProposerView {
                proposal: final(self)@.proposal,
                highest: final(self)@.proposal,
                accepted_seen: None,
                promises: Seq::empty(),
                ..old(self)@
            }),
            final(self)@.accepted_seen is None,
            r.proposer_id@ == old(self)@.id,
            r.proposal_id@ == final(self)@.proposal,
    {
        let round = self.highest_proposal_id.round();
        let next = if round < u64::MAX {
            round + 1
        } else {
            round
        };
        self.proposal_id = ProposalID::new(next, self.proposer_id.clone());
        self.highest_proposal_id = self.proposal_id.clone();
        self.highest_accepted_seen = None;
        self.received_promises = Vec::new();
        assert(self@.promises =~= Seq::<Seq<char>>::empty());
        PrepareMessage {
            proposer_id: self.proposer_id.clone(),
            proposal_id: self.proposal_id.clone(),
        }
    }

    fn has_promised(&self, acceptor: &NodeID) -> (r: bool)
        ensures
            r == self@.promises.contains(acceptor@),
    {
        let mut i: usize = 0;
        while i < self.received_promises.len()
            invariant
                i <= self.received_promises@.len(),
                forall|j: int| 0 <= j < i ==> self.received_promises@[j]@ != acceptor@,
            decreases self.received_promises@.len() - i,
        {
            if self.received_promises[i] == *acceptor {
                assert(self@.promises[i as int] == acceptor@);
                return true;
            }
            i = i + 1;
        }
        false
    }

    /// Counts a promise for the current round from an acceptor not yet
    /// counted, adopting the value it reports when `adopts` says so. Once a
    /// majority has promised, returns the Propose of the value held; holding
    /// none then is an error.
    pub fn receive_promise(&mut self, promise: &PromiseMessage) -> (r: Result<
        Option<ProposeMessage>,
        PaxosError,
    >)
        requires
            old(self).wf(),
        ensures
            final(self).wf(),
            ({
                let o = old(self)@;
                let acceptor = promise.acceptor_id@;
                let id = promise.proposal_id@;
                let last = promise.last_accepted_proposal_id@;
                let value = opt_op_view(promise.last_accepted_value);
                if o.counts_promise(acceptor, id) {
                    let n = o.with_promise(acceptor, id, last, value);
                    &&& final(self)@ == n
                    &&& n.promises.len() < n.majority ==> r == Ok::<
                        Option<ProposeMessage>,
                        PaxosError,
                    >(None)
                    &&& n.promises.len() >= n.majority && n.value is None ==> r == Err::<
                        Option<ProposeMessage>,
                        PaxosError,
                    >(PaxosError::ValueNotSet)
                    &&& n.promises.len() >= n.majority && n.value is Some ==> (r matches Ok(
                        Some(m),
                    ) && m.proposer_id@ == o.id && m.proposal_id@ == o.proposal && Some(m.value@)
                        == n.value)
                } else {
                    &&& final(self)@ == (ProposerView { highest: observed(o.highest, id), ..o })
                    &&& r == Ok::<Option<ProposeMessage>, PaxosError>(None)
                }
            }),
    {
        self.observe_proposal(&promise.proposal_id);
        if !self.proposal_id.same_as(&promise.proposal_id) || self.has_promised(
            &promise.acceptor_id,
        ) {
            return Ok(None);
        }
        let ghost pre = self@;
        let reached_before = self.received_promises.len() >= self.majority_size;
        self.received_promises.push(promise.acceptor_id.clone());
        proof {
            assert(self@.promises =~= pre.promises.push(promise.acceptor_id@));
            assert forall|i: int, j: int|
                0 <= i < self@.promises.len() && 0 <= j < self@.promises.len() && i != j implies self@.promises[i]
                != self@.promises[j] by {
                if i < pre.promises.len() && j < pre.promises.len() {
                    assert(pre.promises[i] != pre.promises[j]);
                } else if i < pre.promises.len() {
                    assert(pre.promises.contains(pre.promises[i]));
                } else {
                    assert(pre.promises.contains(pre.promises[j]));
                }
            }
        }
        let above_seen = match &self.highest_accepted_seen {
            Some(seen) => seen.precedes(&promise.last_accepted_proposal_id),
            None => true,
        };
        if !reached_before && promise.last_accepted_value.is_some() && above_seen {
            self.highest_accepted_seen = Some(promise.last_accepted_proposal_id.clone());
            self.value = clone_op_option(&promise.last_accepted_value);
        }
        if self.received_promises.len() >= self.majority_size {
            match &self.value {
                Some(v) => Ok(
                    Some(
                        ProposeMessage {
                            proposer_id: self.proposer_id.clone(),
                            proposal_id: self.proposal_id.clone(),
                            value: v.clone(),
                        },
                    ),
                ),
                None => Err(PaxosError::ValueNotSet),
            }
        } else {
            Ok(None)
        }
    }

    /// Records the value this node proposes unless a promise reports one.
    pub fn set_value(&mut self, value: Operation)
        requires
            old(self).wf(),
        ensures
            final(self).wf(),
            final(self)@ == (ProposerView { value: Some(value@), ..old(self)@ }),
    {
        self.value = Some(value);
    }
}

/// Any two majorities of a cluster share a node: the counting fact on which
/// a slot's safety rests (a value chosen by one majority is seen by every
/// later majority of promises).
pub proof fn lemma_majorities_intersect(all: Set<Seq<char>>, a: Set<Seq<char>>, b: Set<Seq<char>>)
    requires
        all.finite(),
        a.subset_of(all),
        b.subset_of(all),
        a.len() >= majority_of(all.len()),
        b.len() >= majority_of(all.len()),
    ensures
        exists|x: Seq<char>| a.contains(x) && b.contains(x),
{
    vstd::set_lib::lemma_len_subset(a, all);
    vstd::set_lib::lemma_len_subset(b, all);
    vstd::set_lib::lemma_len_subset(a + b, all);
    vstd::set_lib::lemma_set_intersect_union_lens(a, b);
    assert(a.intersect(b).len() > 0);
    if !exists|x: Seq<char>| a.contains(x) && b.contains(x) {
        assert(a.intersect(b) =~= Set::empty());
    }
}

/// A counted promise: the acceptor, and what it reports as its last
/// accepted id and value.
pub type PromiseReport = (Seq<char>, ProposalIDView, Option<OperationView>);

/// The proposer after counting the promises `rs`, in order, for its round.
pub open spec fn counted(p: ProposerView, rs: Seq<PromiseReport>) -> ProposerView
    decreases rs.len(),
{
    if rs.len() == 0 {
        p
    } else {
        let prev = counted(p, rs.drop_last());
        let r = rs.last();
        prev.with_promise(r.0, prev.proposal, r.1, r.2)
    }
}

/// The value rule of Paxos, as the proposer follows it: counting the
/// promises of a round, up to a majority, it ends up proposing the value
/// reported under the highest accepted id among them, or the value it held
/// if none reports one.
pub proof fn lemma_proposer_adopts_highest(p: ProposerView, rs: Seq<PromiseReport>)
    requires
        p.promises.len() == 0,
        p.accepted_seen is None,
        rs.len() <= p.majority,
    ensures
        counted(p, rs).proposal == p.proposal,
        counted(p, rs).majority == p.majority,
        counted(p, rs).promises.len() == rs.len(),
        (forall|k: int| 0 <= k < rs.len() ==> (#[trigger] rs[k]).2 is None) ==> counted(
            p,
            rs,
        ).value == p.value && counted(p, rs).accepted_seen is None,
        (exists|k: int| 0 <= k < rs.len() && (#[trigger] rs[k]).2 is Some) ==> {
            let n = counted(p, rs);
            &&& n.accepted_seen is Some
            &&& exists|k: int|
                0 <= k < rs.len() && (#[trigger] rs[k]).2 is Some && rs[k].1
                    == n.accepted_seen->0 && rs[k].2 == n.value
            &&& forall|k: int|
                0 <= k < rs.len() && (#[trigger] rs[k]).2 is Some ==> rs[k].1.le(
                    n.accepted_seen->0,
                )
        },
    decreases rs.len(),
{
    if rs.len() > 0 {
        let init = rs.drop_last();
        lemma_proposer_adopts_highest(p, init);
        let prev = counted(p, init);
        let r = rs.last();
        let n = counted(p, rs);
        assert(n == prev.with_promise(r.0, prev.proposal, r.1, r.2));
        assert forall|k: int| 0 <= k < init.len() implies #[trigger] init[k] == rs[k] by {}
        if r.2 is Some {
            assert(rs[rs.len() - 1].2 is Some);
            match prev.accepted_seen {
                None => {
                    assert(forall|k: int| 0 <= k < init.len() ==> (#[trigger] init[k]).2 is None);
                    lemma_proposal_le(r.1, r.1, r.1);
                    assert(rs[rs.len() - 1] == r);
                    assert(prev.promises.len() < prev.majority);
                    assert(n.accepted_seen == Some(r.1) && n.value == r.2);
                    assert forall|k: int|
                        0 <= k < rs.len() && (#[trigger] rs[k]).2 is Some implies rs[k].1.le(
                        n.accepted_seen->0,
                    ) by {
                        if k < init.len() {
                            assert(init[k] == rs[k]);
                        }
                    }
                },
                Some(l) => {
                    lemma_proposal_le(l, r.1, l);
                    if !exists|k: int| 0 <= k < init.len() && (#[trigger] init[k]).2 is Some {
                        assert(forall|k: int| 0 <= k < init.len() ==> (#[trigger] init[k]).2 is None);
                    }
                    let k0 = choose|k: int|
                        0 <= k < init.len() && (#[trigger] init[k]).2 is Some && init[k].1 == l
                            && init[k].2 == prev.value;
                    assert(rs[k0] == init[k0]);
                    assert(rs[rs.len() - 1] == r);
                    assert(prev.promises.len() < prev.majority);
                    if l.lt(r.1) {
                        assert(n.accepted_seen == Some(r.1) && n.value == r.2);
                    } else {
                        assert(n.accepted_seen == Some(l) && n.value == prev.value);
                    }
                    assert forall|k: int|
                        0 <= k < rs.len() && (#[trigger] rs[k]).2 is Some implies rs[k].1.le(
                        n.accepted_seen->0,
                    ) by {
                        if k < init.len() {
                            assert(init[k] == rs[k]);
                            lemma_proposal_le(rs[k].1, l, r.1);
                        }
                    }
                },
            }
        } else {
            if exists|k: int| 0 <= k < rs.len() && (#[trigger] rs[k]).2 is Some {
                let k1 = choose|k: int| 0 <= k < rs.len() && (#[trigger] rs[k]).2 is Some;
                assert(k1 < init.len());
                assert(init[k1] == rs[k1]);
                let k0 = choose|k: int|
                    0 <= k < init.len() && (#[trigger] init[k]).2 is Some && init[k].1
                        == prev.accepted_seen->0 && init[k].2 == prev.value;
                assert(rs[k0] == init[k0]);
                assert(n.accepted_seen == prev.accepted_seen && n.value == prev.value);
                assert forall|k: int|
                    0 <= k < rs.len() && (#[trigger] rs[k]).2 is Some implies rs[k].1.le(
                    n.accepted_seen->0,
                ) by {
                    assert(k < init.len());
                    assert(init[k] == rs[k]);
                }
            } else {
                assert forall|k: int| 0 <= k < init.len() implies (#[trigger] init[k]).2 is None by {
                    assert(init[k] == rs[k]);
                }
            }
        }
    }
}

} // verus!

use vstd::prelude::*;

use crate::common::{
    opt_op_view, AcceptedMessage, InstanceID, LearnMessage, NodeID,
    PaxosError, ProposalID, ProposalIDView, ValueMessage,
};
use crate::locker::{Operation, OperationView};
use crate::proposer::majority_of;

verus! {

/// One more than `c`, held at the top of the range.
pub open spec fn count_up(c: nat) -> nat {
    if c < usize::MAX {
        c + 1
    } else {
        c
    }
}

/// The count of acceptances recorded for `id`.
pub open spec fn count_of(counts: Map<ProposalIDView, nat>, id: ProposalIDView) -> nat {
    if counts.contains_key(id) {
        counts[id]
    } else {
        0
    }
}

pub struct LearnerView {
    pub instance_id: InstanceID,
    pub id: Seq<char>,
    pub majority: nat,
    /// Acceptances counted for each proposal id.
    pub counts: Map<ProposalIDView, nat>,
    /// The latest proposal id each acceptor was counted for.
    pub latest: Map<Seq<char>, ProposalIDView>,
    pub chosen_id: ProposalIDView,
    pub chosen_value: Option<OperationView>,
}

impl LearnerView {
    /// Whether an Accepted from `acceptor` for `id` is counted: no value is
    /// chosen yet, and the acceptor was not counted for `id` or a later id.
    pub open spec fn counts_accepted(self, acceptor: Seq<char>, id: ProposalIDView) -> bool {
        &&& self.chosen_value is None
        &&& !(self.latest.contains_key(acceptor) && id.le(self.latest[acceptor]))
    }

    /// The state after a counted Accepted; the chosen id is fixed when the
    /// count for `id` reaches the majority.
    pub open spec fn with_accepted(self, acceptor: Seq<char>, id: ProposalIDView) -> LearnerView {
        let c = count_up(count_of(self.counts, id));
        LearnerView {
            counts: self.counts.insert(id, c),
            latest: self.latest.insert(acceptor, id),
            chosen_id: if c == self.majority {
                id
            } else {
                self.chosen_id
            },
            ..self
        }
    }
}

/// `pairs` lists `m`: distinct keys, each with its count, and every key of
/// `m` among them.
pub open spec fn lists_counts(pairs: Seq<(ProposalID, usize)>, m: Map<ProposalIDView, nat>) -> bool {
    &&& forall|i: int, j: int|
        0 <= i < pairs.len() && 0 <= j < pairs.len() && i != j ==> #[trigger] pairs[i].0@
            != #[trigger] pairs[j].0@
    &&& forall|i: int|
        0 <= i < pairs.len() ==> #[trigger] m.contains_key(pairs[i].0@) && m[pairs[i].0@]
            == pairs[i].1 as nat
    &&& forall|k: ProposalIDView|
        #[trigger] m.contains_key(k) ==> exists|i: int| 0 <= i < pairs.len() && pairs[i].0@ == k
}

/// `pairs` lists `m`: distinct acceptors, each with its latest id, and every
/// acceptor of `m` among them.
pub open spec fn lists_latest(
    pairs: Seq<(NodeID, ProposalID)>,
    m: Map<Seq<char>, ProposalIDView>,
) -> bool {
    &&& forall|i: int, j: int|
        0 <= i < pairs.len() && 0 <= j < pairs.len() && i != j ==> #[trigger] pairs[i].0@
            != #[trigger] pairs[j].0@
    &&& forall|i: int|
        0 <= i < pairs.len() ==> #[trigger] m.contains_key(pairs[i].0@) && m[pairs[i].0@]
            == pairs[i].1@
    &&& forall|k: Seq<char>|
        #[trigger] m.contains_key(k) ==> exists|i: int| 0 <= i < pairs.len() && pairs[i].0@ == k
}

/// The learner role of one node for one slot.
pub struct Learner {
    instance_id: InstanceID,
    learner_id: NodeID,
    majority_size: usize,
    proposal_accept_count: Vec<(ProposalID, usize)>,
    counts: Ghost<Map<ProposalIDView, nat>>,
    acceptor_highest_proposal_id: Vec<(NodeID, ProposalID)>,
    latest: Ghost<Map<Seq<char>, ProposalIDView>>,
    chosen_proposal_id: ProposalID,
    chosen_value: Option<Operation>,
}

impl View for Learner {
    type V = LearnerView;

    closed spec fn view(&self) -> LearnerView {
        LearnerView {
            instance_id: self.instance_id,
            id: self.learner_id@,
            majority: self.majority_size as nat,
            counts: self.counts@,
            latest: self.latest@,
            chosen_id: self.chosen_proposal_id@,
            chosen_value: opt_op_view(self.chosen_value),
        }
    }
}

impl Learner {
    pub closed spec fn wf(&self) -> bool {
        &&& lists_counts(self.proposal_accept_count@, self.counts@)
        &&& lists_latest(self.acceptor_highest_proposal_id@, self.latest@)
    }

    pub fn new(instance_id: InstanceID, learner_id: NodeID, cluster_size: usize) -> (r: Learner)
        ensures
            r.wf(),
            r@.instance_id == instance_id,
            r@.id == learner_id@,
            r@.majority == majority_of(cluster_size as nat),
            r@.counts == Map::<ProposalIDView, nat>::empty(),
            r@.latest == Map::<Seq<char>, ProposalIDView>::empty(),
            r@.chosen_id.is_zero(),
            r@.chosen_value is None,
    {
        let chosen_proposal_id = ProposalID::new(0, learner_id.clone());
        Learner {
            instance_id,
            learner_id,
            majority_size: cluster_size / 2 + 1,
            proposal_accept_count: Vec::new(),
            counts: Ghost(Map::empty()),
            acceptor_highest_proposal_id: Vec::new(),
            latest: Ghost(Map::empty()),
            chosen_proposal_id,
            chosen_value: None,
        }
    }

    fn find_acceptor(&self, acceptor: &NodeID) -> (r: Option<usize>)
        requires
            self.wf(),
        ensures
            match r {
                Some(i) => i < self.acceptor_highest_proposal_id@.len()
                    && self.acceptor_highest_proposal_id@[i as int].0@ == acceptor@
                    && self@.latest.contains_key(acceptor@) && self@.latest[acceptor@]
                    == self.acceptor_highest_proposal_id@[i as int].1@,
                None => !self@.latest.contains_key(acceptor@),
            },
    {
        let mut i: usize = 0;
        while i < self.acceptor_highest_proposal_id.len()
            invariant
                self.wf(),
                i <= self.acceptor_highest_proposal_id@.len(),
                forall|j: int| 0 <= j < i ==> self.acceptor_highest_proposal_id@[j].0@ != acceptor@,
            decreases self.acceptor_highest_proposal_id@.len() - i,
        {
            if self.acceptor_highest_proposal_id[i].0 == *acceptor {
                assert(self.latest@.contains_key(self.acceptor_highest_proposal_id@[i as int].0@));
                return Some(i);
            }
            i = i + 1;
        }
        proof {
            if self@.latest.contains_key(acceptor@) {
                let j = choose|j: int|
                    0 <= j < self.acceptor_highest_proposal_id@.len()
                        && self.acceptor_highest_proposal_id@[j].0@ == acceptor@;
                assert(self.acceptor_highest_proposal_id@[j].0@ != acceptor@);
            }
        }
        None
    }

    fn find_count(&self, id: &ProposalID) -> (r: Option<usize>)
        requires
            self.wf(),
        ensures
            match r {
                Some(i) => i < self.proposal_accept_count@.len()
                    && self.proposal_accept_count@[i as int].0@ == id@ && self@.counts.contains_key(
                    id@,
                ) && self@.counts[id@] == self.proposal_accept_count@[i as int].1 as nat,
                None => !self@.counts.contains_key(id@),
            },
    {
        let mut i: usize = 0;
        while i < self.proposal_accept_count.len()
            invariant
                self.wf(),
                i <= self.proposal_accept_count@.len(),
                forall|j: int| 0 <= j < i ==> self.proposal_accept_count@[j].0@ != id@,
            decreases self.proposal_accept_count@.len() - i,
        {
            if self.proposal_accept_count[i].0.same_as(id) {
                assert(self.counts@.contains_key(self.proposal_accept_count@[i as int].0@));
                return Some(i);
            }
            i = i + 1;
        }
        proof {
            if self@.counts.contains_key(id@) {
                let j = choose|j: int|
                    0 <= j < self.proposal_accept_count@.len()
                        && self.proposal_accept_count@[j].0@ == id@;
                assert(self.proposal_accept_count@[j].0@ != id@);
            }
        }
        None
    }

    /// Records `id` as the latest id counted for `acceptor`.
    fn record_latest(&mut self, acceptor: &NodeID, id: &ProposalID, at: Option<usize>)
        requires
            old(self).wf(),
            match at {
                Some(i) => i < old(self).acceptor_highest_proposal_id@.len()
                    && old(self).acceptor_highest_proposal_id@[i as int].0@ == acceptor@,
                None => !old(self)@.latest.contains_key(acceptor@),
            },
        ensures
            final(self).wf(),
            final(self)@ == (LearnerView {
                latest: old(self)@.latest.insert(acceptor@, id@),
                ..old(self)@
            }),
            final(self).proposal_accept_count@ == old(self).proposal_accept_count@,
    {
        let ghost pairs = self.acceptor_highest_proposal_id@;
        let ghost m = self.latest@;
        let ghost m2 = m.insert(acceptor@, id@);
        match at {
            Some(i) => {
                self.acceptor_highest_proposal_id.set(i, (acceptor.clone(), id.clone()));
                self.latest = Ghost(m2);
                proof {
                    let np = self.acceptor_highest_proposal_id@;
                    assert forall|j: int| 0 <= j < np.len() implies #[trigger] m2.contains_key(
                        np[j].0@) && m2[np[j].0@] == np[j].1@ by {
                        if j != i {
                            assert(np[j] == pairs[j]);
                            assert(pairs[j].0@ != pairs[i as int].0@);
                            assert(m.contains_key(pairs[j].0@));
                        }
                    }
                    assert forall|k: Seq<char>| #[trigger] m2.contains_key(k) implies exists|j: int|
                        0 <= j < np.len() && np[j].0@ == k by {
                        if k == acceptor@ {
                            assert(np[i as int].0@ == k);
                        } else {
                            let j = choose|j: int| 0 <= j < pairs.len() && pairs[j].0@ == k;
                            assert(np[j].0@ == k);
                        }
                    }
                    assert forall|a: int, b: int|
                        0 <= a < np.len() && 0 <= b < np.len() && a != b implies #[trigger] np[a].0@
                        != #[trigger] np[b].0@ by {
                        assert(pairs[a].0@ != pairs[b].0@);
                    }
                }
            },
            None => {
                self.acceptor_highest_proposal_id.push((acceptor.clone(), id.clone()));
                self.latest = Ghost(m2);
                proof {
                    let np = self.acceptor_highest_proposal_id@;
                    assert forall|j: int| 0 <= j < np.len() implies #[trigger] m2.contains_key(
                        np[j].0@) && m2[np[j].0@] == np[j].1@ by {
                        if j < pairs.len() {
                            assert(np[j] == pairs[j]);
                            assert(m.contains_key(pairs[j].0@));
                        }
                    }
                    assert forall|k: Seq<char>| #[trigger] m2.contains_key(k) implies exists|j: int|
                        0 <= j < np.len() && np[j].0@ == k by {
                        if k == acceptor@ {
                            assert(np[pairs.len() as int].0@ == k);
                        } else {
                            let j = choose|j: int| 0 <= j < pairs.len() && pairs[j].0@ == k;
                            assert(np[j].0@ == k);
                        }
                    }
                    assert forall|a: int, b: int|
                        0 <= a < np.len() && 0 <= b < np.len() && a != b implies #[trigger] np[a].0@
                        != #[trigger] np[b].0@ by {
                        if a < pairs.len() && b < pairs.len() {
                            assert(pairs[a].0@ != pairs[b].0@);
                        } else if a < pairs.len() {
                            assert(m.contains_key(pairs[a].0@));
                        } else {
                            assert(m.contains_key(pairs[b].0@));
                        }
                    }
                }
            },
        }
    }

    /// Adds one to the count of `id` and returns the new count.
    fn count_accepted(&mut self, id: &ProposalID) -> (r: usize)
        requires
            old(self).wf(),
        ensures
            final(self).wf(),
            r as nat == count_up(count_of(old(self)@.counts, id@)),
            final(self)@ == (LearnerView {
                counts: old(self)@.counts.insert(id@, r as nat),
                ..old(self)@
            }),
    {
        let ghost pairs = self.proposal_accept_count@;
        let ghost m = self.counts@;
        match self.find_count(id) {
            Some(i) => {
                let c = self.proposal_accept_count[i].1;
                let n = if c < usize::MAX {
                    c + 1
                } else {
                    c
                };
                let ghost m2 = m.insert(id@, n as nat);
                self.proposal_accept_count.set(i, (id.clone(), n));
                self.counts = Ghost(m2);
                proof {
                    let np = self.proposal_accept_count@;
                    assert forall|j: int| 0 <= j < np.len() implies #[trigger] m2.contains_key(
                        np[j].0@) && m2[np[j].0@] == np[j].1 as nat by {
                        if j != i {
                            assert(np[j] == pairs[j]);
                            assert(pairs[j].0@ != pairs[i as int].0@);
                            assert(m.contains_key(pairs[j].0@));
                        }
                    }
                    assert forall|k: ProposalIDView| #[trigger] m2.contains_key(k) implies exists|
                        j: int,
                    | 0 <= j < np.len() && np[j].0@ == k by {
                        if k == id@ {
                            assert(np[i as int].0@ == k);
                        } else {
                            let j = choose|j: int| 0 <= j < pairs.len() && pairs[j].0@ == k;
                            assert(np[j].0@ == k);
                        }
                    }
                    assert forall|a: int, b: int|
                        0 <= a < np.len() && 0 <= b < np.len() && a != b implies #[trigger] np[a].0@
                        != #[trigger] np[b].0@ by {
                        assert(pairs[a].0@ != pairs[b].0@);
                    }
                }
                n
            },
            None => {
                let ghost m2 = m.insert(id@, 1);
                self.proposal_accept_count.push((id.clone(), 1));
                self.counts = Ghost(m2);
                proof {
                    let np = self.proposal_accept_count@;
                    assert forall|j: int| 0 <= j < np.len() implies #[trigger] m2.contains_key(
                        np[j].0@) && m2[np[j].0@] == np[j].1 as nat by {
                        if j < pairs.len() {
                            assert(np[j] == pairs[j]);
                            assert(m.contains_key(pairs[j].0@));
                        }
                    }
                    assert forall|k: ProposalIDView| #[trigger] m2.contains_key(k) implies exists|
                        j: int,
                    | 0 <= j < np.len() && np[j].0@ == k by {
                        if k == id@ {
                            assert(np[pairs.len() as int].0@ == k);
                        } else {
                            let j = choose|j: int| 0 <= j < pairs.len() && pairs[j].0@ == k;
                            assert(np[j].0@ == k);
                        }
                    }
                    assert forall|a: int, b: int|
                        0 <= a < np.len() && 0 <= b < np.len() && a != b implies #[trigger] np[a].0@
                        != #[trigger] np[b].0@ by {
                        if a < pairs.len() && b < pairs.len() {
                            assert(pairs[a].0@ != pairs[b].0@);
                        } else if a < pairs.len() {
                            assert(m.contains_key(pairs[a].0@));
                        } else {
                            assert(m.contains_key(pairs[b].0@));
                        }
                    }
                }
                1
            },
        }
    }

    /// Counts an Accepted when `counts_accepted` holds; returns a Learn
    /// request exactly when that count reaches the majority.
    pub fn receive_accepted(&mut self, accepted: &AcceptedMessage) -> (r: Option<LearnMessage>)
        requires
            old(self).wf(),
        ensures
            final(self).wf(),
            ({
                let o = old(self)@;
                let a = accepted.acceptor_id@;
                let id = accepted.proposal_id@;
                if o.counts_accepted(a, id) {
                    let c = count_up(count_of(o.counts, id));
                    &&& final(self)@ == o.with_accepted(a, id)
                    &&& c == o.majority ==> (r matches Some(m) && m.learner_id@ == o.id)
                    &&& c != o.majority ==> r is None
                } else {
                    final(self)@ == o && r is None
                }
            }),
    {
        if self.chosen_value.is_some() {
            return None;
        }
        let at = self.find_acceptor(&accepted.acceptor_id);
        match at {
            Some(i) => {
                if self.acceptor_highest_proposal_id[i].1.at_least(&accepted.proposal_id) {
                    return None;
                }
            },
            None => {},
        }
        self.record_latest(&accepted.acceptor_id, &accepted.proposal_id, at);
        let c = self.count_accepted(&accepted.proposal_id);
        if c == self.majority_size {
            self.chosen_proposal_id = accepted.proposal_id.clone();
            Some(LearnMessage { learner_id: self.learner_id.clone() })
        } else {
            None
        }
    }

    /// A Learn request for this learner, once a chosen id is fixed.
    pub fn learn_value(&mut self) -> (r: Result<LearnMessage, PaxosError>)
        requires
            old(self).wf(),
        ensures
            final(self).wf(),
            final(self)@ == old(self)@,
            old(self)@.chosen_id.is_zero() ==> r == Err::<LearnMessage, PaxosError>(
                PaxosError::NoConsensusYet,
            ),
            !old(self)@.chosen_id.is_zero() ==> (r matches Ok(m) && m.learner_id@ == old(
                self,
            )@.id),
    {
        if self.chosen_proposal_id.round() == 0 {
            Err(PaxosError::NoConsensusYet)
        } else {
            Ok(LearnMessage { learner_id: self.learner_id.clone() })
        }
    }

    /// Answers a Learn request with the chosen value, if there is one.
    pub fn receive_learn(&mut self, _learn: &LearnMessage) -> (r: Option<ValueMessage>)
        requires
            old(self).wf(),
        ensures
            final(self).wf(),
            final(self)@ == old(self)@,
            old(self)@.chosen_value is None ==> r is None,
            old(self)@.chosen_value is Some ==> (r matches Some(m) && m.learner_id@ == old(
                self,
            )@.id && m.chosen_proposal_id@ == old(self)@.chosen_id && Some(m.chosen_value@)
                == old(self)@.chosen_value),
    {
        match &self.chosen_value {
            Some(v) => Some(
                ValueMessage {
                    learner_id: self.learner_id.clone(),
                    chosen_proposal_id: self.chosen_proposal_id.clone(),
                    chosen_value: v.clone(),
                },
            ),
            None => None,
        }
    }

    /// Sets the chosen value directly.
    pub fn set_chosen_value(&mut self, value: Operation)
        requires
            old(self).wf(),
        ensures
            final(self).wf(),
            final(self)@ == (LearnerView { chosen_value: Some(value@), ..old(self)@ }),
    {
        self.chosen_value = Some(value);
    }

    /// Takes the value of a Value message if none is chosen yet, and returns
    /// it then: `Some` means this is the first time the value is known here.
    pub fn receive_value(&mut self, value: &ValueMessage) -> (r: Option<Operation>)
        requires
            old(self).wf(),
        ensures
            final(self).wf(),
            old(self)@.chosen_value is Some ==> final(self)@ == old(self)@ && r is None,
            old(self)@.chosen_value is None ==> final(self)@ == (LearnerView {
                chosen_value: Some(value.chosen_value@),
                ..old(self)@
            }) && (r matches Some(v) && v@ == value.chosen_value@),
    {
        if self.chosen_value.is_some() {
            None
        } else {
            self.chosen_value = Some(value.chosen_value.clone());
            Some(value.chosen_value.clone())
        }
    }
}

} // verus!

use vstd::prelude::*;

use crate::acceptor::AcceptorView;
use crate::common::{lemma_proposal_le, lemma_proposal_order, ProposalIDView};
use crate::locker::OperationView;
use crate::proposer::{lemma_majorities_intersect, majority_of};

verus! {

/// What a Promise reports: the acceptor's last accepted id and value, if it
/// accepted anything.
pub type Report = Option<(ProposalIDView, OperationView)>;

/// One slot across the whole cluster: every acceptor's state, and the
/// history of what was sent. Messages may be lost, duplicated and delivered
/// in any order: any message in the history may be acted on at any time.
pub struct SlotModel {
    pub nodes: Set<Seq<char>>,
    pub acceptors: Map<Seq<char>, AcceptorView>,
    /// (acceptor, id, value): the acceptor accepted `value` under `id`.
    pub votes: Set<(Seq<char>, ProposalIDView, OperationView)>,
    /// The value proposed under each id (a proposer proposes one value per
    /// round).
    pub proposals: Map<ProposalIDView, OperationView>,
    /// (acceptor, id, report): the acceptor promised `id`.
    pub promises: Set<(Seq<char>, ProposalIDView, Report)>,
}

pub open spec fn report_of(a: AcceptorView) -> Report {
    match a.value {
        Some(v) => Some((a.accepted, v)),
        None => None,
    }
}

/// The report names no id above `l`.
pub open spec fn reported_at_most(r: Report, l: ProposalIDView) -> bool {
    match r {
        Some((l2, _)) => l2.le(l),
        None => true,
    }
}

/// `a0` reports `v` under an id that no report of `q` exceeds.
pub open spec fn highest_report(
    q: Set<Seq<char>>,
    reports: Map<Seq<char>, Report>,
    a0: Seq<char>,
    v: OperationView,
) -> bool {
    match reports[a0] {
        Some((l, w)) => w == v && forall|a: Seq<char>|
            #[trigger] q.contains(a) ==> reported_at_most(reports[a], l),
        None => false,
    }
}

impl SlotModel {
    pub open spec fn is_quorum(self, q: Set<Seq<char>>) -> bool {
        q.subset_of(self.nodes) && q.len() >= majority_of(self.nodes.len())
    }

    /// `v` is chosen under `b`: a majority of acceptors accepted it there.
    pub open spec fn chosen_at(self, b: ProposalIDView, v: OperationView) -> bool {
        exists|q: Set<Seq<char>>|
            #[trigger] self.is_quorum(q) && forall|a: Seq<char>|
                q.contains(a) ==> #[trigger] self.votes.contains((a, b, v))
    }

    pub open spec fn init(self) -> bool {
        &&& self.nodes.finite()
        &&& self.acceptors.dom() == self.nodes
        &&& forall|a: Seq<char>| #[trigger] self.nodes.contains(a) ==> self.acceptors[a].value is None
            && self.acceptors[a].accepted.le(self.acceptors[a].promised)
        &&& self.votes.is_empty()
        &&& self.proposals.dom().is_empty()
        &&& self.promises.is_empty()
    }

    /// Acceptor `a` grants a Prepare for `b`.
    pub open spec fn promise_step(self, next: Self, a: Seq<char>, b: ProposalIDView) -> bool {
        let acc = self.acceptors[a];
        &&& self.nodes.contains(a)
        &&& acc.grants_prepare(b)
        &&& next == SlotModel {
            acceptors: self.acceptors.insert(a, AcceptorView { promised: b, ..acc }),
            promises: self.promises.insert((a, b, report_of(acc))),
            ..self
        }
    }

    /// A proposer that holds Promises for `b` from a majority `q` proposes
    /// `v`: the value reported under the highest id among them, or any
    /// value if none reports one.
    pub open spec fn propose_step(
        self,
        next: Self,
        b: ProposalIDView,
        v: OperationView,
        q: Set<Seq<char>>,
        reports: Map<Seq<char>, Report>,
    ) -> bool {
        &&& !self.proposals.contains_key(b)
        &&& self.is_quorum(q)
        &&& forall|a: Seq<char>|
            #[trigger] q.contains(a) ==> reports.contains_key(a) && self.promises.contains(
                (a, b, reports[a]),
            )
        &&& {
            ||| forall|a: Seq<char>| #[trigger] q.contains(a) ==> reports[a] is None
            ||| exists|a0: Seq<char>| #[trigger] q.contains(a0) && highest_report(q, reports, a0, v)
        }
        &&& next == SlotModel { proposals: self.proposals.insert(b, v), ..self }
    }

    /// Acceptor `a` accepts the proposal under `b`.
    pub open spec fn accept_step(self, next: Self, a: Seq<char>, b: ProposalIDView) -> bool {
        let acc = self.acceptors[a];
        let v = self.proposals[b];
        &&& self.nodes.contains(a)
        &&& self.proposals.contains_key(b)
        &&& acc.grants_propose(b, v)
        &&& next == SlotModel {
            acceptors: self.acceptors.insert(
                a,
                AcceptorView { promised: b, accepted: b, value: Some(v), ..acc },
            ),
            votes: self.votes.insert((a, b, v)),
            ..self
        }
    }

    /// Acceptor `a` learns that the slot is decided.
    pub open spec fn decide_step(self, next: Self, a: Seq<char>) -> bool {
        &&& self.nodes.contains(a)
        &&& next == SlotModel {
            acceptors: self.acceptors.insert(
                a,
                AcceptorView { reached_consensus: true, ..self.acceptors[a] },
            ),
            ..self
        }
    }

    pub open spec fn next(self, next: Self) -> bool {
        ||| exists|a: Seq<char>, b: ProposalIDView| #[trigger] self.promise_step(next, a, b)
        ||| exists|b: ProposalIDView, v: OperationView, q: Set<Seq<char>>, r: Map<Seq<char>, Report>|
            #[trigger] self.propose_step(next, b, v, q, r)
        ||| exists|a: Seq<char>, b: ProposalIDView| #[trigger] self.accept_step(next, a, b)
        ||| exists|a: Seq<char>| #[trigger] self.decide_step(next, a)
        ||| next == self
    }

    /// No majority can still come to accept `w` under `c`: each majority has
    /// a member that did not accept it and has promised above `c`.
    pub open spec fn none_choosable(self, c: ProposalIDView, w: OperationView) -> bool {
        forall|q: Set<Seq<char>>|
            #[trigger] self.is_quorum(q) ==> exists|a: Seq<char>|
                q.contains(a) && !self.votes.contains((a, c, w)) && c.lt(
                    #[trigger] self.acceptors[a].promised,
                )
    }

    /// Proposing `v` under `b` is safe: no other value can be chosen below.
    pub open spec fn safe_at(self, b: ProposalIDView, v: OperationView) -> bool {
        forall|c: ProposalIDView, w: OperationView|
            c.lt(b) && w != v ==> #[trigger] self.none_choosable(c, w)
    }

    pub open spec fn inv(self) -> bool {
        &&& self.nodes.finite()
        &&& self.acceptors.dom() == self.nodes
        &&& forall|a: Seq<char>| #[trigger] self.nodes.contains(a) ==> {
            let acc = self.acceptors[a];
            &&& acc.accepted.le(acc.promised)
            &&& acc.value matches Some(v) ==> self.votes.contains((a, acc.accepted, v))
        }
        &&& forall|a: Seq<char>, b: ProposalIDView, v: OperationView|
            #[trigger] self.votes.contains((a, b, v)) ==> {
                &&& self.nodes.contains(a)
                &&& self.proposals.contains_key(b)
                &&& self.proposals[b] == v
                &&& self.acceptors[a].value is Some
                &&& b.le(self.acceptors[a].accepted)
            }
        &&& forall|a: Seq<char>, b: ProposalIDView, r: Report|
            #[trigger] self.promises.contains((a, b, r)) ==> {
                &&& self.nodes.contains(a)
                &&& b.le(self.acceptors[a].promised)
                &&& match r {
                    None => forall|c: ProposalIDView, v: OperationView|
                        #[trigger] self.votes.contains((a, c, v)) ==> !c.lt(b),
                    Some((l, w)) => {
                        &&& self.votes.contains((a, l, w))
                        &&& forall|c: ProposalIDView, v: OperationView|
                            #[trigger] self.votes.contains((a, c, v)) && c.lt(b) ==> c.le(l)
                    },
                }
            }
        &&& forall|b: ProposalIDView| #[trigger]
            self.proposals.contains_key(b) ==> self.safe_at(b, self.proposals[b])
    }
}

proof fn lemma_init_inv(s: SlotModel)
    requires
        s.init(),
    ensures
        s.inv(),
{
}

/// A move that only raises promises and adds votes at or above the voter's
/// promise keeps every "none choosable" fact.
proof fn lemma_none_choosable_kept(
    s: SlotModel,
    n: SlotModel,
    c: ProposalIDView,
    w: OperationView,
)
    requires
        s.none_choosable(c, w),
        n.nodes == s.nodes,
        forall|a: Seq<char>|
            #[trigger] s.nodes.contains(a) ==> s.acceptors[a].promised.le(n.acceptors[a].promised),
        forall|a: Seq<char>, b: ProposalIDView, v: OperationView|
            #[trigger] n.votes.contains((a, b, v)) ==> s.votes.contains((a, b, v))
                || s.acceptors[a].promised.le(b),
    ensures
        n.none_choosable(c, w),
{
    assert forall|q: Set<Seq<char>>| #[trigger] n.is_quorum(q) implies exists|a: Seq<char>|
        q.contains(a) && !n.votes.contains((a, c, w)) && c.lt(
            #[trigger] n.acceptors[a].promised,
        ) by {
        assert(s.is_quorum(q));
        let a = choose|a: Seq<char>|
            q.contains(a) && !s.votes.contains((a, c, w)) && c.lt(
                #[trigger] s.acceptors[a].promised,
            );
        assert(s.nodes.contains(a));
        lemma_proposal_le(c, s.acceptors[a].promised, n.acceptors[a].promised);
        if n.votes.contains((a, c, w)) {
            lemma_proposal_le(s.acceptors[a].promised, c, s.acceptors[a].promised);
        }
    }
}

proof fn lemma_promise_step_inv(s: SlotModel, n: SlotModel, a: Seq<char>, b: ProposalIDView)
    requires
        s.inv(),
        s.promise_step(n, a, b),
    ensures
        n.inv(),
{
    assert(n.acceptors.dom() =~= n.nodes);
    let acc = s.acceptors[a];
    assert forall|x: Seq<char>| #[trigger] s.nodes.contains(x) implies s.acceptors[x].promised.le(
        n.acceptors[x].promised,
    ) by {
        lemma_proposal_le(s.acceptors[x].promised, s.acceptors[x].promised, s.acceptors[x].promised);
    }
    assert forall|x: Seq<char>| #[trigger] n.nodes.contains(x) implies ({
        let ac = n.acceptors[x];
        &&& ac.accepted.le(ac.promised)
        &&& ac.value matches Some(v) ==> n.votes.contains((x, ac.accepted, v))
    }) by {
        lemma_proposal_le(acc.accepted, acc.promised, b);
    }
    assert forall|x: Seq<char>, c: ProposalIDView, r: Report|
        #[trigger] n.promises.contains((x, c, r)) implies n.nodes.contains(x) && c.le(
        n.acceptors[x].promised,
    ) by {
        if s.promises.contains((x, c, r)) {
            lemma_proposal_le(c, s.acceptors[x].promised, n.acceptors[x].promised);
        }
    }
    assert forall|c: ProposalIDView| #[trigger] n.proposals.contains_key(c) implies n.safe_at(
        c,
        n.proposals[c],
    ) by {
        assert forall|d: ProposalIDView, w: OperationView|
            d.lt(c) && w != n.proposals[c] implies #[trigger] n.none_choosable(d, w) by {
            assert(s.none_choosable(d, w));
            lemma_none_choosable_kept(s, n, d, w);
        }
    }
}

proof fn lemma_accept_step_inv(s: SlotModel, n: SlotModel, a: Seq<char>, b: ProposalIDView)
    requires
        s.inv(),
        s.accept_step(n, a, b),
    ensures
        n.inv(),
{
    assert(n.acceptors.dom() =~= n.nodes);
    let acc = s.acceptors[a];
    let v = s.proposals[b];
    lemma_proposal_le(b, b, b);
    assert forall|x: Seq<char>| #[trigger] s.nodes.contains(x) implies s.acceptors[x].promised.le(
        n.acceptors[x].promised,
    ) by {
        lemma_proposal_le(s.acceptors[x].promised, s.acceptors[x].promised, s.acceptors[x].promised);
    }
    assert forall|x: Seq<char>, c: ProposalIDView, w: OperationView|
        #[trigger] n.votes.contains((x, c, w)) implies {
        &&& n.nodes.contains(x)
        &&& n.proposals.contains_key(c)
        &&& n.proposals[c] == w
        &&& n.acceptors[x].value is Some
        &&& c.le(n.acceptors[x].accepted)
    } by {
        if s.votes.contains((x, c, w)) && x == a {
            lemma_proposal_le(c, acc.accepted, acc.promised);
            lemma_proposal_le(c, acc.promised, b);
        }
    }
    assert forall|x: Seq<char>, c: ProposalIDView, r: Report|
        #[trigger] n.promises.contains((x, c, r)) implies {
        &&& n.nodes.contains(x)
        &&& c.le(n.acceptors[x].promised)
        &&& match r {
            None => forall|d: ProposalIDView, w: OperationView|
                #[trigger] n.votes.contains((x, d, w)) ==> !d.lt(c),
            Some((l, w)) => {
                &&& n.votes.contains((x, l, w))
                &&& forall|d: ProposalIDView, u: OperationView|
                    #[trigger] n.votes.contains((x, d, u)) && d.lt(c) ==> d.le(l)
            },
        }
    } by {
        if x == a {
            lemma_proposal_le(c, acc.promised, b);
            lemma_proposal_le(b, c, acc.promised);
        }
    }
    assert forall|c: ProposalIDView| #[trigger] n.proposals.contains_key(c) implies n.safe_at(
        c,
        n.proposals[c],
    ) by {
        assert forall|d: ProposalIDView, w: OperationView|
            d.lt(c) && w != n.proposals[c] implies #[trigger] n.none_choosable(d, w) by {
            assert(s.none_choosable(d, w));
            lemma_none_choosable_kept(s, n, d, w);
        }
    }
}

proof fn lemma_decide_step_inv(s: SlotModel, n: SlotModel, a: Seq<char>)
    requires
        s.inv(),
        s.decide_step(n, a),
    ensures
        n.inv(),
{
    assert(n.acceptors.dom() =~= n.nodes);
    assert forall|x: Seq<char>| #[trigger] s.nodes.contains(x) implies s.acceptors[x].promised.le(
        n.acceptors[x].promised,
    ) by {
        lemma_proposal_le(s.acceptors[x].promised, s.acceptors[x].promised, s.acceptors[x].promised);
    }
    assert forall|c: ProposalIDView| #[trigger] n.proposals.contains_key(c) implies n.safe_at(
        c,
        n.proposals[c],
    ) by {
        assert forall|d: ProposalIDView, w: OperationView|
            d.lt(c) && w != n.proposals[c] implies #[trigger] n.none_choosable(d, w) by {
            assert(s.none_choosable(d, w));
            lemma_none_choosable_kept(s, n, d, w);
        }
    }
}

/// With promises for `b` from a majority `q`, a member `x` of `q` that no
/// report of `q` shows voting at `c` (below `b`) is a witness against `w`
/// being chosen at `c`, in any majority that contains it.
proof fn lemma_quorum_witness(
    s: SlotModel,
    b: ProposalIDView,
    v: OperationView,
    q: Set<Seq<char>>,
    reports: Map<Seq<char>, Report>,
    c: ProposalIDView,
    w: OperationView,
    r: Set<Seq<char>>,
)
    requires
        s.inv(),
        s.is_quorum(q),
        s.is_quorum(r),
        forall|a: Seq<char>|
            #[trigger] q.contains(a) ==> reports.contains_key(a) && s.promises.contains(
                (a, b, reports[a]),
            ),
        c.lt(b),
        w != v,
        (forall|a: Seq<char>| #[trigger] q.contains(a) ==> reports[a] is None) || exists|
            a0: Seq<char>,
        |
            #[trigger] q.contains(a0) && highest_report(q, reports, a0, v) && !c.lt(
            (reports[a0]->0).0,
        ),
    ensures
        exists|x: Seq<char>|
            r.contains(x) && !s.votes.contains((x, c, w)) && c.lt(
                #[trigger] s.acceptors[x].promised,
            ),
{
    lemma_majorities_intersect(s.nodes, q, r);
    let x = choose|x: Seq<char>| q.contains(x) && r.contains(x);
    assert(q.contains(x));
    assert(s.promises.contains((x, b, reports[x])));
    lemma_proposal_le(c, b, s.acceptors[x].promised);
    if s.votes.contains((x, c, w)) {
        match reports[x] {
            None => {},
            Some((lx, wx)) => {
                assert(c.le(lx));
                if !(forall|a: Seq<char>| #[trigger] q.contains(a) ==> reports[a] is None) {
                    let a0 = choose|a0: Seq<char>|
                        #[trigger] q.contains(a0) && highest_report(q, reports, a0, v) && !c.lt(
                            (reports[a0]->0).0,
                        );
                    let l = (reports[a0]->0).0;
                    assert(reported_at_most(reports[x], l));
                    lemma_proposal_le(c, lx, l);
                    lemma_proposal_order(c, l, c);
                    assert(s.promises.contains((a0, b, reports[a0])));
                    assert(s.votes.contains((a0, l, v)));
                    assert(c == l);
                }
            },
        }
    }
}

/// A proposal made by the proposing rule is safe.
proof fn lemma_new_proposal_safe(
    s: SlotModel,
    b: ProposalIDView,
    v: OperationView,
    q: Set<Seq<char>>,
    reports: Map<Seq<char>, Report>,
)
    requires
        s.inv(),
        s.is_quorum(q),
        forall|a: Seq<char>|
            #[trigger] q.contains(a) ==> reports.contains_key(a) && s.promises.contains(
                (a, b, reports[a]),
            ),
        (forall|a: Seq<char>| #[trigger] q.contains(a) ==> reports[a] is None) || exists|
            a0: Seq<char>,
        | #[trigger] q.contains(a0) && highest_report(q, reports, a0, v),
    ensures
        s.safe_at(b, v),
{
    assert forall|c: ProposalIDView, w: OperationView|
        c.lt(b) && w != v implies #[trigger] s.none_choosable(c, w) by {
        if !(forall|a: Seq<char>| #[trigger] q.contains(a) ==> reports[a] is None) {
            let a0 = choose|a0: Seq<char>| #[trigger] q.contains(a0) && highest_report(q, reports, a0, v);
            let l = (reports[a0]->0).0;
            assert(s.promises.contains((a0, b, reports[a0])));
            assert(s.votes.contains((a0, l, v)));
            assert(s.proposals.contains_key(l) && s.proposals[l] == v);
            lemma_proposal_order(c, l, b);
            if c.lt(l) {
                assert(s.safe_at(l, v));
            } else {
                assert forall|r: Set<Seq<char>>| #[trigger] s.is_quorum(r) implies exists|x: Seq<char>|
                    r.contains(x) && !s.votes.contains((x, c, w)) && c.lt(
                        #[trigger] s.acceptors[x].promised,
                    ) by {
                    lemma_quorum_witness(s, b, v, q, reports, c, w, r);
                }
            }
        } else {
            assert forall|r: Set<Seq<char>>| #[trigger] s.is_quorum(r) implies exists|x: Seq<char>|
                r.contains(x) && !s.votes.contains((x, c, w)) && c.lt(
                    #[trigger] s.acceptors[x].promised,
                ) by {
                lemma_quorum_witness(s, b, v, q, reports, c, w, r);
            }
        }
    }
}

proof fn lemma_propose_step_inv(
    s: SlotModel,
    n: SlotModel,
    b: ProposalIDView,
    v: OperationView,
    q: Set<Seq<char>>,
    reports: Map<Seq<char>, Report>,
)
    requires
        s.inv(),
        s.propose_step(n, b, v, q, reports),
    ensures
        n.inv(),
{
    assert forall|x: Seq<char>| #[trigger] s.nodes.contains(x) implies s.acceptors[x].promised.le(
        n.acceptors[x].promised,
    ) by {
        lemma_proposal_le(s.acceptors[x].promised, s.acceptors[x].promised, s.acceptors[x].promised);
    }
    lemma_new_proposal_safe(s, b, v, q, reports);
    assert forall|c: ProposalIDView| #[trigger] n.proposals.contains_key(c) implies n.safe_at(
        c,
        n.proposals[c],
    ) by {
        assert forall|d: ProposalIDView, w: OperationView|
            d.lt(c) && w != n.proposals[c] implies #[trigger] n.none_choosable(d, w) by {
            if c == b {
                assert(s.safe_at(b, v));
            }
            assert(s.none_choosable(d, w));
            lemma_none_choosable_kept(s, n, d, w);
        }
    }
}

proof fn lemma_next_inv(s: SlotModel, n: SlotModel)
    requires
        s.inv(),
        s.next(n),
    ensures
        n.inv(),
{
    if exists|a: Seq<char>, b: ProposalIDView| #[trigger] s.promise_step(n, a, b) {
        let (a, b) = choose|a: Seq<char>, b: ProposalIDView| #[trigger] s.promise_step(n, a, b);
        lemma_promise_step_inv(s, n, a, b);
    } else if exists|
        b: ProposalIDView,
        v: OperationView,
        q: Set<Seq<char>>,
        r: Map<Seq<char>, Report>,
    | #[trigger] s.propose_step(n, b, v, q, r) {
        let (b, v, q, r) = choose|
            b: ProposalIDView,
            v: OperationView,
            q: Set<Seq<char>>,
            r: Map<Seq<char>, Report>,
        | #[trigger] s.propose_step(n, b, v, q, r);
        lemma_propose_step_inv(s, n, b, v, q, r);
    } else if exists|a: Seq<char>, b: ProposalIDView| #[trigger] s.accept_step(n, a, b) {
        let (a, b) = choose|a: Seq<char>, b: ProposalIDView| #[trigger] s.accept_step(n, a, b);
        lemma_accept_step_inv(s, n, a, b);
    } else if exists|a: Seq<char>| #[trigger] s.decide_step(n, a) {
        let a = choose|a: Seq<char>| #[trigger] s.decide_step(n, a);
        lemma_decide_step_inv(s, n, a);
    }
}

proof fn lemma_run_inv(run: Seq<SlotModel>, i: int)
    requires
        run.len() > 0,
        run[0].init(),
        forall|k: int| 0 <= k < run.len() - 1 ==> #[trigger] run[k].next(run[k + 1]),
        0 <= i < run.len(),
    ensures
        run[i].inv(),
    decreases i,
{
    if i == 0 {
        lemma_init_inv(run[0]);
    } else {
        let k = i - 1;
        lemma_run_inv(run, k);
        assert(run[k].next(run[k + 1]));
        assert(k + 1 == i);
        lemma_next_inv(run[k], run[i]);
    }
}

/// A majority is not empty.
proof fn lemma_quorum_member(s: SlotModel, q: Set<Seq<char>>)
    requires
        s.nodes.finite(),
        s.is_quorum(q),
    ensures
        exists|a: Seq<char>| q.contains(a),
{
    vstd::set_lib::lemma_len_subset(q, s.nodes);
    if !exists|a: Seq<char>| q.contains(a) {
        assert(q =~= Set::empty());
    }
}

proof fn lemma_chosen_is_proposed(s: SlotModel, b: ProposalIDView, v: OperationView)
    requires
        s.inv(),
        s.chosen_at(b, v),
    ensures
        s.proposals.contains_key(b) && s.proposals[b] == v,
{
    let q = choose|q: Set<Seq<char>>|
        #[trigger] s.is_quorum(q) && forall|a: Seq<char>|
            q.contains(a) ==> #[trigger] s.votes.contains((a, b, v));
    lemma_quorum_member(s, q);
    let a = choose|a: Seq<char>| q.contains(a);
    assert(s.votes.contains((a, b, v)));
}

proof fn lemma_chosen_below_agrees(
    s: SlotModel,
    b1: ProposalIDView,
    v1: OperationView,
    b2: ProposalIDView,
    v2: OperationView,
)
    requires
        s.inv(),
        s.chosen_at(b1, v1),
        s.chosen_at(b2, v2),
        b1.lt(b2),
    ensures
        v1 == v2,
{
    lemma_chosen_is_proposed(s, b2, v2);
    assert(s.safe_at(b2, v2));
    if v1 != v2 {
        assert(s.none_choosable(b1, v1));
        let q = choose|q: Set<Seq<char>>|
            #[trigger] s.is_quorum(q) && forall|a: Seq<char>|
                q.contains(a) ==> #[trigger] s.votes.contains((a, b1, v1));
        let a = choose|a: Seq<char>|
            q.contains(a) && !s.votes.contains((a, b1, v1)) && promised_above(s, b1, a);
        assert(s.votes.contains((a, b1, v1)));
    }
}

spec fn promised_above(s: SlotModel, c: ProposalIDView, a: Seq<char>) -> bool {
    c.lt(s.acceptors[a].promised)
}

/// Single-slot safety: in any run of the cluster from its initial state —
/// any number of nodes, majorities of n / 2 + 1, acceptors deciding by the
/// rules of `Acceptor`, proposers picking their value by the Paxos rule,
/// and messages lost, duplicated or reordered at will — at most one value
/// is ever chosen for the slot.
pub proof fn lemma_single_slot_safety(
    run: Seq<SlotModel>,
    i: int,
    b1: ProposalIDView,
    v1: OperationView,
    b2: ProposalIDView,
    v2: OperationView,
)
    requires
        run.len() > 0,
        run[0].init(),
        forall|k: int| 0 <= k < run.len() - 1 ==> #[trigger] run[k].next(run[k + 1]),
        0 <= i < run.len(),
        run[i].chosen_at(b1, v1),
        run[i].chosen_at(b2, v2),
    ensures
        v1 == v2,
{
    lemma_run_inv(run, i);
    let s = run[i];
    lemma_proposal_order(b1, b2, b1);
    if b1 == b2 {
        lemma_chosen_is_proposed(s, b1, v1);
        lemma_chosen_is_proposed(s, b2, v2);
    } else if b1.lt(b2) {
        lemma_chosen_below_agrees(s, b1, v1, b2, v2);
    } else {
        lemma_chosen_below_agrees(s, b2, v2, b1, v1);
    }
}

/// Once `v` is chosen under `b0`, every proposal under an id at or above
/// `b0` carries `v`: so no acceptor, deciding by the rules of `Acceptor`,
/// ever accepts another value there.
pub proof fn lemma_accepts_after_choice_agree(
    run: Seq<SlotModel>,
    i: int,
    b0: ProposalIDView,
    v: OperationView,
    b: ProposalIDView,
)
    requires
        run.len() > 0,
        run[0].init(),
        forall|k: int| 0 <= k < run.len() - 1 ==> #[trigger] run[k].next(run[k + 1]),
        0 <= i < run.len(),
        run[i].chosen_at(b0, v),
        run[i].proposals.contains_key(b),
        b0.le(b),
    ensures
        run[i].proposals[b] == v,
{
    lemma_run_inv(run, i);
    let s = run[i];
    lemma_chosen_is_proposed(s, b0, v);
    if b0 != b && s.proposals[b] != v {
        let w = s.proposals[b];
        assert(s.safe_at(b, w));
        assert(s.none_choosable(b0, v));
        let q = choose|q: Set<Seq<char>>|
            #[trigger] s.is_quorum(q) && forall|a: Seq<char>|
                q.contains(a) ==> #[trigger] s.votes.contains((a, b0, v));
        let a = choose|a: Seq<char>|
            q.contains(a) && !s.votes.contains((a, b0, v)) && promised_above(s, b0, a);
        assert(s.votes.contains((a, b0, v)));
    }
}

} // verus!

use vstd::prelude::*;
use vstd::string::*;

use crate::locker::{clone_op_option, Operation, OperationView};
use crate::rng::random_u64;

verus! {

/// Identity of a node of the cluster.
pub type NodeID = String;

/// Position of a slot in the replicated log.
pub type InstanceID = usize;

/// Lexicographic order on character sequences, by code point. This is the
/// order of `String`'s `Ord`, since UTF-8 keeps code point order.
pub open spec fn chars_lt(a: Seq<char>, b: Seq<char>) -> bool
    decreases a.len(),
{
    if a.len() == 0 {
        b.len() > 0
    } else if b.len() == 0 {
        false
    } else if a[0] != b[0] {
        (a[0] as u32) < (b[0] as u32)
    } else {
        chars_lt(a.drop_first(), b.drop_first())
    }
}

/// The mathematical value of a `ProposalID`.
pub struct ProposalIDView {
    pub round: u64,
    pub tie_breaker: u64,
    pub proposer: Seq<char>,
}

impl ProposalIDView {
    /// Strict lexicographic order on (round, tie-breaker, proposer).
    pub open spec fn lt(self, o: ProposalIDView) -> bool {
        ||| self.round < o.round
        ||| (self.round == o.round && self.tie_breaker < o.tie_breaker)
        ||| (self.round == o.round && self.tie_breaker == o.tie_breaker && chars_lt(
            self.proposer,
            o.proposer,
        ))
    }

    pub open spec fn le(self, o: ProposalIDView) -> bool {
        self.lt(o) || self == o
    }

    /// Whether this id was ever produced by a proposal round (round 0 is the
    /// "nothing yet" id every role starts from).
    pub open spec fn is_zero(self) -> bool {
        self.round == 0
    }
}

proof fn lemma_chars_lt_irreflexive(a: Seq<char>)
    ensures
        !chars_lt(a, a),
    decreases a.len(),
{
    if a.len() > 0 {
        lemma_chars_lt_irreflexive(a.drop_first());
    }
}

proof fn lemma_chars_lt_transitive(a: Seq<char>, b: Seq<char>, c: Seq<char>)
    requires
        chars_lt(a, b),
        chars_lt(b, c),
    ensures
        chars_lt(a, c),
    decreases a.len(),
{
    if a.len() > 0 && b.len() > 0 && c.len() > 0 && a[0] == b[0] && b[0] == c[0] {
        lemma_chars_lt_transitive(a.drop_first(), b.drop_first(), c.drop_first());
    }
}

proof fn lemma_chars_lt_trichotomy(a: Seq<char>, b: Seq<char>)
    ensures
        a == b || chars_lt(a, b) || chars_lt(b, a),
        !(chars_lt(a, b) && chars_lt(b, a)),
    decreases a.len(),
{
    if a.len() > 0 && b.len() > 0 && a[0] == b[0] {
        lemma_chars_lt_trichotomy(a.drop_first(), b.drop_first());
        if a.drop_first() == b.drop_first() {
            assert(a =~= seq![a[0]] + a.drop_first());
            assert(b =~= seq![b[0]] + b.drop_first());
        }
    } else if a.len() == 0 && b.len() == 0 {
        assert(a =~= b);
    } else if a.len() > 0 && b.len() > 0 {
        vstd::utf8::char_u32_cast(a[0], a[0] as u32);
        vstd::utf8::char_u32_cast(b[0], b[0] as u32);
    }
}

/// Proposal ids are strictly and totally ordered: no id precedes itself,
/// precedence is transitive, any two ids are equal (in all three components)
/// or one precedes the other but not both, and a lower round always comes
/// first whatever the tie-breakers and proposers.
pub proof fn lemma_proposal_order(a: ProposalIDView, b: ProposalIDView, c: ProposalIDView)
    ensures
        !a.lt(a),
        a.lt(b) && b.lt(c) ==> a.lt(c),
        a == b || a.lt(b) || b.lt(a),
        !(a.lt(b) && b.lt(a)),
        a == b <==> (a.round == b.round && a.tie_breaker == b.tie_breaker && a.proposer
            == b.proposer),
        a.round < b.round ==> a.lt(b),
{
    lemma_chars_lt_irreflexive(a.proposer);
    lemma_chars_lt_trichotomy(a.proposer, b.proposer);
    if a.lt(b) && b.lt(c) && a.round == b.round && b.round == c.round && a.tie_breaker
        == b.tie_breaker && b.tie_breaker == c.tie_breaker {
        lemma_chars_lt_transitive(a.proposer, b.proposer, c.proposer);
    }
}

/// `le` is a partial order compatible with `lt`.
pub proof fn lemma_proposal_le(a: ProposalIDView, b: ProposalIDView, c: ProposalIDView)
    ensures
        a.le(a),
        a.le(b) && b.le(c) ==> a.le(c),
        a.le(b) && b.lt(c) ==> a.lt(c),
        a.lt(b) && b.le(c) ==> a.lt(c),
        a.le(b) && b.le(a) ==> a == b,
        a.le(b) || b.lt(a),
        !(a.le(b) && b.lt(a)),
{
    lemma_proposal_order(a, b, c);
    lemma_proposal_order(b, a, c);
}

/// Compares two strings by the order of `chars_lt`.
fn str_lt(a: &String, b: &String) -> (r: bool)
    ensures
        r == chars_lt(a@, b@),
{
    let sa = a.as_str();
    let sb = b.as_str();
    let la = sa.unicode_len();
    let lb = sb.unicode_len();
    let mut i: usize = 0;
    assert(a@.skip(0) =~= a@);
    assert(b@.skip(0) =~= b@);
    while i < la && i < lb
        invariant
            la == a@.len(),
            lb == b@.len(),
            sa@ == a@,
            sb@ == b@,
            i <= la,
            i <= lb,
            chars_lt(a@, b@) == chars_lt(a@.skip(i as int), b@.skip(i as int)),
        decreases la - i,
    {
        let ca = sa.get_char(i);
        let cb = sb.get_char(i);
        if ca != cb {
            return (ca as u32) < (cb as u32);
        }
        assert(a@.skip(i as int).drop_first() =~= a@.skip(i + 1));
        assert(b@.skip(i as int).drop_first() =~= b@.skip(i + 1));
        i = i + 1;
    }
    assert(a@.skip(i as int).len() == la - i);
    assert(b@.skip(i as int).len() == lb - i);
    i == la && i < lb
}

/// A totally ordered identifier of one proposal attempt:
/// (round, random tie-breaker, proposer identity).
#[derive(Debug)]
pub struct ProposalID(u64, u64, NodeID);

impl View for ProposalID {
    type V = ProposalIDView;

    closed spec fn view(&self) -> ProposalIDView {
        ProposalIDView { round: self.0, tie_breaker: self.1, proposer: self.2@ }
    }
}

impl ProposalID {
    /// A fresh id for `round`, with a random tie-breaker.
    pub fn new(round: u64, proposer_id: NodeID) -> (r: ProposalID)
        ensures
            r@.round == round,
            r@.proposer == proposer_id@,
    {
        let tie_breaker = random_u64();
        ProposalID::from_parts(round, tie_breaker, proposer_id)
    }

    /// The id with the given components.
    pub fn from_parts(round: u64, tie_breaker: u64, proposer_id: NodeID) -> (r: ProposalID)
        ensures
            r@ == (ProposalIDView { round, tie_breaker, proposer: proposer_id@ }),
    {
        ProposalID(round, tie_breaker, proposer_id)
    }

    pub fn round(&self) -> (r: u64)
        ensures
            r == self@.round,
    {
        self.0
    }

    pub fn tie_breaker(&self) -> (r: u64)
        ensures
            r == self@.tie_breaker,
    {
        self.1
    }

    pub fn proposer_id(&self) -> (r: NodeID)
        ensures
            r@ == self@.proposer,
    {
        self.2.clone()
    }

    /// Whether `self` comes strictly before `other`.
    pub fn precedes(&self, other: &ProposalID) -> (r: bool)
        ensures
            r == self@.lt(other@),
    {
        if self.0 != other.0 {
            self.0 < other.0
        } else if self.1 != other.1 {
            self.1 < other.1
        } else {
            str_lt(&self.2, &other.2)
        }
    }

    /// Whether the two ids are equal in all three components.
    pub fn same_as(&self, other: &ProposalID) -> (r: bool)
        ensures
            r == (self@ == other@),
    {
        self.0 == other.0 && self.1 == other.1 && self.2 == other.2
    }

    /// Whether `self` comes at or after `other`.
    pub fn at_least(&self, other: &ProposalID) -> (r: bool)
        ensures
            r == other@.le(self@),
    {
        other.precedes(self) || self.same_as(other)
    }
}

impl Clone for ProposalID {
    fn clone(&self) -> (r: Self)
        ensures
            r == *self,
    {
        ProposalID(self.0, self.1, self.2.clone())
    }
}

impl PartialEq for ProposalID {
    fn eq(&self, other: &ProposalID) -> (r: bool) {
        self.same_as(other)
    }
}

impl vstd::std_specs::cmp::PartialEqSpecImpl for ProposalID {
    open spec fn obeys_eq_spec() -> bool {
        true
    }

    open spec fn eq_spec(&self, other: &ProposalID) -> bool {
        self@ == other@
    }
}

/// The errors the protocol reports to its driver: each is a broken
/// invariant or a request the node cannot serve, never an ordinary stale or
/// duplicate message.
#[derive(Debug, PartialEq, Eq, Structural)]
pub enum PaxosError {
    /// A proposer reached a quorum of promises without a value to propose.
    ValueNotSet,
    /// A timeout fired for a reply message, which is never awaited.
    InvalidTimeoutWait,
    /// A message named a slot that this node has not allocated.
    InstanceNotExists(InstanceID),
    /// An outbound message named a node that is not a peer.
    UnknownPeer,
    /// A learner was asked for a Learn request before any id was chosen.
    NoConsensusYet,
}

/// The view of an optional operation.
pub open spec fn opt_op_view(o: Option<Operation>) -> Option<OperationView> {
    match o {
        Some(v) => Some(v@),
        None => None,
    }
}

/// Phase one request: a proposer asks the acceptors to promise `proposal_id`.
#[derive(Debug)]
pub struct PrepareMessage {
    pub proposer_id: NodeID,
    pub proposal_id: ProposalID,
}

/// Phase one reply: an acceptor promises `proposal_id`, and reports what it
/// accepted last.
#[derive(Debug)]
pub struct PromiseMessage {
    pub acceptor_id: NodeID,
    pub proposal_id: ProposalID,
    pub last_accepted_proposal_id: ProposalID,
    pub last_accepted_value: Option<Operation>,
}

/// Phase two request: a proposer asks the acceptors to accept `value` under
/// `proposal_id`.
#[derive(Debug)]
pub struct ProposeMessage {
    pub proposer_id: NodeID,
    pub proposal_id: ProposalID,
    pub value: Operation,
}

/// Phase two reply: an acceptor accepted `proposal_id`.
#[derive(Debug)]
pub struct AcceptedMessage {
    pub acceptor_id: NodeID,
    pub proposal_id: ProposalID,
}

/// A learner asks the others for the chosen value.
#[derive(Debug)]
pub struct LearnMessage {
    pub learner_id: NodeID,
}

/// A learner that knows the chosen value hands it out.
#[derive(Debug)]
pub struct ValueMessage {
    pub learner_id: NodeID,
    pub chosen_proposal_id: ProposalID,
    pub chosen_value: Operation,
}

/// The six messages of the protocol for one slot.
#[derive(Debug)]
pub enum PaxosInstanceMessage {
    Prepare(PrepareMessage),
    Promise(PromiseMessage),
    Propose(ProposeMessage),
    Accepted(AcceptedMessage),
    Learn(LearnMessage),
    Value(ValueMessage),
}

/// A protocol message addressed to one slot.
#[derive(Debug)]
pub struct PaxosMessage {
    pub instance_id: InstanceID,
    pub message: PaxosInstanceMessage,
}

/// The mathematical value of a `PaxosInstanceMessage`.
pub enum MessageView {
    Prepare { proposer: Seq<char>, id: ProposalIDView },
    Promise {
        acceptor: Seq<char>,
        id: ProposalIDView,
        last_accepted: ProposalIDView,
        value: Option<OperationView>,
    },
    Propose { proposer: Seq<char>, id: ProposalIDView, value: OperationView },
    Accepted { acceptor: Seq<char>, id: ProposalIDView },
    Learn { learner: Seq<char> },
    Value { learner: Seq<char>, id: ProposalIDView, value: OperationView },
}

impl View for PaxosInstanceMessage {
    type V = MessageView;

    open spec fn view(&self) -> MessageView {
        match self {
            PaxosInstanceMessage::Prepare(m) => MessageView::Prepare {
                proposer: m.proposer_id@,
                id: m.proposal_id@,
            },
            PaxosInstanceMessage::Promise(m) => MessageView::Promise {
                acceptor: m.acceptor_id@,
                id: m.proposal_id@,
                last_accepted: m.last_accepted_proposal_id@,
                value: opt_op_view(m.last_accepted_value),
            },
            PaxosInstanceMessage::Propose(m) => MessageView::Propose {
                proposer: m.proposer_id@,
                id: m.proposal_id@,
                value: m.value@,
            },
            PaxosInstanceMessage::Accepted(m) => MessageView::Accepted {
                acceptor: m.acceptor_id@,
                id: m.proposal_id@,
            },
            PaxosInstanceMessage::Learn(m) => MessageView::Learn { learner: m.learner_id@ },
            PaxosInstanceMessage::Value(m) => MessageView::Value {
                learner: m.learner_id@,
                id: m.chosen_proposal_id@,
                value: m.chosen_value@,
            },
        }
    }
}

fn same_op_option(a: &Option<Operation>, b: &Option<Operation>) -> (r: bool)
    ensures
        r == (opt_op_view(*a) == opt_op_view(*b)),
{
    match (a, b) {
        (Some(x), Some(y)) => x.same_as(y),
        (None, None) => true,
        _ => false,
    }
}

impl PaxosInstanceMessage {
    /// Whether the two messages are equal in every field.
    pub fn same_as(&self, other: &PaxosInstanceMessage) -> (r: bool)
        ensures
            r == (self@ == other@),
    {
        match (self, other) {
            (PaxosInstanceMessage::Prepare(a), PaxosInstanceMessage::Prepare(b)) => {
                a.proposer_id == b.proposer_id && a.proposal_id.same_as(&b.proposal_id)
            },
            (PaxosInstanceMessage::Promise(a), PaxosInstanceMessage::Promise(b)) => {
                a.acceptor_id == b.acceptor_id && a.proposal_id.same_as(&b.proposal_id)
                    && a.last_accepted_proposal_id.same_as(&b.last_accepted_proposal_id)
                    && same_op_option(&a.last_accepted_value, &b.last_accepted_value)
            },
            (PaxosInstanceMessage::Propose(a), PaxosInstanceMessage::Propose(b)) => {
                a.proposer_id == b.proposer_id && a.proposal_id.same_as(&b.proposal_id)
                    && a.value.same_as(&b.value)
            },
            (PaxosInstanceMessage::Accepted(a), PaxosInstanceMessage::Accepted(b)) => {
                a.acceptor_id == b.acceptor_id && a.proposal_id.same_as(&b.proposal_id)
            },
            (PaxosInstanceMessage::Learn(a), PaxosInstanceMessage::Learn(b)) => {
                a.learner_id == b.learner_id
            },
            (PaxosInstanceMessage::Value(a), PaxosInstanceMessage::Value(b)) => {
                a.learner_id == b.learner_id && a.chosen_proposal_id.same_as(
                    &b.chosen_proposal_id,
                ) && a.chosen_value.same_as(&b.chosen_value)
            },
            _ => false,
        }
    }
}

impl Clone for PaxosInstanceMessage {
    fn clone(&self) -> (r: Self)
        ensures
            r == *self,
    {
        match self {
            PaxosInstanceMessage::Prepare(m) => PaxosInstanceMessage::Prepare(
                PrepareMessage {
                    proposer_id: m.proposer_id.clone(),
                    proposal_id: m.proposal_id.clone(),
                },
            ),
            PaxosInstanceMessage::Promise(m) => PaxosInstanceMessage::Promise(
                PromiseMessage {
                    acceptor_id: m.acceptor_id.clone(),
                    proposal_id: m.proposal_id.clone(),
                    last_accepted_proposal_id: m.last_accepted_proposal_id.clone(),
                    last_accepted_value: clone_op_option(&m.last_accepted_value),
                },
            ),
            PaxosInstanceMessage::Propose(m) => PaxosInstanceMessage::Propose(
                ProposeMessage {
                    proposer_id: m.proposer_id.clone(),
                    proposal_id: m.proposal_id.clone(),
                    value: m.value.clone(),
                },
            ),
            PaxosInstanceMessage::Accepted(m) => PaxosInstanceMessage::Accepted(
                AcceptedMessage {
                    acceptor_id: m.acceptor_id.clone(),
                    proposal_id: m.proposal_id.clone(),
                },
            ),
            PaxosInstanceMessage::Learn(m) => PaxosInstanceMessage::Learn(
                LearnMessage { learner_id: m.learner_id.clone() },
            ),
            PaxosInstanceMessage::Value(m) => PaxosInstanceMessage::Value(
                ValueMessage {
                    learner_id: m.learner_id.clone(),
                    chosen_proposal_id: m.chosen_proposal_id.clone(),
                    chosen_value: m.chosen_value.clone(),
                },
            ),
        }
    }
}

impl PartialEq for PaxosInstanceMessage {
    fn eq(&self, other: &PaxosInstanceMessage) -> (r: bool) {
        self.same_as(other)
    }
}

impl vstd::std_specs::cmp::PartialEqSpecImpl for PaxosInstanceMessage {
    open spec fn obeys_eq_spec() -> bool {
        true
    }

    open spec fn eq_spec(&self, other: &PaxosInstanceMessage) -> bool {
        self@ == other@
    }
}

impl Clone for PaxosMessage {
    fn clone(&self) -> (r: Self)
        ensures
            r == *self,
    {
        PaxosMessage { instance_id: self.instance_id, message: self.message.clone() }
    }
}

} // verus!

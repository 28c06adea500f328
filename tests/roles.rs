use std::collections::VecDeque;

use paxos550::{
    AcceptedMessage, Acceptor, LearnMessage, Learner, Locker, MessageInfo, MessagePayload,
    MessageTarget, Operation, PaxosError, PaxosInstance, PaxosInstanceMessage, PaxosMessage,
    PrepareMessage, PromiseMessage, ProposalID, ProposeMessage, Proposer, Server, ValueMessage,
};

fn s(x: &str) -> String {
    String::from(x)
}

fn pid(round: u64, tie: u64, node: &str) -> ProposalID {
    ProposalID::from_parts(round, tie, s(node))
}

fn lock(key: &str, who: &str) -> Operation {
    Operation::Lock(s(key), s(who))
}

fn drain(inst: &mut PaxosInstance) -> Vec<MessageInfo> {
    let mut q = VecDeque::new();
    inst.collect_messages_to_send(&mut q);
    q.into_iter().collect()
}

fn paxos_message(info: &MessageInfo) -> &PaxosInstanceMessage {
    match &info.payload {
        MessagePayload::PaxosMessage(m) => &m.message,
        other => panic!("not a protocol message: {:?}", other),
    }
}

#[test]
fn proposal_ids_order_by_round_tie_breaker_then_node() {
    let a = pid(1, 900, "z");
    let b = pid(2, 1, "a");
    assert!(a.precedes(&b));
    assert!(!b.precedes(&a));
    assert!(pid(3, 1, "b").precedes(&pid(3, 2, "a")));
    assert!(pid(3, 2, "a").precedes(&pid(3, 2, "b")));
    assert!(pid(3, 2, "ab").precedes(&pid(3, 2, "b")));
    assert!(pid(3, 2, "a").precedes(&pid(3, 2, "ab")));
    assert!(!pid(3, 2, "a").precedes(&pid(3, 2, "a")));
    assert!(pid(3, 2, "a") == pid(3, 2, "a"));
    assert!(pid(3, 2, "a") != pid(3, 2, "b"));
    assert!(pid(3, 2, "a") != pid(3, 3, "a"));
    assert!(pid(4, 2, "a").at_least(&pid(3, 9, "z")));
    assert!(pid(3, 2, "a").at_least(&pid(3, 2, "a")));
}

#[test]
fn proposal_id_new_keeps_round_and_node() {
    let p = ProposalID::new(7, s("n2"));
    assert_eq!(p.round(), 7);
    assert_eq!(p.proposer_id(), "n2");
    let q = ProposalID::from_parts(7, 12, s("n2"));
    assert_eq!(q.tie_breaker(), 12);
}

#[test]
fn acceptor_promises_only_upward() {
    let mut a = Acceptor::new(1, s("n1"));
    let high = PrepareMessage { proposer_id: s("n2"), proposal_id: pid(5, 0, "n2") };
    let promise = a.receive_prepare(&high).unwrap();
    assert_eq!(promise.acceptor_id, "n1");
    assert!(promise.proposal_id == pid(5, 0, "n2"));
    assert_eq!(promise.last_accepted_value, None);
    let low = PrepareMessage { proposer_id: s("n3"), proposal_id: pid(4, 99, "n3") };
    assert!(a.receive_prepare(&low).is_none());
    // a propose below the promise is refused, one at it is accepted
    let stale = ProposeMessage { proposer_id: s("n3"), proposal_id: pid(4, 99, "n3"), value: lock("A", "x") };
    assert!(a.receive_propose(&stale).is_none());
    assert_eq!(a.value(), None);
    let ok = ProposeMessage { proposer_id: s("n2"), proposal_id: pid(5, 0, "n2"), value: lock("A", "y") };
    let acc = a.receive_propose(&ok).unwrap();
    assert!(acc.proposal_id == pid(5, 0, "n2"));
    assert_eq!(a.value(), Some(lock("A", "y")));
    assert!(a.highest_accepted_proposal_id() == pid(5, 0, "n2"));
    // the next promise reports what was accepted
    let higher = PrepareMessage { proposer_id: s("n3"), proposal_id: pid(6, 0, "n3") };
    let p2 = a.receive_prepare(&higher).unwrap();
    assert!(p2.last_accepted_proposal_id == pid(5, 0, "n2"));
    assert_eq!(p2.last_accepted_value, Some(lock("A", "y")));
}

#[test]
fn acceptor_keeps_decided_value() {
    let mut a = Acceptor::new(1, s("n1"));
    let first = ProposeMessage { proposer_id: s("n2"), proposal_id: pid(1, 0, "n2"), value: lock("A", "y") };
    assert!(a.receive_propose(&first).is_some());
    a.set_reached_consensus();
    let other = ProposeMessage { proposer_id: s("n3"), proposal_id: pid(2, 0, "n3"), value: lock("B", "z") };
    assert!(a.receive_propose(&other).is_none());
    let same = ProposeMessage { proposer_id: s("n3"), proposal_id: pid(3, 0, "n3"), value: lock("A", "y") };
    assert!(a.receive_propose(&same).is_some());
}

fn promise(from: &str, id: &ProposalID, last: ProposalID, value: Option<Operation>) -> PromiseMessage {
    PromiseMessage {
        acceptor_id: s(from),
        proposal_id: id.clone(),
        last_accepted_proposal_id: last,
        last_accepted_value: value,
    }
}

#[test]
fn proposer_proposes_after_majority_of_distinct_promises() {
    let mut p = Proposer::new(1, s("n1"), 3);
    p.set_value(lock("A", "mine"));
    let prep = p.prepare();
    assert_eq!(prep.proposal_id.round(), 1);
    assert_eq!(prep.proposer_id, "n1");
    let id = prep.proposal_id;
    assert!(matches!(p.receive_promise(&promise("n1", &id, pid(0, 0, "n1"), None)), Ok(None)));
    // a duplicate does not count
    assert!(matches!(p.receive_promise(&promise("n1", &id, pid(0, 0, "n1"), None)), Ok(None)));
    // a promise for another round does not count
    assert!(matches!(p.receive_promise(&promise("n2", &pid(9, 0, "n9"), pid(0, 0, "n2"), None)), Ok(None)));
    let m = p.receive_promise(&promise("n2", &id, pid(0, 0, "n2"), None)).unwrap().unwrap();
    assert!(m.proposal_id == id);
    assert_eq!(m.value, lock("A", "mine"));
    // the round seen above makes the next round higher still
    let next = p.prepare();
    assert_eq!(next.proposal_id.round(), 10);
}

#[test]
fn proposer_adopts_highest_accepted_value() {
    let mut p = Proposer::new(1, s("n1"), 3);
    p.set_value(lock("A", "mine"));
    let id = p.prepare().proposal_id;
    assert!(matches!(p.receive_promise(&promise("n2", &id, pid(0, 3, "n2"), Some(lock("B", "old")))), Ok(None)));
    let m = p.receive_promise(&promise("n3", &id, pid(0, 5, "n3"), Some(lock("C", "newer")))).unwrap().unwrap();
    assert_eq!(m.value, lock("C", "newer"));
}

#[test]
fn proposer_without_value_fails_at_quorum() {
    let mut p = Proposer::new(1, s("n1"), 3);
    let id = p.prepare().proposal_id;
    assert!(matches!(p.receive_promise(&promise("n1", &id, pid(0, 0, "n1"), None)), Ok(None)));
    assert!(matches!(p.receive_promise(&promise("n2", &id, pid(0, 0, "n2"), None)), Err(PaxosError::ValueNotSet)));
}

fn accepted(from: &str, id: ProposalID) -> AcceptedMessage {
    AcceptedMessage { acceptor_id: s(from), proposal_id: id }
}

#[test]
fn learner_counts_each_acceptor_once() {
    let mut l = Learner::new(1, s("n1"), 3);
    assert!(matches!(l.learn_value(), Err(PaxosError::NoConsensusYet)));
    assert!(l.receive_accepted(&accepted("n2", pid(1, 0, "n1"))).is_none());
    // duplicate and older ids from the same acceptor are stale
    assert!(l.receive_accepted(&accepted("n2", pid(1, 0, "n1"))).is_none());
    assert!(l.receive_accepted(&accepted("n2", pid(0, 5, "n1"))).is_none());
    let learn = l.receive_accepted(&accepted("n3", pid(1, 0, "n1"))).unwrap();
    assert_eq!(learn.learner_id, "n1");
    assert_eq!(l.learn_value().unwrap().learner_id, "n1");
    // no value is known yet, so a Learn gets no answer
    assert!(l.receive_learn(&LearnMessage { learner_id: s("n2") }).is_none());
}

#[test]
fn learner_keeps_its_first_value() {
    let mut l = Learner::new(1, s("n1"), 3);
    let v1 = ValueMessage { learner_id: s("n2"), chosen_proposal_id: pid(1, 0, "n2"), chosen_value: lock("A", "1") };
    let v2 = ValueMessage { learner_id: s("n3"), chosen_proposal_id: pid(2, 0, "n3"), chosen_value: lock("A", "2") };
    assert_eq!(l.receive_value(&v1), Some(lock("A", "1")));
    assert_eq!(l.receive_value(&v2), None);
    let answer = l.receive_learn(&LearnMessage { learner_id: s("n3") }).unwrap();
    assert_eq!(answer.chosen_value, lock("A", "1"));
    // once chosen, further Accepted messages change nothing
    assert!(l.receive_accepted(&accepted("n2", pid(5, 0, "n1"))).is_none());
    assert!(l.receive_accepted(&accepted("n3", pid(5, 0, "n1"))).is_none());
}

#[test]
fn prepare_timeout_retries_once_with_backoff() {
    let mut inst = PaxosInstance::new(s("n1"), 1, 3, 1000);
    inst.start_proposing(lock("A", "c"));
    let out = drain(&mut inst);
    assert_eq!(out.len(), 1);
    assert_eq!(out[0].timeout, Some(1000));
    assert!(matches!(out[0].target, MessageTarget::Broadcast));
    let prepare = paxos_message(&out[0]).clone();
    let first_round = match &prepare {
        PaxosInstanceMessage::Prepare(p) => p.proposal_id.round(),
        _ => panic!("expected a Prepare"),
    };
    assert_eq!(inst.on_timeout(prepare.clone(), 1000), Ok(()));
    let retry = drain(&mut inst);
    assert_eq!(retry.len(), 1);
    let t = retry[0].timeout.unwrap();
    assert!(1000 <= t && t < 2000);
    match paxos_message(&retry[0]) {
        PaxosInstanceMessage::Prepare(p) => assert!(p.proposal_id.round() > first_round),
        other => panic!("expected a Prepare, got {:?}", other),
    }
    // the old Prepare is no longer awaited: its timer again is a no-op
    assert_eq!(inst.on_timeout(prepare, 1000), Ok(()));
    assert!(drain(&mut inst).is_empty());
}

#[test]
fn answered_prepare_timer_is_noop() {
    let mut inst = PaxosInstance::new(s("n1"), 1, 3, 1000);
    inst.start_proposing(lock("A", "c"));
    let out = drain(&mut inst);
    let prepare = paxos_message(&out[0]).clone();
    let id = match &prepare {
        PaxosInstanceMessage::Prepare(p) => p.proposal_id.clone(),
        _ => panic!("expected a Prepare"),
    };
    for from in ["n1", "n2"] {
        let m = PaxosInstanceMessage::Promise(promise(from, &id, pid(0, 0, from), None));
        assert_eq!(inst.receive_message(&m), Ok(None));
    }
    let propose = drain(&mut inst);
    assert_eq!(propose.len(), 1);
    assert!(matches!(paxos_message(&propose[0]), PaxosInstanceMessage::Propose(_)));
    assert_eq!(inst.on_timeout(prepare, 1000), Ok(()));
    assert!(drain(&mut inst).is_empty());
}

#[test]
fn learn_timeout_resends_learn() {
    let mut inst = PaxosInstance::new(s("n1"), 1, 3, 1000);
    // two acceptors accept a proposal this node's acceptor never saw
    let id = pid(1, 0, "n2");
    for from in ["n2", "n3"] {
        let m = PaxosInstanceMessage::Accepted(accepted(from, id.clone()));
        assert_eq!(inst.receive_message(&m), Ok(None));
    }
    let out = drain(&mut inst);
    assert_eq!(out.len(), 1);
    let learn = paxos_message(&out[0]).clone();
    assert!(matches!(learn, PaxosInstanceMessage::Learn(_)));
    assert_eq!(inst.on_timeout(learn.clone(), 1000), Ok(()));
    let again = drain(&mut inst);
    assert_eq!(again.len(), 1);
    assert!(*paxos_message(&again[0]) == learn);
    // a Value answers it: the value is learned once and Learn is no longer awaited
    let value = PaxosInstanceMessage::Value(ValueMessage {
        learner_id: s("n2"),
        chosen_proposal_id: id.clone(),
        chosen_value: lock("A", "c"),
    });
    assert_eq!(inst.receive_message(&value), Ok(Some(lock("A", "c"))));
    assert_eq!(inst.receive_message(&value), Ok(None));
    assert_eq!(inst.value(), Some(&lock("A", "c")));
    assert_eq!(inst.on_timeout(learn, 2000), Ok(()));
    assert!(drain(&mut inst).is_empty());
}

#[test]
fn reply_timeout_is_a_noop_when_not_awaited() {
    let mut inst = PaxosInstance::new(s("n1"), 1, 3, 1000);
    let m = PaxosInstanceMessage::Accepted(accepted("n2", pid(1, 0, "n2")));
    assert_eq!(inst.on_timeout(m, 1000), Ok(()));
    assert!(drain(&mut inst).is_empty());
}

#[test]
fn locker_replays_deterministically() {
    let ops = vec![
        lock("A", "1"),
        lock("A", "2"),
        Operation::Unlock(s("A"), s("2")),
        lock("B", "2"),
        Operation::Unlock(s("A"), s("1")),
        lock("A", "2"),
    ];
    let mut a = Locker::new();
    let mut b = Locker::new();
    for op in &ops {
        a.append_log(op);
    }
    for op in &ops {
        b.append_log(op);
    }
    let flags: Vec<bool> = a.log().iter().map(|e| e.valid()).collect();
    assert_eq!(flags, vec![true, false, false, true, true, true]);
    assert_eq!(a.log(), b.log());
    let mut la = a.locks().clone();
    let mut lb = b.locks().clone();
    la.sort();
    lb.sort();
    assert_eq!(la, lb);
    assert_eq!(la, vec![(s("A"), s("2")), (s("B"), s("2"))]);
}

#[test]
fn later_slot_waits_for_earlier_one() {
    let names = vec![s("n1"), s("n2"), s("n3")];
    let mut srv = Server::new(s("n1"), names);
    srv.receive_message(MessagePayload::LockerMessage(lock("A", "1"))).unwrap();
    srv.receive_message(MessagePayload::LockerMessage(lock("B", "2"))).unwrap();
    assert_eq!(srv.total_instances(), 2);
    let value = |slot: usize, op: Operation| {
        MessagePayload::PaxosMessage(PaxosMessage {
            instance_id: slot,
            message: PaxosInstanceMessage::Value(ValueMessage {
                learner_id: s("n2"),
                chosen_proposal_id: pid(1, 0, "n1"),
                chosen_value: op,
            }),
        })
    };
    srv.receive_message(value(2, lock("B", "2"))).unwrap();
    assert!(srv.locker().log().is_empty());
    srv.receive_message(value(1, lock("A", "1"))).unwrap();
    let log = srv.locker().log();
    assert_eq!(log.len(), 2);
    assert_eq!(*log[0].op(), lock("A", "1"));
    assert_eq!(*log[1].op(), lock("B", "2"));
}

#[test]
fn gap_slots_are_filled_as_decided() {
    let names = vec![s("n1"), s("n2"), s("n3")];
    let mut srv = Server::new(s("n2"), names);
    let prepare = MessagePayload::PaxosMessage(PaxosMessage {
        instance_id: 3,
        message: PaxosInstanceMessage::Prepare(PrepareMessage {
            proposer_id: s("n1"),
            proposal_id: pid(1, 0, "n1"),
        }),
    });
    srv.receive_message(prepare).unwrap();
    assert_eq!(srv.total_instances(), 3);
    assert!(srv.instance(1).unwrap().is_noop());
    assert!(srv.instance(2).unwrap().is_noop());
    assert!(!srv.instance(3).unwrap().is_noop());
    assert_eq!(srv.pending_messages(), 1);
}

#[test]
fn quorum_on_another_round_asks_the_others() {
    let mut inst = PaxosInstance::new(s("n1"), 1, 3, 1000);
    // n1's acceptor accepts round 1 alone
    let p1 = pid(1, 0, "n1");
    let propose = PaxosInstanceMessage::Propose(ProposeMessage {
        proposer_id: s("n1"),
        proposal_id: p1.clone(),
        value: lock("A", "v1"),
    });
    assert_eq!(inst.receive_message(&propose), Ok(None));
    drain(&mut inst);
    // n2 and n3 accept round 2 of n3, with another value
    let p2 = pid(2, 0, "n3");
    for from in ["n2", "n3"] {
        let m = PaxosInstanceMessage::Accepted(accepted(from, p2.clone()));
        assert_eq!(inst.receive_message(&m), Ok(None));
    }
    // n1 must not take its own round-1 value: it asks for the chosen one
    assert_eq!(inst.value(), None);
    let out = drain(&mut inst);
    assert_eq!(out.len(), 1);
    assert!(matches!(paxos_message(&out[0]), PaxosInstanceMessage::Learn(_)));
    let value = PaxosInstanceMessage::Value(ValueMessage {
        learner_id: s("n2"),
        chosen_proposal_id: p2,
        chosen_value: lock("A", "v2"),
    });
    assert_eq!(inst.receive_message(&value), Ok(Some(lock("A", "v2"))));
    assert_eq!(inst.value(), Some(&lock("A", "v2")));
}

#[test]
fn quorum_on_own_round_takes_the_shortcut() {
    let mut inst = PaxosInstance::new(s("n1"), 1, 3, 1000);
    let p = pid(3, 0, "n2");
    let propose = PaxosInstanceMessage::Propose(ProposeMessage {
        proposer_id: s("n2"),
        proposal_id: p.clone(),
        value: lock("A", "v"),
    });
    inst.receive_message(&propose).unwrap();
    drain(&mut inst);
    let m = PaxosInstanceMessage::Accepted(accepted("n1", p.clone()));
    assert_eq!(inst.receive_message(&m), Ok(None));
    let m = PaxosInstanceMessage::Accepted(accepted("n2", p));
    assert_eq!(inst.receive_message(&m), Ok(Some(lock("A", "v"))));
    assert!(drain(&mut inst).is_empty());
}

#[test]
fn later_value_message_does_not_replace_the_value() {
    let mut inst = PaxosInstance::new(s("n1"), 1, 3, 1000);
    let v1 = PaxosInstanceMessage::Value(ValueMessage {
        learner_id: s("n2"),
        chosen_proposal_id: pid(1, 0, "n2"),
        chosen_value: lock("A", "c1"),
    });
    let v2 = PaxosInstanceMessage::Value(ValueMessage {
        learner_id: s("n3"),
        chosen_proposal_id: pid(2, 0, "n3"),
        chosen_value: Operation::Unlock(s("A"), s("c1")),
    });
    assert_eq!(inst.receive_message(&v1), Ok(Some(lock("A", "c1"))));
    assert_eq!(inst.receive_message(&v2), Ok(None));
    assert_eq!(inst.value(), Some(&lock("A", "c1")));
}

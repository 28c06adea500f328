use paxos550::{
    LogEntry, MessageInfo, MessagePayload, MessageTarget, Operation, PaxosError, Reply,
    SendAction, Server,
};

fn names() -> Vec<String> {
    vec![String::from("n1"), String::from("n2"), String::from("n3")]
}

fn cluster() -> Vec<Server> {
    names().into_iter().map(|n| Server::new(n, names())).collect()
}

fn index_of(name: &str) -> usize {
    names().iter().position(|n| n == name).unwrap()
}

/// Drains every node's queue, delivering each transmitted message to its
/// target at once, until no node has anything left to send. Timers are
/// never fired. Returns the number of deliveries between nodes.
fn run(servers: &mut Vec<Server>) -> usize {
    let mut deliveries = 0;
    loop {
        let mut progressed = false;
        for i in 0..servers.len() {
            loop {
                match servers[i].send_step() {
                    Ok(SendAction::Idle) => break,
                    Ok(SendAction::Continue) | Ok(SendAction::Schedule(..)) => {
                        progressed = true;
                    }
                    Ok(SendAction::Transmit(to, payload)) => {
                        progressed = true;
                        deliveries += 1;
                        let j = index_of(&to);
                        servers[j].receive_message(payload).unwrap();
                    }
                    Err(e) => panic!("send failed: {:?}", e),
                }
            }
        }
        if !progressed {
            return deliveries;
        }
    }
}

fn lock(key: &str, who: &str) -> Operation {
    Operation::Lock(String::from(key), String::from(who))
}

fn locks_of(server: &Server) -> Vec<(String, String)> {
    let mut v = server.locker().locks().clone();
    v.sort();
    v
}

fn log_of(server: &Server) -> Vec<LogEntry> {
    server.locker().log().clone()
}

#[test]
fn scenario_a_lock_is_committed_everywhere() {
    let mut servers = cluster();
    let r = servers[0].receive_message(MessagePayload::LockerMessage(lock("A", "client1")));
    assert!(matches!(r, Ok(Reply::Nothing)));
    assert_eq!(servers[0].total_instances(), 1);
    run(&mut servers);
    let expected = vec![(String::from("A"), String::from("client1"))];
    for s in &servers {
        let log = log_of(s);
        assert_eq!(log.len(), 1);
        assert_eq!(*log[0].op(), lock("A", "client1"));
        assert!(log[0].valid());
        assert_eq!(locks_of(s), expected);
    }
    // n1's own acceptor held the value, so it learned without a Learn
    // round: its slot never waited for Value replies.
    assert!(servers[0].instance(1).unwrap().value().is_some());
}

#[test]
fn scenario_b_second_lock_is_agreed_but_invalid() {
    let mut servers = cluster();
    servers[0].receive_message(MessagePayload::LockerMessage(lock("A", "client1"))).unwrap();
    run(&mut servers);
    servers[1].receive_message(MessagePayload::LockerMessage(lock("A", "client2"))).unwrap();
    run(&mut servers);
    let expected = vec![(String::from("A"), String::from("client1"))];
    for s in &servers {
        let log = log_of(s);
        assert_eq!(log.len(), 2);
        assert_eq!(*log[1].op(), lock("A", "client2"));
        assert!(!log[1].valid());
        assert_eq!(locks_of(s), expected);
    }
}

#[test]
fn liveness_all_learners_hold_the_value() {
    let mut servers = cluster();
    servers[0].receive_message(MessagePayload::LockerMessage(lock("K", "c"))).unwrap();
    let deliveries = run(&mut servers);
    assert!(deliveries > 0 && deliveries < 100);
    for s in &servers {
        let inst = s.instance(1).unwrap();
        assert_eq!(inst.value(), Some(&lock("K", "c")));
    }
}

#[test]
fn unlock_by_holder_then_relock() {
    let mut servers = cluster();
    servers[0].receive_message(MessagePayload::LockerMessage(lock("A", "c1"))).unwrap();
    run(&mut servers);
    let unlock = Operation::Unlock(String::from("A"), String::from("c1"));
    servers[2].receive_message(MessagePayload::LockerMessage(unlock)).unwrap();
    run(&mut servers);
    servers[1].receive_message(MessagePayload::LockerMessage(lock("A", "c2"))).unwrap();
    run(&mut servers);
    for s in &servers {
        let log = log_of(s);
        assert_eq!(log.len(), 3);
        assert!(log.iter().all(|e| e.valid()));
        assert_eq!(locks_of(s), vec![(String::from("A"), String::from("c2"))]);
    }
}

#[test]
fn debug_queries_answer_directly() {
    let mut servers = cluster();
    servers[0].receive_message(MessagePayload::LockerMessage(lock("A", "c1"))).unwrap();
    run(&mut servers);
    match servers[0].receive_message(MessagePayload::PrintTotalInstances) {
        Ok(Reply::TotalInstances(n)) => assert_eq!(n, 1),
        other => panic!("unexpected {:?}", other),
    }
    match servers[0].receive_message(MessagePayload::PrintLog) {
        Ok(Reply::Log(l)) => assert_eq!(l.len(), 1),
        other => panic!("unexpected {:?}", other),
    }
    match servers[0].receive_message(MessagePayload::PrintLocks) {
        Ok(Reply::Locks(l)) => assert_eq!(l, vec![(String::from("A"), String::from("c1"))]),
        other => panic!("unexpected {:?}", other),
    }
    assert_eq!(servers[0].pending_messages(), 0);
}

#[test]
fn broadcast_fans_out_to_every_peer() {
    let mut s = Server::new(String::from("n1"), names());
    s.receive_message(MessagePayload::LockerMessage(lock("A", "c1"))).unwrap();
    assert_eq!(s.pending_messages(), 1);
    match s.send_step() {
        Ok(SendAction::Schedule(m, t)) => {
            assert_eq!(m.instance_id, 1);
            assert_eq!(t, 1000);
        }
        other => panic!("unexpected {:?}", other),
    }
    assert_eq!(s.pending_messages(), 3);
    // the copy for n1 is delivered here: n1's acceptor promises to itself
    assert!(matches!(s.send_step(), Ok(SendAction::Continue)));
    let mut targets = Vec::new();
    while let Ok(a) = s.send_step() {
        match a {
            SendAction::Idle => break,
            SendAction::Transmit(to, _) => targets.push(to),
            _ => {}
        }
    }
    targets.sort();
    assert_eq!(targets, vec![String::from("n2"), String::from("n3")]);
}

#[test]
fn unknown_peer_is_an_error() {
    let mut s = Server::new(String::from("n1"), names());
    s.requeue(MessageInfo {
        payload: MessagePayload::PrintLog,
        target: MessageTarget::Node(String::from("stranger")),
        timeout: None,
    });
    assert!(matches!(s.send_step(), Err(PaxosError::UnknownPeer)));
    assert!(matches!(s.send_step(), Ok(SendAction::Idle)));
}

#[test]
fn timeout_for_missing_slot_is_an_error() {
    let mut s = Server::new(String::from("n1"), names());
    let msg = paxos550::PaxosMessage {
        instance_id: 5,
        message: paxos550::PaxosInstanceMessage::Learn(paxos550::LearnMessage {
            learner_id: String::from("n1"),
        }),
    };
    assert_eq!(s.on_timeout(msg, 1000), Err(PaxosError::InstanceNotExists(5)));
}

#[test]
fn self_is_added_to_peers() {
    let s = Server::new(String::from("n4"), names());
    assert_eq!(s.node_id(), "n4");
    assert_eq!(s.total_instances(), 0);
    assert!(s.instance(0).unwrap().is_noop());
}

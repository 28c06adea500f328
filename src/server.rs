use std::collections::VecDeque;
use vstd::prelude::*;

use crate::acceptor::AcceptorView;
use crate::common::{InstanceID, NodeID, PaxosError, PaxosMessage};
use crate::instance::{in_backoff_range, outcome_view, InstanceView, PaxosInstance};
use crate::locker::{lists_table, LogEntry, Locker, LockerView, OperationView};
use crate::message::{
    infos_view, InfoView, MessageInfo, MessagePayload, MessageTarget, PayloadView, TargetView,
};

verus! {

/// Base round-trip timeout of a slot, in milliseconds.
pub const DEFAULT_TIMEOUT: u64 = 1000;

/// Whether a slot's outcome is known here: a value, or decided as empty.
pub open spec fn resolved(s: InstanceView) -> bool {
    s.value is Some || s.noop
}

/// The first slot at or after `from` whose outcome is not known (or the end
/// of the table).
pub open spec fn ready_end(slots: Seq<InstanceView>, from: int) -> int
    decreases slots.len() - from,
{
    if 0 <= from < slots.len() && resolved(slots[from]) {
        ready_end(slots, from + 1)
    } else {
        from
    }
}

/// The values of slots `from` to `to` (exclusive), in slot order, leaving
/// out the slots decided as empty.
pub open spec fn slot_ops(slots: Seq<InstanceView>, from: int, to: int) -> Seq<OperationView>
    decreases to - from,
{
    if to <= from {
        Seq::empty()
    } else {
        let prev = slot_ops(slots, from, to - 1);
        match slots[to - 1].value {
            Some(v) => prev.push(v),
            None => prev,
        }
    }
}

/// One copy of `p` for each peer, in peer order, without timeout.
pub open spec fn fan_out(p: PayloadView, peers: Seq<Seq<char>>) -> Seq<InfoView> {
    peers.map_values(|n: Seq<char>| InfoView { payload: p, target: TargetView::Node(n), timeout: None })
}

pub struct ServerView {
    pub node_id: Seq<char>,
    /// Every node of the cluster, this one included.
    pub peers: Seq<Seq<char>>,
    /// Outbound messages, front first.
    pub queue: Seq<InfoView>,
    /// The slot table; slot 0 is a decided placeholder.
    pub slots: Seq<InstanceView>,
    pub locker: LockerView,
    /// The next slot whose value goes to the locker.
    pub next_apply: int,
}

impl ServerView {
    pub open spec fn cluster_size(self) -> nat {
        self.peers.len()
    }

    /// Applies, in slot order, every slot from `next_apply` on whose outcome
    /// is known, stopping at the first that is not.
    pub open spec fn applied(self) -> ServerView {
        let end = ready_end(self.slots, self.next_apply);
        ServerView {
            next_apply: end,
            locker: self.locker.run(slot_ops(self.slots, self.next_apply, end)),
            ..self
        }
    }

    /// `next` is this state after slot `t` handled `m`: the table grows to
    /// reach `t` (slots between the old end and `t` as placeholders, `t`
    /// itself as a new slot), the slot's messages join the queue, and the
    /// committed slots are applied when the slot just learned its value.
    /// `err` is the slot's error, if any.
    pub open spec fn delivered(
        self,
        next: ServerView,
        t: InstanceID,
        m: crate::common::MessageView,
        err: Option<PaxosError>,
    ) -> bool {
        let len = self.slots.len();
        let n = self.cluster_size();
        exists|pre: InstanceView|
            {
                &&& (t < len ==> pre == self.slots[t as int])
                &&& (t >= len ==> pre.is_fresh(self.node_id, t, n, DEFAULT_TIMEOUT))
                &&& {
                    let (st, out) = #[trigger] pre.receive(m);
                    let mid = ServerView {
                        slots: next.slots,
                        queue: self.queue + st.outbox,
                        ..self
                    };
                    &&& next.slots.len() == if t < len {
                        len as int
                    } else {
                        t + 1
                    }
                    &&& forall|i: int| 0 <= i < len && i != t ==> next.slots[i] == self.slots[i]
                    &&& forall|i: int|
                        len <= i < t ==> (#[trigger] next.slots[i]).is_placeholder(
                            self.node_id,
                            i as usize,
                            n,
                            DEFAULT_TIMEOUT,
                        )
                    &&& next.slots[t as int] == InstanceView { outbox: Seq::empty(), ..st }
                    &&& next == if out matches Ok(Some(_)) {
                        mid.applied()
                    } else {
                        mid
                    }
                    &&& err == match out {
                        Err(e) => Some(e),
                        Ok(_) => None,
                    }
                }
            }
    }

    /// `next` is this state after a client asked for `op`: a new slot at the
    /// end of the table starts proposing it.
    pub open spec fn proposed(self, next: ServerView, op: OperationView) -> bool {
        let len = self.slots.len();
        exists|pre: InstanceView, st: InstanceView|
            {
                &&& pre.is_fresh(self.node_id, len as usize, self.cluster_size(), DEFAULT_TIMEOUT)
                &&& #[trigger] pre.with_value(op).prepared(st, DEFAULT_TIMEOUT)
                &&& next == ServerView {
                    slots: self.slots.push(InstanceView { outbox: Seq::empty(), ..st }),
                    queue: self.queue + st.outbox,
                    ..self
                }
            }
    }

    /// `next` and `err` are what handling payload `p` may give.
    pub open spec fn received(self, next: ServerView, p: PayloadView, err: Option<PaxosError>) -> bool {
        match p {
            PayloadView::Paxos { instance_id, message } => self.delivered(
                next,
                instance_id,
                message,
                err,
            ),
            PayloadView::Locker(op) => self.proposed(next, op) && err is None,
            _ => next == self && err is None,
        }
    }
}

/// What a debug query is answered with.
#[derive(Debug)]
pub enum Reply {
    Nothing,
    Log(Vec<LogEntry>),
    Locks(Vec<(String, NodeID)>),
    TotalInstances(usize),
}

/// What the driver must do after one step of draining the queue.
#[derive(Debug)]
pub enum SendAction {
    /// The queue is empty.
    Idle,
    /// The step was handled here (a broadcast fanned out, or a message
    /// delivered to this node).
    Continue,
    /// A broadcast fanned out; call `on_timeout` with this message and
    /// timeout (in milliseconds) once it has passed.
    Schedule(PaxosMessage, u64),
    /// Encode and send the payload to the named peer.
    Transmit(NodeID, MessagePayload),
}

/// One node: the slot table, the outbound queue, and the lock table fed
/// with the committed slots in order.
pub struct Server {
    node_id: NodeID,
    peers: Vec<NodeID>,
    messages_to_send: VecDeque<MessageInfo>,
    paxos: Vec<PaxosInstance>,
    locker: Locker,
    next_log_to_apply: usize,
}

pub open spec fn slot_views(v: Seq<PaxosInstance>) -> Seq<InstanceView> {
    v.map_values(|p: PaxosInstance| p@)
}

pub open spec fn name_views(v: Seq<NodeID>) -> Seq<Seq<char>> {
    v.map_values(|s: NodeID| s@)
}

impl View for Server {
    type V = ServerView;

    closed spec fn view(&self) -> ServerView {
        ServerView {
            node_id: self.node_id@,
            peers: name_views(self.peers@),
            queue: infos_view(self.messages_to_send@),
            slots: slot_views(self.paxos@),
            locker: self.locker@,
            next_apply: self.next_log_to_apply as int,
        }
    }
}

impl Server {
    /// Every slot is well formed, sits at its own index, belongs to this
    /// node and has handed its messages on; slot 0 exists; the next slot to
    /// apply lies within the table.
    pub closed spec fn wf(&self) -> bool {
        &&& self.paxos@.len() >= 1
        &&& 1 <= self.next_log_to_apply <= self.paxos@.len()
        &&& forall|i: int|
            0 <= i < self.paxos@.len() ==> {
                &&& (#[trigger] self.paxos@[i]).wf()
                &&& self.paxos@[i]@.instance_id == i
                &&& self.paxos@[i]@.node_id == self.node_id@
                &&& self.paxos@[i]@.outbox.len() == 0
            }
        &&& self.locker.wf()
        &&& self@.peers.contains(self.node_id@)
    }

    /// A node named `node_id` in a cluster of `peers` (this node is added
    /// if missing).
    pub fn new(node_id: NodeID, peers: Vec<NodeID>) -> (r: Server)
        ensures
            r.wf(),
            r@.node_id == node_id@,
            name_views(peers@).contains(node_id@) ==> r@.peers == name_views(peers@),
            !name_views(peers@).contains(node_id@) ==> r@.peers == name_views(peers@).push(
                node_id@,
            ),
            r@.queue.len() == 0,
            r@.slots.len() == 1,
            r@.slots[0].is_placeholder(node_id@, 0, r@.cluster_size(), 0),
            r@.locker.locks.is_empty(),
            r@.locker.log.len() == 0,
            r@.next_apply == 1,
    {
        let mut peers = peers;
        let mut i: usize = 0;
        let mut found = false;
        while i < peers.len()
            invariant
                i <= peers@.len(),
                found == exists|j: int| 0 <= j < i && peers@[j]@ == node_id@,
            decreases peers@.len() - i,
        {
            if peers[i] == node_id {
                found = true;
            }
            i = i + 1;
        }
        let ghost given = peers@;
        proof {
            if found {
                let j = choose|j: int| 0 <= j < i && peers@[j]@ == node_id@;
                assert(name_views(given)[j] == node_id@);
            } else {
                assert forall|j: int| 0 <= j < given.len() implies name_views(given)[j] != node_id@ by {
                    assert(given[j]@ != node_id@);
                }
            }
        }
        if !found {
            peers.push(node_id.clone());
            assert(name_views(peers@) =~= name_views(given).push(node_id@));
            assert(name_views(peers@)[given.len() as int] == node_id@);
        }
        let mut sentinel = PaxosInstance::new(node_id.clone(), 0, peers.len(), 0);
        sentinel.learn_final_consensus();
        let mut paxos: Vec<PaxosInstance> = Vec::new();
        paxos.push(sentinel);
        let r = Server {
            node_id,
            peers,
            messages_to_send: VecDeque::new(),
            paxos,
            locker: Locker::new(),
            next_log_to_apply: 1,
        };
        assert(r@.queue =~= Seq::empty());
        r
    }

    pub fn node_id(&self) -> (r: &NodeID)
        ensures
            r@ == self@.node_id,
    {
        &self.node_id
    }

    pub fn locker(&self) -> (r: &Locker)
        requires
            self.wf(),
        ensures
            r@ == self@.locker,
            r.wf(),
    {
        &self.locker
    }

    /// Slot `i` of the table.
    pub fn instance(&self, i: usize) -> (r: Option<&PaxosInstance>)
        ensures
            i < self@.slots.len() ==> (r matches Some(p) && p@ == self@.slots[i as int]),
            i >= self@.slots.len() ==> r is None,
    {
        if i < self.paxos.len() {
            Some(&self.paxos[i])
        } else {
            None
        }
    }

    /// Number of slots allocated for real data (slot 0 aside).
    pub fn total_instances(&self) -> (r: usize)
        requires
            self.wf(),
        ensures
            r == self@.slots.len() - 1,
    {
        self.paxos.len() - 1
    }

    /// Number of messages waiting in the outbound queue.
    pub fn pending_messages(&self) -> (r: usize)
        ensures
            r == self@.queue.len(),
    {
        self.messages_to_send.len()
    }

    /// Applies the committed slots from `next_log_to_apply` on, in order,
    /// up to the first slot whose outcome is not known yet.
    fn apply_committed(&mut self)
        requires
            old(self).wf(),
        ensures
            final(self).wf(),
            final(self)@ == old(self)@.applied(),
    {
        let ghost slots = self@.slots;
        let ghost from = self@.next_apply;
        let ghost l0 = self@.locker;
        while self.next_log_to_apply < self.paxos.len() && (self.paxos[self.next_log_to_apply].value().is_some()
            || self.paxos[self.next_log_to_apply].is_noop())
            invariant
                self.wf(),
                slots == self@.slots,
                from <= self.next_log_to_apply,
                self@.locker == l0.run(slot_ops(slots, from, self.next_log_to_apply as int)),
                ready_end(slots, from) == ready_end(slots, self.next_log_to_apply as int),
                self@.node_id == old(self)@.node_id,
                self@.peers == old(self)@.peers,
                self@.queue == old(self)@.queue,
            decreases self.paxos@.len() - self.next_log_to_apply,
        {
            let i = self.next_log_to_apply;
            let ghost ops = slot_ops(slots, from, i as int);
            assert(slots[i as int] == self.paxos@[i as int]@);
            match self.paxos[i].value() {
                Some(v) => {
                    self.locker.append_log(v);
                    assert(ops.push(v@).drop_last() =~= ops);
                },
                None => {},
            }
            self.next_log_to_apply = i + 1;
        }
        assert(slots[self.next_log_to_apply as int] == self.paxos@[self.next_log_to_apply as int]@
            || self.next_log_to_apply == self.paxos@.len());
    }

    /// Handles one inbound payload. A protocol message goes to its slot
    /// (growing the table as needed); a client operation starts a new slot;
    /// a debug query is answered with the data it asks for.
    pub fn receive_message(&mut self, payload: MessagePayload) -> (r: Result<Reply, PaxosError>)
        requires
            old(self).wf(),
        ensures
            final(self).wf(),
            old(self)@.received(
                final(self)@,
                payload@,
                match r {
                    Err(e) => Some(e),
                    Ok(_) => None,
                },
            ),
            payload@ is PrintLog ==> (r matches Ok(Reply::Log(l)) && l@.map_values(
                |e: LogEntry| e@,
            ) == old(self)@.locker.log),
            payload@ is PrintLocks ==> (r matches Ok(Reply::Locks(l)) && lists_table(
                l@,
                old(self)@.locker.locks,
            )),
            payload@ is PrintTotalInstances ==> r == Ok::<Reply, PaxosError>(
                Reply::TotalInstances((old(self)@.slots.len() - 1) as usize),
            ),
            (payload@ is Paxos || payload@ is Locker) ==> (r is Err || r == Ok::<
                Reply,
                PaxosError,
            >(Reply::Nothing)),
    {
        match payload {
            MessagePayload::PaxosMessage(msg) => {
                match self.deliver(&msg) {
                    Ok(()) => Ok(Reply::Nothing),
                    Err(e) => Err(e),
                }
            },
            MessagePayload::LockerMessage(op) => {
                self.propose(op);
                Ok(Reply::Nothing)
            },
            MessagePayload::PrintLog => Ok(Reply::Log(self.copy_log())),
            MessagePayload::PrintLocks => Ok(Reply::Locks(self.copy_locks())),
            MessagePayload::PrintTotalInstances => Ok(Reply::TotalInstances(self.paxos.len() - 1)),
        }
    }

    fn copy_log(&self) -> (r: Vec<LogEntry>)
        requires
            self.wf(),
        ensures
            r@.map_values(|e: LogEntry| e@) == self@.locker.log,
    {
        let log = self.locker.log();
        let mut out: Vec<LogEntry> = Vec::new();
        let mut i: usize = 0;
        while i < log.len()
            invariant
                i <= log@.len(),
                out@.len() == i,
                forall|j: int| 0 <= j < i ==> out@[j] == log@[j],
            decreases log@.len() - i,
        {
            out.push(log[i].clone());
            i = i + 1;
        }
        assert(out@ =~= log@);
        out
    }

    fn copy_locks(&self) -> (r: Vec<(String, NodeID)>)
        requires
            self.wf(),
        ensures
            lists_table(r@, self@.locker.locks),
    {
        let locks = self.locker.locks();
        let mut out: Vec<(String, NodeID)> = Vec::new();
        let mut i: usize = 0;
        while i < locks.len()
            invariant
                i <= locks@.len(),
                out@.len() == i,
                forall|j: int| 0 <= j < i ==> out@[j] == locks@[j],
            decreases locks@.len() - i,
        {
            let (k, v) = &locks[i];
            out.push((k.clone(), v.clone()));
            i = i + 1;
        }
        assert(out@ =~= locks@);
        out
    }

    /// Starts a new slot at the end of the table proposing `op`.
    fn propose(&mut self, op: crate::locker::Operation)
        requires
            old(self).wf(),
        ensures
            final(self).wf(),
            old(self)@.proposed(final(self)@, op@),
    {
        let id = self.paxos.len();
        let mut instance = PaxosInstance::new(
            self.node_id.clone(),
            id,
            self.peers.len(),
            DEFAULT_TIMEOUT,
        );
        let ghost pre = instance@;
        instance.start_proposing(op);
        let ghost st = instance@;
        let ghost q = self.messages_to_send@;
        instance.collect_messages_to_send(&mut self.messages_to_send);
        let ghost old_paxos = self.paxos@;
        self.paxos.push(instance);
        proof {
            assert(self@.queue =~= infos_view(q) + st.outbox);
            assert(slot_views(self.paxos@) =~= slot_views(old_paxos).push(
                InstanceView { outbox: Seq::empty(), ..st },
            ));
            assert(pre.with_value(op@).prepared(st, DEFAULT_TIMEOUT));
        }
    }

    /// Delivers a protocol message to its slot, growing the table to reach
    /// it, and applies the committed slots when the slot learns its value.
    fn deliver(&mut self, msg: &PaxosMessage) -> (r: Result<(), PaxosError>)
        requires
            old(self).wf(),
        ensures
            final(self).wf(),
            old(self)@.delivered(
                final(self)@,
                msg.instance_id,
                msg.message@,
                match r {
                    Err(e) => Some(e),
                    Ok(_) => None,
                },
            ),
    {
        let t = msg.instance_id;
        let ghost len = self.paxos@.len();
        let ghost n = self@.cluster_size();
        let ghost old_slots = self@.slots;
        assert(n == self.peers@.len());
        while self.paxos.len() < t
            invariant
                self.wf(),
                n == self.peers@.len(),
                self.peers == old(self).peers,
                self@.node_id == old(self)@.node_id,
                self@.peers == old(self)@.peers,
                self@.queue == old(self)@.queue,
                self@.locker == old(self)@.locker,
                self@.next_apply == old(self)@.next_apply,
                len <= self.paxos@.len(),
                len < t ==> self.paxos@.len() <= t,
                len >= t ==> self.paxos@.len() == len,
                forall|i: int| 0 <= i < len ==> self@.slots[i] == old_slots[i],
                forall|i: int|
                    len <= i < self.paxos@.len() ==> (#[trigger] self@.slots[i]).is_placeholder(
                        self@.node_id,
                        i as usize,
                        n,
                        DEFAULT_TIMEOUT,
                    ),
            decreases t - self.paxos@.len(),
        {
            let id = self.paxos.len();
            let ghost head = self@;
            let mut placeholder = PaxosInstance::new(
                self.node_id.clone(),
                id,
                self.peers.len(),
                DEFAULT_TIMEOUT,
            );
            let ghost fresh = placeholder@;
            placeholder.learn_final_consensus();
            let ghost before = self.paxos@;
            assert((AcceptorView { reached_consensus: false, ..placeholder@.acceptor }) == fresh.acceptor);
            assert((InstanceView {
                noop: false,
                acceptor: AcceptorView { reached_consensus: false, ..placeholder@.acceptor },
                ..placeholder@
            }) == fresh);
            assert((InstanceView {
                noop: false,
                acceptor: AcceptorView { reached_consensus: false, ..placeholder@.acceptor },
                ..placeholder@
            }).is_fresh(self@.node_id, id, n, DEFAULT_TIMEOUT));
            assert(placeholder@.is_placeholder(self@.node_id, id, n, DEFAULT_TIMEOUT));
            self.paxos.push(placeholder);
            assert(self@.slots =~= slot_views(before).push(self.paxos@[id as int]@));
            assert forall|i: int| len <= i < self.paxos@.len() implies (#[trigger] self@.slots[i]).is_placeholder(
                self@.node_id,
                i as usize,
                n,
                DEFAULT_TIMEOUT,
            ) by {
                if i < id {
                    assert(head.slots[i].is_placeholder(head.node_id, i as usize, n, DEFAULT_TIMEOUT));
                    assert(self@.slots[i] == head.slots[i]);
                }
            }
        }
        let ghost after_loop = self@;
        if self.paxos.len() == t {
            let fresh = PaxosInstance::new(
                self.node_id.clone(),
                t,
                self.peers.len(),
                DEFAULT_TIMEOUT,
            );
            let ghost before = self.paxos@;
            self.paxos.push(fresh);
            assert(self@.slots =~= slot_views(before).push(self.paxos@[t as int]@));
        }
        let ghost pre = self@.slots[t as int];
        let ghost grown = self@.slots;
        let out = self.paxos[t].receive_message(&msg.message);
        let ghost st = self.paxos@[t as int]@;
        let ghost q = self.messages_to_send@;
        self.paxos[t].collect_messages_to_send(&mut self.messages_to_send);
        proof {
            assert(self@.queue =~= infos_view(q) + st.outbox);
            assert(self@.slots =~= grown.update(t as int, InstanceView { outbox: Seq::empty(), ..st }));
            assert((st, outcome_view(out)) == pre.receive(msg.message@));
        }
        let ghost mid = self@;
        let r = match out {
            Ok(Some(_)) => {
                self.apply_committed();
                Ok(())
            },
            Ok(None) => Ok(()),
            Err(e) => Err(e),
        };
        proof {
            let o = old(self)@;
            assert(self@.slots == mid.slots);
            assert(mid == (ServerView { slots: self@.slots, queue: o.queue + st.outbox, ..o }));
            let m2 = ServerView { slots: self@.slots, queue: o.queue + st.outbox, ..o };
            assert forall|i: int|
                len <= i < t implies (#[trigger] self@.slots[i]).is_placeholder(
                    o.node_id,
                    i as usize,
                    n,
                    DEFAULT_TIMEOUT,
                ) by {
                assert(after_loop.slots[i].is_placeholder(o.node_id, i as usize, n, DEFAULT_TIMEOUT));
                assert(self@.slots[i] == grown[i]);
                assert(grown[i] == after_loop.slots[i]);
            }
            assert(self@ == if outcome_view(out) matches Ok(Some(_)) {
                m2.applied()
            } else {
                m2
            });
            let (st2, out2) = pre.receive(msg.message@);
            assert(st2 == st && out2 == outcome_view(out));
        }
        r
    }

    /// Puts a message that could not be sent yet back at the end of the
    /// queue.
    pub fn requeue(&mut self, message: MessageInfo)
        requires
            old(self).wf(),
        ensures
            final(self).wf(),
            final(self)@ == (ServerView { queue: old(self)@.queue.push(message@), ..old(self)@ }),
    {
        let ghost q = self.messages_to_send@;
        self.messages_to_send.push_back(message);
        assert(self@.queue =~= infos_view(q).push(message@));
    }

    /// Handles the front of the outbound queue. A broadcast fans out into
    /// one copy per peer (this node included) at the front of the queue and,
    /// if it carries a timeout, asks for one timer; a copy for this node is
    /// delivered here at once; a copy for a peer is handed to the driver.
    pub fn send_step(&mut self) -> (r: Result<SendAction, PaxosError>)
        requires
            old(self).wf(),
        ensures
            final(self).wf(),
            old(self)@.queue.len() == 0 ==> final(self)@ == old(self)@ && r matches Ok(
                SendAction::Idle,
            ),
            old(self)@.queue.len() > 0 ==> {
                let m = old(self)@.queue[0];
                let rest = ServerView { queue: old(self)@.queue.drop_first(), ..old(self)@ };
                match m.target {
                    TargetView::Broadcast => {
                        &&& final(self)@ == ServerView {
                            queue: fan_out(m.payload, old(self)@.peers) + rest.queue,
                            ..rest
                        }
                        &&& (m.timeout is Some && m.payload is Paxos) ==> (r matches Ok(
                            SendAction::Schedule(pm, t),
                        ) && m.payload == (PayloadView::Paxos {
                            instance_id: pm.instance_id,
                            message: pm.message@,
                        }) && Some(t) == m.timeout)
                        &&& !(m.timeout is Some && m.payload is Paxos) ==> r matches Ok(
                            SendAction::Continue,
                        )
                    },
                    TargetView::Node(name) => {
                        if name == old(self)@.node_id {
                            rest.received(
                                final(self)@,
                                m.payload,
                                match r {
                                    Err(e) => Some(e),
                                    Ok(_) => None,
                                },
                            ) && (r is Err || r matches Ok(SendAction::Continue))
                        } else if old(self)@.peers.contains(name) {
                            &&& final(self)@ == rest
                            &&& r matches Ok(SendAction::Transmit(to, p)) && to@ == name && p@
                                == m.payload
                        } else {
                            final(self)@ == rest && r == Err::<SendAction, PaxosError>(
                                PaxosError::UnknownPeer,
                            )
                        }
                    },
                }
            },
    {
        let ghost q = self.messages_to_send@;
        let front = self.messages_to_send.pop_front();
        let message = match front {
            None => {
                return Ok(SendAction::Idle);
            },
            Some(m) => m,
        };
        assert(infos_view(self.messages_to_send@) =~= infos_view(q).drop_first());
        match message.target {
            MessageTarget::Broadcast => {
                let ghost rest = infos_view(self.messages_to_send@);
                let mut i: usize = self.peers.len();
                while i > 0
                    invariant
                        self.wf(),
                        i <= self.peers@.len(),
                        self.peers@ == old(self).peers@,
                        self.node_id == old(self).node_id,
                        self.paxos@ == old(self).paxos@,
                        self.locker == old(self).locker,
                        self.next_log_to_apply == old(self).next_log_to_apply,
                        infos_view(self.messages_to_send@) == fan_out(
                            message.payload@,
                            name_views(self.peers@),
                        ).skip(i as int) + rest,
                    decreases i,
                {
                    i = i - 1;
                    let ghost before = self.messages_to_send@;
                    self.messages_to_send.push_front(
                        MessageInfo {
                            payload: message.payload.clone(),
                            target: MessageTarget::Node(self.peers[i].clone()),
                            timeout: None,
                        },
                    );
                    proof {
                        let f = fan_out(message.payload@, name_views(self.peers@));
                        assert(f.skip(i as int) =~= seq![f[i as int]] + f.skip(i + 1));
                        assert(self.messages_to_send@[0]@ == f[i as int]);
                        assert(infos_view(self.messages_to_send@) =~= seq![f[i as int]]
                            + infos_view(before));
                    }
                }
                assert(fan_out(message.payload@, name_views(self.peers@)).skip(0) =~= fan_out(
                    message.payload@,
                    name_views(self.peers@),
                ));
                match (message.timeout, message.payload) {
                    (Some(t), MessagePayload::PaxosMessage(pm)) => Ok(SendAction::Schedule(pm, t)),
                    _ => Ok(SendAction::Continue),
                }
            },
            MessageTarget::Node(name) => {
                if name == self.node_id {
                    match self.receive_message(message.payload) {
                        Ok(_) => Ok(SendAction::Continue),
                        Err(e) => Err(e),
                    }
                } else if self.is_peer(&name) {
                    Ok(SendAction::Transmit(name, message.payload))
                } else {
                    Err(PaxosError::UnknownPeer)
                }
            },
        }
    }

    fn is_peer(&self, name: &NodeID) -> (r: bool)
        ensures
            r == self@.peers.contains(name@),
    {
        let mut i: usize = 0;
        while i < self.peers.len()
            invariant
                i <= self.peers@.len(),
                forall|j: int| 0 <= j < i ==> self.peers@[j]@ != name@,
            decreases self.peers@.len() - i,
        {
            if self.peers[i] == *name {
                assert(self@.peers[i as int] == name@);
                return true;
            }
            i = i + 1;
        }
        proof {
            if self@.peers.contains(name@) {
                let j = choose|j: int| 0 <= j < self@.peers.len() && self@.peers[j] == name@;
                assert(self.peers@[j]@ == name@);
            }
        }
        false
    }

    /// Handles the timer of `msg` scheduled with `timeout`: the slot backs
    /// off and drives the message again if it is still awaited.
    pub fn on_timeout(&mut self, msg: PaxosMessage, timeout: u64) -> (r: Result<(), PaxosError>)
        requires
            old(self).wf(),
        ensures
            final(self).wf(),
            msg.instance_id >= old(self)@.slots.len() ==> final(self)@ == old(self)@ && r
                == Err::<(), PaxosError>(PaxosError::InstanceNotExists(msg.instance_id)),
            msg.instance_id < old(self)@.slots.len() ==> exists|st: InstanceView, nt: u64|
                {
                    &&& in_backoff_range(timeout, nt)
                    &&& #[trigger] old(self)@.slots[msg.instance_id as int].timed_out(
                        st,
                        msg.message@,
                        nt,
                        r,
                    )
                    &&& final(self)@ == ServerView {
                        slots: old(self)@.slots.update(
                            msg.instance_id as int,
                            InstanceView { outbox: Seq::empty(), ..st },
                        ),
                        queue: old(self)@.queue + st.outbox,
                        ..old(self)@
                    }
                },
    {
        let t = msg.instance_id;
        if t >= self.paxos.len() {
            return Err(PaxosError::InstanceNotExists(t));
        }
        let ghost slots = self@.slots;
        let r = self.paxos[t].on_timeout(msg.message, timeout);
        let ghost st = self.paxos@[t as int]@;
        let ghost q = self.messages_to_send@;
        self.paxos[t].collect_messages_to_send(&mut self.messages_to_send);
        proof {
            assert(self@.queue =~= infos_view(q) + st.outbox);
            assert(self@.slots =~= slots.update(t as int, InstanceView { outbox: Seq::empty(), ..st }));
            let nt = choose|nt: u64|
                in_backoff_range(timeout, nt) && slots[t as int].timed_out(st, msg.message@, nt, r);
            assert(slots[t as int].timed_out(st, msg.message@, nt, r));
        }
        r
    }
}

proof fn lemma_ready_end(slots: Seq<InstanceView>, from: int)
    requires
        0 <= from <= slots.len(),
    ensures
        from <= ready_end(slots, from) <= slots.len(),
        forall|i: int| from <= i < ready_end(slots, from) ==> resolved(#[trigger] slots[i]),
        ready_end(slots, from) < slots.len() ==> !resolved(slots[ready_end(slots, from)]),
    decreases slots.len() - from,
{
    if from < slots.len() && resolved(slots[from]) {
        lemma_ready_end(slots, from + 1);
    }
}

/// Committed slots reach the lock table in slot order, each once: applying
/// moves the pointer over exactly the run of slots whose outcome is known,
/// stops at the first slot whose outcome is not (applying nothing at all if
/// that is the next slot), and feeds the values of that run to the lock
/// table in slot order.
pub proof fn lemma_apply_order(s: ServerView)
    requires
        1 <= s.next_apply <= s.slots.len(),
    ensures
        s.next_apply <= s.applied().next_apply <= s.slots.len(),
        forall|i: int|
            s.next_apply <= i < s.applied().next_apply ==> resolved(#[trigger] s.slots[i]),
        s.applied().next_apply < s.slots.len() ==> !resolved(s.slots[s.applied().next_apply]),
        s.applied().locker == s.locker.run(
            slot_ops(s.slots, s.next_apply, s.applied().next_apply),
        ),
        s.applied().slots == s.slots && s.applied().queue == s.queue,
        s.next_apply < s.slots.len() && !resolved(s.slots[s.next_apply]) ==> s.applied() == s,
{
    lemma_ready_end(s.slots, s.next_apply);
    if s.next_apply < s.slots.len() && !resolved(s.slots[s.next_apply]) {
        assert(slot_ops(s.slots, s.next_apply, s.next_apply) =~= Seq::empty());
        assert(s.locker.run(Seq::empty()) == s.locker);
    }
}

/// A later slot that resolves first waits: with slot 1 unknown and slot 2
/// known, nothing is applied; once slot 1 is known too, both are applied,
/// slot 1 first.
pub proof fn lemma_later_slot_waits(
    s: ServerView,
    v1: OperationView,
    v2: OperationView,
)
    requires
        s.next_apply == 1,
        s.slots.len() == 3,
        s.slots[1].value is None,
        !s.slots[1].noop,
        s.slots[2].value == Some(v2),
    ensures
        s.applied() == s,
        ({
            let t = ServerView {
                slots: s.slots.update(1, InstanceView { value: Some(v1), ..s.slots[1] }),
                ..s
            };
            &&& t.applied().next_apply == 3
            &&& t.applied().locker == s.locker.step(v1).step(v2)
        }),
{
    lemma_apply_order(s);
    let t = ServerView {
        slots: s.slots.update(1, InstanceView { value: Some(v1), ..s.slots[1] }),
        ..s
    };
    assert(resolved(t.slots[1]) && resolved(t.slots[2]));
    assert(ready_end(t.slots, 3) == 3);
    assert(ready_end(t.slots, 2) == 3);
    assert(ready_end(t.slots, 1) == 3);
    let ops = slot_ops(t.slots, 1, 3);
    assert(slot_ops(t.slots, 1, 1) =~= Seq::empty());
    assert(slot_ops(t.slots, 1, 2) =~= seq![v1]);
    assert(ops =~= seq![v1, v2]);
    assert(ops.drop_last() =~= seq![v1]);
    assert(seq![v1].drop_last() =~= Seq::<OperationView>::empty());
    assert(s.locker.run(seq![v1]) == s.locker.run(Seq::empty()).step(v1));
    assert(s.locker.run(ops) == s.locker.run(seq![v1]).step(v2));
    assert(t.applied().locker == s.locker.run(ops));
}

} // verus!

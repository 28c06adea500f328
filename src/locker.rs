use vstd::prelude::*;

use crate::common::NodeID;

verus! {

/// An operation on the lock table: take or release `key` on behalf of a node.
#[derive(Debug)]
pub enum Operation {
    Lock(String, NodeID),
    Unlock(String, NodeID),
}

pub enum OperationView {
    Lock(Seq<char>, Seq<char>),
    Unlock(Seq<char>, Seq<char>),
}

impl View for Operation {
    type V = OperationView;

    open spec fn view(&self) -> OperationView {
        match self {
            Operation::Lock(k, n) => OperationView::Lock(k@, n@),
            Operation::Unlock(k, n) => OperationView::Unlock(k@, n@),
        }
    }
}

impl Operation {
    /// Whether the two operations are the same kind on the same key and node.
    pub fn same_as(&self, other: &Operation) -> (r: bool)
        ensures
            r == (self@ == other@),
    {
        match (self, other) {
            (Operation::Lock(k1, n1), Operation::Lock(k2, n2)) => *k1 == *k2 && *n1 == *n2,
            (Operation::Unlock(k1, n1), Operation::Unlock(k2, n2)) => *k1 == *k2 && *n1 == *n2,
            _ => false,
        }
    }
}

impl Clone for Operation {
    fn clone(&self) -> (r: Self)
        ensures
            r == *self,
    {
        match self {
            Operation::Lock(k, n) => Operation::Lock(k.clone(), n.clone()),
            Operation::Unlock(k, n) => Operation::Unlock(k.clone(), n.clone()),
        }
    }
}

impl PartialEq for Operation {
    fn eq(&self, other: &Operation) -> (r: bool) {
        self.same_as(other)
    }
}

impl vstd::std_specs::cmp::PartialEqSpecImpl for Operation {
    open spec fn obeys_eq_spec() -> bool {
        true
    }

    open spec fn eq_spec(&self, other: &Operation) -> bool {
        self@ == other@
    }
}

/// Clones an optional operation, keeping it equal.
pub fn clone_op_option(o: &Option<Operation>) -> (r: Option<Operation>)
    ensures
        r == *o,
{
    match o {
        Some(v) => Some(v.clone()),
        None => None,
    }
}

/// One applied log position: the operation and whether it took effect.
#[derive(Debug)]
pub struct LogEntry {
    op: Operation,
    valid: bool,
}

pub struct LogEntryView {
    pub op: OperationView,
    pub valid: bool,
}

impl View for LogEntry {
    type V = LogEntryView;

    closed spec fn view(&self) -> LogEntryView {
        LogEntryView { op: self.op@, valid: self.valid }
    }
}

impl LogEntry {
    pub fn new(op: Operation, valid: bool) -> (r: LogEntry)
        ensures
            r@ == (LogEntryView { op: op@, valid }),
    {
        LogEntry { op, valid }
    }

    pub fn op(&self) -> (r: &Operation)
        ensures
            r@ == self@.op,
    {
        &self.op
    }

    pub fn valid(&self) -> (r: bool)
        ensures
            r == self@.valid,
    {
        self.valid
    }
}

impl Clone for LogEntry {
    fn clone(&self) -> (r: Self)
        ensures
            r == *self,
    {
        LogEntry { op: self.op.clone(), valid: self.valid }
    }
}

impl PartialEq for LogEntry {
    fn eq(&self, other: &LogEntry) -> (r: bool) {
        self.op.same_as(&other.op) && self.valid == other.valid
    }
}

impl vstd::std_specs::cmp::PartialEqSpecImpl for LogEntry {
    open spec fn obeys_eq_spec() -> bool {
        true
    }

    open spec fn eq_spec(&self, other: &LogEntry) -> bool {
        self@ == other@
    }
}

/// A lock table: which node holds each key.
pub type LockTable = Map<Seq<char>, Seq<char>>;

/// The effect of one operation on a lock table: the new table, and whether
/// the operation took effect. A lock succeeds only on a free key; an unlock
/// only by the node that holds the key.
pub open spec fn apply_op(locks: LockTable, op: OperationView) -> (LockTable, bool) {
    match op {
        OperationView::Lock(k, who) => if locks.contains_key(k) {
            (locks, false)
        } else {
            (locks.insert(k, who), true)
        },
        OperationView::Unlock(k, who) => if locks.contains_key(k) && locks[k] == who {
            (locks.remove(k), true)
        } else {
            (locks, false)
        },
    }
}

/// Replays a sequence of operations on an empty table: the final table and
/// the validity flag of each operation.
pub open spec fn replay(ops: Seq<OperationView>) -> (LockTable, Seq<bool>)
    decreases ops.len(),
{
    if ops.len() == 0 {
        (Map::empty(), Seq::empty())
    } else {
        let prev = replay(ops.drop_last());
        let step = apply_op(prev.0, ops.last());
        (step.0, prev.1.push(step.1))
    }
}

pub open spec fn log_ops(log: Seq<LogEntryView>) -> Seq<OperationView> {
    log.map_values(|e: LogEntryView| e.op)
}

pub open spec fn log_flags(log: Seq<LogEntryView>) -> Seq<bool> {
    log.map_values(|e: LogEntryView| e.valid)
}

/// `pairs` lists the table `m`: distinct keys, each with its holder, and
/// every key of `m` among them.
pub open spec fn lists_table(pairs: Seq<(String, NodeID)>, m: LockTable) -> bool {
    &&& forall|i: int, j: int|
        0 <= i < pairs.len() && 0 <= j < pairs.len() && i != j ==> #[trigger] pairs[i].0@
            != #[trigger] pairs[j].0@
    &&& forall|i: int|
        0 <= i < pairs.len() ==> #[trigger] m.contains_key(pairs[i].0@) && m[pairs[i].0@]
            == pairs[i].1@
    &&& forall|k: Seq<char>|
        #[trigger] m.contains_key(k) ==> exists|i: int| 0 <= i < pairs.len() && pairs[i].0@ == k
}

pub struct LockerView {
    pub locks: LockTable,
    pub log: Seq<LogEntryView>,
}

impl LockerView {
    /// The state after applying `op`: the table changes as `apply_op` says,
    /// and the log records `op` with whether it took effect.
    pub open spec fn step(self, op: OperationView) -> LockerView {
        LockerView {
            locks: apply_op(self.locks, op).0,
            log: self.log.push(LogEntryView { op, valid: apply_op(self.locks, op).1 }),
        }
    }

    /// The state after applying `ops` in order.
    pub open spec fn run(self, ops: Seq<OperationView>) -> LockerView
        decreases ops.len(),
    {
        if ops.len() == 0 {
            self
        } else {
            self.run(ops.drop_last()).step(ops.last())
        }
    }
}

/// The replicated state machine: a lock table and the log of every operation
/// applied to it, valid or not.
pub struct Locker {
    locks: Vec<(String, NodeID)>,
    table: Ghost<LockTable>,
    log: Vec<LogEntry>,
}

impl View for Locker {
    type V = LockerView;

    closed spec fn view(&self) -> LockerView {
        LockerView { locks: self.table@, log: self.log@.map_values(|e: LogEntry| e@) }
    }
}

impl Locker {
    /// The table lists its keys once each, and it is what replaying the log
    /// on an empty table gives, flags included.
    pub closed spec fn wf(&self) -> bool {
        &&& lists_table(self.locks@, self.table@)
        &&& replay(log_ops(self@.log)).0 == self@.locks
        &&& replay(log_ops(self@.log)).1 == log_flags(self@.log)
    }

    pub fn new() -> (r: Locker)
        ensures
            r.wf(),
            r@.locks == Map::<Seq<char>, Seq<char>>::empty(),
            r@.log == Seq::<LogEntryView>::empty(),
    {
        let r = Locker { locks: Vec::new(), table: Ghost(Map::empty()), log: Vec::new() };
        assert(log_ops(r@.log) =~= Seq::empty());
        assert(log_flags(r@.log) =~= Seq::empty());
        r
    }

    /// Index of `key` in the table, if it is held.
    fn find(&self, key: &String) -> (r: Option<usize>)
        requires
            self.wf(),
        ensures
            match r {
                Some(i) => i < self.locks@.len() && self.locks@[i as int].0@ == key@,
                None => !self@.locks.contains_key(key@),
            },
    {
        let mut i: usize = 0;
        while i < self.locks.len()
            invariant
                self.wf(),
                i <= self.locks@.len(),
                forall|j: int| 0 <= j < i ==> self.locks@[j].0@ != key@,
            decreases self.locks@.len() - i,
        {
            if self.locks[i].0 == *key {
                return Some(i);
            }
            i = i + 1;
        }
        proof {
            if self@.locks.contains_key(key@) {
                let j = choose|j: int| 0 <= j < self.locks@.len() && self.locks@[j].0@ == key@;
                assert(self.locks@[j].0@ != key@);
            }
        }
        None
    }

    /// Applies `op` to the table and appends it to the log with whether it
    /// took effect.
    pub fn append_log(&mut self, op: &Operation)
        requires
            old(self).wf(),
        ensures
            final(self).wf(),
            final(self)@ == old(self)@.step(op@),
    {
        let ghost old_table = self.table@;
        let ghost old_log = self@.log;
        let mut valid = false;
        match op {
            Operation::Lock(key, who) => {
                if self.find(key).is_none() {
                    let ghost pairs = self.locks@;
                    self.locks.push((key.clone(), who.clone()));
                    self.table = Ghost(old_table.insert(key@, who@));
                    valid = true;
                    proof {
                        let np = self.locks@;
                        assert forall|k: Seq<char>| #[trigger] self.table@.contains_key(k) implies exists|
                            i: int,
                        | 0 <= i < np.len() && np[i].0@ == k by {
                            if k == key@ {
                                assert(np[pairs.len() as int].0@ == k);
                            } else {
                                let i = choose|i: int| 0 <= i < pairs.len() && pairs[i].0@ == k;
                                assert(np[i].0@ == k);
                            }
                        }
                        assert(lists_table(np, self.table@));
                    }
                }
            },
            Operation::Unlock(key, who) => {
                match self.find(key) {
                    Some(i) => {
                        proof {
                            assert(old_table.contains_key(self.locks@[i as int].0@));
                        }
                        if self.locks[i].1 == *who {
                            let ghost pairs = self.locks@;
                            self.locks.remove(i);
                            self.table = Ghost(old_table.remove(key@));
                            valid = true;
                            proof {
                                let np = self.locks@;
                                assert forall|j: int| 0 <= j < np.len() implies #[trigger] self.table@.contains_key(
                                    np[j].0@) && self.table@[np[j].0@] == np[j].1@ by {
                                    if j < i {
                                        assert(np[j] == pairs[j]);
                                    } else {
                                        assert(np[j] == pairs[j + 1]);
                                    }
                                }
                                assert forall|k: Seq<char>| #[trigger] self.table@.contains_key(k) implies exists|
                                    j: int,
                                | 0 <= j < np.len() && np[j].0@ == k by {
                                    let j = choose|j: int| 0 <= j < pairs.len() && pairs[j].0@ == k;
                                    if j < i {
                                        assert(np[j].0@ == k);
                                    } else {
                                        assert(np[j - 1].0@ == k);
                                    }
                                }
                                assert forall|a: int, b: int|
                                    0 <= a < np.len() && 0 <= b < np.len() && a != b implies #[trigger] np[a].0@
                                    != #[trigger] np[b].0@ by {
                                    let a0 = if a < i { a } else { a + 1 };
                                    let b0 = if b < i { b } else { b + 1 };
                                    assert(np[a] == pairs[a0]);
                                    assert(np[b] == pairs[b0]);
                                }
                            }
                        }
                    },
                    None => {},
                }
            },
        }
        self.log.push(LogEntry { op: op.clone(), valid });
        proof {
            let nl = self@.log;
            assert(nl =~= old_log.push(LogEntryView { op: op@, valid }));
            assert(log_ops(nl).drop_last() =~= log_ops(old_log));
            assert(log_flags(nl) =~= log_flags(old_log).push(valid));
        }
    }

    /// The log, oldest entry first.
    pub fn log(&self) -> (r: &Vec<LogEntry>)
        ensures
            r@.map_values(|e: LogEntry| e@) == self@.log,
    {
        &self.log
    }

    /// The lock table, as (key, holder) pairs.
    pub fn locks(&self) -> (r: &Vec<(String, NodeID)>)
        requires
            self.wf(),
        ensures
            lists_table(r@, self@.locks),
    {
        &self.locks
    }
}

/// Replaying a sequence of operations on an empty lock table, one step at a
/// time, ends in the table `replay` gives, and logs each operation in order
/// with the flag `replay` gives it.
pub proof fn lemma_run_from_empty(ops: Seq<OperationView>)
    ensures
        ({
            let l = (LockerView { locks: Map::empty(), log: Seq::empty() }).run(ops);
            &&& l.locks == replay(ops).0
            &&& log_ops(l.log) == ops
            &&& log_flags(l.log) == replay(ops).1
        }),
    decreases ops.len(),
{
    let e = LockerView { locks: Map::empty(), log: Seq::empty() };
    if ops.len() == 0 {
        assert(log_ops(e.log) =~= ops);
        assert(log_flags(e.log) =~= Seq::<bool>::empty());
    } else {
        lemma_run_from_empty(ops.drop_last());
        let prev = e.run(ops.drop_last());
        let l = e.run(ops);
        assert(l == prev.step(ops.last()));
        assert(log_ops(l.log) =~= log_ops(prev.log).push(ops.last()));
        assert(ops =~= ops.drop_last().push(ops.last()));
        assert(log_flags(l.log) =~= log_flags(prev.log).push(apply_op(prev.locks, ops.last()).1));
    }
}

/// Determinism of the lock service: two lock tables whose logs hold the same
/// operations in the same order (on any nodes) hold the same locks, and
/// record the same validity flag for every entry.
pub proof fn lemma_locker_deterministic(a: &Locker, b: &Locker)
    requires
        a.wf(),
        b.wf(),
        log_ops(a@.log) == log_ops(b@.log),
    ensures
        a@ == b@,
{
    let fa = log_flags(a@.log);
    let fb = log_flags(b@.log);
    assert(fa == fb);
    assert(a@.log.len() == log_ops(a@.log).len());
    assert(b@.log.len() == log_ops(b@.log).len());
    assert forall|i: int| 0 <= i < a@.log.len() implies a@.log[i] == b@.log[i] by {
        assert(a@.log[i].op == log_ops(a@.log)[i]);
        assert(b@.log[i].op == log_ops(b@.log)[i]);
        assert(a@.log[i].valid == fa[i]);
        assert(b@.log[i].valid == fb[i]);
    }
    assert(a@.log =~= b@.log);
}

} // verus!

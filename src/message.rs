use vstd::prelude::*;

use crate::common::{InstanceID, MessageView, NodeID, PaxosMessage};
use crate::locker::{Operation, OperationView};

verus! {

/// What travels between nodes, and between clients and nodes.
#[derive(Debug)]
pub enum MessagePayload {
    PaxosMessage(PaxosMessage),
    LockerMessage(Operation),
    PrintLog,
    PrintLocks,
    PrintTotalInstances,
}

/// Where an outbound message goes.
#[derive(Debug)]
pub enum MessageTarget {
    Broadcast,
    Node(NodeID),
}

/// An outbound message: its payload, its target, and the timeout (in
/// milliseconds) after which an unanswered message is driven again.
#[derive(Debug)]
pub struct MessageInfo {
    pub payload: MessagePayload,
    pub target: MessageTarget,
    pub timeout: Option<u64>,
}

pub enum PayloadView {
    Paxos { instance_id: InstanceID, message: MessageView },
    Locker(OperationView),
    PrintLog,
    PrintLocks,
    PrintTotalInstances,
}

pub enum TargetView {
    Broadcast,
    Node(Seq<char>),
}

pub struct InfoView {
    pub payload: PayloadView,
    pub target: TargetView,
    pub timeout: Option<u64>,
}

impl View for MessagePayload {
    type V = PayloadView;

    open spec fn view(&self) -> PayloadView {
        match self {
            MessagePayload::PaxosMessage(m) => PayloadView::Paxos {
                instance_id: m.instance_id,
                message: m.message@,
            },
            MessagePayload::LockerMessage(op) => PayloadView::Locker(op@),
            MessagePayload::PrintLog => PayloadView::PrintLog,
            MessagePayload::PrintLocks => PayloadView::PrintLocks,
            MessagePayload::PrintTotalInstances => PayloadView::PrintTotalInstances,
        }
    }
}

impl View for MessageTarget {
    type V = TargetView;

    open spec fn view(&self) -> TargetView {
        match self {
            MessageTarget::Broadcast => TargetView::Broadcast,
            MessageTarget::Node(n) => TargetView::Node(n@),
        }
    }
}

impl View for MessageInfo {
    type V = InfoView;

    open spec fn view(&self) -> InfoView {
        InfoView { payload: self.payload@, target: self.target@, timeout: self.timeout }
    }
}

pub open spec fn infos_view(s: Seq<MessageInfo>) -> Seq<InfoView> {
    s.map_values(|m: MessageInfo| m@)
}

impl Clone for MessagePayload {
    fn clone(&self) -> (r: Self)
        ensures
            r == *self,
    {
        match self {
            MessagePayload::PaxosMessage(m) => MessagePayload::PaxosMessage(m.clone()),
            MessagePayload::LockerMessage(op) => MessagePayload::LockerMessage(op.clone()),
            MessagePayload::PrintLog => MessagePayload::PrintLog,
            MessagePayload::PrintLocks => MessagePayload::PrintLocks,
            MessagePayload::PrintTotalInstances => MessagePayload::PrintTotalInstances,
        }
    }
}

impl Clone for MessageTarget {
    fn clone(&self) -> (r: Self)
        ensures
            r == *self,
    {
        match self {
            MessageTarget::Broadcast => MessageTarget::Broadcast,
            MessageTarget::Node(n) => MessageTarget::Node(n.clone()),
        }
    }
}

impl Clone for MessageInfo {
    fn clone(&self) -> (r: Self)
        ensures
            r == *self,
    {
        MessageInfo {
            payload: self.payload.clone(),
            target: self.target.clone(),
            timeout: self.timeout,
        }
    }
}

} // verus!

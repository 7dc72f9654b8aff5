//! One entry for executing any operation: what each kind does to the node,
//! when it is refused, and what it asks the caller to do.

use crate::constants::Timestamp;
use crate::error::NodeError;
use crate::filesystem::{
    announcement_outcome, data_path, owner_forgotten, owners_announced, owns_any, target_path,
};
use crate::heartbeat::{
    heartbeat_applied, lists_map, member_added, member_removed, snapshot_merged,
};
use crate::ident::{all_valid, id_address, valid_id};
use crate::node::{NodeState, NodeView};
use crate::operation::{
    nothing_to_do, sendable_for_ids, ActionView, DestinationsView, Operation, OperationView,
    Outcome, OutcomeView, Source, SourceView,
};
use vstd::prelude::*;

verus! {

/// Why the node refuses the operation from this source, if it does.
pub open spec fn refusal(op: OperationView, source: SourceView) -> Option<NodeError> {
    match op {
        OperationView::Heartbeat { id } => match source {
            SourceView::TcpStream(_) => Some(NodeError::NotAnAddress),
            SourceView::Addr(addr) => if !valid_id(id) {
                Some(NodeError::MalformedId)
            } else if id_address(id) != addr {
                Some(NodeError::SuspiciousHeartbeat)
            } else {
                None
            },
        },
        OperationView::Join { id, tcp_addr } => match source {
            SourceView::TcpStream(_) => Some(NodeError::NotAnAddress),
            SourceView::Addr(_) => if !valid_id(id) {
                Some(NodeError::MalformedId)
            } else {
                None
            },
        },
        OperationView::Leave { id } => None,
        OperationView::NewMember { id, tcp_addr } => if !valid_id(id) {
            Some(NodeError::MalformedId)
        } else {
            None
        },
        OperationView::MembershipList { members, udp_to_tcp } => if !all_valid(members) {
            Some(NodeError::MalformedId)
        } else {
            None
        },
        OperationView::Get { distributed_filename, local_path } => match source {
            SourceView::Addr(_) => Some(NodeError::NotAStream),
            SourceView::TcpStream(_) => None,
        },
        OperationView::NewFileOwners { distributed_filename, new_owners, from_failure } => if !all_valid(
            new_owners,
        ) {
            Some(NodeError::MalformedId)
        } else {
            None
        },
        OperationView::SendFile { filename, data, is_distributed } => None,
        OperationView::LostFiles { failed_owner, lost_files } => None,
    }
}

/// The view after the node has executed an operation that it did not refuse.
pub open spec fn applied(
    op: OperationView,
    v: NodeView,
    source: SourceView,
    now: Timestamp,
) -> NodeView {
    match op {
        OperationView::Heartbeat { id } => heartbeat_applied(v, id, now),
        OperationView::Join { id, tcp_addr } => member_added(v, id, source->Addr_0, tcp_addr, now),
        OperationView::Leave { id } => member_removed(v, id, now),
        OperationView::NewMember { id, tcp_addr } => member_added(
            v,
            id,
            id_address(id),
            tcp_addr,
            now,
        ),
        OperationView::MembershipList { members, udp_to_tcp } => snapshot_merged(
            v,
            members,
            udp_to_tcp,
            now,
        ),
        OperationView::Get { distributed_filename, local_path } => v,
        OperationView::NewFileOwners { distributed_filename, new_owners, from_failure } => owners_announced(
            v,
            distributed_filename,
            new_owners.to_set(),
        ),
        OperationView::SendFile { filename, data, is_distributed } => v,
        OperationView::LostFiles { failed_owner, lost_files } => owner_forgotten(
            v,
            failed_owner,
            lost_files.to_set(),
        ),
    }
}

/// Whether `outcome` is what executing the operation asks for, on a node
/// that went from `v` to `after`.
pub open spec fn asked_for(
    op: OperationView,
    v: NodeView,
    source: SourceView,
    after: NodeView,
    outcome: OutcomeView,
) -> bool {
    match op {
        OperationView::Heartbeat { id } => outcome == nothing_to_do(),
        OperationView::Join { id, tcp_addr } => {
            &&& outcome.actions.len() == 0
            &&& outcome.operations.len() == 2
            &&& outcome.operations[0] == sendable_for_ids(
                after.membership,
                OperationView::NewMember { id, tcp_addr },
            )
            &&& outcome.operations[1].dests == DestinationsView::UDPAddr(seq![id_address(id)])
            &&& outcome.operations[1].operation is MembershipList
            &&& outcome.operations[1].operation->MembershipList_members == after.membership
            &&& lists_map(
                outcome.operations[1].operation->MembershipList_udp_to_tcp,
                after.udp_to_tcp,
            )
        },
        OperationView::Leave { id } => outcome == if v.membership.contains(id) {
            OutcomeView {
                operations: seq![sendable_for_ids(v.successors, op)],
                actions: Seq::empty(),
            }
        } else {
            nothing_to_do()
        },
        OperationView::NewMember { id, tcp_addr } => outcome == nothing_to_do(),
        OperationView::MembershipList { members, udp_to_tcp } => outcome == nothing_to_do(),
        OperationView::Get { distributed_filename, local_path } => outcome == (OutcomeView {
            operations: Seq::empty(),
            actions: seq![
                ActionView::ReplyWithFile {
                    stream: source->TcpStream_0,
                    path: data_path(distributed_filename),
                    reply_filename: local_path,
                },
            ],
        }),
        OperationView::NewFileOwners { distributed_filename, new_owners, from_failure } => outcome
            == announcement_outcome(
            v,
            op,
            distributed_filename,
            new_owners.to_set(),
            from_failure,
        ),
        OperationView::SendFile { filename, data, is_distributed } => outcome == (OutcomeView {
            operations: Seq::empty(),
            actions: seq![
                ActionView::WriteFile { path: target_path(filename, is_distributed), data },
            ],
        }),
        OperationView::LostFiles { failed_owner, lost_files } => outcome == if owns_any(
            v,
            failed_owner,
            lost_files,
        ) {
            OutcomeView {
                operations: seq![sendable_for_ids(v.successors, op)],
                actions: Seq::empty(),
            }
        } else {
            nothing_to_do()
        },
    }
}

impl Operation {
    /// Executes the operation, whatever its kind, as it came from `source`
    /// at second `now`. A refused operation changes nothing.
    pub fn execute(&self, state: &mut NodeState, source: &Source, now: Timestamp) -> (r: Result<
        Outcome,
        NodeError,
    >)
        requires
            old(state)@.wf(),
        ensures
            final(state)@.wf(),
            match refusal(self@, source@) {
                Some(e) => r == Err::<Outcome, NodeError>(e) && final(state)@ == old(state)@,
                None => r is Ok && final(state)@ == applied(self@, old(state)@, source@, now)
                    && asked_for(self@, old(state)@, source@, final(state)@, r->Ok_0@),
            },
    {
        match self {
            Operation::Heartbeat(op) => op.execute(state, source, now),
            Operation::Join(op) => {
                let r = op.execute(state, source, now);
                proof {
                    if r is Ok {
                        assert(crate::ident::id_addresses(seq![op.id@]) =~= seq![
                            id_address(op.id@),
                        ]);
                    }
                }
                r
            },
            Operation::Leave(op) => op.execute(state, source, now),
            Operation::NewMember(op) => op.execute(state, source, now),
            Operation::MembershipList(op) => op.execute(state, source, now),
            Operation::Get(op) => op.execute(state, source, now),
            Operation::NewFileOwners(op) => op.execute(state, source, now),
            Operation::SendFile(op) => op.execute(state, source, now),
            Operation::LostFiles(op) => op.execute(state, source, now),
        }
    }
}

} // verus!

//! Laws of the protocol: executing a membership or ownership operation a
//! second time changes nothing, and gossip ends.

use crate::constants::Timestamp;
use crate::dispatch::{applied, asked_for, refusal};
use crate::filesystem::known_owners;
use crate::node::{lemma_refreshed, NodeView};
use crate::operation::{nothing_to_do, OperationView, OutcomeView, SourceView};
use crate::ring::{lemma_with_member, lemma_without_member, with_member, without_member};
use vstd::prelude::*;

verus! {

/// The kinds of operation that gossip carries and that may arrive twice:
/// `Join`, `NewMember`, `Leave` and `NewFileOwners`.
pub open spec fn is_repeatable(op: OperationView) -> bool {
    op is Join || op is NewMember || op is Leave || op is NewFileOwners
}

/// Executing the same `Join`, `NewMember`, `Leave` or `NewFileOwners` a
/// second time, at whatever later second, leaves the node as the first
/// execution left it.
pub proof fn lemma_execute_twice(
    op: OperationView,
    v: NodeView,
    source: SourceView,
    now: Timestamp,
    later: Timestamp,
)
    requires
        v.sorted(),
        is_repeatable(op),
        refusal(op, source) is None,
    ensures
        applied(op, applied(op, v, source, now), source, later) == applied(op, v, source, now),
{
    let once = applied(op, v, source, now);
    match op {
        OperationView::Join { id, tcp_addr } => {
            lemma_added_twice(v, id, source->Addr_0, tcp_addr, now, later);
        },
        OperationView::NewMember { id, tcp_addr } => {
            lemma_added_twice(v, id, crate::ident::id_address(id), tcp_addr, now, later);
        },
        OperationView::Leave { id } => {
            if v.membership.contains(id) {
                let cut = NodeView {
                    membership: without_member(v.membership, id),
                    udp_to_tcp: v.udp_to_tcp.remove(crate::ident::id_address(id)),
                    ..v
                };
                lemma_without_member(v.membership, id);
                lemma_refreshed(cut, now);
            }
        },
        OperationView::NewFileOwners { distributed_filename, new_owners, from_failure } => {
            let known = known_owners(v, distributed_filename);
            let added = new_owners.to_set();
            if !added.subset_of(known) {
                assert(known_owners(once, distributed_filename) == known.union(added));
                assert(added.subset_of(known.union(added)));
            }
        },
        _ => {},
    }
}

/// Entering the same member under the same addresses twice is entering it once.
proof fn lemma_added_twice(
    v: NodeView,
    id: Seq<char>,
    udp_addr: Seq<char>,
    tcp_addr: Seq<char>,
    now: Timestamp,
    later: Timestamp,
)
    requires
        v.sorted(),
    ensures
        crate::heartbeat::member_added(
            crate::heartbeat::member_added(v, id, udp_addr, tcp_addr, now),
            id,
            udp_addr,
            tcp_addr,
            later,
        ) == crate::heartbeat::member_added(v, id, udp_addr, tcp_addr, now),
{
    let entered = NodeView {
        membership: with_member(v.membership, id),
        udp_to_tcp: v.udp_to_tcp.insert(udp_addr, tcp_addr),
        ..v
    };
    let once = entered.refreshed(now);
    lemma_with_member(v.membership, id);
    lemma_refreshed(entered, now);
    let again = NodeView {
        membership: with_member(once.membership, id),
        udp_to_tcp: once.udp_to_tcp.insert(udp_addr, tcp_addr),
        ..once
    };
    assert(once.udp_to_tcp.insert(udp_addr, tcp_addr) =~= once.udp_to_tcp);
    assert(again == once);
}

/// `Leave` gossip ends: a node forwards a `Leave` only when executing it
/// shortened its membership list by one, and once it has executed it, a
/// second copy is not forwarded. So no node forwards the `Leave` of one
/// identifier more than once while that identifier stays out.
pub proof fn lemma_leave_gossip_ends(
    id: Seq<char>,
    v: NodeView,
    source: SourceView,
    now: Timestamp,
    outcome: OutcomeView,
)
    requires
        v.sorted(),
        asked_for(OperationView::Leave { id }, v, source, applied(
            OperationView::Leave { id },
            v,
            source,
            now,
        ), outcome),
    ensures
        outcome != nothing_to_do() ==> applied(
            OperationView::Leave { id },
            v,
            source,
            now,
        ).membership.len() + 1 == v.membership.len(),
        outcome == nothing_to_do() ==> applied(OperationView::Leave { id }, v, source, now) == v,
        !applied(OperationView::Leave { id }, v, source, now).membership.contains(id),
        forall|again: OutcomeView, later: Timestamp|
            asked_for(
                OperationView::Leave { id },
                applied(OperationView::Leave { id }, v, source, now),
                source,
                applied(
                    OperationView::Leave { id },
                    applied(OperationView::Leave { id }, v, source, now),
                    source,
                    later,
                ),
                again,
            ) ==> again == nothing_to_do(),
{
    lemma_without_member(v.membership, id);
    if v.membership.contains(id) {
        let forward = crate::operation::sendable_for_ids(
            v.successors,
            OperationView::Leave { id },
        );
        assert(seq![forward].len() == 1);
        assert(outcome.operations.len() == 1);
        assert(nothing_to_do().operations.len() == 0);
    }
}

/// `NewFileOwners` gossip ends: a node forwards an announcement only when
/// executing it added an owner that the node did not know, and once it has
/// executed it, a second copy is not forwarded.
pub proof fn lemma_owner_gossip_ends(
    op: OperationView,
    v: NodeView,
    source: SourceView,
    now: Timestamp,
    outcome: OutcomeView,
)
    requires
        op is NewFileOwners,
        asked_for(op, v, source, applied(op, v, source, now), outcome),
    ensures
        outcome != nothing_to_do() ==> known_owners(v, op->NewFileOwners_distributed_filename)
            != known_owners(
            applied(op, v, source, now),
            op->NewFileOwners_distributed_filename,
        ) && known_owners(v, op->NewFileOwners_distributed_filename).subset_of(
            known_owners(applied(op, v, source, now), op->NewFileOwners_distributed_filename),
        ),
        outcome == nothing_to_do() ==> applied(op, v, source, now) == v,
        op->NewFileOwners_new_owners.to_set().subset_of(
            known_owners(applied(op, v, source, now), op->NewFileOwners_distributed_filename),
        ),
        forall|again: OutcomeView, later: Timestamp|
            asked_for(
                op,
                applied(op, v, source, now),
                source,
                applied(op, applied(op, v, source, now), source, later),
                again,
            ) ==> again == nothing_to_do(),
{
    let file = op->NewFileOwners_distributed_filename;
    let added = op->NewFileOwners_new_owners.to_set();
    let known = known_owners(v, file);
    let once = applied(op, v, source, now);
    if !added.subset_of(known) {
        assert(known_owners(once, file) == known.union(added));
        let x = choose|x: Seq<char>| added.contains(x) && !known.contains(x);
        assert(known.union(added).contains(x));
        let forward = crate::operation::sendable_for_ids(v.successors, op);
        assert(outcome.operations.len() == 1);
        assert(nothing_to_do().operations.len() == 0);
    }
}

/// What holds of a node between any two steps: its membership list is
/// sorted and holds no identifier twice; its successor and predecessor
/// lists are what the ring defines from that list, hold at most as many
/// entries as a node keeps neighbours, and never the node itself; and a
/// heartbeat record is kept for each predecessor and for nobody else.
pub proof fn lemma_node_invariant(v: NodeView)
    requires
        v.wf(),
    ensures
        crate::ident::strictly_sorted(v.membership),
        v.membership.no_duplicates(),
        v.successors == crate::ring::neighbors_of(
            v.membership,
            v.my_id,
            true,
            crate::constants::NUM_SUCCESSORS as nat,
        ),
        v.predecessors == crate::ring::neighbors_of(
            v.membership,
            v.my_id,
            false,
            crate::constants::NUM_SUCCESSORS as nat,
        ),
        v.successors.len() <= crate::constants::NUM_SUCCESSORS,
        v.predecessors.len() <= crate::constants::NUM_SUCCESSORS,
        !v.successors.contains(v.my_id),
        !v.predecessors.contains(v.my_id),
        forall|id: Seq<char>| v.successors.contains(id) ==> v.membership.contains(id),
        forall|id: Seq<char>| v.predecessors.contains(id) ==> v.membership.contains(id),
        v.timestamps.dom() == v.predecessors.to_set(),
{
    let k = crate::constants::NUM_SUCCESSORS as nat;
    crate::ident::lemma_sorted_no_duplicates(v.membership);
    crate::ring::lemma_neighbors_members(v.membership, v.my_id, true, k);
    crate::ring::lemma_neighbors_members(v.membership, v.my_id, false, k);
    crate::ring::lemma_neighbors_exclude_self(v.membership, v.my_id, true, k);
    crate::ring::lemma_neighbors_exclude_self(v.membership, v.my_id, false, k);
    assert forall|id: Seq<char>| v.successors.contains(id) implies v.membership.contains(id) by {
        let j = choose|j: int| 0 <= j < v.successors.len() && v.successors[j] == id;
        assert(v.membership.contains(v.successors[j]));
    }
    assert forall|id: Seq<char>| v.predecessors.contains(id) implies v.membership.contains(
        id,
    ) by {
        let j = choose|j: int| 0 <= j < v.predecessors.len() && v.predecessors[j] == id;
        assert(v.membership.contains(v.predecessors[j]));
    }
}

/// A file that is put and then got comes back byte for byte. Whatever the
/// owner is asked to do when the contents arrive is to write them to the
/// file's place in its store; whatever it is asked to do on a request is to
/// read that place and to answer on the same stream; and whatever the
/// requester is asked to do with an answer that carries what the owner
/// read is to write exactly that to the path it asked for.
pub proof fn lemma_put_then_get(
    file: Seq<char>,
    data: Seq<u8>,
    local_path: Seq<char>,
    owner: NodeView,
    requester: NodeView,
    stream: u64,
    reply_stream: u64,
    stored: OutcomeView,
    asked: OutcomeView,
    written: OutcomeView,
)
    requires
        asked_for(
            OperationView::SendFile { filename: file, data, is_distributed: true },
            owner,
            SourceView::TcpStream(stream),
            owner,
            stored,
        ),
        asked_for(
            OperationView::Get { distributed_filename: file, local_path },
            owner,
            SourceView::TcpStream(stream),
            owner,
            asked,
        ),
        asked_for(
            OperationView::SendFile { filename: local_path, data, is_distributed: false },
            requester,
            SourceView::TcpStream(reply_stream),
            requester,
            written,
        ),
    ensures
        stored.actions == seq![
            crate::operation::ActionView::WriteFile {
                path: crate::filesystem::data_path(file),
                data,
            },
        ],
        asked.actions == seq![
            crate::operation::ActionView::ReplyWithFile {
                stream,
                path: crate::filesystem::data_path(file),
                reply_filename: local_path,
            },
        ],
        written.actions == seq![crate::operation::ActionView::WriteFile { path: local_path, data }],
        stored.operations.len() == 0 && asked.operations.len() == 0 && written.operations.len()
            == 0,
{
}

/// Whoever is made an owner is a member at that time: the owners that a
/// fresh placement gives a file are members, and so is the owner that the
/// master's repair puts in the place of a failed one.
pub proof fn lemma_owners_are_members(v: NodeView, failed: Seq<char>, file: Seq<char>)
    requires
        v.membership.len() > 0,
    ensures
        forall|j: int|
            0 <= j < crate::filesystem::owner_candidates(v.membership, file).len()
                ==> v.membership.contains(
                #[trigger] crate::filesystem::owner_candidates(v.membership, file)[j],
            ),
        crate::filesystem::replacement_owner(v, failed, file) is Some ==> v.membership.contains(
            crate::filesystem::replacement_owner(v, failed, file)->0,
        ) && !v.file_owners[file].remove(failed).contains(
            crate::filesystem::replacement_owner(v, failed, file)->0,
        ),
{
    let candidates = crate::filesystem::owner_candidates(v.membership, file);
    crate::filesystem::lemma_owner_candidates(v.membership, file);
    crate::filesystem::lemma_first_new_owner(candidates, v.file_owners[file].remove(failed));
    if crate::filesystem::replacement_owner(v, failed, file) is Some {
        let owner = crate::filesystem::replacement_owner(v, failed, file)->0;
        let j = choose|j: int| 0 <= j < candidates.len() && candidates[j] == owner;
        assert(v.membership.contains(candidates[j]));
    }
}

} // verus!

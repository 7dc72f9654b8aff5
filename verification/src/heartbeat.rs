//! The membership protocol: editing the sorted membership list, deriving
//! the neighbour lists from it, and detecting predecessors that fell silent.

use crate::constants::{ip_list, spec_ip_list, Timestamp, EXPIRATION_DURATION, NUM_SUCCESSORS};
use crate::error::NodeError;
use crate::filesystem::{files_owned_by, handle_failed_node, repair_outcome, repaired};
use crate::ident::{
    all_valid, gen_id, id_address, ip_from_id, is_valid_id, make_id, same_text, texts, valid_id,
};
use crate::node::{address_map, refreshed_timestamps, NodeState, NodeView};
use crate::operation::{
    pair_texts, sendable_for_ids, Destinations, DestinationsView, HeartbeatOperation,
    JoinOperation, LeaveOperation, MembershipListOperation, NewMemberOperation, Operation,
    OperationView, Outcome, OutcomeView, SendableOperation, SendableView, Source,
};
use crate::ring::{
    gen_neighbor_list_from, lemma_with_member, lemma_without_member, neighbors_of, search,
    with_member, with_members, without_member,
};
use crate::table::StrMap;
use vstd::prelude::*;

verus! {

/// The address map with the pairs of `pairs` entered one after another, so
/// that of two pairs with one key the later one stays.
pub open spec fn with_addresses(
    map: Map<Seq<char>, Seq<char>>,
    pairs: Seq<(Seq<char>, Seq<char>)>,
) -> Map<Seq<char>, Seq<char>>
    decreases pairs.len(),
{
    if pairs.len() == 0 {
        map
    } else {
        with_addresses(map, pairs.drop_last()).insert(pairs.last().0, pairs.last().1)
    }
}

/// Whether the node has joined.
pub fn is_joined(state: &NodeState) -> (joined: bool)
    ensures
        joined == state@.is_joined,
{
    state.is_joined
}

/// Refuses with `NotJoined` unless the node has joined.
pub fn check_joined(state: &NodeState) -> (r: Result<(), NodeError>)
    ensures
        state@.is_joined ==> r is Ok,
        !state@.is_joined ==> r == Err::<(), NodeError>(NodeError::NotJoined),
{
    if state.is_joined {
        Ok(())
    } else {
        Err(NodeError::NotJoined)
    }
}

/// Whether this node is the master: the member with the smallest
/// identifier. The rule depends on the membership list alone, so every node
/// with the same list names the same master.
pub fn is_master(state: &NodeState) -> (master: bool)
    ensures
        master == state@.is_master(),
{
    if state.membership_list.len() == 0 {
        return false;
    }
    assert(texts(state.membership_list@)[0] == state.membership_list@[0]@);
    crate::ident::same_text(state.membership_list[0].as_str(), state.my_id.as_str())
}

/// Enters `new_id` into the membership list at its place in the order. An
/// identifier that is a member already changes nothing; one without a
/// separator is refused.
pub fn insert_node(state: &mut NodeState, new_id: &String) -> (r: Result<(), NodeError>)
    requires
        old(state)@.sorted(),
    ensures
        final(state)@.sorted(),
        valid_id(new_id@) ==> r is Ok && final(state)@ == (NodeView {
            membership: with_member(old(state)@.membership, new_id@),
            ..old(state)@
        }),
        !valid_id(new_id@) ==> r == Err::<(), NodeError>(NodeError::MalformedId) && final(state)@
            == old(state)@,
{
    if !is_valid_id(new_id.as_str()) {
        return Err(NodeError::MalformedId);
    }
    let ghost before = texts(state.membership_list@);
    proof {
        lemma_with_member(before, new_id@);
    }
    match search(&state.membership_list, new_id.as_str()) {
        Ok(_) => {},
        Err(idx) => {
            state.membership_list.insert(idx, new_id.clone());
            assert(texts(state.membership_list@) =~= before.insert(idx as int, new_id@));
        },
    }
    Ok(())
}

/// Takes `id` out of the membership list and says whether it was a member.
pub fn remove_node(state: &mut NodeState, id: &String) -> (r: Result<bool, NodeError>)
    requires
        old(state)@.sorted(),
    ensures
        final(state)@.sorted(),
        r == Ok::<bool, NodeError>(old(state)@.membership.contains(id@)),
        final(state)@ == (NodeView {
            membership: without_member(old(state)@.membership, id@),
            ..old(state)@
        }),
{
    let ghost before = texts(state.membership_list@);
    proof {
        lemma_without_member(before, id@);
    }
    match search(&state.membership_list, id.as_str()) {
        Ok(idx) => {
            state.membership_list.remove(idx);
            assert(texts(state.membership_list@) =~= before.remove(idx as int));
            Ok(true)
        },
        Err(_) => Ok(false),
    }
}

/// Forgets the ring on leaving: the node is no longer joined, and its
/// membership list, neighbour lists and heartbeat records are empty.
pub fn clear_vars_on_leave(state: &mut NodeState)
    ensures
        final(state)@ == (NodeView {
            is_joined: false,
            membership: Seq::<Seq<char>>::empty(),
            successors: Seq::<Seq<char>>::empty(),
            predecessors: Seq::<Seq<char>>::empty(),
            timestamps: Map::<Seq<char>, Timestamp>::empty(),
            ..old(state)@
        }),
        old(state)@.owners_valid() ==> final(state)@.wf(),
{
    state.is_joined = false;
    state.membership_list = Vec::new();
    state.successor_list = Vec::new();
    state.predecessor_list = Vec::new();
    state.predecessor_timestamps = StrMap::new();
    proof {
        assert(texts(state.membership_list@) =~= Seq::<Seq<char>>::empty());
        assert(texts(state.successor_list@) =~= Seq::<Seq<char>>::empty());
        assert(texts(state.predecessor_list@) =~= Seq::<Seq<char>>::empty());
        assert(state@.predecessors.to_set() =~= Set::<Seq<char>>::empty());
        assert(state@.timestamps.dom() =~= Set::<Seq<char>>::empty());
    }
}

/// Whether every identifier of the list has a separator.
pub fn all_valid_ids(ids: &Vec<String>) -> (r: bool)
    ensures
        r == all_valid(texts(ids@)),
{
    let mut i: usize = 0;
    while i < ids.len()
        invariant
            i <= ids.len(),
            forall|j: int| 0 <= j < i ==> valid_id(#[trigger] texts(ids@)[j]),
        decreases ids.len() - i,
    {
        if !is_valid_id(ids[i].as_str()) {
            assert(texts(ids@)[i as int] == ids@[i as int]@);
            return false;
        }
        assert(texts(ids@)[i as int] == ids@[i as int]@);
        i = i + 1;
    }
    true
}

/// Enters every identifier of `membership_list` into the membership list.
/// If one of them has no separator, the whole list is refused and nothing
/// changes.
pub fn merge_membership_list(state: &mut NodeState, membership_list: &Vec<String>) -> (r: Result<
    (),
    NodeError,
>)
    requires
        old(state)@.sorted(),
    ensures
        final(state)@.sorted(),
        all_valid(texts(membership_list@)) ==> r is Ok && final(state)@ == (NodeView {
            membership: with_members(old(state)@.membership, texts(membership_list@)),
            ..old(state)@
        }),
        !all_valid(texts(membership_list@)) ==> r == Err::<(), NodeError>(NodeError::MalformedId)
            && final(state)@ == old(state)@,
{
    if !all_valid_ids(membership_list) {
        return Err(NodeError::MalformedId);
    }
    let ghost ids = texts(membership_list@);
    let ghost start = state@;
    let mut i: usize = 0;
    while i < membership_list.len()
        invariant
            i <= membership_list.len(),
            ids == texts(membership_list@),
            all_valid(ids),
            state@.sorted(),
            state@ == (NodeView {
                membership: with_members(start.membership, ids.subrange(0, i as int)),
                ..start
            }),
        decreases membership_list.len() - i,
    {
        assert(valid_id(ids[i as int]));
        assert(ids[i as int] == membership_list@[i as int]@);
        let _ = insert_node(state, &membership_list[i]);
        proof {
            let upto = ids.subrange(0, i + 1);
            assert(upto.drop_last() =~= ids.subrange(0, i as int));
            assert(upto.last() == ids[i as int]);
        }
        i = i + 1;
    }
    assert(ids.subrange(0, i as int) =~= ids);
    Ok(())
}

/// Enters every pair of `udp_to_tcp_map` into the map from UDP to TCP
/// endpoints; a pair replaces what the map held for its key.
pub fn merge_tcp_map(state: &mut NodeState, udp_to_tcp_map: &Vec<(String, String)>) -> (r: Result<
    (),
    NodeError,
>)
    ensures
        r is Ok,
        final(state)@ == (NodeView {
            udp_to_tcp: with_addresses(old(state)@.udp_to_tcp, pair_texts(udp_to_tcp_map@)),
            ..old(state)@
        }),
{
    let ghost pairs = pair_texts(udp_to_tcp_map@);
    let ghost start = state@;
    let mut i: usize = 0;
    while i < udp_to_tcp_map.len()
        invariant
            i <= udp_to_tcp_map.len(),
            pairs == pair_texts(udp_to_tcp_map@),
            state@ == (NodeView {
                udp_to_tcp: with_addresses(start.udp_to_tcp, pairs.subrange(0, i as int)),
                ..start
            }),
        decreases udp_to_tcp_map.len() - i,
    {
        let ghost before = state@.udp_to_tcp;
        let key = udp_to_tcp_map[i].0.clone();
        let value = udp_to_tcp_map[i].1.clone();
        state.udp_to_tcp_map.insert(key, value);
        proof {
            let upto = pairs.subrange(0, i + 1);
            assert(upto.drop_last() =~= pairs.subrange(0, i as int));
            assert(upto.last() == pairs[i as int]);
            assert(state@.udp_to_tcp =~= before.insert(pairs[i as int].0, pairs[i as int].1));
        }
        i = i + 1;
    }
    assert(pairs.subrange(0, i as int) =~= pairs);
    Ok(())
}

/// The TCP endpoints of the given UDP endpoints, in the same order. Refuses
/// with `NoTcpAddress` if one of them has no entry in the map.
pub fn tcp_ips_from_udp_ips(state: &NodeState, udp_ips: &Vec<String>) -> (r: Result<
    Vec<String>,
    NodeError,
>)
    ensures
        (forall|i: int|
            0 <= i < udp_ips@.len() ==> state@.udp_to_tcp.contains_key(
                #[trigger] texts(udp_ips@)[i],
            )) ==> r is Ok && texts(r->Ok_0@) == Seq::new(
            udp_ips@.len(),
            |i: int| state@.udp_to_tcp[texts(udp_ips@)[i]],
        ),
        !(forall|i: int|
            0 <= i < udp_ips@.len() ==> state@.udp_to_tcp.contains_key(
                #[trigger] texts(udp_ips@)[i],
            )) ==> r == Err::<Vec<String>, NodeError>(NodeError::NoTcpAddress),
{
    let mut output: Vec<String> = Vec::new();
    let mut i: usize = 0;
    while i < udp_ips.len()
        invariant
            i <= udp_ips.len(),
            output.len() == i,
            forall|j: int|
                0 <= j < i ==> state@.udp_to_tcp.contains_key(#[trigger] texts(udp_ips@)[j]),
            forall|j: int| 0 <= j < i ==> output@[j]@ == state@.udp_to_tcp[texts(udp_ips@)[j]],
        decreases udp_ips.len() - i,
    {
        assert(texts(udp_ips@)[i as int] == udp_ips@[i as int]@);
        match state.udp_to_tcp_map.get(udp_ips[i].as_str()) {
            Some(tcp) => {
                output.push(tcp.clone());
            },
            None => {
                return Err(NodeError::NoTcpAddress);
            },
        }
        i = i + 1;
    }
    assert(texts(output@) =~= Seq::new(
        udp_ips@.len(),
        |i: int| state@.udp_to_tcp[texts(udp_ips@)[i]],
    ));
    Ok(output)
}

/// The neighbours of this node on the ring: its successors if `forward`,
/// else its predecessors. Fails on an empty membership list, and where the
/// node is no member of its own list.
pub fn gen_neighbor_list(state: &NodeState, forward: bool) -> (r: Result<Vec<String>, NodeError>)
    requires
        state@.sorted(),
    ensures
        state@.membership.len() == 0 ==> r == Err::<Vec<String>, NodeError>(
            NodeError::MembershipEmpty,
        ),
        state@.membership.len() > 0 && !state@.membership.contains(state@.my_id) ==> r == Err::<
            Vec<String>,
            NodeError,
        >(NodeError::SelfNotMember),
        state@.membership.contains(state@.my_id) ==> r is Ok && texts(r->Ok_0@) == neighbors_of(
            state@.membership,
            state@.my_id,
            forward,
            NUM_SUCCESSORS as nat,
        ),
{
    if state.membership_list.len() == 0 {
        return Err(NodeError::MembershipEmpty);
    }
    match search(&state.membership_list, state.my_id.as_str()) {
        Ok(my_idx) => Ok(
            gen_neighbor_list_from(&state.membership_list, my_idx, forward, NUM_SUCCESSORS, false),
        ),
        Err(_) => Err(NodeError::SelfNotMember),
    }
}

/// Sets the successor list to what the membership list defines.
pub fn recalculate_successors(state: &mut NodeState)
    requires
        old(state)@.sorted(),
    ensures
        final(state)@ == (NodeView { successors: old(state)@.ring_successors(), ..old(state)@ }),
{
    let successors = match gen_neighbor_list(state, true) {
        Ok(list) => list,
        Err(_) => Vec::new(),
    };
    assert(texts(successors@) =~= state@.ring_successors());
    state.successor_list = successors;
}

/// Sets the predecessor list to what the membership list defines, starts a
/// heartbeat record at `now` for each new predecessor, and drops the record
/// of whoever is no predecessor any more.
pub fn recalculate_predecessors(state: &mut NodeState, now: Timestamp)
    requires
        old(state)@.sorted(),
    ensures
        final(state)@ == (NodeView {
            predecessors: old(state)@.ring_predecessors(),
            timestamps: refreshed_timestamps(
                old(state)@.timestamps,
                old(state)@.ring_predecessors(),
                now,
            ),
            ..old(state)@
        }),
{
    let new_predecessors = match gen_neighbor_list(state, false) {
        Ok(list) => list,
        Err(_) => Vec::new(),
    };
    let ghost preds = texts(new_predecessors@);
    let ghost old_timestamps = state@.timestamps;
    assert(preds =~= state@.ring_predecessors());
    let mut timestamps: StrMap<Timestamp> = StrMap::new();
    let mut i: usize = 0;
    proof {
        assert(timestamps@ =~= refreshed_timestamps(old_timestamps, preds.subrange(0, 0), now));
    }
    while i < new_predecessors.len()
        invariant
            i <= new_predecessors.len(),
            preds == texts(new_predecessors@),
            old_timestamps == state@.timestamps,
            timestamps@ == refreshed_timestamps(old_timestamps, preds.subrange(0, i as int), now),
        decreases new_predecessors.len() - i,
    {
        let id = &new_predecessors[i];
        assert(preds[i as int] == id@);
        let seen: Timestamp = match state.predecessor_timestamps.get(id.as_str()) {
            Some(last) => *last,
            None => now,
        };
        let ghost before = timestamps@;
        timestamps.insert(id.clone(), seen);
        proof {
            let upto = preds.subrange(0, i + 1);
            let prefix = preds.subrange(0, i as int);
            assert(upto =~= prefix.push(id@));
            assert forall|k: Seq<char>| upto.contains(k) <==> (prefix.contains(k) || k == id@) by {
                crate::table::lemma_to_set_push(prefix, id@);
                assert(upto.to_set().contains(k) <==> prefix.to_set().insert(id@).contains(k));
            }
            assert(timestamps@ =~= refreshed_timestamps(old_timestamps, upto, now));
        }
        i = i + 1;
    }
    assert(preds.subrange(0, i as int) =~= preds);
    state.predecessor_list = new_predecessors;
    state.predecessor_timestamps = timestamps;
}

/// Recomputes both neighbour lists and the heartbeat records from the
/// membership list. Where the node is no member of its own list, it has no
/// neighbours.
pub fn recalculate_neighbors(state: &mut NodeState, now: Timestamp) -> (r: Result<(), NodeError>)
    requires
        old(state)@.sorted(),
    ensures
        r is Ok,
        final(state)@ == old(state)@.refreshed(now),
        final(state)@.sorted(),
        final(state)@.ring_consistent(),
        old(state)@.owners_valid() ==> final(state)@.wf(),
{
    proof {
        crate::node::lemma_refreshed(state@, now);
    }
    recalculate_predecessors(state, now);
    recalculate_successors(state);
    Ok(())
}

/// Whether the predecessor `id` has been silent for longer than the
/// expiration duration at second `now`. A record from the future is an
/// error, and so is an `id` without a record.
pub fn is_expired(state: &NodeState, id: &String, now: Timestamp) -> (r: Result<bool, NodeError>)
    ensures
        r == spec_is_expired(state@.timestamps, id@, now),
{
    match state.predecessor_timestamps.get(id.as_str()) {
        Some(last_timestamp) => {
            if now < *last_timestamp {
                return Err(NodeError::FutureTimestamp);
            }
            Ok(now - *last_timestamp > EXPIRATION_DURATION)
        },
        None => Err(NodeError::NotPredecessor),
    }
}

/// Whether `id` has expired at second `now`, going by the heartbeat records.
pub open spec fn spec_is_expired(
    timestamps: Map<Seq<char>, Timestamp>,
    id: Seq<char>,
    now: Timestamp,
) -> Result<bool, NodeError> {
    if !timestamps.contains_key(id) {
        Err(NodeError::NotPredecessor)
    } else if now < timestamps[id] {
        Err(NodeError::FutureTimestamp)
    } else {
        Ok(now - timestamps[id] > EXPIRATION_DURATION)
    }
}

/// Whether a list of pairs lists a map: each key once, each with its value,
/// and no key of the map left out.
pub open spec fn lists_map(
    pairs: Seq<(Seq<char>, Seq<char>)>,
    map: Map<Seq<char>, Seq<char>>,
) -> bool {
    &&& forall|i: int, j: int|
        0 <= i < j < pairs.len() ==> (#[trigger] pairs[i]).0 != (#[trigger] pairs[j]).0
    &&& forall|i: int|
        0 <= i < pairs.len() ==> map.contains_key((#[trigger] pairs[i]).0) && map[pairs[i].0]
            == pairs[i].1
    &&& forall|k: Seq<char>|
        map.contains_key(k) ==> exists|i: int| 0 <= i < pairs.len() && (#[trigger] pairs[i]).0 == k
}

/// The entries of the map from UDP to TCP endpoints, as a list of pairs.
pub fn address_pairs(map: &StrMap<String>) -> (pairs: Vec<(String, String)>)
    ensures
        lists_map(pair_texts(pairs@), address_map(map@)),
{
    let n: usize = map.len();
    let mut pairs: Vec<(String, String)> = Vec::new();
    let mut i: usize = 0;
    while i < n
        invariant
            i <= n,
            n == map.key_order().len(),
            pairs.len() == i,
            forall|j: int|
                0 <= j < i ==> pairs@[j].0@ == map.key_order()[j] && map@.contains_key(
                    map.key_order()[j],
                ) && pairs@[j].1@ == map@[map.key_order()[j]]@,
        decreases n - i,
    {
        let key = map.key_at(i).clone();
        let value = map.value_at(i).clone();
        pairs.push((key, value));
        i = i + 1;
    }
    proof {
        let p = pair_texts(pairs@);
        let order = map.key_order();
        assert forall|a: int, b: int| 0 <= a < b < p.len() implies (#[trigger] p[a]).0 != (
        #[trigger] p[b]).0 by {
            assert(p[a].0 == order[a] && p[b].0 == order[b]);
        }
        assert forall|i: int| 0 <= i < p.len() implies address_map(map@).contains_key(
            (#[trigger] p[i]).0,
        ) && address_map(map@)[p[i].0] == p[i].1 by {
            assert(p[i].0 == order[i]);
            assert(map@.contains_key(order[i]));
        }
        assert forall|k: Seq<char>| address_map(map@).contains_key(k) implies exists|i: int|
            0 <= i < p.len() && (#[trigger] p[i]).0 == k by {
            assert(order.to_set().contains(k));
            let i = choose|i: int| 0 <= i < order.len() && order[i] == k;
            assert(p[i].0 == k);
        }
    }
    pairs
}

/// The view after a heartbeat of `id` was accepted at second `now`: the
/// record of a predecessor is brought up to `now`; for anyone else nothing
/// changes.
pub open spec fn heartbeat_applied(v: NodeView, id: Seq<char>, now: Timestamp) -> NodeView {
    if v.timestamps.contains_key(id) {
        NodeView { timestamps: v.timestamps.insert(id, now), ..v }
    } else {
        v
    }
}

/// The view after the node `id` with TCP endpoint `tcp_addr` was entered
/// under the UDP endpoint `udp_addr` at second `now`.
pub open spec fn member_added(
    v: NodeView,
    id: Seq<char>,
    udp_addr: Seq<char>,
    tcp_addr: Seq<char>,
    now: Timestamp,
) -> NodeView {
    (NodeView {
        membership: with_member(v.membership, id),
        udp_to_tcp: v.udp_to_tcp.insert(udp_addr, tcp_addr),
        ..v
    }).refreshed(now)
}

/// The view after the node `id` was taken out at second `now`; unchanged if
/// it was no member.
pub open spec fn member_removed(v: NodeView, id: Seq<char>, now: Timestamp) -> NodeView {
    if v.membership.contains(id) {
        (NodeView {
            membership: without_member(v.membership, id),
            udp_to_tcp: v.udp_to_tcp.remove(id_address(id)),
            ..v
        }).refreshed(now)
    } else {
        v
    }
}

/// The view after a snapshot was merged in at second `now`.
pub open spec fn snapshot_merged(
    v: NodeView,
    members: Seq<Seq<char>>,
    udp_to_tcp: Seq<(Seq<char>, Seq<char>)>,
    now: Timestamp,
) -> NodeView {
    (NodeView {
        membership: with_members(v.membership, members),
        udp_to_tcp: with_addresses(v.udp_to_tcp, udp_to_tcp),
        ..v
    }).refreshed(now)
}

impl HeartbeatOperation {
    /// Accepts a heartbeat that came from the address in its identifier, and
    /// brings the sender's record up to `now` if it is a predecessor.
    pub fn execute(&self, state: &mut NodeState, source: &Source, now: Timestamp) -> (r: Result<
        Outcome,
        NodeError,
    >)
        requires
            old(state)@.wf(),
        ensures
            final(state)@.wf(),
            match r {
                Ok(outcome) => {
                    &&& source is Addr
                    &&& valid_id(self.id@)
                    &&& id_address(self.id@) == source->Addr_0@
                    &&& final(state)@ == heartbeat_applied(old(state)@, self.id@, now)
                    &&& outcome@ == crate::operation::nothing_to_do()
                },
                Err(e) => {
                    &&& final(state)@ == old(state)@
                    &&& e == if source is TcpStream {
                        NodeError::NotAnAddress
                    } else if !valid_id(self.id@) {
                        NodeError::MalformedId
                    } else {
                        NodeError::SuspiciousHeartbeat
                    }
                    &&& !(source is Addr && valid_id(self.id@) && id_address(self.id@)
                        == source->Addr_0@)
                },
            },
    {
        let addr = match source {
            Source::Addr(addr) => addr,
            Source::TcpStream(_) => {
                return Err(NodeError::NotAnAddress);
            },
        };
        if !is_valid_id(self.id.as_str()) {
            return Err(NodeError::MalformedId);
        }
        let id_ip = ip_from_id(&self.id);
        if !same_text(id_ip.as_str(), addr.as_str()) {
            return Err(NodeError::SuspiciousHeartbeat);
        }
        if state.predecessor_timestamps.contains_key(self.id.as_str()) {
            let ghost before = state@;
            state.predecessor_timestamps.insert(self.id.clone(), now);
            assert(state@.timestamps.dom() =~= before.timestamps.dom());
            assert(state@.sorted());
            assert(state@.ring_consistent());
            assert(state@.file_owners == before.file_owners);
            assert(state@.owners_valid());
        }
        Ok(Outcome::nothing())
    }
}

impl JoinOperation {
    /// Enters the joiner, announces it to every member and sends it a
    /// snapshot of the membership.
    pub fn execute(&self, state: &mut NodeState, source: &Source, now: Timestamp) -> (r: Result<
        Outcome,
        NodeError,
    >)
        requires
            old(state)@.wf(),
        ensures
            final(state)@.wf(),
            match r {
                Ok(outcome) => {
                    &&& source is Addr
                    &&& valid_id(self.id@)
                    &&& final(state)@ == member_added(
                        old(state)@,
                        self.id@,
                        source->Addr_0@,
                        self.tcp_addr@,
                        now,
                    )
                    &&& outcome@.actions.len() == 0
                    &&& outcome@.operations.len() == 2
                    &&& outcome@.operations[0] == sendable_for_ids(
                        final(state)@.membership,
                        OperationView::NewMember { id: self.id@, tcp_addr: self.tcp_addr@ },
                    )
                    &&& outcome@.operations[1].dests == sendable_for_ids(
                        seq![self.id@],
                        OperationView::Leave { id: self.id@ },
                    ).dests
                    &&& outcome@.operations[1].operation is MembershipList
                    &&& outcome@.operations[1].operation->MembershipList_members
                        == final(state)@.membership
                    &&& lists_map(
                        outcome@.operations[1].operation->MembershipList_udp_to_tcp,
                        final(state)@.udp_to_tcp,
                    )
                },
                Err(e) => {
                    &&& final(state)@ == old(state)@
                    &&& e == if source is TcpStream {
                        NodeError::NotAnAddress
                    } else {
                        NodeError::MalformedId
                    }
                    &&& source is TcpStream || !valid_id(self.id@)
                },
            },
    {
        let addr = match source {
            Source::Addr(addr) => addr,
            Source::TcpStream(_) => {
                return Err(NodeError::NotAnAddress);
            },
        };
        if !is_valid_id(self.id.as_str()) {
            return Err(NodeError::MalformedId);
        }
        let ghost before = state@;
        let _ = insert_node(state, &self.id);
        state.udp_to_tcp_map.insert(addr.clone(), self.tcp_addr.clone());
        assert(state@.udp_to_tcp =~= before.udp_to_tcp.insert(addr@, self.tcp_addr@));
        let announcement = SendableOperation::for_everyone(
            state,
            Operation::NewMember(
                NewMemberOperation { id: self.id.clone(), tcp_addr: self.tcp_addr.clone() },
            ),
        );
        let snapshot = SendableOperation::for_single(
            self.id.clone(),
            Operation::MembershipList(
                MembershipListOperation {
                    membership_list: crate::ident::clone_texts(&state.membership_list),
                    udp_to_tcp_map: address_pairs(&state.udp_to_tcp_map),
                },
            ),
        );
        let mut operations: Vec<SendableOperation> = Vec::new();
        operations.push(announcement);
        operations.push(snapshot);
        let _ = recalculate_neighbors(state, now);
        let outcome = Outcome { operations, actions: Vec::new() };
        proof {
            assert(outcome@.operations[0] == announcement@);
            assert(outcome@.operations[1] == snapshot@);
        }
        Ok(outcome)
    }
}

impl LeaveOperation {
    /// Takes the leaver out. If it was a member, the same operation goes on
    /// to the successors that the node had on receiving it; if it was none,
    /// nothing changes and nothing is sent, which ends the gossip.
    pub fn execute(&self, state: &mut NodeState, source: &Source, now: Timestamp) -> (r: Result<
        Outcome,
        NodeError,
    >)
        requires
            old(state)@.wf(),
        ensures
            final(state)@.wf(),
            r is Ok,
            final(state)@ == member_removed(old(state)@, self.id@, now),
            r->Ok_0@ == if old(state)@.membership.contains(self.id@) {
                OutcomeView {
                    operations: seq![
                        sendable_for_ids(
                            old(state)@.successors,
                            OperationView::Leave { id: self.id@ },
                        ),
                    ],
                    actions: Seq::empty(),
                }
            } else {
                crate::operation::nothing_to_do()
            },
    {
        let forward = SendableOperation::for_successors(
            state,
            Operation::Leave(LeaveOperation { id: self.id.clone() }),
        );
        let ghost before = state@;
        let removed = match remove_node(state, &self.id) {
            Ok(removed) => removed,
            Err(_) => false,
        };
        if removed {
            proof {
                let i = before.membership.index_of(self.id@);
                assert(valid_id(before.membership[i]));
            }
            let address = ip_from_id(&self.id);
            let _ = state.udp_to_tcp_map.remove(address.as_str());
            assert(state@.udp_to_tcp =~= before.udp_to_tcp.remove(id_address(self.id@)));
            let _ = recalculate_neighbors(state, now);
            Ok(Outcome::send(forward))
        } else {
            Ok(Outcome::nothing())
        }
    }
}

impl NewMemberOperation {
    /// Enters the announced member under the address in its identifier.
    pub fn execute(&self, state: &mut NodeState, source: &Source, now: Timestamp) -> (r: Result<
        Outcome,
        NodeError,
    >)
        requires
            old(state)@.wf(),
        ensures
            final(state)@.wf(),
            valid_id(self.id@) ==> r is Ok && r->Ok_0@ == crate::operation::nothing_to_do()
                && final(state)@ == member_added(
                old(state)@,
                self.id@,
                id_address(self.id@),
                self.tcp_addr@,
                now,
            ),
            !valid_id(self.id@) ==> r == Err::<Outcome, NodeError>(NodeError::MalformedId)
                && final(state)@ == old(state)@,
    {
        if !is_valid_id(self.id.as_str()) {
            return Err(NodeError::MalformedId);
        }
        let ghost before = state@;
        let _ = insert_node(state, &self.id);
        state.udp_to_tcp_map.insert(ip_from_id(&self.id), self.tcp_addr.clone());
        assert(state@.udp_to_tcp =~= before.udp_to_tcp.insert(
            id_address(self.id@),
            self.tcp_addr@,
        ));
        let _ = recalculate_neighbors(state, now);
        Ok(Outcome::nothing())
    }
}

impl MembershipListOperation {
    /// Merges the snapshot into the membership list and the address map. A
    /// snapshot that holds an identifier without a separator is refused whole.
    pub fn execute(&self, state: &mut NodeState, source: &Source, now: Timestamp) -> (r: Result<
        Outcome,
        NodeError,
    >)
        requires
            old(state)@.wf(),
        ensures
            final(state)@.wf(),
            all_valid(texts(self.membership_list@)) ==> r is Ok && r->Ok_0@
                == crate::operation::nothing_to_do() && final(state)@ == snapshot_merged(
                old(state)@,
                texts(self.membership_list@),
                pair_texts(self.udp_to_tcp_map@),
                now,
            ),
            !all_valid(texts(self.membership_list@)) ==> r == Err::<Outcome, NodeError>(
                NodeError::MalformedId,
            ) && final(state)@ == old(state)@,
    {
        match merge_membership_list(state, &self.membership_list) {
            Ok(_) => {},
            Err(e) => {
                return Err(e);
            },
        }
        let _ = merge_tcp_map(state, &self.udp_to_tcp_map);
        let _ = recalculate_neighbors(state, now);
        Ok(Outcome::nothing())
    }
}

/// The view after the node joined at second `now`: it has a fresh
/// identifier, is a member of its own list, and knows its own TCP endpoint.
pub open spec fn joined(v: NodeView, now: Timestamp) -> NodeView {
    let id = make_id(v.my_ip_addr, now as nat);
    (NodeView {
        is_joined: true,
        my_id: id,
        membership: with_member(v.membership, id),
        udp_to_tcp: v.udp_to_tcp.insert(id_address(id), v.tcp_addr),
        ..v
    }).refreshed(now)
}

/// The view after the node left.
pub open spec fn left(v: NodeView) -> NodeView {
    NodeView {
        is_joined: false,
        membership: Seq::<Seq<char>>::empty(),
        successors: Seq::<Seq<char>>::empty(),
        predecessors: Seq::<Seq<char>>::empty(),
        timestamps: Map::<Seq<char>, Timestamp>::empty(),
        ..v
    }
}

/// Joins the ring at second `now` and hands back the `Join` operation for
/// the bootstrap addresses. A node that has joined already is refused:
/// nothing changes and nothing is to be sent.
pub fn join(state: &mut NodeState, now: Timestamp) -> (r: Result<SendableOperation, NodeError>)
    requires
        old(state)@.wf(),
    ensures
        final(state)@.wf(),
        old(state)@.is_joined ==> r == Err::<SendableOperation, NodeError>(
            NodeError::AlreadyJoined,
        ) && final(state)@ == old(state)@,
        !old(state)@.is_joined ==> r is Ok && final(state)@ == joined(old(state)@, now)
            && r->Ok_0@ == (SendableView {
            dests: DestinationsView::UDPAddr(spec_ip_list()),
            operation: OperationView::Join {
                id: final(state)@.my_id,
                tcp_addr: old(state)@.tcp_addr,
            },
        }),
{
    if state.is_joined {
        return Err(NodeError::AlreadyJoined);
    }
    let ghost before = state@;
    let my_id = gen_id(&state.my_ip_addr, now);
    state.is_joined = true;
    state.my_id = my_id.clone();
    let _ = insert_node(state, &my_id);
    state.udp_to_tcp_map.insert(ip_from_id(&my_id), state.tcp_addr.clone());
    assert(state@.udp_to_tcp =~= before.udp_to_tcp.insert(id_address(my_id@), before.tcp_addr));
    assert(state@.file_owners == before.file_owners);
    assert(state@.owners_valid());
    let _ = recalculate_neighbors(state, now);
    Ok(
        SendableOperation {
            dests: Destinations::UDPAddr(ip_list()),
            operation: Operation::Join(
                JoinOperation { id: my_id, tcp_addr: state.tcp_addr.clone() },
            ),
        },
    )
}

/// Leaves the ring: hands back the `Leave` operation for the successors and
/// forgets the ring. A node that has not joined is refused.
pub fn leave(state: &mut NodeState) -> (r: Result<SendableOperation, NodeError>)
    requires
        old(state)@.wf(),
    ensures
        final(state)@.wf(),
        !old(state)@.is_joined ==> r == Err::<SendableOperation, NodeError>(NodeError::NotJoined)
            && final(state)@ == old(state)@,
        old(state)@.is_joined ==> r is Ok && final(state)@ == left(old(state)@) && r->Ok_0@
            == sendable_for_ids(
            old(state)@.successors,
            OperationView::Leave { id: old(state)@.my_id },
        ),
{
    if !state.is_joined {
        return Err(NodeError::NotJoined);
    }
    let leave_item = SendableOperation::for_successors(
        state,
        Operation::Leave(LeaveOperation { id: state.my_id.clone() }),
    );
    clear_vars_on_leave(state);
    Ok(leave_item)
}

/// The heartbeat of this node, addressed to its successors.
pub fn send_heartbeats(state: &NodeState) -> (item: SendableOperation)
    requires
        state@.wf(),
    ensures
        item@ == sendable_for_ids(
            state@.successors,
            OperationView::Heartbeat { id: state@.my_id },
        ),
{
    SendableOperation::for_successors(
        state,
        Operation::Heartbeat(HeartbeatOperation { id: state.my_id.clone() }),
    )
}

/// The identifiers of `ids` that have expired at second `now`, in the order
/// of `ids`.
pub open spec fn expired_among(
    timestamps: Map<Seq<char>, Timestamp>,
    ids: Seq<Seq<char>>,
    now: Timestamp,
) -> Seq<Seq<char>>
    decreases ids.len(),
{
    if ids.len() == 0 {
        Seq::empty()
    } else if spec_is_expired(timestamps, ids.last(), now) == Ok::<bool, NodeError>(true) {
        expired_among(timestamps, ids.drop_last(), now).push(ids.last())
    } else {
        expired_among(timestamps, ids.drop_last(), now)
    }
}

/// Whether one of `ids` has a heartbeat record that is later than `now`.
pub open spec fn any_from_future(
    timestamps: Map<Seq<char>, Timestamp>,
    ids: Seq<Seq<char>>,
    now: Timestamp,
) -> bool {
    exists|j: int|
        0 <= j < ids.len() && timestamps.contains_key(#[trigger] ids[j]) && now < timestamps[ids[j]]
}

/// The membership without any of the identifiers of `ids`.
pub open spec fn without_members(members: Seq<Seq<char>>, ids: Seq<Seq<char>>) -> Seq<Seq<char>>
    decreases ids.len(),
{
    if ids.len() == 0 {
        members
    } else {
        without_member(without_members(members, ids.drop_last()), ids.last())
    }
}

/// The view after the master's repair for each of the nodes `failed`, one
/// after another.
pub open spec fn repaired_all(v: NodeView, failed: Seq<Seq<char>>) -> NodeView
    decreases failed.len(),
{
    if failed.len() == 0 {
        v
    } else {
        repaired(repaired_all(v, failed.drop_last()), failed.last())
    }
}

/// The `Leave` operations that tell the successors of the failures.
pub open spec fn leave_notices(successors: Seq<Seq<char>>, ids: Seq<Seq<char>>) -> Seq<
    SendableView,
> {
    Seq::new(
        ids.len(),
        |k: int| sendable_for_ids(successors, OperationView::Leave { id: ids[k] }),
    )
}

/// What the repairs for the nodes `failed` ask for, given for each of them
/// the order `losts[k]` in which its lost files were taken.
pub open spec fn repairs_outcome(
    v: NodeView,
    failed: Seq<Seq<char>>,
    losts: Seq<Seq<Seq<char>>>,
) -> OutcomeView
    decreases failed.len(),
{
    if failed.len() == 0 || losts.len() != failed.len() {
        crate::operation::nothing_to_do()
    } else {
        let front = repairs_outcome(v, failed.drop_last(), losts.drop_last());
        let reached = repaired_all(v, failed.drop_last());
        let step = if reached.is_master() {
            repair_outcome(reached, failed.last(), losts.last())
        } else {
            crate::operation::nothing_to_do()
        };
        OutcomeView {
            operations: front.operations + step.operations,
            actions: front.actions + step.actions,
        }
    }
}

/// Whether `losts` gives, for each failed node, its lost files, each once.
pub open spec fn losts_fit(
    v: NodeView,
    failed: Seq<Seq<char>>,
    losts: Seq<Seq<Seq<char>>>,
) -> bool {
    &&& losts.len() == failed.len()
    &&& forall|k: int|
        0 <= k < failed.len() && v.is_master() ==> (#[trigger] losts[k]).no_duplicates()
            && losts[k].to_set() == files_owned_by(
            repaired_all(v, failed.subrange(0, k)),
            failed[k],
        )
}

/// The view after the predecessors `expired` were found silent at second
/// `now`: they are members no longer, the neighbours are recomputed, and
/// the master has repaired the ownership of their files.
pub open spec fn failures_handled(v: NodeView, expired: Seq<Seq<char>>, now: Timestamp) -> NodeView {
    if expired.len() == 0 {
        v
    } else {
        repaired_all(
    swept(v, expired, now), expired)
    }
}

/// The view after the expired nodes were taken out and the neighbours
/// recomputed, before any repair.
pub open spec fn swept(v: NodeView, expired: Seq<Seq<char>>, now: Timestamp) -> NodeView {
    (NodeView { membership: without_members(v.membership, expired), ..v }).refreshed(now)
}

/// What a sweep that found `expired` asks for: the `Leave` notices, then
/// what the repairs ask for.
pub open spec fn sweep_outcome(
    v: NodeView,
    expired: Seq<Seq<char>>,
    losts: Seq<Seq<Seq<char>>>,
    now: Timestamp,
) -> OutcomeView {
    let repairs = repairs_outcome(swept(v, expired, now), expired, losts);
    OutcomeView {
        operations: leave_notices(v.successors, expired) + repairs.operations,
        actions: repairs.actions,
    }
}

/// Whether `losts` gives the lost files of each node that a sweep found expired.
pub open spec fn sweep_fits(
    v: NodeView,
    expired: Seq<Seq<char>>,
    losts: Seq<Seq<Seq<char>>>,
    now: Timestamp,
) -> bool {
    losts_fit(swept(v, expired, now), expired, losts)
}

/// Removing a list of identifiers keeps the membership sorted and valid.
pub proof fn lemma_without_members(members: Seq<Seq<char>>, ids: Seq<Seq<char>>)
    requires
        crate::ident::strictly_sorted(members),
    ensures
        crate::ident::strictly_sorted(without_members(members, ids)),
        all_valid(members) ==> all_valid(without_members(members, ids)),
        without_members(members, ids).to_set() == members.to_set().difference(ids.to_set()),
    decreases ids.len(),
{
    if ids.len() == 0 {
        assert(ids.to_set() =~= Set::<Seq<char>>::empty());
        assert(members.to_set().difference(ids.to_set()) =~= members.to_set());
    } else {
        let front = ids.drop_last();
        lemma_without_members(members, front);
        lemma_without_member(without_members(members, front), ids.last());
        assert(ids =~= front.push(ids.last()));
        crate::table::lemma_to_set_push(front, ids.last());
        assert(without_members(members, ids).to_set() =~= members.to_set().difference(
            ids.to_set(),
        ));
    }
}

/// A repair changes the ownership map and nothing else, so it keeps the
/// membership, the neighbours and the master.
pub proof fn lemma_repaired_all(v: NodeView, failed: Seq<Seq<char>>)
    ensures
        repaired_all(v, failed).membership == v.membership,
        repaired_all(v, failed).successors == v.successors,
        repaired_all(v, failed).my_id == v.my_id,
        repaired_all(v, failed).is_master() == v.is_master(),
    decreases failed.len(),
{
    if failed.len() > 0 {
        lemma_repaired_all(v, failed.drop_last());
    }
}

/// The maintainer's sweep at second `now`. A node that has not joined does
/// nothing. Else each predecessor whose last heartbeat is older than the
/// expiration duration is declared failed: it is taken out of the
/// membership list and a `Leave` for it goes to the successors that the
/// node had before the sweep; then the neighbours are recomputed once, and
/// the master repairs the ownership of the files of each failed node. A
/// heartbeat record from the future stops the sweep before anything changes.
pub fn maintainer(state: &mut NodeState, now: Timestamp) -> (r: Result<Outcome, NodeError>)
    requires
        old(state)@.wf(),
    ensures
        final(state)@.wf(),
        !old(state)@.is_joined ==> r is Ok && r->Ok_0@ == crate::operation::nothing_to_do()
            && final(state)@ == old(state)@,
        old(state)@.is_joined && any_from_future(
            old(state)@.timestamps,
            old(state)@.predecessors,
            now,
        ) ==> r == Err::<Outcome, NodeError>(NodeError::FutureTimestamp) && final(state)@ == old(
            state,
        )@,
        old(state)@.is_joined && !any_from_future(
            old(state)@.timestamps,
            old(state)@.predecessors,
            now,
        ) ==> r is Ok && final(state)@ == failures_handled(
            old(state)@,
            expired_among(old(state)@.timestamps, old(state)@.predecessors, now),
            now,
        ) && exists|losts: Seq<Seq<Seq<char>>>|
            #![trigger sweep_fits(old(state)@, expired_among(old(state)@.timestamps, old(state)@.predecessors, now), losts, now)]
            {
                let expired = expired_among(
                    old(state)@.timestamps,
                    old(state)@.predecessors,
                    now,
                );
                &&& sweep_fits(old(state)@, expired, losts, now)
                &&& r->Ok_0@ == sweep_outcome(old(state)@, expired, losts, now)
            },
{
    if !state.is_joined {
        return Ok(Outcome::nothing());
    }
    let ghost before = state@;
    let ghost preds = before.predecessors;
    // Figure out who is expired
    let mut expired_nodes: Vec<String> = Vec::new();
    let mut i: usize = 0;
    while i < state.predecessor_list.len()
        invariant
            i <= state.predecessor_list.len(),
            state@ == before,
            before == old(state)@,
            before.is_joined,
            preds == before.predecessors,
            before.wf(),
            !any_from_future(before.timestamps, preds.subrange(0, i as int), now),
            texts(expired_nodes@) == expired_among(
                before.timestamps,
                preds.subrange(0, i as int),
                now,
            ),
        decreases state.predecessor_list.len() - i,
    {
        let predecessor = &state.predecessor_list[i];
        let ghost prefix = preds.subrange(0, i as int);
        let ghost upto = preds.subrange(0, i + 1);
        proof {
            assert(preds[i as int] == predecessor@);
            assert(upto.drop_last() =~= prefix);
            assert(upto.last() == predecessor@);
            assert(preds.to_set().contains(preds[i as int]));
            assert(before.timestamps.contains_key(predecessor@));
        }
        match is_expired(state, predecessor, now) {
            Ok(expired) => {
                if expired {
                    expired_nodes.push(predecessor.clone());
                    assert(texts(expired_nodes@) =~= expired_among(
                        before.timestamps,
                        prefix,
                        now,
                    ).push(predecessor@));
                }
                proof {
                    if any_from_future(before.timestamps, upto, now) {
                        let j = choose|j: int|
                            0 <= j < upto.len() && before.timestamps.contains_key(
                                #[trigger] upto[j],
                            ) && now < before.timestamps[upto[j]];
                        if j < i {
                            assert(prefix[j] == upto[j]);
                        }
                    }
                }
            },
            Err(e) => {
                proof {
                    assert(preds[i as int] == predecessor@);
                    assert(e == NodeError::FutureTimestamp);
                    assert(before.timestamps.contains_key(preds[i as int]) && now
                        < before.timestamps[preds[i as int]]);
                }
                return Err(e);
            },
        }
        i = i + 1;
    }
    assert(preds.subrange(0, i as int) =~= preds);
    let ghost expired = texts(expired_nodes@);
    if expired_nodes.len() == 0 {
        let done = Outcome::nothing();
        proof {
            let losts = Seq::<Seq<Seq<char>>>::empty();
            assert(expired =~= Seq::<Seq<char>>::empty());
            assert(sweep_fits(before, expired, losts, now));
            assert(sweep_outcome(before, expired, losts, now).operations =~= Seq::<
                SendableView,
            >::empty());
            assert(done@ == sweep_outcome(before, expired, losts, now));
        }
        return Ok(done);
    }
    // Tell the successors, as they stand before the sweep changes them.
    let mut outcome = Outcome::nothing();
    let mut k: usize = 0;
    while k < expired_nodes.len()
        invariant
            k <= expired_nodes.len(),
            state@ == before,
            before.wf(),
            expired == texts(expired_nodes@),
            expired.len() > 0,
            outcome@.actions == Seq::<crate::operation::ActionView>::empty(),
            outcome@.operations == leave_notices(before.successors, expired.subrange(0, k as int)),
        decreases expired_nodes.len() - k,
    {
        let notice = SendableOperation::for_successors(
            state,
            Operation::Leave(LeaveOperation { id: expired_nodes[k].clone() }),
        );
        let ghost sent = outcome@.operations;
        outcome.operations.push(notice);
        proof {
            assert(expired[k as int] == expired_nodes@[k as int]@);
            assert(outcome@.operations =~= sent.push(notice@));
            assert(outcome@.operations =~= leave_notices(
                before.successors,
                expired.subrange(0, k + 1),
            ));
            assert(outcome@.actions =~= Seq::<crate::operation::ActionView>::empty());
        }
        k = k + 1;
    }
    assert(expired.subrange(0, k as int) =~= expired);
    // Remove the expired nodes.
    let mut k: usize = 0;
    while k < expired_nodes.len()
        invariant
            k <= expired_nodes.len(),
            expired == texts(expired_nodes@),
            state@.sorted(),
            state@ == (NodeView {
                membership: without_members(before.membership, expired.subrange(0, k as int)),
                ..before
            }),
        decreases expired_nodes.len() - k,
    {
        let _ = remove_node(state, &expired_nodes[k]);
        proof {
            let upto = expired.subrange(0, k + 1);
            assert(upto.drop_last() =~= expired.subrange(0, k as int));
            assert(upto.last() == expired_nodes@[k as int]@);
        }
        k = k + 1;
    }
    assert(expired.subrange(0, k as int) =~= expired);
    // Update the neighbors
    assert(state@.file_owners == before.file_owners);
    assert(state@.owners_valid());
    let _ = recalculate_neighbors(state, now);
    let ghost recomputed = state@;
    let ghost notices = outcome@.operations;
    let ghost mut losts: Seq<Seq<Seq<char>>> = Seq::empty();
    // The master repairs the ownership of what the failed nodes owned.
    let mut k: usize = 0;
    proof {
        assert(expired.subrange(0, 0) =~= Seq::<Seq<char>>::empty());
        assert(notices =~= notices + repairs_outcome(
            recomputed,
            expired.subrange(0, 0),
            losts,
        ).operations);
    }
    while k < expired_nodes.len()
        invariant
            k <= expired_nodes.len(),
            expired == texts(expired_nodes@),
            recomputed.wf(),
            state@.wf(),
            state@ == repaired_all(recomputed, expired.subrange(0, k as int)),
            losts_fit(recomputed, expired.subrange(0, k as int), losts),
            outcome@.operations == notices + repairs_outcome(
                recomputed,
                expired.subrange(0, k as int),
                losts,
            ).operations,
            outcome@.actions == repairs_outcome(
                recomputed,
                expired.subrange(0, k as int),
                losts,
            ).actions,
        decreases expired_nodes.len() - k,
    {
        let ghost reached = state@;
        let ghost prefix = expired.subrange(0, k as int);
        let ghost upto = expired.subrange(0, k + 1);
        let ghost failed = expired_nodes@[k as int]@;
        let step = match handle_failed_node(state, &expired_nodes[k], now) {
            Ok(step) => step,
            Err(_) => Outcome::nothing(),
        };
        proof {
            assert(upto.drop_last() =~= prefix);
            assert(upto.last() == failed);
            assert(expired[k as int] == failed);
            lemma_repaired_all(recomputed, prefix);
            let lost = if reached.is_master() {
                choose|lost: Seq<Seq<char>>|
                    #![trigger repair_outcome(reached, failed, lost)]
                    lost.no_duplicates() && lost.to_set() == files_owned_by(reached, failed)
                        && step@ == repair_outcome(reached, failed, lost)
            } else {
                Seq::<Seq<char>>::empty()
            };
            let before_losts = losts;
            losts = losts.push(lost);
            assert(losts.drop_last() =~= before_losts);
            assert(losts.last() == lost);
            assert forall|j: int| 0 <= j < upto.len() && recomputed.is_master() implies (
            #[trigger] losts[j]).no_duplicates() && losts[j].to_set() == files_owned_by(
                repaired_all(recomputed, upto.subrange(0, j)),
                upto[j],
            ) by {
                if j < k {
                    assert(losts[j] == before_losts[j]);
                    assert(upto.subrange(0, j) =~= prefix.subrange(0, j));
                    assert(upto[j] == prefix[j]);
                } else {
                    assert(upto.subrange(0, j) =~= prefix);
                }
            }
        }
        outcome.append(step);
        proof {
            let total = repairs_outcome(recomputed, upto, losts);
            let front = repairs_outcome(recomputed, prefix, losts.drop_last());
            assert(outcome@.operations =~= notices + total.operations);
            assert(outcome@.actions =~= total.actions);
        }
        k = k + 1;
    }
    proof {
        assert(expired.subrange(0, k as int) =~= expired);
        assert(recomputed == swept(before, expired, now));
        assert(sweep_fits(before, expired, losts, now));
        assert(outcome@ == sweep_outcome(before, expired, losts, now));
    }
    Ok(outcome)
}

} // verus!

//! The state of one node: what it knows of the ring, of its neighbours and
//! of the files, held in one value that the caller threads through.

use crate::constants::{Timestamp, NUM_SUCCESSORS};
use crate::ident::{all_valid, strictly_sorted, texts, valid_id};
use crate::ring::neighbors_of;
use crate::table::{StrMap, StrSet};
use vstd::prelude::*;

verus! {

/// Everything a node knows. The lists are public so that a caller can read
/// and print them; the functions of this crate keep them in the shape that
/// `NodeView::wf` describes.
pub struct NodeState {
    /// Whether the node has joined and not left since.
    pub is_joined: bool,
    /// The node's own identifier, made when it last joined.
    pub my_id: String,
    /// The node's UDP endpoint, `ip:port`.
    pub my_ip_addr: String,
    /// The node's TCP endpoint, `ip:port`.
    pub tcp_addr: String,
    /// The identifiers of all known members, sorted and without repetition.
    pub membership_list: Vec<String>,
    /// The members that follow this node on the ring.
    pub successor_list: Vec<String>,
    /// The members that precede this node on the ring.
    pub predecessor_list: Vec<String>,
    /// For each predecessor, the second of its last heartbeat.
    pub predecessor_timestamps: StrMap<Timestamp>,
    /// For each member's UDP endpoint, its TCP endpoint.
    pub udp_to_tcp_map: StrMap<String>,
    /// For each distributed file, the identifiers of its owners.
    pub all_file_owners: StrMap<StrSet>,
}

/// The mathematical content of a `NodeState`.
pub struct NodeView {
    pub is_joined: bool,
    pub my_id: Seq<char>,
    pub my_ip_addr: Seq<char>,
    pub tcp_addr: Seq<char>,
    pub membership: Seq<Seq<char>>,
    pub successors: Seq<Seq<char>>,
    pub predecessors: Seq<Seq<char>>,
    pub timestamps: Map<Seq<char>, Timestamp>,
    pub udp_to_tcp: Map<Seq<char>, Seq<char>>,
    pub file_owners: Map<Seq<char>, Set<Seq<char>>>,
}

/// A map to strings, read as a map to their texts.
pub open spec fn address_map(m: Map<Seq<char>, String>) -> Map<Seq<char>, Seq<char>> {
    m.map_values(|s: String| s@)
}

/// A map to sets of strings, read as a map to mathematical sets.
pub open spec fn owner_map(m: Map<Seq<char>, StrSet>) -> Map<Seq<char>, Set<Seq<char>>> {
    m.map_values(|s: StrSet| s@)
}

/// The timestamps after the predecessor list has become `predecessors`: a
/// predecessor keeps the second it had, a new one starts at `now`, and
/// whoever is no predecessor any more has no entry.
pub open spec fn refreshed_timestamps(
    timestamps: Map<Seq<char>, Timestamp>,
    predecessors: Seq<Seq<char>>,
    now: Timestamp,
) -> Map<Seq<char>, Timestamp> {
    Map::new(
        |k: Seq<char>| predecessors.contains(k),
        |k: Seq<char>|
            if timestamps.contains_key(k) {
                timestamps[k]
            } else {
                now
            },
    )
}

impl NodeView {
    /// The membership list is sorted, holds no identifier twice, and holds
    /// valid identifiers only.
    pub open spec fn sorted(self) -> bool {
        &&& strictly_sorted(self.membership)
        &&& all_valid(self.membership)
    }

    /// The successors of this node, as the membership list defines them.
    pub open spec fn ring_successors(self) -> Seq<Seq<char>> {
        neighbors_of(self.membership, self.my_id, true, NUM_SUCCESSORS as nat)
    }

    /// The predecessors of this node, as the membership list defines them.
    pub open spec fn ring_predecessors(self) -> Seq<Seq<char>> {
        neighbors_of(self.membership, self.my_id, false, NUM_SUCCESSORS as nat)
    }

    /// Successor and predecessor lists are the views of the membership list
    /// that the ring defines, and the timestamps are kept for exactly the
    /// predecessors.
    pub open spec fn ring_consistent(self) -> bool {
        &&& self.successors == self.ring_successors()
        &&& self.predecessors == self.ring_predecessors()
        &&& self.timestamps.dom() == self.predecessors.to_set()
    }

    /// Every owner of every file is a valid identifier.
    pub open spec fn owners_valid(self) -> bool {
        forall|f: Seq<char>, o: Seq<char>|
            self.file_owners.contains_key(f) && #[trigger] self.file_owners[f].contains(o)
                ==> valid_id(o)
    }

    /// The invariant of a node between any two steps.
    pub open spec fn wf(self) -> bool {
        &&& self.sorted()
        &&& self.ring_consistent()
        &&& self.owners_valid()
    }

    /// The view after the neighbours have been recomputed at second `now`.
    pub open spec fn refreshed(self, now: Timestamp) -> NodeView {
        NodeView {
            successors: self.ring_successors(),
            predecessors: self.ring_predecessors(),
            timestamps: refreshed_timestamps(self.timestamps, self.ring_predecessors(), now),
            ..self
        }
    }

    /// Whether this node is the master: the member with the smallest identifier.
    pub open spec fn is_master(self) -> bool {
        self.membership.len() > 0 && self.membership[0] == self.my_id
    }
}

impl View for NodeState {
    type V = NodeView;

    open spec fn view(&self) -> NodeView {
        NodeView {
            is_joined: self.is_joined,
            my_id: self.my_id@,
            my_ip_addr: self.my_ip_addr@,
            tcp_addr: self.tcp_addr@,
            membership: texts(self.membership_list@),
            successors: texts(self.successor_list@),
            predecessors: texts(self.predecessor_list@),
            timestamps: self.predecessor_timestamps@,
            udp_to_tcp: address_map(self.udp_to_tcp_map@),
            file_owners: owner_map(self.all_file_owners@),
        }
    }
}

/// Recomputing the neighbours makes the ring consistent, changes nothing on
/// a ring that is consistent already, and leaves the rest alone.
pub proof fn lemma_refreshed(v: NodeView, now: Timestamp)
    ensures
        v.refreshed(now).ring_consistent(),
        v.refreshed(now).membership == v.membership,
        v.refreshed(now).sorted() == v.sorted(),
        v.refreshed(now).owners_valid() == v.owners_valid(),
        v.ring_consistent() ==> v.refreshed(now) == v,
        forall|later: Timestamp| v.refreshed(now).refreshed(later) == v.refreshed(now),
{
    let r = v.refreshed(now);
    assert(r.timestamps.dom() =~= r.predecessors.to_set());
    if v.ring_consistent() {
        assert(r.timestamps =~= v.timestamps);
    }
    assert forall|later: Timestamp| r.refreshed(later) == r by {
        assert(r.refreshed(later).timestamps =~= r.timestamps);
    }
}

impl NodeState {
    /// The state of a node that has not joined: it knows its two endpoints
    /// and nothing else.
    pub fn new(udp_addr: String, tcp_addr: String) -> (state: Self)
        ensures
            state@.wf(),
            !state@.is_joined,
            state@.my_ip_addr == udp_addr@,
            state@.tcp_addr == tcp_addr@,
            state@.my_id == Seq::<char>::empty(),
            state@.membership == Seq::<Seq<char>>::empty(),
            state@.successors == Seq::<Seq<char>>::empty(),
            state@.predecessors == Seq::<Seq<char>>::empty(),
            state@.timestamps == Map::<Seq<char>, Timestamp>::empty(),
            state@.udp_to_tcp == Map::<Seq<char>, Seq<char>>::empty(),
            state@.file_owners == Map::<Seq<char>, Set<Seq<char>>>::empty(),
    {
        let state = NodeState {
            is_joined: false,
            my_id: String::new(),
            my_ip_addr: udp_addr,
            tcp_addr,
            membership_list: Vec::new(),
            successor_list: Vec::new(),
            predecessor_list: Vec::new(),
            predecessor_timestamps: StrMap::new(),
            udp_to_tcp_map: StrMap::new(),
            all_file_owners: StrMap::new(),
        };
        proof {
            assert(state@.membership =~= Seq::<Seq<char>>::empty());
            assert(state@.successors =~= Seq::<Seq<char>>::empty());
            assert(state@.predecessors =~= Seq::<Seq<char>>::empty());
            assert(state@.udp_to_tcp =~= Map::<Seq<char>, Seq<char>>::empty());
            assert(state@.file_owners =~= Map::<Seq<char>, Set<Seq<char>>>::empty());
            assert(state@.predecessors.to_set() =~= Set::<Seq<char>>::empty());
            assert(state@.timestamps.dom() =~= Set::<Seq<char>>::empty());
        }
        state
    }
}

} // verus!

use ringstore::component_manager::startup;
use ringstore::error::NodeError;
use ringstore::heartbeat::{
    check_joined, gen_neighbor_list, insert_node, is_expired, is_joined, is_master, join, leave,
    maintainer, merge_membership_list, merge_tcp_map, recalculate_neighbors, remove_node,
    send_heartbeats, tcp_ips_from_udp_ips,
};
use ringstore::node::NodeState;
use ringstore::operation::{
    Destinations, HeartbeatOperation, JoinOperation, LeaveOperation, MembershipListOperation,
    NewMemberOperation, Operation, Source,
};

fn strings(items: &[&str]) -> Vec<String> {
    items.iter().map(|s| s.to_string()).collect()
}

fn fresh(udp: &str, tcp: &str) -> NodeState {
    startup(udp.to_string(), tcp.to_string())
}

fn udp_dests(dests: &Destinations) -> Vec<String> {
    match dests {
        Destinations::UDPAddr(addrs) => addrs.clone(),
        _ => panic!("not UDP destinations"),
    }
}

fn sorted_and_unique(list: &Vec<String>) -> bool {
    list.windows(2).all(|w| w[0] < w[1])
}

/// A node at `b:1` that has joined at second 10 and knows `a:1|5` and `c:1|7`.
fn node_b_of_three() -> NodeState {
    let mut state = fresh("b:1", "b:4");
    join(&mut state, 10).unwrap();
    insert_node(&mut state, &"c:1|7".to_string()).unwrap();
    insert_node(&mut state, &"a:1|5".to_string()).unwrap();
    recalculate_neighbors(&mut state, 10).unwrap();
    state
}

#[test]
fn a_node_starts_unjoined_and_empty() {
    let state = fresh("a:1", "a:4");
    assert!(!is_joined(&state));
    assert_eq!(check_joined(&state), Err(NodeError::NotJoined));
    assert!(state.membership_list.is_empty());
    assert!(state.successor_list.is_empty());
    assert!(state.predecessor_list.is_empty());
    assert_eq!(state.predecessor_timestamps.len(), 0);
    assert_eq!(state.udp_to_tcp_map.len(), 0);
    assert_eq!(state.my_ip_addr, "a:1");
    assert_eq!(state.tcp_addr, "a:4");
    assert!(!is_master(&state));
}

#[test]
fn empty_membership_has_no_neighbours_to_give() {
    let state = fresh("a:1", "a:4");
    assert_eq!(gen_neighbor_list(&state, true), Err(NodeError::MembershipEmpty));
    assert_eq!(gen_neighbor_list(&state, false), Err(NodeError::MembershipEmpty));
    assert!(NodeError::MembershipEmpty.message().contains("membership list is empty"));
}

#[test]
fn a_node_outside_its_own_list_has_no_neighbours() {
    let mut state = fresh("a:1", "a:4");
    insert_node(&mut state, &"x:1|1".to_string()).unwrap();
    assert_eq!(gen_neighbor_list(&state, true), Err(NodeError::SelfNotMember));
    recalculate_neighbors(&mut state, 3).unwrap();
    assert!(state.successor_list.is_empty());
    assert!(state.predecessor_list.is_empty());
    assert_eq!(state.predecessor_timestamps.len(), 0);
}

#[test]
fn join_makes_an_id_and_a_join_operation() {
    let mut state = fresh("10.0.0.1:9000", "10.0.0.1:9003");
    let item = join(&mut state, 1234).unwrap();
    assert!(is_joined(&state));
    assert_eq!(check_joined(&state), Ok(()));
    assert_eq!(state.my_id, "10.0.0.1:9000|1234");
    assert_eq!(state.membership_list, strings(&["10.0.0.1:9000|1234"]));
    assert_eq!(state.udp_to_tcp_map.get("10.0.0.1:9000"), Some(&"10.0.0.1:9003".to_string()));
    assert!(state.successor_list.is_empty());
    assert!(state.predecessor_list.is_empty());
    assert!(is_master(&state));
    assert_eq!(
        udp_dests(&item.dests),
        strings(&[
            "192.168.10.12:9000",
            "192.168.10.12:9001",
            "192.168.10.12:9002",
            "192.168.10.49:9000"
        ])
    );
    match item.operation {
        Operation::Join(op) => {
            assert_eq!(op.id, "10.0.0.1:9000|1234");
            assert_eq!(op.tcp_addr, "10.0.0.1:9003");
        }
        other => panic!("not a join: {:?}", other),
    }
}

#[test]
fn join_after_join_is_refused() {
    let mut state = fresh("10.0.0.1:9000", "10.0.0.1:9003");
    join(&mut state, 1234).unwrap();
    let second = join(&mut state, 1300);
    assert_eq!(second.err(), Some(NodeError::AlreadyJoined));
    assert_eq!(state.my_id, "10.0.0.1:9000|1234");
    assert_eq!(state.membership_list, strings(&["10.0.0.1:9000|1234"]));
}

#[test]
fn leave_before_join_is_refused() {
    let mut state = fresh("a:1", "a:4");
    assert_eq!(leave(&mut state).err(), Some(NodeError::NotJoined));
}

#[test]
fn leave_tells_the_successors_and_forgets_the_ring() {
    let mut state = node_b_of_three();
    let item = leave(&mut state).unwrap();
    assert_eq!(udp_dests(&item.dests), strings(&["c:1", "a:1"]));
    match item.operation {
        Operation::Leave(op) => assert_eq!(op.id, "b:1|10"),
        other => panic!("not a leave: {:?}", other),
    }
    assert!(!is_joined(&state));
    assert!(state.membership_list.is_empty());
    assert!(state.successor_list.is_empty());
    assert!(state.predecessor_list.is_empty());
    assert_eq!(state.predecessor_timestamps.len(), 0);
    // and the node can join again
    join(&mut state, 20).unwrap();
    assert_eq!(state.membership_list, strings(&["b:1|20"]));
}

#[test]
fn insertion_keeps_the_list_sorted_and_without_repetition() {
    let mut state = fresh("a:1", "a:4");
    for id in ["m|1", "c|1", "x|1", "c|1", "a|1", "m|1", "m|0", "z|9", "a|1"] {
        insert_node(&mut state, &id.to_string()).unwrap();
        assert!(sorted_and_unique(&state.membership_list));
    }
    assert_eq!(state.membership_list, strings(&["a|1", "c|1", "m|0", "m|1", "x|1", "z|9"]));
    assert_eq!(remove_node(&mut state, &"m|0".to_string()), Ok(true));
    assert_eq!(remove_node(&mut state, &"m|0".to_string()), Ok(false));
    assert_eq!(remove_node(&mut state, &"q|0".to_string()), Ok(false));
    assert_eq!(state.membership_list, strings(&["a|1", "c|1", "m|1", "x|1", "z|9"]));
}

#[test]
fn an_id_without_separator_is_not_inserted() {
    let mut state = fresh("a:1", "a:4");
    assert_eq!(insert_node(&mut state, &"nobar".to_string()), Err(NodeError::MalformedId));
    assert!(state.membership_list.is_empty());
    insert_node(&mut state, &"a|1".to_string()).unwrap();
    assert_eq!(
        merge_membership_list(&mut state, &strings(&["b|1", "nobar", "c|1"])),
        Err(NodeError::MalformedId)
    );
    assert_eq!(state.membership_list, strings(&["a|1"]));
}

#[test]
fn merging_is_a_union() {
    let mut state = fresh("a:1", "a:4");
    merge_membership_list(&mut state, &strings(&["c|1", "a|1"])).unwrap();
    merge_membership_list(&mut state, &strings(&["b|1", "c|1", "d|1"])).unwrap();
    assert_eq!(state.membership_list, strings(&["a|1", "b|1", "c|1", "d|1"]));
    merge_tcp_map(
        &mut state,
        &vec![
            ("a:1".to_string(), "a:4".to_string()),
            ("b:1".to_string(), "b:4".to_string()),
            ("a:1".to_string(), "a:5".to_string()),
        ],
    )
    .unwrap();
    assert_eq!(state.udp_to_tcp_map.len(), 2);
    assert_eq!(state.udp_to_tcp_map.get("a:1"), Some(&"a:5".to_string()));
    assert_eq!(
        tcp_ips_from_udp_ips(&state, &strings(&["b:1", "a:1", "b:1"])),
        Ok(strings(&["b:4", "a:5", "b:4"]))
    );
    assert_eq!(
        tcp_ips_from_udp_ips(&state, &strings(&["b:1", "zzz"])),
        Err(NodeError::NoTcpAddress)
    );
    assert_eq!(tcp_ips_from_udp_ips(&state, &vec![]), Ok(vec![]));
}

#[test]
fn neighbours_and_timestamps_follow_the_membership() {
    let state = node_b_of_three();
    assert_eq!(state.membership_list, strings(&["a:1|5", "b:1|10", "c:1|7"]));
    assert_eq!(state.successor_list, strings(&["c:1|7", "a:1|5"]));
    assert_eq!(state.predecessor_list, strings(&["a:1|5", "c:1|7"]));
    assert_eq!(gen_neighbor_list(&state, true), Ok(strings(&["c:1|7", "a:1|5"])));
    assert_eq!(gen_neighbor_list(&state, false), Ok(strings(&["a:1|5", "c:1|7"])));
    assert_eq!(state.predecessor_timestamps.len(), 2);
    assert_eq!(state.predecessor_timestamps.get("a:1|5"), Some(&10));
    assert_eq!(state.predecessor_timestamps.get("c:1|7"), Some(&10));
    assert!(!is_master(&state));
}

#[test]
fn recalculation_keeps_old_stamps_and_drops_stale_ones() {
    let mut state = node_b_of_three();
    for id in ["d:1|1", "e:1|1"] {
        insert_node(&mut state, &id.to_string()).unwrap();
    }
    // ring is a, b, c, d, e: predecessors of b are a and e
    recalculate_neighbors(&mut state, 50).unwrap();
    assert_eq!(state.predecessor_list, strings(&["a:1|5", "e:1|1"]));
    assert_eq!(state.successor_list, strings(&["c:1|7", "d:1|1"]));
    assert_eq!(state.predecessor_timestamps.len(), 2);
    assert_eq!(state.predecessor_timestamps.get("a:1|5"), Some(&10));
    assert_eq!(state.predecessor_timestamps.get("e:1|1"), Some(&50));
    assert_eq!(state.predecessor_timestamps.get("c:1|7"), None);
    // a second recalculation changes nothing
    recalculate_neighbors(&mut state, 99).unwrap();
    assert_eq!(state.predecessor_timestamps.get("e:1|1"), Some(&50));
}

#[test]
fn expiry_is_strictly_more_than_three_seconds() {
    let state = node_b_of_three();
    let a = "a:1|5".to_string();
    assert_eq!(is_expired(&state, &a, 10), Ok(false));
    assert_eq!(is_expired(&state, &a, 13), Ok(false));
    assert_eq!(is_expired(&state, &a, 14), Ok(true));
    assert_eq!(is_expired(&state, &a, u64::MAX), Ok(true));
    assert_eq!(is_expired(&state, &a, 9), Err(NodeError::FutureTimestamp));
    assert_eq!(is_expired(&state, &"b:1|10".to_string(), 10), Err(NodeError::NotPredecessor));
    assert_eq!(is_expired(&state, &"q|1".to_string(), 10), Err(NodeError::NotPredecessor));
}

#[test]
fn heartbeat_must_come_from_its_own_address() {
    let mut state = node_b_of_three();
    let hb = HeartbeatOperation { id: "a:1|5".to_string() };
    let forged = hb.execute(&mut state, &Source::Addr("x:1".to_string()), 12);
    assert_eq!(forged.err(), Some(NodeError::SuspiciousHeartbeat));
    assert_eq!(state.predecessor_timestamps.get("a:1|5"), Some(&10));
    let by_stream = hb.execute(&mut state, &Source::TcpStream(3), 12);
    assert_eq!(by_stream.err(), Some(NodeError::NotAnAddress));
    let bare = HeartbeatOperation { id: "a:1".to_string() };
    let malformed = bare.execute(&mut state, &Source::Addr("a:1".to_string()), 12);
    assert_eq!(malformed.err(), Some(NodeError::MalformedId));
    let good = hb.execute(&mut state, &Source::Addr("a:1".to_string()), 12).unwrap();
    assert!(good.operations.is_empty() && good.actions.is_empty());
    assert_eq!(state.predecessor_timestamps.get("a:1|5"), Some(&12));
    assert_eq!(state.predecessor_timestamps.get("c:1|7"), Some(&10));
}

#[test]
fn heartbeat_of_a_stranger_is_dropped_silently() {
    let mut state = node_b_of_three();
    let hb = HeartbeatOperation { id: "z:1|1".to_string() };
    let out = hb.execute(&mut state, &Source::Addr("z:1".to_string()), 12).unwrap();
    assert!(out.operations.is_empty());
    assert_eq!(state.predecessor_timestamps.len(), 2);
    assert_eq!(state.predecessor_timestamps.get("z:1|1"), None);
}

#[test]
fn own_heartbeat_goes_to_the_successors() {
    let state = node_b_of_three();
    let item = send_heartbeats(&state);
    assert_eq!(udp_dests(&item.dests), strings(&["c:1", "a:1"]));
    match item.operation {
        Operation::Heartbeat(op) => assert_eq!(op.id, "b:1|10"),
        other => panic!("not a heartbeat: {:?}", other),
    }
}

#[test]
fn receiving_join_announces_and_sends_a_snapshot() {
    let mut state = node_b_of_three();
    let op = JoinOperation { id: "d:1|20".to_string(), tcp_addr: "d:4".to_string() };
    let out = op.execute(&mut state, &Source::Addr("d:1".to_string()), 21).unwrap();
    assert_eq!(state.membership_list, strings(&["a:1|5", "b:1|10", "c:1|7", "d:1|20"]));
    assert_eq!(state.udp_to_tcp_map.get("d:1"), Some(&"d:4".to_string()));
    assert_eq!(state.successor_list, strings(&["c:1|7", "d:1|20"]));
    assert_eq!(state.predecessor_list, strings(&["a:1|5", "d:1|20"]));
    assert_eq!(state.predecessor_timestamps.get("d:1|20"), Some(&21));
    assert_eq!(state.predecessor_timestamps.get("c:1|7"), None);
    assert!(out.actions.is_empty());
    assert_eq!(out.operations.len(), 2);
    assert_eq!(udp_dests(&out.operations[0].dests), strings(&["a:1", "b:1", "c:1", "d:1"]));
    match &out.operations[0].operation {
        Operation::NewMember(nm) => {
            assert_eq!(nm.id, "d:1|20");
            assert_eq!(nm.tcp_addr, "d:4");
        }
        other => panic!("not a new member: {:?}", other),
    }
    assert_eq!(udp_dests(&out.operations[1].dests), strings(&["d:1"]));
    match &out.operations[1].operation {
        Operation::MembershipList(ml) => {
            assert_eq!(ml.membership_list, state.membership_list);
            let mut pairs = ml.udp_to_tcp_map.clone();
            pairs.sort();
            assert_eq!(
                pairs,
                vec![("b:1".to_string(), "b:4".to_string()), ("d:1".to_string(), "d:4".to_string())]
            );
        }
        other => panic!("not a membership list: {:?}", other),
    }
}

#[test]
fn join_with_a_bad_id_or_over_a_stream_is_refused() {
    let mut state = node_b_of_three();
    let bad = JoinOperation { id: "d:1".to_string(), tcp_addr: "d:4".to_string() };
    let r = bad.execute(&mut state, &Source::Addr("d:1".to_string()), 21);
    assert_eq!(r.err(), Some(NodeError::MalformedId));
    let good = JoinOperation { id: "d:1|1".to_string(), tcp_addr: "d:4".to_string() };
    let r = good.execute(&mut state, &Source::TcpStream(1), 21);
    assert_eq!(r.err(), Some(NodeError::NotAnAddress));
    assert_eq!(state.membership_list.len(), 3);
    assert_eq!(state.udp_to_tcp_map.len(), 1);
}

#[test]
fn new_member_is_entered_under_the_address_of_its_id() {
    let mut state = node_b_of_three();
    let op = NewMemberOperation { id: "d:1|20".to_string(), tcp_addr: "d:4".to_string() };
    let out = op.execute(&mut state, &Source::Addr("a:1".to_string()), 21).unwrap();
    assert!(out.operations.is_empty());
    assert_eq!(state.membership_list, strings(&["a:1|5", "b:1|10", "c:1|7", "d:1|20"]));
    assert_eq!(state.udp_to_tcp_map.get("d:1"), Some(&"d:4".to_string()));
    assert_eq!(state.udp_to_tcp_map.get("a:1"), None);
    let bad = NewMemberOperation { id: "e".to_string(), tcp_addr: "e:4".to_string() };
    let r = bad.execute(&mut state, &Source::Addr("a:1".to_string()), 21);
    assert_eq!(r.err(), Some(NodeError::MalformedId));
}

#[test]
fn snapshot_is_merged() {
    let mut state = fresh("b:1", "b:4");
    join(&mut state, 10).unwrap();
    let op = MembershipListOperation {
        membership_list: strings(&["a:1|5", "b:1|10", "c:1|7"]),
        udp_to_tcp_map: vec![
            ("a:1".to_string(), "a:4".to_string()),
            ("c:1".to_string(), "c:4".to_string()),
        ],
    };
    let out = op.execute(&mut state, &Source::Addr("a:1".to_string()), 11).unwrap();
    assert!(out.operations.is_empty());
    assert_eq!(state.membership_list, strings(&["a:1|5", "b:1|10", "c:1|7"]));
    assert_eq!(state.udp_to_tcp_map.len(), 3);
    assert_eq!(state.successor_list, strings(&["c:1|7", "a:1|5"]));
    let bad = MembershipListOperation {
        membership_list: strings(&["z:1|5", "oops"]),
        udp_to_tcp_map: vec![("z:1".to_string(), "z:4".to_string())],
    };
    let r = bad.execute(&mut state, &Source::Addr("a:1".to_string()), 11);
    assert_eq!(r.err(), Some(NodeError::MalformedId));
    assert_eq!(state.membership_list.len(), 3);
    assert_eq!(state.udp_to_tcp_map.len(), 3);
}

#[test]
fn leave_is_forwarded_once() {
    let mut state = node_b_of_three();
    merge_tcp_map(&mut state, &vec![("c:1".to_string(), "c:4".to_string())]).unwrap();
    let op = LeaveOperation { id: "c:1|7".to_string() };
    let first = op.execute(&mut state, &Source::Addr("a:1".to_string()), 30).unwrap();
    assert_eq!(first.operations.len(), 1);
    assert_eq!(udp_dests(&first.operations[0].dests), strings(&["c:1", "a:1"]));
    match &first.operations[0].operation {
        Operation::Leave(l) => assert_eq!(l.id, "c:1|7"),
        other => panic!("not a leave: {:?}", other),
    }
    assert_eq!(state.membership_list, strings(&["a:1|5", "b:1|10"]));
    assert_eq!(state.udp_to_tcp_map.get("c:1"), None);
    assert_eq!(state.udp_to_tcp_map.get("b:1"), Some(&"b:4".to_string()));
    assert_eq!(state.successor_list, strings(&["a:1|5"]));
    assert_eq!(state.predecessor_list, strings(&["a:1|5"]));
    assert_eq!(state.predecessor_timestamps.get("c:1|7"), None);
    let second = op.execute(&mut state, &Source::Addr("a:1".to_string()), 31).unwrap();
    assert!(second.operations.is_empty());
    assert_eq!(state.membership_list, strings(&["a:1|5", "b:1|10"]));
}

#[test]
fn leave_of_oneself_from_afar_empties_the_neighbour_lists() {
    let mut state = node_b_of_three();
    let op = LeaveOperation { id: "b:1|10".to_string() };
    let out = op.execute(&mut state, &Source::Addr("a:1".to_string()), 30).unwrap();
    assert_eq!(out.operations.len(), 1);
    assert_eq!(state.membership_list, strings(&["a:1|5", "c:1|7"]));
    assert!(state.successor_list.is_empty());
    assert!(state.predecessor_list.is_empty());
    assert_eq!(state.predecessor_timestamps.len(), 0);
    assert!(is_joined(&state));
}

#[test]
fn the_same_operation_twice_is_the_operation_once() {
    let mut once = node_b_of_three();
    let mut twice = node_b_of_three();
    let source = Source::Addr("d:1".to_string());
    let ops = vec![
        Operation::Join(JoinOperation { id: "d:1|20".to_string(), tcp_addr: "d:4".to_string() }),
        Operation::NewMember(NewMemberOperation {
            id: "e:1|20".to_string(),
            tcp_addr: "e:4".to_string(),
        }),
        Operation::Leave(LeaveOperation { id: "a:1|5".to_string() }),
    ];
    let mut now = 40;
    for op in ops.iter() {
        op.execute(&mut once, &source, now).unwrap();
        op.execute(&mut twice, &source, now).unwrap();
        op.execute(&mut twice, &source, now + 100).unwrap();
        now += 1;
        assert_eq!(once.membership_list, twice.membership_list);
        assert_eq!(once.successor_list, twice.successor_list);
        assert_eq!(once.predecessor_list, twice.predecessor_list);
        assert_eq!(once.udp_to_tcp_map.len(), twice.udp_to_tcp_map.len());
        for id in once.predecessor_list.iter() {
            assert_eq!(
                once.predecessor_timestamps.get(id),
                twice.predecessor_timestamps.get(id)
            );
        }
        assert_eq!(once.predecessor_timestamps.len(), twice.predecessor_timestamps.len());
    }
}

#[test]
fn maintainer_of_an_unjoined_node_does_nothing() {
    let mut state = fresh("a:1", "a:4");
    let out = maintainer(&mut state, 1000).unwrap();
    assert!(out.operations.is_empty() && out.actions.is_empty());
}

#[test]
fn maintainer_removes_the_silent_and_tells_the_successors() {
    let mut state = node_b_of_three();
    HeartbeatOperation { id: "a:1|5".to_string() }
        .execute(&mut state, &Source::Addr("a:1".to_string()), 13)
        .unwrap();
    let quiet = maintainer(&mut state, 13).unwrap();
    assert!(quiet.operations.is_empty());
    assert_eq!(state.membership_list.len(), 3);
    let out = maintainer(&mut state, 14).unwrap();
    assert_eq!(out.operations.len(), 1);
    assert_eq!(udp_dests(&out.operations[0].dests), strings(&["c:1", "a:1"]));
    match &out.operations[0].operation {
        Operation::Leave(l) => assert_eq!(l.id, "c:1|7"),
        other => panic!("not a leave: {:?}", other),
    }
    assert_eq!(state.membership_list, strings(&["a:1|5", "b:1|10"]));
    assert_eq!(state.predecessor_list, strings(&["a:1|5"]));
    assert_eq!(state.predecessor_timestamps.len(), 1);
    assert_eq!(state.predecessor_timestamps.get("a:1|5"), Some(&13));
}

#[test]
fn maintainer_surfaces_a_timestamp_from_the_future() {
    let mut state = node_b_of_three();
    let r = maintainer(&mut state, 9);
    assert_eq!(r.err(), Some(NodeError::FutureTimestamp));
    assert_eq!(state.membership_list.len(), 3);
}

#[test]
fn maintainer_can_lose_both_predecessors_at_once() {
    let mut state = node_b_of_three();
    let out = maintainer(&mut state, 100).unwrap();
    assert_eq!(out.operations.len(), 2);
    match (&out.operations[0].operation, &out.operations[1].operation) {
        (Operation::Leave(x), Operation::Leave(y)) => {
            assert_eq!(x.id, "a:1|5");
            assert_eq!(y.id, "c:1|7");
        }
        other => panic!("not two leaves: {:?}", other),
    }
    assert_eq!(state.membership_list, strings(&["b:1|10"]));
    assert!(state.successor_list.is_empty());
    assert!(state.predecessor_list.is_empty());
    assert_eq!(state.predecessor_timestamps.len(), 0);
    assert!(is_master(&state));
}

use ringstore::component_manager::startup;
use ringstore::error::NodeError;
use ringstore::filesystem::put;
use ringstore::heartbeat::{address_pairs, all_valid_ids, join};
use ringstore::operation::{
    clone_bytes, clone_pairs, Action, Destinations, GetOperation, HeartbeatOperation,
    LeaveOperation, LostFilesOperation, MembershipListOperation, NewFileOwnersOperation,
    OpTag, Operation, Outcome, SendFileOperation, SendableOperation, Source,
};
use ringstore::table::StrMap;

fn strings(items: &[&str]) -> Vec<String> {
    items.iter().map(|s| s.to_string()).collect()
}

#[test]
fn a_source_is_an_address_or_a_stream() {
    assert_eq!(Source::Addr("a:1".to_string()).into_addr(), Ok("a:1".to_string()));
    assert_eq!(Source::TcpStream(4).into_addr(), Err(NodeError::NotAnAddress));
    assert_eq!(Source::TcpStream(4).into_stream(), Ok(4));
    assert_eq!(Source::Addr("a:1".to_string()).into_stream(), Err(NodeError::NotAStream));
}

#[test]
fn queue_items_name_their_destinations() {
    let hb = || Operation::Heartbeat(HeartbeatOperation { id: "a:1|2".to_string() });
    match SendableOperation::for_id_list(strings(&["b:1|3", "c:1|4"]), hb()).dests {
        Destinations::UDPAddr(addrs) => assert_eq!(addrs, strings(&["b:1", "c:1"])),
        other => panic!("not UDP: {:?}", other),
    }
    match SendableOperation::for_single("b:1|3".to_string(), hb()).dests {
        Destinations::UDPAddr(addrs) => assert_eq!(addrs, strings(&["b:1"])),
        other => panic!("not UDP: {:?}", other),
    }
    match SendableOperation::for_tcp_stream_list(vec![3, 1, 2], hb()).dests {
        Destinations::TCPStream(streams) => assert_eq!(streams, vec![3, 1, 2]),
        other => panic!("not streams: {:?}", other),
    }
    match SendableOperation::for_single_tcp_stream(9, hb()).dests {
        Destinations::TCPStream(streams) => assert_eq!(streams, vec![9]),
        other => panic!("not streams: {:?}", other),
    }
    let mut state = startup("a:1".to_string(), "a:4".to_string());
    join(&mut state, 2).unwrap();
    match SendableOperation::for_everyone(&state, hb()).dests {
        Destinations::UDPAddr(addrs) => assert_eq!(addrs, strings(&["a:1"])),
        other => panic!("not UDP: {:?}", other),
    }
    match SendableOperation::for_successors(&state, hb()).dests {
        Destinations::UDPAddr(addrs) => assert!(addrs.is_empty()),
        other => panic!("not UDP: {:?}", other),
    }
    match SendableOperation::for_owners(&state, &"f".to_string(), hb()).dests {
        Destinations::UDPAddr(addrs) => assert!(addrs.is_empty()),
        other => panic!("not UDP: {:?}", other),
    }
}

#[test]
fn copies_are_equal_to_what_they_copy() {
    let ops = vec![
        Operation::Heartbeat(HeartbeatOperation { id: "a|1".to_string() }),
        Operation::Leave(LeaveOperation { id: "a|1".to_string() }),
        Operation::MembershipList(MembershipListOperation {
            membership_list: strings(&["a|1", "b|2"]),
            udp_to_tcp_map: vec![("a".to_string(), "x".to_string())],
        }),
        Operation::Get(GetOperation {
            distributed_filename: "f".to_string(),
            local_path: "p".to_string(),
        }),
        Operation::NewFileOwners(NewFileOwnersOperation {
            distributed_filename: "f".to_string(),
            new_owners: strings(&["b|2", "a|1"]),
            from_failure: true,
        }),
        Operation::SendFile(SendFileOperation {
            filename: "f".to_string(),
            data: vec![0, 255, 7],
            is_distributed: true,
        }),
        Operation::LostFiles(LostFilesOperation {
            failed_owner: "a|1".to_string(),
            lost_files: strings(&["f", "g"]),
        }),
    ];
    for op in ops {
        let item = SendableOperation::for_id_list(strings(&["x:1|1"]), op);
        let copy = item.duplicate();
        assert_eq!(format!("{:?}", copy), format!("{:?}", item));
        assert_eq!(copy.operation.tag(), item.operation.tag());
    }
    let streams = SendableOperation::for_tcp_stream_list(
        vec![5, 6],
        Operation::Leave(LeaveOperation { id: "a|1".to_string() }),
    );
    assert_eq!(format!("{:?}", streams.duplicate()), format!("{:?}", streams));
    assert_eq!(clone_bytes(&vec![1, 2, 3]), vec![1, 2, 3]);
    let pairs = vec![("a".to_string(), "b".to_string()), ("c".to_string(), "d".to_string())];
    assert_eq!(clone_pairs(&pairs), pairs);
}

#[test]
fn every_operation_has_its_tag() {
    let op = Operation::NewFileOwners(NewFileOwnersOperation {
        distributed_filename: "f".to_string(),
        new_owners: vec![],
        from_failure: false,
    });
    assert_eq!(op.tag(), OpTag::NewFileOwners);
    let op = Operation::LostFiles(LostFilesOperation {
        failed_owner: "a|1".to_string(),
        lost_files: vec![],
    });
    assert_eq!(op.tag(), OpTag::LostFiles);
    let op = Operation::SendFile(SendFileOperation {
        filename: "f".to_string(),
        data: vec![],
        is_distributed: false,
    });
    assert_eq!(op.tag(), OpTag::SendFile);
}

#[test]
fn outcomes_are_appended_in_order() {
    let leave = |id: &str| {
        SendableOperation::for_single(
            "x:1|1".to_string(),
            Operation::Leave(LeaveOperation { id: id.to_string() }),
        )
    };
    let mut first = Outcome::send(leave("a|1"));
    let mut second = Outcome::send(leave("b|1"));
    second.actions.push(Action::WriteFile { path: "p".to_string(), data: vec![1] });
    first.append(second);
    assert_eq!(first.operations.len(), 2);
    assert_eq!(first.actions.len(), 1);
    match (&first.operations[0].operation, &first.operations[1].operation) {
        (Operation::Leave(x), Operation::Leave(y)) => {
            assert_eq!(x.id, "a|1");
            assert_eq!(y.id, "b|1");
        }
        other => panic!("not two leaves: {:?}", other),
    }
    let nothing = Outcome::nothing();
    assert!(nothing.operations.is_empty() && nothing.actions.is_empty());
}

#[test]
fn validity_of_lists() {
    assert!(all_valid_ids(&vec![]));
    assert!(all_valid_ids(&strings(&["a|1", "|"])));
    assert!(!all_valid_ids(&strings(&["a|1", "b"])));
}

#[test]
fn the_address_map_is_listed_pair_by_pair() {
    let mut map: StrMap<String> = StrMap::new();
    map.insert("a:1".to_string(), "a:4".to_string());
    map.insert("b:1".to_string(), "b:4".to_string());
    map.insert("a:1".to_string(), "a:5".to_string());
    let mut pairs = address_pairs(&map);
    pairs.sort();
    assert_eq!(
        pairs,
        vec![("a:1".to_string(), "a:5".to_string()), ("b:1".to_string(), "b:4".to_string())]
    );
}

#[test]
fn put_on_an_emptied_ring_finds_no_owner() {
    let mut state = startup("a:1".to_string(), "a:4".to_string());
    join(&mut state, 2).unwrap();
    let leave = LeaveOperation { id: "a:1|2".to_string() };
    leave.execute(&mut state, &Source::Addr("b:1".to_string()), 3).unwrap();
    assert!(state.is_joined);
    assert!(state.membership_list.is_empty());
    assert_eq!(put(&state, &strings(&["p", "f"])).err(), Some(NodeError::MembershipEmpty));
}

#[test]
fn every_error_has_a_text_of_its_own() {
    let all = vec![
        NodeError::NotJoined,
        NodeError::AlreadyJoined,
        NodeError::MembershipEmpty,
        NodeError::SelfNotMember,
        NodeError::MalformedId,
        NodeError::SuspiciousHeartbeat,
        NodeError::FutureTimestamp,
        NodeError::NotPredecessor,
        NodeError::TruncatedFrame,
        NodeError::UnrecognizedHeader,
        NodeError::LengthMismatch,
        NodeError::FrameTooLarge,
        NodeError::NoTcpAddress,
        NodeError::WrongDestinations,
        NodeError::NotAnAddress,
        NodeError::NotAStream,
        NodeError::NoOwnerFound,
        NodeError::NoNewOwners,
        NodeError::NoOwnersReached,
        NodeError::NoCommand,
        NodeError::UsageGet,
        NodeError::UsagePut,
        NodeError::UsageLs,
        NodeError::ListingOverSpecified,
        NodeError::ListingUnderSpecified,
        NodeError::NoLocalAddress,
        NodeError::ClockBeforeEpoch,
    ];
    let texts: Vec<String> = all.iter().map(|e| e.message()).collect();
    for (i, a) in texts.iter().enumerate() {
        assert!(!a.is_empty());
        for b in texts.iter().skip(i + 1) {
            assert_ne!(a, b);
        }
    }
}

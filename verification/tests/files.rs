use ringstore::component_manager::startup;
use ringstore::error::NodeError;
use ringstore::filesystem::{
    distributed_file_path, first_reply_stream, gen_file_owners, gen_new_file_owner, get,
    get_distributed_file, handle_connection, handle_failed_node, lost_files_of, ls,
    print_file_owners, put, send_file_to_all, Listing,
};
use ringstore::heartbeat::{insert_node, join, recalculate_neighbors};
use ringstore::node::NodeState;
use ringstore::operation::{
    Action, Destinations, GetOperation, LostFilesOperation, NewFileOwnersOperation, Operation,
    SendFileOperation, Source, TcpTargets,
};
use ringstore::table::StrSet;

fn strings(items: &[&str]) -> Vec<String> {
    items.iter().map(|s| s.to_string()).collect()
}

fn udp_dests(dests: &Destinations) -> Vec<String> {
    match dests {
        Destinations::UDPAddr(addrs) => addrs.clone(),
        _ => panic!("not UDP destinations"),
    }
}

fn sorted(mut list: Vec<String>) -> Vec<String> {
    list.sort();
    list
}

fn owners(state: &NodeState, file: &str) -> Option<Vec<String>> {
    state.all_file_owners.get(file).map(|s| sorted(s.members()))
}

/// Node `a:1|5` of the ring a, b, c, joined at second 5.
fn node_a_of_three() -> NodeState {
    let mut state = startup("a:1".to_string(), "a:4".to_string());
    join(&mut state, 5).unwrap();
    insert_node(&mut state, &"b:1|6".to_string()).unwrap();
    insert_node(&mut state, &"c:1|7".to_string()).unwrap();
    recalculate_neighbors(&mut state, 7).unwrap();
    state
}

fn announce(state: &mut NodeState, file: &str, new_owners: &[&str], from_failure: bool) {
    let op = NewFileOwnersOperation {
        distributed_filename: file.to_string(),
        new_owners: strings(new_owners),
        from_failure,
    };
    op.execute(state, &Source::TcpStream(0), 8).unwrap();
}

#[test]
fn stored_files_lie_in_the_data_directory() {
    assert_eq!(distributed_file_path(&"f1".to_string()), "data/f1");
    assert_eq!(distributed_file_path(&"".to_string()), "data/");
    assert_eq!(distributed_file_path(&"a/b.txt".to_string()), "data/a/b.txt");
}

#[test]
fn owners_start_at_the_hash_of_the_name() {
    let state = node_a_of_three();
    // the hash of "f1" is 1 modulo 3, that of "f3" is 0, that of "x" is 2
    assert_eq!(gen_file_owners(&state, "f1"), Ok(strings(&["b:1|6", "c:1|7"])));
    assert_eq!(gen_file_owners(&state, "f3"), Ok(strings(&["a:1|5", "b:1|6"])));
    assert_eq!(gen_file_owners(&state, "x"), Ok(strings(&["c:1|7", "a:1|5"])));
}

#[test]
fn with_one_member_that_member_owns_everything() {
    let mut state = startup("a:1".to_string(), "a:4".to_string());
    join(&mut state, 5).unwrap();
    for name in ["f1", "f2", "f3", "x", "", "notes.txt"] {
        assert_eq!(gen_file_owners(&state, name), Ok(strings(&["a:1|5"])));
    }
}

#[test]
fn without_members_nobody_can_own_a_file() {
    let state = startup("a:1".to_string(), "a:4".to_string());
    assert_eq!(gen_file_owners(&state, "f1"), Err(NodeError::MembershipEmpty));
}

#[test]
fn announcement_adds_owners_and_goes_on_once() {
    let mut state = node_a_of_three();
    let op = NewFileOwnersOperation {
        distributed_filename: "f1".to_string(),
        new_owners: strings(&["b:1|6", "c:1|7"]),
        from_failure: false,
    };
    let first = op.execute(&mut state, &Source::TcpStream(0), 8).unwrap();
    assert_eq!(owners(&state, "f1"), Some(strings(&["b:1|6", "c:1|7"])));
    assert!(first.actions.is_empty());
    assert_eq!(first.operations.len(), 1);
    assert_eq!(udp_dests(&first.operations[0].dests), strings(&["b:1", "c:1"]));
    match &first.operations[0].operation {
        Operation::NewFileOwners(n) => {
            assert_eq!(n.distributed_filename, "f1");
            assert_eq!(n.new_owners, strings(&["b:1|6", "c:1|7"]));
            assert!(!n.from_failure);
        }
        other => panic!("not an announcement: {:?}", other),
    }
    let second = op.execute(&mut state, &Source::TcpStream(0), 9).unwrap();
    assert!(second.operations.is_empty() && second.actions.is_empty());
    assert_eq!(owners(&state, "f1"), Some(strings(&["b:1|6", "c:1|7"])));
}

#[test]
fn announcement_of_known_owners_leaves_an_unknown_file_unknown() {
    let mut state = node_a_of_three();
    let op = NewFileOwnersOperation {
        distributed_filename: "f9".to_string(),
        new_owners: vec![],
        from_failure: true,
    };
    let out = op.execute(&mut state, &Source::TcpStream(0), 8).unwrap();
    assert!(out.operations.is_empty());
    assert_eq!(owners(&state, "f9"), None);
}

#[test]
fn announcement_is_a_union() {
    let mut state = node_a_of_three();
    announce(&mut state, "f1", &["b:1|6"], false);
    announce(&mut state, "f1", &["c:1|7", "b:1|6"], false);
    assert_eq!(owners(&state, "f1"), Some(strings(&["b:1|6", "c:1|7"])));
}

#[test]
fn a_new_owner_after_a_failure_fetches_the_file() {
    let mut state = node_a_of_three();
    announce(&mut state, "f1", &["b:1|6"], false);
    let op = NewFileOwnersOperation {
        distributed_filename: "f1".to_string(),
        new_owners: strings(&["a:1|5"]),
        from_failure: true,
    };
    let out = op.execute(&mut state, &Source::TcpStream(0), 8).unwrap();
    assert_eq!(out.operations.len(), 1);
    assert_eq!(out.actions.len(), 1);
    match &out.actions[0] {
        Action::FetchFile { distributed_filename, local_path } => {
            assert_eq!(distributed_filename, "f1");
            assert_eq!(local_path, "data/f1");
        }
        other => panic!("not a fetch: {:?}", other),
    }
    // without a failure nothing is fetched
    let mut other = node_a_of_three();
    let calm = NewFileOwnersOperation {
        distributed_filename: "f1".to_string(),
        new_owners: strings(&["a:1|5"]),
        from_failure: false,
    };
    let out = calm.execute(&mut other, &Source::TcpStream(0), 8).unwrap();
    assert!(out.actions.is_empty());
    // nor by a node that does not become an owner
    let mut third = node_a_of_three();
    let far = NewFileOwnersOperation {
        distributed_filename: "f1".to_string(),
        new_owners: strings(&["b:1|6"]),
        from_failure: true,
    };
    let out = far.execute(&mut third, &Source::TcpStream(0), 8).unwrap();
    assert!(out.actions.is_empty());
}

#[test]
fn announcement_with_a_bad_id_is_refused() {
    let mut state = node_a_of_three();
    let op = NewFileOwnersOperation {
        distributed_filename: "f1".to_string(),
        new_owners: strings(&["b:1|6", "nobar"]),
        from_failure: false,
    };
    let r = op.execute(&mut state, &Source::TcpStream(0), 8);
    assert_eq!(r.err(), Some(NodeError::MalformedId));
    assert_eq!(owners(&state, "f1"), None);
}

#[test]
fn lost_files_strike_the_failed_owner() {
    let mut state = node_a_of_three();
    announce(&mut state, "f1", &["b:1|6", "c:1|7"], false);
    announce(&mut state, "f2", &["c:1|7", "a:1|5"], false);
    announce(&mut state, "f3", &["a:1|5", "b:1|6"], false);
    let op = LostFilesOperation {
        failed_owner: "c:1|7".to_string(),
        lost_files: strings(&["f1", "f3", "f7", "f1"]),
    };
    let first = op.execute(&mut state, &Source::TcpStream(0), 9).unwrap();
    assert_eq!(owners(&state, "f1"), Some(strings(&["b:1|6"])));
    assert_eq!(owners(&state, "f2"), Some(strings(&["a:1|5", "c:1|7"])));
    assert_eq!(owners(&state, "f3"), Some(strings(&["a:1|5", "b:1|6"])));
    assert_eq!(owners(&state, "f7"), None);
    assert_eq!(first.operations.len(), 1);
    assert_eq!(udp_dests(&first.operations[0].dests), strings(&["b:1", "c:1"]));
    match &first.operations[0].operation {
        Operation::LostFiles(l) => {
            assert_eq!(l.failed_owner, "c:1|7");
            assert_eq!(l.lost_files, strings(&["f1", "f3", "f7", "f1"]));
        }
        other => panic!("not lost files: {:?}", other),
    }
    let second = op.execute(&mut state, &Source::TcpStream(0), 9).unwrap();
    assert!(second.operations.is_empty());
}

#[test]
fn a_new_owner_is_the_first_candidate_that_owns_nothing_yet() {
    let mut state = node_a_of_three();
    assert_eq!(gen_new_file_owner(&state, "f1"), Err(NodeError::NoOwnerFound));
    announce(&mut state, "f1", &["b:1|6"], false);
    assert_eq!(gen_new_file_owner(&state, "f1"), Ok("c:1|7".to_string()));
    announce(&mut state, "f1", &["c:1|7"], false);
    assert_eq!(gen_new_file_owner(&state, "f1"), Err(NodeError::NoNewOwners));
    announce(&mut state, "x", &["b:1|6"], false);
    assert_eq!(gen_new_file_owner(&state, "x"), Ok("c:1|7".to_string()));
    announce(&mut state, "x", &["c:1|7"], false);
    assert_eq!(gen_new_file_owner(&state, "x"), Ok("a:1|5".to_string()));
}

#[test]
fn get_asks_for_a_reply_on_the_same_stream() {
    let mut state = node_a_of_three();
    let op = GetOperation { distributed_filename: "f1".to_string(), local_path: "/tmp/y".to_string() };
    let out = op.execute(&mut state, &Source::TcpStream(17), 9).unwrap();
    assert!(out.operations.is_empty());
    assert_eq!(out.actions.len(), 1);
    match &out.actions[0] {
        Action::ReplyWithFile { stream, path, reply_filename } => {
            assert_eq!(*stream, 17);
            assert_eq!(path, "data/f1");
            assert_eq!(reply_filename, "/tmp/y");
        }
        other => panic!("not a reply: {:?}", other),
    }
    let reply = op.reply(17, vec![1, 2, 3]);
    match reply.dests {
        Destinations::TCPStream(streams) => assert_eq!(streams, vec![17]),
        other => panic!("not a stream: {:?}", other),
    }
    match reply.operation {
        Operation::SendFile(f) => {
            assert_eq!(f.filename, "/tmp/y");
            assert_eq!(f.data, vec![1, 2, 3]);
            assert!(!f.is_distributed);
        }
        other => panic!("not a file: {:?}", other),
    }
    let r = op.execute(&mut state, &Source::Addr("b:1".to_string()), 9);
    assert_eq!(r.err(), Some(NodeError::NotAStream));
}

#[test]
fn file_contents_are_written_byte_for_byte() {
    let mut state = node_a_of_three();
    let data: Vec<u8> = (0..=255u8).collect();
    for (is_distributed, expected) in [(true, "data/f1"), (false, "f1")] {
        let op = SendFileOperation { filename: "f1".to_string(), data: data.clone(), is_distributed };
        let out = op.execute(&mut state, &Source::TcpStream(1), 9).unwrap();
        assert!(out.operations.is_empty());
        assert_eq!(out.actions.len(), 1);
        match &out.actions[0] {
            Action::WriteFile { path, data: written } => {
                assert_eq!(path, expected);
                assert_eq!(written, &data);
            }
            other => panic!("not a write: {:?}", other),
        }
    }
}

#[test]
fn put_plans_announcement_and_transfer() {
    let state = node_a_of_three();
    let plan = put(&state, &strings(&["/tmp/x", "f1"])).unwrap();
    assert_eq!(plan.local_path, "/tmp/x");
    assert_eq!(plan.distributed_filename, "f1");
    assert_eq!(plan.dest_ids, strings(&["b:1|6", "c:1|7"]));
    assert_eq!(udp_dests(&plan.announcement.dests), strings(&["b:1", "c:1"]));
    match &plan.announcement.operation {
        Operation::NewFileOwners(n) => {
            assert_eq!(n.distributed_filename, "f1");
            assert_eq!(n.new_owners, strings(&["b:1|6", "c:1|7"]));
            assert!(!n.from_failure);
        }
        other => panic!("not an announcement: {:?}", other),
    }
    let item = send_file_to_all(vec![9, 8, 7], plan.distributed_filename, &plan.dest_ids);
    assert_eq!(udp_dests(&item.dests), strings(&["b:1", "c:1"]));
    match item.operation {
        Operation::SendFile(f) => {
            assert_eq!(f.filename, "f1");
            assert_eq!(f.data, vec![9, 8, 7]);
            assert!(f.is_distributed);
        }
        other => panic!("not a file: {:?}", other),
    }
}

#[test]
fn commands_are_refused_before_join_and_on_wrong_usage() {
    let idle = startup("a:1".to_string(), "a:4".to_string());
    assert_eq!(put(&idle, &strings(&["x", "f"])).err(), Some(NodeError::NotJoined));
    assert_eq!(get(&idle, &strings(&["f", "x"])).err(), Some(NodeError::NotJoined));
    assert_eq!(ls(&idle, &vec![]).err(), Some(NodeError::NotJoined));
    let state = node_a_of_three();
    assert_eq!(put(&state, &strings(&["x"])).err(), Some(NodeError::UsagePut));
    assert_eq!(put(&state, &strings(&["x", "f", "g"])).err(), Some(NodeError::UsagePut));
    assert_eq!(get(&state, &vec![]).err(), Some(NodeError::UsageGet));
    assert_eq!(get(&state, &strings(&["f"])).err(), Some(NodeError::UsageGet));
    assert_eq!(ls(&state, &strings(&["f", "g"])).err(), Some(NodeError::UsageLs));
    assert_eq!(
        print_file_owners(&state, Some("f"), true).err(),
        Some(NodeError::ListingOverSpecified)
    );
    assert_eq!(
        print_file_owners(&state, None, false).err(),
        Some(NodeError::ListingUnderSpecified)
    );
}

#[test]
fn get_goes_to_the_known_owners() {
    let mut state = node_a_of_three();
    announce(&mut state, "f1", &["b:1|6", "c:1|7"], false);
    let item = get(&state, &strings(&["f1", "/tmp/y"])).unwrap();
    assert_eq!(udp_dests(&item.dests), strings(&["b:1", "c:1"]));
    match &item.operation {
        Operation::Get(g) => {
            assert_eq!(g.distributed_filename, "f1");
            assert_eq!(g.local_path, "/tmp/y");
        }
        other => panic!("not a get: {:?}", other),
    }
    let unknown = get(&state, &strings(&["nope", "/tmp/y"])).unwrap();
    assert_eq!(udp_dests(&unknown.dests), Vec::<String>::new());
    let own = get_distributed_file(&state, &"f1".to_string());
    match &own.operation {
        Operation::Get(g) => assert_eq!(g.local_path, "data/f1"),
        other => panic!("not a get: {:?}", other),
    }
    assert_eq!(first_reply_stream(&vec![]), Err(NodeError::NoOwnersReached));
    assert_eq!(first_reply_stream(&vec![4, 5]), Ok(4));
}

#[test]
fn listing_shows_owners() {
    let mut state = node_a_of_three();
    announce(&mut state, "f1", &["b:1|6", "c:1|7"], false);
    announce(&mut state, "f2", &["a:1|5"], false);
    match ls(&state, &strings(&["f1"])).unwrap() {
        Listing::Owners(list) => assert_eq!(sorted(list), strings(&["b:1|6", "c:1|7"])),
        other => panic!("not owners: {:?}", other),
    }
    match ls(&state, &strings(&["nope"])).unwrap() {
        Listing::Owners(list) => assert!(list.is_empty()),
        other => panic!("not owners: {:?}", other),
    }
    match ls(&state, &vec![]).unwrap() {
        Listing::Everything(mut entries) => {
            entries.sort();
            assert_eq!(
                entries,
                vec![
                    ("f1".to_string(), strings(&["b:1|6", "c:1|7"])),
                    ("f2".to_string(), strings(&["a:1|5"])),
                ]
            );
        }
        other => panic!("not everything: {:?}", other),
    }
}

#[test]
fn batches_are_prepared_once_for_all_destinations() {
    let mut state = node_a_of_three();
    state.udp_to_tcp_map.insert("b:1".to_string(), "b:4".to_string());
    state.udp_to_tcp_map.insert("c:1".to_string(), "c:4".to_string());
    let plan = put(&state, &strings(&["/tmp/x", "f1"])).unwrap();
    let (dests, frame) = plan.announcement.write_all_udp(&vec![1, 2]).unwrap();
    assert_eq!(dests, strings(&["b:1", "c:1"]));
    assert_eq!(frame, vec![b'N', b'F', b'O', b' ', 10, 0, 0, 0, 1, 2]);
    let (targets, frame) = plan.announcement.write_all_tcp_async(&state, &vec![1, 2]).unwrap();
    match targets {
        TcpTargets::Connect(addrs) => assert_eq!(addrs, strings(&["b:4", "c:4"])),
        other => panic!("not endpoints: {:?}", other),
    }
    assert_eq!(frame.len(), 10);
    let reply = GetOperation { distributed_filename: "f".to_string(), local_path: "p".to_string() }
        .reply(3, vec![]);
    assert_eq!(reply.write_all_udp(&vec![]).err(), Some(NodeError::WrongDestinations));
    match reply.write_all_tcp_async(&state, &vec![]).unwrap().0 {
        TcpTargets::Streams(streams) => assert_eq!(streams, vec![3]),
        other => panic!("not streams: {:?}", other),
    }
    state.udp_to_tcp_map.remove("c:1");
    assert_eq!(
        plan.announcement.write_all_tcp_async(&state, &vec![]).err(),
        Some(NodeError::NoTcpAddress)
    );
}

#[test]
fn only_the_master_repairs() {
    let mut b = startup("b:1".to_string(), "b:4".to_string());
    join(&mut b, 6).unwrap();
    insert_node(&mut b, &"a:1|5".to_string()).unwrap();
    recalculate_neighbors(&mut b, 7).unwrap();
    announce(&mut b, "f1", &["b:1|6", "c:1|7"], false);
    let out = handle_failed_node(&mut b, &"c:1|7".to_string(), 20).unwrap();
    assert!(out.operations.is_empty() && out.actions.is_empty());
    assert_eq!(owners(&b, "f1"), Some(strings(&["b:1|6", "c:1|7"])));
}

#[test]
fn the_master_gives_lost_files_a_new_owner() {
    let mut a = startup("a:1".to_string(), "a:4".to_string());
    join(&mut a, 5).unwrap();
    insert_node(&mut a, &"b:1|6".to_string()).unwrap();
    recalculate_neighbors(&mut a, 7).unwrap();
    // c has failed and is a member no longer; it owned f1 and f3
    announce(&mut a, "f1", &["b:1|6", "c:1|7"], false);
    announce(&mut a, "f2", &["a:1|5", "b:1|6"], false);
    announce(&mut a, "f3", &["c:1|7", "a:1|5"], false);
    announce(&mut a, "f4", &["c:1|7", "a:1|5", "b:1|6"], false);
    assert_eq!(sorted(lost_files_of(&a, &"c:1|7".to_string())), strings(&["f1", "f3", "f4"]));
    let out = handle_failed_node(&mut a, &"c:1|7".to_string(), 20).unwrap();
    assert_eq!(owners(&a, "f1"), Some(strings(&["a:1|5", "b:1|6"])));
    assert_eq!(owners(&a, "f2"), Some(strings(&["a:1|5", "b:1|6"])));
    assert_eq!(owners(&a, "f3"), Some(strings(&["a:1|5", "b:1|6"])));
    // no candidate was left for f4: it stays short of an owner
    assert_eq!(owners(&a, "f4"), Some(strings(&["a:1|5", "b:1|6"])));
    assert_eq!(out.operations.len(), 3);
    match &out.operations[0].operation {
        Operation::LostFiles(l) => {
            assert_eq!(l.failed_owner, "c:1|7");
            assert_eq!(l.lost_files, strings(&["f1", "f3", "f4"]));
        }
        other => panic!("not lost files: {:?}", other),
    }
    match (&out.operations[1].operation, &out.operations[2].operation) {
        (Operation::NewFileOwners(x), Operation::NewFileOwners(y)) => {
            assert_eq!(x.distributed_filename, "f1");
            assert_eq!(x.new_owners, strings(&["a:1|5"]));
            assert!(x.from_failure);
            assert_eq!(y.distributed_filename, "f3");
            assert_eq!(y.new_owners, strings(&["b:1|6"]));
            assert!(y.from_failure);
        }
        other => panic!("not two announcements: {:?}", other),
    }
    for op in out.operations.iter() {
        assert_eq!(udp_dests(&op.dests), strings(&["b:1"]));
    }
    // the master became an owner of f1 itself, and fetches it
    assert_eq!(out.actions.len(), 1);
    match &out.actions[0] {
        Action::FetchFile { distributed_filename, local_path } => {
            assert_eq!(distributed_filename, "f1");
            assert_eq!(local_path, "data/f1");
        }
        other => panic!("not a fetch: {:?}", other),
    }
    // repeated, the repair finds nothing to do
    let again = handle_failed_node(&mut a, &"c:1|7".to_string(), 21).unwrap();
    assert!(again.operations.is_empty() && again.actions.is_empty());
}

#[test]
fn an_operation_on_a_stream_is_executed_with_that_stream_as_source() {
    let mut state = node_a_of_three();
    let get = Operation::Get(GetOperation {
        distributed_filename: "f1".to_string(),
        local_path: "p".to_string(),
    });
    let out = handle_connection(&mut state, &get, 5, 9).unwrap();
    match &out.actions[0] {
        Action::ReplyWithFile { stream, .. } => assert_eq!(*stream, 5),
        other => panic!("not a reply: {:?}", other),
    }
    let set = StrSet::from_list(&strings(&["a:1|5"]));
    assert_eq!(set.len(), 1);
}

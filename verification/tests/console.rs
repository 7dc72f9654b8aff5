use ringstore::clock::get_timestamp;
use ringstore::component_manager::{
    console, get_local_addr, get_socket_addrs, parse_command, parse_frequency, pick_local_addr,
    startup, tcp_port_for, Command, ConsoleOutcome, InterfaceV4,
};
use ringstore::error::NodeError;
use ringstore::operation::Operation;

fn strings(items: &[&str]) -> Vec<String> {
    items.iter().map(|s| s.to_string()).collect()
}

#[test]
fn frequency_defaults_to_none() {
    assert_eq!(parse_frequency(Some(500)), 500);
    assert_eq!(parse_frequency(Some(0)), 0);
    assert_eq!(parse_frequency(None), 0);
}

#[test]
fn tcp_port_is_three_above() {
    assert_eq!(tcp_port_for(9000), Some(9003));
    assert_eq!(tcp_port_for(0), Some(3));
    assert_eq!(tcp_port_for(65532), Some(65535));
    assert_eq!(tcp_port_for(65533), None);
    assert_eq!(tcp_port_for(65535), None);
}

#[test]
fn endpoints_are_address_colon_port() {
    assert_eq!(
        get_socket_addrs(&"192.168.0.7".to_string(), 9000, 9003),
        ("192.168.0.7:9000".to_string(), "192.168.0.7:9003".to_string())
    );
    assert_eq!(
        get_socket_addrs(&"h".to_string(), 0, 65535),
        ("h:0".to_string(), "h:65535".to_string())
    );
}

#[test]
fn local_address_is_the_first_on_a_24_bit_network() {
    let addrs = vec![
        InterfaceV4 { ip: "127.0.0.1".to_string(), netmask: [255, 0, 0, 0] },
        InterfaceV4 { ip: "10.1.2.3".to_string(), netmask: [255, 255, 0, 0] },
        InterfaceV4 { ip: "192.168.0.7".to_string(), netmask: [255, 255, 255, 0] },
        InterfaceV4 { ip: "192.168.1.9".to_string(), netmask: [255, 255, 255, 0] },
    ];
    assert_eq!(pick_local_addr(&addrs), Ok("192.168.0.7".to_string()));
    let none = vec![
        InterfaceV4 { ip: "127.0.0.1".to_string(), netmask: [255, 0, 0, 0] },
        InterfaceV4 { ip: "10.1.2.3".to_string(), netmask: [255, 255, 255, 128] },
        InterfaceV4 { ip: "10.1.2.4".to_string(), netmask: [0, 255, 255, 255] },
    ];
    assert_eq!(pick_local_addr(&none), Err(NodeError::NoLocalAddress));
    assert_eq!(pick_local_addr(&vec![]), Err(NodeError::NoLocalAddress));
}

#[test]
fn the_machine_is_asked_for_its_interfaces() {
    match get_local_addr() {
        Ok(addr) => {
            let parts: Vec<&str> = addr.split('.').collect();
            assert_eq!(parts.len(), 4);
            for part in parts {
                assert!(part.parse::<u8>().is_ok());
            }
        }
        Err(e) => assert_eq!(e, NodeError::NoLocalAddress),
    }
}

#[test]
fn the_clock_is_read_in_seconds_since_1970() {
    let first = get_timestamp().unwrap();
    let second = get_timestamp().unwrap();
    // later than the start of 2020, and not running backwards by much
    assert!(first > 1_577_836_800);
    assert!(second + 1 >= first);
}

#[test]
fn words_name_commands() {
    assert_eq!(parse_command("join"), Command::Join);
    assert_eq!(parse_command("leave"), Command::Leave);
    assert_eq!(parse_command("print"), Command::Print);
    assert_eq!(parse_command("ls"), Command::Ls);
    assert_eq!(parse_command("get"), Command::Get);
    assert_eq!(parse_command("put"), Command::Put);
    assert_eq!(parse_command("JOIN"), Command::Invalid);
    assert_eq!(parse_command(""), Command::Invalid);
    assert_eq!(parse_command("joined"), Command::Invalid);
}

#[test]
fn console_runs_one_command_per_line() {
    let mut state = startup("a:1".to_string(), "a:4".to_string());
    assert_eq!(console(&mut state, &vec![], 5).err(), Some(NodeError::NoCommand));
    assert_eq!(console(&mut state, &strings(&["leave"]), 5).err(), Some(NodeError::NotJoined));
    assert_eq!(console(&mut state, &strings(&["ls"]), 5).err(), Some(NodeError::NotJoined));
    assert_eq!(
        console(&mut state, &strings(&["get", "f", "p"]), 5).err(),
        Some(NodeError::NotJoined)
    );
    assert_eq!(
        console(&mut state, &strings(&["put", "p", "f"]), 5).err(),
        Some(NodeError::NotJoined)
    );
    match console(&mut state, &strings(&["frobnicate", "now"]), 5).unwrap() {
        ConsoleOutcome::Invalid => {}
        other => panic!("not invalid: {:?}", other),
    }
    match console(&mut state, &strings(&["print"]), 5).unwrap() {
        ConsoleOutcome::Print => {}
        other => panic!("not print: {:?}", other),
    }
    match console(&mut state, &strings(&["join"]), 5).unwrap() {
        ConsoleOutcome::Joined(item) => match item.operation {
            Operation::Join(j) => assert_eq!(j.id, "a:1|5"),
            other => panic!("not a join: {:?}", other),
        },
        other => panic!("not joined: {:?}", other),
    }
    assert_eq!(console(&mut state, &strings(&["join"]), 6).err(), Some(NodeError::AlreadyJoined));
    match console(&mut state, &strings(&["ls"]), 6).unwrap() {
        ConsoleOutcome::List(_) => {}
        other => panic!("not a listing: {:?}", other),
    }
    assert_eq!(
        console(&mut state, &strings(&["ls", "a", "b"]), 6).err(),
        Some(NodeError::UsageLs)
    );
    assert_eq!(console(&mut state, &strings(&["get", "f"]), 6).err(), Some(NodeError::UsageGet));
    assert_eq!(console(&mut state, &strings(&["put", "f"]), 6).err(), Some(NodeError::UsagePut));
    match console(&mut state, &strings(&["put", "/tmp/x", "f1"]), 6).unwrap() {
        ConsoleOutcome::Put(plan) => {
            assert_eq!(plan.local_path, "/tmp/x");
            assert_eq!(plan.dest_ids, strings(&["a:1|5"]));
        }
        other => panic!("not a put: {:?}", other),
    }
    match console(&mut state, &strings(&["get", "f1", "/tmp/y"]), 6).unwrap() {
        ConsoleOutcome::Get(item) => match item.operation {
            Operation::Get(g) => assert_eq!(g.local_path, "/tmp/y"),
            other => panic!("not a get: {:?}", other),
        },
        other => panic!("not a get: {:?}", other),
    }
    match console(&mut state, &strings(&["leave"]), 7).unwrap() {
        ConsoleOutcome::Left(item) => match item.operation {
            Operation::Leave(l) => assert_eq!(l.id, "a:1|5"),
            other => panic!("not a leave: {:?}", other),
        },
        other => panic!("not left: {:?}", other),
    }
    assert!(!state.is_joined);
}

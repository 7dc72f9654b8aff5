use ringstore::component_manager::{receiver, sender, startup};
use ringstore::error::NodeError;
use ringstore::filesystem::{
    first_reply_stream, get, get_distributed_file, handle_connection, put, send_file_to_all,
};
use ringstore::heartbeat::{join, leave, maintainer};
use ringstore::node::NodeState;
use ringstore::operation::{
    create_buf, str_to_vec, try_parse_buf, Action, Destinations, Operation, Outcome,
    SendableOperation, Transport,
};
use std::collections::{HashMap, VecDeque};

const A: &str = "192.168.10.12:9000";
const B: &str = "192.168.10.50:9000";
const C: &str = "192.168.10.51:9000";

/// One simulated machine: the node's state, its disk, and whether it runs.
struct Machine {
    state: NodeState,
    disk: HashMap<String, Vec<u8>>,
    alive: bool,
}

/// A network of machines with one queue of operations under way.
struct Net {
    machines: Vec<Machine>,
    queue: VecDeque<(usize, SendableOperation)>,
    now: u64,
    failures_logged: Vec<(usize, String)>,
}

fn strings(items: &[&str]) -> Vec<String> {
    items.iter().map(|s| s.to_string()).collect()
}

fn sorted(mut list: Vec<String>) -> Vec<String> {
    list.sort();
    list
}

impl Net {
    fn new(addrs: &[&str]) -> Net {
        let machines = addrs
            .iter()
            .map(|a| Machine {
                state: startup(a.to_string(), format!("{}3", a)),
                disk: HashMap::new(),
                alive: true,
            })
            .collect();
        Net { machines, queue: VecDeque::new(), now: 100, failures_logged: vec![] }
    }

    fn index_of_udp(&self, addr: &str) -> Option<usize> {
        self.machines.iter().position(|m| m.alive && m.state.my_ip_addr == addr)
    }

    fn id(&self, at: usize) -> String {
        self.machines[at].state.my_id.clone()
    }

    fn join(&mut self, at: usize) {
        self.now += 1;
        let item = join(&mut self.machines[at].state, self.now).unwrap();
        self.queue.push_back((at, item));
        self.run();
    }

    fn absorb(&mut self, at: usize, outcome: Outcome) {
        for item in outcome.operations {
            self.queue.push_back((at, item));
        }
        for action in outcome.actions {
            match action {
                Action::WriteFile { path, data } => {
                    self.machines[at].disk.insert(path, data);
                }
                Action::FetchFile { distributed_filename, local_path: _ } => {
                    let request = get_distributed_file(&self.machines[at].state, &distributed_filename);
                    self.fetch(at, request);
                }
                Action::ReplyWithFile { .. } => panic!("a reply outside a fetch"),
            }
        }
    }

    /// Sends a `Get` to the owners it names and writes what the first of them answers.
    fn fetch(&mut self, at: usize, request: SendableOperation) -> Result<(), NodeError> {
        let owners = match &request.dests {
            Destinations::UDPAddr(addrs) => addrs.clone(),
            _ => panic!("a get goes to owners"),
        };
        let reached: Vec<usize> = owners.iter().filter_map(|a| self.index_of_udp(a)).collect();
        let streams: Vec<u64> = reached.iter().map(|i| *i as u64).collect();
        let stream = first_reply_stream(&streams)?;
        let owner = stream as usize;
        let now = self.now;
        let asked = handle_connection(&mut self.machines[owner].state, &request.operation, 7, now)?;
        assert_eq!(asked.actions.len(), 1);
        let get_op = match &request.operation {
            Operation::Get(g) => g,
            other => panic!("not a get: {:?}", other),
        };
        let reply = match &asked.actions[0] {
            Action::ReplyWithFile { stream, path, reply_filename: _ } => {
                let data = self.machines[owner].disk.get(path).expect("owner stores the file").clone();
                get_op.reply(*stream, data)
            }
            other => panic!("not a reply: {:?}", other),
        };
        let written = handle_connection(&mut self.machines[at].state, &reply.operation, 7, now)?;
        self.absorb(at, written);
        Ok(())
    }

    /// Delivers queued operations until none is under way.
    fn run(&mut self) {
        let mut steps = 0;
        while let Some((from, item)) = self.queue.pop_front() {
            steps += 1;
            assert!(steps < 10_000, "gossip does not end");
            let source = self.machines[from].state.my_ip_addr.clone();
            let dests = match &item.dests {
                Destinations::UDPAddr(addrs) => addrs.clone(),
                other => panic!("unexpected destinations: {:?}", other),
            };
            for dest in dests {
                let at = match self.index_of_udp(&dest) {
                    Some(at) => at,
                    None => continue,
                };
                let now = self.now;
                let state = &mut self.machines[at].state;
                let result = match item.operation.tag().transport() {
                    Transport::Udp => receiver(state, &item.operation, source.clone(), now),
                    Transport::Tcp => handle_connection(state, &item.operation, 1, now),
                };
                let outcome = result.expect("no operation is refused in these scenarios");
                self.absorb(at, outcome);
            }
        }
    }

    /// Every live, joined node sends its heartbeat.
    fn heartbeats(&mut self) {
        for at in 0..self.machines.len() {
            if !self.machines[at].alive {
                continue;
            }
            if let Some(item) = sender(&self.machines[at].state) {
                self.queue.push_back((at, item));
            }
        }
        self.run();
    }

    /// Every live node runs its maintainer.
    fn maintain(&mut self) {
        for at in 0..self.machines.len() {
            if !self.machines[at].alive {
                continue;
            }
            let before = self.machines[at].state.membership_list.clone();
            let outcome = maintainer(&mut self.machines[at].state, self.now).unwrap();
            for id in before {
                if !self.machines[at].state.membership_list.contains(&id) {
                    self.failures_logged.push((at, id));
                }
            }
            self.absorb(at, outcome);
        }
        self.run();
    }

    fn owners(&self, at: usize, file: &str) -> Option<Vec<String>> {
        self.machines[at].state.all_file_owners.get(file).map(|s| sorted(s.members()))
    }
}

fn three_joined() -> Net {
    let mut net = Net::new(&[A, B, C]);
    net.join(0);
    net.join(1);
    net.join(2);
    net
}

fn with_f1_stored() -> (Net, Vec<u8>) {
    let mut net = three_joined();
    let data: Vec<u8> = b"the contents of /tmp/x\n\0\xff".to_vec();
    net.machines[0].disk.insert("/tmp/x".to_string(), data.clone());
    let plan = put(&net.machines[0].state, &strings(&["/tmp/x", "f1"])).unwrap();
    let read = net.machines[0].disk.get(&plan.local_path).unwrap().clone();
    let file = send_file_to_all(read, plan.distributed_filename, &plan.dest_ids);
    net.queue.push_back((0, plan.announcement));
    net.queue.push_back((0, file));
    net.run();
    (net, data)
}

#[test]
fn three_node_join() {
    let net = three_joined();
    let ids = vec![net.id(0), net.id(1), net.id(2)];
    assert_eq!(ids[0], format!("{}|101", A));
    assert_eq!(ids[1], format!("{}|102", B));
    assert_eq!(ids[2], format!("{}|103", C));
    for m in net.machines.iter() {
        assert_eq!(m.state.membership_list, ids);
        assert_eq!(m.state.udp_to_tcp_map.len(), 3);
        for addr in [A, B, C] {
            assert_eq!(m.state.udp_to_tcp_map.get(addr), Some(&format!("{}3", addr)));
        }
    }
    assert_eq!(net.machines[0].state.successor_list, vec![ids[1].clone(), ids[2].clone()]);
    assert_eq!(net.machines[1].state.successor_list, vec![ids[2].clone(), ids[0].clone()]);
    assert_eq!(net.machines[2].state.successor_list, vec![ids[0].clone(), ids[1].clone()]);
    assert_eq!(net.machines[0].state.predecessor_list, vec![ids[2].clone(), ids[1].clone()]);
    assert_eq!(net.machines[1].state.predecessor_list, vec![ids[0].clone(), ids[2].clone()]);
    assert_eq!(net.machines[2].state.predecessor_list, vec![ids[1].clone(), ids[0].clone()]);
    for m in net.machines.iter() {
        assert_eq!(m.state.predecessor_timestamps.len(), 2);
        for p in m.state.predecessor_list.iter() {
            assert!(m.state.predecessor_timestamps.contains_key(p));
        }
    }
}

#[test]
fn graceful_leave() {
    let mut net = three_joined();
    let ids = vec![net.id(0), net.id(1), net.id(2)];
    net.now += 1;
    let item = leave(&mut net.machines[1].state).unwrap();
    net.queue.push_back((1, item));
    net.run();
    net.maintain();
    for at in [0, 2] {
        let state = &net.machines[at].state;
        assert_eq!(state.membership_list, vec![ids[0].clone(), ids[2].clone()]);
        assert!(!state.predecessor_timestamps.contains_key(&ids[1]));
        assert_eq!(state.predecessor_timestamps.len(), 1);
        assert_eq!(state.udp_to_tcp_map.get(B), None);
    }
    assert_eq!(net.machines[0].state.successor_list, vec![ids[2].clone()]);
    assert_eq!(net.machines[2].state.successor_list, vec![ids[0].clone()]);
    assert!(net.failures_logged.is_empty());
    assert!(net.machines[1].state.membership_list.is_empty());
    assert!(!net.machines[1].state.is_joined);
}

#[test]
fn silent_failure() {
    let mut net = three_joined();
    let ids = vec![net.id(0), net.id(1), net.id(2)];
    // everybody is heard at second 104; then B is killed
    net.now = 104;
    net.heartbeats();
    net.machines[1].alive = false;
    // within the expiration duration nobody is suspected
    net.now = 104 + 3;
    net.heartbeats();
    net.maintain();
    assert!(net.failures_logged.is_empty());
    assert_eq!(net.machines[0].state.membership_list.len(), 3);
    // one tick later B has been silent for too long, A and C have not
    net.now += 1;
    net.maintain();
    assert_eq!(sorted(net.failures_logged.iter().map(|(_, id)| id.clone()).collect()), vec![
        ids[1].clone(),
        ids[1].clone()
    ]);
    for at in [0, 2] {
        let state = &net.machines[at].state;
        assert_eq!(state.membership_list, vec![ids[0].clone(), ids[2].clone()]);
        assert!(!state.predecessor_timestamps.contains_key(&ids[1]));
    }
}

#[test]
fn put_get_round_trip() {
    let (mut net, data) = with_f1_stored();
    let owners = sorted(vec![net.id(1), net.id(2)]);
    for at in 0..3 {
        assert_eq!(net.owners(at, "f1"), Some(owners.clone()));
    }
    assert_eq!(net.machines[1].disk.get("data/f1"), Some(&data));
    assert_eq!(net.machines[2].disk.get("data/f1"), Some(&data));
    assert_eq!(net.machines[0].disk.get("data/f1"), None);
    let request = get(&net.machines[0].state, &strings(&["f1", "/tmp/y"])).unwrap();
    net.fetch(0, request).unwrap();
    assert_eq!(net.machines[0].disk.get("/tmp/y"), Some(&data));
    assert_eq!(net.machines[0].disk.get("/tmp/y"), net.machines[0].disk.get("/tmp/x"));
}

#[test]
fn get_of_an_unowned_file_reaches_nobody() {
    let mut net = three_joined();
    let request = get(&net.machines[0].state, &strings(&["nope", "/tmp/y"])).unwrap();
    assert_eq!(net.fetch(0, request).err(), Some(NodeError::NoOwnersReached));
}

#[test]
fn failure_driven_re_replication() {
    let (mut net, data) = with_f1_stored();
    let ids = vec![net.id(0), net.id(1), net.id(2)];
    net.now = 104;
    net.heartbeats();
    net.machines[2].alive = false;
    net.now = 104 + 3;
    net.heartbeats();
    net.maintain();
    assert!(net.failures_logged.is_empty());
    net.now += 1;
    net.maintain();
    assert_eq!(net.failures_logged, vec![(0, ids[2].clone()), (1, ids[2].clone())]);
    let owners = vec![ids[0].clone(), ids[1].clone()];
    for at in [0, 1] {
        assert_eq!(net.machines[at].state.membership_list, owners);
        assert_eq!(net.owners(at, "f1"), Some(owners.clone()));
    }
    assert_eq!(net.machines[0].disk.get("data/f1"), Some(&data));
    assert_eq!(net.machines[1].disk.get("data/f1"), Some(&data));
}

#[test]
fn unknown_op_tag() {
    let mut net = three_joined();
    let before = net.machines[1].state.membership_list.clone();
    let frame = create_buf(&vec![1, 2, 3, 4], str_to_vec("XXXX")).unwrap();
    assert_eq!(try_parse_buf(&frame), Err(NodeError::UnrecognizedHeader));
    // the node goes on: the next heartbeats are heard as before
    net.now += 1;
    net.heartbeats();
    assert_eq!(net.machines[1].state.membership_list, before);
    assert_eq!(net.machines[1].state.predecessor_timestamps.get(&net.id(0)), Some(&net.now));
}

#[test]
fn a_node_that_has_not_joined_hears_nothing() {
    let mut net = Net::new(&[A, B]);
    net.join(0);
    // B has not joined: the announcement is dropped
    let hb = sender(&net.machines[0].state).unwrap();
    let out = receiver(&mut net.machines[1].state, &hb.operation, A.to_string(), 200).unwrap();
    assert!(out.operations.is_empty());
    assert!(net.machines[1].state.membership_list.is_empty());
    assert!(sender(&net.machines[1].state).is_none());
}

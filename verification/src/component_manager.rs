//! What the node's components decide: which datagrams are heard, when
//! heartbeats go out, what a console command means, and which address the
//! node takes for itself.

use crate::constants::Timestamp;
use crate::dispatch::{applied, asked_for, refusal};
use crate::error::NodeError;
use crate::filesystem::{get, ls, put, shows, Listing, PutPlan};
use crate::heartbeat::{join, leave, send_heartbeats};
use crate::ident::{decimal, push_decimal, same_text, texts};
use crate::node::NodeState;
use crate::operation::{
    nothing_to_do, sendable_for_ids, Operation, OperationView, Outcome, SendableOperation,
    Source, SourceView,
};
use get_if_addrs::{IfAddr, Interface};
use vstd::prelude::*;
use vstd::string::*;

verus! {

/// How long a component sleeps between two rounds, in milliseconds; not at
/// all where no interval is given.
pub fn parse_frequency(freq_interval: Option<u64>) -> (freq: u64)
    ensures
        freq == match freq_interval {
            Some(interval) => interval,
            None => 0,
        },
{
    match freq_interval {
        Some(interval) => interval,
        None => 0,
    }
}

/// The state with which a node starts, given its two endpoints.
pub fn startup(udp_addr: String, tcp_addr: String) -> (state: NodeState)
    ensures
        state@.wf(),
        !state@.is_joined,
        state@.my_ip_addr == udp_addr@,
        state@.tcp_addr == tcp_addr@,
        state@.membership.len() == 0,
        state@.file_owners == Map::<Seq<char>, Set<Seq<char>>>::empty(),
        state@.udp_to_tcp == Map::<Seq<char>, Seq<char>>::empty(),
{
    NodeState::new(udp_addr, tcp_addr)
}

/// The TCP port that goes with a UDP port: three above it, where that is a port.
pub fn tcp_port_for(udp_port: u16) -> (tcp_port: Option<u16>)
    ensures
        udp_port + 3 <= u16::MAX ==> tcp_port == Some((udp_port + 3) as u16),
        udp_port + 3 > u16::MAX ==> tcp_port is None,
{
    if udp_port > u16::MAX - 3 {
        None
    } else {
        Some(udp_port + 3)
    }
}

/// The text of an endpoint: the address, a colon and the port in decimal.
pub open spec fn endpoint(addr: Seq<char>, port: u16) -> Seq<char> {
    addr.push(':') + decimal(port as nat)
}

/// The UDP and the TCP endpoint of the node at the address `local_addr`.
pub fn get_socket_addrs(local_addr: &String, udp_port: u16, tcp_port: u16) -> (addrs: (
    String,
    String,
))
    ensures
        addrs.0@ == endpoint(local_addr@, udp_port),
        addrs.1@ == endpoint(local_addr@, tcp_port),
{
    proof {
        reveal_strlit(":");
    }
    let mut udp_addr = local_addr.clone();
    udp_addr.append(":");
    push_decimal(&mut udp_addr, udp_port as u64);
    let mut tcp_addr = local_addr.clone();
    tcp_addr.append(":");
    push_decimal(&mut tcp_addr, tcp_port as u64);
    assert(udp_addr@ =~= endpoint(local_addr@, udp_port));
    assert(tcp_addr@ =~= endpoint(local_addr@, tcp_port));
    (udp_addr, tcp_addr)
}

/// An IPv4 address of one of the machine's interfaces, with its netmask.
#[derive(Debug)]
pub struct InterfaceV4 {
    /// The address in dotted decimal.
    pub ip: String,
    /// The four bytes of the netmask.
    pub netmask: [u8; 4],
}

/// Whether a netmask is that of a 24-bit network, `255.255.255.0`.
pub open spec fn is_local_netmask(netmask: [u8; 4]) -> bool {
    netmask@ == seq![255u8, 255u8, 255u8, 0u8]
}

/// The position of the first address on a 24-bit network, from `from` on.
pub open spec fn first_local(addrs: Seq<InterfaceV4>, from: int) -> Option<int>
    decreases addrs.len() - from,
{
    if from < 0 || from >= addrs.len() {
        None
    } else if is_local_netmask(addrs[from].netmask) {
        Some(from)
    } else {
        first_local(addrs, from + 1)
    }
}

/// The address that the node takes for itself: the first that lies on a
/// 24-bit network.
pub fn pick_local_addr(addrs: &Vec<InterfaceV4>) -> (r: Result<String, NodeError>)
    ensures
        first_local(addrs@, 0) is None ==> r == Err::<String, NodeError>(
            NodeError::NoLocalAddress,
        ),
        first_local(addrs@, 0) is Some ==> r is Ok && r->Ok_0@ == addrs@[first_local(
            addrs@,
            0,
        )->0].ip@,
{
    let mut i: usize = 0;
    while i < addrs.len()
        invariant
            i <= addrs.len(),
            first_local(addrs@, 0) == first_local(addrs@, i as int),
        decreases addrs.len() - i,
    {
        let mask = &addrs[i].netmask;
        if mask[0] == 255 && mask[1] == 255 && mask[2] == 255 && mask[3] == 0 {
            assert(mask@ =~= seq![255u8, 255u8, 255u8, 0u8]);
            return Ok(addrs[i].ip.clone());
        }
        proof {
            let wanted = seq![255u8, 255u8, 255u8, 0u8];
            assert(wanted[0] == 255u8 && wanted[1] == 255u8 && wanted[2] == 255u8 && wanted[3]
                == 0u8);
        }
        i = i + 1;
    }
    Err(NodeError::NoLocalAddress)
}

/// `get_if_addrs::Interface`, one address of one network interface. Nothing
/// is known of what a value holds.
#[verifier::external_type_specification]
#[verifier::external_body]
pub struct ExInterface(Interface);

/// Calls `get_if_addrs::get_if_addrs`, which asks the operating system for
/// the addresses of the machine's interfaces. Nothing is claimed of the
/// list; `None` stands for the error of the call.
#[verifier::external_body]
fn list_interfaces() -> (interfaces: Option<Vec<Interface>>) {
    match get_if_addrs::get_if_addrs() {
        Ok(interfaces) => Some(interfaces),
        Err(_) => None,
    }
}

/// Reads the fields of a `get_if_addrs::Interface`: for an IPv4 address its
/// text and the bytes of its netmask, for an IPv6 address nothing.
#[verifier::external_body]
fn interface_v4(interface: &Interface) -> (v4: Option<InterfaceV4>) {
    match &interface.addr {
        IfAddr::V4(addr) => Some(
            InterfaceV4 { ip: addr.ip.to_string(), netmask: addr.netmask.octets() },
        ),
        IfAddr::V6(_) => None,
    }
}

/// The address that the node takes for itself among those of the machine's
/// interfaces. Which interfaces there are is the machine's affair; where
/// none fits, or they cannot be listed, the node has no address.
pub fn get_local_addr() -> (r: Result<String, NodeError>)
    ensures
        r is Err ==> r == Err::<String, NodeError>(NodeError::NoLocalAddress),
{
    let interfaces = match list_interfaces() {
        Some(interfaces) => interfaces,
        None => {
            return Err(NodeError::NoLocalAddress);
        },
    };
    let mut addrs: Vec<InterfaceV4> = Vec::new();
    let mut i: usize = 0;
    while i < interfaces.len()
        invariant
            i <= interfaces.len(),
        decreases interfaces.len() - i,
    {
        match interface_v4(&interfaces[i]) {
            Some(v4) => {
                addrs.push(v4);
            },
            None => {},
        }
        i = i + 1;
    }
    pick_local_addr(&addrs)
}

/// What the receiver does with an operation that arrived as a datagram
/// from `source`: a node that has not joined drops it unheard; a node that
/// has joined executes it.
pub fn receiver(state: &mut NodeState, operation: &Operation, source: String, now: Timestamp) -> (r:
    Result<Outcome, NodeError>)
    requires
        old(state)@.wf(),
    ensures
        final(state)@.wf(),
        !old(state)@.is_joined ==> r is Ok && r->Ok_0@ == nothing_to_do() && final(state)@ == old(
            state,
        )@,
        old(state)@.is_joined ==> match refusal(operation@, SourceView::Addr(source@)) {
            Some(e) => r == Err::<Outcome, NodeError>(e) && final(state)@ == old(state)@,
            None => r is Ok && final(state)@ == applied(
                operation@,
                old(state)@,
                SourceView::Addr(source@),
                now,
            ) && asked_for(
                operation@,
                old(state)@,
                SourceView::Addr(source@),
                final(state)@,
                r->Ok_0@,
            ),
        },
{
    if !state.is_joined {
        // Drop the packet
        return Ok(Outcome::nothing());
    }
    let source = Source::Addr(source);
    operation.execute(state, &source, now)
}

/// What the sender emits on its timer, once the queue is drained: the
/// heartbeat for the successors if the node has joined, else nothing.
pub fn sender(state: &NodeState) -> (heartbeat: Option<SendableOperation>)
    requires
        state@.wf(),
    ensures
        !state@.is_joined ==> heartbeat is None,
        state@.is_joined ==> heartbeat is Some && heartbeat->0@ == sendable_for_ids(
            state@.successors,
            OperationView::Heartbeat { id: state@.my_id },
        ),
{
    if state.is_joined {
        Some(send_heartbeats(state))
    } else {
        None
    }
}

/// What a console command asks the caller to do.
#[derive(Debug)]
pub enum ConsoleOutcome {
    /// `join`: send the operation.
    Joined(SendableOperation),
    /// `leave`: send the operation.
    Left(SendableOperation),
    /// `print`: show the membership list and the address map.
    Print,
    /// `ls`: show the listing.
    List(Listing),
    /// `get`: send the request, then read the answer from the first stream.
    Get(SendableOperation),
    /// `put`: send the announcement, read the file and send it to its owners.
    Put(PutPlan),
    /// Any other command.
    Invalid,
}

/// The commands that the console knows.
#[derive(Debug, Clone, Copy, PartialEq, Eq, Structural)]
pub enum Command {
    Join,
    Leave,
    Print,
    Ls,
    Get,
    Put,
    Invalid,
}

/// The command that a word names.
pub open spec fn spec_command(word: Seq<char>) -> Command {
    if word == "join"@ {
        Command::Join
    } else if word == "leave"@ {
        Command::Leave
    } else if word == "print"@ {
        Command::Print
    } else if word == "ls"@ {
        Command::Ls
    } else if word == "get"@ {
        Command::Get
    } else if word == "put"@ {
        Command::Put
    } else {
        Command::Invalid
    }
}

/// The command that a word names.
pub fn parse_command(word: &str) -> (command: Command)
    ensures
        command == spec_command(word@),
{
    if same_text(word, "join") {
        Command::Join
    } else if same_text(word, "leave") {
        Command::Leave
    } else if same_text(word, "print") {
        Command::Print
    } else if same_text(word, "ls") {
        Command::Ls
    } else if same_text(word, "get") {
        Command::Get
    } else if same_text(word, "put") {
        Command::Put
    } else {
        Command::Invalid
    }
}

/// One line of the console, already split at white space: the first word
/// is the command, the others are its arguments. An empty line is an
/// error; a word that names no command is answered as invalid.
pub fn console(state: &mut NodeState, words: &Vec<String>, now: Timestamp) -> (r: Result<
    ConsoleOutcome,
    NodeError,
>)
    requires
        old(state)@.wf(),
    ensures
        final(state)@.wf(),
        words@.len() == 0 ==> r == Err::<ConsoleOutcome, NodeError>(NodeError::NoCommand)
            && final(state)@ == old(state)@,
        words@.len() > 0 ==> match spec_command(words@[0]@) {
            Command::Join => if old(state)@.is_joined {
                r == Err::<ConsoleOutcome, NodeError>(NodeError::AlreadyJoined) && final(state)@
                    == old(state)@
            } else {
                r is Ok && r->Ok_0 is Joined && final(state)@ == crate::heartbeat::joined(
                    old(state)@,
                    now,
                ) && r->Ok_0->Joined_0@ == (crate::operation::SendableView {
                    dests: crate::operation::DestinationsView::UDPAddr(
                        crate::constants::spec_ip_list(),
                    ),
                    operation: OperationView::Join {
                        id: final(state)@.my_id,
                        tcp_addr: old(state)@.tcp_addr,
                    },
                })
            },
            Command::Leave => if old(state)@.is_joined {
                r is Ok && r->Ok_0 is Left && final(state)@ == crate::heartbeat::left(old(state)@)
                    && r->Ok_0->Left_0@ == sendable_for_ids(
                    old(state)@.successors,
                    OperationView::Leave { id: old(state)@.my_id },
                )
            } else {
                r == Err::<ConsoleOutcome, NodeError>(NodeError::NotJoined) && final(state)@
                    == old(state)@
            },
            Command::Print => r is Ok && r->Ok_0 is Print && final(state)@ == old(state)@,
            Command::Ls => final(state)@ == old(state)@ && if !old(state)@.is_joined {
                r == Err::<ConsoleOutcome, NodeError>(NodeError::NotJoined)
            } else if words@.len() > 2 {
                r == Err::<ConsoleOutcome, NodeError>(NodeError::UsageLs)
            } else {
                r is Ok && r->Ok_0 is List && shows(
                    r->Ok_0->List_0,
                    old(state)@,
                    if words@.len() == 1 {
                        None
                    } else {
                        Some(words@[1]@)
                    },
                )
            },
            Command::Get => final(state)@ == old(state)@ && if !old(state)@.is_joined {
                r == Err::<ConsoleOutcome, NodeError>(NodeError::NotJoined)
            } else if words@.len() != 3 {
                r == Err::<ConsoleOutcome, NodeError>(NodeError::UsageGet)
            } else {
                r is Ok && r->Ok_0 is Get && r->Ok_0->Get_0.operation@ == (OperationView::Get {
                    distributed_filename: words@[1]@,
                    local_path: words@[2]@,
                }) && exists|owners: Seq<Seq<char>>|
                    #![trigger crate::ident::id_addresses(owners)]
                    {
                        &&& r->Ok_0->Get_0.dests@
                            == crate::operation::DestinationsView::UDPAddr(
                            crate::ident::id_addresses(owners),
                        )
                        &&& owners.no_duplicates()
                        &&& owners.to_set() == crate::filesystem::known_owners(
                            old(state)@,
                            words@[1]@,
                        )
                    }
            },
            Command::Put => final(state)@ == old(state)@ && if !old(state)@.is_joined {
                r == Err::<ConsoleOutcome, NodeError>(NodeError::NotJoined)
            } else if words@.len() != 3 {
                r == Err::<ConsoleOutcome, NodeError>(NodeError::UsagePut)
            } else if old(state)@.membership.len() == 0 {
                r == Err::<ConsoleOutcome, NodeError>(NodeError::MembershipEmpty)
            } else {
                let owners = crate::filesystem::owner_candidates(
                    old(state)@.membership,
                    words@[2]@,
                );
                &&& r is Ok
                &&& r->Ok_0 is Put
                &&& r->Ok_0->Put_0.local_path@ == words@[1]@
                &&& r->Ok_0->Put_0.distributed_filename@ == words@[2]@
                &&& texts(r->Ok_0->Put_0.dest_ids@) == owners
                &&& r->Ok_0->Put_0.announcement@ == sendable_for_ids(
                    old(state)@.successors,
                    OperationView::NewFileOwners {
                        distributed_filename: words@[2]@,
                        new_owners: owners,
                        from_failure: false,
                    },
                )
            },
            Command::Invalid => r is Ok && r->Ok_0 is Invalid && final(state)@ == old(state)@,
        },
{
    if words.len() == 0 {
        return Err(NodeError::NoCommand);
    }
    let mut args: Vec<String> = Vec::new();
    let mut i: usize = 1;
    while i < words.len()
        invariant
            1 <= i <= words.len(),
            args@.len() == i - 1,
            forall|j: int| 0 <= j < i - 1 ==> args@[j]@ == words@[j + 1]@,
        decreases words.len() - i,
    {
        args.push(words[i].clone());
        i = i + 1;
    }
    match parse_command(words[0].as_str()) {
        Command::Join => match join(state, now) {
            Ok(item) => Ok(ConsoleOutcome::Joined(item)),
            Err(e) => Err(e),
        },
        Command::Leave => match leave(state) {
            Ok(item) => Ok(ConsoleOutcome::Left(item)),
            Err(e) => Err(e),
        },
        Command::Print => Ok(ConsoleOutcome::Print),
        Command::Ls => match ls(state, &args) {
            Ok(listing) => Ok(ConsoleOutcome::List(listing)),
            Err(e) => Err(e),
        },
        Command::Get => match get(state, &args) {
            Ok(item) => Ok(ConsoleOutcome::Get(item)),
            Err(e) => Err(e),
        },
        Command::Put => match put(state, &args) {
            Ok(plan) => Ok(ConsoleOutcome::Put(plan)),
            Err(e) => Err(e),
        },
        Command::Invalid => Ok(ConsoleOutcome::Invalid),
    }
}

} // verus!

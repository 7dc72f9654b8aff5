//! The node's tunable constants.

use vstd::prelude::*;
use vstd::string::*;

verus! {

/// The time in Unix seconds.
pub type Timestamp = u64;

/// The length of an operation tag.
pub const OP_TYPE_SIZE: usize = 4;

/// The length of a frame's header: the tag and the length field.
pub const HEADER_SIZE: usize = 8;

/// How many successors, and how many predecessors, a node keeps.
pub const NUM_SUCCESSORS: u32 = 2;

/// How many nodes own a file.
pub const NUM_OWNERS: u32 = 2;

/// After how many seconds without a heartbeat a predecessor counts as failed.
pub const EXPIRATION_DURATION: Timestamp = 3;

/// The directory of the log files.
pub const LOG_DIR: &'static str = "logs";

/// The directory of the stored files.
pub const DATA_DIR: &'static str = "data";

/// The UDP addresses to which a joining node announces itself.
pub open spec fn spec_ip_list() -> Seq<Seq<char>> {
    seq![
        "192.168.10.12:9000"@,
        "192.168.10.12:9001"@,
        "192.168.10.12:9002"@,
        "192.168.10.49:9000"@,
    ]
}

/// The UDP addresses to which a joining node announces itself.
pub fn ip_list() -> (list: Vec<String>)
    ensures
        crate::ident::texts(list@) == spec_ip_list(),
{
    let mut list: Vec<String> = Vec::new();
    list.push(String::from_str("192.168.10.12:9000"));
    list.push(String::from_str("192.168.10.12:9001"));
    list.push(String::from_str("192.168.10.12:9002"));
    list.push(String::from_str("192.168.10.49:9000"));
    assert(crate::ident::texts(list@) =~= spec_ip_list());
    list
}

} // verus!

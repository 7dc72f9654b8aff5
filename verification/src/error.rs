//! The ways in which a request or a frame is refused.

use vstd::prelude::*;
use vstd::string::*;

verus! {

/// Why the node refused to act. No error leaves the node's state half changed.
#[derive(Debug, Clone, Copy, PartialEq, Eq, Structural)]
pub enum NodeError {
    /// A file or leave request came before `join`.
    NotJoined,
    /// `join` was asked of a node that has joined already.
    AlreadyJoined,
    /// Neighbours were asked for while the membership list was empty.
    MembershipEmpty,
    /// Neighbours were asked for while the node was no member of its own list.
    SelfNotMember,
    /// An identifier without a separator, so that it names no address.
    MalformedId,
    /// A heartbeat whose source is not the address in its identifier.
    SuspiciousHeartbeat,
    /// A recorded heartbeat is later than the present.
    FutureTimestamp,
    /// Expiry was asked of a node that is no predecessor.
    NotPredecessor,
    /// A frame shorter than its header.
    TruncatedFrame,
    /// A frame whose tag names no operation.
    UnrecognizedHeader,
    /// A frame whose length field is not its length.
    LengthMismatch,
    /// A payload too long for the length field.
    FrameTooLarge,
    /// A destination has no entry in the map from UDP to TCP addresses.
    NoTcpAddress,
    /// Datagrams were asked for destinations that are not UDP addresses.
    WrongDestinations,
    /// An address was wanted where the source is a stream.
    NotAnAddress,
    /// A stream was wanted where the source is an address.
    NotAStream,
    /// The file has no entry in the ownership map.
    NoOwnerFound,
    /// Every candidate owner owns the file already.
    NoNewOwners,
    /// No owner of the file could be reached.
    NoOwnersReached,
    /// An empty command line.
    NoCommand,
    /// `get` with the wrong number of arguments.
    UsageGet,
    /// `put` with the wrong number of arguments.
    UsagePut,
    /// `ls` with the wrong number of arguments.
    UsageLs,
    /// A listing was asked of one file and of all files at once.
    ListingOverSpecified,
    /// A listing was asked of neither one file nor all files.
    ListingUnderSpecified,
    /// No interface has an IPv4 address on a 24-bit network.
    NoLocalAddress,
    /// The system clock stands before the start of 1970.
    ClockBeforeEpoch,
}

impl NodeError {
    /// The text of the error, as a spec value.
    pub open spec fn spec_message(self) -> Seq<char> {
        match self {
            NodeError::NotJoined => "Not joined yet"@,
            NodeError::AlreadyJoined => "Already joined"@,
            NodeError::MembershipEmpty => "Cannot calculate successors/predecessors because membership list is empty"@,
            NodeError::SelfNotMember => "ID of node not found in membership list"@,
            NodeError::MalformedId => "Identifier has no separator"@,
            NodeError::SuspiciousHeartbeat => "Received suspicious heartbeat packet with source != id"@,
            NodeError::FutureTimestamp => "Invalid timestamp found in predecessor timestamps"@,
            NodeError::NotPredecessor => "Tried to check if non-predecessor node is expired"@,
            NodeError::TruncatedFrame => "Read a frame shorter than its header"@,
            NodeError::UnrecognizedHeader => "Read unrecognized operation header"@,
            NodeError::LengthMismatch => "Read a frame whose length field is not its length"@,
            NodeError::FrameTooLarge => "Payload too large for one frame"@,
            NodeError::NoTcpAddress => "No TCP addr entry for destination"@,
            NodeError::WrongDestinations => "Cannot send UDP packets to TCP destinations"@,
            NodeError::NotAnAddress => "Cannot convert TcpStream to address"@,
            NodeError::NotAStream => "Cannot translate address into TcpStream"@,
            NodeError::NoOwnerFound => "No owner found for file"@,
            NodeError::NoNewOwners => "No new owners available for file"@,
            NodeError::NoOwnersReached => "No owners found for file"@,
            NodeError::NoCommand => "No command given"@,
            NodeError::UsageGet => "Usage: get distributed_filename local_path"@,
            NodeError::UsagePut => "Usage: put local_path distributed_filename"@,
            NodeError::UsageLs => "Usage: ls [distributed_filename]"@,
            NodeError::ListingOverSpecified => "Cannot set distributed_filename and full to true when printing owners"@,
            NodeError::ListingUnderSpecified => "Cannot print owners of nonexistant distributed_filename with full set to false"@,
            NodeError::NoLocalAddress => "Could not find valid local IPv4 address"@,
            NodeError::ClockBeforeEpoch => "System clock is set before the Unix epoch"@,
        }
    }

    /// The text of the error, for a log line or the console.
    pub fn message(&self) -> (text: String)
        ensures
            text@ == self.spec_message(),
    {
        let text: &str = match self {
            NodeError::NotJoined => "Not joined yet",
            NodeError::AlreadyJoined => "Already joined",
            NodeError::MembershipEmpty => "Cannot calculate successors/predecessors because membership list is empty",
            NodeError::SelfNotMember => "ID of node not found in membership list",
            NodeError::MalformedId => "Identifier has no separator",
            NodeError::SuspiciousHeartbeat => "Received suspicious heartbeat packet with source != id",
            NodeError::FutureTimestamp => "Invalid timestamp found in predecessor timestamps",
            NodeError::NotPredecessor => "Tried to check if non-predecessor node is expired",
            NodeError::TruncatedFrame => "Read a frame shorter than its header",
            NodeError::UnrecognizedHeader => "Read unrecognized operation header",
            NodeError::LengthMismatch => "Read a frame whose length field is not its length",
            NodeError::FrameTooLarge => "Payload too large for one frame",
            NodeError::NoTcpAddress => "No TCP addr entry for destination",
            NodeError::WrongDestinations => "Cannot send UDP packets to TCP destinations",
            NodeError::NotAnAddress => "Cannot convert TcpStream to address",
            NodeError::NotAStream => "Cannot translate address into TcpStream",
            NodeError::NoOwnerFound => "No owner found for file",
            NodeError::NoNewOwners => "No new owners available for file",
            NodeError::NoOwnersReached => "No owners found for file",
            NodeError::NoCommand => "No command given",
            NodeError::UsageGet => "Usage: get distributed_filename local_path",
            NodeError::UsagePut => "Usage: put local_path distributed_filename",
            NodeError::UsageLs => "Usage: ls [distributed_filename]",
            NodeError::ListingOverSpecified => "Cannot set distributed_filename and full to true when printing owners",
            NodeError::ListingUnderSpecified => "Cannot print owners of nonexistant distributed_filename with full set to false",
            NodeError::NoLocalAddress => "Could not find valid local IPv4 address",
            NodeError::ClockBeforeEpoch => "System clock is set before the Unix epoch",
        };
        String::from_str(text)
    }
}

} // verus!

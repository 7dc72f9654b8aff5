//! The operations that nodes send each other, the frame that carries one,
//! and the queue items that say where an operation goes.

use crate::constants::{HEADER_SIZE, OP_TYPE_SIZE};
use crate::error::NodeError;
use crate::ident::{all_valid, clone_texts, id_addresses, ips_from_ids, texts};
use crate::node::NodeState;
use crate::ring::lemma_neighbors_members;
use vstd::bytes::{
    lemma_auto_spec_u32_to_from_le_bytes, spec_u32_from_le_bytes, spec_u32_to_le_bytes,
    u32_from_le_bytes, u32_to_le_bytes,
};
use vstd::prelude::*;
use vstd::slice::slice_subrange;

verus! {

/// A heartbeat of the node `id`.
#[derive(Debug)]
pub struct HeartbeatOperation {
    pub id: String,
}

/// The node `id`, whose TCP endpoint is `tcp_addr`, asks to join.
#[derive(Debug)]
pub struct JoinOperation {
    pub id: String,
    pub tcp_addr: String,
}

/// The node `id` has left or has failed.
#[derive(Debug)]
pub struct LeaveOperation {
    pub id: String,
}

/// The node `id`, whose TCP endpoint is `tcp_addr`, has joined.
#[derive(Debug)]
pub struct NewMemberOperation {
    pub id: String,
    pub tcp_addr: String,
}

/// A full snapshot of the sender's membership list and address map.
#[derive(Debug)]
pub struct MembershipListOperation {
    pub membership_list: Vec<String>,
    pub udp_to_tcp_map: Vec<(String, String)>,
}

/// A request for the stored file `distributed_filename`, to be answered
/// with a file named `local_path`.
#[derive(Debug)]
pub struct GetOperation {
    pub distributed_filename: String,
    pub local_path: String,
}

/// The nodes `new_owners` now own the file `distributed_filename`.
#[derive(Debug)]
pub struct NewFileOwnersOperation {
    pub distributed_filename: String,
    pub new_owners: Vec<String>,
    pub from_failure: bool,
}

/// The contents of a file.
#[derive(Debug)]
pub struct SendFileOperation {
    pub filename: String,
    pub data: Vec<u8>,
    pub is_distributed: bool,
}

/// The node `failed_owner` has failed and no longer owns `lost_files`.
#[derive(Debug)]
pub struct LostFilesOperation {
    pub failed_owner: String,
    pub lost_files: Vec<String>,
}

/// An operation of any kind.
#[derive(Debug)]
pub enum Operation {
    Heartbeat(HeartbeatOperation),
    Join(JoinOperation),
    Leave(LeaveOperation),
    NewMember(NewMemberOperation),
    MembershipList(MembershipListOperation),
    Get(GetOperation),
    NewFileOwners(NewFileOwnersOperation),
    SendFile(SendFileOperation),
    LostFiles(LostFilesOperation),
}

/// The mathematical content of an operation.
pub enum OperationView {
    Heartbeat { id: Seq<char> },
    Join { id: Seq<char>, tcp_addr: Seq<char> },
    Leave { id: Seq<char> },
    NewMember { id: Seq<char>, tcp_addr: Seq<char> },
    MembershipList { members: Seq<Seq<char>>, udp_to_tcp: Seq<(Seq<char>, Seq<char>)> },
    Get { distributed_filename: Seq<char>, local_path: Seq<char> },
    NewFileOwners { distributed_filename: Seq<char>, new_owners: Seq<Seq<char>>, from_failure: bool },
    SendFile { filename: Seq<char>, data: Seq<u8>, is_distributed: bool },
    LostFiles { failed_owner: Seq<char>, lost_files: Seq<Seq<char>> },
}

/// The texts of a list of pairs of strings.
pub open spec fn pair_texts(v: Seq<(String, String)>) -> Seq<(Seq<char>, Seq<char>)> {
    Seq::new(v.len(), |i: int| (v[i].0@, v[i].1@))
}

impl View for Operation {
    type V = OperationView;

    open spec fn view(&self) -> OperationView {
        match self {
            Operation::Heartbeat(op) => OperationView::Heartbeat { id: op.id@ },
            Operation::Join(op) => OperationView::Join { id: op.id@, tcp_addr: op.tcp_addr@ },
            Operation::Leave(op) => OperationView::Leave { id: op.id@ },
            Operation::NewMember(op) => OperationView::NewMember {
                id: op.id@,
                tcp_addr: op.tcp_addr@,
            },
            Operation::MembershipList(op) => OperationView::MembershipList {
                members: texts(op.membership_list@),
                udp_to_tcp: pair_texts(op.udp_to_tcp_map@),
            },
            Operation::Get(op) => OperationView::Get {
                distributed_filename: op.distributed_filename@,
                local_path: op.local_path@,
            },
            Operation::NewFileOwners(op) => OperationView::NewFileOwners {
                distributed_filename: op.distributed_filename@,
                new_owners: texts(op.new_owners@),
                from_failure: op.from_failure,
            },
            Operation::SendFile(op) => OperationView::SendFile {
                filename: op.filename@,
                data: op.data@,
                is_distributed: op.is_distributed,
            },
            Operation::LostFiles(op) => OperationView::LostFiles {
                failed_owner: op.failed_owner@,
                lost_files: texts(op.lost_files@),
            },
        }
    }
}

/// The kind of an operation, which its tag names on the wire.
#[derive(Debug, Clone, Copy, PartialEq, Eq, Structural)]
pub enum OpTag {
    Heartbeat,
    Join,
    Leave,
    NewMember,
    MembershipList,
    Get,
    NewFileOwners,
    SendFile,
    LostFiles,
}

/// The four ASCII bytes of a tag: `HB  `, `JOIN`, `LEAV`, `NMEM`, `MLIS`,
/// `GET `, `NFO `, `FILE`, `LOST`.
pub open spec fn tag_bytes(tag: OpTag) -> Seq<u8> {
    match tag {
        OpTag::Heartbeat => seq![0x48u8, 0x42u8, 0x20u8, 0x20u8],
        OpTag::Join => seq![0x4au8, 0x4fu8, 0x49u8, 0x4eu8],
        OpTag::Leave => seq![0x4cu8, 0x45u8, 0x41u8, 0x56u8],
        OpTag::NewMember => seq![0x4eu8, 0x4du8, 0x45u8, 0x4du8],
        OpTag::MembershipList => seq![0x4du8, 0x4cu8, 0x49u8, 0x53u8],
        OpTag::Get => seq![0x47u8, 0x45u8, 0x54u8, 0x20u8],
        OpTag::NewFileOwners => seq![0x4eu8, 0x46u8, 0x4fu8, 0x20u8],
        OpTag::SendFile => seq![0x46u8, 0x49u8, 0x4cu8, 0x45u8],
        OpTag::LostFiles => seq![0x4cu8, 0x4fu8, 0x53u8, 0x54u8],
    }
}

/// The tag that four bytes spell, if they spell one.
pub open spec fn tag_of_bytes(bytes: Seq<u8>) -> Option<OpTag> {
    if bytes == tag_bytes(OpTag::Heartbeat) {
        Some(OpTag::Heartbeat)
    } else if bytes == tag_bytes(OpTag::Join) {
        Some(OpTag::Join)
    } else if bytes == tag_bytes(OpTag::Leave) {
        Some(OpTag::Leave)
    } else if bytes == tag_bytes(OpTag::NewMember) {
        Some(OpTag::NewMember)
    } else if bytes == tag_bytes(OpTag::MembershipList) {
        Some(OpTag::MembershipList)
    } else if bytes == tag_bytes(OpTag::Get) {
        Some(OpTag::Get)
    } else if bytes == tag_bytes(OpTag::NewFileOwners) {
        Some(OpTag::NewFileOwners)
    } else if bytes == tag_bytes(OpTag::SendFile) {
        Some(OpTag::SendFile)
    } else if bytes == tag_bytes(OpTag::LostFiles) {
        Some(OpTag::LostFiles)
    } else {
        None
    }
}

/// The frame of a payload under a tag: the tag, the length of the whole
/// frame as four little-endian bytes, and the payload.
pub open spec fn frame_of(tag: Seq<u8>, payload: Seq<u8>) -> Seq<u8> {
    tag + spec_u32_to_le_bytes((HEADER_SIZE + payload.len()) as u32) + payload
}

/// What a buffer holds when read as one frame: its tag and its payload, or
/// the reason why it is no frame.
pub open spec fn parsed_frame(buf: Seq<u8>) -> Result<(OpTag, Seq<u8>), NodeError> {
    if buf.len() < HEADER_SIZE {
        Err(NodeError::TruncatedFrame)
    } else if tag_of_bytes(buf.subrange(0, OP_TYPE_SIZE as int)) is None {
        Err(NodeError::UnrecognizedHeader)
    } else if spec_u32_from_le_bytes(buf.subrange(OP_TYPE_SIZE as int, HEADER_SIZE as int))
        != buf.len() {
        Err(NodeError::LengthMismatch)
    } else {
        Ok(
            (
                tag_of_bytes(buf.subrange(0, OP_TYPE_SIZE as int))->0,
                buf.subrange(HEADER_SIZE as int, buf.len() as int),
            ),
        )
    }
}

/// Every tag is read back from its own bytes.
pub proof fn lemma_tag_round_trip(tag: OpTag)
    ensures
        tag_bytes(tag).len() == OP_TYPE_SIZE,
        tag_of_bytes(tag_bytes(tag)) == Some(tag),
{
    let b = tag_bytes(tag);
    assert(tag_bytes(OpTag::Heartbeat)[0] == 0x48u8 && tag_bytes(OpTag::Heartbeat)[1] == 0x42u8);
    assert(tag_bytes(OpTag::Join)[0] == 0x4au8);
    assert(tag_bytes(OpTag::Leave)[0] == 0x4cu8 && tag_bytes(OpTag::Leave)[1] == 0x45u8);
    assert(tag_bytes(OpTag::NewMember)[0] == 0x4eu8 && tag_bytes(OpTag::NewMember)[1] == 0x4du8);
    assert(tag_bytes(OpTag::MembershipList)[0] == 0x4du8);
    assert(tag_bytes(OpTag::Get)[0] == 0x47u8);
    assert(tag_bytes(OpTag::NewFileOwners)[0] == 0x4eu8 && tag_bytes(OpTag::NewFileOwners)[1]
        == 0x46u8);
    assert(tag_bytes(OpTag::SendFile)[0] == 0x46u8);
    assert(tag_bytes(OpTag::LostFiles)[0] == 0x4cu8 && tag_bytes(OpTag::LostFiles)[1] == 0x4fu8);
}

/// A frame that was built from a tag and a payload is read back as that tag
/// and that payload.
pub proof fn lemma_frame_round_trip(tag: OpTag, payload: Seq<u8>)
    requires
        HEADER_SIZE + payload.len() <= u32::MAX,
    ensures
        parsed_frame(frame_of(tag_bytes(tag), payload)) == Ok::<(OpTag, Seq<u8>), NodeError>(
            (tag, payload),
        ),
{
    let total = (HEADER_SIZE + payload.len()) as u32;
    let frame = frame_of(tag_bytes(tag), payload);
    lemma_tag_round_trip(tag);
    lemma_auto_spec_u32_to_from_le_bytes();
    assert(spec_u32_to_le_bytes(total).len() == 4);
    assert(frame.subrange(0, OP_TYPE_SIZE as int) =~= tag_bytes(tag));
    assert(frame.subrange(OP_TYPE_SIZE as int, HEADER_SIZE as int) =~= spec_u32_to_le_bytes(total));
    assert(frame.subrange(HEADER_SIZE as int, frame.len() as int) =~= payload);
}

/// The transport that carries an operation.
#[derive(Debug, Clone, Copy, PartialEq, Eq, Structural)]
pub enum Transport {
    Udp,
    Tcp,
}

/// Heartbeats and membership operations travel as datagrams; file requests,
/// file contents and ownership operations travel on streams.
pub open spec fn transport_of(tag: OpTag) -> Transport {
    match tag {
        OpTag::Heartbeat => Transport::Udp,
        OpTag::Join => Transport::Udp,
        OpTag::Leave => Transport::Udp,
        OpTag::NewMember => Transport::Udp,
        OpTag::MembershipList => Transport::Udp,
        OpTag::Get => Transport::Tcp,
        OpTag::NewFileOwners => Transport::Tcp,
        OpTag::SendFile => Transport::Tcp,
        OpTag::LostFiles => Transport::Tcp,
    }
}

impl OpTag {
    /// The transport that carries operations of this kind.
    pub fn transport(&self) -> (t: Transport)
        ensures
            t == transport_of(*self),
    {
        match self {
            OpTag::Heartbeat => Transport::Udp,
            OpTag::Join => Transport::Udp,
            OpTag::Leave => Transport::Udp,
            OpTag::NewMember => Transport::Udp,
            OpTag::MembershipList => Transport::Udp,
            OpTag::Get => Transport::Tcp,
            OpTag::NewFileOwners => Transport::Tcp,
            OpTag::SendFile => Transport::Tcp,
            OpTag::LostFiles => Transport::Tcp,
        }
    }

    /// The four bytes of the tag.
    pub fn bytes(&self) -> (b: Vec<u8>)
        ensures
            b@ == tag_bytes(*self),
            b@.len() == OP_TYPE_SIZE,
    {
        let b: Vec<u8> = match self {
            OpTag::Heartbeat => vec![0x48u8, 0x42u8, 0x20u8, 0x20u8],
            OpTag::Join => vec![0x4au8, 0x4fu8, 0x49u8, 0x4eu8],
            OpTag::Leave => vec![0x4cu8, 0x45u8, 0x41u8, 0x56u8],
            OpTag::NewMember => vec![0x4eu8, 0x4du8, 0x45u8, 0x4du8],
            OpTag::MembershipList => vec![0x4du8, 0x4cu8, 0x49u8, 0x53u8],
            OpTag::Get => vec![0x47u8, 0x45u8, 0x54u8, 0x20u8],
            OpTag::NewFileOwners => vec![0x4eu8, 0x46u8, 0x4fu8, 0x20u8],
            OpTag::SendFile => vec![0x46u8, 0x49u8, 0x4cu8, 0x45u8],
            OpTag::LostFiles => vec![0x4cu8, 0x4fu8, 0x53u8, 0x54u8],
        };
        assert(b@ =~= tag_bytes(*self));
        b
    }

    /// The tag that the first four bytes of `buf` spell, if they spell one.
    pub fn from_bytes(buf: &[u8]) -> (tag: Option<OpTag>)
        requires
            buf@.len() >= OP_TYPE_SIZE,
        ensures
            tag == tag_of_bytes(buf@.subrange(0, OP_TYPE_SIZE as int)),
    {
        let b0: u8 = buf[0];
        let b1: u8 = buf[1];
        let b2: u8 = buf[2];
        let b3: u8 = buf[3];
        let ghost head = buf@.subrange(0, OP_TYPE_SIZE as int);
        proof {
            assert(head =~= seq![b0, b1, b2, b3]);
            assert(seq![b0, b1, b2, b3][0] == b0);
            assert(seq![b0, b1, b2, b3][1] == b1);
            assert(seq![b0, b1, b2, b3][2] == b2);
            assert(seq![b0, b1, b2, b3][3] == b3);
            lemma_tag_round_trip(OpTag::Heartbeat);
        }
        if b0 == 0x48 && b1 == 0x42 && b2 == 0x20 && b3 == 0x20 {
            Some(OpTag::Heartbeat)
        } else if b0 == 0x4a && b1 == 0x4f && b2 == 0x49 && b3 == 0x4e {
            Some(OpTag::Join)
        } else if b0 == 0x4c && b1 == 0x45 && b2 == 0x41 && b3 == 0x56 {
            Some(OpTag::Leave)
        } else if b0 == 0x4e && b1 == 0x4d && b2 == 0x45 && b3 == 0x4d {
            Some(OpTag::NewMember)
        } else if b0 == 0x4d && b1 == 0x4c && b2 == 0x49 && b3 == 0x53 {
            Some(OpTag::MembershipList)
        } else if b0 == 0x47 && b1 == 0x45 && b2 == 0x54 && b3 == 0x20 {
            Some(OpTag::Get)
        } else if b0 == 0x4e && b1 == 0x46 && b2 == 0x4f && b3 == 0x20 {
            Some(OpTag::NewFileOwners)
        } else if b0 == 0x46 && b1 == 0x49 && b2 == 0x4c && b3 == 0x45 {
            Some(OpTag::SendFile)
        } else if b0 == 0x4c && b1 == 0x4f && b2 == 0x53 && b3 == 0x54 {
            Some(OpTag::LostFiles)
        } else {
            None
        }
    }
}

/// Builds a frame: appends to `base`, which holds the tag, the length of
/// the frame and the payload. Refuses a payload that the length field
/// cannot count.
pub fn create_buf(payload: &Vec<u8>, base: Vec<u8>) -> (r: Result<Vec<u8>, NodeError>)
    ensures
        HEADER_SIZE + payload@.len() <= u32::MAX ==> r is Ok && r->Ok_0@ == frame_of(
            base@,
            payload@,
        ),
        HEADER_SIZE + payload@.len() > u32::MAX ==> r == Err::<Vec<u8>, NodeError>(
            NodeError::FrameTooLarge,
        ),
{
    if payload.len() > (u32::MAX as usize) - HEADER_SIZE {
        return Err(NodeError::FrameTooLarge);
    }
    let size: u32 = (HEADER_SIZE + payload.len()) as u32;
    let mut buf = base;
    let mut length = u32_to_le_bytes(size);
    buf.append(&mut length);
    let mut i: usize = 0;
    while i < payload.len()
        invariant
            i <= payload@.len(),
            buf@ == base@ + spec_u32_to_le_bytes(size) + payload@.subrange(0, i as int),
        decreases payload@.len() - i,
    {
        buf.push(payload[i]);
        assert(payload@.subrange(0, i + 1) =~= payload@.subrange(0, i as int).push(payload@[i as int]));
        i = i + 1;
    }
    assert(payload@.subrange(0, i as int) =~= payload@);
    Ok(buf)
}

/// The length that a frame's header declares for the whole frame.
pub fn declared_length(header: &Vec<u8>) -> (r: Result<usize, NodeError>)
    ensures
        header@.len() < HEADER_SIZE ==> r == Err::<usize, NodeError>(NodeError::TruncatedFrame),
        header@.len() >= HEADER_SIZE ==> r == Ok::<usize, NodeError>(
            spec_u32_from_le_bytes(
                header@.subrange(OP_TYPE_SIZE as int, HEADER_SIZE as int),
            ) as usize,
        ),
{
    if header.len() < HEADER_SIZE {
        return Err(NodeError::TruncatedFrame);
    }
    let field = slice_subrange(header.as_slice(), OP_TYPE_SIZE, HEADER_SIZE);
    let n: u32 = u32_from_le_bytes(field);
    Ok(n as usize)
}

/// Reads a buffer as one frame and hands back its tag and its payload.
pub fn try_parse_buf(buf: &Vec<u8>) -> (r: Result<(OpTag, Vec<u8>), NodeError>)
    ensures
        match r {
            Ok((tag, payload)) => parsed_frame(buf@) == Ok::<(OpTag, Seq<u8>), NodeError>(
                (tag, payload@),
            ),
            Err(e) => parsed_frame(buf@) == Err::<(OpTag, Seq<u8>), NodeError>(e),
        },
{
    if buf.len() < HEADER_SIZE {
        return Err(NodeError::TruncatedFrame);
    }
    let tag = match OpTag::from_bytes(buf.as_slice()) {
        Some(tag) => tag,
        None => {
            return Err(NodeError::UnrecognizedHeader);
        },
    };
    let field = slice_subrange(buf.as_slice(), OP_TYPE_SIZE, HEADER_SIZE);
    let declared: u32 = u32_from_le_bytes(field);
    if declared as usize != buf.len() {
        return Err(NodeError::LengthMismatch);
    }
    let mut payload: Vec<u8> = Vec::new();
    let mut i: usize = HEADER_SIZE;
    while i < buf.len()
        invariant
            HEADER_SIZE <= i <= buf@.len(),
            payload@ == buf@.subrange(HEADER_SIZE as int, i as int),
        decreases buf@.len() - i,
    {
        payload.push(buf[i]);
        assert(buf@.subrange(HEADER_SIZE as int, i + 1) =~= buf@.subrange(
            HEADER_SIZE as int,
            i as int,
        ).push(buf@[i as int]));
        i = i + 1;
    }
    Ok((tag, payload))
}

impl Operation {
    /// The kind of the operation.
    pub fn tag(&self) -> (tag: OpTag)
        ensures
            tag == self.spec_tag(),
    {
        match self {
            Operation::Heartbeat(_) => OpTag::Heartbeat,
            Operation::Join(_) => OpTag::Join,
            Operation::Leave(_) => OpTag::Leave,
            Operation::NewMember(_) => OpTag::NewMember,
            Operation::MembershipList(_) => OpTag::MembershipList,
            Operation::Get(_) => OpTag::Get,
            Operation::NewFileOwners(_) => OpTag::NewFileOwners,
            Operation::SendFile(_) => OpTag::SendFile,
            Operation::LostFiles(_) => OpTag::LostFiles,
        }
    }

    /// The kind of the operation.
    pub open spec fn spec_tag(&self) -> OpTag {
        match self {
            Operation::Heartbeat(_) => OpTag::Heartbeat,
            Operation::Join(_) => OpTag::Join,
            Operation::Leave(_) => OpTag::Leave,
            Operation::NewMember(_) => OpTag::NewMember,
            Operation::MembershipList(_) => OpTag::MembershipList,
            Operation::Get(_) => OpTag::Get,
            Operation::NewFileOwners(_) => OpTag::NewFileOwners,
            Operation::SendFile(_) => OpTag::SendFile,
            Operation::LostFiles(_) => OpTag::LostFiles,
        }
    }

    /// The frame of the operation round its encoded payload.
    pub fn to_bytes(&self, payload: &Vec<u8>) -> (r: Result<Vec<u8>, NodeError>)
        ensures
            HEADER_SIZE + payload@.len() <= u32::MAX ==> r is Ok && r->Ok_0@ == frame_of(
                tag_bytes(self.spec_tag()),
                payload@,
            ),
            HEADER_SIZE + payload@.len() > u32::MAX ==> r == Err::<Vec<u8>, NodeError>(
                NodeError::FrameTooLarge,
            ),
    {
        create_buf(payload, self.tag().bytes())
    }

    /// A copy of the operation.
    pub fn duplicate(&self) -> (copy: Operation)
        ensures
            copy@ == self@,
    {
        match self {
            Operation::Heartbeat(op) => Operation::Heartbeat(
                HeartbeatOperation { id: op.id.clone() },
            ),
            Operation::Join(op) => Operation::Join(
                JoinOperation { id: op.id.clone(), tcp_addr: op.tcp_addr.clone() },
            ),
            Operation::Leave(op) => Operation::Leave(LeaveOperation { id: op.id.clone() }),
            Operation::NewMember(op) => Operation::NewMember(
                NewMemberOperation { id: op.id.clone(), tcp_addr: op.tcp_addr.clone() },
            ),
            Operation::MembershipList(op) => Operation::MembershipList(
                MembershipListOperation {
                    membership_list: clone_texts(&op.membership_list),
                    udp_to_tcp_map: clone_pairs(&op.udp_to_tcp_map),
                },
            ),
            Operation::Get(op) => Operation::Get(
                GetOperation {
                    distributed_filename: op.distributed_filename.clone(),
                    local_path: op.local_path.clone(),
                },
            ),
            Operation::NewFileOwners(op) => Operation::NewFileOwners(
                NewFileOwnersOperation {
                    distributed_filename: op.distributed_filename.clone(),
                    new_owners: clone_texts(&op.new_owners),
                    from_failure: op.from_failure,
                },
            ),
            Operation::SendFile(op) => Operation::SendFile(
                SendFileOperation {
                    filename: op.filename.clone(),
                    data: clone_bytes(&op.data),
                    is_distributed: op.is_distributed,
                },
            ),
            Operation::LostFiles(op) => Operation::LostFiles(
                LostFilesOperation {
                    failed_owner: op.failed_owner.clone(),
                    lost_files: clone_texts(&op.lost_files),
                },
            ),
        }
    }
}

/// A copy of a list of pairs of strings.
pub fn clone_pairs(list: &Vec<(String, String)>) -> (copy: Vec<(String, String)>)
    ensures
        pair_texts(copy@) == pair_texts(list@),
{
    let mut copy: Vec<(String, String)> = Vec::new();
    let mut i: usize = 0;
    while i < list.len()
        invariant
            i <= list.len(),
            copy.len() == i,
            forall|j: int|
                0 <= j < i ==> copy@[j].0@ == list@[j].0@ && copy@[j].1@ == list@[j].1@,
        decreases list.len() - i,
    {
        copy.push((list[i].0.clone(), list[i].1.clone()));
        i = i + 1;
    }
    assert(pair_texts(copy@) =~= pair_texts(list@));
    copy
}

/// A copy of a list of bytes.
pub fn clone_bytes(list: &Vec<u8>) -> (copy: Vec<u8>)
    ensures
        copy@ == list@,
{
    let mut copy: Vec<u8> = Vec::new();
    let mut i: usize = 0;
    while i < list.len()
        invariant
            i <= list.len(),
            copy@ == list@.subrange(0, i as int),
        decreases list.len() - i,
    {
        copy.push(list[i]);
        assert(list@.subrange(0, i + 1) =~= list@.subrange(0, i as int).push(list@[i as int]));
        i = i + 1;
    }
    assert(list@.subrange(0, i as int) =~= list@);
    copy
}

/// Where an operation goes.
#[derive(Debug)]
pub enum Destinations {
    /// UDP endpoints.
    UDPAddr(Vec<String>),
    /// TCP endpoints, to be connected to.
    TCPAddr(Vec<String>),
    /// Open TCP streams, each named by the handle under which the caller keeps it.
    TCPStream(Vec<u64>),
}

/// The mathematical content of a `Destinations`.
pub enum DestinationsView {
    UDPAddr(Seq<Seq<char>>),
    TCPAddr(Seq<Seq<char>>),
    TCPStream(Seq<u64>),
}

impl View for Destinations {
    type V = DestinationsView;

    open spec fn view(&self) -> DestinationsView {
        match self {
            Destinations::UDPAddr(addrs) => DestinationsView::UDPAddr(texts(addrs@)),
            Destinations::TCPAddr(addrs) => DestinationsView::TCPAddr(texts(addrs@)),
            Destinations::TCPStream(streams) => DestinationsView::TCPStream(streams@),
        }
    }
}

/// An operation together with its destinations: one item of the outbound queue.
#[derive(Debug)]
pub struct SendableOperation {
    pub dests: Destinations,
    pub operation: Operation,
}

/// The mathematical content of a `SendableOperation`.
pub struct SendableView {
    pub dests: DestinationsView,
    pub operation: OperationView,
}

impl View for SendableOperation {
    type V = SendableView;

    open spec fn view(&self) -> SendableView {
        SendableView { dests: self.dests@, operation: self.operation@ }
    }
}

/// The contents of a list of queue items.
pub open spec fn sendable_views(ops: Seq<SendableOperation>) -> Seq<SendableView> {
    Seq::new(ops.len(), |i: int| ops[i]@)
}

/// The queue item that sends `operation` to the UDP endpoints of `ids`.
pub open spec fn sendable_for_ids(ids: Seq<Seq<char>>, operation: OperationView) -> SendableView {
    SendableView { dests: DestinationsView::UDPAddr(id_addresses(ids)), operation }
}

impl SendableOperation {
    /// The operation, addressed to the UDP endpoints of the nodes `dest_ids`.
    pub fn for_id_list(dest_ids: Vec<String>, operation: Operation) -> (item: Self)
        requires
            all_valid(texts(dest_ids@)),
        ensures
            item@ == sendable_for_ids(texts(dest_ids@), operation@),
    {
        SendableOperation { dests: Destinations::UDPAddr(ips_from_ids(&dest_ids)), operation }
    }

    /// The operation, addressed to open streams.
    pub fn for_tcp_stream_list(streams: Vec<u64>, operation: Operation) -> (item: Self)
        ensures
            item@ == (SendableView {
                dests: DestinationsView::TCPStream(streams@),
                operation: operation@,
            }),
    {
        SendableOperation { dests: Destinations::TCPStream(streams), operation }
    }

    /// The operation, addressed to one open stream.
    pub fn for_single_tcp_stream(stream: u64, operation: Operation) -> (item: Self)
        ensures
            item@ == (SendableView {
                dests: DestinationsView::TCPStream(seq![stream]),
                operation: operation@,
            }),
    {
        let mut streams: Vec<u64> = Vec::new();
        streams.push(stream);
        assert(streams@ =~= seq![stream]);
        Self::for_tcp_stream_list(streams, operation)
    }

    /// The operation, addressed to every member.
    pub fn for_everyone(state: &NodeState, operation: Operation) -> (item: Self)
        requires
            state@.sorted(),
        ensures
            item@ == sendable_for_ids(state@.membership, operation@),
    {
        Self::for_id_list(clone_texts(&state.membership_list), operation)
    }

    /// The operation, addressed to the node `dest_id`.
    pub fn for_single(dest_id: String, operation: Operation) -> (item: Self)
        requires
            crate::ident::valid_id(dest_id@),
        ensures
            item@ == sendable_for_ids(seq![dest_id@], operation@),
    {
        let mut ids: Vec<String> = Vec::new();
        ids.push(dest_id);
        assert(texts(ids@) =~= seq![dest_id@]);
        Self::for_id_list(ids, operation)
    }

    /// The operation, addressed to this node's successors.
    pub fn for_successors(state: &NodeState, operation: Operation) -> (item: Self)
        requires
            state@.wf(),
        ensures
            item@ == sendable_for_ids(state@.successors, operation@),
    {
        proof {
            lemma_neighbors_members(
                state@.membership,
                state@.my_id,
                true,
                crate::constants::NUM_SUCCESSORS as nat,
            );
        }
        Self::for_id_list(clone_texts(&state.successor_list), operation)
    }

    /// The operation, addressed to the owners of `filename`, in the order in
    /// which the ownership map lists them; to nobody if the file is unknown.
    pub fn for_owners(state: &NodeState, filename: &String, operation: Operation) -> (item: Self)
        requires
            state@.wf(),
        ensures
            item.operation@ == operation@,
            item.dests@ is UDPAddr,
            exists|owners: Seq<Seq<char>>|
                #![trigger id_addresses(owners)]
                {
                    &&& item.dests@ == DestinationsView::UDPAddr(id_addresses(owners))
                    &&& owners.no_duplicates()
                    &&& owners.to_set() == if state@.file_owners.contains_key(filename@) {
                        state@.file_owners[filename@]
                    } else {
                        Set::<Seq<char>>::empty()
                    }
                },
    {
        let id_list: Vec<String> = match state.all_file_owners.get(filename.as_str()) {
            Some(owners) => owners.members(),
            None => Vec::new(),
        };
        proof {
            let owners = texts(id_list@);
            if state@.file_owners.contains_key(filename@) {
                assert forall|i: int| 0 <= i < owners.len() implies crate::ident::valid_id(
                    #[trigger] owners[i],
                ) by {
                    assert(owners.to_set().contains(owners[i]));
                    assert(state@.file_owners[filename@].contains(owners[i]));
                }
            } else {
                assert(owners =~= Seq::<Seq<char>>::empty());
                assert(owners.to_set() =~= Set::<Seq<char>>::empty());
            }
        }
        Self::for_id_list(id_list, operation)
    }

    /// The item around a copy of the operation.
    pub fn duplicate(&self) -> (copy: Self)
        ensures
            copy@ == self@,
    {
        let dests = match &self.dests {
            Destinations::UDPAddr(addrs) => Destinations::UDPAddr(clone_texts(addrs)),
            Destinations::TCPAddr(addrs) => Destinations::TCPAddr(clone_texts(addrs)),
            Destinations::TCPStream(streams) => {
                let mut copy: Vec<u64> = Vec::new();
                let mut i: usize = 0;
                while i < streams.len()
                    invariant
                        i <= streams.len(),
                        copy@ == streams@.subrange(0, i as int),
                    decreases streams.len() - i,
                {
                    copy.push(streams[i]);
                    assert(streams@.subrange(0, i + 1) =~= streams@.subrange(0, i as int).push(
                        streams@[i as int],
                    ));
                    i = i + 1;
                }
                assert(streams@.subrange(0, i as int) =~= streams@);
                Destinations::TCPStream(copy)
            },
        };
        SendableOperation { dests, operation: self.operation.duplicate() }
    }
}

/// Where an operation came from.
#[derive(Debug)]
pub enum Source {
    /// The UDP endpoint that sent the datagram.
    Addr(String),
    /// The open TCP stream on which the operation arrived, by its handle.
    TcpStream(u64),
}

/// The mathematical content of a `Source`.
pub enum SourceView {
    Addr(Seq<char>),
    TcpStream(u64),
}

impl View for Source {
    type V = SourceView;

    open spec fn view(&self) -> SourceView {
        match self {
            Source::Addr(addr) => SourceView::Addr(addr@),
            Source::TcpStream(stream) => SourceView::TcpStream(*stream),
        }
    }
}

impl Source {
    /// The address of a source that is one.
    pub fn into_addr(self) -> (r: Result<String, NodeError>)
        ensures
            match self {
                Source::Addr(addr) => r is Ok && r->Ok_0@ == addr@,
                Source::TcpStream(_) => r == Err::<String, NodeError>(NodeError::NotAnAddress),
            },
    {
        match self {
            Source::Addr(addr) => Ok(addr),
            Source::TcpStream(_) => Err(NodeError::NotAnAddress),
        }
    }

    /// The stream of a source that is one.
    pub fn into_stream(self) -> (r: Result<u64, NodeError>)
        ensures
            match self {
                Source::Addr(_) => r == Err::<u64, NodeError>(NodeError::NotAStream),
                Source::TcpStream(stream) => r == Ok::<u64, NodeError>(stream),
            },
    {
        match self {
            Source::Addr(_) => Err(NodeError::NotAStream),
            Source::TcpStream(stream) => Ok(stream),
        }
    }
}

/// Work that an operation asks of the caller, who alone touches files and
/// sockets.
#[derive(Debug)]
pub enum Action {
    /// Write `data` to the file at `path`, in place of what it held.
    WriteFile { path: String, data: Vec<u8> },
    /// Read the file at `path` and answer on `stream` with a `SendFile`
    /// operation that names the file `reply_filename`.
    ReplyWithFile { stream: u64, path: String, reply_filename: String },
    /// Fetch the distributed file from its owners into `local_path`.
    FetchFile { distributed_filename: String, local_path: String },
}

/// The mathematical content of an `Action`.
pub enum ActionView {
    WriteFile { path: Seq<char>, data: Seq<u8> },
    ReplyWithFile { stream: u64, path: Seq<char>, reply_filename: Seq<char> },
    FetchFile { distributed_filename: Seq<char>, local_path: Seq<char> },
}

impl View for Action {
    type V = ActionView;

    open spec fn view(&self) -> ActionView {
        match self {
            Action::WriteFile { path, data } => ActionView::WriteFile { path: path@, data: data@ },
            Action::ReplyWithFile { stream, path, reply_filename } => ActionView::ReplyWithFile {
                stream: *stream,
                path: path@,
                reply_filename: reply_filename@,
            },
            Action::FetchFile { distributed_filename, local_path } => ActionView::FetchFile {
                distributed_filename: distributed_filename@,
                local_path: local_path@,
            },
        }
    }
}

/// The contents of a list of actions.
pub open spec fn action_views(actions: Seq<Action>) -> Seq<ActionView> {
    Seq::new(actions.len(), |i: int| actions[i]@)
}

/// What executing an operation leaves for the caller to do: operations to
/// send, in order, and work on files.
#[derive(Debug)]
pub struct Outcome {
    pub operations: Vec<SendableOperation>,
    pub actions: Vec<Action>,
}

/// The mathematical content of an `Outcome`.
pub struct OutcomeView {
    pub operations: Seq<SendableView>,
    pub actions: Seq<ActionView>,
}

impl View for Outcome {
    type V = OutcomeView;

    open spec fn view(&self) -> OutcomeView {
        OutcomeView {
            operations: sendable_views(self.operations@),
            actions: action_views(self.actions@),
        }
    }
}

/// The outcome that asks for nothing.
pub open spec fn nothing_to_do() -> OutcomeView {
    OutcomeView { operations: Seq::empty(), actions: Seq::empty() }
}

impl Outcome {
    /// The outcome that asks for nothing.
    pub fn nothing() -> (outcome: Outcome)
        ensures
            outcome@ == nothing_to_do(),
    {
        let outcome = Outcome { operations: Vec::new(), actions: Vec::new() };
        assert(outcome@.operations =~= Seq::<SendableView>::empty());
        assert(outcome@.actions =~= Seq::<ActionView>::empty());
        outcome
    }

    /// The outcome that asks for one operation to be sent.
    pub fn send(item: SendableOperation) -> (outcome: Outcome)
        ensures
            outcome@ == (OutcomeView { operations: seq![item@], actions: Seq::empty() }),
    {
        let mut operations: Vec<SendableOperation> = Vec::new();
        operations.push(item);
        let outcome = Outcome { operations, actions: Vec::new() };
        assert(outcome@.operations =~= seq![item@]);
        assert(outcome@.actions =~= Seq::<ActionView>::empty());
        outcome
    }

    /// Adds what `other` asks for after what this outcome asks for.
    pub fn append(&mut self, other: Outcome)
        ensures
            final(self)@ == (OutcomeView {
                operations: old(self)@.operations + other@.operations,
                actions: old(self)@.actions + other@.actions,
            }),
    {
        let mut other = other;
        let ghost first = self@;
        let ghost second = other@;
        self.operations.append(&mut other.operations);
        self.actions.append(&mut other.actions);
        assert(self@.operations =~= first.operations + second.operations);
        assert(self@.actions =~= first.actions + second.actions);
    }
}

/// To whom a TCP batch goes: endpoints to connect to, or streams that are open.
#[derive(Debug)]
pub enum TcpTargets {
    Connect(Vec<String>),
    Streams(Vec<u64>),
}

impl SendableOperation {
    /// Prepares the batch for UDP: the destinations and, made once for all
    /// of them, the frame round `payload`, the encoded operation. Refuses
    /// destinations that are not UDP endpoints.
    pub fn write_all_udp(&self, payload: &Vec<u8>) -> (r: Result<(Vec<String>, Vec<u8>), NodeError>)
        ensures
            !(self.dests@ is UDPAddr) ==> r == Err::<(Vec<String>, Vec<u8>), NodeError>(
                NodeError::WrongDestinations,
            ),
            self.dests@ is UDPAddr && HEADER_SIZE + payload@.len() > u32::MAX ==> r == Err::<
                (Vec<String>, Vec<u8>),
                NodeError,
            >(NodeError::FrameTooLarge),
            self.dests@ is UDPAddr && HEADER_SIZE + payload@.len() <= u32::MAX ==> r is Ok
                && texts(r->Ok_0.0@) == self.dests@->UDPAddr_0 && r->Ok_0.1@ == frame_of(
                tag_bytes(self.operation.spec_tag()),
                payload@,
            ),
    {
        let dests = match &self.dests {
            Destinations::UDPAddr(dests) => clone_texts(dests),
            _ => {
                return Err(NodeError::WrongDestinations);
            },
        };
        match self.operation.to_bytes(payload) {
            Ok(serialized) => Ok((dests, serialized)),
            Err(e) => Err(e),
        }
    }

    /// Prepares the batch for TCP: the targets and, made once for all of
    /// them, the frame round `payload`, the encoded operation. UDP
    /// endpoints are looked up in the node's address map, and the batch is
    /// refused if one of them has no entry.
    pub fn write_all_tcp_async(&self, state: &NodeState, payload: &Vec<u8>) -> (r: Result<
        (TcpTargets, Vec<u8>),
        NodeError,
    >)
        ensures
            match r {
                Ok((targets, frame)) => {
                    &&& HEADER_SIZE + payload@.len() <= u32::MAX
                    &&& frame@ == frame_of(tag_bytes(self.operation.spec_tag()), payload@)
                    &&& match self.dests@ {
                        DestinationsView::UDPAddr(udp) => targets is Connect && (forall|i: int|
                            0 <= i < udp.len() ==> state@.udp_to_tcp.contains_key(#[trigger] udp[i]))
                            && texts(targets->Connect_0@) == Seq::new(
                            udp.len(),
                            |i: int| state@.udp_to_tcp[udp[i]],
                        ),
                        DestinationsView::TCPAddr(tcp) => targets is Connect && texts(
                            targets->Connect_0@,
                        ) == tcp,
                        DestinationsView::TCPStream(streams) => targets is Streams
                            && targets->Streams_0@ == streams,
                    }
                },
                Err(e) => if self.dests@ is UDPAddr && !(forall|i: int|
                    0 <= i < self.dests@->UDPAddr_0.len() ==> state@.udp_to_tcp.contains_key(
                        #[trigger] self.dests@->UDPAddr_0[i],
                    )) {
                    e == NodeError::NoTcpAddress
                } else {
                    e == NodeError::FrameTooLarge && HEADER_SIZE + payload@.len() > u32::MAX
                },
            },
    {
        let targets = match &self.dests {
            Destinations::UDPAddr(dests) => {
                match crate::heartbeat::tcp_ips_from_udp_ips(state, dests) {
                    Ok(tcp) => TcpTargets::Connect(tcp),
                    Err(e) => {
                        proof {
                            assert(self.dests@->UDPAddr_0 == texts(dests@));
                            if forall|i: int|
                                0 <= i < self.dests@->UDPAddr_0.len()
                                    ==> state@.udp_to_tcp.contains_key(
                                    #[trigger] self.dests@->UDPAddr_0[i],
                                ) {
                                assert forall|i: int| 0 <= i < dests@.len() implies state@.udp_to_tcp.contains_key(
                                    #[trigger] texts(dests@)[i],
                                ) by {
                                    assert(state@.udp_to_tcp.contains_key(
                                        self.dests@->UDPAddr_0[i],
                                    ));
                                }
                            }
                        }
                        return Err(e);
                    },
                }
            },
            Destinations::TCPAddr(dests) => TcpTargets::Connect(clone_texts(dests)),
            Destinations::TCPStream(streams) => {
                let mut copy: Vec<u64> = Vec::new();
                let mut i: usize = 0;
                while i < streams.len()
                    invariant
                        i <= streams.len(),
                        copy@ == streams@.subrange(0, i as int),
                    decreases streams.len() - i,
                {
                    copy.push(streams[i]);
                    assert(streams@.subrange(0, i + 1) =~= streams@.subrange(0, i as int).push(
                        streams@[i as int],
                    ));
                    i = i + 1;
                }
                assert(streams@.subrange(0, i as int) =~= streams@);
                TcpTargets::Streams(copy)
            },
        };
        match self.operation.to_bytes(payload) {
            Ok(serialized) => Ok((targets, serialized)),
            Err(e) => Err(e),
        }
    }
}

/// The bytes of an ASCII text, one for each character. A character beyond
/// ASCII gives the low byte of its code.
pub fn str_to_vec(s: &str) -> (bytes: Vec<u8>)
    ensures
        bytes@.len() == s@.len(),
        forall|i: int| 0 <= i < s@.len() ==> bytes@[i] == (s@[i] as u32 % 256) as u8,
{
    let mut bytes: Vec<u8> = Vec::new();
    for c in it: s.chars()
        invariant
            it.seq() == s@,
            bytes@.len() == it.index(),
            forall|i: int| 0 <= i < bytes@.len() ==> bytes@[i] == (s@[i] as u32 % 256) as u8,
    {
        let code: u32 = c as u32;
        bytes.push((code % 256) as u8);
    }
    bytes
}

} // verus!

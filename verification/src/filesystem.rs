//! File placement: which nodes own a file, how ownership spreads and
//! shrinks, and how the master repairs it when a node fails.

use crate::constants::{Timestamp, DATA_DIR, NUM_OWNERS};
use crate::easyhash::{hash_text, EasyHash};
use crate::error::NodeError;
use crate::ident::{all_valid, texts, valid_id};
use crate::heartbeat::all_valid_ids;
use crate::node::{NodeState, NodeView};
use crate::operation::{
    clone_bytes, Action, ActionView, GetOperation, LostFilesOperation, NewFileOwnersOperation,
    Operation, OperationView, Outcome, OutcomeView, SendFileOperation, SendableOperation,
    SendableView, Source, sendable_for_ids,
};
use crate::ring::{gen_neighbor_list_from, lemma_ring_walk_members, neighbors_from, neighbor_count};
use crate::table::StrSet;
use vstd::prelude::*;
use vstd::string::*;

verus! {

/// Where the stored copy of a distributed file lies: in the data directory,
/// under the file's own name.
pub open spec fn data_path(filename: Seq<char>) -> Seq<char> {
    DATA_DIR@ + seq!['/'] + filename
}

/// The path of the stored copy of a distributed file.
pub fn distributed_file_path(filename: &String) -> (path: String)
    ensures
        path@ == data_path(filename@),
{
    let mut path = String::from_str(DATA_DIR);
    proof {
        reveal_strlit("/");
    }
    path.append("/");
    path.append(filename.as_str());
    assert(path@ =~= data_path(filename@));
    path
}

/// The place on the ring at which a file is anchored: its hash modulo the
/// number of members.
pub open spec fn file_anchor(size: nat, filename: Seq<char>) -> int {
    (hash_text(filename) as int) % (size as int)
}

/// The owners that a fresh placement gives a file: the member at the file's
/// anchor and those after it, up to the number of owners.
pub open spec fn owner_candidates(members: Seq<Seq<char>>, filename: Seq<char>) -> Seq<Seq<char>> {
    neighbors_from(
        members,
        file_anchor(members.len(), filename),
        true,
        NUM_OWNERS as nat,
        true,
    )
}

/// The first candidate that is no owner yet.
pub open spec fn first_new_owner(
    candidates: Seq<Seq<char>>,
    owners: Set<Seq<char>>,
) -> Option<Seq<char>>
    decreases candidates.len(),
{
    if candidates.len() == 0 {
        None
    } else if !owners.contains(candidates[0]) {
        Some(candidates[0])
    } else {
        first_new_owner(candidates.drop_first(), owners)
    }
}

/// The owners of a file as the node knows them; none for an unknown file.
pub open spec fn known_owners(v: NodeView, filename: Seq<char>) -> Set<Seq<char>> {
    if v.file_owners.contains_key(filename) {
        v.file_owners[filename]
    } else {
        Set::empty()
    }
}

/// With one member, that member alone owns every file.
pub proof fn lemma_single_owner(members: Seq<Seq<char>>, filename: Seq<char>)
    requires
        members.len() == 1,
    ensures
        owner_candidates(members, filename) == seq![members[0]],
{
    crate::ring::lemma_single_member_ring(
        members,
        file_anchor(1, filename),
        true,
        NUM_OWNERS as nat,
    );
}

/// Candidates are members, each valid where the members are, and at most
/// as many as a file has owners.
pub proof fn lemma_owner_candidates(members: Seq<Seq<char>>, filename: Seq<char>)
    requires
        members.len() > 0,
    ensures
        forall|j: int|
            0 <= j < owner_candidates(members, filename).len() ==> members.contains(
                #[trigger] owner_candidates(members, filename)[j],
            ),
        all_valid(members) ==> all_valid(owner_candidates(members, filename)),
        0 < owner_candidates(members, filename).len() <= NUM_OWNERS,
{
    lemma_ring_walk_members(
        members,
        file_anchor(members.len(), filename),
        true,
        neighbor_count(members.len(), NUM_OWNERS as nat, true),
    );
}

/// The owners that a fresh placement gives the file `filename`. Fails with
/// `MembershipEmpty` where there is no member to own it.
pub fn gen_file_owners(state: &NodeState, filename: &str) -> (r: Result<Vec<String>, NodeError>)
    ensures
        state@.membership.len() == 0 ==> r == Err::<Vec<String>, NodeError>(
            NodeError::MembershipEmpty,
        ),
        state@.membership.len() > 0 ==> r is Ok && texts(r->Ok_0@) == owner_candidates(
            state@.membership,
            filename@,
        ),
{
    let size: usize = state.membership_list.len();
    if size == 0 {
        return Err(NodeError::MembershipEmpty);
    }
    let file_idx: u64 = filename.easyhash();
    let anchor: usize = (file_idx % (size as u64)) as usize;
    Ok(gen_neighbor_list_from(&state.membership_list, anchor, true, NUM_OWNERS, true))
}

/// A new owner for the file `filename`: the first of its candidates that
/// does not own it yet.
pub fn gen_new_file_owner(state: &NodeState, filename: &str) -> (r: Result<String, NodeError>)
    ensures
        match r {
            Ok(owner) => {
                &&& state@.file_owners.contains_key(filename@)
                &&& state@.membership.len() > 0
                &&& first_new_owner(
                    owner_candidates(state@.membership, filename@),
                    state@.file_owners[filename@],
                ) == Some(owner@)
            },
            Err(e) => e == if !state@.file_owners.contains_key(filename@) {
                NodeError::NoOwnerFound
            } else if state@.membership.len() == 0 {
                NodeError::MembershipEmpty
            } else {
                NodeError::NoNewOwners
            } && (state@.file_owners.contains_key(filename@) && state@.membership.len() > 0
                ==> first_new_owner(
                owner_candidates(state@.membership, filename@),
                state@.file_owners[filename@],
            ) is None),
        },
{
    let owners = match state.all_file_owners.get(filename) {
        Some(owners) => owners,
        None => {
            return Err(NodeError::NoOwnerFound);
        },
    };
    let potential_owners = match gen_file_owners(state, filename) {
        Ok(list) => list,
        Err(e) => {
            return Err(e);
        },
    };
    let ghost candidates = texts(potential_owners@);
    let mut i: usize = 0;
    assert(candidates.subrange(0, candidates.len() as int) =~= candidates);
    while i < potential_owners.len()
        invariant
            i <= potential_owners.len(),
            candidates == texts(potential_owners@),
            candidates == owner_candidates(state@.membership, filename@),
            state@.membership.len() > 0,
            state@.file_owners.contains_key(filename@),
            state@.file_owners[filename@] == owners@,
            first_new_owner(candidates, owners@) == first_new_owner(
                candidates.subrange(i as int, candidates.len() as int),
                owners@,
            ),
        decreases potential_owners.len() - i,
    {
        let ghost rest = candidates.subrange(i as int, candidates.len() as int);
        assert(rest[0] == potential_owners@[i as int]@);
        assert(rest.drop_first() =~= candidates.subrange(i + 1, candidates.len() as int));
        if !owners.contains(potential_owners[i].as_str()) {
            return Ok(potential_owners[i].clone());
        }
        i = i + 1;
    }
    Err(NodeError::NoNewOwners)
}

/// The view after the owners `new_owners` of `file` were announced: they
/// are added to the owners that the node knows. Where it knows them all
/// already, nothing changes.
pub open spec fn owners_announced(
    v: NodeView,
    file: Seq<char>,
    new_owners: Set<Seq<char>>,
) -> NodeView {
    if new_owners.subset_of(known_owners(v, file)) {
        v
    } else {
        NodeView {
            file_owners: v.file_owners.insert(file, known_owners(v, file).union(new_owners)),
            ..v
        }
    }
}

/// What an announcement of owners asks for: where it adds an owner, the
/// same announcement goes on to the successors, and a node that became an
/// owner because another failed fetches the file; where it adds none,
/// nothing, which ends the gossip.
pub open spec fn announcement_outcome(
    v: NodeView,
    announcement: OperationView,
    file: Seq<char>,
    new_owners: Set<Seq<char>>,
    from_failure: bool,
) -> OutcomeView {
    if new_owners.subset_of(known_owners(v, file)) {
        crate::operation::nothing_to_do()
    } else {
        OutcomeView {
            operations: seq![sendable_for_ids(v.successors, announcement)],
            actions: if from_failure && new_owners.contains(v.my_id) && !known_owners(
                v,
                file,
            ).contains(v.my_id) {
                seq![
                    ActionView::FetchFile {
                        distributed_filename: file,
                        local_path: data_path(file),
                    },
                ]
            } else {
                Seq::empty()
            },
        }
    }
}

impl NewFileOwnersOperation {
    /// Adds the announced owners to those that the node knows for the file.
    /// An announcement that names an identifier without a separator is
    /// refused whole.
    pub fn execute(&self, state: &mut NodeState, source: &Source, now: Timestamp) -> (r: Result<
        Outcome,
        NodeError,
    >)
        requires
            old(state)@.wf(),
        ensures
            final(state)@.wf(),
            !all_valid(texts(self.new_owners@)) ==> r == Err::<Outcome, NodeError>(
                NodeError::MalformedId,
            ) && final(state)@ == old(state)@,
            all_valid(texts(self.new_owners@)) ==> r is Ok && final(state)@ == owners_announced(
                old(state)@,
                self.distributed_filename@,
                texts(self.new_owners@).to_set(),
            ) && r->Ok_0@ == announcement_outcome(
                old(state)@,
                Operation::NewFileOwners(*self)@,
                self.distributed_filename@,
                texts(self.new_owners@).to_set(),
                self.from_failure,
            ),
    {
        if !all_valid_ids(&self.new_owners) {
            return Err(NodeError::MalformedId);
        }
        let ghost before = state@;
        let ghost file = self.distributed_filename@;
        let ghost ids = texts(self.new_owners@);
        let ghost existing = known_owners(before, file);
        let mut owners: StrSet = match state.all_file_owners.get(
            self.distributed_filename.as_str(),
        ) {
            Some(owners) => owners.clone(),
            None => StrSet::new(),
        };
        let mut any_added = false;
        let mut me_added = false;
        let mut i: usize = 0;
        proof {
            assert(ids.subrange(0, 0).to_set() =~= Set::<Seq<char>>::empty());
            assert(owners@ =~= existing.union(ids.subrange(0, 0).to_set()));
        }
        while i < self.new_owners.len()
            invariant
                i <= self.new_owners.len(),
                ids == texts(self.new_owners@),
                state@ == before,
                owners@ == existing.union(ids.subrange(0, i as int).to_set()),
                any_added <==> exists|j: int| 0 <= j < i && !existing.contains(#[trigger] ids[j]),
                me_added <==> (!existing.contains(before.my_id) && exists|j: int|
                    0 <= j < i && #[trigger] ids[j] == before.my_id),
            decreases self.new_owners.len() - i,
        {
            let id = &self.new_owners[i];
            let ghost prefix = ids.subrange(0, i as int);
            assert(ids[i as int] == id@);
            let added = owners.insert(id.clone());
            proof {
                let upto = ids.subrange(0, i + 1);
                assert(upto =~= prefix.push(id@));
                crate::table::lemma_to_set_push(prefix, id@);
                assert(owners@ =~= existing.union(upto.to_set()));
                if !added && !existing.contains(id@) {
                    assert(prefix.to_set().contains(id@));
                    let j = choose|j: int| 0 <= j < prefix.len() && prefix[j] == id@;
                    assert(ids[j] == id@);
                }
            }
            if added {
                any_added = true;
                if crate::ident::same_text(id.as_str(), state.my_id.as_str()) {
                    me_added = true;
                }
            }
            i = i + 1;
        }
        proof {
            assert(ids.subrange(0, i as int) =~= ids);
            if any_added {
                let j = choose|j: int| 0 <= j < ids.len() && !existing.contains(#[trigger] ids[j]);
                assert(ids.to_set().contains(ids[j]));
            } else {
                assert forall|x: Seq<char>| ids.to_set().contains(x) implies existing.contains(
                    x,
                ) by {
                    let j = choose|j: int| 0 <= j < ids.len() && ids[j] == x;
                    assert(existing.contains(ids[j]));
                }
            }
            if ids.to_set().contains(before.my_id) {
                let j = choose|j: int| 0 <= j < ids.len() && ids[j] == before.my_id;
                assert(ids[j] == before.my_id);
            }
        }
        if !any_added {
            return Ok(Outcome::nothing());
        }
        let forward = SendableOperation::for_successors(
            state,
            Operation::NewFileOwners(
                NewFileOwnersOperation {
                    distributed_filename: self.distributed_filename.clone(),
                    new_owners: crate::ident::clone_texts(&self.new_owners),
                    from_failure: self.from_failure,
                },
            ),
        );
        state.all_file_owners.insert(self.distributed_filename.clone(), owners);
        proof {
            assert(state@.file_owners =~= before.file_owners.insert(
                file,
                existing.union(ids.to_set()),
            ));
            assert forall|f: Seq<char>, o: Seq<char>|
                state@.file_owners.contains_key(f) && #[trigger] state@.file_owners[f].contains(
                    o,
                ) implies valid_id(o) by {
                if f == file && !existing.contains(o) {
                    let j = choose|j: int| 0 <= j < ids.len() && ids[j] == o;
                    assert(valid_id(ids[j]));
                } else {
                    assert(before.file_owners.contains_key(f) && before.file_owners[f].contains(o));
                }
            }
        }
        let mut outcome = Outcome::send(forward);
        if self.from_failure && me_added {
            outcome.actions.push(
                Action::FetchFile {
                    distributed_filename: self.distributed_filename.clone(),
                    local_path: distributed_file_path(&self.distributed_filename),
                },
            );
            assert(outcome@.actions =~= seq![
                ActionView::FetchFile { distributed_filename: file, local_path: data_path(file) },
            ]);
            assert(outcome@.operations =~= seq![forward@]);
        }
        Ok(outcome)
    }
}

/// The view after the node `failed` was struck from the owners of the
/// files `lost`. Files that the node does not know stay unknown.
pub open spec fn owner_forgotten(
    v: NodeView,
    failed: Seq<char>,
    lost: Set<Seq<char>>,
) -> NodeView {
    NodeView {
        file_owners: Map::new(
            |f: Seq<char>| v.file_owners.contains_key(f),
            |f: Seq<char>|
                if lost.contains(f) {
                    v.file_owners[f].remove(failed)
                } else {
                    v.file_owners[f]
                },
        ),
        ..v
    }
}

/// Whether `failed` owns, as far as the node knows, one of the files `lost`.
pub open spec fn owns_any(v: NodeView, failed: Seq<char>, lost: Seq<Seq<char>>) -> bool {
    exists|j: int|
        0 <= j < lost.len() && v.file_owners.contains_key(#[trigger] lost[j])
            && v.file_owners[lost[j]].contains(failed)
}

impl LostFilesOperation {
    /// Strikes the failed node from the owners of the lost files. Where that
    /// changed anything, the same operation goes on to the successors;
    /// where it changed nothing, nothing is sent.
    pub fn execute(&self, state: &mut NodeState, source: &Source, now: Timestamp) -> (r: Result<
        Outcome,
        NodeError,
    >)
        requires
            old(state)@.wf(),
        ensures
            final(state)@.wf(),
            r is Ok,
            final(state)@ == owner_forgotten(
                old(state)@,
                self.failed_owner@,
                texts(self.lost_files@).to_set(),
            ),
            r->Ok_0@ == if owns_any(old(state)@, self.failed_owner@, texts(self.lost_files@)) {
                OutcomeView {
                    operations: seq![
                        sendable_for_ids(old(state)@.successors, Operation::LostFiles(*self)@),
                    ],
                    actions: Seq::empty(),
                }
            } else {
                crate::operation::nothing_to_do()
            },
    {
        let forward = SendableOperation::for_successors(
            state,
            Operation::LostFiles(
                LostFilesOperation {
                    failed_owner: self.failed_owner.clone(),
                    lost_files: crate::ident::clone_texts(&self.lost_files),
                },
            ),
        );
        let ghost before = state@;
        let ghost failed = self.failed_owner@;
        let ghost lost = texts(self.lost_files@);
        let mut did_remove = false;
        let mut i: usize = 0;
        proof {
            assert(lost.subrange(0, 0).to_set() =~= Set::<Seq<char>>::empty());
            assert(state@.file_owners =~= owner_forgotten(
                before,
                failed,
                lost.subrange(0, 0).to_set(),
            ).file_owners);
        }
        while i < self.lost_files.len()
            invariant
                i <= self.lost_files.len(),
                lost == texts(self.lost_files@),
                failed == self.failed_owner@,
                before.wf(),
                state@ == owner_forgotten(before, failed, lost.subrange(0, i as int).to_set()),
                did_remove <==> owns_any(before, failed, lost.subrange(0, i as int)),
            decreases self.lost_files.len() - i,
        {
            let lost_file = &self.lost_files[i];
            let ghost prefix = lost.subrange(0, i as int);
            let ghost upto = lost.subrange(0, i + 1);
            let ghost current = state@.file_owners;
            assert(lost[i as int] == lost_file@);
            proof {
                assert(upto =~= prefix.push(lost_file@));
                crate::table::lemma_to_set_push(prefix, lost_file@);
            }
            match state.all_file_owners.remove(lost_file.as_str()) {
                Some(owners) => {
                    let mut owners = owners;
                    let removed = owners.remove(self.failed_owner.as_str());
                    state.all_file_owners.insert(lost_file.clone(), owners);
                    proof {
                        assert(current.contains_key(lost_file@));
                        assert(before.file_owners.contains_key(lost_file@));
                        assert(current[lost_file@].remove(failed) =~= before.file_owners[lost_file@].remove(
                            failed,
                        ));
                        assert(state@.file_owners =~= current.insert(
                            lost_file@,
                            current[lost_file@].remove(failed),
                        ));
                        assert(state@.file_owners =~= owner_forgotten(
                            before,
                            failed,
                            upto.to_set(),
                        ).file_owners);
                        if removed {
                            assert(before.file_owners[lost_file@].contains(failed));
                            assert(upto[i as int] == lost_file@);
                        }
                        if before.file_owners[lost_file@].contains(failed) && !removed {
                            assert(prefix.to_set().contains(lost_file@));
                            let j = choose|j: int| 0 <= j < prefix.len() && prefix[j] == lost_file@;
                            assert(prefix[j] == lost_file@);
                        }
                    }
                    if removed {
                        did_remove = true;
                    }
                },
                None => {
                    proof {
                        assert(!current.contains_key(lost_file@));
                        assert(state@.file_owners =~= current);
                        assert(state@.file_owners =~= owner_forgotten(
                            before,
                            failed,
                            upto.to_set(),
                        ).file_owners);
                    }
                },
            }
            proof {
                if owns_any(before, failed, prefix) {
                    let j = choose|j: int|
                        0 <= j < prefix.len() && before.file_owners.contains_key(
                            #[trigger] prefix[j],
                        ) && before.file_owners[prefix[j]].contains(failed);
                    assert(upto[j] == prefix[j]);
                }
                if owns_any(before, failed, upto) {
                    let j = choose|j: int|
                        0 <= j < upto.len() && before.file_owners.contains_key(#[trigger] upto[j])
                            && before.file_owners[upto[j]].contains(failed);
                    if j < i {
                        assert(prefix[j] == upto[j]);
                    }
                }
            }
            i = i + 1;
        }
        proof {
            assert(lost.subrange(0, i as int) =~= lost);
            assert forall|f: Seq<char>, o: Seq<char>|
                state@.file_owners.contains_key(f) && #[trigger] state@.file_owners[f].contains(
                    o,
                ) implies valid_id(o) by {
                assert(before.file_owners.contains_key(f) && before.file_owners[f].contains(o));
            }
        }
        if did_remove {
            Ok(Outcome::send(forward))
        } else {
            Ok(Outcome::nothing())
        }
    }
}

impl GetOperation {
    /// Asks the caller to read the stored copy of the file and to answer on
    /// the stream on which the request came. A request that came as a
    /// datagram has no stream to answer on and is refused.
    pub fn execute(&self, state: &mut NodeState, source: &Source, now: Timestamp) -> (r: Result<
        Outcome,
        NodeError,
    >)
        ensures
            final(state)@ == old(state)@,
            source is Addr ==> r == Err::<Outcome, NodeError>(NodeError::NotAStream),
            source is TcpStream ==> r is Ok && r->Ok_0@ == (OutcomeView {
                operations: Seq::empty(),
                actions: seq![
                    ActionView::ReplyWithFile {
                        stream: source->TcpStream_0,
                        path: data_path(self.distributed_filename@),
                        reply_filename: self.local_path@,
                    },
                ],
            }),
    {
        let stream: u64 = match source {
            Source::TcpStream(stream) => *stream,
            Source::Addr(_) => {
                return Err(NodeError::NotAStream);
            },
        };
        let mut outcome = Outcome::nothing();
        outcome.actions.push(
            Action::ReplyWithFile {
                stream,
                path: distributed_file_path(&self.distributed_filename),
                reply_filename: self.local_path.clone(),
            },
        );
        assert(outcome@.actions =~= seq![
            ActionView::ReplyWithFile {
                stream,
                path: data_path(self.distributed_filename@),
                reply_filename: self.local_path@,
            },
        ]);
        assert(outcome@.operations =~= Seq::<SendableView>::empty());
        Ok(outcome)
    }

    /// The answer to the request: the file's contents under the name that
    /// the requester asked for, addressed to the stream `stream`.
    pub fn reply(&self, stream: u64, data: Vec<u8>) -> (item: SendableOperation)
        ensures
            item@ == (SendableView {
                dests: crate::operation::DestinationsView::TCPStream(seq![stream]),
                operation: OperationView::SendFile {
                    filename: self.local_path@,
                    data: data@,
                    is_distributed: false,
                },
            }),
    {
        reply_with_file(stream, self.local_path.clone(), data)
    }
}

/// The answer to a request for a file: the contents `data`, to be written
/// by the requester to the path `reply_filename` as it stands, addressed to
/// the stream on which the request came.
pub fn reply_with_file(stream: u64, reply_filename: String, data: Vec<u8>) -> (item:
    SendableOperation)
    ensures
        item@ == (SendableView {
            dests: crate::operation::DestinationsView::TCPStream(seq![stream]),
            operation: OperationView::SendFile {
                filename: reply_filename@,
                data: data@,
                is_distributed: false,
            },
        }),
{
    SendableOperation::for_single_tcp_stream(
        stream,
        Operation::SendFile(
            SendFileOperation { filename: reply_filename, data, is_distributed: false },
        ),
    )
}

/// Where the contents of a `SendFile` operation are written: the stored
/// copy of a distributed file, or else the path that the operation names.
pub open spec fn target_path(filename: Seq<char>, is_distributed: bool) -> Seq<char> {
    if is_distributed {
        data_path(filename)
    } else {
        filename
    }
}

impl SendFileOperation {
    /// Asks the caller to write the contents, byte for byte, to the path
    /// that the operation stands for.
    pub fn execute(&self, state: &mut NodeState, source: &Source, now: Timestamp) -> (r: Result<
        Outcome,
        NodeError,
    >)
        ensures
            final(state)@ == old(state)@,
            r is Ok,
            r->Ok_0@ == (OutcomeView {
                operations: Seq::empty(),
                actions: seq![
                    ActionView::WriteFile {
                        path: target_path(self.filename@, self.is_distributed),
                        data: self.data@,
                    },
                ],
            }),
    {
        let path = if self.is_distributed {
            distributed_file_path(&self.filename)
        } else {
            self.filename.clone()
        };
        let mut outcome = Outcome::nothing();
        outcome.actions.push(Action::WriteFile { path, data: clone_bytes(&self.data) });
        assert(outcome@.actions =~= seq![
            ActionView::WriteFile {
                path: target_path(self.filename@, self.is_distributed),
                data: self.data@,
            },
        ]);
        assert(outcome@.operations =~= Seq::<SendableView>::empty());
        Ok(outcome)
    }
}

/// A new owner is a candidate that is no owner yet.
pub proof fn lemma_first_new_owner(candidates: Seq<Seq<char>>, owners: Set<Seq<char>>)
    ensures
        first_new_owner(candidates, owners) is Some ==> candidates.contains(
            first_new_owner(candidates, owners)->0,
        ) && !owners.contains(first_new_owner(candidates, owners)->0),
    decreases candidates.len(),
{
    if candidates.len() > 0 {
        if !owners.contains(candidates[0]) {
            assert(candidates[0] == candidates[0]);
        } else {
            let rest = candidates.drop_first();
            lemma_first_new_owner(rest, owners);
            if first_new_owner(rest, owners) is Some {
                let o = first_new_owner(rest, owners)->0;
                let j = choose|j: int| 0 <= j < rest.len() && rest[j] == o;
                assert(candidates[j + 1] == o);
            }
        }
    }
}

/// The owners of a file after the master's repair: the failed node is
/// struck, and the first candidate that is no owner yet, if there is one,
/// takes its place.
pub open spec fn repaired_owners(
    owners: Set<Seq<char>>,
    failed: Seq<char>,
    candidates: Seq<Seq<char>>,
) -> Set<Seq<char>> {
    let rest = owners.remove(failed);
    match first_new_owner(candidates, rest) {
        Some(owner) => rest.insert(owner),
        None => rest,
    }
}

/// The new owner that the repair gives the file `file`, if it finds one.
pub open spec fn replacement_owner(v: NodeView, failed: Seq<char>, file: Seq<char>) -> Option<
    Seq<char>,
> {
    first_new_owner(owner_candidates(v.membership, file), v.file_owners[file].remove(failed))
}

/// The view while the repair is under way: the failed node is struck from
/// every file it owned, and the files in `done` have their new owner.
pub open spec fn partly_repaired(v: NodeView, failed: Seq<char>, done: Set<Seq<char>>) -> NodeView {
    NodeView {
        file_owners: Map::new(
            |f: Seq<char>| v.file_owners.contains_key(f),
            |f: Seq<char>|
                if !v.file_owners[f].contains(failed) {
                    v.file_owners[f]
                } else if done.contains(f) {
                    repaired_owners(
                        v.file_owners[f],
                        failed,
                        owner_candidates(v.membership, f),
                    )
                } else {
                    v.file_owners[f].remove(failed)
                },
        ),
        ..v
    }
}

/// The files that `failed` owns, as far as the node knows.
pub open spec fn files_owned_by(v: NodeView, failed: Seq<char>) -> Set<Seq<char>> {
    Set::new(|f: Seq<char>| v.file_owners.contains_key(f) && v.file_owners[f].contains(failed))
}

/// The view after the node `failed` failed: on the master every file that
/// it owned is repaired; on any other node nothing changes.
pub open spec fn repaired(v: NodeView, failed: Seq<char>) -> NodeView {
    if v.is_master() {
        partly_repaired(v, failed, files_owned_by(v, failed))
    } else {
        v
    }
}

/// The announcements of the repair, one for each lost file that got a new
/// owner, in the order of `lost`.
pub open spec fn repair_operations(
    v: NodeView,
    failed: Seq<char>,
    lost: Seq<Seq<char>>,
) -> Seq<SendableView>
    decreases lost.len(),
{
    if lost.len() == 0 {
        Seq::empty()
    } else {
        repair_operations(v, failed, lost.drop_last()) + match replacement_owner(
            v,
            failed,
            lost.last(),
        ) {
            Some(owner) => seq![
                sendable_for_ids(
                    v.successors,
                    OperationView::NewFileOwners {
                        distributed_filename: lost.last(),
                        new_owners: seq![owner],
                        from_failure: true,
                    },
                ),
            ],
            None => Seq::empty(),
        }
    }
}

/// The fetches of the repair: one for each lost file whose new owner is
/// this node itself, in the order of `lost`.
pub open spec fn repair_actions(
    v: NodeView,
    failed: Seq<char>,
    lost: Seq<Seq<char>>,
) -> Seq<ActionView>
    decreases lost.len(),
{
    if lost.len() == 0 {
        Seq::empty()
    } else {
        repair_actions(v, failed, lost.drop_last()) + if replacement_owner(
            v,
            failed,
            lost.last(),
        ) == Some(v.my_id) {
            seq![
                ActionView::FetchFile {
                    distributed_filename: lost.last(),
                    local_path: data_path(lost.last()),
                },
            ]
        } else {
            Seq::empty()
        }
    }
}

/// What the repair asks for, given the order `lost` in which it took the
/// lost files: the announcement that the failed node owns them no longer,
/// then the announcements of the new owners, and the fetches.
pub open spec fn repair_outcome(v: NodeView, failed: Seq<char>, lost: Seq<Seq<char>>) -> OutcomeView {
    OutcomeView {
        operations: if lost.len() == 0 {
            Seq::empty()
        } else {
            seq![
                sendable_for_ids(
                    v.successors,
                    OperationView::LostFiles { failed_owner: failed, lost_files: lost },
                ),
            ] + repair_operations(v, failed, lost)
        },
        actions: repair_actions(v, failed, lost),
    }
}

/// The files that `failed_id` owns, each once, in the order in which the
/// ownership map lists them.
pub fn lost_files_of(state: &NodeState, failed_id: &String) -> (lost: Vec<String>)
    ensures
        texts(lost@).no_duplicates(),
        texts(lost@).to_set() == files_owned_by(state@, failed_id@),
{
    let map = &state.all_file_owners;
    let n: usize = map.len();
    let ghost order = map.key_order();
    let mut lost: Vec<String> = Vec::new();
    let ghost mut places: Seq<int> = Seq::empty();
    let mut i: usize = 0;
    while i < n
        invariant
            i <= n,
            n == order.len(),
            order == map.key_order(),
            order.no_duplicates(),
            order.to_set() == map@.dom(),
            places.len() == lost@.len(),
            forall|j: int| 0 <= j < places.len() ==> 0 <= #[trigger] places[j] < i,
            forall|a: int, b: int| 0 <= a < b < places.len() ==> places[a] < places[b],
            forall|j: int| 0 <= j < places.len() ==> lost@[j]@ == order[#[trigger] places[j]],
            forall|j: int|
                0 <= j < places.len() ==> map@[order[#[trigger] places[j]]]@.contains(failed_id@),
            forall|k: int|
                0 <= k < i && map@[#[trigger] order[k]]@.contains(failed_id@) ==> exists|j: int|
                    0 <= j < places.len() && #[trigger] places[j] == k,
        decreases n - i,
    {
        let owners = map.value_at(i);
        if owners.contains(failed_id.as_str()) {
            lost.push(map.key_at(i).clone());
            proof {
                let before = places;
                places = places.push(i as int);
                assert forall|k: int|
                    0 <= k < i + 1 && map@[#[trigger] order[k]]@.contains(
                        failed_id@,
                    ) implies exists|j: int| 0 <= j < places.len() && #[trigger] places[j] == k by {
                    if k < i {
                        let j = choose|j: int| 0 <= j < before.len() && #[trigger] before[j] == k;
                        assert(places[j] == k);
                    } else {
                        assert(places[before.len() as int] == k);
                    }
                }
            }
        }
        i = i + 1;
    }
    proof {
        let names = texts(lost@);
        assert forall|a: int, b: int| 0 <= a < names.len() && 0 <= b < names.len() && a
            != b implies names[a] != names[b] by {
            assert(names[a] == order[places[a]] && names[b] == order[places[b]]);
            if a < b {
                assert(places[a] < places[b]);
            } else {
                assert(places[b] < places[a]);
            }
        }
        assert forall|f: Seq<char>| names.to_set().contains(f) <==> files_owned_by(
            state@,
            failed_id@,
        ).contains(f) by {
            if names.contains(f) {
                let j = choose|j: int| 0 <= j < names.len() && names[j] == f;
                assert(f == order[places[j]]);
                assert(order.to_set().contains(order[places[j]]));
            }
            if files_owned_by(state@, failed_id@).contains(f) {
                assert(order.to_set().contains(f));
                let k = choose|k: int| 0 <= k < order.len() && order[k] == f;
                let j = choose|j: int| 0 <= j < places.len() && #[trigger] places[j] == k;
                assert(names[j] == f);
            }
        }
        assert(names.to_set() =~= files_owned_by(state@, failed_id@));
    }
    lost
}

/// The repair that the master makes when the node `failed_id` has failed:
/// it strikes the node from the owners of its files, gives each of those
/// files a new owner where a candidate is left, and hands back what is to
/// be gossiped. A file for which no candidate is left stays short of an
/// owner. On a node that is not the master nothing happens.
pub fn handle_failed_node(state: &mut NodeState, failed_id: &String, now: Timestamp) -> (r: Result<
    Outcome,
    NodeError,
>)
    requires
        old(state)@.wf(),
    ensures
        final(state)@.wf(),
        r is Ok,
        final(state)@ == repaired(old(state)@, failed_id@),
        !old(state)@.is_master() ==> r->Ok_0@ == crate::operation::nothing_to_do(),
        old(state)@.is_master() ==> exists|lost: Seq<Seq<char>>|
            #![trigger repair_outcome(old(state)@, failed_id@, lost)]
            {
                &&& lost.no_duplicates()
                &&& lost.to_set() == files_owned_by(old(state)@, failed_id@)
                &&& r->Ok_0@ == repair_outcome(old(state)@, failed_id@, lost)
            },
{
    if !crate::heartbeat::is_master(state) {
        return Ok(Outcome::nothing());
    }
    let ghost before = state@;
    let ghost failed = failed_id@;
    let myself = Source::Addr(state.my_ip_addr.clone());
    let lost_files = lost_files_of(state, failed_id);
    let ghost lost = texts(lost_files@);
    let lost_file_operation = LostFilesOperation {
        failed_owner: failed_id.clone(),
        lost_files: crate::ident::clone_texts(&lost_files),
    };
    let mut outcome = match lost_file_operation.execute(state, &myself, now) {
        Ok(outcome) => outcome,
        Err(_) => Outcome::nothing(),
    };
    proof {
        if lost.len() > 0 {
            assert(lost.to_set().contains(lost[0]));
            assert(owns_any(before, failed, lost));
        } else {
            if owns_any(before, failed, lost) {
                let j = choose|j: int|
                    0 <= j < lost.len() && before.file_owners.contains_key(#[trigger] lost[j])
                        && before.file_owners[lost[j]].contains(failed);
            }
        }
        assert(state@.file_owners =~= partly_repaired(
            before,
            failed,
            Set::<Seq<char>>::empty(),
        ).file_owners) by {
            assert forall|f: Seq<char>| before.file_owners.contains_key(f) implies #[trigger] state@.file_owners[f]
                == partly_repaired(before, failed, Set::<Seq<char>>::empty()).file_owners[f] by {
                if !before.file_owners[f].contains(failed) {
                    assert(before.file_owners[f].remove(failed) =~= before.file_owners[f]);
                } else {
                    assert(lost.to_set().contains(f));
                }
            }
        }
        assert(lost.subrange(0, 0) =~= Seq::<Seq<char>>::empty());
        assert(lost.subrange(0, 0).to_set() =~= Set::<Seq<char>>::empty());
        assert(repair_operations(before, failed, lost.subrange(0, 0)) =~= Seq::<
            SendableView,
        >::empty());
        assert(outcome@.operations =~= outcome@.operations + repair_operations(
            before,
            failed,
            lost.subrange(0, 0),
        ));
    }
    let ghost announced = outcome@.operations;
    let mut i: usize = 0;
    while i < lost_files.len()
        invariant
            i <= lost_files.len(),
            lost == texts(lost_files@),
            lost.no_duplicates(),
            lost.to_set() == files_owned_by(before, failed),
            failed == failed_id@,
            before.wf(),
            before.is_master(),
            state@.wf(),
            state@ == partly_repaired(before, failed, lost.subrange(0, i as int).to_set()),
            outcome@.operations == announced + repair_operations(
                before,
                failed,
                lost.subrange(0, i as int),
            ),
            outcome@.actions == repair_actions(before, failed, lost.subrange(0, i as int)),
        decreases lost_files.len() - i,
    {
        let lost_file = &lost_files[i];
        let ghost file = lost_file@;
        let ghost prefix = lost.subrange(0, i as int);
        let ghost upto = lost.subrange(0, i + 1);
        let ghost current = state@;
        let ghost rest = before.file_owners[file].remove(failed);
        let ghost candidates = owner_candidates(before.membership, file);
        proof {
            assert(lost[i as int] == file);
            assert(upto =~= prefix.push(file));
            assert(upto.drop_last() =~= prefix);
            crate::table::lemma_to_set_push(prefix, file);
            assert(lost.to_set().contains(file));
            assert(!prefix.to_set().contains(file)) by {
                if prefix.contains(file) {
                    let j = choose|j: int| 0 <= j < prefix.len() && prefix[j] == file;
                    assert(lost[j] == file);
                }
            }
            assert(current.file_owners[file] == rest);
            lemma_first_new_owner(candidates, rest);
            lemma_owner_candidates(before.membership, file);
        }
        match gen_new_file_owner(state, lost_file.as_str()) {
            Ok(new_owner) => {
                let ghost owner = new_owner@;
                let mut new_owners: Vec<String> = Vec::new();
                new_owners.push(new_owner);
                let new_owner_operation = NewFileOwnersOperation {
                    distributed_filename: lost_file.clone(),
                    new_owners,
                    from_failure: true,
                };
                proof {
                    assert(texts(new_owner_operation.new_owners@) =~= seq![owner]);
                    assert(seq![owner] =~= Seq::<Seq<char>>::empty().push(owner));
                    crate::table::lemma_to_set_push(Seq::<Seq<char>>::empty(), owner);
                    assert(Seq::<Seq<char>>::empty().to_set() =~= Set::<Seq<char>>::empty());
                    assert(seq![owner].to_set() =~= set![owner]);
                    let j = choose|j: int| 0 <= j < candidates.len() && candidates[j] == owner;
                    assert(valid_id(candidates[j]));
                    assert(!set![owner].subset_of(known_owners(current, file)));
                }
                let step = match new_owner_operation.execute(state, &myself, now) {
                    Ok(step) => step,
                    Err(_) => Outcome::nothing(),
                };
                proof {
                    assert(rest.union(set![owner]) =~= rest.insert(owner));
                    assert(state@.file_owners =~= partly_repaired(
                        before,
                        failed,
                        upto.to_set(),
                    ).file_owners);
                    assert(step@.operations =~= seq![
                        sendable_for_ids(
                            before.successors,
                            OperationView::NewFileOwners {
                                distributed_filename: file,
                                new_owners: seq![owner],
                                from_failure: true,
                            },
                        ),
                    ]);
                    if owner == before.my_id {
                        assert(set![owner].contains(before.my_id));
                    }
                }
                outcome.append(step);
            },
            Err(_) => {
                proof {
                    assert(state@.file_owners =~= partly_repaired(
                        before,
                        failed,
                        upto.to_set(),
                    ).file_owners);
                    assert(outcome@.operations =~= outcome@.operations + Seq::<
                        SendableView,
                    >::empty());
                    assert(outcome@.actions =~= outcome@.actions + Seq::<ActionView>::empty());
                }
            },
        }
        proof {
            assert(outcome@.operations =~= announced + repair_operations(before, failed, upto));
            assert(outcome@.actions =~= repair_actions(before, failed, upto));
        }
        i = i + 1;
    }
    proof {
        assert(lost.subrange(0, i as int) =~= lost);
        assert(outcome@ == repair_outcome(before, failed, lost));
    }
    Ok(outcome)
}

/// What `ls` shows.
#[derive(Debug)]
pub enum Listing {
    /// The owners of one file, each once; none for a file that is unknown.
    Owners(Vec<String>),
    /// Every known file with its owners.
    Everything(Vec<(String, Vec<String>)>),
}

/// Whether a listing shows what the node knows.
pub open spec fn shows(listing: Listing, v: NodeView, file: Option<Seq<char>>) -> bool {
    match listing {
        Listing::Owners(owners) => {
            &&& file is Some
            &&& texts(owners@).no_duplicates()
            &&& texts(owners@).to_set() == known_owners(v, file->0)
        },
        Listing::Everything(entries) => {
            &&& file is None
            &&& forall|i: int, j: int|
                0 <= i < j < entries@.len() ==> (#[trigger] entries@[i]).0@ != (
                #[trigger] entries@[j]).0@
            &&& forall|i: int|
                0 <= i < entries@.len() ==> v.file_owners.contains_key(
                    (#[trigger] entries@[i]).0@,
                ) && texts(entries@[i].1@).no_duplicates() && texts(entries@[i].1@).to_set()
                    == v.file_owners[entries@[i].0@]
            &&& forall|f: Seq<char>|
                v.file_owners.contains_key(f) ==> exists|i: int|
                    0 <= i < entries@.len() && (#[trigger] entries@[i]).0@ == f
        },
    }
}

/// The owners of one file, or every file with its owners if `full`. Asking
/// for both, or for neither, is an error.
pub fn print_file_owners(
    state: &NodeState,
    maybe_distributed_filename: Option<&str>,
    full: bool,
) -> (r: Result<Listing, NodeError>)
    ensures
        maybe_distributed_filename is Some && full ==> r == Err::<Listing, NodeError>(
            NodeError::ListingOverSpecified,
        ),
        maybe_distributed_filename is None && !full ==> r == Err::<Listing, NodeError>(
            NodeError::ListingUnderSpecified,
        ),
        maybe_distributed_filename is Some && !full ==> r is Ok && shows(
            r->Ok_0,
            state@,
            Some(maybe_distributed_filename->0@),
        ),
        maybe_distributed_filename is None && full ==> r is Ok && shows(r->Ok_0, state@, None),
{
    match (maybe_distributed_filename, full) {
        (Some(_), true) => Err(NodeError::ListingOverSpecified),
        (Some(distributed_filename), false) => {
            let owners: Vec<String> = match state.all_file_owners.get(distributed_filename) {
                Some(owners) => owners.members(),
                None => Vec::new(),
            };
            proof {
                if !state@.file_owners.contains_key(distributed_filename@) {
                    assert(texts(owners@) =~= Seq::<Seq<char>>::empty());
                    assert(texts(owners@).to_set() =~= Set::<Seq<char>>::empty());
                }
            }
            Ok(Listing::Owners(owners))
        },
        (None, true) => {
            let map = &state.all_file_owners;
            let n: usize = map.len();
            let mut entries: Vec<(String, Vec<String>)> = Vec::new();
            let mut i: usize = 0;
            while i < n
                invariant
                    i <= n,
                    n == map.key_order().len(),
                    map.key_order().no_duplicates(),
                    map.key_order().to_set() == map@.dom(),
                    entries@.len() == i,
                    forall|j: int|
                        0 <= j < i ==> (#[trigger] entries@[j]).0@ == map.key_order()[j]
                            && map@.contains_key(map.key_order()[j]) && texts(
                            entries@[j].1@,
                        ).no_duplicates() && texts(entries@[j].1@).to_set()
                            == map@[map.key_order()[j]]@,
                decreases n - i,
            {
                let key = map.key_at(i).clone();
                let owners = map.value_at(i).members();
                entries.push((key, owners));
                i = i + 1;
            }
            proof {
                let order = map.key_order();
                assert forall|a: int, b: int| 0 <= a < b < entries@.len() implies (
                #[trigger] entries@[a]).0@ != (#[trigger] entries@[b]).0@ by {
                    assert(entries@[a].0@ == order[a] && entries@[b].0@ == order[b]);
                }
                assert forall|i: int| 0 <= i < entries@.len() implies state@.file_owners.contains_key(
                    (#[trigger] entries@[i]).0@,
                ) && texts(entries@[i].1@).no_duplicates() && texts(entries@[i].1@).to_set()
                    == state@.file_owners[entries@[i].0@] by {
                    assert(entries@[i].0@ == order[i]);
                    assert(map@.contains_key(order[i]));
                }
                assert forall|f: Seq<char>| state@.file_owners.contains_key(f) implies exists|
                    i: int,
                | 0 <= i < entries@.len() && (#[trigger] entries@[i]).0@ == f by {
                    assert(order.to_set().contains(f));
                    let i = choose|i: int| 0 <= i < order.len() && order[i] == f;
                    assert(entries@[i].0@ == f);
                }
            }
            let ghost listed = entries@;
            let listing = Listing::Everything(entries);
            assert(listing is Everything && listing->Everything_0@ == listed);
            assert(shows(listing, state@, None));
            Ok(listing)
        },
        (None, false) => Err(NodeError::ListingUnderSpecified),
    }
}

/// The command `ls [distributed_filename]`: without an argument every file
/// with its owners, with one argument the owners of that file.
pub fn ls(state: &NodeState, args: &Vec<String>) -> (r: Result<Listing, NodeError>)
    ensures
        !state@.is_joined ==> r == Err::<Listing, NodeError>(NodeError::NotJoined),
        state@.is_joined && args@.len() > 1 ==> r == Err::<Listing, NodeError>(NodeError::UsageLs),
        state@.is_joined && args@.len() == 0 ==> r is Ok && shows(r->Ok_0, state@, None),
        state@.is_joined && args@.len() == 1 ==> r is Ok && shows(
            r->Ok_0,
            state@,
            Some(args@[0]@),
        ),
{
    if !state.is_joined {
        return Err(NodeError::NotJoined);
    }
    if args.len() == 0 {
        print_file_owners(state, None, true)
    } else if args.len() == 1 {
        print_file_owners(state, Some(args[0].as_str()), false)
    } else {
        Err(NodeError::UsageLs)
    }
}

/// The request for the file `distributed_filename`, addressed to its
/// owners, that asks for an answer named `local_path`.
pub fn get_distributed_file_as_local(
    state: &NodeState,
    distributed_filename: &String,
    local_path: &String,
) -> (item: SendableOperation)
    requires
        state@.wf(),
    ensures
        item.operation@ == (OperationView::Get {
            distributed_filename: distributed_filename@,
            local_path: local_path@,
        }),
        exists|owners: Seq<Seq<char>>|
            #![trigger crate::ident::id_addresses(owners)]
            {
                &&& item.dests@ == crate::operation::DestinationsView::UDPAddr(
                    crate::ident::id_addresses(owners),
                )
                &&& owners.no_duplicates()
                &&& owners.to_set() == known_owners(state@, distributed_filename@)
            },
{
    SendableOperation::for_owners(
        state,
        distributed_filename,
        Operation::Get(
            GetOperation {
                distributed_filename: distributed_filename.clone(),
                local_path: local_path.clone(),
            },
        ),
    )
}

/// The request that brings the file `distributed_filename` into this
/// node's own store.
pub fn get_distributed_file(state: &NodeState, distributed_filename: &String) -> (item:
    SendableOperation)
    requires
        state@.wf(),
    ensures
        item.operation@ == (OperationView::Get {
            distributed_filename: distributed_filename@,
            local_path: data_path(distributed_filename@),
        }),
        exists|owners: Seq<Seq<char>>|
            #![trigger crate::ident::id_addresses(owners)]
            {
                &&& item.dests@ == crate::operation::DestinationsView::UDPAddr(
                    crate::ident::id_addresses(owners),
                )
                &&& owners.no_duplicates()
                &&& owners.to_set() == known_owners(state@, distributed_filename@)
            },
{
    let local_path = distributed_file_path(distributed_filename);
    get_distributed_file_as_local(state, distributed_filename, &local_path)
}

/// The stream from which the answer to a request is read: the first of the
/// streams that were opened to the owners. Without any stream no owner was
/// reached.
pub fn first_reply_stream(streams: &Vec<u64>) -> (r: Result<u64, NodeError>)
    ensures
        streams@.len() == 0 ==> r == Err::<u64, NodeError>(NodeError::NoOwnersReached),
        streams@.len() > 0 ==> r == Ok::<u64, NodeError>(streams@[0]),
{
    if streams.len() == 0 {
        Err(NodeError::NoOwnersReached)
    } else {
        Ok(streams[0])
    }
}

/// The command `get distributed_filename local_path`: the request to send
/// to the owners of the file.
pub fn get(state: &NodeState, args: &Vec<String>) -> (r: Result<SendableOperation, NodeError>)
    requires
        state@.wf(),
    ensures
        !state@.is_joined ==> r == Err::<SendableOperation, NodeError>(NodeError::NotJoined),
        state@.is_joined && args@.len() != 2 ==> r == Err::<SendableOperation, NodeError>(
            NodeError::UsageGet,
        ),
        state@.is_joined && args@.len() == 2 ==> r is Ok && r->Ok_0.operation@
            == (OperationView::Get { distributed_filename: args@[0]@, local_path: args@[1]@ })
            && exists|owners: Seq<Seq<char>>|
            #![trigger crate::ident::id_addresses(owners)]
            {
                &&& r->Ok_0.dests@ == crate::operation::DestinationsView::UDPAddr(
                    crate::ident::id_addresses(owners),
                )
                &&& owners.no_duplicates()
                &&& owners.to_set() == known_owners(state@, args@[0]@)
            },
{
    if !state.is_joined {
        return Err(NodeError::NotJoined);
    }
    if args.len() != 2 {
        return Err(NodeError::UsageGet);
    }
    Ok(get_distributed_file_as_local(state, &args[0], &args[1]))
}

/// What `put` has decided: the announcement to gossip, and where the file
/// is to be read and to whom it is to be sent.
#[derive(Debug)]
pub struct PutPlan {
    /// The announcement of the owners, addressed to the successors.
    pub announcement: SendableOperation,
    /// The local file to read.
    pub local_path: String,
    /// The name under which the file is stored.
    pub distributed_filename: String,
    /// The owners, to each of which the file goes.
    pub dest_ids: Vec<String>,
}

/// The command `put local_path distributed_filename`: computes the owners
/// of the file from the ring and announces them to the successors.
pub fn put(state: &NodeState, args: &Vec<String>) -> (r: Result<PutPlan, NodeError>)
    requires
        state@.wf(),
    ensures
        !state@.is_joined ==> r == Err::<PutPlan, NodeError>(NodeError::NotJoined),
        state@.is_joined && args@.len() != 2 ==> r == Err::<PutPlan, NodeError>(
            NodeError::UsagePut,
        ),
        state@.is_joined && args@.len() == 2 && state@.membership.len() == 0 ==> r == Err::<
            PutPlan,
            NodeError,
        >(NodeError::MembershipEmpty),
        state@.is_joined && args@.len() == 2 && state@.membership.len() > 0 ==> r is Ok && {
            let plan = r->Ok_0;
            let owners = owner_candidates(state@.membership, args@[1]@);
            &&& plan.local_path@ == args@[0]@
            &&& plan.distributed_filename@ == args@[1]@
            &&& texts(plan.dest_ids@) == owners
            &&& all_valid(owners)
            &&& forall|j: int| 0 <= j < owners.len() ==> state@.membership.contains(#[trigger] owners[j])
            &&& plan.announcement@ == sendable_for_ids(
                state@.successors,
                OperationView::NewFileOwners {
                    distributed_filename: args@[1]@,
                    new_owners: owners,
                    from_failure: false,
                },
            )
        },
{
    if !state.is_joined {
        return Err(NodeError::NotJoined);
    }
    if args.len() != 2 {
        return Err(NodeError::UsagePut);
    }
    let local_path = &args[0];
    let distributed_filename = &args[1];
    // Figure out who I am giving this file to
    let dest_ids = match gen_file_owners(state, distributed_filename.as_str()) {
        Ok(ids) => ids,
        Err(e) => {
            return Err(e);
        },
    };
    proof {
        lemma_owner_candidates(state@.membership, distributed_filename@);
    }
    // Gossip who has the file now
    let announcement = SendableOperation::for_successors(
        state,
        Operation::NewFileOwners(
            NewFileOwnersOperation {
                distributed_filename: distributed_filename.clone(),
                new_owners: crate::ident::clone_texts(&dest_ids),
                from_failure: false,
            },
        ),
    );
    Ok(
        PutPlan {
            announcement,
            local_path: local_path.clone(),
            distributed_filename: distributed_filename.clone(),
            dest_ids,
        },
    )
}

/// The operation that carries the contents `data` of the distributed file
/// to the nodes `dest_ids`, there to be stored under the file's name.
pub fn send_file_to_all(data: Vec<u8>, distributed_filename: String, dest_ids: &Vec<String>) -> (item:
    SendableOperation)
    requires
        all_valid(texts(dest_ids@)),
    ensures
        item@ == sendable_for_ids(
            texts(dest_ids@),
            OperationView::SendFile {
                filename: distributed_filename@,
                data: data@,
                is_distributed: true,
            },
        ),
{
    SendableOperation::for_id_list(
        crate::ident::clone_texts(dest_ids),
        Operation::SendFile(
            SendFileOperation { filename: distributed_filename, data, is_distributed: true },
        ),
    )
}

/// Executes the one operation that arrived on the stream `stream`.
pub fn handle_connection(
    state: &mut NodeState,
    operation: &Operation,
    stream: u64,
    now: Timestamp,
) -> (r: Result<Outcome, NodeError>)
    requires
        old(state)@.wf(),
    ensures
        final(state)@.wf(),
        match crate::dispatch::refusal(operation@, crate::operation::SourceView::TcpStream(stream)) {
            Some(e) => r == Err::<Outcome, NodeError>(e) && final(state)@ == old(state)@,
            None => r is Ok && final(state)@ == crate::dispatch::applied(
                operation@,
                old(state)@,
                crate::operation::SourceView::TcpStream(stream),
                now,
            ) && crate::dispatch::asked_for(
                operation@,
                old(state)@,
                crate::operation::SourceView::TcpStream(stream),
                final(state)@,
                r->Ok_0@,
            ),
        },
{
    let source = Source::TcpStream(stream);
    operation.execute(state, &source, now)
}

} // verus!

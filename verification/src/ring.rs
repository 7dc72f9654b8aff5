//! Ring math: the sorted membership list read as a circle, searching and
//! editing it, and walking it from an anchor to find neighbours.

use crate::ident::{
    all_valid, compare_ids, id_lt, lemma_id_lt_asymmetric, lemma_id_lt_irreflexive,
    lemma_id_lt_total, lemma_id_lt_transitive, strictly_sorted, texts, valid_id, Rank,
};
use crate::modular::residue;
use vstd::prelude::*;

verus! {

/// How many entries at the head of `members` come before `id`. In a sorted
/// list this is the position at which `id` stands or would be inserted.
pub open spec fn rank(members: Seq<Seq<char>>, id: Seq<char>) -> int
    decreases members.len(),
{
    if members.len() == 0 {
        0
    } else if id_lt(members[0], id) {
        1 + rank(members.drop_first(), id)
    } else {
        0
    }
}

/// The membership with `id` in it: unchanged if `id` is a member already,
/// else with `id` inserted at its rank.
pub open spec fn with_member(members: Seq<Seq<char>>, id: Seq<char>) -> Seq<Seq<char>> {
    if members.contains(id) {
        members
    } else {
        members.insert(rank(members, id), id)
    }
}

/// The membership without `id`.
pub open spec fn without_member(members: Seq<Seq<char>>, id: Seq<char>) -> Seq<Seq<char>> {
    if members.contains(id) {
        members.remove(members.index_of(id))
    } else {
        members
    }
}

/// The membership with every identifier of `ids` in it, inserted one after another.
pub open spec fn with_members(members: Seq<Seq<char>>, ids: Seq<Seq<char>>) -> Seq<Seq<char>>
    decreases ids.len(),
{
    if ids.len() == 0 {
        members
    } else {
        with_member(with_members(members, ids.drop_last()), ids.last())
    }
}

/// The `count` entries met on a walk round the ring that starts at position
/// `first` and moves one place at a time, forward or backward, wrapping at
/// the ends.
pub open spec fn ring_walk(
    members: Seq<Seq<char>>,
    first: int,
    forward: bool,
    count: nat,
) -> Seq<Seq<char>> {
    Seq::new(
        count,
        |j: int|
            members[residue(if forward { first + j } else { first - j }, members.len() as int)],
    )
}

/// How many entries a neighbour list has: at most `limit`, and no more than
/// the ring holds, the anchor itself counted only if `inclusive`.
pub open spec fn neighbor_count(size: nat, limit: nat, inclusive: bool) -> nat {
    let most = if inclusive || size == 0 { size } else { (size - 1) as nat };
    if limit < most {
        limit
    } else {
        most
    }
}

/// The neighbour list of the entry at `anchor`: up to `limit` entries in the
/// given direction, starting with the anchor if `inclusive` and next to it
/// otherwise, and never coming round to the anchor a second time.
pub open spec fn neighbors_from(
    members: Seq<Seq<char>>,
    anchor: int,
    forward: bool,
    limit: nat,
    inclusive: bool,
) -> Seq<Seq<char>> {
    let first = if inclusive { anchor } else if forward { anchor + 1 } else { anchor - 1 };
    ring_walk(members, first, forward, neighbor_count(members.len(), limit, inclusive))
}

/// The neighbour list of the member `me`; empty where `me` is no member.
pub open spec fn neighbors_of(
    members: Seq<Seq<char>>,
    me: Seq<char>,
    forward: bool,
    limit: nat,
) -> Seq<Seq<char>> {
    if members.contains(me) {
        neighbors_from(members, members.index_of(me), forward, limit, false)
    } else {
        Seq::empty()
    }
}

/// What `rank` counts: all entries before it come before `id`, and the
/// entry at it, if there is one, does not.
pub proof fn lemma_rank(members: Seq<Seq<char>>, id: Seq<char>)
    ensures
        0 <= rank(members, id) <= members.len(),
        forall|j: int| 0 <= j < rank(members, id) ==> id_lt(#[trigger] members[j], id),
        rank(members, id) < members.len() ==> !id_lt(members[rank(members, id)], id),
    decreases members.len(),
{
    if members.len() > 0 && id_lt(members[0], id) {
        let rest = members.drop_first();
        lemma_rank(rest, id);
        assert forall|j: int| 0 <= j < rank(members, id) implies id_lt(
            #[trigger] members[j],
            id,
        ) by {
            if j > 0 {
                assert(members[j] == rest[j - 1]);
            }
        }
        if rank(members, id) < members.len() {
            assert(members[rank(members, id)] == rest[rank(rest, id)]);
        }
    }
}

/// A position before which all entries come before `id`, and at which the
/// entry does not, is the rank of `id`.
pub proof fn lemma_rank_is(members: Seq<Seq<char>>, id: Seq<char>, i: int)
    requires
        0 <= i <= members.len(),
        forall|j: int| 0 <= j < i ==> id_lt(#[trigger] members[j], id),
        i < members.len() ==> !id_lt(members[i], id),
    ensures
        rank(members, id) == i,
    decreases i,
{
    if i > 0 {
        let rest = members.drop_first();
        assert(id_lt(members[0], id));
        assert forall|j: int| 0 <= j < i - 1 implies id_lt(#[trigger] rest[j], id) by {
            assert(rest[j] == members[j + 1]);
        }
        if i - 1 < rest.len() {
            assert(rest[i - 1] == members[i]);
        }
        lemma_rank_is(rest, id, i - 1);
    }
}

/// In a sorted list a member stands at its rank, and nowhere else.
pub proof fn lemma_member_rank(members: Seq<Seq<char>>, i: int)
    requires
        strictly_sorted(members),
        0 <= i < members.len(),
    ensures
        rank(members, members[i]) == i,
        members.contains(members[i]),
        members.index_of(members[i]) == i,
{
    lemma_id_lt_irreflexive(members[i]);
    lemma_rank_is(members, members[i], i);
    let k = members.index_of(members[i]);
    if k < i {
        lemma_id_lt_asymmetric(members[k], members[i]);
    } else if i < k {
        lemma_id_lt_asymmetric(members[i], members[k]);
    }
}

/// Inserting keeps the list sorted and valid, and adds just `id` to its set.
pub proof fn lemma_with_member(members: Seq<Seq<char>>, id: Seq<char>)
    requires
        strictly_sorted(members),
    ensures
        strictly_sorted(with_member(members, id)),
        with_member(members, id).to_set() == members.to_set().insert(id),
        with_member(members, id).contains(id),
        all_valid(members) && valid_id(id) ==> all_valid(with_member(members, id)),
        forall|x: Seq<char>| members.contains(x) ==> with_member(members, id).contains(x),
{
    let r = rank(members, id);
    let out = with_member(members, id);
    lemma_rank(members, id);
    if members.contains(id) {
        assert(out.to_set() =~= members.to_set().insert(id));
    } else {
        assert forall|j: int| r <= j < members.len() implies id_lt(id, #[trigger] members[j]) by {
            lemma_id_lt_total(id, members[r]);
            assert(members.contains(members[r]));
            if r < j {
                lemma_id_lt_transitive(id, members[r], members[j]);
            }
        }
        assert forall|i: int, j: int| 0 <= i < j < out.len() implies id_lt(
            #[trigger] out[i],
            #[trigger] out[j],
        ) by {
            let a = if i < r { i } else { i - 1 };
            let b = if j < r { j } else { j - 1 };
            if i != r && j != r {
                assert(out[i] == members[a] && out[j] == members[b]);
            } else if i == r {
                assert(out[j] == members[b]);
            } else {
                assert(out[i] == members[a]);
            }
        }
        assert forall|x: Seq<char>| out.to_set().contains(x) <==> members.to_set().insert(
            id,
        ).contains(x) by {
            if out.contains(x) {
                let k = choose|k: int| 0 <= k < out.len() && out[k] == x;
                if k < r {
                    assert(members[k] == x);
                } else if k > r {
                    assert(members[k - 1] == x);
                }
            }
            if members.contains(x) {
                let k = choose|k: int| 0 <= k < members.len() && members[k] == x;
                if k < r {
                    assert(out[k] == x);
                } else {
                    assert(out[k + 1] == x);
                }
            }
            if x == id {
                assert(out[r] == id);
            }
        }
        assert(out.to_set() =~= members.to_set().insert(id));
        assert(out[r] == id);
        if all_valid(members) && valid_id(id) {
            assert forall|k: int| 0 <= k < out.len() implies valid_id(#[trigger] out[k]) by {
                if k < r {
                    assert(out[k] == members[k]);
                } else if k > r {
                    assert(out[k] == members[k - 1]);
                }
            }
        }
    }
    assert forall|x: Seq<char>| members.contains(x) implies out.contains(x) by {
        assert(members.to_set().contains(x));
        assert(out.to_set().contains(x));
    }
}

/// Removing keeps the list sorted and valid, and takes just `id` from its set.
pub proof fn lemma_without_member(members: Seq<Seq<char>>, id: Seq<char>)
    requires
        strictly_sorted(members),
    ensures
        strictly_sorted(without_member(members, id)),
        without_member(members, id).to_set() == members.to_set().remove(id),
        !without_member(members, id).contains(id),
        all_valid(members) ==> all_valid(without_member(members, id)),
{
    let out = without_member(members, id);
    if members.contains(id) {
        let i = members.index_of(id);
        assert forall|a: int, b: int| 0 <= a < b < out.len() implies id_lt(
            #[trigger] out[a],
            #[trigger] out[b],
        ) by {
            let a2 = if a < i { a } else { a + 1 };
            let b2 = if b < i { b } else { b + 1 };
            assert(out[a] == members[a2] && out[b] == members[b2]);
        }
        crate::ident::lemma_sorted_no_duplicates(members);
        crate::table::lemma_to_set_remove(members, i);
        if all_valid(members) {
            assert forall|k: int| 0 <= k < out.len() implies valid_id(#[trigger] out[k]) by {
                let k2 = if k < i { k } else { k + 1 };
                assert(out[k] == members[k2]);
            }
        }
        assert(!out.to_set().contains(id));
    } else {
        assert(out.to_set() =~= members.to_set().remove(id));
    }
}

/// Inserting an identifier a second time changes nothing.
pub proof fn lemma_with_member_twice(members: Seq<Seq<char>>, id: Seq<char>)
    requires
        strictly_sorted(members),
    ensures
        with_member(with_member(members, id), id) == with_member(members, id),
{
    lemma_with_member(members, id);
}

/// Removing an identifier a second time changes nothing.
pub proof fn lemma_without_member_twice(members: Seq<Seq<char>>, id: Seq<char>)
    requires
        strictly_sorted(members),
    ensures
        without_member(without_member(members, id), id) == without_member(members, id),
{
    lemma_without_member(members, id);
}

/// Merging a list keeps the membership sorted and valid, and adds the
/// list's identifiers to its set.
pub proof fn lemma_with_members(members: Seq<Seq<char>>, ids: Seq<Seq<char>>)
    requires
        strictly_sorted(members),
    ensures
        strictly_sorted(with_members(members, ids)),
        with_members(members, ids).to_set() == members.to_set().union(ids.to_set()),
        all_valid(members) && all_valid(ids) ==> all_valid(with_members(members, ids)),
    decreases ids.len(),
{
    if ids.len() == 0 {
        assert(ids.to_set() =~= Set::<Seq<char>>::empty());
        assert(members.to_set().union(ids.to_set()) =~= members.to_set());
    } else {
        let front = ids.drop_last();
        lemma_with_members(members, front);
        lemma_with_member(with_members(members, front), ids.last());
        assert(ids =~= front.push(ids.last()));
        crate::table::lemma_to_set_push(front, ids.last());
        assert(with_members(members, ids).to_set() =~= members.to_set().union(ids.to_set()));
        if all_valid(members) && all_valid(ids) {
            assert forall|k: int| 0 <= k < front.len() implies valid_id(#[trigger] front[k]) by {
                assert(front[k] == ids[k]);
            }
            assert(valid_id(ids[ids.len() - 1]));
        }
    }
}

/// With one member the ring has no neighbours, and a walk that includes the
/// anchor meets that member alone.
pub proof fn lemma_single_member_ring(
    members: Seq<Seq<char>>,
    anchor: int,
    forward: bool,
    limit: nat,
)
    requires
        members.len() == 1,
        limit >= 1,
    ensures
        neighbors_from(members, anchor, forward, limit, false) == Seq::<Seq<char>>::empty(),
        neighbors_from(members, anchor, forward, limit, true) == seq![members[0]],
{
    assert(neighbors_from(members, anchor, forward, limit, false) =~= Seq::<Seq<char>>::empty());
    assert(neighbors_from(members, anchor, forward, limit, true) =~= seq![members[0]]);
}

/// Every entry of a walk round a ring that has members is a member.
pub proof fn lemma_ring_walk_members(
    members: Seq<Seq<char>>,
    first: int,
    forward: bool,
    count: nat,
)
    requires
        members.len() > 0,
    ensures
        forall|j: int|
            0 <= j < count ==> members.contains(#[trigger] ring_walk(members, first, forward, count)[j]),
        all_valid(members) ==> all_valid(ring_walk(members, first, forward, count)),
{
    let walk = ring_walk(members, first, forward, count);
    assert forall|j: int| 0 <= j < count implies members.contains(#[trigger] walk[j]) by {
        let at = residue(if forward { first + j } else { first - j }, members.len() as int);
        assert(0 <= at < members.len());
        assert(walk[j] == members[at]);
    }
    if all_valid(members) {
        assert forall|j: int| 0 <= j < walk.len() implies valid_id(#[trigger] walk[j]) by {
            let at = residue(if forward { first + j } else { first - j }, members.len() as int);
            assert(0 <= at < members.len());
            assert(walk[j] == members[at]);
        }
    }
}

/// Every neighbour of a member is a member, and valid if the members are.
pub proof fn lemma_neighbors_members(
    members: Seq<Seq<char>>,
    me: Seq<char>,
    forward: bool,
    limit: nat,
)
    ensures
        forall|j: int|
            0 <= j < neighbors_of(members, me, forward, limit).len() ==> members.contains(
                #[trigger] neighbors_of(members, me, forward, limit)[j],
            ),
        all_valid(members) ==> all_valid(neighbors_of(members, me, forward, limit)),
        neighbors_of(members, me, forward, limit).len() <= limit,
{
    if members.contains(me) {
        let anchor = members.index_of(me);
        let first = if forward { anchor + 1 } else { anchor - 1 };
        lemma_ring_walk_members(
            members,
            first,
            forward,
            neighbor_count(members.len(), limit, false),
        );
    }
}

/// Fewer than a full turn away from a place is another place.
pub proof fn lemma_partial_turn(start: int, steps: int, size: int)
    requires
        0 <= start < size,
        0 < steps < size,
    ensures
        residue(start + steps, size) != start,
        residue(start - steps, size) != start,
        0 <= residue(start + steps, size) < size,
        0 <= residue(start - steps, size) < size,
{
    if start + steps < size {
        vstd::arithmetic::div_mod::lemma_small_mod((start + steps) as nat, size as nat);
    } else {
        vstd::arithmetic::div_mod::lemma_fundamental_div_mod_converse(
            start + steps,
            size,
            1,
            start + steps - size,
        );
    }
    if start - steps >= 0 {
        vstd::arithmetic::div_mod::lemma_small_mod((start - steps) as nat, size as nat);
    } else {
        vstd::arithmetic::div_mod::lemma_fundamental_div_mod_converse(
            start - steps,
            size,
            -1,
            start - steps + size,
        );
    }
}

/// In a sorted membership a member is none of its own neighbours, and no
/// neighbour is listed twice.
pub proof fn lemma_neighbors_exclude_self(
    members: Seq<Seq<char>>,
    me: Seq<char>,
    forward: bool,
    limit: nat,
)
    requires
        strictly_sorted(members),
    ensures
        !neighbors_of(members, me, forward, limit).contains(me),
        neighbors_of(members, me, forward, limit).no_duplicates(),
{
    let list = neighbors_of(members, me, forward, limit);
    if members.contains(me) {
        let size = members.len() as int;
        let anchor = members.index_of(me);
        let first = if forward { anchor + 1 } else { anchor - 1 };
        crate::ident::lemma_sorted_no_duplicates(members);
        assert forall|j: int| 0 <= j < list.len() implies list[j] != me by {
            lemma_partial_turn(anchor, j + 1, size);
            let at = residue(if forward { first + j } else { first - j }, size);
            assert(list[j] == members[at]);
            assert(at != anchor);
        }
        assert forall|a: int, b: int| 0 <= a < list.len() && 0 <= b < list.len() && a
            != b implies list[a] != list[b] by {
            lemma_partial_turn(anchor, a + 1, size);
            lemma_partial_turn(anchor, b + 1, size);
            let pa = residue(if forward { first + a } else { first - a }, size);
            let pb = residue(if forward { first + b } else { first - b }, size);
            assert(list[a] == members[pa] && list[b] == members[pb]);
            if pa == pb {
                // two places less than a turn apart that coincide are the same step
                if a < b {
                    lemma_partial_turn(pa, b - a, size);
                    if forward {
                        lemma_residue_sum(first + a, b - a, size);
                    } else {
                        lemma_residue_sum(first - b, b - a, size);
                    }
                } else {
                    lemma_partial_turn(pb, a - b, size);
                    if forward {
                        lemma_residue_sum(first + b, a - b, size);
                    } else {
                        lemma_residue_sum(first - a, a - b, size);
                    }
                }
            }
        }
    }
}

/// Stepping on from a residue is stepping on from the number itself.
proof fn lemma_residue_sum(x: int, steps: int, size: int)
    requires
        size > 0,
    ensures
        residue(residue(x, size) + steps, size) == residue(x + steps, size),
{
    vstd::arithmetic::div_mod::lemma_add_mod_noop(x, steps, size);
    vstd::arithmetic::div_mod::lemma_add_mod_noop(x % size, steps, size);
    vstd::arithmetic::div_mod::lemma_mod_twice(x, size);
}

/// The place after `index` on a ring of `size` places.
pub fn ring_next(index: usize, size: usize) -> (next: usize)
    requires
        index < size,
    ensures
        next as int == residue(index + 1, size as int),
        next < size,
{
    if index + 1 == size {
        proof {
            vstd::arithmetic::div_mod::lemma_mod_self_0(size as int);
        }
        0
    } else {
        proof {
            vstd::arithmetic::div_mod::lemma_small_mod((index + 1) as nat, size as nat);
        }
        index + 1
    }
}

/// The place before `index` on a ring of `size` places.
pub fn ring_prev(index: usize, size: usize) -> (prev: usize)
    requires
        index < size,
    ensures
        prev as int == residue(index - 1, size as int),
        prev < size,
{
    if index == 0 {
        proof {
            crate::modular::lemma_full_turn(size - 1, size as int);
            vstd::arithmetic::div_mod::lemma_mod_add_multiples_vanish(-1, size as int);
        }
        size - 1
    } else {
        proof {
            vstd::arithmetic::div_mod::lemma_small_mod((index - 1) as nat, size as nat);
        }
        index - 1
    }
}

/// One more step from a place that is itself a residue.
proof fn lemma_residue_step(x: int, size: int)
    requires
        size > 0,
    ensures
        residue(residue(x, size) + 1, size) == residue(x + 1, size),
        residue(residue(x, size) - 1, size) == residue(x - 1, size),
{
    vstd::arithmetic::div_mod::lemma_add_mod_noop(x, 1, size);
    vstd::arithmetic::div_mod::lemma_add_mod_noop(x % size, 1, size);
    vstd::arithmetic::div_mod::lemma_sub_mod_noop(x, 1, size);
    vstd::arithmetic::div_mod::lemma_sub_mod_noop(x % size, 1, size);
    vstd::arithmetic::div_mod::lemma_mod_twice(x, size);
}

/// Looks `id` up in a sorted list: `Ok` with its position if it is there,
/// `Err` with the position at which it would be inserted if it is not.
pub fn search(members: &Vec<String>, id: &str) -> (r: Result<usize, usize>)
    requires
        strictly_sorted(texts(members@)),
    ensures
        match r {
            Ok(i) => i < members@.len() && members@[i as int]@ == id@ && texts(
                members@,
            ).contains(id@) && texts(members@).index_of(id@) == i,
            Err(i) => i <= members@.len() && i == rank(texts(members@), id@) && !texts(
                members@,
            ).contains(id@),
        },
{
    let ghost m = texts(members@);
    let mut lo: usize = 0;
    let mut hi: usize = members.len();
    while lo < hi
        invariant
            m == texts(members@),
            strictly_sorted(m),
            lo <= hi <= members@.len(),
            forall|j: int| 0 <= j < lo ==> id_lt(#[trigger] m[j], id@),
            forall|j: int| hi <= j < m.len() ==> id_lt(id@, #[trigger] m[j]),
        decreases hi - lo,
    {
        let mid: usize = lo + (hi - lo) / 2;
        match compare_ids(members[mid].as_str(), id) {
            Rank::Same => {
                proof {
                    assert(m[mid as int] == id@);
                    lemma_member_rank(m, mid as int);
                }
                return Ok(mid);
            },
            Rank::Before => {
                proof {
                    assert(m[mid as int] == members@[mid as int]@);
                    assert forall|j: int| 0 <= j < mid + 1 implies id_lt(#[trigger] m[j], id@) by {
                        if j < mid {
                            lemma_id_lt_transitive(m[j], m[mid as int], id@);
                        }
                    }
                }
                lo = mid + 1;
            },
            Rank::After => {
                proof {
                    assert(m[mid as int] == members@[mid as int]@);
                    assert forall|j: int| mid <= j < m.len() implies id_lt(id@, #[trigger] m[j]) by {
                        if mid < j {
                            lemma_id_lt_transitive(id@, m[mid as int], m[j]);
                        }
                    }
                }
                hi = mid;
            },
        }
    }
    proof {
        if lo < m.len() {
            lemma_id_lt_asymmetric(id@, m[lo as int]);
        }
        lemma_rank_is(m, id@, lo as int);
        assert forall|j: int| 0 <= j < m.len() implies m[j] != id@ by {
            if j < lo {
                lemma_id_lt_asymmetric(m[j], id@);
            } else {
                lemma_id_lt_asymmetric(id@, m[j]);
            }
        }
    }
    Err(lo)
}

/// The neighbour list of the entry at `anchor`, as `neighbors_from` defines it.
pub fn gen_neighbor_list_from(
    members: &Vec<String>,
    anchor: usize,
    forward: bool,
    limit: u32,
    inclusive: bool,
) -> (list: Vec<String>)
    requires
        anchor < members@.len(),
    ensures
        texts(list@) == neighbors_from(
            texts(members@),
            anchor as int,
            forward,
            limit as nat,
            inclusive,
        ),
{
    let size: usize = members.len();
    let ghost m = texts(members@);
    let ghost first: int = if inclusive {
        anchor as int
    } else if forward {
        anchor + 1
    } else {
        anchor - 1
    };
    let most: usize = if inclusive { size } else { size - 1 };
    let count: usize = if (limit as usize) < most { limit as usize } else { most };
    let mut current: usize = if inclusive {
        anchor
    } else if forward {
        ring_next(anchor, size)
    } else {
        ring_prev(anchor, size)
    };
    proof {
        if inclusive {
            vstd::arithmetic::div_mod::lemma_small_mod(anchor as nat, size as nat);
        }
    }
    let mut list: Vec<String> = Vec::new();
    let mut taken: usize = 0;
    while taken < count
        invariant
            size == members@.len(),
            m == texts(members@),
            taken <= count,
            current < size,
            list@.len() == taken,
            current as int == residue(if forward { first + taken } else { first - taken }, size as int),
            forall|j: int|
                0 <= j < taken ==> list@[j]@ == m[residue(
                    if forward { first + j } else { first - j },
                    size as int,
                )],
        decreases count - taken,
    {
        list.push(members[current].clone());
        proof {
            lemma_residue_step(if forward { first + taken } else { first - taken }, size as int);
        }
        current = if forward { ring_next(current, size) } else { ring_prev(current, size) };
        taken = taken + 1;
    }
    assert(count as nat == neighbor_count(size as nat, limit as nat, inclusive));
    assert(texts(list@) =~= neighbors_from(m, anchor as int, forward, limit as nat, inclusive));
    list
}

} // verus!

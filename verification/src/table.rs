//! Small collections keyed by text: a set of strings and a map from strings,
//! both kept as lists without repetition so that they can be walked in a
//! fixed order.

use crate::ident::{clone_texts, same_text, texts};
use vstd::prelude::*;

verus! {

/// A finite set of strings.
pub struct StrSet {
    items: Vec<String>,
}

impl View for StrSet {
    type V = Set<Seq<char>>;

    closed spec fn view(&self) -> Set<Seq<char>> {
        texts(self.items@).to_set()
    }
}

/// The position of `key` in `list`, if it occurs there.
fn position_of(list: &Vec<String>, key: &str) -> (r: Option<usize>)
    ensures
        match r {
            Some(i) => i < list@.len() && list@[i as int]@ == key@ && texts(list@).contains(key@),
            None => !texts(list@).contains(key@),
        },
{
    let mut i: usize = 0;
    while i < list.len()
        invariant
            i <= list.len(),
            forall|j: int| 0 <= j < i ==> list@[j]@ != key@,
        decreases list.len() - i,
    {
        if same_text(list[i].as_str(), key) {
            assert(texts(list@)[i as int] == key@);
            return Some(i);
        }
        i = i + 1;
    }
    assert forall|j: int| 0 <= j < texts(list@).len() implies texts(list@)[j] != key@ by {
        assert(texts(list@)[j] == list@[j]@);
    }
    None
}

impl StrSet {
    #[verifier::type_invariant]
    spec fn distinct(&self) -> bool {
        texts(self.items@).no_duplicates()
    }

    /// The empty set.
    pub fn new() -> (s: Self)
        ensures
            s@ == Set::<Seq<char>>::empty(),
    {
        let s = StrSet { items: Vec::new() };
        assert(texts(s.items@) =~= Seq::<Seq<char>>::empty());
        assert(s@ =~= Set::<Seq<char>>::empty());
        s
    }

    /// The set of the strings of `list`; a string that occurs twice counts once.
    pub fn from_list(list: &Vec<String>) -> (s: Self)
        ensures
            s@ == texts(list@).to_set(),
    {
        let mut s = StrSet::new();
        let mut i: usize = 0;
        while i < list.len()
            invariant
                i <= list.len(),
                s@ == texts(list@).subrange(0, i as int).to_set(),
            decreases list.len() - i,
        {
            let ghost before = s@;
            s.insert(list[i].clone());
            proof {
                let all = texts(list@);
                assert(all.subrange(0, i + 1) =~= all.subrange(0, i as int).push(all[i as int]));
                lemma_to_set_push(all.subrange(0, i as int), all[i as int]);
            }
            i = i + 1;
        }
        assert(texts(list@).subrange(0, i as int) =~= texts(list@));
        s
    }

    /// Whether `id` is a member.
    pub fn contains(&self, id: &str) -> (r: bool)
        ensures
            r == self@.contains(id@),
    {
        position_of(&self.items, id).is_some()
    }

    /// Adds `id`; says whether it was new.
    pub fn insert(&mut self, id: String) -> (added: bool)
        ensures
            final(self)@ == old(self)@.insert(id@),
            added == !old(self)@.contains(id@),
    {
        proof {
            use_type_invariant(&*self);
        }
        match position_of(&self.items, id.as_str()) {
            Some(_) => {
                assert(texts(self.items@).contains(id@));
                assert(self@ =~= self@.insert(id@));
                false
            },
            None => {
                let ghost before = texts(self.items@);
                let mut items: Vec<String> = Vec::new();
                proof {
                    assert(texts(items@) =~= Seq::<Seq<char>>::empty());
                }
                core::mem::swap(&mut items, &mut self.items);
                items.push(id);
                proof {
                    assert(texts(items@) =~= before.push(id@));
                    lemma_to_set_push(before, id@);
                }
                self.items = items;
                true
            },
        }
    }

    /// Takes `id` out; says whether it was a member.
    pub fn remove(&mut self, id: &str) -> (removed: bool)
        ensures
            final(self)@ == old(self)@.remove(id@),
            removed == old(self)@.contains(id@),
    {
        proof {
            use_type_invariant(&*self);
        }
        match position_of(&self.items, id) {
            Some(i) => {
                let ghost before = texts(self.items@);
                let mut items: Vec<String> = Vec::new();
                proof {
                    assert(texts(items@) =~= Seq::<Seq<char>>::empty());
                }
                core::mem::swap(&mut items, &mut self.items);
                items.remove(i);
                proof {
                    assert(texts(items@) =~= before.remove(i as int));
                    lemma_to_set_remove(before, i as int);
                }
                self.items = items;
                true
            },
            None => {
                assert(self@ =~= self@.remove(id@));
                false
            },
        }
    }

    /// The number of members.
    pub fn len(&self) -> (n: usize)
        ensures
            self@.finite(),
            n == self@.len(),
    {
        proof {
            use_type_invariant(self);
            texts(self.items@).unique_seq_to_set();
        }
        self.items.len()
    }

    /// Whether the set has no member.
    pub fn is_empty(&self) -> (r: bool)
        ensures
            r == (self@ == Set::<Seq<char>>::empty()),
    {
        proof {
            if self.items@.len() > 0 {
                assert(texts(self.items@)[0] == self.items@[0]@);
                assert(self@.contains(self.items@[0]@));
            } else {
                assert(self@ =~= Set::<Seq<char>>::empty());
            }
        }
        self.items.len() == 0
    }

    /// The members, each once, in the order in which they were added.
    pub fn members(&self) -> (list: Vec<String>)
        ensures
            texts(list@).to_set() == self@,
            texts(list@).no_duplicates(),
    {
        proof {
            use_type_invariant(self);
        }
        clone_texts(&self.items)
    }

    /// A copy of the set.
    pub fn clone(&self) -> (copy: Self)
        ensures
            copy@ == self@,
    {
        proof {
            use_type_invariant(self);
        }
        StrSet { items: clone_texts(&self.items) }
    }
}

/// A finite map from strings to values of type `V`.
pub struct StrMap<V> {
    entries: Vec<(String, V)>,
}

/// The keys of a list of entries, in the same order.
pub open spec fn keys_of<V>(entries: Seq<(String, V)>) -> Seq<Seq<char>> {
    Seq::new(entries.len(), |i: int| entries[i].0@)
}

/// The map that a list of entries stands for: each key with the value that
/// is listed beside it.
pub open spec fn map_of<V>(entries: Seq<(String, V)>) -> Map<Seq<char>, V> {
    Map::new(
        |k: Seq<char>| keys_of(entries).contains(k),
        |k: Seq<char>| entries[keys_of(entries).index_of(k)].1,
    )
}

/// With distinct keys, each listed entry is an entry of the map, and the
/// map has no others.
pub proof fn lemma_map_of<V>(entries: Seq<(String, V)>)
    requires
        keys_of(entries).no_duplicates(),
    ensures
        map_of(entries).dom() == keys_of(entries).to_set(),
        forall|i: int|
            0 <= i < entries.len() ==> map_of(entries).contains_key(#[trigger] entries[i].0@)
                && map_of(entries)[entries[i].0@] == entries[i].1,
{
    let keys = keys_of(entries);
    assert(map_of(entries).dom() =~= keys.to_set());
    assert forall|i: int| 0 <= i < entries.len() implies map_of(entries).contains_key(
        #[trigger] entries[i].0@,
    ) && map_of(entries)[entries[i].0@] == entries[i].1 by {
        assert(keys[i] == entries[i].0@);
        let j = keys.index_of(entries[i].0@);
        assert(keys[j] == keys[i]);
    }
}

/// Replacing the value beside a key replaces it in the map.
pub proof fn lemma_map_of_update<V>(entries: Seq<(String, V)>, i: int, entry: (String, V))
    requires
        keys_of(entries).no_duplicates(),
        0 <= i < entries.len(),
        entries[i].0@ == entry.0@,
    ensures
        keys_of(entries.update(i, entry)) == keys_of(entries),
        map_of(entries.update(i, entry)) == map_of(entries).insert(entry.0@, entry.1),
{
    let after = entries.update(i, entry);
    let keys = keys_of(entries);
    assert(keys_of(after) =~= keys);
    lemma_map_of(entries);
    lemma_map_of(after);
    let target = map_of(entries).insert(entry.0@, entry.1);
    assert(keys[i] == entry.0@);
    assert(keys.to_set().contains(entry.0@));
    assert(map_of(after).dom() =~= target.dom());
    assert forall|k: Seq<char>| map_of(after).dom().contains(k) implies #[trigger] map_of(
        after,
    )[k] == target[k] by {
        let j = choose|j: int| 0 <= j < keys.len() && keys[j] == k;
        assert(after[j].0@ == k);
        assert(entries[j].0@ == k);
        if j != i {
            assert(keys[j] != keys[i]);
        }
    }
    assert(map_of(after) =~= target);
}

/// Listing a new key adds it to the map.
pub proof fn lemma_map_of_push<V>(entries: Seq<(String, V)>, entry: (String, V))
    requires
        keys_of(entries).no_duplicates(),
        !keys_of(entries).contains(entry.0@),
    ensures
        keys_of(entries.push(entry)) == keys_of(entries).push(entry.0@),
        keys_of(entries.push(entry)).no_duplicates(),
        map_of(entries.push(entry)) == map_of(entries).insert(entry.0@, entry.1),
{
    let after = entries.push(entry);
    let keys = keys_of(entries);
    assert(keys_of(after) =~= keys.push(entry.0@));
    assert forall|a: int, b: int|
        0 <= a < keys_of(after).len() && 0 <= b < keys_of(after).len() && a != b implies keys_of(
        after,
    )[a] != keys_of(after)[b] by {
        if a < keys.len() {
            assert(keys_of(after)[a] == keys[a]);
        }
        if b < keys.len() {
            assert(keys_of(after)[b] == keys[b]);
        }
    }
    lemma_map_of(entries);
    lemma_map_of(after);
    lemma_to_set_push(keys, entry.0@);
    let target = map_of(entries).insert(entry.0@, entry.1);
    assert(map_of(after).dom() =~= target.dom());
    assert forall|k: Seq<char>| map_of(after).dom().contains(k) implies #[trigger] map_of(
        after,
    )[k] == target[k] by {
        let j = choose|j: int| 0 <= j < keys_of(after).len() && keys_of(after)[j] == k;
        assert(after[j].0@ == k);
        if j < entries.len() {
            assert(entries[j].0@ == k);
            assert(keys[j] == k);
        }
    }
    assert(map_of(after) =~= target);
}

/// Striking an entry from the list takes its key out of the map.
pub proof fn lemma_map_of_remove<V>(entries: Seq<(String, V)>, i: int)
    requires
        keys_of(entries).no_duplicates(),
        0 <= i < entries.len(),
    ensures
        keys_of(entries.remove(i)) == keys_of(entries).remove(i),
        keys_of(entries.remove(i)).no_duplicates(),
        map_of(entries.remove(i)) == map_of(entries).remove(entries[i].0@),
{
    let after = entries.remove(i);
    let keys = keys_of(entries);
    assert(keys_of(after) =~= keys.remove(i));
    lemma_to_set_remove(keys, i);
    lemma_map_of(entries);
    lemma_map_of(after);
    let target = map_of(entries).remove(entries[i].0@);
    assert(keys[i] == entries[i].0@);
    assert(map_of(after).dom() =~= target.dom());
    assert forall|k: Seq<char>| map_of(after).dom().contains(k) implies #[trigger] map_of(
        after,
    )[k] == target[k] by {
        let j = choose|j: int| 0 <= j < keys_of(after).len() && keys_of(after)[j] == k;
        assert(after[j].0@ == k);
        let j2 = if j < i { j } else { j + 1 };
        assert(after[j] == entries[j2]);
        assert(entries[j2].0@ == k);
    }
    assert(map_of(after) =~= target);
}

/// The position of `key` among the entries, if it is a key.
fn entry_position<V>(entries: &Vec<(String, V)>, key: &str) -> (r: Option<usize>)
    ensures
        match r {
            Some(i) => i < entries@.len() && entries@[i as int].0@ == key@ && keys_of(
                entries@,
            ).contains(key@),
            None => !keys_of(entries@).contains(key@),
        },
{
    let mut i: usize = 0;
    while i < entries.len()
        invariant
            i <= entries.len(),
            forall|j: int| 0 <= j < i ==> entries@[j].0@ != key@,
        decreases entries.len() - i,
    {
        if same_text(entries[i].0.as_str(), key) {
            assert(keys_of(entries@)[i as int] == key@);
            return Some(i);
        }
        i = i + 1;
    }
    assert forall|j: int| 0 <= j < keys_of(entries@).len() implies keys_of(entries@)[j]
        != key@ by {
        assert(keys_of(entries@)[j] == entries@[j].0@);
    }
    None
}

impl<V> View for StrMap<V> {
    type V = Map<Seq<char>, V>;

    closed spec fn view(&self) -> Map<Seq<char>, V> {
        map_of(self.entries@)
    }
}

impl<V> StrMap<V> {
    #[verifier::type_invariant]
    spec fn distinct_keys(&self) -> bool {
        keys_of(self.entries@).no_duplicates()
    }

    /// The keys in the order in which the map lists them.
    pub closed spec fn key_order(&self) -> Seq<Seq<char>> {
        keys_of(self.entries@)
    }

    /// The empty map.
    pub fn new() -> (m: Self)
        ensures
            m@ == Map::<Seq<char>, V>::empty(),
    {
        let m = StrMap { entries: Vec::new() };
        assert(keys_of(m.entries@) =~= Seq::<Seq<char>>::empty());
        assert(m@ =~= Map::<Seq<char>, V>::empty());
        m
    }

    /// Whether `key` has a value.
    pub fn contains_key(&self, key: &str) -> (r: bool)
        ensures
            r == self@.contains_key(key@),
    {
        entry_position(&self.entries, key).is_some()
    }

    /// The value of `key`, if it has one.
    pub fn get(&self, key: &str) -> (r: Option<&V>)
        ensures
            r is Some <==> self@.contains_key(key@),
            r is Some ==> *r->0 == self@[key@],
    {
        proof {
            use_type_invariant(self);
            lemma_map_of(self.entries@);
        }
        match entry_position(&self.entries, key) {
            Some(i) => Some(&self.entries[i].1),
            None => None,
        }
    }

    /// Gives `key` the value `value`, in place of any value it had.
    pub fn insert(&mut self, key: String, value: V)
        ensures
            final(self)@ == old(self)@.insert(key@, value),
    {
        proof {
            use_type_invariant(&*self);
            lemma_map_of(self.entries@);
        }
        let ghost before = self.entries@;
        let found = entry_position(&self.entries, key.as_str());
        let mut entries: Vec<(String, V)> = Vec::new();
        proof {
            assert(keys_of(entries@) =~= Seq::<Seq<char>>::empty());
        }
        core::mem::swap(&mut entries, &mut self.entries);
        match found {
            Some(i) => {
                entries.remove(i);
                entries.insert(i, (key, value));
                proof {
                    assert(entries@ =~= before.update(i as int, (key, value)));
                    lemma_map_of_update(before, i as int, (key, value));
                }
            },
            None => {
                entries.push((key, value));
                proof {
                    assert(entries@ =~= before.push((key, value)));
                    lemma_map_of_push(before, (key, value));
                }
            },
        }
        self.entries = entries;
    }

    /// Takes `key` out of the map and hands back the value it had, if any.
    pub fn remove(&mut self, key: &str) -> (r: Option<V>)
        ensures
            final(self)@ == old(self)@.remove(key@),
            r is Some <==> old(self)@.contains_key(key@),
            r is Some ==> r->0 == old(self)@[key@],
    {
        proof {
            use_type_invariant(&*self);
            lemma_map_of(self.entries@);
        }
        let ghost before = self.entries@;
        match entry_position(&self.entries, key) {
            Some(i) => {
                let mut entries: Vec<(String, V)> = Vec::new();
                proof {
                    assert(keys_of(entries@) =~= Seq::<Seq<char>>::empty());
                }
                core::mem::swap(&mut entries, &mut self.entries);
                let (_, value) = entries.remove(i);
                proof {
                    assert(entries@ =~= before.remove(i as int));
                    lemma_map_of_remove(before, i as int);
                }
                self.entries = entries;
                Some(value)
            },
            None => {
                assert(self@ =~= self@.remove(key@));
                None
            },
        }
    }

    /// The number of keys.
    pub fn len(&self) -> (n: usize)
        ensures
            n == self.key_order().len(),
            n == self@.dom().len(),
            self@.dom().finite(),
            self.key_order().no_duplicates(),
            self.key_order().to_set() == self@.dom(),
    {
        proof {
            use_type_invariant(self);
            lemma_map_of(self.entries@);
            keys_of(self.entries@).unique_seq_to_set();
        }
        self.entries.len()
    }

    /// The key at position `i` of the map's listing.
    pub fn key_at(&self, i: usize) -> (key: &String)
        requires
            i < self.key_order().len(),
        ensures
            key@ == self.key_order()[i as int],
            self@.contains_key(key@),
    {
        proof {
            use_type_invariant(self);
            lemma_map_of(self.entries@);
        }
        &self.entries[i].0
    }

    /// The value at position `i` of the map's listing.
    pub fn value_at(&self, i: usize) -> (value: &V)
        requires
            i < self.key_order().len(),
        ensures
            self@.contains_key(self.key_order()[i as int]),
            *value == self@[self.key_order()[i as int]],
    {
        proof {
            use_type_invariant(self);
            lemma_map_of(self.entries@);
        }
        &self.entries[i].1
    }
}

/// Pushing onto a list adds one member to its set.
pub proof fn lemma_to_set_push<A>(s: Seq<A>, x: A)
    ensures
        s.push(x).to_set() == s.to_set().insert(x),
{
    assert forall|y: A| s.push(x).to_set().contains(y) <==> s.to_set().insert(x).contains(y) by {
        if s.push(x).contains(y) {
            let i = choose|i: int| 0 <= i < s.push(x).len() && s.push(x)[i] == y;
            if i < s.len() {
                assert(s[i] == y);
            }
        }
        if s.contains(y) {
            let i = choose|i: int| 0 <= i < s.len() && s[i] == y;
            assert(s.push(x)[i] == y);
        }
        if y == x {
            assert(s.push(x)[s.len() as int] == x);
        }
    }
    assert(s.push(x).to_set() =~= s.to_set().insert(x));
}

/// Removing an entry of a list without repetition removes it from the set.
pub proof fn lemma_to_set_remove<A>(s: Seq<A>, i: int)
    requires
        0 <= i < s.len(),
        s.no_duplicates(),
    ensures
        s.remove(i).to_set() == s.to_set().remove(s[i]),
        s.remove(i).no_duplicates(),
{
    let r = s.remove(i);
    assert forall|y: A| r.to_set().contains(y) <==> s.to_set().remove(s[i]).contains(y) by {
        if r.contains(y) {
            let j = choose|j: int| 0 <= j < r.len() && r[j] == y;
            if j < i {
                assert(s[j] == y);
            } else {
                assert(s[j + 1] == y);
            }
        }
        if s.contains(y) && y != s[i] {
            let j = choose|j: int| 0 <= j < s.len() && s[j] == y;
            if j < i {
                assert(r[j] == y);
            } else {
                assert(r[j - 1] == y);
            }
        }
    }
    assert(r.to_set() =~= s.to_set().remove(s[i]));
    assert forall|a: int, b: int| 0 <= a < r.len() && 0 <= b < r.len() && a != b implies r[a]
        != r[b] by {
        let a2 = if a < i { a } else { a + 1 };
        let b2 = if b < i { b } else { b + 1 };
        assert(r[a] == s[a2] && r[b] == s[b2]);
    }
}

} // verus!

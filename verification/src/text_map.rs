//! A map from text to text, kept as the list of its entries, each key once.

use vstd::prelude::*;
use crate::text::same_text;

verus! {

/// What each entry holds.
pub open spec fn pairs(entries: Seq<(String, String)>) -> Seq<(Seq<char>, Seq<char>)> {
    entries.map_values(|e: (String, String)| (e.0@, e.1@))
}

/// Whether no two entries have the same key.
pub open spec fn distinct_keys(pairs: Seq<(Seq<char>, Seq<char>)>) -> bool {
    forall|i: int, j: int|
        0 <= i < j < pairs.len() ==> (#[trigger] pairs[i]).0 != (#[trigger] pairs[j]).0
}

/// The map that a list of entries stands for: each key with the value of
/// the last entry that has it.
pub open spec fn map_of(pairs: Seq<(Seq<char>, Seq<char>)>) -> Map<Seq<char>, Seq<char>>
    decreases pairs.len(),
{
    if pairs.len() == 0 {
        Map::empty()
    } else {
        map_of(pairs.drop_last()).insert(pairs.last().0, pairs.last().1)
    }
}

/// A key that no entry from `from` on has is mapped as the entries before
/// `from` map it.
proof fn lemma_map_of_prefix(pairs: Seq<(Seq<char>, Seq<char>)>, key: Seq<char>, from: int)
    requires
        0 <= from <= pairs.len(),
        forall|j: int| from <= j < pairs.len() ==> (#[trigger] pairs[j]).0 != key,
    ensures
        map_of(pairs).contains_key(key) == map_of(pairs.take(from)).contains_key(key),
        map_of(pairs).contains_key(key) ==> map_of(pairs)[key] == map_of(pairs.take(from))[key],
    decreases pairs.len() - from,
{
    if from == pairs.len() {
        assert(pairs.take(from) =~= pairs);
    } else {
        let rest = pairs.drop_last();
        assert(pairs.last() == pairs[pairs.len() - 1]);
        assert forall|j: int| from <= j < rest.len() implies (#[trigger] rest[j]).0 != key by {
            assert(rest[j] == pairs[j]);
        }
        lemma_map_of_prefix(rest, key, from);
        assert(rest.take(from) =~= pairs.take(from));
    }
}

/// A new value in the one entry of a key is that key mapped anew.
proof fn lemma_map_of_update(
    pairs: Seq<(Seq<char>, Seq<char>)>,
    at: int,
    key: Seq<char>,
    value: Seq<char>,
)
    requires
        0 <= at < pairs.len(),
        pairs[at].0 == key,
        forall|j: int| at < j < pairs.len() ==> (#[trigger] pairs[j]).0 != key,
    ensures
        map_of(pairs.update(at, (key, value))) == map_of(pairs).insert(key, value),
    decreases pairs.len(),
{
    let updated = pairs.update(at, (key, value));
    if at == pairs.len() - 1 {
        assert(updated.drop_last() =~= pairs.drop_last());
        assert(map_of(updated) =~= map_of(pairs).insert(key, value));
    } else {
        let rest = pairs.drop_last();
        assert(pairs.last() == pairs[pairs.len() - 1]);
        assert forall|j: int| at < j < rest.len() implies (#[trigger] rest[j]).0 != key by {
            assert(rest[j] == pairs[j]);
        }
        lemma_map_of_update(rest, at, key, value);
        assert(updated.drop_last() =~= rest.update(at, (key, value)));
        assert(updated.last() == pairs.last());
        assert(map_of(updated) =~= map_of(pairs).insert(key, value));
    }
}

/// The position of the entry of `key`; the number of entries where there
/// is none.
fn position_of_key(entries: &Vec<(String, String)>, key: &str) -> (at: usize)
    ensures
        at <= entries.len(),
        forall|j: int| 0 <= j < at ==> (#[trigger] pairs(entries@)[j]).0 != key@,
        at < entries.len() ==> pairs(entries@)[at as int].0 == key@,
{
    let mut at: usize = 0;
    while at < entries.len() && !same_text(entries[at].0.as_str(), key)
        invariant
            at <= entries.len(),
            forall|j: int| 0 <= j < at ==> (#[trigger] pairs(entries@)[j]).0 != key@,
        decreases entries.len() - at,
    {
        at += 1;
    }
    at
}

/// A map from text to text. Each key has one entry.
pub struct TextMap {
    entries: Vec<(String, String)>,
}

impl View for TextMap {
    type V = Map<Seq<char>, Seq<char>>;

    closed spec fn view(&self) -> Map<Seq<char>, Seq<char>> {
        map_of(pairs(self.entries@))
    }
}

impl TextMap {
    #[verifier::type_invariant]
    spec fn well_formed(self) -> bool {
        distinct_keys(pairs(self.entries@))
    }

    /// The empty map.
    pub fn new() -> (map: TextMap)
        ensures
            map@ == Map::<Seq<char>, Seq<char>>::empty(),
    {
        let map = TextMap { entries: Vec::new() };
        assert(pairs(map.entries@) =~= Seq::empty());
        map
    }

    /// The number of keys.
    pub fn len(&self) -> (len: usize)
        ensures
            len == self@.dom().len(),
            self@.dom().finite(),
    {
        proof {
            use_type_invariant(self);
            lemma_map_of_domain(pairs(self.entries@));
        }
        self.entries.len()
    }

    /// Maps `key` to `value`, in place of what it was mapped to.
    pub fn insert(&mut self, key: String, value: String)
        ensures
            final(self)@ == old(self)@.insert(key@, value@),
    {
        proof {
            use_type_invariant(&*self);
        }
        // The entries are taken out while they change, so that the map is
        // well formed at every step.
        let mut entries: Vec<(String, String)> = Vec::new();
        core::mem::swap(&mut self.entries, &mut entries);
        let ghost before = pairs(entries@);
        let at = position_of_key(&entries, key.as_str());
        if at < entries.len() {
            entries.set(at, (key, value));
            proof {
                let after = pairs(entries@);
                assert(after =~= before.update(at as int, (key@, value@)));
                lemma_map_of_update(before, at as int, key@, value@);
            }
        } else {
            entries.push((key, value));
            proof {
                let after = pairs(entries@);
                assert(after =~= before.push((key@, value@)));
                assert(after.drop_last() =~= before);
            }
        }
        core::mem::swap(&mut self.entries, &mut entries);
    }

    /// What `key` is mapped to, if anything.
    pub fn get(&self, key: &str) -> (value: Option<&String>)
        ensures
            value is Some == self@.contains_key(key@),
            value matches Some(v) ==> v@ == self@[key@],
    {
        proof {
            use_type_invariant(self);
        }
        let at = position_of_key(&self.entries, key);
        let ghost all = pairs(self.entries@);
        if at < self.entries.len() {
            proof {
                lemma_map_of_prefix(all, key@, at + 1);
                assert(all.take(at + 1).last() == all[at as int]);
            }
            Some(&self.entries[at].1)
        } else {
            proof {
                lemma_map_of_prefix(all, key@, 0);
                assert(all.take(0) =~= Seq::empty());
            }
            None
        }
    }

    /// Whether `key` is mapped to anything.
    pub fn contains_key(&self, key: &str) -> (r: bool)
        ensures
            r == self@.contains_key(key@),
    {
        self.get(key).is_some()
    }
}

/// Entries with distinct keys stand for a map of as many keys.
proof fn lemma_map_of_domain(pairs: Seq<(Seq<char>, Seq<char>)>)
    requires
        distinct_keys(pairs),
    ensures
        map_of(pairs).dom().finite(),
        map_of(pairs).dom().len() == pairs.len(),
        forall|key: Seq<char>|
            map_of(pairs).contains_key(key) ==> exists|i: int|
                0 <= i < pairs.len() && (#[trigger] pairs[i]).0 == key,
    decreases pairs.len(),
{
    if pairs.len() > 0 {
        let rest = pairs.drop_last();
        assert forall|i: int, j: int| 0 <= i < j < rest.len() implies (#[trigger] rest[i]).0 != (
        #[trigger] rest[j]).0 by {
            assert(rest[i] == pairs[i] && rest[j] == pairs[j]);
        }
        lemma_map_of_domain(rest);
        let last = pairs.last();
        assert(last == pairs[pairs.len() - 1]);
        if map_of(rest).contains_key(last.0) {
            let i = choose|i: int| 0 <= i < rest.len() && (#[trigger] rest[i]).0 == last.0;
            assert(rest[i] == pairs[i]);
        }
        assert(map_of(pairs).dom() =~= map_of(rest).dom().insert(last.0));
        assert forall|key: Seq<char>| map_of(pairs).contains_key(key) implies exists|i: int|
            0 <= i < pairs.len() && (#[trigger] pairs[i]).0 == key by {
            if key == last.0 {
                assert(pairs[pairs.len() - 1].0 == key);
            } else {
                let i = choose|i: int| 0 <= i < rest.len() && (#[trigger] rest[i]).0 == key;
                assert(pairs[i] == rest[i]);
            }
        }
    }
}

} // verus!

//! The key/value pairs of a `create` statement: a finite map from field names
//! to values, kept as a list of entries in which no key occurs twice.

use crate::ast::{Value, ValueView};
use crate::text::same_text;
use vstd::prelude::*;
use vstd::std_specs::cmp::PartialEqSpecImpl;

verus! {

/// A finite map from field names to values.
#[derive(Debug)]
pub struct Mapping {
    entries: Vec<(String, Value)>,
}

/// The map that results from inserting `entries` one after the other, so
/// that of two entries with one key the later one counts.
pub open spec fn map_of(entries: Seq<(String, Value)>) -> Map<Seq<char>, ValueView>
    decreases entries.len(),
{
    if entries.len() == 0 {
        Map::empty()
    } else {
        map_of(entries.drop_last()).insert(entries.last().0@, entries.last().1@)
    }
}

/// Whether no two of `entries` have the same key.
pub open spec fn distinct_keys(entries: Seq<(String, Value)>) -> bool {
    forall|i: int, j: int|
        0 <= i < j < entries.len() ==> (#[trigger] entries[i]).0@ != (#[trigger] entries[j]).0@
}

/// Whether one of `entries` has the key `key`.
pub open spec fn has_key(entries: Seq<(String, Value)>, key: Seq<char>) -> bool {
    exists|i: int| 0 <= i < entries.len() && (#[trigger] entries[i]).0@ == key
}

/// The map of a list of entries is finite and has the keys of the entries.
/// Where no key occurs twice, it has as many keys as there are entries and
/// maps the key of each entry to its value.
pub proof fn lemma_map_of_domain(entries: Seq<(String, Value)>)
    ensures
        map_of(entries).dom().finite(),
        map_of(entries).len() <= entries.len(),
        forall|key: Seq<char>| #[trigger]
            map_of(entries).contains_key(key) <==> has_key(entries, key),
        distinct_keys(entries) ==> map_of(entries).len() == entries.len(),
        distinct_keys(entries) ==> forall|i: int|
            0 <= i < entries.len() ==> map_of(entries)[(#[trigger] entries[i]).0@] == entries[i].1@,
    decreases entries.len(),
{
    if entries.len() > 0 {
        let front = entries.drop_last();
        let last = entries.last();
        lemma_map_of_domain(front);
        assert forall|key: Seq<char>| #[trigger]
            map_of(entries).contains_key(key) <==> has_key(entries, key) by {
            if map_of(entries).contains_key(key) {
                if key == last.0@ {
                    assert(entries[entries.len() - 1].0@ == key);
                } else {
                    assert(map_of(front).contains_key(key));
                    let i = choose|i: int| 0 <= i < front.len() && (#[trigger] front[i]).0@ == key;
                    assert(entries[i].0@ == key);
                }
            }
            if has_key(entries, key) {
                let i = choose|i: int| 0 <= i < entries.len() && (#[trigger] entries[i]).0@ == key;
                if i < front.len() {
                    assert(front[i].0@ == key);
                }
            }
        }
        if distinct_keys(entries) {
            assert(distinct_keys(front)) by {
                assert forall|i: int, j: int| 0 <= i < j < front.len() implies (
                #[trigger] front[i]).0@ != (#[trigger] front[j]).0@ by {
                    assert(entries[i].0@ != entries[j].0@);
                }
            }
            assert(!map_of(front).contains_key(last.0@)) by {
                if has_key(front, last.0@) {
                    let i = choose|i: int|
                        0 <= i < front.len() && (#[trigger] front[i]).0@ == last.0@;
                    assert(entries[i].0@ != entries[entries.len() - 1].0@);
                }
            }
            assert forall|i: int| 0 <= i < entries.len() implies map_of(entries)[(
            #[trigger] entries[i]).0@] == entries[i].1@ by {
                if i < front.len() {
                    assert(front[i] == entries[i]);
                    assert(entries[i].0@ != entries[entries.len() - 1].0@);
                }
            }
        }
    }
}

/// Putting a new value in the place of the entry that has the key is the
/// same as inserting the key with that value.
pub proof fn lemma_map_of_update(entries: Seq<(String, Value)>, i: int, entry: (String, Value))
    requires
        distinct_keys(entries),
        0 <= i < entries.len(),
        entries[i].0@ == entry.0@,
    ensures
        distinct_keys(entries.update(i, entry)),
        map_of(entries.update(i, entry)) == map_of(entries).insert(entry.0@, entry.1@),
{
    let updated = entries.update(i, entry);
    assert(distinct_keys(updated)) by {
        assert forall|a: int, b: int| 0 <= a < b < updated.len() implies (#[trigger] updated[a]).0@
            != (#[trigger] updated[b]).0@ by {
            assert(entries[a].0@ != entries[b].0@);
        }
    }
    lemma_map_of_domain(entries);
    lemma_map_of_domain(updated);
    let wanted = map_of(entries).insert(entry.0@, entry.1@);
    assert forall|key: Seq<char>| #[trigger]
        map_of(updated).contains_key(key) <==> wanted.contains_key(key) by {
        if has_key(updated, key) {
            let a = choose|a: int| 0 <= a < updated.len() && (#[trigger] updated[a]).0@ == key;
            assert(entries[a].0@ == key);
        }
        if has_key(entries, key) {
            let a = choose|a: int| 0 <= a < entries.len() && (#[trigger] entries[a]).0@ == key;
            assert(updated[a].0@ == key);
        }
        if key == entry.0@ {
            assert(updated[i].0@ == key);
        }
    }
    assert forall|key: Seq<char>| map_of(updated).contains_key(key) implies #[trigger] map_of(
        updated,
    )[key] == wanted[key] by {
        let a = choose|a: int| 0 <= a < updated.len() && (#[trigger] updated[a]).0@ == key;
        assert(map_of(updated)[updated[a].0@] == updated[a].1@);
        if a != i {
            assert(entries[a] == updated[a]);
            assert(map_of(entries)[entries[a].0@] == entries[a].1@);
            assert(entries[a].0@ != entries[i].0@);
        }
    }
    assert(map_of(updated) =~= wanted);
}

impl View for Mapping {
    type V = Map<Seq<char>, ValueView>;

    closed spec fn view(&self) -> Map<Seq<char>, ValueView> {
        map_of(self.entries@)
    }
}

impl PartialEq for Mapping {
    fn eq(&self, other: &Self) -> (equal: bool) {
        proof {
            use_type_invariant(self);
            use_type_invariant(other);
            lemma_map_of_domain(self.entries@);
            lemma_map_of_domain(other.entries@);
        }
        if self.entries.len() != other.entries.len() {
            return false;
        }
        let mut i: usize = 0;
        while i < self.entries.len()
            invariant
                i <= self.entries@.len(),
                self.entries@.len() == other.entries@.len(),
                distinct_keys(self.entries@),
                distinct_keys(other.entries@),
                forall|j: int|
                    0 <= j < i ==> other@.contains_key((#[trigger] self.entries@[j]).0@)
                        && other@[self.entries@[j].0@] == self.entries@[j].1@,
            decreases self.entries@.len() - i,
        {
            proof {
                lemma_map_of_domain(self.entries@);
                lemma_map_of_domain(other.entries@);
            }
            match other.position(self.entries[i].0.as_str()) {
                Some(j) => {
                    if !(self.entries[i].1 == other.entries[j].1) {
                        assert(self@[self.entries@[i as int].0@] == self.entries@[i as int].1@);
                        assert(other@[other.entries@[j as int].0@] == other.entries@[j as int].1@);
                        return false;
                    }
                    assert(other.entries@[j as int].0@ == self.entries@[i as int].0@);
                },
                None => {
                    assert(self.entries@[i as int].0@ == self.entries@[i as int].0@);
                    assert(self@.contains_key(self.entries@[i as int].0@));
                    return false;
                },
            }
            i = i + 1;
        }
        proof {
            use_type_invariant(&*self);
            lemma_map_of_domain(self.entries@);
            lemma_map_of_domain(other.entries@);
            lemma_same_map(self.entries@, other.entries@);
        }
        true
    }
}

impl PartialEqSpecImpl for Mapping {
    open spec fn obeys_eq_spec() -> bool {
        true
    }

    open spec fn eq_spec(&self, other: &Self) -> bool {
        self@ == other@
    }
}

/// Two lists of entries of one length, without a key twice, make the same
/// map where the second maps each key of the first as the first does.
proof fn lemma_same_map(a: Seq<(String, Value)>, b: Seq<(String, Value)>)
    requires
        a.len() == b.len(),
        distinct_keys(a),
        distinct_keys(b),
        forall|j: int|
            0 <= j < a.len() ==> map_of(b).contains_key((#[trigger] a[j]).0@) && map_of(b)[a[j].0@]
                == a[j].1@,
    ensures
        map_of(a) == map_of(b),
{
    lemma_map_of_domain(a);
    lemma_map_of_domain(b);
    assert(map_of(a).dom().subset_of(map_of(b).dom())) by {
        assert forall|key: Seq<char>| map_of(a).dom().contains(key) implies map_of(
            b,
        ).dom().contains(key) by {
            assert(map_of(a).contains_key(key));
            let j = choose|j: int| 0 <= j < a.len() && (#[trigger] a[j]).0@ == key;
            assert(map_of(b).contains_key(a[j].0@));
        }
    }
    vstd::set_lib::lemma_subset_equality(map_of(a).dom(), map_of(b).dom());
    assert forall|key: Seq<char>| map_of(a).contains_key(key) implies map_of(a)[key] == map_of(
        b,
    )[key] by {
        let j = choose|j: int| 0 <= j < a.len() && (#[trigger] a[j]).0@ == key;
        assert(map_of(a)[a[j].0@] == a[j].1@);
    }
    assert(map_of(a) =~= map_of(b));
}

impl Mapping {
    #[verifier::type_invariant]
    spec fn no_key_twice(&self) -> bool {
        distinct_keys(self.entries@)
    }

    /// The empty map.
    pub fn new() -> (mapping: Self)
        ensures
            mapping@ == Map::<Seq<char>, ValueView>::empty(),
    {
        Mapping { entries: Vec::new() }
    }

    /// The index of the entry that has the key `key`, if there is one.
    fn position_in(entries: &Vec<(String, Value)>, key: &str) -> (found: Option<usize>)
        ensures
            match found {
                Some(i) => i < entries@.len() && entries@[i as int].0@ == key@,
                None => !has_key(entries@, key@),
            },
    {
        let mut i: usize = 0;
        while i < entries.len()
            invariant
                i <= entries@.len(),
                forall|j: int| 0 <= j < i ==> (#[trigger] entries@[j]).0@ != key@,
            decreases entries@.len() - i,
        {
            if same_text(entries[i].0.as_str(), key) {
                return Some(i);
            }
            i = i + 1;
        }
        None
    }

    fn position(&self, key: &str) -> (found: Option<usize>)
        ensures
            match found {
                Some(i) => i < self.entries@.len() && self.entries@[i as int].0@ == key@,
                None => !has_key(self.entries@, key@),
            },
    {
        Self::position_in(&self.entries, key)
    }

    /// Maps `key` to `value`, in place of what `key` was mapped to before, and
    /// returns that earlier value if there was one.
    pub fn insert(&mut self, key: String, value: Value) -> (earlier: Option<Value>)
        ensures
            final(self)@ == old(self)@.insert(key@, value@),
            match earlier {
                Some(found) => old(self)@.contains_key(key@) && found@ == old(self)@[key@],
                None => !old(self)@.contains_key(key@),
            },
    {
        proof {
            use_type_invariant(&*self);
            lemma_map_of_domain(self.entries@);
        }
        let mut taken = Mapping::new();
        std::mem::swap(self, &mut taken);
        let mut entries = taken.entries;
        let ghost before = entries@;
        let earlier = match Self::position_in(&entries, key.as_str()) {
            Some(i) => {
                proof {
                    lemma_map_of_update(before, i as int, (key, value));
                }
                let mut entry = (key, value);
                std::mem::swap(&mut entries[i], &mut entry);
                Some(entry.1)
            },
            None => {
                entries.push((key, value));
                proof {
                    assert(entries@.drop_last() == before);
                    assert(distinct_keys(entries@)) by {
                        assert forall|a: int, b: int| 0 <= a < b < entries@.len() implies (
                        #[trigger] entries@[a]).0@ != (#[trigger] entries@[b]).0@ by {
                            assert(before[a] == entries@[a]);
                            if b < before.len() {
                                assert(before[b] == entries@[b]);
                            }
                        }
                    }
                }
                None
            },
        };
        *self = Mapping { entries };
        earlier
    }

    /// The value that `key` is mapped to, if it is mapped.
    pub fn get(&self, key: &str) -> (value: Option<&Value>)
        ensures
            match value {
                Some(found) => self@.contains_key(key@) && found@ == self@[key@],
                None => !self@.contains_key(key@),
            },
    {
        proof {
            use_type_invariant(&*self);
            lemma_map_of_domain(self.entries@);
        }
        match self.position(key) {
            Some(i) => Some(&self.entries[i].1),
            None => None,
        }
    }

    /// Whether `key` is mapped.
    pub fn contains_key(&self, key: &str) -> (found: bool)
        ensures
            found == self@.contains_key(key@),
    {
        self.get(key).is_some()
    }

    /// The number of keys.
    pub fn len(&self) -> (count: usize)
        ensures
            self@.dom().finite(),
            count == self@.len(),
    {
        proof {
            use_type_invariant(&*self);
            lemma_map_of_domain(self.entries@);
        }
        self.entries.len()
    }

    /// Whether no key is mapped.
    pub fn is_empty(&self) -> (empty: bool)
        ensures
            empty == (self@ == Map::<Seq<char>, ValueView>::empty()),
    {
        proof {
            use_type_invariant(&*self);
            lemma_map_of_domain(self.entries@);
            if self.entries@.len() > 0 {
                assert(self@.contains_key(self.entries@[0].0@));
            }
        }
        self.entries.len() == 0
    }

    /// The pairs of the map, each key once.
    pub fn entries(&self) -> (entries: &Vec<(String, Value)>)
        ensures
            distinct_keys(entries@),
            map_of(entries@) == self@,
    {
        proof {
            use_type_invariant(self);
        }
        &self.entries
    }
}

} // verus!

//! A string-keyed table with unique keys, viewed as a map.
use crate::text::same_text;
use vstd::prelude::*;

verus! {

/// Whether some entry of `entries` is filed under `key`.
pub open spec fn has_key<V>(entries: Seq<(String, V)>, key: Seq<char>) -> bool {
    exists|i: int| 0 <= i < entries.len() && (#[trigger] entries[i]).0@ == key
}

/// The position of an entry filed under `key`, where there is one.
pub open spec fn key_index<V>(entries: Seq<(String, V)>, key: Seq<char>) -> int {
    choose|i: int| 0 <= i < entries.len() && (#[trigger] entries[i]).0@ == key
}

/// No two entries share a key.
pub open spec fn distinct_keys<V>(entries: Seq<(String, V)>) -> bool {
    forall|i: int, j: int|
        0 <= i < j < entries.len() ==> (#[trigger] entries[i]).0@ != (#[trigger] entries[j]).0@
}

/// The map that a list of entries with distinct keys stands for.
pub open spec fn map_of<V>(entries: Seq<(String, V)>) -> Map<Seq<char>, V> {
    Map::new(
        |key: Seq<char>| has_key(entries, key),
        |key: Seq<char>| entries[key_index(entries, key)].1,
    )
}

/// With distinct keys, the entry at position `i` is the one found under its key.
pub proof fn lemma_key_index<V>(entries: Seq<(String, V)>, i: int)
    requires
        distinct_keys(entries),
        0 <= i < entries.len(),
    ensures
        has_key(entries, entries[i].0@),
        key_index(entries, entries[i].0@) == i,
        map_of(entries).contains_key(entries[i].0@),
        map_of(entries)[entries[i].0@] == entries[i].1,
{
    let key = entries[i].0@;
    assert(has_key(entries, key));
    let j = key_index(entries, key);
    assert(0 <= j < entries.len() && entries[j].0@ == key);
    if j < i {
        assert(entries[j].0@ != entries[i].0@);
    } else if i < j {
        assert(entries[i].0@ != entries[j].0@);
    }
}

/// A table from text keys to values, each key filed at most once.
#[derive(Debug)]
pub struct Table<V> {
    entries: Vec<(String, V)>,
}

impl<V> View for Table<V> {
    type V = Map<Seq<char>, V>;

    open spec fn view(&self) -> Map<Seq<char>, V> {
        map_of(self.listing())
    }
}

impl<V> Table<V> {
    #[verifier::type_invariant]
    closed spec fn distinct(&self) -> bool {
        distinct_keys(self.entries@)
    }

    /// The entries in the order in which their keys were first filed.
    pub closed spec fn listing(&self) -> Seq<(String, V)> {
        self.entries@
    }

    /// An empty table.
    pub fn new() -> (table: Table<V>)
        ensures
            table@ == Map::<Seq<char>, V>::empty(),
            table.listing().len() == 0,
    {
        let table = Table { entries: Vec::new() };
        assert(table@ =~= Map::<Seq<char>, V>::empty());
        table
    }

    /// The number of keys filed.
    pub fn len(&self) -> (n: usize)
        ensures
            n == self.listing().len(),
            n == self@.dom().len(),
            distinct_keys(self.listing()),
    {
        proof {
            use_type_invariant(self);
            lemma_map_of_len(self.entries@);
        }
        self.entries.len()
    }

    /// The key and value at position `i` of the listing.
    pub fn entry(&self, i: usize) -> (pair: (&String, &V))
        requires
            i < self.listing().len(),
        ensures
            *pair.0 == self.listing()[i as int].0,
            *pair.1 == self.listing()[i as int].1,
            self@.contains_key(pair.0@),
            self@[pair.0@] == *pair.1,
    {
        proof {
            use_type_invariant(self);
            lemma_key_index(self.entries@, i as int);
        }
        let e = &self.entries[i];
        (&e.0, &e.1)
    }

    fn position(&self, key: &str) -> (found: Option<usize>)
        ensures
            match found {
                Some(i) => i < self.entries@.len() && self.entries@[i as int].0@ == key@,
                None => !has_key(self.entries@, key@),
            },
    {
        let n: usize = self.entries.len();
        let mut i: usize = 0;
        while i < n
            invariant
                i <= n,
                n == self.entries@.len(),
                forall|j: int| 0 <= j < i ==> (#[trigger] self.entries@[j]).0@ != key@,
            decreases n - i,
        {
            if same_text(self.entries[i].0.as_str(), key) {
                return Some(i);
            }
            i += 1;
        }
        None
    }

    /// Whether `key` is filed.
    pub fn contains_key(&self, key: &str) -> (found: bool)
        ensures
            found == self@.contains_key(key@),
    {
        self.position(key).is_some()
    }

    /// The value filed under `key`, if any.
    pub fn get(&self, key: &str) -> (found: Option<&V>)
        ensures
            match found {
                Some(value) => self@.contains_key(key@) && self@[key@] == *value,
                None => !self@.contains_key(key@),
            },
    {
        match self.position(key) {
            Some(i) => {
                proof {
                    use_type_invariant(self);
                    lemma_key_index(self.entries@, i as int);
                }
                Some(&self.entries[i].1)
            },
            None => None,
        }
    }

    /// Files `value` under `key`, in place of what was filed there before.
    pub fn insert(&mut self, key: String, value: V)
        ensures
            final(self)@ == old(self)@.insert(key@, value),
    {
        proof {
            use_type_invariant(&*self);
        }
        let found = self.position(key.as_str());
        let mut entries: Vec<(String, V)> = Vec::new();
        core::mem::swap(&mut self.entries, &mut entries);
        let ghost before = entries@;
        match found {
            Some(i) => {
                entries.set(i, (key, value));
                proof {
                    lemma_replace(before, i as int, entries@[i as int]);
                }
            },
            None => {
                entries.push((key, value));
                proof {
                    lemma_append(before, entries@[before.len() as int]);
                }
            },
        }
        self.entries = entries;
    }

    /// Files every entry of `other` here; where both hold a key, `other`'s value stays.
    pub fn absorb(&mut self, other: Table<V>)
        ensures
            final(self)@ == old(self)@.union_prefer_right(other@),
    {
        proof {
            use_type_invariant(&other);
        }
        let ghost all = other.entries@;
        let mut rest: Vec<(String, V)> = other.entries;
        assert(all.subrange(0, all.len() as int) =~= all);
        assert(map_of(all.subrange(all.len() as int, all.len() as int)) =~= Map::<
            Seq<char>,
            V,
        >::empty());
        assert(self@ =~= old(self)@.union_prefer_right(Map::<Seq<char>, V>::empty()));
        while rest.len() > 0
            invariant
                distinct_keys(all),
                rest@.len() <= all.len(),
                rest@ == all.subrange(0, rest@.len() as int),
                self@ == old(self)@.union_prefer_right(
                    map_of(all.subrange(rest@.len() as int, all.len() as int)),
                ),
            decreases rest@.len(),
        {
            let ghost n = rest@.len() as int;
            let ghost tail = all.subrange(n, all.len() as int);
            let ghost longer = all.subrange(n - 1, all.len() as int);
            let entry = rest.pop().unwrap();
            proof {
                assert(entry == all[n - 1]);
                lemma_subrange_distinct(all, n - 1, all.len() as int);
                lemma_drop_first(longer);
                assert(longer.drop_first() =~= tail);
                assert(rest@ =~= all.subrange(0, n - 1));
            }
            self.insert(entry.0, entry.1);
            assert(self@ =~= old(self)@.union_prefer_right(map_of(longer)));
        }
        assert(all.subrange(0, all.len() as int) =~= all);
    }
}

/// A stretch of a list with distinct keys has distinct keys.
pub proof fn lemma_subrange_distinct<V>(entries: Seq<(String, V)>, from: int, to: int)
    requires
        distinct_keys(entries),
        0 <= from <= to <= entries.len(),
    ensures
        distinct_keys(entries.subrange(from, to)),
{
    let part = entries.subrange(from, to);
    assert forall|a: int, b: int| 0 <= a < b < part.len() implies (#[trigger] part[a]).0@ != (
    #[trigger] part[b]).0@ by {
        assert(part[a] == entries[from + a]);
        assert(part[b] == entries[from + b]);
    }
}

/// The map of a list is that of its tail with the first entry inserted.
pub proof fn lemma_drop_first<V>(entries: Seq<(String, V)>)
    requires
        distinct_keys(entries),
        entries.len() > 0,
    ensures
        distinct_keys(entries.drop_first()),
        map_of(entries) == map_of(entries.drop_first()).insert(entries[0].0@, entries[0].1),
{
    let tail = entries.drop_first();
    lemma_subrange_distinct(entries, 1, entries.len() as int);
    let want = map_of(tail).insert(entries[0].0@, entries[0].1);
    assert forall|key: Seq<char>| map_of(entries).contains_key(key) <==> want.contains_key(
        key,
    ) by {
        if has_key(entries, key) {
            let j = key_index(entries, key);
            if j > 0 {
                assert(tail[j - 1].0@ == key);
            }
        }
        if has_key(tail, key) {
            let j = key_index(tail, key);
            assert(entries[j + 1].0@ == key);
        }
        if key == entries[0].0@ {
            assert(entries[0].0@ == key);
        }
    }
    assert forall|key: Seq<char>| map_of(entries).contains_key(key) implies map_of(entries)[key]
        == want[key] by {
        let j = key_index(entries, key);
        lemma_key_index(entries, j);
        if j > 0 {
            assert(tail[j - 1] == entries[j]);
            lemma_key_index(tail, j - 1);
        }
    }
    assert(map_of(entries) =~= want);
}

/// Replacing the value at position `i`, under the same key, updates the map at that key.
pub proof fn lemma_replace<V>(entries: Seq<(String, V)>, i: int, entry: (String, V))
    requires
        distinct_keys(entries),
        0 <= i < entries.len(),
        entry.0@ == entries[i].0@,
    ensures
        distinct_keys(entries.update(i, entry)),
        map_of(entries.update(i, entry)) == map_of(entries).insert(entry.0@, entry.1),
{
    let after = entries.update(i, entry);
    assert forall|a: int, b: int| 0 <= a < b < after.len() implies (#[trigger] after[a]).0@ != (
    #[trigger] after[b]).0@ by {
        assert(after[a].0@ == entries[a].0@);
        assert(after[b].0@ == entries[b].0@);
    }
    let want = map_of(entries).insert(entry.0@, entry.1);
    assert forall|key: Seq<char>| map_of(after).contains_key(key) <==> want.contains_key(
        key,
    ) by {
        if has_key(after, key) {
            let j = key_index(after, key);
            assert(entries[j].0@ == key);
        }
        if has_key(entries, key) {
            let j = key_index(entries, key);
            assert(after[j].0@ == key);
        }
        if key == entry.0@ {
            assert(after[i].0@ == key);
        }
    }
    assert forall|key: Seq<char>| map_of(after).contains_key(key) implies map_of(after)[key]
        == want[key] by {
        let j = key_index(after, key);
        lemma_key_index(after, j);
        if j != i {
            lemma_key_index(entries, j);
        }
    }
    assert(map_of(after) =~= want);
}

/// Appending an entry under a key not yet filed inserts it into the map.
pub proof fn lemma_append<V>(entries: Seq<(String, V)>, entry: (String, V))
    requires
        distinct_keys(entries),
        !has_key(entries, entry.0@),
    ensures
        distinct_keys(entries.push(entry)),
        map_of(entries.push(entry)) == map_of(entries).insert(entry.0@, entry.1),
{
    let after = entries.push(entry);
    let n = entries.len() as int;
    assert forall|a: int, b: int| 0 <= a < b < after.len() implies (#[trigger] after[a]).0@ != (
    #[trigger] after[b]).0@ by {
        assert(after[a] == entries[a]);
        if b < n {
            assert(after[b] == entries[b]);
        } else {
            assert(entries[a].0@ != entry.0@);
        }
    }
    let want = map_of(entries).insert(entry.0@, entry.1);
    assert forall|key: Seq<char>| map_of(after).contains_key(key) <==> want.contains_key(
        key,
    ) by {
        if has_key(after, key) {
            let j = key_index(after, key);
            if j < n {
                assert(entries[j].0@ == key);
            }
        }
        if has_key(entries, key) {
            let j = key_index(entries, key);
            assert(after[j].0@ == key);
        }
        if key == entry.0@ {
            assert(after[n].0@ == key);
        }
    }
    assert forall|key: Seq<char>| map_of(after).contains_key(key) implies map_of(after)[key]
        == want[key] by {
        let j = key_index(after, key);
        lemma_key_index(after, j);
        if j < n {
            lemma_key_index(entries, j);
        }
    }
    assert(map_of(after) =~= want);
}

/// A list of entries with distinct keys stands for a finite map with one key per entry.
pub proof fn lemma_map_of_len<V>(entries: Seq<(String, V)>)
    requires
        distinct_keys(entries),
    ensures
        map_of(entries).dom().finite(),
        map_of(entries).dom().len() == entries.len(),
    decreases entries.len(),
{
    if entries.len() == 0 {
        assert(map_of(entries).dom() =~= Set::<Seq<char>>::empty());
    } else {
        let front = entries.drop_last();
        let last = entries.last();
        assert(distinct_keys(front)) by {
            assert forall|a: int, b: int| 0 <= a < b < front.len() implies (#[trigger] front[a]).0@
                != (#[trigger] front[b]).0@ by {
                assert(front[a] == entries[a]);
                assert(front[b] == entries[b]);
            }
        }
        assert(!has_key(front, last.0@)) by {
            if has_key(front, last.0@) {
                let j = key_index(front, last.0@);
                assert(front[j] == entries[j]);
                assert(entries[j].0@ != entries[entries.len() - 1].0@);
            }
        }
        lemma_map_of_len(front);
        lemma_append(front, last);
        assert(front.push(last) =~= entries);
        assert(map_of(entries).dom() =~= map_of(front).dom().insert(last.0@));
        assert(!map_of(front).dom().contains(last.0@));
    }
}

} // verus!

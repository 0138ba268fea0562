//! A map keyed by text, with each key held once.

use crate::text::{chars_equal, chars_of, lemma_text_lt_total, lemma_text_lt_transitive, text_less, text_lt};
use vstd::prelude::*;

verus! {

/// Entries keyed by text; no key occurs twice.
pub struct TextMap<V> {
    entries: Vec<(String, V)>,
}

/// No key of `entries` occurs twice.
pub open spec fn keys_unique<V>(entries: Seq<(String, V)>) -> bool {
    forall|i: int, j: int| 0 <= i < j < entries.len() ==> entries[i].0@ != entries[j].0@
}

/// `key` is the key of some entry.
pub open spec fn has_key<V>(entries: Seq<(String, V)>, key: Seq<char>) -> bool {
    exists|i: int| 0 <= i < entries.len() && #[trigger] entries[i].0@ == key
}

/// The entries as a map from key to value.
pub open spec fn entries_map<V>(entries: Seq<(String, V)>) -> Map<Seq<char>, V> {
    Map::new(
        |key: Seq<char>| has_key(entries, key),
        |key: Seq<char>| entries[choose|i: int| 0 <= i < entries.len() && #[trigger] entries[i].0@ == key].1,
    )
}

/// With unique keys, the entry at `i` is what the map holds for its key.
pub proof fn lemma_entry_in_map<V>(entries: Seq<(String, V)>, i: int)
    requires
        keys_unique(entries),
        0 <= i < entries.len(),
    ensures
        entries_map(entries).contains_key(entries[i].0@),
        entries_map(entries)[entries[i].0@] == entries[i].1,
{
    let key = entries[i].0@;
    assert(has_key(entries, key));
    let c = choose|c: int| 0 <= c < entries.len() && #[trigger] entries[c].0@ == key;
    if c != i {
        if c < i {
            assert(entries[c].0@ != entries[i].0@);
        } else {
            assert(entries[i].0@ != entries[c].0@);
        }
    }
}

/// The keys of a sequence of entries, in order.
pub open spec fn key_texts<V>(entries: Seq<(String, V)>) -> Seq<Seq<char>> {
    entries.map_values(|entry: (String, V)| entry.0@)
}

proof fn lemma_domain<V>(entries: Seq<(String, V)>)
    ensures
        entries_map(entries).dom() == key_texts(entries).to_set(),
        entries_map(entries).dom().finite(),
{
    assert forall|key: Seq<char>| entries_map(entries).dom().contains(key) <==> key_texts(entries).contains(key) by {
        if entries_map(entries).dom().contains(key) {
            let i = choose|i: int| 0 <= i < entries.len() && #[trigger] entries[i].0@ == key;
            assert(key_texts(entries)[i] == key);
        }
        if key_texts(entries).contains(key) {
            let i = choose|i: int| 0 <= i < key_texts(entries).len() && key_texts(entries)[i] == key;
            assert(entries[i].0@ == key);
        }
    }
    assert(entries_map(entries).dom() =~= key_texts(entries).to_set());
    vstd::seq_lib::seq_to_set_is_finite(key_texts(entries));
}

proof fn lemma_key_count<V>(entries: Seq<(String, V)>)
    requires
        keys_unique(entries),
    ensures
        entries_map(entries).dom().len() == entries.len(),
{
    lemma_domain(entries);
    let keys = key_texts(entries);
    assert forall|i: int, j: int| 0 <= i < keys.len() && 0 <= j < keys.len() && i != j implies keys[i] != keys[j] by {
        if i < j {
            assert(entries[i].0@ != entries[j].0@);
        } else {
            assert(entries[j].0@ != entries[i].0@);
        }
    }
    keys.unique_seq_to_set();
}

impl<V> TextMap<V> {
    #[verifier::type_invariant]
    spec fn wf(self) -> bool {
        keys_unique(self.entries@)
    }

    /// The map from key to value.
    pub closed spec fn map(self) -> Map<Seq<char>, V> {
        entries_map(self.entries@)
    }

    /// The map, empty.
    pub fn new() -> (result: Self)
        ensures
            result.map() == Map::<Seq<char>, V>::empty(),
    {
        let result = TextMap { entries: Vec::new() };
        assert(result.map() =~= Map::<Seq<char>, V>::empty());
        result
    }

    /// The number of keys.
    pub fn len(&self) -> (result: usize)
        ensures
            self.map().dom().finite(),
            result == self.map().dom().len(),
    {
        proof {
            use_type_invariant(self);
            lemma_domain(self.entries@);
            lemma_key_count(self.entries@);
        }
        self.entries.len()
    }

    fn find(&self, key: &str) -> (result: Option<usize>)
        ensures
            match result {
                Some(i) => i < self.entries@.len() && self.entries@[i as int].0@ == key@,
                None => !self.map().contains_key(key@),
            },
    {
        let wanted = chars_of(key);
        for i in 0..self.entries.len()
            invariant
                wanted@ == key@,
                forall|t: int| 0 <= t < i ==> #[trigger] self.entries@[t].0@ != key@,
        {
            let candidate = chars_of(self.entries[i].0.as_str());
            if chars_equal(candidate.as_slice(), wanted.as_slice()) {
                return Some(i);
            }
        }
        None
    }

    /// Whether `key` has a value.
    pub fn contains_key(&self, key: &str) -> (result: bool)
        ensures
            result == self.map().contains_key(key@),
    {
        proof {
            use_type_invariant(self);
        }
        match self.find(key) {
            Some(i) => {
                proof {
                    lemma_entry_in_map(self.entries@, i as int);
                }
                true
            },
            None => false,
        }
    }

    /// The value of `key`, if it has one.
    pub fn get(&self, key: &str) -> (result: Option<&V>)
        ensures
            match result {
                Some(value) => self.map().contains_key(key@) && *value == self.map()[key@],
                None => !self.map().contains_key(key@),
            },
    {
        proof {
            use_type_invariant(self);
        }
        match self.find(key) {
            Some(i) => {
                proof {
                    lemma_entry_in_map(self.entries@, i as int);
                }
                Some(&self.entries[i].1)
            },
            None => None,
        }
    }

    /// Gives `key` the value `value`, replacing any it had.
    pub fn insert(&mut self, key: String, value: V)
        ensures
            final(self).map() == old(self).map().insert(key@, value),
    {
        proof {
            use_type_invariant(&*self);
        }
        let ghost before = self.entries@;
        let ghost k = key@;
        match self.find(key.as_str()) {
            Some(i) => {
                let mut entries: Vec<(String, V)> = Vec::new();
                std::mem::swap(&mut entries, &mut self.entries);
                entries.set(i, (key, value));
                let ghost after = entries@;
                proof {
                    assert forall|a: int, b: int| 0 <= a < b < after.len() implies after[a].0@ != after[b].0@ by {
                        assert(after[a].0@ == before[a].0@);
                        assert(after[b].0@ == before[b].0@);
                    }
                    lemma_entry_in_map(after, i as int);
                    assert forall|other: Seq<char>| #![trigger entries_map(after).dom().contains(other)] #![trigger entries_map(before).dom().contains(other)] other != k implies (entries_map(after).contains_key(other)
                        == entries_map(before).contains_key(other) && (entries_map(before).contains_key(other)
                        ==> entries_map(after)[other] == entries_map(before)[other])) by {
                        if entries_map(before).contains_key(other) {
                            let t = choose|t: int| 0 <= t < before.len() && #[trigger] before[t].0@ == other;
                            lemma_entry_in_map(before, t);
                            assert(t != i);
                            assert(after[t] == before[t]);
                            lemma_entry_in_map(after, t);
                        }
                        if entries_map(after).contains_key(other) {
                            let t = choose|t: int| 0 <= t < after.len() && #[trigger] after[t].0@ == other;
                            assert(t != i);
                            assert(before[t].0@ == other);
                        }
                    }
                    assert(after[i as int].0@ == k);
                    assert(entries_map(after).contains_key(k));
                    assert(entries_map(after)[k] == value);
                    assert(entries_map(after).dom() =~= entries_map(before).insert(k, value).dom());
                    assert(entries_map(after) =~= entries_map(before).insert(k, value));
                }
                self.entries = entries;
            },
            None => {
                let mut entries: Vec<(String, V)> = Vec::new();
                std::mem::swap(&mut entries, &mut self.entries);
                entries.push((key, value));
                let ghost after = entries@;
                proof {
                    let n = before.len() as int;
                    assert forall|a: int, b: int| 0 <= a < b < after.len() implies after[a].0@ != after[b].0@ by {
                        if b == n {
                            assert(after[a] == before[a]);
                            if after[a].0@ == k {
                                assert(has_key(before, k));
                            }
                        } else {
                            assert(after[a] == before[a]);
                            assert(after[b] == before[b]);
                        }
                    }
                    lemma_entry_in_map(after, n);
                    assert forall|other: Seq<char>| #![trigger entries_map(after).dom().contains(other)] #![trigger entries_map(before).dom().contains(other)] other != k implies (entries_map(after).contains_key(other)
                        == entries_map(before).contains_key(other) && (entries_map(before).contains_key(other)
                        ==> entries_map(after)[other] == entries_map(before)[other])) by {
                        if entries_map(before).contains_key(other) {
                            let t = choose|t: int| 0 <= t < before.len() && #[trigger] before[t].0@ == other;
                            lemma_entry_in_map(before, t);
                            assert(after[t] == before[t]);
                            lemma_entry_in_map(after, t);
                        }
                        if entries_map(after).contains_key(other) {
                            let t = choose|t: int| 0 <= t < after.len() && #[trigger] after[t].0@ == other;
                            assert(t != n);
                            assert(before[t].0@ == other);
                        }
                    }
                    assert(entries_map(after) =~= entries_map(before).insert(k, value));
                }
                self.entries = entries;
            },
        }
    }

    /// Removes `key` and its value, if it has one.
    pub fn remove(&mut self, key: &str)
        ensures
            final(self).map() == old(self).map().remove(key@),
    {
        proof {
            use_type_invariant(&*self);
        }
        let ghost before = self.entries@;
        match self.find(key) {
            Some(i) => {
                let mut entries: Vec<(String, V)> = Vec::new();
                std::mem::swap(&mut entries, &mut self.entries);
                entries.remove(i);
                let ghost after = entries@;
                proof {
                    let ii = i as int;
                    assert forall|t: int| 0 <= t < after.len() implies #[trigger] after[t] == before[
                        if t < ii { t } else { t + 1 }
                    ] by {}
                    assert forall|a: int, b: int| 0 <= a < b < after.len() implies after[a].0@ != after[b].0@ by {
                        let a2 = if a < ii { a } else { a + 1 };
                        let b2 = if b < ii { b } else { b + 1 };
                        assert(after[a] == before[a2]);
                        assert(after[b] == before[b2]);
                    }
                    assert forall|other: Seq<char>| #![trigger entries_map(after).dom().contains(other)] #![trigger entries_map(before).dom().contains(other)] other != key@ implies (entries_map(after).contains_key(other)
                        == entries_map(before).contains_key(other) && (entries_map(before).contains_key(other)
                        ==> entries_map(after)[other] == entries_map(before)[other])) by {
                        if entries_map(before).contains_key(other) {
                            let t = choose|t: int| 0 <= t < before.len() && #[trigger] before[t].0@ == other;
                            lemma_entry_in_map(before, t);
                            assert(t != ii);
                            let t2 = if t < ii { t } else { t - 1 };
                            assert(after[t2] == before[t]);
                            lemma_entry_in_map(after, t2);
                        }
                        if entries_map(after).contains_key(other) {
                            let t = choose|t: int| 0 <= t < after.len() && #[trigger] after[t].0@ == other;
                            let t2 = if t < ii { t } else { t + 1 };
                            assert(before[t2].0@ == other);
                        }
                    }
                    assert forall|t: int| 0 <= t < after.len() implies #[trigger] after[t].0@ != key@ by {
                        let t2 = if t < ii { t } else { t + 1 };
                        assert(after[t] == before[t2]);
                        assert(t2 != ii);
                    }
                    assert(entries_map(after) =~= entries_map(before).remove(key@));
                }
                self.entries = entries;
            },
            None => {
                proof {
                    assert(entries_map(before) =~= entries_map(before).remove(key@));
                }
            },
        }
    }

    /// The keys, each once.
    pub fn keys(&self) -> (result: Vec<String>)
        ensures
            result@.len() == self.map().dom().len(),
            forall|i: int, j: int| 0 <= i < j < result@.len() ==> result@[i]@ != result@[j]@,
            forall|i: int| 0 <= i < result@.len() ==> self.map().contains_key(#[trigger] result@[i]@),
            forall|key: Seq<char>| #[trigger] self.map().contains_key(key) ==> exists|i: int|
                0 <= i < result@.len() && result@[i]@ == key,
    {
        proof {
            use_type_invariant(self);
            lemma_domain(self.entries@);
            lemma_key_count(self.entries@);
        }
        let mut result: Vec<String> = Vec::new();
        for i in 0..self.entries.len()
            invariant
                keys_unique(self.entries@),
                result@.len() == i,
                forall|t: int| 0 <= t < i ==> (#[trigger] result@[t])@ == self.entries@[t].0@,
        {
            result.push(self.entries[i].0.clone());
        }
        proof {
            assert forall|i: int| 0 <= i < result@.len() implies self.map().contains_key(#[trigger] result@[i]@) by {
                lemma_entry_in_map(self.entries@, i);
            }
            assert forall|key: Seq<char>| #[trigger] self.map().contains_key(key) implies exists|i: int|
                0 <= i < result@.len() && result@[i]@ == key by {
                let t = choose|t: int| 0 <= t < self.entries@.len() && #[trigger] self.entries@[t].0@ == key;
                assert(result@[t]@ == key);
            }
        }
        result
    }

    /// The entries, each key once, in no particular order.
    pub fn into_entries(self) -> (result: Vec<(String, V)>)
        ensures
            keys_unique(result@),
            entries_map(result@) == self.map(),
    {
        proof {
            use_type_invariant(&self);
        }
        self.entries
    }
}


/// The keys of `entries` strictly increase, in the order of `str` comparison.
pub open spec fn keys_ascending<V>(entries: Seq<(String, V)>) -> bool {
    forall|i: int, j: int| 0 <= i < j < entries.len() ==> text_lt(entries[i].0@, entries[j].0@)
}

/// Inserting an entry with a new key at any position adds that key to the map.
proof fn lemma_insert_entry<V>(before: Seq<(String, V)>, p: int, entry: (String, V))
    requires
        keys_unique(before),
        0 <= p <= before.len(),
        !has_key(before, entry.0@),
    ensures
        keys_unique(before.insert(p, entry)),
        entries_map(before.insert(p, entry)) == entries_map(before).insert(entry.0@, entry.1),
{
    let after = before.insert(p, entry);
    assert forall|t: int| 0 <= t < after.len() implies #[trigger] after[t] == if t < p {
        before[t]
    } else if t == p {
        entry
    } else {
        before[t - 1]
    } by {}
    assert forall|a: int, b: int| 0 <= a < b < after.len() implies after[a].0@ != after[b].0@ by {
        if a == p {
            assert(after[b] == before[b - 1]);
        } else if b == p {
            assert(after[a] == before[a]);
        } else {
            let a2 = if a < p { a } else { a - 1 };
            let b2 = if b < p { b } else { b - 1 };
            assert(after[a] == before[a2]);
            assert(after[b] == before[b2]);
        }
    }
    lemma_entry_in_map(after, p);
    assert forall|other: Seq<char>| #![trigger entries_map(after).dom().contains(other)] #![trigger entries_map(before).dom().contains(other)] other != entry.0@ implies (entries_map(after).contains_key(other)
        == entries_map(before).contains_key(other) && (entries_map(before).contains_key(other)
        ==> entries_map(after)[other] == entries_map(before)[other])) by {
        if entries_map(before).contains_key(other) {
            let t = choose|t: int| 0 <= t < before.len() && #[trigger] before[t].0@ == other;
            lemma_entry_in_map(before, t);
            let t2 = if t < p { t } else { t + 1 };
            assert(after[t2] == before[t]);
            lemma_entry_in_map(after, t2);
        }
        if entries_map(after).contains_key(other) {
            let t = choose|t: int| 0 <= t < after.len() && #[trigger] after[t].0@ == other;
            assert(t != p);
            let t2 = if t < p { t } else { t - 1 };
            assert(before[t2].0@ == other);
        }
    }
    assert(entries_map(after) =~= entries_map(before).insert(entry.0@, entry.1));
}

/// Removing the last entry removes its key from the map.
pub proof fn lemma_pop_entry_public<V>(before: Seq<(String, V)>)
    requires
        keys_unique(before),
        before.len() > 0,
    ensures
        keys_unique(before.drop_last()),
        !has_key(before.drop_last(), before.last().0@),
        entries_map(before) == entries_map(before.drop_last()).insert(before.last().0@, before.last().1),
{
    lemma_pop_entry(before);
}

proof fn lemma_pop_entry<V>(before: Seq<(String, V)>)
    requires
        keys_unique(before),
        before.len() > 0,
    ensures
        keys_unique(before.drop_last()),
        !has_key(before.drop_last(), before.last().0@),
        entries_map(before) == entries_map(before.drop_last()).insert(before.last().0@, before.last().1),
{
    let rest = before.drop_last();
    let n = before.len() - 1;
    assert forall|a: int, b: int| 0 <= a < b < rest.len() implies rest[a].0@ != rest[b].0@ by {
        assert(rest[a] == before[a]);
        assert(rest[b] == before[b]);
    }
    if has_key(rest, before.last().0@) {
        let t = choose|t: int| 0 <= t < rest.len() && #[trigger] rest[t].0@ == before.last().0@;
        assert(before[t].0@ != before[n].0@);
    }
    assert(before =~= rest.insert(n, before.last()));
    lemma_insert_entry(rest, n, before.last());
}

impl<V> TextMap<V> {
    /// The entries in ascending key order, the order in which a sorted map walks them.
    pub fn into_sorted_entries(self) -> (result: Vec<(String, V)>)
        ensures
            keys_unique(result@),
            keys_ascending(result@),
            entries_map(result@) == self.map(),
    {
        proof {
            use_type_invariant(&self);
        }
        let mut remaining = self.entries;
        let ghost whole = entries_map(remaining@);
        let mut result: Vec<(String, V)> = Vec::new();
        proof {
            assert(entries_map(result@) =~= Map::<Seq<char>, V>::empty());
            assert(whole =~= entries_map(remaining@).union_prefer_right(entries_map(result@)));
        }
        while remaining.len() > 0
            invariant
                keys_unique(remaining@),
                keys_unique(result@),
                keys_ascending(result@),
                forall|k: Seq<char>| has_key(remaining@, k) ==> !has_key(result@, k),
                whole == entries_map(remaining@).union_prefer_right(entries_map(result@)),
            decreases remaining@.len(),
        {
            let ghost before_remaining = remaining@;
            let ghost before = result@;
            proof {
                lemma_pop_entry(before_remaining);
            }
            let entry = remaining.pop().unwrap();
            let key_chars = chars_of(entry.0.as_str());
            let mut p: usize = 0;
            while p < result.len() && text_less(chars_of(result[p].0.as_str()).as_slice(), key_chars.as_slice())
                invariant
                    p <= result@.len(),
                    key_chars@ == entry.0@,
                    result@ == before,
                    forall|t: int| 0 <= t < p ==> text_lt(#[trigger] result@[t].0@, entry.0@),
                decreases result@.len() - p,
            {
                p += 1;
            }
            proof {
                assert(has_key(before_remaining, entry.0@)) by {
                    assert(before_remaining[before_remaining.len() - 1].0@ == entry.0@);
                }
                assert(!has_key(before, entry.0@));
                if p < before.len() {
                    assert(before[p as int].0@ != entry.0@);
                    lemma_text_lt_total(before[p as int].0@, entry.0@);
                }
                lemma_insert_entry(before, p as int, entry);
            }
            result.insert(p, entry);
            proof {
                let after = result@;
                assert(after == before.insert(p as int, entry));
                assert forall|a: int, b: int| 0 <= a < b < after.len() implies text_lt(after[a].0@, after[b].0@) by {
                    if b == p {
                        assert(after[a] == before[a]);
                    } else if a == p {
                        assert(after[b] == before[b - 1]);
                        if b - 1 > p {
                            lemma_text_lt_transitive(entry.0@, before[p as int].0@, before[b - 1].0@);
                        }
                    } else {
                        let a2 = if a < p { a } else { a - 1 };
                        let b2 = if b < p { b } else { b - 1 };
                        assert(after[a] == before[a2]);
                        assert(after[b] == before[b2]);
                    }
                }
                assert forall|k: Seq<char>| has_key(remaining@, k) implies !has_key(after, k) by {
                    assert(has_key(before_remaining, k)) by {
                        let t = choose|t: int| 0 <= t < remaining@.len() && #[trigger] remaining@[t].0@ == k;
                        assert(before_remaining[t] == remaining@[t]);
                    }
                    if k == entry.0@ {
                    } else {
                        assert(!has_key(before, k));
                        if has_key(after, k) {
                            let t = choose|t: int| 0 <= t < after.len() && #[trigger] after[t].0@ == k;
                            let t2 = if t < p { t } else { t - 1 };
                            assert(t != p);
                            assert(before[t2].0@ == k);
                        }
                    }
                }
                assert(whole =~= entries_map(remaining@).union_prefer_right(entries_map(after)));
            }
        }
        proof {
            assert(remaining@.len() == 0);
            assert(entries_map(remaining@) =~= Map::<Seq<char>, V>::empty());
            assert(whole =~= entries_map(result@));
        }
        result
    }
}


impl<V> TextMap<V> {
    /// The keys in ascending order.
    pub fn sorted_keys(&self) -> (result: Vec<String>)
        ensures
            forall|i: int, j: int| 0 <= i < j < result@.len() ==> text_lt(result@[i]@, result@[j]@),
            forall|i: int| 0 <= i < result@.len() ==> self.map().contains_key(#[trigger] result@[i]@),
            forall|key: Seq<char>| #[trigger] self.map().contains_key(key) ==> exists|i: int|
                0 <= i < result@.len() && result@[i]@ == key,
    {
        let keys = self.keys();
        let mut set: TextMap<()> = TextMap::new();
        for i in 0..keys.len()
            invariant
                forall|k: Seq<char>| #[trigger] set.map().contains_key(k) <==> exists|t: int| 0 <= t < i && keys@[t]@ == k,
        {
            let ghost before = set.map();
            set.insert(keys[i].clone(), ());
            proof {
                assert forall|k: Seq<char>| #[trigger] set.map().contains_key(k) <==> exists|t: int| 0 <= t < i + 1
                    && keys@[t]@ == k by {
                    if k == keys@[i as int]@ {
                        assert(keys@[i as int]@ == k);
                    } else if set.map().contains_key(k) {
                        assert(before.contains_key(k));
                    } else if exists|t: int| 0 <= t < i + 1 && keys@[t]@ == k {
                        let t = choose|t: int| 0 <= t < i + 1 && keys@[t]@ == k;
                        assert(t < i);
                        assert(before.contains_key(k));
                    }
                }
            }
        }
        let sorted = set.into_sorted_entries();
        let mut result: Vec<String> = Vec::new();
        for i in 0..sorted.len()
            invariant
                result@.len() == i,
                forall|t: int| 0 <= t < i ==> (#[trigger] result@[t])@ == sorted@[t].0@,
        {
            result.push(sorted[i].0.clone());
        }
        proof {
            assert forall|i: int| 0 <= i < result@.len() implies self.map().contains_key(#[trigger] result@[i]@) by {
                lemma_entry_in_map(sorted@, i);
                let t = choose|t: int| 0 <= t < keys@.len() && keys@[t]@ == sorted@[i].0@;
            }
            assert forall|key: Seq<char>| #[trigger] self.map().contains_key(key) implies exists|i: int|
                0 <= i < result@.len() && result@[i]@ == key by {
                let t = choose|t: int| 0 <= t < keys@.len() && keys@[t]@ == key;
                assert(set.map().contains_key(key));
                let u = choose|u: int| 0 <= u < sorted@.len() && #[trigger] sorted@[u].0@ == key;
                assert(result@[u]@ == key);
            }
        }
        result
    }
}

} // verus!

//! A map from texts to values.
use vstd::prelude::*;

use crate::text::{
    same_text, text_before, text_less, text_order_is_total, text_order_is_transitive, texts,
};

verus! {

/// A map whose keys are texts. No key occurs twice.
#[derive(Debug)]
pub struct TextMap<V> {
    entries: Vec<(String, V)>,
}

/// The keys of a list of entries.
pub open spec fn entry_keys<V>(entries: Seq<(String, V)>) -> Seq<Seq<char>> {
    entries.map_values(|e: (String, V)| e.0@)
}

/// The map that a list of entries holds.
pub open spec fn entry_map<V>(entries: Seq<(String, V)>) -> Map<Seq<char>, V> {
    Map::new(
        |key: Seq<char>| entry_keys(entries).contains(key),
        |key: Seq<char>| entries[entry_keys(entries).index_of(key)].1,
    )
}

impl<V> View for TextMap<V> {
    type V = Map<Seq<char>, V>;

    closed spec fn view(&self) -> Map<Seq<char>, V> {
        entry_map(self.entries@)
    }
}

pub proof fn lemma_entry<V>(entries: Seq<(String, V)>, i: int)
    requires
        0 <= i < entries.len(),
        entry_keys(entries).no_duplicates(),
    ensures
        entry_map(entries).contains_key(entries[i].0@),
        entry_map(entries)[entries[i].0@] == entries[i].1,
{
    let keys = entry_keys(entries);
    assert(keys[i] == entries[i].0@);
    let k = keys.index_of(keys[i]);
    assert(keys.contains(keys[i]));
    assert(keys[k] == keys[i]);
}

pub proof fn lemma_entry_of_key<V>(entries: Seq<(String, V)>, key: Seq<char>) -> (i: int)
    requires
        entry_map(entries).contains_key(key),
    ensures
        0 <= i < entries.len(),
        entries[i].0@ == key,
{
    let keys = entry_keys(entries);
    let i = choose|i: int| 0 <= i < keys.len() && keys[i] == key;
    assert(keys[i] == entries[i].0@);
    i
}

proof fn lemma_push_entry<V>(entries: Seq<(String, V)>, entry: (String, V))
    requires
        entry_keys(entries).no_duplicates(),
        !entry_map(entries).contains_key(entry.0@),
    ensures
        entry_keys(entries.push(entry)).no_duplicates(),
        entry_map(entries.push(entry)) == entry_map(entries).insert(entry.0@, entry.1),
{
    let more = entries.push(entry);
    let keys = entry_keys(entries);
    assert(entry_keys(more) =~= keys.push(entry.0@));
    assert forall|i: int, j: int|
        0 <= i < more.len() && 0 <= j < more.len() && i != j implies entry_keys(more)[i]
        != entry_keys(more)[j] by {
        if i == entries.len() {
            assert(keys.contains(keys[j]));
        } else if j == entries.len() {
            assert(keys.contains(keys[i]));
        }
    }
    assert(entry_map(more) =~= entry_map(entries).insert(entry.0@, entry.1)) by {
        assert forall|key: Seq<char>|
            entry_map(more).contains_key(key) == (#[trigger] entry_map(entries).insert(
                entry.0@,
                entry.1,
            ).contains_key(key)) by {
            if keys.contains(key) {
                let i = choose|i: int| 0 <= i < keys.len() && keys[i] == key;
                assert(entry_keys(more)[i] == key);
            }
            assert(entry_keys(more)[entries.len() as int] == entry.0@);
        }
        assert forall|key: Seq<char>| #[trigger] entry_map(more).contains_key(key) implies entry_map(
            more,
        )[key] == entry_map(entries).insert(entry.0@, entry.1)[key] by {
            let i = lemma_entry_of_key(more, key);
            lemma_entry(more, i);
            if i < entries.len() {
                lemma_entry(entries, i);
                assert(entries[i] == more[i]);
            }
        }
    }
}

pub proof fn lemma_skip_entry<V>(entries: Seq<(String, V)>, n: int)
    requires
        0 <= n < entries.len(),
        entry_keys(entries).no_duplicates(),
    ensures
        entry_map(entries.skip(n)) == entry_map(entries.skip(n + 1)).insert(
            entries[n].0@,
            entries[n].1,
        ),
        !entry_map(entries.skip(n + 1)).contains_key(entries[n].0@),
{
    let whole = entries.skip(n);
    let rest = entries.skip(n + 1);
    let keys = entry_keys(entries);
    assert forall|i: int, j: int|
        0 <= i < whole.len() && 0 <= j < whole.len() && i != j implies entry_keys(whole)[i]
        != entry_keys(whole)[j] by {
        assert(keys[n + i] != keys[n + j]);
    }
    assert forall|i: int, j: int|
        0 <= i < rest.len() && 0 <= j < rest.len() && i != j implies entry_keys(rest)[i]
        != entry_keys(rest)[j] by {
        assert(keys[n + 1 + i] != keys[n + 1 + j]);
    }
    if entry_map(rest).contains_key(entries[n].0@) {
        let i = lemma_entry_of_key(rest, entries[n].0@);
        assert(keys[n + 1 + i] != keys[n]);
    }
    let wanted = entry_map(rest).insert(entries[n].0@, entries[n].1);
    assert forall|key: Seq<char>| #[trigger]
        entry_map(whole).contains_key(key) == wanted.contains_key(key) by {
        if entry_map(whole).contains_key(key) {
            let i = lemma_entry_of_key(whole, key);
            if i > 0 {
                lemma_entry(rest, i - 1);
            }
        } else if entry_map(rest).contains_key(key) {
            let i = lemma_entry_of_key(rest, key);
            lemma_entry(whole, i + 1);
        } else {
            lemma_entry(whole, 0);
        }
    }
    assert forall|key: Seq<char>| #[trigger] entry_map(whole).contains_key(key) implies entry_map(
        whole,
    )[key] == wanted[key] by {
        let i = lemma_entry_of_key(whole, key);
        lemma_entry(whole, i);
        if i > 0 {
            lemma_entry(rest, i - 1);
            assert(entry_keys(whole)[i] != entry_keys(whole)[0]);
        }
    }
    assert(entry_map(whole) =~= wanted);
}

proof fn lemma_set_entry<V>(entries: Seq<(String, V)>, i: int, entry: (String, V))
    requires
        0 <= i < entries.len(),
        entry_keys(entries).no_duplicates(),
        entries[i].0@ == entry.0@,
    ensures
        entry_keys(entries.update(i, entry)).no_duplicates(),
        entry_map(entries.update(i, entry)) == entry_map(entries).insert(entry.0@, entry.1),
{
    let other = entries.update(i, entry);
    assert(entry_keys(other) =~= entry_keys(entries));
    assert forall|key: Seq<char>| #[trigger] entry_map(other).contains_key(key) implies entry_map(
        other,
    )[key] == entry_map(entries).insert(entry.0@, entry.1)[key] by {
        let k = lemma_entry_of_key(other, key);
        lemma_entry(other, k);
        lemma_entry(entries, k);
        if k != i {
            assert(entry_keys(entries)[k] != entry_keys(entries)[i]);
        }
    }
    lemma_entry(entries, i);
    assert(entry_map(other) =~= entry_map(entries).insert(entry.0@, entry.1));
}

proof fn lemma_remove_entry<V>(entries: Seq<(String, V)>, i: int)
    requires
        0 <= i < entries.len(),
        entry_keys(entries).no_duplicates(),
    ensures
        entry_keys(entries.remove(i)).no_duplicates(),
        entry_map(entries.remove(i)) == entry_map(entries).remove(entries[i].0@),
{
    let fewer = entries.remove(i);
    let keys = entry_keys(entries);
    assert forall|a: int, b: int|
        0 <= a < fewer.len() && 0 <= b < fewer.len() && a != b implies entry_keys(fewer)[a]
        != entry_keys(fewer)[b] by {
        let x = if a < i {
            a
        } else {
            a + 1
        };
        let y = if b < i {
            b
        } else {
            b + 1
        };
        assert(keys[x] != keys[y]);
    }
    assert forall|key: Seq<char>|
        entry_map(fewer).contains_key(key) == (#[trigger] entry_map(entries).remove(
            entries[i].0@,
        ).contains_key(key)) by {
        if entry_map(fewer).contains_key(key) {
            let a = lemma_entry_of_key(fewer, key);
            let x = if a < i {
                a
            } else {
                a + 1
            };
            assert(keys[x] == key);
            assert(keys[x] != keys[i]);
        } else if entry_map(entries).contains_key(key) && key != entries[i].0@ {
            let x = lemma_entry_of_key(entries, key);
            let a = if x < i {
                x
            } else {
                x - 1
            };
            assert(entry_keys(fewer)[a] == key);
        }
    }
    assert forall|key: Seq<char>| #[trigger] entry_map(fewer).contains_key(key) implies entry_map(
        fewer,
    )[key] == entry_map(entries)[key] by {
        let a = lemma_entry_of_key(fewer, key);
        lemma_entry(fewer, a);
        let x = if a < i {
            a
        } else {
            a + 1
        };
        lemma_entry(entries, x);
    }
    assert(entry_map(fewer) =~= entry_map(entries).remove(entries[i].0@));
}

impl<V> TextMap<V> {
    #[verifier::type_invariant]
    spec fn distinct(self) -> bool {
        entry_keys(self.entries@).no_duplicates()
    }

    pub fn new() -> (r: TextMap<V>)
        ensures
            r@ == Map::<Seq<char>, V>::empty(),
    {
        let r = TextMap { entries: Vec::new() };
        assert(r@ =~= Map::<Seq<char>, V>::empty());
        r
    }

    fn find(entries: &Vec<(String, V)>, key: &str) -> (r: Option<usize>)
        ensures
            match r {
                Some(i) => i < entries.len() && entries@[i as int].0@ == key@,
                None => !entry_map(entries@).contains_key(key@),
            },
    {
        let mut i: usize = 0;
        while i < entries.len()
            invariant
                i <= entries.len(),
                forall|k: int| 0 <= k < i ==> (#[trigger] entries@[k]).0@ != key@,
            decreases entries.len() - i,
        {
            if same_text(entries[i].0.as_str(), key) {
                return Some(i);
            }
            i += 1;
        }
        proof {
            if entry_map(entries@).contains_key(key@) {
                let k = lemma_entry_of_key(entries@, key@);
            }
        }
        None
    }

    pub fn get(&self, key: &str) -> (r: Option<&V>)
        ensures
            match r {
                Some(v) => self@.contains_key(key@) && self@[key@] == *v,
                None => !self@.contains_key(key@),
            },
    {
        proof {
            use_type_invariant(self);
        }
        match Self::find(&self.entries, key) {
            Some(i) => {
                proof {
                    lemma_entry(self.entries@, i as int);
                }
                Some(&self.entries[i].1)
            },
            None => None,
        }
    }

    pub fn contains_key(&self, key: &str) -> (r: bool)
        ensures
            r == self@.contains_key(key@),
    {
        self.get(key).is_some()
    }

    pub fn is_empty(&self) -> (r: bool)
        ensures
            r == (self@ == Map::<Seq<char>, V>::empty()),
    {
        proof {
            use_type_invariant(self);
            if self.entries@.len() > 0 {
                lemma_entry(self.entries@, 0);
            } else {
                assert(self@ =~= Map::<Seq<char>, V>::empty());
            }
        }
        self.entries.len() == 0
    }

    /// Gives the key the value, in place of the one that it had.
    pub fn insert(&mut self, key: String, value: V)
        ensures
            final(self)@ == old(self)@.insert(key@, value),
    {
        proof {
            use_type_invariant(&*self);
        }
        let mut entries: Vec<(String, V)> = Vec::new();
        std::mem::swap(&mut entries, &mut self.entries);
        match Self::find(&entries, key.as_str()) {
            Some(i) => {
                proof {
                    lemma_set_entry(entries@, i as int, (key, value));
                }
                entries[i] = (key, value);
            },
            None => {
                proof {
                    lemma_push_entry(entries@, (key, value));
                }
                entries.push((key, value));
            },
        }
        self.entries = entries;
    }

    /// Takes the key and its value out.
    pub fn remove(&mut self, key: &str) -> (r: Option<V>)
        ensures
            final(self)@ == old(self)@.remove(key@),
            match r {
                Some(v) => old(self)@.contains_key(key@) && old(self)@[key@] == v,
                None => !old(self)@.contains_key(key@),
            },
    {
        proof {
            use_type_invariant(&*self);
        }
        let mut entries: Vec<(String, V)> = Vec::new();
        std::mem::swap(&mut entries, &mut self.entries);
        let mut r: Option<V> = None;
        match Self::find(&entries, key) {
            Some(i) => {
                proof {
                    lemma_remove_entry(entries@, i as int);
                    lemma_entry(entries@, i as int);
                }
                let (_, value) = entries.remove(i);
                r = Some(value);
            },
            None => {
                assert(entry_map(entries@) =~= entry_map(entries@).remove(key@));
            },
        }
        self.entries = entries;
        r
    }

    /// Takes all entries out.
    pub(crate) fn take_entries(&mut self) -> (r: Vec<(String, V)>)
        ensures
            entry_keys(r@).no_duplicates(),
            entry_map(r@) == old(self)@,
            final(self)@ == Map::<Seq<char>, V>::empty(),
    {
        proof {
            use_type_invariant(&*self);
        }
        let mut entries: Vec<(String, V)> = Vec::new();
        std::mem::swap(&mut entries, &mut self.entries);
        assert(self@ =~= Map::<Seq<char>, V>::empty());
        entries
    }

    /// Takes all keys out.
    pub fn clear(&mut self)
        ensures
            final(self)@ == Map::<Seq<char>, V>::empty(),
    {
        let entries: Vec<(String, V)> = Vec::new();
        assert(entry_map(entries@) =~= Map::<Seq<char>, V>::empty());
        self.entries = entries;
    }
}

impl<V: Clone> Clone for TextMap<V> {
    fn clone(&self) -> (r: Self)
        ensures
            r@.dom() == self@.dom(),
            forall|key: Seq<char>| #[trigger]
                r@.contains_key(key) ==> cloned::<V>(self@[key], r@[key]),
    {
        proof {
            use_type_invariant(self);
        }
        let mut entries: Vec<(String, V)> = Vec::new();
        let mut i: usize = 0;
        while i < self.entries.len()
            invariant
                i <= self.entries.len(),
                entries@.len() == i,
                forall|k: int|
                    0 <= k < i ==> (#[trigger] entries@[k]).0@ == self.entries@[k].0@ && cloned::<V>(
                        self.entries@[k].1,
                        entries@[k].1,
                    ),
            decreases self.entries.len() - i,
        {
            entries.push((self.entries[i].0.clone(), self.entries[i].1.clone()));
            i += 1;
        }
        proof {
            assert(entry_keys(entries@) =~= entry_keys(self.entries@));
            assert forall|key: Seq<char>| #[trigger]
                entry_map(entries@).contains_key(key) implies cloned::<V>(
                entry_map(self.entries@)[key],
                entry_map(entries@)[key],
            ) by {
                let k = lemma_entry_of_key(entries@, key);
                lemma_entry(entries@, k);
                lemma_entry(self.entries@, k);
            }
            assert(entry_map(entries@).dom() =~= entry_map(self.entries@).dom());
        }
        TextMap { entries }
    }
}

/// Whether the texts stand in ascending order, each once.
pub open spec fn ascending(keys: Seq<Seq<char>>) -> bool {
    forall|i: int, j: int|
        0 <= i < j < keys.len() ==> text_less(#[trigger] keys[i], #[trigger] keys[j])
}

/// Whether the texts are the keys of the map in ascending order.
pub open spec fn lists_keys<V>(keys: Seq<Seq<char>>, map: Map<Seq<char>, V>) -> bool {
    &&& ascending(keys)
    &&& forall|key: Seq<char>| #[trigger] keys.contains(key) == map.contains_key(key)
}

impl<V> TextMap<V> {
    /// The keys in ascending order.
    pub fn sorted_keys(&self) -> (r: Vec<String>)
        ensures
            lists_keys(texts(r@), self@),
    {
        proof {
            use_type_invariant(self);
        }
        let mut r: Vec<String> = Vec::new();
        let ghost keys = entry_keys(self.entries@);
        let mut i: usize = 0;
        while i < self.entries.len()
            invariant
                i <= self.entries.len(),
                keys == entry_keys(self.entries@),
                keys.no_duplicates(),
                ascending(texts(r@)),
                forall|key: Seq<char>| #[trigger]
                    texts(r@).contains(key) == keys.take(i as int).contains(key),
            decreases self.entries.len() - i,
        {
            let key = self.entries[i].0.clone();
            let ghost before = texts(r@);
            assert(keys[i as int] == key@);
            assert(!before.contains(key@)) by {
                if before.contains(key@) {
                    assert(keys.take(i as int).contains(key@));
                    let k = choose|k: int|
                        0 <= k < keys.take(i as int).len() && keys.take(i as int)[k] == key@;
                    assert(keys[k] == keys[i as int]);
                }
            }
            let mut pos: usize = r.len();
            while pos > 0 && text_before(key.as_str(), r[pos - 1].as_str())
                invariant
                    pos <= r.len(),
                    before == texts(r@),
                    forall|k: int| pos <= k < before.len() ==> text_less(key@, #[trigger] before[k]),
                decreases pos,
            {
                assert(before[pos - 1] == r@[pos - 1]@);
                pos -= 1;
            }
            proof {
                if pos > 0 {
                    assert(before[pos - 1] == r@[pos - 1]@);
                    assert(before.contains(before[pos - 1]));
                }
                lemma_insert_key(before, pos as int, key@);
            }
            r.insert(pos, key);
            assert(texts(r@) =~= before.insert(pos as int, key@));
            assert forall|k: Seq<char>| #[trigger]
                texts(r@).contains(k) == keys.take(i + 1).contains(k) by {
                assert(keys.take(i + 1) =~= keys.take(i as int).push(key@));
                lemma_insert_contains(before, pos as int, key@, k);
                lemma_insert_contains(
                    keys.take(i as int),
                    keys.take(i as int).len() as int,
                    key@,
                    k,
                );
                assert(keys.take(i as int).push(key@) =~= keys.take(i as int).insert(
                    keys.take(i as int).len() as int,
                    key@,
                ));
                assert(before.contains(k) == keys.take(i as int).contains(k));
            }
            i += 1;
        }
        assert(keys.take(i as int) =~= keys);
        r
    }
}

pub proof fn lemma_insert_contains<A>(s: Seq<A>, pos: int, a: A, x: A)
    requires
        0 <= pos <= s.len(),
    ensures
        s.insert(pos, a).contains(x) == (s.contains(x) || x == a),
{
    let t = s.insert(pos, a);
    assert(t[pos] == a);
    if s.contains(x) {
        let k = choose|k: int| 0 <= k < s.len() && s[k] == x;
        if k < pos {
            assert(t[k] == x);
        } else {
            assert(t[k + 1] == x);
        }
    }
    if t.contains(x) && x != a {
        let k = choose|k: int| 0 <= k < t.len() && t[k] == x;
        if k < pos {
            assert(s[k] == x);
        } else {
            assert(s[k - 1] == x);
        }
    }
}

proof fn lemma_insert_key(keys: Seq<Seq<char>>, pos: int, key: Seq<char>)
    requires
        0 <= pos <= keys.len(),
        ascending(keys),
        !keys.contains(key),
        pos > 0 ==> !text_less(key, keys[pos - 1]),
        forall|k: int| pos <= k < keys.len() ==> text_less(key, #[trigger] keys[k]),
    ensures
        ascending(keys.insert(pos, key)),
{
    let more = keys.insert(pos, key);
    assert forall|i: int, j: int| 0 <= i < j < more.len() implies text_less(
        #[trigger] more[i],
        #[trigger] more[j],
    ) by {
        if j == pos {
            assert(keys.contains(keys[pos - 1]));
            text_order_is_total(key, keys[pos - 1]);
            if i < pos - 1 {
                text_order_is_transitive(keys[i], keys[pos - 1], key);
            }
        } else if i == pos {
            assert(more[j] == keys[j - 1]);
        } else {
            let x = if i < pos {
                i
            } else {
                i - 1
            };
            let y = if j < pos {
                j
            } else {
                j - 1
            };
            assert(text_less(keys[x], keys[y]));
        }
    }
}

/// A set of texts.
#[derive(Debug)]
pub struct TextSet {
    members: TextMap<()>,
}

impl View for TextSet {
    type V = Set<Seq<char>>;

    closed spec fn view(&self) -> Set<Seq<char>> {
        self.members@.dom()
    }
}

impl TextSet {
    pub fn new() -> (r: TextSet)
        ensures
            r@ == Set::<Seq<char>>::empty(),
    {
        let r = TextSet { members: TextMap::new() };
        assert(r@ =~= Set::<Seq<char>>::empty());
        r
    }

    pub fn contains(&self, text: &str) -> (r: bool)
        ensures
            r == self@.contains(text@),
    {
        self.members.contains_key(text)
    }

    pub fn is_empty(&self) -> (r: bool)
        ensures
            r == (self@ == Set::<Seq<char>>::empty()),
    {
        proof {
            if self@ == Set::<Seq<char>>::empty() {
                assert(self.members@ =~= Map::<Seq<char>, ()>::empty());
            } else if self.members@ == Map::<Seq<char>, ()>::empty() {
                assert(self@ =~= Set::<Seq<char>>::empty());
            }
        }
        self.members.is_empty()
    }

    pub fn insert(&mut self, text: String)
        ensures
            final(self)@ == old(self)@.insert(text@),
    {
        let ghost before = self.members@;
        self.members.insert(text, ());
        assert(self@ =~= before.dom().insert(text@));
    }

    /// Takes the text out, and tells whether it was there.
    pub fn remove(&mut self, text: &str) -> (r: bool)
        ensures
            final(self)@ == old(self)@.remove(text@),
            r == old(self)@.contains(text@),
    {
        let ghost before = self.members@;
        let was: bool = self.members.remove(text).is_some();
        assert(self@ =~= before.dom().remove(text@));
        was
    }

    pub fn clear(&mut self)
        ensures
            final(self)@ == Set::<Seq<char>>::empty(),
    {
        self.members.clear();
        assert(self@ =~= Set::<Seq<char>>::empty());
    }

    /// The texts in ascending order.
    pub fn sorted(&self) -> (r: Vec<String>)
        ensures
            lists_members(texts(r@), self@),
    {
        let r = self.members.sorted_keys();
        assert forall|text: Seq<char>| #[trigger] texts(r@).contains(text) == self@.contains(
            text,
        ) by {
            assert(texts(r@).contains(text) == self.members@.contains_key(text));
        }
        r
    }
}

/// Whether the texts are the members of the set in ascending order.
pub open spec fn lists_members(listed: Seq<Seq<char>>, set: Set<Seq<char>>) -> bool {
    &&& ascending(listed)
    &&& forall|text: Seq<char>| #[trigger] listed.contains(text) == set.contains(text)
}

} // verus!

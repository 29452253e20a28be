//! A dictionary keyed by text whose entries stand in the order of their keys.

use vstd::prelude::*;

use crate::text::{lemma_lex_total, lemma_lex_trans, lex_le, lex_le_str};

verus! {

/// `a` stands before `b` in the order of strings.
pub open spec fn key_before(a: Seq<char>, b: Seq<char>) -> bool {
    lex_le(a, b) && a != b
}

/// The keys stand in strictly ascending order.
pub open spec fn keys_ascend<V>(entries: Seq<(Seq<char>, V)>) -> bool {
    forall|i: int, j: int|
        #![trigger entries[i], entries[j]]
        0 <= i < j < entries.len() ==> key_before(entries[i].0, entries[j].0)
}

/// The position of a key, where the dictionary has it.
pub open spec fn has_key_at<V>(entries: Seq<(Seq<char>, V)>, key: Seq<char>, i: int) -> bool {
    0 <= i < entries.len() && entries[i].0 == key
}

/// The mapping that a list of entries stands for.
pub open spec fn entries_map<V>(entries: Seq<(Seq<char>, V)>) -> Map<Seq<char>, V> {
    Map::new(
        |k: Seq<char>| exists|i: int| #[trigger] has_key_at(entries, k, i),
        |k: Seq<char>| entries[choose|i: int| #[trigger] has_key_at(entries, k, i)].1,
    )
}

/// A mapping from text to values. Every key occurs once, and the entries are
/// held in ascending order of their keys.
#[derive(Debug)]
pub struct Dict<V> {
    entries: Vec<(String, V)>,
}

spec fn viewed<V>(raw: Seq<(String, V)>) -> Seq<(Seq<char>, V)> {
    raw.map_values(|e: (String, V)| (e.0@, e.1))
}

/// In a dictionary a key has one position only.
proof fn lemma_key_unique<V>(entries: Seq<(Seq<char>, V)>, key: Seq<char>, i: int)
    requires
        keys_ascend(entries),
        has_key_at(entries, key, i),
    ensures
        entries_map(entries).dom().contains(key),
        entries_map(entries)[key] == entries[i].1,
{
    let c = choose|j: int| #[trigger] has_key_at(entries, key, j);
    assert(has_key_at(entries, key, c));
    if c < i {
        assert(key_before(entries[c].0, entries[i].0));
    } else if i < c {
        assert(key_before(entries[i].0, entries[c].0));
    }
}

impl<V> Dict<V> {
    /// The entries in ascending order of their keys.
    pub closed spec fn entries(self) -> Seq<(Seq<char>, V)> {
        viewed(self.entries@)
    }

    #[verifier::type_invariant]
    spec fn ascending(self) -> bool {
        keys_ascend(viewed(self.entries@))
    }

    pub fn new() -> (r: Self)
        ensures
            r.entries() == Seq::<(Seq<char>, V)>::empty(),
            r@ == Map::<Seq<char>, V>::empty(),
    {
        let entries: Vec<(String, V)> = Vec::new();
        proof {
            assert(viewed(entries@) =~= Seq::<(Seq<char>, V)>::empty());
            lemma_empty_map::<V>();
        }
        Dict { entries }
    }

    pub fn len(&self) -> (r: usize)
        ensures
            r == self.entries().len(),
            keys_ascend(self.entries()),
    {
        proof {
            use_type_invariant(self);
        }
        self.entries.len()
    }

    pub fn is_empty(&self) -> (r: bool)
        ensures
            r == (self.entries().len() == 0),
            r == (self@ == Map::<Seq<char>, V>::empty()),
    {
        proof {
            use_type_invariant(self);
            if self.entries().len() == 0 {
                assert(self.entries() =~= Seq::<(Seq<char>, V)>::empty());
                lemma_empty_map::<V>();
            } else {
                assert(has_key_at(self.entries(), self.entries()[0].0, 0));
                assert(self@.dom().contains(self.entries()[0].0));
            }
        }
        self.entries.len() == 0
    }

    /// The key of the entry at a position.
    pub fn key_at(&self, i: usize) -> (r: &String)
        requires
            i < self.entries().len(),
        ensures
            r@ == self.entries()[i as int].0,
    {
        &self.entries[i].0
    }

    /// The value of the entry at a position.
    pub fn value_at(&self, i: usize) -> (r: &V)
        requires
            i < self.entries().len(),
        ensures
            *r == self.entries()[i as int].1,
    {
        &self.entries[i].1
    }

    /// The value of a key.
    pub fn get(&self, key: &str) -> (r: Option<&V>)
        ensures
            match r {
                Some(v) => self@.dom().contains(key@) && *v == self@[key@],
                None => !self@.dom().contains(key@),
            },
    {
        proof {
            use_type_invariant(self);
        }
        let i: usize = self.position(key);
        if i < self.entries.len() && self.entries[i].0.as_str().eq(key) {
            proof {
                assert(has_key_at(self.entries(), key@, i as int));
                lemma_key_unique(self.entries(), key@, i as int);
            }
            Some(&self.entries[i].1)
        } else {
            proof {
                if self@.dom().contains(key@) {
                    let c = choose|j: int| #[trigger] has_key_at(self.entries(), key@, j);
                    assert(has_key_at(self.entries(), key@, c));
                    let e = self.entries();
                    if c < i {
                        assert(!lex_le(key@, e[c].0));
                        lemma_lex_total(key@, key@);
                    } else if i < c {
                        assert(key_before(e[i as int].0, e[c].0));
                        assert(lex_le(key@, e[i as int].0));
                        lemma_lex_total(key@, e[i as int].0);
                    }
                }
            }
            None
        }
    }

    /// The first position whose key does not stand before `key`.
    fn position(&self, key: &str) -> (r: usize)
        ensures
            r <= self.entries().len(),
            forall|j: int| 0 <= j < r ==> !lex_le(key@, #[trigger] self.entries()[j].0),
            r < self.entries().len() ==> lex_le(key@, self.entries()[r as int].0),
    {
        let mut i: usize = 0;
        while i < self.entries.len() && !lex_le_str(key, self.entries[i].0.as_str())
            invariant
                i <= self.entries().len(),
                self.entries() == viewed(self.entries@),
                forall|j: int| 0 <= j < i ==> !lex_le(key@, #[trigger] self.entries()[j].0),
            decreases self.entries@.len() - i,
        {
            i = i + 1;
        }
        i
    }

    /// Sets the value of a key.
    pub fn insert(&mut self, key: String, value: V)
        ensures
            final(self)@ == old(self)@.insert(key@, value),
    {
        proof {
            use_type_invariant(&*self);
        }
        let ghost before = self.entries();
        let i: usize = self.position(key.as_str());
        let mut entries: Vec<(String, V)> = Vec::new();
        std::mem::swap(&mut entries, &mut self.entries);
        if i < entries.len() && entries[i].0.as_str().eq(key.as_str()) {
            entries.set(i, (key, value));
            proof {
                let e = viewed(entries@);
                assert(e =~= before.update(i as int, (key@, value)));
                assert(keys_ascend(e));
                lemma_updated(before, key@, value, i as int);
            }
        } else {
            proof {
                lemma_inserted(before, key@, value, i as int);
            }
            entries.insert(i, (key, value));
            proof {
                assert(viewed(entries@) =~= before.insert(i as int, (key@, value)));
            }
        }
        self.entries = entries;
    }

    /// Removes every entry.
    pub fn clear(&mut self)
        ensures
            final(self).entries() == Seq::<(Seq<char>, V)>::empty(),
            final(self)@ == Map::<Seq<char>, V>::empty(),
    {
        let entries: Vec<(String, V)> = Vec::new();
        proof {
            assert(viewed(entries@) =~= Seq::<(Seq<char>, V)>::empty());
            lemma_empty_map::<V>();
        }
        self.entries = entries;
    }
}

impl<V: Clone> Clone for Dict<V> {
    fn clone(&self) -> (r: Self)
        ensures
            r.entries().len() == self.entries().len(),
            forall|i: int|
                #![trigger r.entries()[i]]
                0 <= i < self.entries().len() ==> r.entries()[i].0 == self.entries()[i].0
                    && cloned(self.entries()[i].1, r.entries()[i].1),
    {
        proof {
            use_type_invariant(self);
        }
        let mut entries: Vec<(String, V)> = Vec::new();
        let mut i: usize = 0;
        while i < self.entries.len()
            invariant
                i <= self.entries@.len(),
                entries@.len() == i,
                self.entries() == viewed(self.entries@),
                forall|j: int|
                    #![trigger entries@[j]]
                    0 <= j < i ==> entries@[j].0@ == self.entries@[j].0@ && cloned(
                        self.entries@[j].1,
                        entries@[j].1,
                    ),
            decreases self.entries@.len() - i,
        {
            entries.push((self.entries[i].0.clone(), self.entries[i].1.clone()));
            i = i + 1;
        }
        proof {
            let e = viewed(entries@);
            assert forall|x: int, y: int|
                #![trigger e[x], e[y]]
                0 <= x < y < e.len() implies key_before(e[x].0, e[y].0) by {
                assert(entries@[x].0@ == self.entries@[x].0@);
                assert(entries@[y].0@ == self.entries@[y].0@);
                assert(key_before(self.entries()[x].0, self.entries()[y].0));
            }
        }
        Dict { entries }
    }
}

impl<V> View for Dict<V> {
    type V = Map<Seq<char>, V>;

    open spec fn view(&self) -> Map<Seq<char>, V> {
        entries_map(self.entries())
    }
}

proof fn lemma_empty_map<V>()
    ensures
        entries_map(Seq::<(Seq<char>, V)>::empty()) == Map::<Seq<char>, V>::empty(),
{
    let m = entries_map(Seq::<(Seq<char>, V)>::empty());
    assert forall|k: Seq<char>| !m.dom().contains(k) by {
        if m.dom().contains(k) {
            let c = choose|i: int| #[trigger]
                has_key_at(Seq::<(Seq<char>, V)>::empty(), k, i);
            assert(has_key_at(Seq::<(Seq<char>, V)>::empty(), k, c));
        }
    }
    assert(m =~= Map::<Seq<char>, V>::empty());
}

proof fn lemma_updated<V>(before: Seq<(Seq<char>, V)>, key: Seq<char>, value: V, i: int)
    requires
        keys_ascend(before),
        has_key_at(before, key, i),
    ensures
        keys_ascend(before.update(i, (key, value))),
        entries_map(before.update(i, (key, value))) == entries_map(before).insert(key, value),
{
    let after = before.update(i, (key, value));
    assert forall|j: int| 0 <= j < before.len() && (#[trigger] before[j]).0 != key implies
        after.contains(before[j]) by {
        assert(after[j] == before[j]);
    }
    assert forall|j: int| 0 <= j < after.len() && (#[trigger] after[j]).0 != key implies
        before.contains(after[j]) by {
        assert(before[j] == after[j]);
    }
    lemma_same_elsewhere(before, after, key, value, i);
}

/// Two lists of entries that agree on every other key have maps that agree
/// there.
proof fn lemma_same_elsewhere<V>(
    before: Seq<(Seq<char>, V)>,
    after: Seq<(Seq<char>, V)>,
    key: Seq<char>,
    value: V,
    at: int,
)
    requires
        keys_ascend(before),
        keys_ascend(after),
        has_key_at(after, key, at),
        after[at].1 == value,
        forall|j: int|
            0 <= j < before.len() && (#[trigger] before[j]).0 != key ==> after.contains(before[j]),
        forall|j: int|
            0 <= j < after.len() && (#[trigger] after[j]).0 != key ==> before.contains(after[j]),
    ensures
        entries_map(after) == entries_map(before).insert(key, value),
{
    let a = entries_map(after);
    let b = entries_map(before).insert(key, value);
    lemma_key_unique(after, key, at);
    assert forall|k: Seq<char>| #[trigger] a.dom().contains(k) implies b.dom().contains(k) && a[k]
        == b[k] by {
        if k != key {
            let c = choose|j: int| #[trigger] has_key_at(after, k, j);
            assert(has_key_at(after, k, c));
            assert(before.contains(after[c]));
            let d = choose|j: int| 0 <= j < before.len() && before[j] == after[c];
            assert(has_key_at(before, k, d));
            lemma_key_unique(before, k, d);
            lemma_key_unique(after, k, c);
        }
    }
    assert forall|k: Seq<char>| #[trigger] b.dom().contains(k) implies a.dom().contains(k) by {
        if k != key {
            let c = choose|j: int| #[trigger] has_key_at(before, k, j);
            assert(has_key_at(before, k, c));
            assert(after.contains(before[c]));
            let d = choose|j: int| 0 <= j < after.len() && after[j] == before[c];
            assert(has_key_at(after, k, d));
            lemma_key_unique(after, k, d);
        }
    }
    assert(a.dom() =~= b.dom());
    assert(a =~= b);
}

proof fn lemma_inserted<V>(before: Seq<(Seq<char>, V)>, key: Seq<char>, value: V, i: int)
    requires
        keys_ascend(before),
        0 <= i <= before.len(),
        forall|j: int| 0 <= j < i ==> !lex_le(key, #[trigger] before[j].0),
        i < before.len() ==> lex_le(key, before[i].0) && before[i].0 != key,
    ensures
        keys_ascend(before.insert(i, (key, value))),
        entries_map(before.insert(i, (key, value))) == entries_map(before).insert(key, value),
{
    let after = before.insert(i, (key, value));
    assert forall|x: int, y: int|
        #![trigger after[x], after[y]]
        0 <= x < y < after.len() implies key_before(after[x].0, after[y].0) by {
        if y < i {
            assert(after[x] == before[x] && after[y] == before[y]);
        } else if y == i {
            assert(after[x] == before[x]);
            lemma_lex_total(before[x].0, key);
        } else if x < i {
            assert(after[x] == before[x] && after[y] == before[y - 1]);
        } else if x == i {
            assert(after[y] == before[y - 1]);
            if y - 1 > i {
                assert(key_before(before[i].0, before[y - 1].0));
                lemma_lex_trans(key, before[i].0, before[y - 1].0);
                if key == before[y - 1].0 {
                    lemma_lex_total(key, before[i].0);
                }
            }
        } else {
            assert(after[x] == before[x - 1] && after[y] == before[y - 1]);
        }
    }
    assert forall|j: int| 0 <= j < before.len() implies after.contains(#[trigger] before[j]) by {
        if j < i {
            assert(after[j] == before[j]);
        } else {
            assert(after[j + 1] == before[j]);
        }
    }
    assert forall|j: int| 0 <= j < after.len() && (#[trigger] after[j]).0 != key implies
        before.contains(after[j]) by {
        if j < i {
            assert(before[j] == after[j]);
        } else {
            assert(before[j - 1] == after[j]);
        }
    }
    assert(has_key_at(after, key, i));
    lemma_same_elsewhere(before, after, key, value, i);
}

} // verus!

//! A map with text as its keys.

use vstd::prelude::*;

use crate::text;

verus! {

/// A map from text to values.
#[verifier::reject_recursive_types(V)]
pub struct TextMap<V> {
    entries: Vec<(String, V)>,
}

spec fn keys_of<V>(entries: Seq<(String, V)>) -> Seq<Seq<char>> {
    Seq::new(entries.len(), |i: int| entries[i].0@)
}

spec fn distinct<V>(entries: Seq<(String, V)>) -> bool {
    keys_of(entries).no_duplicates()
}

spec fn index_in<V>(entries: Seq<(String, V)>, key: Seq<char>) -> int {
    choose|i: int| 0 <= i < entries.len() && (#[trigger] entries[i]).0@ == key
}

spec fn map_of<V>(entries: Seq<(String, V)>) -> Map<Seq<char>, V> {
    Map::new(
        |key: Seq<char>|
            exists|i: int| 0 <= i < entries.len() && (#[trigger] entries[i]).0@ == key,
        |key: Seq<char>| entries[index_in(entries, key)].1,
    )
}

proof fn lemma_member<V>(entries: Seq<(String, V)>, i: int)
    requires
        distinct(entries),
        0 <= i < entries.len(),
    ensures
        map_of(entries).contains_key(entries[i].0@),
        map_of(entries)[entries[i].0@] == entries[i].1,
{
    let key = entries[i].0@;
    let j = index_in(entries, key);
    assert(0 <= j < entries.len() && entries[j].0@ == key);
    assert(keys_of(entries)[i] == keys_of(entries)[j]);
}

proof fn lemma_dom<V>(entries: Seq<(String, V)>)
    requires
        distinct(entries),
    ensures
        map_of(entries).dom() == keys_of(entries).to_set(),
        map_of(entries).dom().finite(),
        map_of(entries).dom().len() == entries.len(),
{
    let keys = keys_of(entries);
    keys.unique_seq_to_set();
    assert(map_of(entries).dom() =~= keys.to_set()) by {
        assert forall|key: Seq<char>| map_of(entries).dom().contains(key) implies keys.to_set().contains(
            key,
        ) by {
            let i = index_in(entries, key);
            assert(keys[i] == key);
        }
        assert forall|key: Seq<char>| keys.to_set().contains(key) implies map_of(
            entries,
        ).dom().contains(key) by {
            let i = choose|i: int| 0 <= i < keys.len() && keys[i] == key;
            assert(entries[i].0@ == key);
        }
    }
}

impl<V> View for TextMap<V> {
    type V = Map<Seq<char>, V>;

    closed spec fn view(&self) -> Map<Seq<char>, V> {
        map_of(self.entries@)
    }
}

impl<V> TextMap<V> {
    #[verifier::type_invariant]
    spec fn distinct_keys(self) -> bool {
        distinct(self.entries@)
    }

    /// The map without entries.
    pub fn new() -> (m: Self)
        ensures
            m@ == Map::<Seq<char>, V>::empty(),
    {
        let m = TextMap { entries: Vec::new() };
        proof {
            assert(m@ =~= Map::<Seq<char>, V>::empty());
        }
        m
    }

    fn position(entries: &Vec<(String, V)>, key: &str) -> (r: Option<usize>)
        requires
            distinct(entries@),
        ensures
            match r {
                Some(i) => i < entries@.len() && entries@[i as int].0@ == key@ && map_of(
                    entries@,
                ).contains_key(key@) && map_of(entries@)[key@] == entries@[i as int].1,
                None => !map_of(entries@).contains_key(key@),
            },
    {
        let mut i: usize = 0;
        while i < entries.len()
            invariant
                i <= entries@.len(),
                distinct(entries@),
                forall|k: int| 0 <= k < i ==> (#[trigger] entries@[k]).0@ != key@,
            decreases entries@.len() - i,
        {
            if text::same_text(entries[i].0.as_str(), key) {
                proof {
                    lemma_member(entries@, i as int);
                }
                return Some(i);
            }
            i += 1;
        }
        None
    }

    /// The number of entries.
    pub fn len(&self) -> (n: usize)
        ensures
            n == self@.dom().len(),
            self@.dom().finite(),
    {
        proof {
            use_type_invariant(self);
            lemma_dom(self.entries@);
        }
        self.entries.len()
    }

    /// The value under a key.
    pub fn get(&self, key: &str) -> (r: Option<&V>)
        ensures
            match r {
                Some(v) => self@.contains_key(key@) && *v == self@[key@],
                None => !self@.contains_key(key@),
            },
    {
        proof {
            use_type_invariant(self);
        }
        match Self::position(&self.entries, key) {
            Some(i) => Some(&self.entries[i].1),
            None => None,
        }
    }

    /// Whether there is a value under a key.
    pub fn contains(&self, key: &str) -> (r: bool)
        ensures
            r == self@.contains_key(key@),
    {
        self.get(key).is_some()
    }

    /// All keys, each once.
    pub fn keys(&self) -> (out: Vec<String>)
        ensures
            text::texts(out@).no_duplicates(),
            text::texts(out@).to_set() == self@.dom(),
    {
        proof {
            use_type_invariant(self);
            lemma_dom(self.entries@);
        }
        let mut out: Vec<String> = Vec::new();
        let mut i: usize = 0;
        while i < self.entries.len()
            invariant
                i <= self.entries@.len(),
                text::texts(out@) == keys_of(self.entries@).take(i as int),
            decreases self.entries@.len() - i,
        {
            let ghost before = text::texts(out@);
            out.push(self.entries[i].0.clone());
            proof {
                assert(text::texts(out@) =~= before.push(self.entries@[i as int].0@));
                assert(text::texts(out@) =~= keys_of(self.entries@).take(i + 1));
            }
            i += 1;
        }
        proof {
            assert(keys_of(self.entries@).take(self.entries@.len() as int) =~= keys_of(
                self.entries@,
            ));
        }
        out
    }

    /// Puts a value under a key, in place of the one there.
    pub fn insert(&mut self, key: &str, value: V)
        ensures
            final(self)@ == old(self)@.insert(key@, value),
    {
        proof {
            use_type_invariant(&*self);
        }
        let ghost old_map = self@;
        let mut entries: Vec<(String, V)> = Vec::new();
        std::mem::swap(&mut entries, &mut self.entries);
        let ghost before = entries@;
        match Self::position(&entries, key) {
            Some(i) => {
                entries.set(i, (key.to_string(), value));
                proof {
                    assert(keys_of(entries@) =~= keys_of(before));
                    lemma_same_but(before, entries@, i as int);
                    assert(map_of(entries@) =~= old_map.insert(key@, value));
                }
            },
            None => {
                entries.push((key.to_string(), value));
                proof {
                    assert(keys_of(entries@) =~= keys_of(before).push(key@));
                    assert forall|k: int| 0 <= k < before.len() implies #[trigger] keys_of(before)[k]
                        != key@ by {
                        lemma_member(before, k);
                    }
                    assert(distinct(entries@));
                    lemma_pushed(before, entries@);
                    assert(map_of(entries@) =~= old_map.insert(key@, value));
                }
            },
        }
        self.entries = entries;
    }

    /// Takes the value under a key out of the map.
    pub fn remove(&mut self, key: &str) -> (r: Option<V>)
        ensures
            final(self)@ == old(self)@.remove(key@),
            match r {
                Some(v) => old(self)@.contains_key(key@) && v == old(self)@[key@],
                None => !old(self)@.contains_key(key@),
            },
    {
        proof {
            use_type_invariant(&*self);
        }
        let ghost old_map = self@;
        let mut entries: Vec<(String, V)> = Vec::new();
        std::mem::swap(&mut entries, &mut self.entries);
        let ghost before = entries@;
        match Self::position(&entries, key) {
            Some(i) => {
                let (_, value) = entries.remove(i);
                proof {
                    lemma_removed(before, entries@, i as int);
                    assert(map_of(entries@) =~= old_map.remove(key@));
                }
                self.entries = entries;
                Some(value)
            },
            None => {
                self.entries = entries;
                proof {
                    assert(old_map.remove(key@) =~= old_map);
                }
                None
            },
        }
    }
}

proof fn lemma_same_but<V>(before: Seq<(String, V)>, after: Seq<(String, V)>, i: int)
    requires
        distinct(before),
        keys_of(after) == keys_of(before),
        0 <= i < before.len(),
        after.len() == before.len(),
        forall|k: int| 0 <= k < before.len() && k != i ==> #[trigger] after[k] == before[k],
    ensures
        map_of(after) == map_of(before).insert(before[i].0@, after[i].1),
{
    let key = before[i].0@;
    let want = map_of(before).insert(key, after[i].1);
    assert forall|k: int| 0 <= k < before.len() implies (#[trigger] after[k]).0@
        == before[k].0@ by {
        assert(keys_of(after)[k] == keys_of(before)[k]);
    }
    assert forall|q: Seq<char>| map_of(after).contains_key(q) == want.contains_key(q) by {
        if map_of(after).contains_key(q) {
            let k = index_in(after, q);
            assert(before[k].0@ == q);
        }
        if want.contains_key(q) {
            if q == key {
                assert(after[i].0@ == q);
            } else {
                let k = index_in(before, q);
                assert(after[k].0@ == q);
            }
        }
    }
    assert forall|q: Seq<char>| map_of(after).contains_key(q) implies map_of(after)[q]
        == want[q] by {
        let k = index_in(after, q);
        assert(0 <= k < after.len() && after[k].0@ == q);
        lemma_member(after, k);
        lemma_member(before, k);
        if q == key {
            assert(keys_of(after)[k] == keys_of(after)[i]);
        }
    }
    assert(map_of(after) =~= want);
}

proof fn lemma_pushed<V>(before: Seq<(String, V)>, after: Seq<(String, V)>)
    requires
        distinct(before),
        distinct(after),
        after.len() == before.len() + 1,
        forall|k: int| 0 <= k < before.len() ==> #[trigger] after[k] == before[k],
    ensures
        map_of(after) == map_of(before).insert(after.last().0@, after.last().1),
{
    let last = after.len() - 1;
    let key = after[last].0@;
    let want = map_of(before).insert(key, after[last].1);
    assert forall|q: Seq<char>| map_of(after).contains_key(q) == want.contains_key(q) by {
        if map_of(after).contains_key(q) {
            let k = index_in(after, q);
            if k < last {
                assert(before[k].0@ == q);
            }
        }
        if want.contains_key(q) {
            if q == key {
                assert(after[last].0@ == q);
            } else {
                let k = index_in(before, q);
                assert(after[k].0@ == q);
            }
        }
    }
    assert forall|q: Seq<char>| map_of(after).contains_key(q) implies map_of(after)[q]
        == want[q] by {
        let k = index_in(after, q);
        assert(0 <= k < after.len() && after[k].0@ == q);
        lemma_member(after, k);
        if k < last {
            lemma_member(before, k);
            assert(keys_of(after)[k] != keys_of(after)[last]);
        }
    }
    assert(map_of(after) =~= want);
}

proof fn lemma_removed<V>(before: Seq<(String, V)>, after: Seq<(String, V)>, i: int)
    requires
        distinct(before),
        0 <= i < before.len(),
        after == before.remove(i),
    ensures
        distinct(after),
        map_of(after) == map_of(before).remove(before[i].0@),
{
    let key = before[i].0@;
    let want = map_of(before).remove(key);
    let back = |k: int| if k < i {
        k
    } else {
        k + 1
    };
    assert forall|k: int| 0 <= k < after.len() implies #[trigger] after[k] == before[back(k)] by {
    }
    assert(distinct(after)) by {
        assert forall|a: int, b: int|
            0 <= a < keys_of(after).len() && 0 <= b < keys_of(after).len() && a != b implies keys_of(
            after,
        )[a] != keys_of(after)[b] by {
            assert(keys_of(after)[a] == keys_of(before)[back(a)]);
            assert(keys_of(after)[b] == keys_of(before)[back(b)]);
        }
    }
    assert forall|q: Seq<char>| map_of(after).contains_key(q) == want.contains_key(q) by {
        if map_of(after).contains_key(q) {
            let k = index_in(after, q);
            assert(before[back(k)].0@ == q);
            assert(keys_of(before)[back(k)] != keys_of(before)[i]);
        }
        if want.contains_key(q) {
            let k = index_in(before, q);
            assert(before[k].0@ == q);
            if k < i {
                assert(after[k].0@ == q);
            } else {
                assert(after[k - 1].0@ == q);
            }
        }
    }
    assert forall|q: Seq<char>| map_of(after).contains_key(q) implies map_of(after)[q]
        == want[q] by {
        let k = index_in(after, q);
        assert(0 <= k < after.len() && after[k].0@ == q);
        lemma_member(after, k);
        assert(after[k] == before[back(k)]);
        lemma_member(before, back(k));
        assert(keys_of(before)[back(k)] != keys_of(before)[i]);
    }
    assert(map_of(after) =~= want);
}

} // verus!

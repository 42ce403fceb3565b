//! A map from strings to values that is walked in the order of its keys.
use vstd::prelude::*;
use crate::text;

verus! {

/// Whether some pair has the key.
pub open spec fn has_key<V>(pairs: Seq<(Seq<char>, V)>, key: Seq<char>) -> bool {
    exists|i: int| 0 <= i < pairs.len() && #[trigger] pairs[i].0 == key
}

/// The value that stands with the key.
pub open spec fn value_of<V>(pairs: Seq<(Seq<char>, V)>, key: Seq<char>) -> V {
    pairs[choose|i: int| 0 <= i < pairs.len() && #[trigger] pairs[i].0 == key].1
}

/// The map that a list of pairs with distinct keys stands for.
pub open spec fn map_of<V>(pairs: Seq<(Seq<char>, V)>) -> Map<Seq<char>, V> {
    Map::new(|key: Seq<char>| has_key(pairs, key), |key: Seq<char>| value_of(pairs, key))
}

/// Whether the keys rise strictly, so that no key occurs twice.
pub open spec fn ascending<V>(pairs: Seq<(Seq<char>, V)>) -> bool {
    forall|i: int, j: int|
        0 <= i < j < pairs.len() ==> text::text_less(#[trigger] pairs[i].0, #[trigger] pairs[j].0)
}

/// A position in an ascending list is found again from its key.
pub proof fn ascending_lookup<V>(pairs: Seq<(Seq<char>, V)>, i: int)
    requires
        ascending(pairs),
        0 <= i < pairs.len(),
    ensures
        map_of(pairs).contains_key(pairs[i].0),
        map_of(pairs)[pairs[i].0] == pairs[i].1,
        forall|j: int| 0 <= j < pairs.len() && #[trigger] pairs[j].0 == pairs[i].0 ==> j == i,
{
    assert forall|j: int| 0 <= j < pairs.len() && #[trigger] pairs[j].0 == pairs[i].0 implies j
        == i by {
        text::text_less_irreflexive(pairs[i].0);
    }
}

/// A map with string keys, walked in the order of the keys.
pub struct StringMap<V> {
    entries: Vec<(String, V)>,
}

impl<V> View for StringMap<V> {
    type V = Map<Seq<char>, V>;

    open spec fn view(&self) -> Map<Seq<char>, V> {
        map_of(self.pairs())
    }
}

impl<V> StringMap<V> {
    /// The pairs in the order of their keys.
    pub closed spec fn pairs(&self) -> Seq<(Seq<char>, V)> {
        self.entries@.map_values(|e: (String, V)| (e.0@, e.1))
    }

    #[verifier::type_invariant]
    pub open spec fn well_formed(&self) -> bool {
        ascending(self.pairs())
    }

    /// The empty map.
    pub fn new() -> (r: Self)
        ensures
            r@ == Map::<Seq<char>, V>::empty(),
            r.pairs() == Seq::<(Seq<char>, V)>::empty(),
    {
        let r = StringMap { entries: Vec::new() };
        proof {
            assert(r.pairs() =~= Seq::empty());
            assert(r@ =~= Map::empty());
        }
        r
    }

    /// The number of pairs.
    pub fn len(&self) -> (r: usize)
        ensures
            r == self.pairs().len(),
    {
        self.entries.len()
    }

    /// Whether there is no pair.
    pub fn is_empty(&self) -> (r: bool)
        ensures
            r == (self.pairs().len() == 0),
            r == (self@ == Map::<Seq<char>, V>::empty()),
    {
        proof {
            if self.pairs().len() == 0 {
                assert(self@ =~= Map::empty());
            } else {
                assert(has_key(self.pairs(), self.pairs()[0].0));
                assert(self@.contains_key(self.pairs()[0].0));
            }
        }
        self.entries.len() == 0
    }

    /// The key at a position of the walk.
    pub fn key_at(&self, i: usize) -> (r: &str)
        requires
            i < self.pairs().len(),
        ensures
            r@ == self.pairs()[i as int].0,
    {
        self.entries[i].0.as_str()
    }

    /// The value at a position of the walk.
    pub fn value_at(&self, i: usize) -> (r: &V)
        requires
            i < self.pairs().len(),
        ensures
            *r == self.pairs()[i as int].1,
    {
        &self.entries[i].1
    }

    /// How many keys come before `key`.
    fn rank(&self, key: &str) -> (r: usize)
        ensures
            r <= self.pairs().len(),
            forall|i: int| 0 <= i < r ==> text::text_less(#[trigger] self.pairs()[i].0, key@),
            r < self.pairs().len() ==> !text::text_less(self.pairs()[r as int].0, key@),
    {
        let mut i: usize = 0;
        while i < self.entries.len() && text::less(self.entries[i].0.as_str(), key)
            invariant
                i <= self.entries.len(),
                forall|j: int| 0 <= j < i ==> text::text_less(#[trigger] self.pairs()[j].0, key@),
            decreases self.entries.len() - i,
        {
            i = i + 1;
        }
        i
    }

    /// The position of a key in the walk.
    pub fn position(&self, key: &str) -> (r: Option<usize>)
        ensures
            r is Some == self@.contains_key(key@),
            r matches Some(i) ==> i < self.pairs().len() && self.pairs()[i as int].0 == key@
                && self.pairs()[i as int].1 == self@[key@],
    {
        proof {
            use_type_invariant(self);
        }
        let i = self.rank(key);
        proof {
            self.lemma_rank(i as int, key@);
            if i < self.pairs().len() {
                ascending_lookup(self.pairs(), i as int);
            }
        }
        if i < self.entries.len() && text::same(self.entries[i].0.as_str(), key) {
            Some(i)
        } else {
            None
        }
    }

    /// A key can stand only at its rank.
    proof fn lemma_rank(&self, r: int, key: Seq<char>)
        requires
            self.well_formed(),
            0 <= r <= self.pairs().len(),
            forall|i: int| 0 <= i < r ==> text::text_less(#[trigger] self.pairs()[i].0, key),
            r < self.pairs().len() ==> !text::text_less(self.pairs()[r].0, key),
        ensures
            self@.contains_key(key) == (r < self.pairs().len() && self.pairs()[r].0 == key),
            r < self.pairs().len() && self.pairs()[r].0 != key ==> text::text_less(
                key,
                self.pairs()[r].0,
            ),
    {
        let pairs = self.pairs();
        text::text_less_irreflexive(key);
        if r < pairs.len() {
            text::text_less_total(pairs[r].0, key);
        }
        if has_key(pairs, key) {
            let i = choose|i: int| 0 <= i < pairs.len() && #[trigger] pairs[i].0 == key;
            assert(i >= r);
            if i > r {
                assert(text::text_less(pairs[r].0, pairs[i].0));
            }
        }
    }

    /// Whether the map has the key.
    pub fn contains_key(&self, key: &str) -> (r: bool)
        ensures
            r == self@.contains_key(key@),
    {
        self.position(key).is_some()
    }

    /// The value under a key.
    pub fn get(&self, key: &str) -> (r: Option<&V>)
        ensures
            r is Some == self@.contains_key(key@),
            r matches Some(v) ==> *v == self@[key@],
    {
        match self.position(key) {
            Some(i) => Some(&self.entries[i].1),
            None => None,
        }
    }

    /// Puts a value under a key, in place of the value that was there.
    pub fn insert(&mut self, key: String, value: V)
        ensures
            final(self)@ == old(self)@.insert(key@, value),
    {
        proof {
            use_type_invariant(&*self);
        }
        let ghost before = self.pairs();
        let i = self.rank(key.as_str());
        let mut entries: Vec<(String, V)> = Vec::new();
        proof {
            self.lemma_rank(i as int, key@);
        }
        let present = i < self.entries.len() && text::same(self.entries[i].0.as_str(), key.as_str());
        proof {
            assert(Seq::<(Seq<char>, V)>::empty() =~= entries@.map_values(|e: (String, V)| (e.0@, e.1)));
        }
        std::mem::swap(&mut entries, &mut self.entries);
        let ghost k = key@;
        proof {
            assert(entries@.map_values(|e: (String, V)| (e.0@, e.1)) == before);
        }
        if present {
            entries.set(i, (key, value));
            proof {
                let after = entries@.map_values(|e: (String, V)| (e.0@, e.1));
                assert(after =~= before.update(i as int, (k, value)));
                lemma_update(before, i as int, value);
            }
        } else {
            entries.insert(i, (key, value));
            proof {
                let after = entries@.map_values(|e: (String, V)| (e.0@, e.1));
                assert(after =~= before.insert(i as int, (k, value)));
                lemma_insert(before, i as int, k, value);
            }
        }
        self.entries = entries;
    }

    /// Takes a key out of the map, and returns the value that was there.
    pub fn remove(&mut self, key: &str) -> (r: Option<V>)
        ensures
            r is Some == old(self)@.contains_key(key@),
            r matches Some(v) ==> v == old(self)@[key@],
            final(self)@ == old(self)@.remove(key@),
    {
        proof {
            use_type_invariant(&*self);
        }
        let ghost before = self.pairs();
        match self.position(key) {
            Some(i) => {
                let mut entries: Vec<(String, V)> = Vec::new();
                proof {
                    assert(Seq::<(Seq<char>, V)>::empty() =~= entries@.map_values(
                        |e: (String, V)| (e.0@, e.1),
                    ));
                }
                std::mem::swap(&mut entries, &mut self.entries);
                proof {
                    assert(entries@.map_values(|e: (String, V)| (e.0@, e.1)) == before);
                }
                let (_, value) = entries.remove(i);
                proof {
                    let after = entries@.map_values(|e: (String, V)| (e.0@, e.1));
                    assert(after =~= before.remove(i as int));
                    lemma_remove(before, i as int);
                }
                self.entries = entries;
                Some(value)
            },
            None => {
                proof {
                    assert(self@ =~= self@.remove(key@));
                }
                None
            },
        }
    }
}

proof fn lemma_update<V>(pairs: Seq<(Seq<char>, V)>, i: int, value: V)
    requires
        ascending(pairs),
        0 <= i < pairs.len(),
    ensures
        ascending(pairs.update(i, (pairs[i].0, value))),
        map_of(pairs.update(i, (pairs[i].0, value))) == map_of(pairs).insert(pairs[i].0, value),
{
    let after = pairs.update(i, (pairs[i].0, value));
    assert(forall|j: int| 0 <= j < pairs.len() ==> #[trigger] after[j].0 == pairs[j].0);
    assert forall|key: Seq<char>| has_key(after, key) == has_key(pairs, key) by {
        if has_key(pairs, key) {
            let j = choose|j: int| 0 <= j < pairs.len() && #[trigger] pairs[j].0 == key;
            assert(after[j].0 == key);
        }
    }
    assert forall|key: Seq<char>| has_key(pairs, key) implies #[trigger] map_of(after)[key]
        == map_of(pairs).insert(pairs[i].0, value)[key] by {
        let j = choose|j: int| 0 <= j < pairs.len() && #[trigger] pairs[j].0 == key;
        assert(after[j].0 == key);
        ascending_lookup(pairs, j);
        ascending_lookup(after, j);
        if key == pairs[i].0 {
            ascending_lookup(pairs, i);
        }
    }
    assert(has_key(pairs, pairs[i].0));
    assert(map_of(after) =~= map_of(pairs).insert(pairs[i].0, value));
}

proof fn lemma_insert<V>(pairs: Seq<(Seq<char>, V)>, i: int, key: Seq<char>, value: V)
    requires
        ascending(pairs),
        0 <= i <= pairs.len(),
        forall|j: int| 0 <= j < i ==> text::text_less(#[trigger] pairs[j].0, key),
        i < pairs.len() ==> text::text_less(key, pairs[i].0),
    ensures
        ascending(pairs.insert(i, (key, value))),
        map_of(pairs.insert(i, (key, value))) == map_of(pairs).insert(key, value),
{
    let after = pairs.insert(i, (key, value));
    assert forall|j: int| i <= j < pairs.len() implies text::text_less(
        key,
        #[trigger] pairs[j].0,
    ) by {
        if j > i {
            text::text_less_transitive(key, pairs[i].0, pairs[j].0);
        }
    }
    assert forall|a: int, b: int| 0 <= a < b < after.len() implies text::text_less(
        #[trigger] after[a].0,
        #[trigger] after[b].0,
    ) by {
        let x = if a < i { a } else { a - 1 };
        let y = if b < i { b } else { b - 1 };
        if a != i && b != i {
            assert(after[a] == pairs[x]);
            assert(after[b] == pairs[y]);
        } else if a == i {
            assert(after[b] == pairs[y]);
        } else {
            assert(after[a] == pairs[x]);
        }
    }
    assert(after[i] == (key, value));
    assert forall|k: Seq<char>| has_key(after, k) == (k == key || has_key(pairs, k)) by {
        assert(after[i].0 == key);
        if has_key(pairs, k) {
            let j = choose|j: int| 0 <= j < pairs.len() && #[trigger] pairs[j].0 == k;
            if j < i {
                assert(after[j].0 == k);
            } else {
                assert(after[j + 1].0 == k);
            }
        }
        if has_key(after, k) && k != key {
            let j = choose|j: int| 0 <= j < after.len() && #[trigger] after[j].0 == k;
            if j < i {
                assert(pairs[j].0 == k);
            } else {
                assert(pairs[j - 1].0 == k);
            }
        }
    }
    assert forall|k: Seq<char>| has_key(after, k) implies #[trigger] map_of(after)[k] == map_of(
        pairs,
    ).insert(key, value)[k] by {
        let j = choose|j: int| 0 <= j < after.len() && #[trigger] after[j].0 == k;
        ascending_lookup(after, j);
        if k == key {
            ascending_lookup(after, i);
        } else if j < i {
            assert(pairs[j].0 == k);
            ascending_lookup(pairs, j);
        } else {
            assert(pairs[j - 1].0 == k);
            ascending_lookup(pairs, j - 1);
        }
    }
    assert(map_of(after) =~= map_of(pairs).insert(key, value));
}

proof fn lemma_remove<V>(pairs: Seq<(Seq<char>, V)>, i: int)
    requires
        ascending(pairs),
        0 <= i < pairs.len(),
    ensures
        ascending(pairs.remove(i)),
        map_of(pairs.remove(i)) == map_of(pairs).remove(pairs[i].0),
{
    let after = pairs.remove(i);
    let key = pairs[i].0;
    assert forall|a: int, b: int| 0 <= a < b < after.len() implies text::text_less(
        #[trigger] after[a].0,
        #[trigger] after[b].0,
    ) by {
        let x = if a < i { a } else { a + 1 };
        let y = if b < i { b } else { b + 1 };
        assert(after[a] == pairs[x]);
        assert(after[b] == pairs[y]);
    }
    assert forall|k: Seq<char>| has_key(after, k) == (k != key && has_key(pairs, k)) by {
        if has_key(after, k) {
            let j = choose|j: int| 0 <= j < after.len() && #[trigger] after[j].0 == k;
            let x = if j < i { j } else { j + 1 };
            assert(pairs[x].0 == k);
            ascending_lookup(pairs, i);
        }
        if k != key && has_key(pairs, k) {
            let j = choose|j: int| 0 <= j < pairs.len() && #[trigger] pairs[j].0 == k;
            let x = if j < i { j } else { j - 1 };
            assert(after[x].0 == k);
        }
    }
    assert forall|k: Seq<char>| has_key(after, k) implies #[trigger] map_of(after)[k] == map_of(
        pairs,
    )[k] by {
        let j = choose|j: int| 0 <= j < after.len() && #[trigger] after[j].0 == k;
        let x = if j < i { j } else { j + 1 };
        assert(pairs[x].0 == k);
        ascending_lookup(after, j);
        ascending_lookup(pairs, x);
    }
    assert(map_of(after) =~= map_of(pairs).remove(key));
}

/// The pairs of a map from texts to texts, in the order of the keys.
pub open spec fn text_pairs(m: StringMap<String>) -> Seq<(Seq<char>, Seq<char>)> {
    m.pairs().map_values(|p: (Seq<char>, String)| (p.0, p.1@))
}

/// A map from texts to texts.
pub open spec fn text_map(m: StringMap<String>) -> Map<Seq<char>, Seq<char>> {
    m@.map_values(|v: String| v@)
}

/// The map of texts is the map that the pairs of texts stand for.
pub proof fn text_map_of_pairs(m: StringMap<String>)
    requires
        m.well_formed(),
    ensures
        text_map(m) == map_of(text_pairs(m)),
        ascending(text_pairs(m)),
{
    let pairs = m.pairs();
    let texts = text_pairs(m);
    assert(forall|i: int| 0 <= i < pairs.len() ==> #[trigger] texts[i].0 == pairs[i].0);
    assert forall|k: Seq<char>| has_key(pairs, k) == has_key(texts, k) by {
        if has_key(pairs, k) {
            let i = choose|i: int| 0 <= i < pairs.len() && #[trigger] pairs[i].0 == k;
            assert(texts[i].0 == k);
        }
    }
    assert forall|k: Seq<char>| has_key(pairs, k) implies #[trigger] text_map(m)[k] == map_of(
        texts,
    )[k] by {
        let i = choose|i: int| 0 <= i < pairs.len() && #[trigger] pairs[i].0 == k;
        ascending_lookup(pairs, i);
        assert(texts[i].0 == k);
        ascending_lookup(texts, i);
    }
    assert(text_map(m) =~= map_of(texts));
}

/// Appending a pair with a key above all others adds that pair to the map.
pub proof fn map_of_push<V>(pairs: Seq<(Seq<char>, V)>, i: int)
    requires
        ascending(pairs),
        0 <= i < pairs.len(),
    ensures
        ascending(pairs.take(i)),
        map_of(pairs.take(i + 1)) == map_of(pairs.take(i)).insert(pairs[i].0, pairs[i].1),
{
    let front = pairs.take(i);
    assert forall|j: int| 0 <= j < front.len() implies text::text_less(
        #[trigger] front[j].0,
        pairs[i].0,
    ) by {
        assert(front[j] == pairs[j]);
    }
    assert(pairs.take(i + 1) =~= front.insert(i, (pairs[i].0, pairs[i].1)));
    lemma_insert(front, i, pairs[i].0, pairs[i].1);
}

/// Puts a text under a key.
pub fn put_text(m: &mut StringMap<String>, key: &str, value: &str)
    ensures
        text_map(*final(m)) == text_map(*old(m)).insert(key@, value@),
{
    m.insert(key.to_owned(), value.to_owned());
    proof {
        assert(text_map(*m) =~= text_map(*old(m)).insert(key@, value@));
    }
}

/// Puts all pairs of a map into another, in place of those with the same key.
pub fn put_all(m: &mut StringMap<String>, other: &StringMap<String>)
    ensures
        text_map(*final(m)) == text_map(*old(m)).union_prefer_right(text_map(*other)),
{
    let ghost texts = text_pairs(*other);
    let mut i: usize = 0;
    proof {
        use_type_invariant(other);
        text_map_of_pairs(*other);
        assert(map_of(texts.take(0)) =~= Map::empty());
        assert(text_map(*m) =~= text_map(*old(m)).union_prefer_right(map_of(texts.take(0))));
    }
    while i < other.len()
        invariant
            i <= other.pairs().len(),
            texts == text_pairs(*other),
            ascending(texts),
            text_map(*m) == text_map(*old(m)).union_prefer_right(map_of(texts.take(i as int))),
        decreases other.pairs().len() - i,
    {
        let key = other.key_at(i);
        let value = other.value_at(i);
        put_text(m, key, value.as_str());
        proof {
            map_of_push(texts, i as int);
            assert(texts[i as int] == (key@, value@));
            assert(text_map(*m) =~= text_map(*old(m)).union_prefer_right(
                map_of(texts.take(i + 1)),
            ));
        }
        i = i + 1;
    }
    proof {
        assert(texts.take(texts.len() as int) =~= texts);
    }
}

impl Clone for StringMap<String> {
    fn clone(&self) -> (r: Self)
        ensures
            text_pairs(r) == text_pairs(*self),
            text_map(r) == text_map(*self),
    {
        let mut entries: Vec<(String, String)> = Vec::new();
        let mut i: usize = 0;
        while i < self.entries.len()
            invariant
                i <= self.entries.len(),
                entries.len() == i,
                forall|j: int|
                    0 <= j < i ==> (#[trigger] entries@[j]).0@ == self.entries@[j].0@
                        && entries@[j].1@ == self.entries@[j].1@,
            decreases self.entries.len() - i,
        {
            entries.push((self.entries[i].0.clone(), self.entries[i].1.clone()));
            i = i + 1;
        }
        proof {
            use_type_invariant(self);
            let pairs = entries@.map_values(|e: (String, String)| (e.0@, e.1));
            assert(forall|j: int| 0 <= j < pairs.len() ==> #[trigger] pairs[j].0 == self.pairs()[j].0);
            assert(ascending(pairs));
        }
        let r = StringMap { entries };
        proof {
            use_type_invariant(&r);
            assert(text_pairs(r) =~= text_pairs(*self));
            text_map_of_pairs(r);
            text_map_of_pairs(*self);
        }
        r
    }
}

} // verus!

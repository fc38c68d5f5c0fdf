//! Maps from texts to values, ordered by their keys.

use crate::text;
use vstd::prelude::*;

verus! {

/// A map from texts to values.
pub struct TextMap<V: View> {
    entries: Vec<(String, V)>,
}

/// Each text comes before all that follow it.
pub open spec fn ascending(list: Seq<Seq<char>>) -> bool {
    forall|i: int, j: int|
        0 <= i < j < list.len() ==> text::text_less(#[trigger] list[i], #[trigger] list[j])
}

/// No text stands twice in an ascending list.
pub proof fn lemma_ascending_differ(list: Seq<Seq<char>>)
    requires
        ascending(list),
    ensures
        list.no_duplicates(),
{
    assert forall|i: int, j: int| 0 <= i < list.len() && 0 <= j < list.len() && i != j implies list[i]
        != list[j] by {
        text::lemma_text_less_total(list[i], list[j]);
        if i < j {
            assert(text::text_less(list[i], list[j]));
        } else {
            assert(text::text_less(list[j], list[i]));
        }
    }
}

/// Two ascending lists of the same texts are the same list.
pub proof fn law_ascending_lists_are_unique(a: Seq<Seq<char>>, b: Seq<Seq<char>>)
    requires
        ascending(a),
        ascending(b),
        a.to_set() == b.to_set(),
    ensures
        a == b,
    decreases a.len(),
{
    if a.len() == 0 {
        if b.len() > 0 {
            assert(b.to_set().contains(b[0]));
            assert(a.contains(b[0]));
        }
        assert(a =~= b);
    } else {
        assert(a.to_set().contains(a.last()));
        assert(b.contains(a.last()));
        assert(b.len() > 0);
        assert(b.to_set().contains(b.last()));
        assert(a.contains(b.last()));
        let i = choose|i: int| 0 <= i < a.len() && a[i] == b.last();
        let j = choose|j: int| 0 <= j < b.len() && b[j] == a.last();
        if a.last() != b.last() {
            assert(text::text_less(a[i], a[a.len() - 1]));
            assert(text::text_less(b[j], b[b.len() - 1]));
            text::lemma_text_less_total(a.last(), b.last());
        }
        lemma_ascending_differ(a);
        lemma_ascending_differ(b);
        let x = a.drop_last();
        let y = b.drop_last();
        assert(ascending(x));
        assert(ascending(y));
        assert forall|t: Seq<char>| x.to_set().contains(t) <==> y.to_set().contains(t) by {
            if x.contains(t) {
                let k = choose|k: int| 0 <= k < x.len() && x[k] == t;
                assert(a[k] == t);
                assert(a.to_set().contains(t));
                assert(b.contains(t));
                let m = choose|m: int| 0 <= m < b.len() && b[m] == t;
                assert(m != b.len() - 1);
                assert(y[m] == t);
            }
            if y.contains(t) {
                let k = choose|k: int| 0 <= k < y.len() && y[k] == t;
                assert(b[k] == t);
                assert(b.to_set().contains(t));
                assert(a.contains(t));
                let m = choose|m: int| 0 <= m < a.len() && a[m] == t;
                assert(m != a.len() - 1);
                assert(x[m] == t);
            }
        }
        assert(x.to_set() =~= y.to_set());
        law_ascending_lists_are_unique(x, y);
        assert(a =~= x.push(a.last()));
        assert(b =~= y.push(b.last()));
    }
}

/// The keys of a map in ascending order.
pub open spec fn ascending_keys<T>(m: Map<Seq<char>, T>) -> Seq<Seq<char>> {
    choose|keys: Seq<Seq<char>>| ascending(keys) && keys.to_set() == m.dom()
}

proof fn lemma_ascending_insert(list: Seq<Seq<char>>, i: int, key: Seq<char>)
    requires
        ascending(list),
        0 <= i <= list.len(),
        forall|j: int| 0 <= j < i ==> text::text_less(#[trigger] list[j], key),
        i < list.len() ==> text::text_less(key, list[i]),
    ensures
        ascending(list.insert(i, key)),
{
    let after = list.insert(i, key);
    assert forall|a: int, b: int| 0 <= a < b < after.len() implies text::text_less(
        #[trigger] after[a],
        #[trigger] after[b],
    ) by {
        if b < i {
            assert(text::text_less(list[a], list[b]));
        } else if b == i {
            assert(text::text_less(list[a], key));
        } else if a < i {
            assert(text::text_less(list[a], list[b - 1]));
        } else if a == i {
            if b - 1 > i {
                assert(text::text_less(list[i], list[b - 1]));
                text::lemma_text_less_trans(key, list[i], list[b - 1]);
            }
        } else {
            assert(text::text_less(list[a - 1], list[b - 1]));
        }
    }
}

impl<V: View> View for TextMap<V> {
    type V = Map<Seq<char>, V::V>;

    closed spec fn view(&self) -> Map<Seq<char>, V::V> {
        Map::new(
            |k: Seq<char>| self.keys().contains(k),
            |k: Seq<char>| self.entries@[self.keys().index_of(k)].1@,
        )
    }
}

impl<V: View> TextMap<V> {
    /// The keys, in ascending order.
    pub closed spec fn keys(self) -> Seq<Seq<char>> {
        Seq::new(self.entries@.len(), |i: int| self.entries@[i].0@)
    }

    /// The keys ascend.
    #[verifier::type_invariant]
    spec fn keys_ascend(self) -> bool {
        ascending(self.keys())
    }

    /// A map without entries.
    pub fn new() -> (r: Self)
        ensures
            r@ == Map::<Seq<char>, V::V>::empty(),
            r.keys() == Seq::<Seq<char>>::empty(),
    {
        let r = TextMap { entries: Vec::new() };
        assert(r.keys() =~= Seq::empty());
        assert(r@ =~= Map::empty());
        r
    }

    /// How many entries there are. The keys ascend and are those of the map.
    pub fn len(&self) -> (r: usize)
        ensures
            r == self.keys().len(),
            ascending(self.keys()),
            self.keys().no_duplicates(),
            forall|k: Seq<char>| #[trigger] self@.contains_key(k) <==> self.keys().contains(k),
            self@.dom() == self.keys().to_set(),
            self.keys() == ascending_keys(self@),
    {
        proof {
            use_type_invariant(self);
            lemma_ascending_differ(self.keys());
            assert(self@.dom() =~= self.keys().to_set());
            law_ascending_lists_are_unique(self.keys(), ascending_keys(self@));
        }
        self.entries.len()
    }

    /// Key `i`.
    pub fn key_at(&self, i: usize) -> (r: &String)
        requires
            i < self.keys().len(),
        ensures
            r@ == self.keys()[i as int],
            self@.contains_key(r@),
    {
        proof {
            assert(self.keys()[i as int] == self.entries@[i as int].0@);
        }
        &self.entries[i].0
    }

    /// The value under key `i`.
    pub fn value_at(&self, i: usize) -> (r: &V)
        requires
            i < self.keys().len(),
        ensures
            r@ == self@[self.keys()[i as int]],
            self@.contains_key(self.keys()[i as int]),
    {
        proof {
            use_type_invariant(self);
            lemma_ascending_differ(self.keys());
            assert(self.keys().contains(self.keys()[i as int]));
            assert(self.keys().index_of(self.keys()[i as int]) == i);
        }
        &self.entries[i].1
    }

    /// Index of the key.
    pub fn find(&self, key: &str) -> (r: Option<usize>)
        ensures
            match r {
                Some(i) => i < self.keys().len() && self.keys()[i as int] == key@
                    && self@.contains_key(key@) && self.keys().index_of(key@) == i,
                None => !self@.contains_key(key@) && !self.keys().contains(key@),
            },
    {
        proof {
            use_type_invariant(self);
            lemma_ascending_differ(self.keys());
        }
        for i in 0..self.entries.len()
            invariant
                self.keys().no_duplicates(),
                forall|j: int| 0 <= j < i ==> self.keys()[j] != key@,
        {
            if text::same_text(self.entries[i].0.as_str(), key) {
                assert(self.keys()[i as int] == key@);
                assert(self.keys().contains(key@));
                return Some(i);
            }
            assert(self.keys()[i as int] != key@);
        }
        None
    }

    /// The keys in their order.
    pub fn key_list(&self) -> (r: Vec<String>)
        ensures
            text::texts(r@) == self.keys(),
            self.keys() == ascending_keys(self@),
            self.keys().no_duplicates(),
            forall|k: Seq<char>| #[trigger] self@.contains_key(k) <==> self.keys().contains(k),
    {
        let mut out: Vec<String> = Vec::new();
        let count = self.len();
        for i in 0..count
            invariant
                count == self.keys().len(),
                text::texts(out@) == self.keys().take(i as int),
        {
            text::push_text(&mut out, self.key_at(i).clone());
            assert(self.keys().take(i + 1) =~= self.keys().take(i as int).push(
                self.keys()[i as int],
            ));
        }
        assert(self.keys().take(count as int) =~= self.keys());
        out
    }

    /// Whether the map has the key.
    pub fn contains_key(&self, key: &str) -> (r: bool)
        ensures
            r == self@.contains_key(key@),
    {
        match self.find(key) {
            Some(_) => true,
            None => false,
        }
    }

    /// The value under the key.
    pub fn get(&self, key: &str) -> (r: Option<&V>)
        ensures
            match r {
                Some(v) => self@.contains_key(key@) && v@ == self@[key@],
                None => !self@.contains_key(key@),
            },
    {
        match self.find(key) {
            Some(i) => Some(self.value_at(i)),
            None => None,
        }
    }

    /// Where a key that is not there belongs.
    fn place_for(&self, key: &str) -> (r: usize)
        requires
            !self.keys().contains(key@),
        ensures
            r <= self.keys().len(),
            forall|j: int| 0 <= j < r ==> text::text_less(#[trigger] self.keys()[j], key@),
            r < self.keys().len() ==> text::text_less(key@, self.keys()[r as int]),
    {
        let mut i: usize = 0;
        while i < self.entries.len()
            invariant
                i <= self.entries@.len(),
                !self.keys().contains(key@),
                forall|j: int| 0 <= j < i ==> text::text_less(#[trigger] self.keys()[j], key@),
            decreases self.entries.len() - i,
        {
            proof {
                assert(self.keys()[i as int] == self.entries@[i as int].0@);
                assert(self.keys().contains(self.keys()[i as int]));
                text::lemma_text_less_total(self.keys()[i as int], key@);
            }
            if !text::comes_before(self.entries[i].0.as_str(), key) {
                return i;
            }
            i += 1;
        }
        i
    }

    /// Puts the value under the key.
    pub fn insert(&mut self, key: String, value: V)
        ensures
            final(self)@ == old(self)@.insert(key@, value@),
    {
        proof {
            use_type_invariant(&*self);
            lemma_ascending_differ(self.keys());
        }
        let ghost before = self.keys();
        let ghost was = self@;
        let found = self.find(key.as_str());
        let place = match found {
            Some(i) => i,
            None => self.place_for(key.as_str()),
        };
        let mut entries: Vec<(String, V)> = Vec::new();
        std::mem::swap(&mut entries, &mut self.entries);
        let ghost old_entries = entries@;
        if found.is_some() {
            entries.set(place, (key, value));
        } else {
            entries.insert(place, (key, value));
        }
        let ghost after = Seq::new(entries@.len(), |i: int| entries@[i].0@);
        proof {
            if found is Some {
                assert(after =~= before);
            } else {
                assert(after =~= before.insert(place as int, key@));
                lemma_ascending_insert(before, place as int, key@);
            }
        }
        self.entries = entries;
        proof {
            assert(self.keys() =~= after);
            lemma_ascending_differ(after);
            assert(after[place as int] == key@);
            assert forall|k: Seq<char>| #[trigger] self@.contains_key(k) <==> was.insert(
                key@,
                value@,
            ).contains_key(k) by {
                if before.contains(k) {
                    let j = before.index_of(k);
                    if found is Some || j < place {
                        assert(after[j] == k);
                    } else {
                        assert(after[j + 1] == k);
                    }
                }
                if after.contains(k) && k != key@ {
                    let j = after.index_of(k);
                    if found is Some || j < place {
                        assert(before[j] == k);
                    } else {
                        assert(before[j - 1] == k);
                    }
                }
            }
            assert forall|k: Seq<char>| #[trigger] self@.contains_key(k) implies self@[k]
                == was.insert(key@, value@)[k] by {
                let j = after.index_of(k);
                assert(after.contains(k));
                assert(after[j] == k);
                if k == key@ {
                    assert(j == place);
                } else {
                    let c = if found is Some || j < place {
                        j
                    } else {
                        j - 1
                    };
                    assert(before[c] == k);
                    assert(before.contains(k));
                    assert(before.index_of(k) == c);
                    assert(self.entries@[j].1 == old_entries[c].1);
                }
            }
            assert(self@ =~= was.insert(key@, value@));
        }
    }

    /// Takes the key and its value out.
    pub fn remove(&mut self, key: &str) -> (r: Option<V>)
        ensures
            final(self)@ == old(self)@.remove(key@),
            match r {
                Some(v) => old(self)@.contains_key(key@) && v@ == old(self)@[key@],
                None => !old(self)@.contains_key(key@),
            },
    {
        proof {
            use_type_invariant(&*self);
            lemma_ascending_differ(self.keys());
        }
        let ghost before = self.keys();
        let ghost was = self@;
        let place = self.find(key);
        match place {
            None => {
                assert(self@ =~= was.remove(key@));
                None
            },
            Some(i) => {
                let mut entries: Vec<(String, V)> = Vec::new();
                std::mem::swap(&mut entries, &mut self.entries);
                let ghost old_entries = entries@;
                let taken = entries.remove(i);
                let ghost after = Seq::new(entries@.len(), |j: int| entries@[j].0@);
                proof {
                    assert(after =~= before.remove(i as int));
                    assert forall|a: int, b: int| 0 <= a < b < after.len() implies text::text_less(
                        #[trigger] after[a],
                        #[trigger] after[b],
                    ) by {
                        let c = if a < i {
                            a
                        } else {
                            a + 1
                        };
                        let d = if b < i {
                            b
                        } else {
                            b + 1
                        };
                        assert(text::text_less(before[c], before[d]));
                    }
                }
                self.entries = entries;
                proof {
                    assert(self.keys() =~= after);
                    lemma_ascending_differ(after);
                    assert forall|k: Seq<char>| #[trigger] self@.contains_key(k) <==> was.remove(
                        key@,
                    ).contains_key(k) by {
                        if after.contains(k) {
                            let j = after.index_of(k);
                            let c = if j < i {
                                j
                            } else {
                                j + 1
                            };
                            assert(before[c] == k);
                            assert(before[i as int] == key@);
                        }
                        if before.contains(k) && k != key@ {
                            let c = before.index_of(k);
                            let j = if c < i {
                                c
                            } else {
                                c - 1
                            };
                            assert(after[j] == k);
                        }
                    }
                    assert forall|k: Seq<char>| #[trigger] self@.contains_key(k) implies self@[k]
                        == was.remove(key@)[k] by {
                        let j = after.index_of(k);
                        assert(after[j] == k);
                        let c = if j < i {
                            j
                        } else {
                            j + 1
                        };
                        assert(before[c] == k);
                        assert(before.contains(k));
                        assert(before.index_of(k) == c);
                        assert(self.entries@[j].1 == old_entries[c].1);
                    }
                    assert(self@ =~= was.remove(key@));
                }
                Some(taken.1)
            },
        }
    }
}

/// The texts of a set in ascending order.
pub open spec fn ascending_of(set: Set<Seq<char>>) -> Seq<Seq<char>> {
    choose|sorted: Seq<Seq<char>>| ascending(sorted) && sorted.to_set() == set
}

/// The texts of a list, each once and in ascending order.
pub open spec fn ascending_set(list: Seq<Seq<char>>) -> Seq<Seq<char>> {
    ascending_of(list.to_set())
}

/// The texts of a list, each once and in ascending order.
pub fn sorted_set(list: &Vec<String>) -> (r: Vec<String>)
    ensures
        ascending(text::texts(r@)),
        text::texts(r@).to_set() == text::texts(list@).to_set(),
        text::texts(r@) == ascending_set(text::texts(list@)),
{
    let ghost all = text::texts(list@);
    let mut map: TextMap<bool> = TextMap::new();
    for i in 0..list.len()
        invariant
            all == text::texts(list@),
            forall|k: Seq<char>| #[trigger]
                map@.contains_key(k) <==> all.take(i as int).contains(k),
    {
        let ghost seen = all.take(i as int);
        let ghost upto = all.take(i + 1);
        let ghost key = list@[i as int]@;
        map.insert(list[i].clone(), true);
        proof {
            assert(upto =~= seen.push(key));
            assert forall|k: Seq<char>| #[trigger] map@.contains_key(k) <==> upto.contains(k) by {
                if seen.contains(k) {
                    let j = choose|j: int| 0 <= j < seen.len() && seen[j] == k;
                    assert(upto[j] == k);
                }
                if upto.contains(k) && k != key {
                    let j = choose|j: int| 0 <= j < upto.len() && upto[j] == k;
                    assert(seen[j] == k);
                }
                if k == key {
                    assert(upto[i as int] == k);
                }
            }
        }
    }
    assert(all.take(all.len() as int) =~= all);
    let n: usize = map.len();
    let mut out: Vec<String> = Vec::new();
    for i in 0..n
        invariant
            n == map.keys().len(),
            text::texts(out@) == map.keys().take(i as int),
    {
        let ghost before = out@;
        out.push(map.key_at(i).clone());
        assert(text::texts(out@) =~= text::texts(before).push(map.keys()[i as int]));
    }
    proof {
        assert(text::texts(out@) =~= map.keys());
        assert(map.keys().to_set() =~= all.to_set());
        law_ascending_lists_are_unique(text::texts(out@), ascending_set(all));
    }
    out
}

/// A set of texts, in the order in which they came.
pub struct TextSet {
    items: Vec<String>,
}

impl View for TextSet {
    type V = Set<Seq<char>>;

    closed spec fn view(&self) -> Set<Seq<char>> {
        text::texts(self.items@).to_set()
    }
}

impl TextSet {
    /// The texts, in the order in which they came.
    pub closed spec fn ordered(self) -> Seq<Seq<char>> {
        text::texts(self.items@)
    }

    /// No text came twice.
    #[verifier::type_invariant]
    spec fn items_differ(self) -> bool {
        self.ordered().no_duplicates()
    }

    /// The empty set.
    pub fn new() -> (r: Self)
        ensures
            r@ == Set::<Seq<char>>::empty(),
    {
        let r = TextSet { items: Vec::new() };
        assert(r@ =~= Set::empty());
        r
    }

    /// The texts, in the order in which they came.
    pub fn items(&self) -> (r: &Vec<String>)
        ensures
            text::texts(r@) == self.ordered(),
            self.ordered().no_duplicates(),
            self@ == self.ordered().to_set(),
    {
        proof {
            use_type_invariant(self);
        }
        &self.items
    }

    /// Whether the text is in the set.
    pub fn contains(&self, item: &str) -> (r: bool)
        ensures
            r == self@.contains(item@),
    {
        text::texts_contain(&self.items, item)
    }

    /// Puts a text into the set.
    pub fn insert(&mut self, item: String)
        ensures
            final(self)@ == old(self)@.insert(item@),
    {
        proof {
            use_type_invariant(&*self);
        }
        let ghost before = self.ordered();
        let ghost was = self@;
        if text::texts_contain(&self.items, item.as_str()) {
            assert(was =~= was.insert(item@));
            return ;
        }
        let ghost added = item@;
        let mut items: Vec<String> = Vec::new();
        std::mem::swap(&mut items, &mut self.items);
        text::push_text(&mut items, item);
        let ghost after = text::texts(items@);
        assert(after == before.push(added));
        assert forall|t: Seq<char>| after.to_set().contains(t) <==> was.insert(added).contains(t) by {
            if after.contains(t) {
                let i = choose|i: int| 0 <= i < after.len() && after[i] == t;
                if i < before.len() {
                    assert(before[i] == t);
                }
            }
            if before.contains(t) {
                let i = choose|i: int| 0 <= i < before.len() && before[i] == t;
                assert(after[i] == t);
            }
            assert(after[before.len() as int] == added);
        }
        self.items = items;
        assert(self@ =~= was.insert(added));
    }
}

proof fn lemma_place_in(list: Seq<Seq<char>>, key: Seq<char>) -> (i: int)
    requires
        ascending(list),
        !list.contains(key),
    ensures
        0 <= i <= list.len(),
        forall|j: int| 0 <= j < i ==> text::text_less(#[trigger] list[j], key),
        i < list.len() ==> text::text_less(key, list[i]),
    decreases list.len(),
{
    if list.len() == 0 {
        0
    } else {
        let front = list.drop_last();
        assert(list[list.len() - 1] == list.last());
        text::lemma_text_less_total(list.last(), key);
        if text::text_less(list.last(), key) {
            assert forall|j: int| 0 <= j < list.len() implies text::text_less(
                #[trigger] list[j],
                key,
            ) by {
                if j < front.len() {
                    assert(text::text_less(list[j], list[list.len() - 1]));
                    text::lemma_text_less_trans(list[j], list.last(), key);
                }
            }
            list.len() as int
        } else {
            if front.contains(key) {
                assert(list[front.index_of(key)] == key);
            }
            let i = lemma_place_in(front, key);
            assert(i < front.len() ==> front[i] == list[i]);
            assert forall|j: int| 0 <= j < i implies text::text_less(#[trigger] list[j], key) by {
                assert(front[j] == list[j]);
            }
            i
        }
    }
}

/// The texts of a finite set can be listed in ascending order.
pub proof fn lemma_can_ascend(set: Set<Seq<char>>) -> (list: Seq<Seq<char>>)
    requires
        set.finite(),
    ensures
        ascending(list),
        list.to_set() == set,
    decreases set.len(),
{
    if set.len() == 0 {
        let none = Seq::<Seq<char>>::empty();
        assert(none.to_set() =~= set);
        none
    } else {
        let key = set.choose();
        let rest = lemma_can_ascend(set.remove(key));
        assert(!rest.contains(key)) by {
            if rest.contains(key) {
                assert(rest.to_set().contains(key));
            }
        }
        let i = lemma_place_in(rest, key);
        lemma_ascending_insert(rest, i, key);
        let list = rest.insert(i, key);
        assert forall|t: Seq<char>| list.to_set().contains(t) <==> set.contains(t) by {
            if list.contains(t) && t != key {
                let k = list.index_of(t);
                let m = if k < i {
                    k
                } else {
                    k - 1
                };
                assert(rest[m] == t);
                assert(rest.to_set().contains(t));
            }
            if set.contains(t) && t != key {
                assert(rest.to_set().contains(t));
                let k = rest.index_of(t);
                let m = if k < i {
                    k
                } else {
                    k + 1
                };
                assert(list[m] == t);
            }
            assert(list[i] == key);
        }
        assert(list.to_set() =~= set);
        list
    }
}

/// The keys of a map with finitely many are listed once each, in ascending order.
pub proof fn lemma_keys_of<T>(m: Map<Seq<char>, T>)
    requires
        m.dom().finite(),
    ensures
        ascending(ascending_keys(m)),
        ascending_keys(m).to_set() == m.dom(),
{
    let list = lemma_can_ascend(m.dom());
    assert(ascending(list) && list.to_set() == m.dom());
}

/// Texts are sorted into the list that holds each of them once, and each before all that follow
/// it in the order of texts; so two lists are sorted alike exactly where they hold the same texts.
pub proof fn law_sorted_sets(a: &Vec<String>, b: &Vec<String>, x: Vec<String>, y: Vec<String>)
    requires
        call_ensures(sorted_set, (a,), x),
        call_ensures(sorted_set, (b,), y),
    ensures
        text::texts(x@).no_duplicates(),
        forall|t: Seq<char>| #[trigger]
            text::texts(x@).contains(t) <==> text::texts(a@).contains(t),
        forall|i: int, j: int|
            0 <= i < j < x@.len() ==> text::text_less(
                #[trigger] text::texts(x@)[i],
                #[trigger] text::texts(x@)[j],
            ),
        text::texts(x@) == text::texts(y@) <==> text::texts(a@).to_set() == text::texts(
            b@,
        ).to_set(),
{
    let s = text::texts(x@);
    lemma_ascending_differ(s);
    assert forall|t: Seq<char>| #[trigger] s.contains(t) <==> text::texts(a@).contains(t) by {
        assert(s.to_set().contains(t) <==> text::texts(a@).to_set().contains(t));
    }
    if text::texts(a@).to_set() == text::texts(b@).to_set() {
        law_ascending_lists_are_unique(s, text::texts(y@));
    }
}

/// A map holds no more than finitely many keys.
pub proof fn lemma_finite_keys<V: View>(m: TextMap<V>)
    ensures
        m@.dom().finite(),
{
    assert(m@.dom() =~= m.keys().to_set());
}

} // verus!

//! Maps and sets keyed by texts.

use vstd::prelude::*;

use crate::text;
use crate::time::Instant;

verus! {

/// The map of a list of pairs; of two pairs with one key the later counts.
pub open spec fn map_of<V>(entries: Seq<(Seq<char>, V)>) -> Map<Seq<char>, V>
    decreases entries.len(),
{
    if entries.len() == 0 {
        Map::empty()
    } else {
        map_of(entries.drop_last()).insert(entries.last().0, entries.last().1)
    }
}

/// Whether no two pairs have the same key.
pub open spec fn keys_distinct<V>(entries: Seq<(Seq<char>, V)>) -> bool {
    forall|i: int, j: int|
        0 <= i < j < entries.len() ==> #[trigger] entries[i].0 != #[trigger] entries[j].0
}

proof fn lemma_distinct_front<V>(entries: Seq<(Seq<char>, V)>)
    requires
        keys_distinct(entries),
        entries.len() > 0,
    ensures
        keys_distinct(entries.drop_last()),
{
    let front = entries.drop_last();
    assert forall|i: int, j: int| 0 <= i < j < front.len() implies #[trigger] front[i].0
        != #[trigger] front[j].0 by {
        assert(entries[i].0 != entries[j].0);
    }
}

proof fn lemma_map_of<V>(entries: Seq<(Seq<char>, V)>, key: Seq<char>)
    requires
        keys_distinct(entries),
    ensures
        forall|i: int|
            0 <= i < entries.len() && #[trigger] entries[i].0 == key ==> map_of(
                entries,
            ).contains_key(key) && map_of(entries)[key] == entries[i].1,
        (forall|i: int| 0 <= i < entries.len() ==> #[trigger] entries[i].0 != key) ==> !map_of(
            entries,
        ).contains_key(key),
    decreases entries.len(),
{
    if entries.len() > 0 {
        let front = entries.drop_last();
        lemma_distinct_front(entries);
        lemma_map_of(front, key);
        assert forall|i: int| 0 <= i < entries.len() && #[trigger] entries[i].0 == key implies map_of(
            entries,
        ).contains_key(key) && map_of(entries)[key] == entries[i].1 by {
            if i < front.len() {
                assert(front[i].0 == key);
                assert(entries[i].0 != entries[entries.len() - 1].0);
            }
        }
        if forall|i: int| 0 <= i < entries.len() ==> #[trigger] entries[i].0 != key {
            assert forall|i: int| 0 <= i < front.len() implies #[trigger] front[i].0 != key by {
                assert(entries[i].0 != key);
            }
            assert(entries[entries.len() - 1].0 != key);
        }
    }
}

proof fn lemma_map_of_update<V>(entries: Seq<(Seq<char>, V)>, i: int, value: V)
    requires
        keys_distinct(entries),
        0 <= i < entries.len(),
    ensures
        map_of(entries.update(i, (entries[i].0, value))) == map_of(entries).insert(
            entries[i].0,
            value,
        ),
    decreases entries.len(),
{
    let key = entries[i].0;
    let front = entries.drop_last();
    let last = entries.last();
    if i == entries.len() - 1 {
        assert(entries.update(i, (key, value)).drop_last() == front);
        assert(map_of(front).insert(key, value) == map_of(front).insert(last.0, last.1).insert(
            key,
            value,
        ));
    } else {
        lemma_distinct_front(entries);
        lemma_map_of_update(front, i, value);
        assert(entries.update(i, (key, value)).drop_last() == front.update(i, (key, value)));
        assert(entries[i].0 != entries[entries.len() - 1].0);
        assert(map_of(front).insert(key, value).insert(last.0, last.1) == map_of(front).insert(
            last.0,
            last.1,
        ).insert(key, value));
    }
}

/// A map from texts; each key occurs once.
#[derive(Debug)]
pub struct TextMap<T: DeepView> {
    entries: Vec<(String, T)>,
}

impl<T: DeepView> View for TextMap<T> {
    type V = Map<Seq<char>, T::V>;

    closed spec fn view(&self) -> Map<Seq<char>, T::V> {
        map_of(self.entries.deep_view())
    }
}

impl<T: DeepView> TextMap<T> {
    #[verifier::type_invariant]
    spec fn inv(self) -> bool {
        keys_distinct(self.entries.deep_view())
    }

    /// The empty map.
    pub fn new() -> (r: Self)
        ensures
            r@ == Map::<Seq<char>, T::V>::empty(),
    {
        TextMap { entries: Vec::new() }
    }

    /// The position of a key, or the number of entries.
    fn position(&self, key: &str) -> (r: usize)
        ensures
            r <= self.entries@.len(),
            r < self.entries@.len() ==> self.entries.deep_view()[r as int].0 == key@,
            r == self.entries@.len() ==> forall|i: int|
                0 <= i < self.entries@.len() ==> #[trigger] self.entries.deep_view()[i].0 != key@,
    {
        let ghost all = self.entries.deep_view();
        let mut i: usize = 0;
        while i < self.entries.len()
            invariant
                i <= self.entries@.len(),
                all == self.entries.deep_view(),
                forall|j: int| 0 <= j < i ==> #[trigger] all[j].0 != key@,
            decreases self.entries.len() - i,
        {
            assert(all[i as int] == self.entries@[i as int].deep_view());
            if text::same(self.entries[i].0.as_str(), key) {
                return i;
            }
            i += 1;
        }
        i
    }

    /// The value under a key.
    pub fn get(&self, key: &str) -> (r: Option<&T>)
        ensures
            r.deep_view() == if self@.contains_key(key@) {
                Some(self@[key@])
            } else {
                None
            },
    {
        proof {
            use_type_invariant(self);
            lemma_map_of(self.entries.deep_view(), key@);
        }
        let i = self.position(key);
        if i < self.entries.len() {
            assert(self.entries.deep_view()[i as int] == self.entries@[i as int].deep_view());
            Some(&self.entries[i].1)
        } else {
            None
        }
    }

    /// Sets the value under a key.
    pub fn insert(&mut self, key: String, value: T)
        ensures
            final(self)@ == old(self)@.insert(key@, value.deep_view()),
    {
        proof {
            use_type_invariant(&*self);
        }
        let i = self.position(key.as_str());
        let mut entries: Vec<(String, T)> = Vec::new();
        std::mem::swap(&mut entries, &mut self.entries);
        let ghost before = entries.deep_view();
        if i < entries.len() {
            proof {
                lemma_map_of_update(before, i as int, value.deep_view());
            }
            entries.set(i, (key, value));
            assert(entries.deep_view() == before.update(i as int, (key@, value.deep_view())));
        } else {
            entries.push((key, value));
            assert(entries.deep_view() == before.push((key@, value.deep_view())));
            assert(entries.deep_view().drop_last() == before);
        }
        self.entries = entries;
    }

    /// The number of entries.
    pub fn len(&self) -> (r: usize)
        ensures
            r == self.entries_view().len(),
    {
        self.entries.len()
    }

    /// The entries, in the order in which they came in.
    pub closed spec fn entries_view(&self) -> Seq<(Seq<char>, T::V)> {
        self.entries.deep_view()
    }

    /// The map is that of its entries.
    pub proof fn lemma_entries(&self)
        ensures
            self@ == map_of(self.entries_view()),
    {
    }

    /// The entry at a position.
    pub fn entry(&self, i: usize) -> (r: (&str, &T))
        requires
            i < self.entries_view().len(),
        ensures
            r.0@ == self.entries_view()[i as int].0,
            r.1.deep_view() == self.entries_view()[i as int].1,
    {
        assert(self.entries.deep_view()[i as int] == self.entries@[i as int].deep_view());
        (self.entries[i].0.as_str(), &self.entries[i].1)
    }
}

/// The entries of a map that are later than an instant or whose keys are to stay.
pub open spec fn later_or_in(
    m: Map<Seq<char>, Instant>,
    cutoff: Instant,
    stay: Set<Seq<char>>,
) -> Map<Seq<char>, Instant> {
    Map::new(
        |k: Seq<char>| m.contains_key(k) && (cutoff.before(m[k]) || stay.contains(k)),
        |k: Seq<char>| m[k],
    )
}

impl TextMap<Instant> {
    /// Drops the entries that are not later than an instant, but for the keys that
    /// are to stay.
    pub fn retain_later(&mut self, cutoff: Instant, stay: &TextSet)
        ensures
            final(self)@ == later_or_in(old(self)@, cutoff, stay@),
    {
        proof {
            use_type_invariant(&*self);
        }
        let mut entries: Vec<(String, Instant)> = Vec::new();
        std::mem::swap(&mut entries, &mut self.entries);
        let ghost all = entries.deep_view();
        let mut kept: Vec<(String, Instant)> = Vec::new();
        assert(map_of(kept.deep_view()) =~= later_or_in(map_of(all.take(0)), cutoff, stay@));
        let mut i: usize = 0;
        while i < entries.len()
            invariant
                i <= entries@.len(),
                all == entries.deep_view(),
                keys_distinct(all),
                keys_distinct(kept.deep_view()),
                forall|j: int|
                    0 <= j < kept@.len() ==> exists|m: int|
                        0 <= m < i && #[trigger] all[m].0 == #[trigger] kept.deep_view()[j].0,
                map_of(kept.deep_view()) == later_or_in(
                    map_of(all.take(i as int)),
                    cutoff,
                    stay@,
                ),
            decreases entries.len() - i,
        {
            let ghost before = kept.deep_view();
            let ghost front = all.take(i as int);
            let ghost (k, v) = all[i as int];
            assert((k, v) == entries@[i as int].deep_view());
            assert(all.take(i + 1).drop_last() == front);
            assert(all.take(i + 1).last() == (k, v));
            assert(!map_of(front).contains_key(k)) by {
                assert forall|a: int, b: int| 0 <= a < b < front.len() implies #[trigger] front[a].0
                    != #[trigger] front[b].0 by {
                    assert(all[a].0 != all[b].0);
                }
                assert forall|a: int| 0 <= a < front.len() implies #[trigger] front[a].0 != k by {
                    assert(all[a].0 != all[i as int].0);
                }
                lemma_map_of(front, k);
            }
            if cutoff.is_before(entries[i].1) || stay.contains(entries[i].0.as_str()) {
                kept.push((entries[i].0.clone(), entries[i].1));
                let ghost after = kept.deep_view();
                assert(after == before.push((k, v)));
                assert(after.drop_last() == before);
                assert forall|a: int, b: int| 0 <= a < b < after.len() implies #[trigger] after[a].0
                    != #[trigger] after[b].0 by {
                    if b == before.len() {
                        let m = choose|m: int| 0 <= m < i && #[trigger] all[m].0 == before[a].0;
                        assert(all[m].0 != all[i as int].0);
                    } else {
                        assert(before[a].0 != before[b].0);
                    }
                }
                assert forall|j: int| 0 <= j < kept@.len() implies exists|m: int|
                    0 <= m < i + 1 && #[trigger] all[m].0 == #[trigger] after[j].0 by {
                    if j < before.len() {
                        let m = choose|m: int| 0 <= m < i && #[trigger] all[m].0 == before[j].0;
                        assert(all[m].0 == after[j].0);
                    } else {
                        assert(all[i as int].0 == after[j].0);
                    }
                }
                assert(map_of(before).insert(k, v) =~= later_or_in(
                    map_of(front).insert(k, v),
                    cutoff,
                    stay@,
                ));
            } else {
                assert(map_of(before) =~= later_or_in(
                    map_of(front).insert(k, v),
                    cutoff,
                    stay@,
                ));
            }
            i += 1;
        }
        assert(all.take(i as int) == all);
        self.entries = kept;
    }
}

/// A set of texts; each occurs once.
#[derive(Debug)]
pub struct TextSet {
    items: Vec<String>,
}

impl View for TextSet {
    type V = Set<Seq<char>>;

    closed spec fn view(&self) -> Set<Seq<char>> {
        self.items.deep_view().to_set()
    }
}

impl TextSet {
    /// The empty set.
    pub fn new() -> (r: Self)
        ensures
            r@ == Set::<Seq<char>>::empty(),
    {
        let r = TextSet { items: Vec::new() };
        assert(r@ =~= Set::<Seq<char>>::empty());
        r
    }

    /// Whether the set holds a text.
    pub fn contains(&self, item: &str) -> (r: bool)
        ensures
            r == self@.contains(item@),
    {
        text::holds(&self.items, item)
    }

    /// Adds a text; says whether it was new.
    pub fn insert(&mut self, item: String) -> (r: bool)
        ensures
            r == !old(self)@.contains(item@),
            final(self)@ == old(self)@.insert(item@),
    {
        let ghost before = self.items.deep_view();
        if text::holds(&self.items, item.as_str()) {
            assert(self@ =~= old(self)@.insert(item@));
            return false;
        }
        self.items.push(item);
        let ghost after = self.items.deep_view();
        assert(after == before.push(item@));
        assert(self@ =~= old(self)@.insert(item@)) by {
            assert forall|s: Seq<char>| after.contains(s) <==> before.contains(s) || s == item@ by {
                if before.contains(s) {
                    let k = choose|k: int| 0 <= k < before.len() && before[k] == s;
                    assert(after[k] == s);
                }
                assert(after[before.len() as int] == item@);
                if after.contains(s) && s != item@ {
                    let k = choose|k: int| 0 <= k < after.len() && after[k] == s;
                    assert(before[k] == s);
                }
            }
        }
        true
    }

    /// The texts, in the order in which they came in.
    pub fn items(&self) -> (r: &Vec<String>)
        ensures
            r.deep_view().to_set() == self@,
    {
        &self.items
    }
}

} // verus!

//! Named values, as a configuration file holds them.
use vstd::prelude::*;

use crate::text::same_text;

verus! {

/// Types with an exact copy.
pub trait Duplicate: DeepView + Sized {
    /// A copy that holds the same.
    fn duplicate(&self) -> (r: Self)
        ensures
            r.deep_view() == self.deep_view(),
    ;
}

impl Duplicate for String {
    fn duplicate(&self) -> (r: Self) {
        self.clone()
    }
}

/// Values by name. A table that its own methods made has every name once; of two
/// values of one name the later would count.
#[derive(Debug, PartialEq)]
pub struct Table<T> {
    pub entries: Vec<(String, T)>,
}

/// The map that a list of named values stands for.
pub open spec fn map_of<V>(entries: Seq<(Seq<char>, V)>) -> Map<Seq<char>, V>
    decreases entries.len(),
{
    if entries.len() == 0 {
        Map::empty()
    } else {
        map_of(entries.drop_last()).insert(entries.last().0, entries.last().1)
    }
}

impl<T: DeepView> DeepView for Table<T> {
    type V = Map<Seq<char>, T::V>;

    open spec fn deep_view(&self) -> Map<Seq<char>, T::V> {
        map_of(self.entries.deep_view())
    }
}

/// Whether no name is given twice.
pub open spec fn distinct_names<V>(entries: Seq<(Seq<char>, V)>) -> bool {
    forall|i: int, j: int|
        0 <= i < j < entries.len() ==> (#[trigger] entries[i]).0 != (#[trigger] entries[j]).0
}

impl<T: DeepView> Table<T> {
    /// Whether no name is given twice.
    pub open spec fn distinct(&self) -> bool {
        distinct_names(self.entries.deep_view())
    }
}

/// With distinct names every entry is the value of its name.
pub proof fn lemma_distinct_lookup<V>(entries: Seq<(Seq<char>, V)>, at: int)
    requires
        distinct_names(entries),
        0 <= at < entries.len(),
    ensures
        lookup(map_of(entries), entries[at].0) == Some(entries[at].1),
{
    lemma_lookup_at(entries, entries[at].0, at);
}

/// A name has a value exactly where an entry gives it one.
pub proof fn lemma_named_by_an_entry<V>(entries: Seq<(Seq<char>, V)>, key: Seq<char>)
    ensures
        map_of(entries).contains_key(key) <==> exists|i: int|
            0 <= i < entries.len() && (#[trigger] entries[i]).0 == key,
    decreases entries.len(),
{
    if entries.len() > 0 {
        let head = entries.drop_last();
        lemma_named_by_an_entry(head, key);
        assert(entries[entries.len() - 1].0 == entries.last().0);
        assert(forall|i: int| 0 <= i < head.len() ==> #[trigger] entries[i] == head[i]);
        if exists|i: int| 0 <= i < head.len() && (#[trigger] head[i]).0 == key {
            let i = choose|i: int| 0 <= i < head.len() && (#[trigger] head[i]).0 == key;
            assert(entries[i].0 == key);
        }
    }
}

/// The value of a name in a map.
pub open spec fn lookup<V>(map: Map<Seq<char>, V>, key: Seq<char>) -> Option<V> {
    if map.contains_key(key) {
        Some(map[key])
    } else {
        None
    }
}

proof fn lemma_lookup_at<V>(entries: Seq<(Seq<char>, V)>, key: Seq<char>, at: int)
    requires
        0 <= at < entries.len(),
        entries[at].0 == key,
        forall|i: int| at < i < entries.len() ==> (#[trigger] entries[i]).0 != key,
    ensures
        lookup(map_of(entries), key) == Some(entries[at].1),
    decreases entries.len(),
{
    if at < entries.len() - 1 {
        assert(entries[entries.len() - 1].0 != key);
        lemma_lookup_at(entries.drop_last(), key, at);
    }
}

proof fn lemma_lookup_none<V>(entries: Seq<(Seq<char>, V)>, key: Seq<char>)
    requires
        forall|i: int| 0 <= i < entries.len() ==> (#[trigger] entries[i]).0 != key,
    ensures
        !map_of(entries).contains_key(key),
    decreases entries.len(),
{
    if entries.len() > 0 {
        assert(entries[entries.len() - 1].0 != key);
        lemma_lookup_none(entries.drop_last(), key);
    }
}

proof fn lemma_replace<V>(entries: Seq<(Seq<char>, V)>, at: int, value: V)
    requires
        0 <= at < entries.len(),
        forall|i: int| at < i < entries.len() ==> (#[trigger] entries[i]).0 != entries[at].0,
    ensures
        map_of(entries.update(at, (entries[at].0, value))) == map_of(entries).insert(
            entries[at].0,
            value,
        ),
    decreases entries.len(),
{
    let key = entries[at].0;
    let updated = entries.update(at, (key, value));
    if at == entries.len() - 1 {
        assert(updated.drop_last() =~= entries.drop_last());
        assert(map_of(updated) =~= map_of(entries).insert(key, value));
    } else {
        assert(entries[entries.len() - 1].0 != key);
        lemma_replace(entries.drop_last(), at, value);
        assert(updated.drop_last() =~= entries.drop_last().update(at, (key, value)));
        assert(map_of(updated) =~= map_of(entries).insert(key, value));
    }
}

impl<T: DeepView> Table<T> {
    /// A table without entries.
    pub fn new() -> (r: Self)
        ensures
            r.deep_view() == Map::<Seq<char>, T::V>::empty(),
            r.entries@.len() == 0,
            r.distinct(),
    {
        let entries: Vec<(String, T)> = Vec::new();
        assert(entries.deep_view() =~= Seq::empty());
        Table { entries }
    }

    /// Position of the entry that counts for `key`, or the number of entries.
    fn position(&self, key: &str) -> (r: usize)
        ensures
            r <= self.entries@.len(),
            r < self.entries@.len() ==> self.entries@[r as int].0@ == key@ && forall|i: int|
                r < i < self.entries@.len() ==> (#[trigger] self.entries.deep_view()[i]).0 != key@,
            r == self.entries@.len() ==> forall|i: int|
                0 <= i < self.entries@.len() ==> (#[trigger] self.entries.deep_view()[i]).0 != key@,
    {
        let ghost views = self.entries.deep_view();
        let mut n: usize = self.entries.len();
        while n > 0
            invariant
                n <= self.entries.len(),
                views == self.entries.deep_view(),
                forall|i: int| n <= i < views.len() ==> (#[trigger] views[i]).0 != key@,
            decreases n,
        {
            assert(views[n - 1].0 == self.entries@[n - 1].0@);
            if same_text(self.entries[n - 1].0.as_str(), key) {
                return n - 1;
            }
            n -= 1;
        }
        self.entries.len()
    }

    /// The value of a name.
    pub fn get(&self, key: &str) -> (r: Option<&T>)
        ensures
            r is Some <==> self.deep_view().contains_key(key@),
            r matches Some(value) ==> value.deep_view() == self.deep_view()[key@],
    {
        let at: usize = self.position(key);
        if at == self.entries.len() {
            proof {
                lemma_lookup_none(self.entries.deep_view(), key@);
            }
            return None;
        }
        proof {
            assert(self.entries.deep_view()[at as int].0 == key@);
            lemma_lookup_at(self.entries.deep_view(), key@, at as int);
        }
        Some(&self.entries[at].1)
    }

    /// Give a name a value; an earlier value of the name is replaced.
    pub fn insert(&mut self, key: String, value: T)
        ensures
            final(self).deep_view() == old(self).deep_view().insert(key@, value.deep_view()),
            old(self).distinct() ==> final(self).distinct(),
    {
        let ghost before = self.entries.deep_view();
        let at: usize = self.position(key.as_str());
        if at == self.entries.len() {
            self.entries.push((key, value));
            let ghost after = self.entries.deep_view();
            assert(after.drop_last() =~= before);
            assert(after.last() == (key@, value.deep_view()));
            assert(forall|i: int| 0 <= i < before.len() ==> #[trigger] after[i] == before[i]);
        } else {
            proof {
                assert(before[at as int].0 == key@);
                lemma_replace(before, at as int, value.deep_view());
            }
            self.entries.set(at, (key, value));
            assert(self.entries.deep_view() =~= before.update(
                at as int,
                (key@, value.deep_view()),
            ));
        }
    }
}

impl<T: Duplicate> Table<T> {
    /// A copy that holds the same.
    pub fn copy(&self) -> (r: Self)
        ensures
            r.deep_view() == self.deep_view(),
            r.entries.deep_view() == self.entries.deep_view(),
            self.distinct() ==> r.distinct(),
    {
        let mut out: Vec<(String, T)> = Vec::new();
        let mut i: usize = 0;
        while i < self.entries.len()
            invariant
                i <= self.entries.len(),
                out@.len() == i,
                forall|j: int|
                    0 <= j < i ==> (#[trigger] out@[j]).deep_view()
                        == self.entries@[j].deep_view(),
            decreases self.entries.len() - i,
        {
            out.push((self.entries[i].0.clone(), self.entries[i].1.duplicate()));
            i += 1;
        }
        assert(out.deep_view() =~= self.entries.deep_view());
        Table { entries: out }
    }

    /// Take over all values of another table; its values replace those of the
    /// same name.
    pub fn extend(&mut self, other: &Table<T>)
        ensures
            final(self).deep_view() == old(self).deep_view().union_prefer_right(other.deep_view()),
            old(self).distinct() ==> final(self).distinct(),
    {
        let ghost before = self.deep_view();
        let ghost distinct = self.distinct();
        let ghost views = other.entries.deep_view();
        let mut i: usize = 0;
        assert(before.union_prefer_right(map_of(views.take(0))) =~= before);
        while i < other.entries.len()
            invariant
                i <= other.entries.len(),
                views == other.entries.deep_view(),
                self.deep_view() == before.union_prefer_right(map_of(views.take(i as int))),
                distinct ==> self.distinct(),
            decreases other.entries.len() - i,
        {
            self.insert(other.entries[i].0.clone(), other.entries[i].1.duplicate());
            proof {
                let head = views.take(i + 1);
                assert(head.drop_last() =~= views.take(i as int));
                assert(head.last() == other.entries@[i as int].deep_view());
                assert(self.deep_view() =~= before.union_prefer_right(map_of(head)));
            }
            i += 1;
        }
        assert(views.take(views.len() as int) =~= views);
    }
}

} // verus!

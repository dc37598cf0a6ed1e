//! A small map from names (strings) to values, kept as a list of distinct keys.

use vstd::prelude::*;

verus! {

/// A map from names to values. Each name occurs at most once.
#[derive(Debug)]
pub struct NameMap<V> {
    entries: Vec<(String, V)>,
}

/// The map that a list of (name, value) entries stands for.
pub open spec fn entries_map<V>(entries: Seq<(String, V)>) -> Map<Seq<char>, V>
    decreases entries.len(),
{
    if entries.len() == 0 {
        Map::empty()
    } else {
        entries_map(entries.drop_last()).insert(entries.last().0@, entries.last().1)
    }
}

/// No name occurs twice in `entries`.
pub open spec fn distinct_names<V>(entries: Seq<(String, V)>) -> bool {
    forall|i: int, j: int| 0 <= i < j < entries.len() ==> entries[i].0@ != entries[j].0@
}

proof fn lemma_entries_map<V>(entries: Seq<(String, V)>)
    requires
        distinct_names(entries),
    ensures
        forall|i: int|
            0 <= i < entries.len() ==> #[trigger] entries_map(entries).contains_key(entries[i].0@)
                && entries_map(entries)[entries[i].0@] == entries[i].1,
        forall|k: Seq<char>|
            entries_map(entries).contains_key(k) ==> exists|i: int|
                0 <= i < entries.len() && #[trigger] entries[i].0@ == k,
    decreases entries.len(),
{
    if entries.len() > 0 {
        let init = entries.drop_last();
        let last = entries.last();
        assert(distinct_names(init)) by {
            assert forall|i: int, j: int| 0 <= i < j < init.len() implies init[i].0@ != init[j].0@ by {
                assert(init[i] == entries[i] && init[j] == entries[j]);
            }
        }
        lemma_entries_map(init);
        assert forall|i: int| 0 <= i < entries.len() implies #[trigger] entries_map(
            entries,
        ).contains_key(entries[i].0@) && entries_map(entries)[entries[i].0@] == entries[i].1 by {
            if i < entries.len() - 1 {
                assert(init[i] == entries[i]);
                assert(entries[i].0@ != entries[entries.len() - 1].0@);
                assert(init.len() == entries.len() - 1);
                assert(entries_map(init).contains_key(init[i].0@));
            }
        }
        assert forall|k: Seq<char>| entries_map(entries).contains_key(k) implies exists|i: int|
            0 <= i < entries.len() && #[trigger] entries[i].0@ == k by {
            if k != last.0@ {
                assert(entries_map(init).contains_key(k));
                let i = choose|i: int| 0 <= i < init.len() && #[trigger] init[i].0@ == k;
                assert(entries[i] == init[i]);
            } else {
                assert(entries[entries.len() - 1].0@ == k);
            }
        }
    }
}

impl<V> NameMap<V> {
    /// The mathematical map this stands for.
    pub closed spec fn map(&self) -> Map<Seq<char>, V> {
        entries_map(self.entries@)
    }

    /// The entries are keyed by distinct names.
    pub closed spec fn wf(&self) -> bool {
        distinct_names(self.entries@)
    }

    /// The number of names in the map.
    pub closed spec fn size(&self) -> nat {
        self.entries@.len()
    }

    /// An empty map.
    pub fn new() -> (res: Self)
        ensures
            res.wf(),
            res.map() == Map::<Seq<char>, V>::empty(),
    {
        NameMap { entries: Vec::new() }
    }

    fn find(&self, name: &[char]) -> (res: Option<usize>)
        requires
            self.wf(),
        ensures
            match res {
                Some(i) => i < self.entries@.len() && self.entries@[i as int].0@ == name@,
                None => !self.map().contains_key(name@),
            },
    {
        let mut i: usize = 0;
        while i < self.entries.len()
            invariant
                i <= self.entries@.len(),
                forall|j: int| 0 <= j < i ==> self.entries@[j].0@ != name@,
            decreases self.entries@.len() - i,
        {
            if crate::text::chars_equal_str(name, self.entries[i].0.as_str()) {
                return Some(i);
            }
            i = i + 1;
        }
        proof {
            lemma_entries_map(self.entries@);
        }
        None
    }

    /// Whether `name` is in the map.
    pub fn contains(&self, name: &[char]) -> (res: bool)
        requires
            self.wf(),
        ensures
            res == self.map().contains_key(name@),
    {
        proof {
            lemma_entries_map(self.entries@);
        }
        self.find(name).is_some()
    }

    /// The value stored for `name`, if any.
    pub fn get(&self, name: &[char]) -> (res: Option<&V>)
        requires
            self.wf(),
        ensures
            match res {
                Some(v) => self.map().contains_key(name@) && *v == self.map()[name@],
                None => !self.map().contains_key(name@),
            },
    {
        proof {
            lemma_entries_map(self.entries@);
        }
        match self.find(name) {
            Some(i) => {
                assert(entries_map(self.entries@).contains_key(self.entries@[i as int].0@));
                Some(&self.entries[i].1)
            },
            None => None,
        }
    }

    /// Removes `name` from the map, if present.
    pub fn remove(&mut self, name: &[char])
        requires
            old(self).wf(),
        ensures
            final(self).wf(),
            final(self).map() == old(self).map().remove(name@),
    {
        proof {
            lemma_entries_map(self.entries@);
        }
        let ghost old_entries = self.entries@;
        match self.find(name) {
            Some(i) => {
                self.entries.remove(i);
                proof {
                    assert(distinct_names(self.entries@)) by {
                        assert forall|x: int, y: int|
                            0 <= x < y < self.entries@.len() implies self.entries@[x].0@
                            != self.entries@[y].0@ by {
                            let ox = if x < i { x } else { x + 1 };
                            let oy = if y < i { y } else { y + 1 };
                            assert(self.entries@[x] == old_entries[ox]);
                            assert(self.entries@[y] == old_entries[oy]);
                        }
                    }
                    lemma_entries_map(self.entries@);
                    let new_map = old(self).map().remove(name@);
                    assert forall|k: Seq<char>| #[trigger]
                        self.map().contains_key(k) implies new_map.contains_key(k)
                        && self.map()[k] == new_map[k] by {
                        let j = choose|j: int|
                            0 <= j < self.entries@.len() && #[trigger] self.entries@[j].0@ == k;
                        let oj = if j < i { j } else { j + 1 };
                        assert(self.entries@[j] == old_entries[oj]);
                        assert(old(self).map().contains_key(old_entries[oj].0@));
                        assert(oj != i as int);
                    }
                    assert forall|k: Seq<char>| #[trigger]
                        new_map.contains_key(k) implies self.map().contains_key(k) by {
                        let oj = choose|j: int|
                            0 <= j < old_entries.len() && #[trigger] old_entries[j].0@ == k;
                        assert(oj != i as int);
                        let j = if oj < i { oj } else { oj - 1 };
                        assert(self.entries@[j] == old_entries[oj]);
                    }
                    assert(self.map() =~= new_map);
                }
            },
            None => {
                assert(self.map() =~= old(self).map().remove(name@));
            },
        }
    }

    /// Stores `value` for `name`, replacing any earlier value. Returns whether
    /// `name` was already present.
    pub fn insert(&mut self, name: &[char], value: V) -> (res: bool)
        requires
            old(self).wf(),
        ensures
            final(self).wf(),
            final(self).map() == old(self).map().insert(name@, value),
            res == old(self).map().contains_key(name@),
            final(self).size() == old(self).size() + (if res { 0int } else { 1int }),
    {
        proof {
            lemma_entries_map(self.entries@);
        }
        let ghost old_entries = self.entries@;
        match self.find(name) {
            Some(i) => {
                let key = crate::text::string_from(name);
                self.entries.set(i, (key, value));
                proof {
                    assert(distinct_names(self.entries@)) by {
                        assert forall|x: int, y: int|
                            0 <= x < y < self.entries@.len() implies self.entries@[x].0@
                            != self.entries@[y].0@ by {
                            if x != i as int {
                                assert(self.entries@[x] == old_entries[x]);
                            }
                            if y != i as int {
                                assert(self.entries@[y] == old_entries[y]);
                            }
                        }
                    }
                    lemma_entries_map(self.entries@);
                    lemma_entries_map(old_entries);
                    let new_map = old(self).map().insert(name@, value);
                    assert forall|k: Seq<char>| #[trigger]
                        self.map().contains_key(k) implies new_map.contains_key(k)
                        && self.map()[k] == new_map[k] by {
                        let j = choose|j: int|
                            0 <= j < self.entries@.len() && #[trigger] self.entries@[j].0@ == k;
                        if j != i as int {
                            assert(old_entries[j] == self.entries@[j]);
                            assert(old(self).map().contains_key(old_entries[j].0@));
                        }
                    }
                    assert forall|k: Seq<char>| #[trigger]
                        new_map.contains_key(k) implies self.map().contains_key(k) by {
                        if k != name@ {
                            let j = choose|j: int|
                                0 <= j < old_entries.len() && #[trigger] old_entries[j].0@ == k;
                            assert(old_entries[j] == self.entries@[j]);
                        } else {
                            assert(self.entries@[i as int].0@ == k);
                        }
                    }
                    assert(self.map() =~= new_map);
                }
                true
            },
            None => {
                let key = crate::text::string_from(name);
                self.entries.push((key, value));
                proof {
                    assert(self.entries@.drop_last() =~= old_entries);
                }
                false
            },
        }
    }
}

} // verus!

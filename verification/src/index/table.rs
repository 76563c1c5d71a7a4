//! A map from texts to values that can be walked in the order its keys came in.
use crate::text::same_text;
use vstd::prelude::*;

verus! {

/// Values by key, each key once, in the order the keys came in.
#[derive(Debug, Clone)]
pub struct Table<V> {
    pub entries: Vec<(String, V)>,
}

/// The keys of some entries.
pub open spec fn entry_keys<V>(entries: Seq<(String, V)>) -> Seq<Seq<char>> {
    entries.map_values(|e: (String, V)| e.0@)
}

/// The map that some entries stand for.
pub open spec fn entry_map<V>(entries: Seq<(String, V)>) -> Map<Seq<char>, V>
    decreases entries.len(),
{
    if entries.len() == 0 {
        Map::empty()
    } else {
        entry_map(entries.drop_last()).insert(entries.last().0@, entries.last().1)
    }
}

impl<V> View for Table<V> {
    type V = Map<Seq<char>, V>;

    open spec fn view(&self) -> Map<Seq<char>, V> {
        entry_map(self.entries@)
    }
}

/// The map of some entries, place by place.
pub proof fn lemma_entry_map<V>(entries: Seq<(String, V)>)
    requires
        entry_keys(entries).no_duplicates(),
    ensures
        forall|k: Seq<char>| #[trigger]
            entry_map(entries).contains_key(k) <==> entry_keys(entries).contains(k),
        forall|i: int|
            0 <= i < entries.len() ==> entry_map(entries).contains_key((#[trigger] entries[i]).0@)
                && entry_map(entries)[entries[i].0@] == entries[i].1,
        entry_map(entries).dom().finite(),
        entry_map(entries).dom().len() == entries.len(),
    decreases entries.len(),
{
    if entries.len() > 0 {
        let t = entries.drop_last();
        let keys = entry_keys(entries);
        let tk = entry_keys(t);
        assert(tk =~= keys.drop_last());
        assert(tk.no_duplicates()) by {
            assert forall|i: int, j: int| 0 <= i < tk.len() && 0 <= j < tk.len() && i != j implies tk[i]
                != tk[j] by {
                assert(keys[i] != keys[j]);
            }
        }
        lemma_entry_map(t);
        let last = entries.last();
        assert(keys[keys.len() - 1] == last.0@);
        assert forall|k: Seq<char>| #[trigger] entry_map(entries).contains_key(k)
            <==> keys.contains(k) by {
            assert(entry_map(t).contains_key(k) <==> tk.contains(k));
            if keys.contains(k) {
                let i = choose|i: int| 0 <= i < keys.len() && keys[i] == k;
                if i < tk.len() {
                    assert(tk[i] == k);
                }
            }
            if tk.contains(k) {
                let i = choose|i: int| 0 <= i < tk.len() && tk[i] == k;
                assert(keys[i] == k);
            }
        }
        assert forall|i: int| 0 <= i < entries.len() implies entry_map(entries).contains_key(
            (#[trigger] entries[i]).0@,
        ) && entry_map(entries)[entries[i].0@] == entries[i].1 by {
            if i < t.len() {
                assert(t[i] == entries[i]);
                assert(keys[i] != keys[keys.len() - 1]);
            }
        }
        assert(!entry_map(t).contains_key(last.0@)) by {
            if tk.contains(last.0@) {
                let i = choose|i: int| 0 <= i < tk.len() && tk[i] == last.0@;
                assert(keys[i] != keys[keys.len() - 1]);
            }
        }
        assert(entry_map(entries).dom() =~= entry_map(t).dom().insert(last.0@));
    } else {
        assert(entry_map(entries).dom() =~= Set::empty());
    }
}

/// Two tables of entries hold the same map where they hold the same keys with the same values.
proof fn lemma_same_map<V>(entries: Seq<(String, V)>, m: Map<Seq<char>, V>)
    requires
        entry_keys(entries).no_duplicates(),
        forall|k: Seq<char>| #[trigger] m.contains_key(k) ==> entry_keys(entries).contains(k),
        forall|i: int|
            0 <= i < entries.len() ==> m.contains_key((#[trigger] entries[i]).0@)
                && m[entries[i].0@] == entries[i].1,
    ensures
        entry_map(entries) == m,
{
    lemma_entry_map(entries);
    let keys = entry_keys(entries);
    assert forall|k: Seq<char>| entry_map(entries).contains_key(k) <==> m.contains_key(k) by {
        if keys.contains(k) {
            let i = choose|i: int| 0 <= i < keys.len() && keys[i] == k;
            assert(entries[i].0@ == k);
        }
    }
    assert forall|k: Seq<char>| entry_map(entries).contains_key(k) implies entry_map(entries)[k]
        == m[k] by {
        let i = choose|i: int| 0 <= i < keys.len() && keys[i] == k;
        assert(entries[i].0@ == k);
    }
    assert(entry_map(entries) =~= m);
}

impl<V> Table<V> {
    /// Each key occurs once.
    pub open spec fn wf(&self) -> bool {
        entry_keys(self.entries@).no_duplicates()
    }

    /// A table without entries.
    pub fn new() -> (r: Table<V>)
        ensures
            r.wf(),
            r@ == Map::<Seq<char>, V>::empty(),
    {
        Table { entries: Vec::new() }
    }

    /// How many keys there are.
    pub fn len(&self) -> (r: usize)
        requires
            self.wf(),
        ensures
            r == self.entries@.len(),
            r == self@.dom().len(),
    {
        proof {
            lemma_entry_map(self.entries@);
        }
        self.entries.len()
    }

    fn position(&self, key: &str) -> (r: Option<usize>)
        ensures
            match r {
                Some(i) => i < self.entries@.len() && self.entries@[i as int].0@ == key@,
                None => !entry_keys(self.entries@).contains(key@),
            },
    {
        let ghost keys = entry_keys(self.entries@);
        let mut i: usize = 0;
        while i < self.entries.len()
            invariant
                i <= self.entries.len(),
                keys == entry_keys(self.entries@),
                forall|k: int| 0 <= k < i ==> keys[k] != key@,
            decreases self.entries.len() - i,
        {
            assert(keys[i as int] == self.entries@[i as int].0@);
            if same_text(self.entries[i].0.as_str(), key) {
                return Some(i);
            }
            i += 1;
        }
        None
    }

    /// The value under a key.
    pub fn get(&self, key: &str) -> (r: Option<&V>)
        requires
            self.wf(),
        ensures
            match r {
                Some(v) => self@.contains_key(key@) && self@[key@] == *v,
                None => !self@.contains_key(key@),
            },
    {
        proof {
            lemma_entry_map(self.entries@);
        }
        match self.position(key) {
            Some(i) => Some(&self.entries[i].1),
            None => None,
        }
    }

    /// Whether there is a value under a key.
    pub fn contains_key(&self, key: &str) -> (r: bool)
        requires
            self.wf(),
        ensures
            r == self@.contains_key(key@),
    {
        self.get(key).is_some()
    }

    /// Sets the value under a key, whether or not there was one.
    pub fn insert(&mut self, key: String, value: V)
        requires
            old(self).wf(),
        ensures
            final(self).wf(),
            final(self)@ == old(self)@.insert(key@, value),
    {
        let ghost before = self.entries@;
        let ghost keys = entry_keys(before);
        let ghost m = entry_map(before).insert(key@, value);
        proof {
            lemma_entry_map(before);
        }
        match self.position(key.as_str()) {
            Some(i) => {
                let ghost at = i as int;
                let ghost new = (key, value);
                self.entries.set(i, (key, value));
                proof {
                    let after = self.entries@;
                    assert(after =~= before.update(at, new));
                    assert(entry_keys(after) =~= keys);
                    assert forall|k: Seq<char>| #[trigger] m.contains_key(k) implies entry_keys(
                        after,
                    ).contains(k) by {
                        if k == new.0@ {
                            assert(keys[at] == k);
                        } else {
                            assert(entry_map(before).contains_key(k));
                        }
                    }
                    assert forall|j: int| 0 <= j < after.len() implies m.contains_key(
                        (#[trigger] after[j]).0@,
                    ) && m[after[j].0@] == after[j].1 by {
                        if j != at {
                            assert(after[j] == before[j]);
                            assert(keys[j] != keys[at]);
                        }
                    }
                    lemma_same_map(after, m);
                }
            },
            None => {
                let ghost new = (key, value);
                self.entries.push((key, value));
                proof {
                    let after = self.entries@;
                    assert(after =~= before.push(new));
                    assert(after.drop_last() =~= before);
                    assert(entry_keys(after) =~= keys.push(new.0@));
                    assert(entry_keys(after).no_duplicates()) by {
                        let ks = entry_keys(after);
                        assert forall|i: int, j: int|
                            0 <= i < ks.len() && 0 <= j < ks.len() && i != j implies ks[i]
                            != ks[j] by {
                            if i < keys.len() && j < keys.len() {
                                assert(keys[i] != keys[j]);
                            } else if i < keys.len() {
                                assert(keys.contains(keys[i]));
                            } else {
                                assert(keys.contains(keys[j]));
                            }
                        }
                    }
                }
            },
        }
    }

    /// Removes a key and its value.
    pub fn remove(&mut self, key: &str)
        requires
            old(self).wf(),
        ensures
            final(self).wf(),
            final(self)@ == old(self)@.remove(key@),
    {
        let ghost before = self.entries@;
        let ghost keys = entry_keys(before);
        proof {
            lemma_entry_map(before);
        }
        match self.position(key) {
            Some(i) => {
                let ghost at = i as int;
                let _ = self.entries.remove(i);
                proof {
                    let after = self.entries@;
                    let m = entry_map(before).remove(key@);
                    assert(after =~= before.remove(at));
                    let ks = entry_keys(after);
                    assert(ks =~= keys.remove(at));
                    assert forall|i: int, j: int| 0 <= i < ks.len() && 0 <= j < ks.len() && i
                        != j implies ks[i] != ks[j] by {
                        let a = if i < at {
                            i
                        } else {
                            i + 1
                        };
                        let b = if j < at {
                            j
                        } else {
                            j + 1
                        };
                        assert(keys[a] != keys[b]);
                    }
                    assert forall|k: Seq<char>| #[trigger] m.contains_key(k) implies ks.contains(
                        k,
                    ) by {
                        assert(entry_map(before).contains_key(k));
                        let j = choose|j: int| 0 <= j < keys.len() && keys[j] == k;
                        if j < at {
                            assert(ks[j] == k);
                        } else {
                            assert(ks[j - 1] == k);
                        }
                    }
                    assert forall|j: int| 0 <= j < after.len() implies m.contains_key(
                        (#[trigger] after[j]).0@,
                    ) && m[after[j].0@] == after[j].1 by {
                        let b = if j < at {
                            j
                        } else {
                            j + 1
                        };
                        assert(after[j] == before[b]);
                        assert(keys[b] != keys[at]);
                    }
                    lemma_same_map(after, m);
                }
            },
            None => {
                assert(entry_map(before).remove(key@) =~= entry_map(before));
            },
        }
    }
}

} // verus!

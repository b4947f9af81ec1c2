//! A map whose keys are paths: two spellings of one path are the same key.

use vstd::prelude::*;

use crate::path::{parts, same_path, Part};

verus! {

/// A map from paths to values.
#[derive(Debug)]
pub struct PathMap<V> {
    entries: Vec<(String, V)>,
}

/// The map that a list of entries stands for.
pub closed spec fn map_of<V>(entries: Seq<(String, V)>) -> Map<Seq<Part>, V>
    decreases entries.len(),
{
    if entries.len() == 0 {
        Map::empty()
    } else {
        map_of(entries.drop_last()).insert(parts(entries.last().0@), entries.last().1)
    }
}

spec fn distinct<V>(entries: Seq<(String, V)>) -> bool {
    forall|i: int, j: int|
        0 <= i < j < entries.len() ==> parts((#[trigger] entries[i]).0@) != parts(
            (#[trigger] entries[j]).0@,
        )
}

proof fn lemma_distinct_drop_last<V>(entries: Seq<(String, V)>)
    requires
        distinct(entries),
        entries.len() > 0,
    ensures
        distinct(entries.drop_last()),
{
    let init = entries.drop_last();
    assert forall|i: int, j: int| 0 <= i < j < init.len() implies parts((#[trigger] init[i]).0@)
        != parts((#[trigger] init[j]).0@) by {
        assert(init[i] == entries[i] && init[j] == entries[j]);
    }
}

proof fn lemma_map_of_entry<V>(entries: Seq<(String, V)>, i: int)
    requires
        distinct(entries),
        0 <= i < entries.len(),
    ensures
        map_of(entries).contains_key(parts(entries[i].0@)),
        map_of(entries)[parts(entries[i].0@)] == entries[i].1,
    decreases entries.len(),
{
    lemma_distinct_drop_last(entries);
    if i < entries.len() - 1 {
        lemma_map_of_entry(entries.drop_last(), i);
        assert(entries.drop_last()[i] == entries[i]);
        assert(parts(entries[i].0@) != parts(entries[entries.len() - 1].0@));
    }
}

proof fn lemma_map_of_absent<V>(entries: Seq<(String, V)>, key: Seq<Part>)
    requires
        forall|i: int| 0 <= i < entries.len() ==> parts((#[trigger] entries[i]).0@) != key,
    ensures
        !map_of(entries).contains_key(key),
    decreases entries.len(),
{
    if entries.len() > 0 {
        let init = entries.drop_last();
        assert forall|i: int| 0 <= i < init.len() implies parts((#[trigger] init[i]).0@) != key by {
            assert(init[i] == entries[i]);
        }
        lemma_map_of_absent(init, key);
        assert(parts(entries[entries.len() - 1].0@) != key);
    }
}

proof fn lemma_map_of_update<V>(entries: Seq<(String, V)>, i: int, entry: (String, V))
    requires
        distinct(entries),
        0 <= i < entries.len(),
        parts(entry.0@) == parts(entries[i].0@),
    ensures
        distinct(entries.update(i, entry)),
        map_of(entries.update(i, entry)) == map_of(entries).insert(parts(entry.0@), entry.1),
    decreases entries.len(),
{
    let after = entries.update(i, entry);
    assert forall|x: int, y: int| 0 <= x < y < after.len() implies parts((#[trigger] after[x]).0@)
        != parts((#[trigger] after[y]).0@) by {
        assert(parts(after[x].0@) == parts(entries[x].0@));
        assert(parts(after[y].0@) == parts(entries[y].0@));
    }
    lemma_distinct_drop_last(entries);
    if i == entries.len() - 1 {
        assert(after.drop_last() =~= entries.drop_last());
        assert(map_of(after) =~= map_of(entries).insert(parts(entry.0@), entry.1));
    } else {
        assert(after.drop_last() =~= entries.drop_last().update(i, entry));
        lemma_map_of_update(entries.drop_last(), i, entry);
        assert(after.last() == entries.last());
        assert(parts(entries[i].0@) != parts(entries[entries.len() - 1].0@));
        assert(map_of(after) =~= map_of(entries).insert(parts(entry.0@), entry.1));
    }
}

proof fn lemma_map_of_remove<V>(entries: Seq<(String, V)>, i: int)
    requires
        distinct(entries),
        0 <= i < entries.len(),
    ensures
        distinct(entries.remove(i)),
        map_of(entries.remove(i)) == map_of(entries).remove(parts(entries[i].0@)),
    decreases entries.len(),
{
    let after = entries.remove(i);
    let key = parts(entries[i].0@);
    assert forall|x: int, y: int| 0 <= x < y < after.len() implies parts((#[trigger] after[x]).0@)
        != parts((#[trigger] after[y]).0@) by {
        let p = if x < i {
            x
        } else {
            x + 1
        };
        let q = if y < i {
            y
        } else {
            y + 1
        };
        assert(after[x] == entries[p] && after[y] == entries[q]);
    }
    lemma_distinct_drop_last(entries);
    if i == entries.len() - 1 {
        assert(after =~= entries.drop_last());
        assert forall|k: int| 0 <= k < after.len() implies parts((#[trigger] after[k]).0@) != key by {
            assert(after[k] == entries[k]);
        }
        lemma_map_of_absent(after, key);
        assert(map_of(after) =~= map_of(entries).remove(key));
    } else {
        assert(after.drop_last() =~= entries.drop_last().remove(i));
        lemma_map_of_remove(entries.drop_last(), i);
        assert(after.last() == entries.last());
        assert(key != parts(entries[entries.len() - 1].0@));
        assert(map_of(after) =~= map_of(entries).remove(key));
    }
}

impl<V> View for PathMap<V> {
    type V = Map<Seq<Part>, V>;

    closed spec fn view(&self) -> Map<Seq<Part>, V> {
        map_of(self.entries@)
    }
}

impl<V> PathMap<V> {
    #[verifier::type_invariant]
    spec fn well_formed(&self) -> bool {
        distinct(self.entries@)
    }

    /// The empty map.
    pub fn new() -> (r: PathMap<V>)
        ensures
            r@ == Map::<Seq<Part>, V>::empty(),
    {
        PathMap { entries: Vec::new() }
    }

    fn position(&self, path: &str) -> (r: Option<usize>)
        ensures
            match r {
                Some(i) => i < self.entries@.len() && parts(self.entries@[i as int].0@) == parts(
                    path@,
                ),
                None => forall|i: int|
                    0 <= i < self.entries@.len() ==> parts((#[trigger] self.entries@[i]).0@)
                        != parts(path@),
            },
    {
        let mut i: usize = 0;
        while i < self.entries.len()
            invariant
                i <= self.entries@.len(),
                forall|k: int|
                    0 <= k < i ==> parts((#[trigger] self.entries@[k]).0@) != parts(path@),
            decreases self.entries@.len() - i,
        {
            if same_path(self.entries[i].0.as_str(), path) {
                return Some(i);
            }
            i = i + 1;
        }
        None
    }

    /// The value of `path`.
    pub fn get(&self, path: &str) -> (r: Option<&V>)
        ensures
            match r {
                Some(v) => self@.contains_key(parts(path@)) && *v == self@[parts(path@)],
                None => !self@.contains_key(parts(path@)),
            },
    {
        proof {
            use_type_invariant(&*self);
        }
        match self.position(path) {
            Some(i) => {
                proof {
                    lemma_map_of_entry(self.entries@, i as int);
                }
                Some(&self.entries[i].1)
            },
            None => {
                proof {
                    lemma_map_of_absent(self.entries@, parts(path@));
                }
                None
            },
        }
    }

    /// Gives `path` a value.
    pub fn insert(&mut self, path: String, value: V)
        ensures
            final(self)@ == old(self)@.insert(parts(path@), value),
    {
        proof {
            use_type_invariant(&*self);
        }
        let at = self.position(path.as_str());
        let ghost before = self.entries@;
        let mut entries: Vec<(String, V)> = Vec::new();
        std::mem::swap(&mut entries, &mut self.entries);
        match at {
            Some(i) => {
                proof {
                    lemma_map_of_update(before, i as int, (path, value));
                }
                entries[i] = (path, value);
            },
            None => {
                entries.push((path, value));
                proof {
                    assert(entries@.drop_last() =~= before);
                    assert forall|x: int, y: int| 0 <= x < y < entries@.len() implies parts(
                        (#[trigger] entries@[x]).0@,
                    ) != parts((#[trigger] entries@[y]).0@) by {
                        assert(entries@[x] == before[x]);
                        if y < before.len() {
                            assert(entries@[y] == before[y]);
                        }
                    }
                }
            },
        }
        self.entries = entries;
    }

    /// Takes `path` out of the map.
    pub fn remove(&mut self, path: &str)
        ensures
            final(self)@ == old(self)@.remove(parts(path@)),
    {
        proof {
            use_type_invariant(&*self);
        }
        let at = self.position(path);
        let ghost before = self.entries@;
        match at {
            Some(i) => {
                let mut entries: Vec<(String, V)> = Vec::new();
                std::mem::swap(&mut entries, &mut self.entries);
                proof {
                    lemma_map_of_remove(before, i as int);
                }
                entries.remove(i);
                self.entries = entries;
            },
            None => {
                proof {
                    lemma_map_of_absent(before, parts(path@));
                    assert(map_of(before).remove(parts(path@)) =~= map_of(before));
                }
            },
        }
    }
}

/// The entries of `map` whose value is a path other than `path`.
pub open spec fn without_value(map: Map<Seq<Part>, String>, path: Seq<Part>) -> Map<
    Seq<Part>,
    String,
> {
    map.restrict(Set::new(|k: Seq<Part>| map.contains_key(k) && parts(map[k]@) != path))
}

impl PathMap<String> {
    /// Takes out of the map every entry whose value is the path `path`.
    pub fn remove_value(&mut self, path: &str)
        ensures
            final(self)@ == without_value(old(self)@, parts(path@)),
    {
        proof {
            use_type_invariant(&*self);
        }
        let ghost before = self.entries@;
        let ghost gone = parts(path@);
        let mut entries: Vec<(String, String)> = Vec::new();
        std::mem::swap(&mut entries, &mut self.entries);
        let mut out: Vec<(String, String)> = Vec::new();
        let mut i: usize = 0;
        assert(before.take(0) =~= Seq::empty());
        assert(map_of(out@) =~= without_value(map_of(before.take(0)), gone));
        while i < entries.len()
            invariant
                i <= entries@.len(),
                entries@ == before,
                gone == parts(path@),
                distinct(before),
                distinct(out@),
                forall|x: int|
                    0 <= x < out@.len() ==> exists|y: int|
                        0 <= y < i && parts((#[trigger] before[y]).0@) == parts(
                            (#[trigger] out@[x]).0@,
                        ),
                map_of(out@) == without_value(map_of(before.take(i as int)), gone),
            decreases entries@.len() - i,
        {
            let ghost prefix = before.take(i as int);
            let ghost next = before.take(i as int + 1);
            let ghost key = parts(before[i as int].0@);
            assert(next.drop_last() =~= prefix);
            assert(next.last() == before[i as int]);
            proof {
                assert forall|k: int| 0 <= k < prefix.len() implies parts((#[trigger] prefix[k]).0@)
                    != key by {
                    assert(prefix[k] == before[k]);
                }
                lemma_map_of_absent(prefix, key);
            }
            if !same_path(entries[i].1.as_str(), path) {
                let ghost kept = out@;
                out.push((entries[i].0.clone(), entries[i].1.clone()));
                assert(out@.drop_last() =~= kept);
                assert forall|x: int, y: int| 0 <= x < y < out@.len() implies parts(
                    (#[trigger] out@[x]).0@,
                ) != parts((#[trigger] out@[y]).0@) by {
                    assert(out@[x] == kept[x]);
                    if y < kept.len() {
                        assert(out@[y] == kept[y]);
                    } else {
                        let z = choose|z: int|
                            0 <= z < i && parts((#[trigger] before[z]).0@) == parts(kept[x].0@);
                        assert(parts(before[z].0@) != parts(before[i as int].0@));
                    }
                }
                assert forall|x: int| 0 <= x < out@.len() implies exists|y: int|
                    0 <= y < i + 1 && parts((#[trigger] before[y]).0@) == parts(
                        (#[trigger] out@[x]).0@,
                    ) by {
                    if x < kept.len() {
                        assert(out@[x] == kept[x]);
                        let z = choose|z: int|
                            0 <= z < i && parts((#[trigger] before[z]).0@) == parts(kept[x].0@);
                        assert(parts(before[z].0@) == parts(out@[x].0@));
                    } else {
                        assert(parts(before[i as int].0@) == parts(out@[x].0@));
                    }
                }
            }
            assert(map_of(out@) =~= without_value(map_of(next), gone));
            i = i + 1;
        }
        assert(before.take(i as int) =~= before);
        self.entries = out;
    }
}

} // verus!

//! A map from texts to texts that is listed in the order of its keys.

use vstd::prelude::*;

use crate::order::{char_less, lemma_text_order, lex, order_texts, strict_total, Order};

verus! {

/// What a list of pairs says.
pub open spec fn pairs_view(list: Seq<(String, String)>) -> Seq<(Seq<char>, Seq<char>)> {
    list.map_values(|p: (String, String)| (p.0@, p.1@))
}

/// The list has a pair with this key.
pub open spec fn has_key(list: Seq<(Seq<char>, Seq<char>)>, key: Seq<char>) -> bool {
    exists|i: int| 0 <= i < list.len() && (#[trigger] list[i]).0 == key
}

/// The keys are in dictionary order, none of them twice.
pub open spec fn keys_ascending(list: Seq<(Seq<char>, Seq<char>)>) -> bool {
    forall|i: int, j: int|
        0 <= i < j < list.len() ==> lex(char_less())(
            (#[trigger] list[i]).0,
            (#[trigger] list[j]).0,
        )
}

/// The map that a list of pairs makes: of two pairs with the same key, the later
/// one counts.
pub open spec fn pairs_map(list: Seq<(Seq<char>, Seq<char>)>) -> Map<Seq<char>, Seq<char>>
    decreases list.len(),
{
    if list.len() == 0 {
        Map::empty()
    } else {
        pairs_map(list.drop_last()).insert(list.last().0, list.last().1)
    }
}

/// A key is in the map of a list where the list has a pair with it.
pub proof fn lemma_pairs_map_keys(list: Seq<(Seq<char>, Seq<char>)>, key: Seq<char>)
    ensures
        pairs_map(list).contains_key(key) <==> has_key(list, key),
    decreases list.len(),
{
    if list.len() > 0 {
        let init = list.drop_last();
        lemma_pairs_map_keys(init, key);
        if has_key(init, key) {
            let i = choose|i: int| 0 <= i < init.len() && (#[trigger] init[i]).0 == key;
            assert(list[i].0 == key);
        }
        if has_key(list, key) && list.last().0 != key {
            let i = choose|i: int| 0 <= i < list.len() && (#[trigger] list[i]).0 == key;
            assert(init[i].0 == key);
        }
        if list.last().0 == key {
            assert(list[list.len() - 1].0 == key);
        }
    }
}

proof fn lemma_ascending_init(list: Seq<(Seq<char>, Seq<char>)>)
    requires
        keys_ascending(list),
        list.len() > 0,
    ensures
        keys_ascending(list.drop_last()),
        !has_key(list.drop_last(), list.last().0),
{
    let init = list.drop_last();
    lemma_text_order();
    assert forall|i: int, j: int| 0 <= i < j < init.len() implies lex(char_less())(
        (#[trigger] init[i]).0,
        (#[trigger] init[j]).0,
    ) by {
        assert(init[i] == list[i] && init[j] == list[j]);
    }
    if has_key(init, list.last().0) {
        let i = choose|i: int| 0 <= i < init.len() && (#[trigger] init[i]).0 == list.last().0;
        assert(init[i] == list[i]);
        assert(lex(char_less())(list[i].0, list[list.len() - 1].0));
        assert(!lex(char_less())(list[i].0, list[i].0));
    }
}

/// In a list without repeated keys every pair is in the map.
pub proof fn lemma_pairs_map_entry(list: Seq<(Seq<char>, Seq<char>)>, i: int)
    requires
        keys_ascending(list),
        0 <= i < list.len(),
    ensures
        pairs_map(list).contains_key(list[i].0),
        pairs_map(list)[list[i].0] == list[i].1,
    decreases list.len(),
{
    lemma_ascending_init(list);
    if i < list.len() - 1 {
        lemma_pairs_map_entry(list.drop_last(), i);
        assert(list.drop_last()[i] == list[i]);
        assert(has_key(list.drop_last(), list[i].0));
    }
}

/// A map is listed in one way only.
pub proof fn lemma_pairs_unique(a: Seq<(Seq<char>, Seq<char>)>, b: Seq<(Seq<char>, Seq<char>)>)
    requires
        keys_ascending(a),
        keys_ascending(b),
        pairs_map(a) == pairs_map(b),
    ensures
        a == b,
    decreases a.len(),
{
    lemma_text_order();
    let less = lex(char_less());
    if a.len() == 0 {
        if b.len() > 0 {
            lemma_pairs_map_entry(b, 0);
        }
        assert(a =~= b);
    } else {
        let x = a.last();
        lemma_pairs_map_entry(a, a.len() - 1);
        lemma_pairs_map_keys(b, x.0);
        let j = choose|j: int| 0 <= j < b.len() && (#[trigger] b[j]).0 == x.0;
        lemma_pairs_map_entry(b, j);
        let y = b.last();
        lemma_pairs_map_entry(b, b.len() - 1);
        lemma_pairs_map_keys(a, y.0);
        let i = choose|i: int| 0 <= i < a.len() && (#[trigger] a[i]).0 == y.0;
        if j < b.len() - 1 {
            assert(less(b[j].0, b[b.len() - 1].0));
            if i < a.len() - 1 {
                assert(less(a[i].0, a[a.len() - 1].0));
            }
            assert(less(x.0, y.0));
            assert(!less(x.0, x.0));
            assert(false);
        }
        assert(x == y);
        lemma_ascending_init(a);
        lemma_ascending_init(b);
        let p = pairs_map(a.drop_last());
        let q = pairs_map(b.drop_last());
        lemma_pairs_map_keys(a.drop_last(), x.0);
        lemma_pairs_map_keys(b.drop_last(), x.0);
        assert(p =~= pairs_map(a).remove(x.0));
        assert(q =~= pairs_map(b).remove(x.0));
        lemma_pairs_unique(a.drop_last(), b.drop_last());
        assert(a =~= a.drop_last().push(x));
        assert(b =~= b.drop_last().push(y));
    }
}

/// A map from texts to texts.
#[derive(Debug)]
pub struct TextMap {
    entries: Vec<(String, String)>,
}

impl View for TextMap {
    type V = Map<Seq<char>, Seq<char>>;

    closed spec fn view(&self) -> Map<Seq<char>, Seq<char>> {
        pairs_map(pairs_view(self.entries@))
    }
}

impl TextMap {
    /// The pairs are kept in the order of their keys.
    #[verifier::type_invariant]
    pub closed spec fn well_formed(self) -> bool {
        keys_ascending(pairs_view(self.entries@))
    }

    /// The map without entries.
    pub fn new() -> (r: TextMap)
        ensures
            r@ == Map::<Seq<char>, Seq<char>>::empty(),
    {
        let entries: Vec<(String, String)> = Vec::new();
        assert(pairs_view(entries@) =~= Seq::empty());
        TextMap { entries }
    }

    /// The position at which `key` stands or would have to stand, and whether it
    /// stands there.
    fn locate(&self, key: &str) -> (r: (usize, bool))
        ensures
            r.0 <= self.entries@.len(),
            r.1 ==> r.0 < self.entries@.len() && pairs_view(self.entries@)[r.0 as int].0 == key@,
            forall|i: int|
                0 <= i < r.0 ==> lex(char_less())(
                    (#[trigger] pairs_view(self.entries@)[i]).0,
                    key@,
                ),
            !r.1 ==> forall|i: int|
                r.0 <= i < self.entries@.len() ==> lex(char_less())(
                    key@,
                    (#[trigger] pairs_view(self.entries@)[i]).0,
                ),
    {
        proof {
            use_type_invariant(&*self);
            lemma_text_order();
        }
        let ghost all = pairs_view(self.entries@);
        let mut i: usize = 0;
        while i < self.entries.len()
            invariant
                i <= self.entries@.len(),
                all == pairs_view(self.entries@),
                keys_ascending(all),
                strict_total(lex(char_less())),
                forall|k: int| 0 <= k < i ==> lex(char_less())((#[trigger] all[k]).0, key@),
            decreases self.entries@.len() - i,
        {
            assert(all[i as int].0 == self.entries@[i as int].0@);
            match order_texts(self.entries[i].0.as_str(), key) {
                Order::Less => {},
                Order::Equal => {
                    return (i, true);
                },
                Order::Greater => {
                    assert forall|k: int| i <= k < self.entries@.len() implies lex(char_less())(
                        key@,
                        (#[trigger] all[k]).0,
                    ) by {
                        if k > i {
                            assert(lex(char_less())(all[i as int].0, all[k].0));
                        }
                    }
                    return (i, false);
                },
            }
            i = i + 1;
        }
        (i, false)
    }

    /// The value of a key.
    pub fn get(&self, key: &str) -> (r: Option<&String>)
        ensures
            match r {
                Some(v) => self@.contains_key(key@) && self@[key@] == v@,
                None => !self@.contains_key(key@),
            },
    {
        let (at, found) = self.locate(key);
        proof {
            use_type_invariant(&*self);
            lemma_text_order();
            let all = pairs_view(self.entries@);
            lemma_pairs_map_keys(all, key@);
            if found {
                lemma_pairs_map_entry(all, at as int);
            } else if has_key(all, key@) {
                let k = choose|k: int| 0 <= k < all.len() && (#[trigger] all[k]).0 == key@;
                assert(!lex(char_less())(key@, key@));
            }
        }
        if found {
            Some(&self.entries[at].1)
        } else {
            None
        }
    }

    /// Gives a key a value.
    pub fn insert(&mut self, key: String, value: String)
        ensures
            final(self)@ == old(self)@.insert(key@, value@),
    {
        proof {
            use_type_invariant(&*self);
        }
        let (at, found) = self.locate(key.as_str());
        let ghost before = pairs_view(self.entries@);
        let ghost pair = (key@, value@);
        let mut entries: Vec<(String, String)> = Vec::new();
        assert(pairs_view(entries@) =~= Seq::empty());
        std::mem::swap(&mut entries, &mut self.entries);
        if found {
            entries.remove(at);
        }
        let ghost kept = pairs_view(entries@);
        entries.insert(at, (key, value));
        proof {
            let after = pairs_view(entries@);
            lemma_text_order();
            if found {
                assert(kept =~= before.remove(at as int));
            }
            assert(after =~= kept.insert(at as int, pair));
            lemma_put(before, at as int, found, pair);
        }
        self.entries = entries;
    }

    /// Takes a key out of the map.
    pub fn remove(&mut self, key: &str)
        ensures
            final(self)@ == old(self)@.remove(key@),
    {
        proof {
            use_type_invariant(&*self);
        }
        let (at, found) = self.locate(key);
        let ghost before = pairs_view(self.entries@);
        if found {
            let mut entries: Vec<(String, String)> = Vec::new();
            assert(pairs_view(entries@) =~= Seq::empty());
            std::mem::swap(&mut entries, &mut self.entries);
            entries.remove(at);
            proof {
                assert(pairs_view(entries@) =~= before.remove(at as int));
                lemma_taken(before, at as int);
            }
            self.entries = entries;
        } else {
            proof {
                lemma_text_order();
                lemma_pairs_map_keys(before, key@);
                if has_key(before, key@) {
                    let k = choose|k: int|
                        0 <= k < before.len() && (#[trigger] before[k]).0 == key@;
                    assert(!lex(char_less())(key@, key@));
                }
                assert(self@ =~= self@.remove(key@));
            }
        }
    }

    /// Whether the map has no entries.
    pub fn is_empty(&self) -> (r: bool)
        ensures
            r == (self@ == Map::<Seq<char>, Seq<char>>::empty()),
    {
        proof {
            use_type_invariant(&*self);
            if self.entries@.len() > 0 {
                lemma_pairs_map_entry(pairs_view(self.entries@), 0);
            } else {
                assert(pairs_view(self.entries@) =~= Seq::empty());
            }
        }
        self.entries.len() == 0
    }

    /// The entries in the order of their keys.
    pub fn to_pairs(&self) -> (r: Vec<(String, String)>)
        ensures
            keys_ascending(pairs_view(r@)),
            pairs_map(pairs_view(r@)) == self@,
    {
        proof {
            use_type_invariant(&*self);
        }
        copy_pairs(&self.entries)
    }

    /// Gives each key of the list its value, one pair after the other.
    pub fn extend(&mut self, list: &Vec<(String, String)>)
        ensures
            final(self)@ == old(self)@.union_prefer_right(pairs_map(pairs_view(list@))),
    {
        let ghost start = self@;
        let ghost all = pairs_view(list@);
        let mut i: usize = 0;
        assert(all.take(0) =~= Seq::empty());
        assert(start =~= start.union_prefer_right(pairs_map(all.take(0))));
        while i < list.len()
            invariant
                i <= list@.len(),
                all == pairs_view(list@),
                all.len() == list@.len(),
                self@ == start.union_prefer_right(pairs_map(all.take(i as int))),
            decreases list@.len() - i,
        {
            let ghost so_far = all.take(i as int);
            assert(all.take(i as int + 1).drop_last() =~= so_far);
            assert(all.take(i as int + 1).last() == (list@[i as int].0@, list@[i as int].1@));
            self.insert(list[i].0.clone(), list[i].1.clone());
            i = i + 1;
            assert(self@ =~= start.union_prefer_right(pairs_map(all.take(i as int))));
        }
        assert(all.take(i as int) =~= all);
    }

    /// An equal map.
    pub fn copy(&self) -> (r: TextMap)
        ensures
            r@ == self@,
    {
        proof {
            use_type_invariant(&*self);
        }
        let entries = copy_pairs(&self.entries);
        TextMap { entries }
    }
}

/// The same pairs in the same order.
pub fn copy_pairs(list: &Vec<(String, String)>) -> (r: Vec<(String, String)>)
    ensures
        pairs_view(r@) == pairs_view(list@),
{
    let mut out: Vec<(String, String)> = Vec::new();
    let mut i: usize = 0;
    while i < list.len()
        invariant
            i <= list@.len(),
            pairs_view(out@) == pairs_view(list@).take(i as int),
        decreases list@.len() - i,
    {
        let ghost before = pairs_view(out@);
        out.push((list[i].0.clone(), list[i].1.clone()));
        assert(pairs_view(out@) =~= before.push((list@[i as int].0@, list@[i as int].1@)));
        i = i + 1;
        assert(pairs_view(out@) =~= pairs_view(list@).take(i as int));
    }
    assert(pairs_view(out@) =~= pairs_view(list@));
    out
}

/// An ascending list without one of its pairs.
proof fn lemma_taken(list: Seq<(Seq<char>, Seq<char>)>, at: int)
    requires
        keys_ascending(list),
        0 <= at < list.len(),
    ensures
        keys_ascending(list.remove(at)),
        pairs_map(list.remove(at)) == pairs_map(list).remove(list[at].0),
    decreases list.len(),
{
    let after = list.remove(at);
    assert forall|i: int, j: int| 0 <= i < j < after.len() implies lex(char_less())(
        (#[trigger] after[i]).0,
        (#[trigger] after[j]).0,
    ) by {
        let x = if i < at {
            i
        } else {
            i + 1
        };
        let y = if j < at {
            j
        } else {
            j + 1
        };
        assert(after[i] == list[x] && after[j] == list[y]);
    }
    lemma_ascending_init(list);
    let init = list.drop_last();
    if at == list.len() - 1 {
        assert(after =~= init);
        lemma_pairs_map_keys(init, list.last().0);
        assert(pairs_map(after) =~= pairs_map(list).remove(list[at].0));
    } else {
        lemma_taken(init, at);
        assert(after.drop_last() =~= init.remove(at));
        assert(after.last() == list.last());
        assert(init[at] == list[at]);
        assert(list[at].0 != list.last().0) by {
            assert(has_key(init, list[at].0));
        }
        assert(pairs_map(after) =~= pairs_map(list).remove(list[at].0));
    }
}

/// An ascending list with one pair more, in its place.
proof fn lemma_added(list: Seq<(Seq<char>, Seq<char>)>, at: int, pair: (Seq<char>, Seq<char>))
    requires
        keys_ascending(list),
        0 <= at <= list.len(),
        forall|i: int| 0 <= i < at ==> lex(char_less())((#[trigger] list[i]).0, pair.0),
        forall|i: int| at <= i < list.len() ==> lex(char_less())(pair.0, (#[trigger] list[i]).0),
    ensures
        keys_ascending(list.insert(at, pair)),
        pairs_map(list.insert(at, pair)) == pairs_map(list).insert(pair.0, pair.1),
    decreases list.len(),
{
    lemma_text_order();
    let after = list.insert(at, pair);
    assert forall|i: int, j: int| 0 <= i < j < after.len() implies lex(char_less())(
        (#[trigger] after[i]).0,
        (#[trigger] after[j]).0,
    ) by {
        let x = if i < at {
            i
        } else {
            i - 1
        };
        let y = if j < at {
            j
        } else {
            j - 1
        };
        if i == at {
            assert(after[j] == list[y]);
        } else if j == at {
            assert(after[i] == list[x]);
        } else {
            assert(after[i] == list[x] && after[j] == list[y]);
        }
    }
    if at == list.len() {
        assert(after.drop_last() =~= list);
        assert(after.last() == pair);
    } else {
        lemma_ascending_init(list);
        let init = list.drop_last();
        assert forall|i: int| 0 <= i < at implies lex(char_less())(
            (#[trigger] init[i]).0,
            pair.0,
        ) by {
            assert(init[i] == list[i]);
        }
        assert forall|i: int| at <= i < init.len() implies lex(char_less())(
            pair.0,
            (#[trigger] init[i]).0,
        ) by {
            assert(init[i] == list[i]);
        }
        lemma_added(init, at, pair);
        assert(after.drop_last() =~= init.insert(at, pair));
        assert(after.last() == list.last());
        assert(lex(char_less())(pair.0, list[list.len() - 1].0));
        assert(!lex(char_less())(pair.0, pair.0));
        assert(pairs_map(after) =~= pairs_map(list).insert(pair.0, pair.1));
    }
}

proof fn lemma_put(
    list: Seq<(Seq<char>, Seq<char>)>,
    at: int,
    found: bool,
    pair: (Seq<char>, Seq<char>),
)
    requires
        keys_ascending(list),
        0 <= at <= list.len(),
        found ==> at < list.len() && list[at].0 == pair.0,
        forall|i: int| 0 <= i < at ==> lex(char_less())((#[trigger] list[i]).0, pair.0),
        !found ==> forall|i: int|
            at <= i < list.len() ==> lex(char_less())(pair.0, (#[trigger] list[i]).0),
    ensures
        ({
            let kept = if found {
                list.remove(at)
            } else {
                list
            };
            &&& keys_ascending(kept.insert(at, pair))
            &&& pairs_map(kept.insert(at, pair)) == pairs_map(list).insert(pair.0, pair.1)
        }),
{
    if found {
        lemma_taken(list, at);
        let kept = list.remove(at);
        assert forall|i: int| 0 <= i < at implies lex(char_less())(
            (#[trigger] kept[i]).0,
            pair.0,
        ) by {
            assert(kept[i] == list[i]);
        }
        assert forall|i: int| at <= i < kept.len() implies lex(char_less())(
            pair.0,
            (#[trigger] kept[i]).0,
        ) by {
            assert(kept[i] == list[i + 1]);
            assert(lex(char_less())(list[at].0, list[i + 1].0));
        }
        lemma_added(kept, at, pair);
        assert(pairs_map(kept.insert(at, pair)) =~= pairs_map(list).insert(pair.0, pair.1));
    } else {
        lemma_added(list, at, pair);
    }
}

proof fn insert_sorted(
    list: Seq<(Seq<char>, Seq<char>)>,
    pair: (Seq<char>, Seq<char>),
) -> (sorted: Seq<(Seq<char>, Seq<char>)>)
    requires
        keys_ascending(list),
    ensures
        keys_ascending(sorted),
        pairs_map(sorted) == pairs_map(list).insert(pair.0, pair.1),
        forall|k: Seq<char>| #[trigger] has_key(sorted, k) ==> k == pair.0 || has_key(list, k),
    decreases list.len(),
{
    lemma_text_order();
    let less = lex(char_less());
    if list.len() == 0 || less(list.last().0, pair.0) {
        let at = list.len() as int;
        assert forall|i: int| 0 <= i < at implies less((#[trigger] list[i]).0, pair.0) by {
            if i < at - 1 {
                assert(less(list[i].0, list[at - 1].0));
            }
        }
        lemma_added(list, at, pair);
        let sorted = list.insert(at, pair);
        assert forall|k: Seq<char>| #[trigger] has_key(sorted, k) implies k == pair.0 || has_key(
            list,
            k,
        ) by {
            let i = choose|i: int| 0 <= i < sorted.len() && (#[trigger] sorted[i]).0 == k;
            if i < at {
                assert(list[i].0 == k);
            }
        }
        sorted
    } else {
        lemma_ascending_init(list);
        let init = list.drop_last();
        let last = list.last();
        let (start, end) = if last.0 == pair.0 {
            (init, pair)
        } else {
            (insert_sorted(init, pair), last)
        };
        let sorted = start.push(end);
        assert(sorted.drop_last() =~= start);
        assert forall|i: int| 0 <= i < start.len() implies less((#[trigger] start[i]).0, end.0) by {
            let k = start[i].0;
            assert(has_key(start, k));
            if k != pair.0 || last.0 == pair.0 {
                assert(has_key(init, k));
                let j = choose|j: int| 0 <= j < init.len() && (#[trigger] init[j]).0 == k;
                assert(list[j] == init[j]);
                assert(less(list[j].0, list[list.len() - 1].0));
            }
        }
        assert forall|i: int, j: int| 0 <= i < j < sorted.len() implies less(
            (#[trigger] sorted[i]).0,
            (#[trigger] sorted[j]).0,
        ) by {
            assert(sorted[i] == start[i]);
            if j < start.len() {
                assert(sorted[j] == start[j]);
            }
        }
        assert(pairs_map(sorted) =~= pairs_map(list).insert(pair.0, pair.1));
        assert forall|k: Seq<char>| #[trigger] has_key(sorted, k) implies k == pair.0 || has_key(
            list,
            k,
        ) by {
            let i = choose|i: int| 0 <= i < sorted.len() && (#[trigger] sorted[i]).0 == k;
            if i < start.len() {
                assert(start[i].0 == k);
                assert(has_key(start, k));
                if has_key(init, k) {
                    let j = choose|j: int| 0 <= j < init.len() && (#[trigger] init[j]).0 == k;
                    assert(list[j].0 == k);
                }
            } else if last.0 != pair.0 {
                assert(list[list.len() - 1].0 == k);
            }
        }
        sorted
    }
}

/// Every map that is held can be listed.
pub proof fn lemma_held_is_listed(map: TextMap) -> (list: Seq<(Seq<char>, Seq<char>)>)
    requires
        map.well_formed(),
    ensures
        keys_ascending(list),
        pairs_map(list) == map@,
{
    pairs_view(map.entries@)
}

/// What a list of pairs adds to a map that can be listed can be listed too.
pub proof fn lemma_can_be_listed(
    list: Seq<(Seq<char>, Seq<char>)>,
    more: Seq<(Seq<char>, Seq<char>)>,
) -> (sorted: Seq<(Seq<char>, Seq<char>)>)
    requires
        keys_ascending(list),
    ensures
        keys_ascending(sorted),
        pairs_map(sorted) == pairs_map(list).union_prefer_right(pairs_map(more)),
    decreases more.len(),
{
    if more.len() == 0 {
        assert(pairs_map(list).union_prefer_right(pairs_map(more)) =~= pairs_map(list));
        list
    } else {
        let before = lemma_can_be_listed(list, more.drop_last());
        let sorted = insert_sorted(before, more.last());
        assert(pairs_map(sorted) =~= pairs_map(list).union_prefer_right(pairs_map(more)));
        sorted
    }
}

} // verus!

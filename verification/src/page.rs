//! Page identifiers and ordered sets of them.

use vstd::prelude::*;

use crate::order::{strict_total, Order};
use crate::path::{lemma_path_order, order_paths, parts, path_less, Part};

verus! {

/// Identifies a page by the path of its source. Two spellings of one path are
/// the same page.
#[derive(Debug)]
pub struct PageId {
    path: String,
}

impl PageId {
    /// The components of the source path: what the page is known by.
    pub closed spec fn key(&self) -> Seq<Part> {
        parts(self.path@)
    }

    /// The text of the source path.
    pub closed spec fn text(&self) -> Seq<char> {
        self.path@
    }

    /// The page whose source is `path`.
    pub fn new(path: String) -> (r: PageId)
        ensures
            r.text() == path@,
            r.key() == parts(path@),
    {
        PageId { path }
    }

    /// The path of the page's source.
    pub fn path(&self) -> (r: &str)
        ensures
            r@ == self.text(),
            self.key() == parts(r@),
    {
        self.path.as_str()
    }

    /// The same page.
    pub fn copy(&self) -> (r: PageId)
        ensures
            r == *self,
    {
        PageId { path: self.path.clone() }
    }
}

/// The keys of a list of pages.
pub open spec fn page_keys(items: Seq<PageId>) -> Seq<Seq<Part>> {
    items.map_values(|p: PageId| p.key())
}

/// The set of the pages in a list.
pub open spec fn page_key_set(items: Seq<PageId>) -> Set<Seq<Part>> {
    page_keys(items).to_set()
}

/// Each key comes before the ones that follow it.
pub open spec fn ascending(keys: Seq<Seq<Part>>) -> bool {
    forall|i: int, j: int|
        0 <= i < j < keys.len() ==> path_less()(#[trigger] keys[i], #[trigger] keys[j])
}

/// What is put at the end of a list is in the set of its items, with all the
/// others.
pub proof fn lemma_to_set_push<A>(list: Seq<A>, item: A)
    ensures
        list.push(item).to_set() == list.to_set().insert(item),
{
    let a = list.push(item);
    assert forall|x: A| a.to_set().contains(x) <==> list.to_set().insert(item).contains(x) by {
        if x == item {
            assert(a[list.len() as int] == x);
        }
        if list.contains(x) {
            let i = choose|i: int| 0 <= i < list.len() && list[i] == x;
            assert(a[i] == x);
        }
        if a.contains(x) && x != item {
            let i = choose|i: int| 0 <= i < a.len() && a[i] == x;
            assert(list[i] == x);
        }
    }
    assert(a.to_set() =~= list.to_set().insert(item));
}

/// A page at the end of a list is in the set of its pages, with all the others.
pub proof fn lemma_key_set_push(items: Seq<PageId>, page: PageId)
    ensures
        page_key_set(items.push(page)) == page_key_set(items).insert(page.key()),
{
    assert(page_keys(items.push(page)) =~= page_keys(items).push(page.key()));
    lemma_to_set_push(page_keys(items), page.key());
}

/// An ascending list with one more page in its place. Where the page is in the
/// list already, under whatever spelling, that one stays.
pub open spec fn list_with(list: Seq<PageId>, page: PageId) -> Seq<PageId>
    decreases list.len(),
{
    if list.len() == 0 {
        seq![page]
    } else if list.last().key() == page.key() {
        list
    } else if path_less()(list.last().key(), page.key()) {
        list.push(page)
    } else {
        list_with(list.drop_last(), page).push(list.last())
    }
}

/// An ascending list with more pages, one after the other.
pub open spec fn list_with_all(list: Seq<PageId>, more: Seq<PageId>) -> Seq<PageId>
    decreases more.len(),
{
    if more.len() == 0 {
        list
    } else {
        list_with(list_with_all(list, more.drop_last()), more.last())
    }
}

/// Nothing is listed of no pages, and something of any.
pub proof fn lemma_nothing_listed(list: Seq<PageId>, more: Seq<PageId>)
    ensures
        list_with_all(list, more).len() == 0 <==> list.len() == 0 && more.len() == 0,
    decreases more.len(),
{
    if more.len() > 0 {
        lemma_nothing_listed(list, more.drop_last());
    }
}

proof fn lemma_list_with(list: Seq<PageId>, page: PageId, at: int, found: bool)
    requires
        ascending(page_keys(list)),
        0 <= at <= list.len(),
        found ==> at < list.len() && list[at].key() == page.key(),
        forall|i: int| 0 <= i < at ==> path_less()((#[trigger] list[i]).key(), page.key()),
        !found ==> forall|i: int|
            at <= i < list.len() ==> path_less()(page.key(), (#[trigger] list[i]).key()),
    ensures
        list_with(list, page) == if found {
            list
        } else {
            list.insert(at, page)
        },
    decreases list.len(),
{
    lemma_path_order();
    if list.len() == 0 {
        assert(list.insert(at, page) =~= seq![page]);
    } else {
        let init = list.drop_last();
        let last = list.len() - 1;
        let keys = page_keys(list);
        assert(list[last] == list.last());
        if at == list.len() {
            assert(list.insert(at, page) =~= list.push(page));
            assert(path_less()(list[last].key(), page.key()));
            assert(!path_less()(page.key(), page.key()));
        } else if !(found && at == last) {
            assert(path_less()(page.key(), list[last].key())) by {
                if found {
                    assert(keys[at] == page.key());
                    assert(path_less()(keys[at], keys[last]));
                }
            }
            assert(!path_less()(page.key(), page.key()));
            assert(ascending(page_keys(init))) by {
                assert forall|i: int, j: int| 0 <= i < j < init.len() implies path_less()(
                    #[trigger] page_keys(init)[i],
                    #[trigger] page_keys(init)[j],
                ) by {
                    assert(page_keys(init)[i] == keys[i] && page_keys(init)[j] == keys[j]);
                }
            }
            assert forall|i: int| 0 <= i < init.len() implies init[i] == #[trigger] list[i] by {
            }
            lemma_list_with(init, page, at, found);
            assert(init.push(list.last()) =~= list);
            assert(init.insert(at, page).push(list.last()) =~= list.insert(at, page));
        }
    }
}

proof fn lemma_ascending_distinct(keys: Seq<Seq<Part>>)
    requires
        ascending(keys),
    ensures
        keys.no_duplicates(),
{
    lemma_path_order();
    assert forall|i: int, j: int| 0 <= i < keys.len() && 0 <= j < keys.len() && i != j implies keys[i]
        != keys[j] by {
        if i < j {
            assert(path_less()(keys[i], keys[j]));
        } else {
            assert(path_less()(keys[j], keys[i]));
        }
        assert(!path_less()(keys[i], keys[i]));
    }
}

/// The order in which a set of pages is listed is fixed by the set: two
/// ascending lists of the same pages are the same list.
pub proof fn lemma_listing_unique(a: Seq<Seq<Part>>, b: Seq<Seq<Part>>)
    requires
        ascending(a),
        ascending(b),
        a.to_set() == b.to_set(),
    ensures
        a == b,
    decreases a.len(),
{
    lemma_path_order();
    lemma_ascending_distinct(a);
    lemma_ascending_distinct(b);
    if a.len() == 0 {
        if b.len() > 0 {
            assert(b.to_set().contains(b[0]));
            assert(a.contains(b[0]));
        }
        assert(a =~= b);
    } else {
        assert(a.to_set().contains(a.last())) by {
            assert(a[a.len() - 1] == a.last());
        }
        assert(b.contains(a.last()));
        let j = choose|j: int| 0 <= j < b.len() && b[j] == a.last();
        assert(b.to_set().contains(b.last())) by {
            assert(b[b.len() - 1] == b.last());
        }
        assert(a.contains(b.last()));
        let i = choose|i: int| 0 <= i < a.len() && a[i] == b.last();
        if a.last() != b.last() {
            assert(path_less()(b[j], b[b.len() - 1]));
            assert(path_less()(a[i], a[a.len() - 1]));
            assert(path_less()(a.last(), b.last()) && path_less()(b.last(), a.last()));
            assert(!path_less()(a.last(), a.last()));
        }
        let x = a.drop_last();
        let y = b.drop_last();
        assert(x.to_set() =~= y.to_set()) by {
            assert forall|k: Seq<Part>| x.to_set().contains(k) <==> y.to_set().contains(k) by {
                if x.contains(k) {
                    let m = choose|m: int| 0 <= m < x.len() && x[m] == k;
                    assert(a[m] == k && k != a[a.len() - 1]);
                    assert(a.to_set().contains(k));
                    let n = choose|n: int| 0 <= n < b.len() && b[n] == k;
                    assert(y[n] == k);
                }
                if y.contains(k) {
                    let m = choose|m: int| 0 <= m < y.len() && y[m] == k;
                    assert(b[m] == k && k != b[b.len() - 1]);
                    assert(b.to_set().contains(k));
                    let n = choose|n: int| 0 <= n < a.len() && a[n] == k;
                    assert(x[n] == k);
                }
            }
        }
        lemma_listing_unique(x, y);
        assert(a =~= x.push(a.last()));
        assert(b =~= y.push(b.last()));
    }
}

/// A set of pages, listed in the order of their paths.
#[derive(Debug)]
pub struct PageSet {
    items: Vec<PageId>,
}

impl View for PageSet {
    type V = Set<Seq<Part>>;

    closed spec fn view(&self) -> Set<Seq<Part>> {
        page_key_set(self.items@)
    }
}

impl PageSet {
    /// The pages of the set in the order of their paths, each under the spelling
    /// under which it came first.
    pub closed spec fn listed(&self) -> Seq<PageId> {
        self.items@
    }

    #[verifier::type_invariant]
    spec fn sorted(&self) -> bool {
        ascending(page_keys(self.items@))
    }

    /// The set without pages.
    pub fn new() -> (r: PageSet)
        ensures
            r@ == Set::<Seq<Part>>::empty(),
            r.listed() == Seq::<PageId>::empty(),
    {
        let items: Vec<PageId> = Vec::new();
        assert(page_key_set(items@) =~= Set::empty());
        PageSet { items }
    }

    /// The position at which `page` stands or would have to stand, and whether
    /// it stands there.
    fn locate(&self, page: &PageId) -> (r: (usize, bool))
        ensures
            r.0 <= self.items@.len(),
            r.1 ==> r.0 < self.items@.len() && self.items@[r.0 as int].key() == page.key(),
            forall|i: int|
                0 <= i < r.0 ==> path_less()((#[trigger] self.items@[i]).key(), page.key()),
            !r.1 ==> forall|i: int|
                r.0 <= i < self.items@.len() ==> path_less()(
                    page.key(),
                    (#[trigger] self.items@[i]).key(),
                ),
    {
        proof {
            use_type_invariant(&*self);
            lemma_path_order();
        }
        let mut i: usize = 0;
        while i < self.items.len()
            invariant
                i <= self.items@.len(),
                ascending(page_keys(self.items@)),
                strict_total(path_less()),
                forall|k: int|
                    0 <= k < i ==> path_less()((#[trigger] self.items@[k]).key(), page.key()),
            decreases self.items@.len() - i,
        {
            match order_paths(self.items[i].path(), page.path()) {
                Order::Less => {},
                Order::Equal => {
                    return (i, true);
                },
                Order::Greater => {
                    assert forall|k: int| i <= k < self.items@.len() implies path_less()(
                        page.key(),
                        (#[trigger] self.items@[k]).key(),
                    ) by {
                        let keys = page_keys(self.items@);
                        assert(keys[i as int] == self.items@[i as int].key());
                        assert(keys[k] == self.items@[k].key());
                        if k > i {
                            assert(path_less()(keys[i as int], keys[k]));
                        }
                    }
                    return (i, false);
                },
            }
            i = i + 1;
        }
        (i, false)
    }

    /// Whether `page` is in the set.
    pub fn contains(&self, page: &PageId) -> (r: bool)
        ensures
            r == self@.contains(page.key()),
    {
        let (at, found) = self.locate(page);
        proof {
            lemma_path_order();
            let keys = page_keys(self.items@);
            if found {
                assert(keys[at as int] == page.key());
            } else if keys.contains(page.key()) {
                let k = choose|k: int| 0 <= k < keys.len() && keys[k] == page.key();
                assert(self.items@[k].key() == page.key());
                assert(!path_less()(page.key(), page.key()));
            }
        }
        found
    }

    /// Adds `page` to the set. Where it is there already, it keeps the spelling
    /// that it has.
    pub fn insert(&mut self, page: PageId)
        ensures
            final(self)@ == old(self)@.insert(page.key()),
            final(self).listed() == list_with(old(self).listed(), page),
    {
        proof {
            use_type_invariant(&*self);
        }
        let (at, found) = self.locate(&page);
        proof {
            lemma_list_with(self.items@, page, at as int, found);
        }
        let ghost before = self.items@;
        let ghost key = page.key();
        if found {
            assert(page_keys(before)[at as int] == key);
            assert(page_key_set(before).insert(key) =~= page_key_set(before));
            return;
        }
        let mut items: Vec<PageId> = Vec::new();
        std::mem::swap(&mut items, &mut self.items);
        items.insert(at, page);
        proof {
            lemma_path_order();
            let a = page_keys(before);
            let b = page_keys(items@);
            assert(b =~= a.insert(at as int, key));
            assert forall|i: int, j: int| 0 <= i < j < b.len() implies path_less()(
                #[trigger] b[i],
                #[trigger] b[j],
            ) by {
                let x = if i < at {
                    i
                } else {
                    i - 1
                };
                let y = if j < at {
                    j
                } else {
                    j - 1
                };
                if i == at {
                    assert(b[j] == before[y].key());
                } else if j == at {
                    assert(b[i] == before[x].key());
                } else {
                    assert(b[i] == a[x] && b[j] == a[y]);
                }
            }
            assert forall|k: Seq<Part>| b.to_set().contains(k) <==> a.to_set().insert(key).contains(
                k,
            ) by {
                if k == key {
                    assert(b[at as int] == k);
                }
                if a.contains(k) {
                    let i = choose|i: int| 0 <= i < a.len() && a[i] == k;
                    if i < at {
                        assert(b[i] == k);
                    } else {
                        assert(b[i + 1] == k);
                    }
                }
                if b.contains(k) && k != key {
                    let i = choose|i: int| 0 <= i < b.len() && b[i] == k;
                    if i < at {
                        assert(a[i] == k);
                    } else {
                        assert(a[i - 1] == k);
                    }
                }
            }
            assert(b.to_set() =~= a.to_set().insert(key));
        }
        self.items = items;
    }

    /// Adds every page of `other` to the set.
    pub fn extend(&mut self, other: PageSet)
        ensures
            final(self)@ == old(self)@.union(other@),
            final(self).listed() == list_with_all(old(self).listed(), other.listed()),
    {
        let ghost start = self@;
        let list = other.items;
        let mut i: usize = 0;
        assert(list@.take(0) =~= Seq::empty());
        assert(page_key_set(list@.take(0)) =~= Set::empty());
        assert(start.union(Set::empty()) =~= start);
        while i < list.len()
            invariant
                i <= list@.len(),
                list@ == other.items@,
                self@ == start.union(page_key_set(list@.take(i as int))),
                self.listed() == list_with_all(old(self).listed(), list@.take(i as int)),
            decreases list@.len() - i,
        {
            let page = list[i].copy();
            self.insert(page);
            proof {
                assert(list@.take(i as int + 1) =~= list@.take(i as int).push(list@[i as int]));
                assert(list@.take(i as int + 1).drop_last() =~= list@.take(i as int));
                lemma_key_set_push(list@.take(i as int), list@[i as int]);
                assert(start.union(page_key_set(list@.take(i as int))).insert(list@[i as int].key())
                    =~= start.union(page_key_set(list@.take(i as int + 1))));
            }
            i = i + 1;
        }
        assert(list@.take(list@.len() as int) =~= list@);
    }

    /// The set of the pages in `list`.
    pub fn from_list(list: &Vec<PageId>) -> (r: PageSet)
        ensures
            r@ == page_key_set(list@),
            r.listed() == list_with_all(Seq::empty(), list@),
    {
        let mut set = PageSet::new();
        let mut i: usize = 0;
        assert(list@.take(0) =~= Seq::empty());
        assert(page_key_set(list@.take(0)) =~= Set::empty());
        while i < list.len()
            invariant
                i <= list@.len(),
                set@ == page_key_set(list@.take(i as int)),
                set.listed() == list_with_all(Seq::empty(), list@.take(i as int)),
            decreases list@.len() - i,
        {
            let page = list[i].copy();
            set.insert(page);
            proof {
                assert(list@.take(i as int + 1) =~= list@.take(i as int).push(list@[i as int]));
                assert(list@.take(i as int + 1).drop_last() =~= list@.take(i as int));
                lemma_key_set_push(list@.take(i as int), list@[i as int]);
            }
            i = i + 1;
        }
        assert(list@.take(list@.len() as int) =~= list@);
        set
    }

    /// Whether the set has no pages.
    pub fn is_empty(&self) -> (r: bool)
        ensures
            r == (self@ == Set::<Seq<Part>>::empty()),
    {
        let r: bool = self.items.len() == 0;
        proof {
            if r {
                assert(self@ =~= Set::empty());
            } else {
                assert(page_keys(self.items@)[0] == self.items@[0].key());
                assert(self@.contains(self.items@[0].key()));
            }
        }
        r
    }

    /// The number of pages in the set.
    pub fn len(&self) -> (r: usize)
        ensures
            r == self@.len(),
            self@.finite(),
    {
        proof {
            use_type_invariant(&*self);
            lemma_ascending_distinct(page_keys(self.items@));
            page_keys(self.items@).unique_seq_to_set();
            vstd::seq_lib::seq_to_set_is_finite(page_keys(self.items@));
        }
        self.items.len()
    }

    /// The pages of the set in the order of their paths.
    pub fn to_vec(&self) -> (r: Vec<PageId>)
        ensures
            r@ == self.listed(),
            page_key_set(r@) == self@,
            ascending(page_keys(r@)),
    {
        proof {
            use_type_invariant(&*self);
        }
        copy_pages(&self.items)
    }

    /// An equal set.
    pub fn copy(&self) -> (r: PageSet)
        ensures
            r@ == self@,
            r.listed() == self.listed(),
    {
        proof {
            use_type_invariant(&*self);
        }
        let items = copy_pages(&self.items);
        PageSet { items }
    }
}

/// A set has the pages that it lists.
pub proof fn lemma_set_is_listed(set: PageSet)
    ensures
        set@ == page_key_set(set.listed()),
        set.listed().len() == 0 <==> set@ == Set::<Seq<Part>>::empty(),
{
    let keys = page_keys(set.listed());
    if keys.len() == 0 {
        assert(keys.to_set() =~= Set::empty());
    } else {
        assert(keys.to_set().contains(keys[0]));
    }
}

/// The same pages in the same order.
pub fn copy_pages(list: &Vec<PageId>) -> (r: Vec<PageId>)
    ensures
        r@ == list@,
{
    let mut out: Vec<PageId> = Vec::new();
    let mut i: usize = 0;
    while i < list.len()
        invariant
            i <= list@.len(),
            out@ == list@.take(i as int),
        decreases list@.len() - i,
    {
        out.push(list[i].copy());
        i = i + 1;
        assert(out@ =~= list@.take(i as int));
    }
    assert(out@ =~= list@);
    out
}

} // verus!

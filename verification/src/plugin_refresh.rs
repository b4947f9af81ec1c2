//! The sources of plugin modules in a dev session, and their refresh when a file
//! that a loader watches has changed.
//!
//! A refresh is all or nothing: sources are published only once every loader of
//! the batch has answered. What a failed batch touched is tried again with the
//! next one.

use vstd::prelude::*;

use crate::order::{char_less, lemma_text_order, lex};
use crate::page::{ascending, lemma_to_set_push, page_keys, PageId, PageSet};
use crate::path::{parts, same_path, Part};
use crate::plan::texts;
use crate::text_map::{
    has_key, keys_ascending, lemma_can_be_listed, lemma_held_is_listed, lemma_pairs_map_entry,
    lemma_pairs_map_keys, lemma_pairs_unique, pairs_map, pairs_view, TextMap,
};

verus! {

/// The sources of the plugin modules.
#[derive(Debug)]
pub struct PluginVirtualModuleStore {
    sources: TextMap,
}

impl View for PluginVirtualModuleStore {
    type V = Map<Seq<char>, Seq<char>>;

    closed spec fn view(&self) -> Map<Seq<char>, Seq<char>> {
        self.sources@
    }
}

impl Default for PluginVirtualModuleStore {
    fn default() -> (r: PluginVirtualModuleStore)
        ensures
            r@ == Map::<Seq<char>, Seq<char>>::empty(),
    {
        PluginVirtualModuleStore { sources: TextMap::new() }
    }
}

impl PluginVirtualModuleStore {
    /// A store with these sources.
    pub fn seeded(initial: Vec<(String, String)>) -> (r: PluginVirtualModuleStore)
        ensures
            r@ == pairs_map(pairs_view(initial@)),
    {
        let mut store = PluginVirtualModuleStore::default();
        store.publish(initial);
        assert(store@ =~= pairs_map(pairs_view(initial@)));
        store
    }

    /// All sources.
    pub fn snapshot(&self) -> (r: TextMap)
        ensures
            r@ == self@,
    {
        self.sources.copy()
    }

    /// All sources, in the order of their specifiers.
    pub fn snapshot_pairs(&self) -> (r: Vec<(String, String)>)
        ensures
            keys_ascending(pairs_view(r@)),
            pairs_map(pairs_view(r@)) == self@,
    {
        self.sources.to_pairs()
    }

    /// The source of a module.
    pub fn get(&self, specifier: &str) -> (r: Option<String>)
        ensures
            match r {
                Some(source) => self@.contains_key(specifier@) && self@[specifier@] == source@,
                None => !self@.contains_key(specifier@),
            },
    {
        match self.sources.get(specifier) {
            Some(source) => Some(source.clone()),
            None => None,
        }
    }

    /// Gives modules new sources. The others keep theirs.
    pub fn publish(&mut self, updates: Vec<(String, String)>)
        ensures
            final(self)@ == old(self)@.union_prefer_right(pairs_map(pairs_view(updates@))),
    {
        self.sources.extend(&updates);
    }
}

/// Names a loader.
#[derive(Debug)]
pub struct VirtualLoaderId(pub String);

/// A plugin module that was registered.
#[derive(Debug)]
pub struct VirtualModuleEntry {
    /// The specifier by which it is imported.
    pub specifier: String,
    /// The plugin that registered it.
    pub plugin: String,
    /// What loads it.
    pub loader_id: VirtualLoaderId,
    /// The files that its loader watches, each by all of its paths.
    pub watch_files: Vec<Vec<String>>,
}

/// A loader watches a path.
pub struct Watch {
    pub path: Seq<Part>,
    pub specifier: Seq<char>,
    pub loader: Seq<char>,
}

/// The texts of all lists, one after the other.
pub open spec fn flat(lists: Seq<Vec<String>>) -> Seq<Seq<char>>
    decreases lists.len(),
{
    if lists.len() == 0 {
        Seq::empty()
    } else {
        flat(lists.drop_last()) + texts(lists.last()@)
    }
}

/// The watches that a module brings.
pub open spec fn entry_watches(entry: VirtualModuleEntry) -> Seq<Watch> {
    flat(entry.watch_files@).map_values(
        |path: Seq<char>|
            Watch {
                path: parts(path),
                specifier: entry.specifier@,
                loader: entry.loader_id.0@,
            },
    )
}

/// The watches that the modules bring, in order.
pub open spec fn registered(entries: Seq<VirtualModuleEntry>) -> Seq<Watch>
    decreases entries.len(),
{
    if entries.len() == 0 {
        Seq::empty()
    } else {
        registered(entries.drop_last()) + entry_watches(entries.last())
    }
}

/// The modules whose loaders watch the path, in order, with their loaders.
pub open spec fn owners(watches: Seq<Watch>, path: Seq<Part>) -> Seq<(Seq<char>, Seq<char>)>
    decreases watches.len(),
{
    if watches.len() == 0 {
        Seq::empty()
    } else {
        let before = owners(watches.drop_last(), path);
        let last = watches.last();
        if last.path == path {
            before.push((last.specifier, last.loader))
        } else {
            before
        }
    }
}

/// The owners of each path, one path after the other.
pub open spec fn owners_of_all(watches: Seq<Watch>, paths: Seq<Seq<char>>) -> Seq<
    (Seq<char>, Seq<char>),
>
    decreases paths.len(),
{
    if paths.len() == 0 {
        Seq::empty()
    } else {
        owners_of_all(watches, paths.drop_last()) + owners(watches, parts(paths.last()))
    }
}

/// The first pair of each key, in order.
pub open spec fn first_of_each(list: Seq<(Seq<char>, Seq<char>)>) -> Seq<(Seq<char>, Seq<char>)>
    decreases list.len(),
{
    if list.len() == 0 {
        Seq::empty()
    } else {
        let before = first_of_each(list.drop_last());
        if has_key(before, list.last().0) {
            before
        } else {
            before.push(list.last())
        }
    }
}

/// What a list of modules with their loaders says.
pub open spec fn loaders_view(list: Seq<(String, VirtualLoaderId)>) -> Seq<(Seq<char>, Seq<char>)> {
    list.map_values(|p: (String, VirtualLoaderId)| (p.0@, p.1.0@))
}

fn flatten(lists: &Vec<Vec<String>>) -> (r: Vec<String>)
    ensures
        texts(r@) == flat(lists@),
{
    let mut out: Vec<String> = Vec::new();
    let mut i: usize = 0;
    assert(lists@.take(0) =~= Seq::empty());
    assert(texts(out@) =~= flat(lists@.take(0)));
    while i < lists.len()
        invariant
            i <= lists@.len(),
            texts(out@) == flat(lists@.take(i as int)),
        decreases lists@.len() - i,
    {
        let ghost before = texts(out@);
        let list: &Vec<String> = &lists[i];
        let mut k: usize = 0;
        assert(texts(list@).take(0) =~= Seq::empty());
        assert(texts(out@) =~= before + texts(list@).take(0));
        while k < list.len()
            invariant
                k <= list@.len(),
                texts(out@) == before + texts(list@).take(k as int),
            decreases list@.len() - k,
        {
            let ghost so_far = texts(out@);
            out.push(list[k].clone());
            assert(texts(out@) =~= so_far.push(list@[k as int]@));
            k = k + 1;
            assert(texts(list@).take(k as int) =~= texts(list@).take(k - 1).push(
                list@[k - 1]@,
            ));
            assert(texts(out@) =~= before + texts(list@).take(k as int));
        }
        assert(texts(list@).take(k as int) =~= texts(list@));
        assert(lists@.take(i as int + 1).drop_last() =~= lists@.take(i as int));
        assert(lists@.take(i as int + 1).last() == *list);
        i = i + 1;
    }
    assert(lists@.take(i as int) =~= lists@);
    out
}

#[derive(Debug)]
struct Registration {
    path: String,
    specifier: String,
    loader: String,
}

impl Registration {
    spec fn watch(&self) -> Watch {
        Watch { path: parts(self.path@), specifier: self.specifier@, loader: self.loader@ }
    }
}

/// Which loaders watch which paths. Fixed once the plugins are set up.
#[derive(Debug)]
pub struct PluginWatchOwnership {
    registrations: Vec<Registration>,
}

impl View for PluginWatchOwnership {
    type V = Seq<Watch>;

    closed spec fn view(&self) -> Seq<Watch> {
        self.registrations@.map_values(|r: Registration| r.watch())
    }
}

impl Default for PluginWatchOwnership {
    fn default() -> (r: PluginWatchOwnership)
        ensures
            r@ == Seq::<Watch>::empty(),
    {
        let r = PluginWatchOwnership { registrations: Vec::new() };
        assert(r@ =~= Seq::empty());
        r
    }
}

/// The paths that are watched.
pub open spec fn watched(watches: Seq<Watch>) -> Set<Seq<Part>> {
    watches.map_values(|w: Watch| w.path).to_set()
}

impl PluginWatchOwnership {
    /// What the modules' loaders watch.
    pub fn from_registry(registry: &Vec<VirtualModuleEntry>) -> (r: PluginWatchOwnership)
        ensures
            r@ == registered(registry@),
    {
        let mut out = PluginWatchOwnership::default();
        let mut i: usize = 0;
        assert(registry@.take(0) =~= Seq::empty());
        while i < registry.len()
            invariant
                i <= registry@.len(),
                out@ == registered(registry@.take(i as int)),
            decreases registry@.len() - i,
        {
            let entry: &VirtualModuleEntry = &registry[i];
            let ghost before = out@;
            let ghost all = entry_watches(*entry);
            let files = flatten(&entry.watch_files);
            let mut k: usize = 0;
            assert(texts(files@).len() == files@.len());
            assert(all.take(0) =~= Seq::empty());
            assert(out@ =~= before + all.take(0));
            while k < files.len()
                invariant
                    k <= files@.len(),
                    texts(files@) == flat(entry.watch_files@),
                    texts(files@).len() == files@.len(),
                    all == entry_watches(*entry),
                    out@ == before + all.take(k as int),
                decreases files@.len() - k,
            {
                let ghost so_far = out@;
                let one = Registration {
                    path: files[k].clone(),
                    specifier: entry.specifier.clone(),
                    loader: entry.loader_id.0.clone(),
                };
                assert(texts(files@)[k as int] == files@[k as int]@);
                assert(all[k as int] == one.watch());
                out.registrations.push(one);
                assert(out@ =~= so_far.push(all[k as int]));
                k = k + 1;
                assert(out@ =~= before + all.take(k as int));
            }
            assert(all.take(k as int) =~= all);
            assert(registry@.take(i as int + 1).drop_last() =~= registry@.take(i as int));
            assert(registry@.take(i as int + 1).last() == *entry);
            i = i + 1;
        }
        assert(registry@.take(i as int) =~= registry@);
        out
    }

    /// The paths that are watched, in order, each once.
    pub fn watched_paths(&self) -> (r: Vec<String>)
        ensures
            ascending(texts(r@).map_values(|t: Seq<char>| parts(t))),
            texts(r@).map_values(|t: Seq<char>| parts(t)).to_set() == watched(self@),
    {
        let mut set = PageSet::new();
        let ghost keys = self@.map_values(|w: Watch| w.path);
        let mut i: usize = 0;
        assert(keys.take(0).to_set() =~= Set::empty());
        while i < self.registrations.len()
            invariant
                i <= self.registrations@.len(),
                keys == self@.map_values(|w: Watch| w.path),
                keys.len() == self.registrations@.len(),
                set@ == keys.take(i as int).to_set(),
            decreases self.registrations@.len() - i,
        {
            set.insert(PageId::new(self.registrations[i].path.clone()));
            proof {
                let key = keys[i as int];
                assert(self@[i as int] == self.registrations@[i as int].watch());
                let a = keys.take(i as int);
                let b = keys.take(i as int + 1);
                assert(b =~= a.push(key));
                lemma_to_set_push(a, key);
            }
            i = i + 1;
        }
        assert(keys.take(i as int) =~= keys);
        let pages = set.to_vec();
        let mut out: Vec<String> = Vec::new();
        let mut k: usize = 0;
        while k < pages.len()
            invariant
                k <= pages@.len(),
                texts(out@).map_values(|t: Seq<char>| parts(t)) == page_keys(pages@).take(k as int),
                out@.len() == k,
            decreases pages@.len() - k,
        {
            out.push(crate::text::copy_str(pages[k].path()));
            k = k + 1;
            assert(texts(out@).map_values(|t: Seq<char>| parts(t)) =~= page_keys(pages@).take(
                k as int,
            ));
        }
        assert(page_keys(pages@).take(k as int) =~= page_keys(pages@));
        out
    }

    /// Whether nothing is watched.
    pub fn is_empty(&self) -> (r: bool)
        ensures
            r == (self@.len() == 0),
    {
        self.registrations.len() == 0
    }

    /// The modules to load again when these paths have changed, each once, with
    /// their loaders. Every changed path is given by all of its paths.
    pub fn affected(&self, changed_paths: &Vec<Vec<String>>) -> (r: Vec<(String, VirtualLoaderId)>)
        ensures
            loaders_view(r@) == first_of_each(owners_of_all(self@, flat(changed_paths@))),
    {
        let paths = flatten(changed_paths);
        let ghost all = texts(paths@);
        let mut out: Vec<(String, VirtualLoaderId)> = Vec::new();
        let mut i: usize = 0;
        assert(all.take(0) =~= Seq::empty());
        assert(loaders_view(out@) =~= Seq::empty());
        while i < paths.len()
            invariant
                i <= paths@.len(),
                all == texts(paths@),
                all.len() == paths@.len(),
                loaders_view(out@) == first_of_each(owners_of_all(self@, all.take(i as int))),
            decreases paths@.len() - i,
        {
            let ghost before = owners_of_all(self@, all.take(i as int));
            let ghost key = parts(paths@[i as int]@);
            let mut k: usize = 0;
            assert(self@.take(0) =~= Seq::empty());
            assert(before + owners(self@.take(0), key) =~= before);
            while k < self.registrations.len()
                invariant
                    i < paths@.len(),
                    k <= self.registrations@.len(),
                    self@.len() == self.registrations@.len(),
                    key == parts(paths@[i as int]@),
                    loaders_view(out@) == first_of_each(
                        before + owners(self@.take(k as int), key),
                    ),
                decreases self.registrations@.len() - k,
            {
                let one: &Registration = &self.registrations[k];
                let ghost so_far = before + owners(self@.take(k as int), key);
                let ghost seen = loaders_view(out@);
                proof {
                    assert(self@[k as int] == one.watch());
                    assert(self@.take(k as int + 1).drop_last() =~= self@.take(k as int));
                    assert(self@.take(k as int + 1).last() == one.watch());
                }
                if same_path(one.path.as_str(), paths[i].as_str()) {
                    let ghost pair = (one.specifier@, one.loader@);
                    proof {
                        let next = before + owners(self@.take(k as int + 1), key);
                        assert(next =~= so_far.push(pair));
                        assert(next.drop_last() =~= so_far);
                    }
                    if !knows(&out, &one.specifier) {
                        out.push((one.specifier.clone(), VirtualLoaderId(one.loader.clone())));
                        assert(loaders_view(out@) =~= seen.push(pair));
                    }
                }
                k = k + 1;
            }
            proof {
                assert(self@.take(k as int) =~= self@);
                assert(all.take(i as int + 1).drop_last() =~= all.take(i as int));
                assert(all.take(i as int + 1).last() == paths@[i as int]@);
            }
            i = i + 1;
        }
        assert(all.take(i as int) =~= all);
        out
    }
}

fn knows(list: &Vec<(String, VirtualLoaderId)>, specifier: &String) -> (r: bool)
    ensures
        r == has_key(loaders_view(list@), specifier@),
{
    let ghost all = loaders_view(list@);
    let mut i: usize = 0;
    while i < list.len()
        invariant
            i <= list@.len(),
            all == loaders_view(list@),
            all.len() == list@.len(),
            forall|k: int| 0 <= k < i ==> (#[trigger] all[k]).0 != specifier@,
        decreases list@.len() - i,
    {
        assert(all[i as int].0 == list@[i as int].0@);
        if list[i].0 == *specifier {
            return true;
        }
        i = i + 1;
    }
    false
}

/// A map as the list of its pairs, in the order of their keys.
pub open spec fn listing(map: Map<Seq<char>, Seq<char>>) -> Seq<(Seq<char>, Seq<char>)> {
    choose|list: Seq<(Seq<char>, Seq<char>)>| keys_ascending(list) && pairs_map(list) == map
}

/// The keys of a list of pairs.
pub open spec fn keys_of(list: Seq<(Seq<char>, Seq<char>)>) -> Seq<Seq<char>> {
    list.map_values(|p: (Seq<char>, Seq<char>)| p.0)
}

/// The modules to load: those whose loaders watch one of the paths, and those
/// that an earlier failure left behind.
pub open spec fn due(
    watches: Seq<Watch>,
    pending: Map<Seq<char>, Seq<char>>,
    paths: Seq<Seq<char>>,
) -> Seq<(Seq<char>, Seq<char>)> {
    first_of_each(owners_of_all(watches, paths) + listing(pending))
}

/// The sources that a batch has brought.
pub open spec fn fetched(
    batch: Seq<(Seq<char>, Seq<char>)>,
    replies: Seq<Result<String, String>>,
) -> Seq<(Seq<char>, Seq<char>)>
    decreases batch.len(),
{
    if batch.len() == 0 {
        Seq::empty()
    } else {
        let before = fetched(batch.drop_last(), replies.drop_last());
        match replies.last() {
            Ok(source) => before.push((batch.last().0, source@)),
            Err(_) => before,
        }
    }
}

/// The failures of a batch, with their messages.
pub open spec fn failures(
    batch: Seq<(Seq<char>, Seq<char>)>,
    replies: Seq<Result<String, String>>,
) -> Seq<(Seq<char>, Seq<char>)>
    decreases batch.len(),
{
    if batch.len() == 0 {
        Seq::empty()
    } else {
        let before = failures(batch.drop_last(), replies.drop_last());
        match replies.last() {
            Ok(_) => before,
            Err(message) => before.push((batch.last().0, message@)),
        }
    }
}

/// What came of a refresh.
#[derive(Debug)]
pub struct PluginRefreshOutcome {
    /// The modules that have new sources.
    pub refreshed: Vec<String>,
    /// The modules whose loaders failed, with their messages. Where there are
    /// any, no module has a new source.
    pub failed: Vec<(String, String)>,
}

impl Default for PluginRefreshOutcome {
    fn default() -> (r: PluginRefreshOutcome)
        ensures
            r.refreshed@.len() == 0,
            r.failed@.len() == 0,
    {
        PluginRefreshOutcome { refreshed: Vec::new(), failed: Vec::new() }
    }
}

impl PluginRefreshOutcome {
    /// Whether no module was loaded.
    pub fn is_noop(&self) -> (r: bool)
        ensures
            r == (self.refreshed@.len() == 0 && self.failed@.len() == 0),
    {
        self.refreshed.len() == 0 && self.failed.len() == 0
    }
}

/// The modules that a refresh loads.
#[derive(Debug)]
pub struct RefreshBatch {
    loads: Vec<(String, VirtualLoaderId)>,
}

impl View for RefreshBatch {
    type V = Seq<(Seq<char>, Seq<char>)>;

    closed spec fn view(&self) -> Seq<(Seq<char>, Seq<char>)> {
        loaders_view(self.loads@)
    }
}

impl RefreshBatch {
    /// The modules to load, with their loaders, in order.
    pub fn loads(&self) -> (r: &Vec<(String, VirtualLoaderId)>)
        ensures
            loaders_view(r@) == self@,
    {
        &self.loads
    }
}

/// The sources, what is watched, and what is still to be loaded again. `Host` is
/// whatever runs the loaders.
#[derive(Debug)]
pub struct PluginRefreshState<Host> {
    host: Option<Host>,
    ownership: PluginWatchOwnership,
    store: PluginVirtualModuleStore,
    pending: TextMap,
}

/// What a [`PluginRefreshState`] holds.
pub struct Refresh {
    /// Whether there is something to run loaders with.
    pub hosted: bool,
    /// What is watched.
    pub watches: Seq<Watch>,
    /// The sources.
    pub sources: Map<Seq<char>, Seq<char>>,
    /// The modules that are still to be loaded again, with their loaders.
    pub pending: Map<Seq<char>, Seq<char>>,
}

impl Refresh {
    /// The modules that a refresh after a change of these paths loads. Without a
    /// host there are none.
    pub open spec fn batch(self, paths: Seq<Seq<char>>) -> Seq<(Seq<char>, Seq<char>)> {
        if self.hosted {
            due(self.watches, self.pending, paths)
        } else {
            Seq::empty()
        }
    }

    /// What is held after a batch. Where a loader failed, no source changes, and
    /// every module of the batch is to be loaded again. Otherwise every module
    /// has its new source, and none of them is to be loaded again.
    pub open spec fn after(
        self,
        batch: Seq<(Seq<char>, Seq<char>)>,
        replies: Seq<Result<String, String>>,
    ) -> Refresh {
        if failures(batch, replies).len() > 0 {
            Refresh { pending: self.pending.union_prefer_right(pairs_map(batch)), ..self }
        } else {
            Refresh {
                sources: self.sources.union_prefer_right(pairs_map(fetched(batch, replies))),
                pending: self.pending.remove_keys(pairs_map(batch).dom()),
                ..self
            }
        }
    }

    /// The modules that have new sources after a batch, in order.
    pub open spec fn refreshed(
        self,
        batch: Seq<(Seq<char>, Seq<char>)>,
        replies: Seq<Result<String, String>>,
    ) -> Seq<Seq<char>> {
        if failures(batch, replies).len() > 0 {
            Seq::empty()
        } else {
            keys_of(listing(pairs_map(fetched(batch, replies))))
        }
    }
}

impl<Host> View for PluginRefreshState<Host> {
    type V = Refresh;

    closed spec fn view(&self) -> Refresh {
        Refresh {
            hosted: self.host is Some,
            watches: self.ownership@,
            sources: self.store@,
            pending: self.pending@,
        }
    }
}

impl<Host> Default for PluginRefreshState<Host> {
    fn default() -> (r: PluginRefreshState<Host>)
        ensures
            !r@.hosted,
            r@.watches.len() == 0,
            r@.sources == Map::<Seq<char>, Seq<char>>::empty(),
            r@.pending == Map::<Seq<char>, Seq<char>>::empty(),
            r@.listed(),
    {
        PluginRefreshState::new(
            None,
            PluginWatchOwnership::default(),
            PluginVirtualModuleStore::default(),
        )
    }
}

impl<Host> PluginRefreshState<Host> {
    /// What runs the loaders.
    pub closed spec fn runs_on(&self) -> Option<Host> {
        self.host
    }

    /// The state at the start of a session.
    pub fn new(
        host: Option<Host>,
        ownership: PluginWatchOwnership,
        store: PluginVirtualModuleStore,
    ) -> (r: PluginRefreshState<Host>)
        ensures
            r@ == (Refresh {
                hosted: host is Some,
                watches: ownership@,
                sources: store@,
                pending: Map::empty(),
            }),
            r@.listed(),
            r.runs_on() == host,
    {
        let pending = TextMap::new();
        proof {
            use_type_invariant(&pending);
            let list = lemma_held_is_listed(pending);
            lemma_listing(list, pending@);
        }
        PluginRefreshState { host, ownership, store, pending }
    }

    /// The sources.
    pub fn store(&self) -> (r: &PluginVirtualModuleStore)
        ensures
            r@ == self@.sources,
    {
        &self.store
    }

    /// What runs the loaders.
    pub fn host(&self) -> (r: &Option<Host>)
        ensures
            *r == self.runs_on(),
    {
        &self.host
    }

    /// The paths that are watched, in order, each once.
    pub fn watched_paths(&self) -> (r: Vec<String>)
        ensures
            ascending(texts(r@).map_values(|t: Seq<char>| parts(t))),
            texts(r@).map_values(|t: Seq<char>| parts(t)).to_set() == watched(self@.watches),
    {
        self.ownership.watched_paths()
    }

    /// Begins a refresh: the modules to load after a change of these paths, each
    /// once. Every changed path is given by all of its paths.
    pub fn begin_refresh(&self, changed_paths: &Vec<Vec<String>>) -> (r: RefreshBatch)
        ensures
            r@ == self@.batch(flat(changed_paths@)),
    {
        let mut loads: Vec<(String, VirtualLoaderId)> = Vec::new();
        if self.host.is_none() {
            assert(loaders_view(loads@) =~= Seq::empty());
            return RefreshBatch { loads };
        }
        loads = self.ownership.affected(changed_paths);
        let ghost direct = owners_of_all(self.ownership@, flat(changed_paths@));
        let rest = self.pending.to_pairs();
        let ghost all = pairs_view(rest@);
        proof {
            lemma_listing(all, self.pending@);
        }
        let mut i: usize = 0;
        assert(direct + all.take(0) =~= direct);
        while i < rest.len()
            invariant
                i <= rest@.len(),
                all == pairs_view(rest@),
                all.len() == rest@.len(),
                loaders_view(loads@) == first_of_each(direct + all.take(i as int)),
            decreases rest@.len() - i,
        {
            let ghost seen = loaders_view(loads@);
            proof {
                let next = direct + all.take(i as int + 1);
                assert(next.last() == all[i as int]);
                assert(next.drop_last() =~= direct + all.take(i as int));
            }
            if !knows(&loads, &rest[i].0) {
                loads.push((rest[i].0.clone(), VirtualLoaderId(rest[i].1.clone())));
                assert(loaders_view(loads@) =~= seen.push(all[i as int]));
            }
            i = i + 1;
        }
        assert(all.take(i as int) =~= all);
        RefreshBatch { loads }
    }

    /// Ends a refresh with what the loaders of the batch replied, in order.
    pub fn finish_refresh(
        &mut self,
        batch: RefreshBatch,
        replies: Vec<Result<String, String>>,
    ) -> (r: PluginRefreshOutcome)
        requires
            replies@.len() == batch@.len(),
        ensures
            final(self)@ == old(self)@.after(batch@, replies@),
            final(self)@.listed(),
            final(self).runs_on() == old(self).runs_on(),
            texts(r.refreshed@) == old(self)@.refreshed(batch@, replies@),
            pairs_view(r.failed@) == failures(batch@, replies@),
    {
        let ghost before = self@;
        let ghost all = batch@;
        let loads = batch.loads;
        let (updates, failed) = sort_replies(&loads, &replies);
        if failed.len() > 0 {
            let pairs = pairs_of(&loads);
            self.pending.extend(&pairs);
            assert(self@ == before.after(all, replies@));
            proof {
                use_type_invariant(&self.pending);
                let list = lemma_held_is_listed(self.pending);
                lemma_listing(list, self.pending@);
            }
            let refreshed: Vec<String> = Vec::new();
            assert(texts(refreshed@) =~= Seq::empty());
            return PluginRefreshOutcome { refreshed, failed };
        }
        let mut i: usize = 0;
        assert(all.take(0) =~= Seq::empty());
        assert(self.pending@ =~= before.pending.remove_keys(pairs_map(all.take(0)).dom()));
        while i < loads.len()
            invariant
                i <= loads@.len(),
                all == loaders_view(loads@),
                all.len() == loads@.len(),
                self.pending@ == before.pending.remove_keys(pairs_map(all.take(i as int)).dom()),
                self.host == old(self).host,
                self.ownership == old(self).ownership,
                self.store == old(self).store,
            decreases loads@.len() - i,
        {
            self.pending.remove(loads[i].0.as_str());
            proof {
                assert(all.take(i as int + 1).drop_last() =~= all.take(i as int));
                assert(all.take(i as int + 1).last() == all[i as int]);
            }
            i = i + 1;
            assert(self.pending@ =~= before.pending.remove_keys(
                pairs_map(all.take(i as int)).dom(),
            ));
        }
        assert(all.take(i as int) =~= all);
        let refreshed = ordered_keys(&updates);
        self.store.publish(updates);
        assert(self@ == before.after(all, replies@));
        proof {
            use_type_invariant(&self.pending);
            let list = lemma_held_is_listed(self.pending);
            lemma_listing(list, self.pending@);
        }
        PluginRefreshOutcome { refreshed, failed }
    }
}

proof fn lemma_listing(list: Seq<(Seq<char>, Seq<char>)>, map: Map<Seq<char>, Seq<char>>)
    requires
        keys_ascending(list),
        pairs_map(list) == map,
    ensures
        listing(map) == list,
{
    lemma_pairs_unique(listing(map), list);
}

fn pairs_of(list: &Vec<(String, VirtualLoaderId)>) -> (r: Vec<(String, String)>)
    ensures
        pairs_view(r@) == loaders_view(list@),
{
    let mut out: Vec<(String, String)> = Vec::new();
    let mut i: usize = 0;
    while i < list.len()
        invariant
            i <= list@.len(),
            pairs_view(out@) == loaders_view(list@).take(i as int),
        decreases list@.len() - i,
    {
        let ghost before = pairs_view(out@);
        out.push((list[i].0.clone(), list[i].1.0.clone()));
        assert(pairs_view(out@) =~= before.push(loaders_view(list@)[i as int]));
        i = i + 1;
        assert(pairs_view(out@) =~= loaders_view(list@).take(i as int));
    }
    assert(pairs_view(out@) =~= loaders_view(list@));
    out
}

fn sort_replies(
    loads: &Vec<(String, VirtualLoaderId)>,
    replies: &Vec<Result<String, String>>,
) -> (r: (Vec<(String, String)>, Vec<(String, String)>))
    requires
        replies@.len() == loads@.len(),
    ensures
        pairs_view(r.0@) == fetched(loaders_view(loads@), replies@),
        pairs_view(r.1@) == failures(loaders_view(loads@), replies@),
{
    let ghost all = loaders_view(loads@);
    let mut good: Vec<(String, String)> = Vec::new();
    let mut bad: Vec<(String, String)> = Vec::new();
    let mut i: usize = 0;
    assert(all.take(0) =~= Seq::empty());
    assert(pairs_view(good@) =~= Seq::empty());
    assert(pairs_view(bad@) =~= Seq::empty());
    while i < loads.len()
        invariant
            i <= loads@.len(),
            all == loaders_view(loads@),
            all.len() == loads@.len(),
            replies@.len() == loads@.len(),
            pairs_view(good@) == fetched(all.take(i as int), replies@.take(i as int)),
            pairs_view(bad@) == failures(all.take(i as int), replies@.take(i as int)),
        decreases loads@.len() - i,
    {
        let ghost g = pairs_view(good@);
        let ghost b = pairs_view(bad@);
        proof {
            assert(all.take(i as int + 1).drop_last() =~= all.take(i as int));
            assert(all.take(i as int + 1).last() == all[i as int]);
            assert(replies@.take(i as int + 1).drop_last() =~= replies@.take(i as int));
            assert(replies@.take(i as int + 1).last() == replies@[i as int]);
        }
        match &replies[i] {
            Ok(source) => {
                good.push((loads[i].0.clone(), source.clone()));
                assert(pairs_view(good@) =~= g.push((all[i as int].0, source@)));
            },
            Err(message) => {
                bad.push((loads[i].0.clone(), message.clone()));
                assert(pairs_view(bad@) =~= b.push((all[i as int].0, message@)));
            },
        }
        i = i + 1;
    }
    assert(all.take(i as int) =~= all);
    assert(replies@.take(i as int) =~= replies@);
    (good, bad)
}

fn ordered_keys(list: &Vec<(String, String)>) -> (r: Vec<String>)
    ensures
        texts(r@) == keys_of(listing(pairs_map(pairs_view(list@)))),
{
    let mut map = TextMap::new();
    map.extend(list);
    assert(map@ =~= pairs_map(pairs_view(list@)));
    let pairs = map.to_pairs();
    let ghost all = pairs_view(pairs@);
    proof {
        lemma_listing(all, map@);
    }
    let mut out: Vec<String> = Vec::new();
    let mut i: usize = 0;
    while i < pairs.len()
        invariant
            i <= pairs@.len(),
            all == pairs_view(pairs@),
            texts(out@) == keys_of(all).take(i as int),
        decreases pairs@.len() - i,
    {
        let ghost before = texts(out@);
        out.push(pairs[i].0.clone());
        assert(texts(out@) =~= before.push(keys_of(all)[i as int]));
        i = i + 1;
        assert(texts(out@) =~= keys_of(all).take(i as int));
    }
    assert(texts(out@) =~= keys_of(all));
    out
}

/// Keeping the first pair of each key keeps every key, and none of them twice.
pub proof fn lemma_first_of_each(list: Seq<(Seq<char>, Seq<char>)>)
    ensures
        forall|key: Seq<char>| #[trigger]
            has_key(first_of_each(list), key) <==> has_key(list, key),
        forall|i: int, j: int|
            0 <= i < j < first_of_each(list).len() ==> (#[trigger] first_of_each(list)[i]).0 != (
            #[trigger] first_of_each(list)[j]).0,
    decreases list.len(),
{
    let kept = first_of_each(list);
    if list.len() > 0 {
        let init = list.drop_last();
        let before = first_of_each(init);
        let last = list.last();
        lemma_first_of_each(init);
        assert forall|key: Seq<char>| #[trigger] has_key(kept, key) <==> has_key(list, key) by {
            if has_key(init, key) {
                let i = choose|i: int| 0 <= i < init.len() && (#[trigger] init[i]).0 == key;
                assert(list[i].0 == key);
                assert(has_key(before, key));
                let k = choose|k: int| 0 <= k < before.len() && (#[trigger] before[k]).0 == key;
                assert(kept[k].0 == key);
            }
            if key == last.0 {
                assert(list[list.len() - 1].0 == key);
                if !has_key(before, key) {
                    assert(kept[before.len() as int].0 == key);
                } else {
                    let k = choose|k: int| 0 <= k < before.len() && (#[trigger] before[k]).0 == key;
                    assert(kept[k].0 == key);
                }
            }
            if has_key(list, key) && key != last.0 {
                let i = choose|i: int| 0 <= i < list.len() && (#[trigger] list[i]).0 == key;
                assert(init[i].0 == key);
            }
            if has_key(kept, key) && key != last.0 {
                let i = choose|i: int| 0 <= i < kept.len() && (#[trigger] kept[i]).0 == key;
                assert(before[i].0 == key);
                assert(has_key(before, key));
            }
        }
        assert forall|i: int, j: int| 0 <= i < j < kept.len() implies (#[trigger] kept[i]).0 != (
        #[trigger] kept[j]).0 by {
            assert(kept[i] == before[i]);
            if j < before.len() {
                assert(kept[j] == before[j]);
            }
        }
    }
}

proof fn lemma_owners(watches: Seq<Watch>, path: Seq<Part>, specifier: Seq<char>)
    ensures
        has_key(owners(watches, path), specifier) <==> exists|i: int|
            0 <= i < watches.len() && (#[trigger] watches[i]).path == path && watches[i].specifier
                == specifier,
    decreases watches.len(),
{
    if watches.len() > 0 {
        let init = watches.drop_last();
        let last = watches.last();
        let before = owners(init, path);
        let all = owners(watches, path);
        lemma_owners(init, path, specifier);
        if has_key(before, specifier) {
            let k = choose|k: int| 0 <= k < before.len() && (#[trigger] before[k]).0 == specifier;
            assert(all[k].0 == specifier);
            let i = choose|i: int|
                0 <= i < init.len() && (#[trigger] init[i]).path == path && init[i].specifier
                    == specifier;
            assert(watches[i] == init[i]);
        }
        if last.path == path && last.specifier == specifier {
            assert(all[before.len() as int].0 == specifier);
            assert(watches[watches.len() - 1] == last);
        }
        if has_key(all, specifier) && !has_key(before, specifier) {
            let k = choose|k: int| 0 <= k < all.len() && (#[trigger] all[k]).0 == specifier;
            if k < before.len() {
                assert(before[k].0 == specifier);
            }
        }
        if exists|i: int|
            0 <= i < watches.len() && (#[trigger] watches[i]).path == path && watches[i].specifier
                == specifier {
            let i = choose|i: int|
                0 <= i < watches.len() && (#[trigger] watches[i]).path == path
                    && watches[i].specifier == specifier;
            if i < init.len() {
                assert(init[i] == watches[i]);
            }
        }
    }
}

proof fn lemma_has_key_concat(
    a: Seq<(Seq<char>, Seq<char>)>,
    b: Seq<(Seq<char>, Seq<char>)>,
    key: Seq<char>,
)
    ensures
        has_key(a + b, key) <==> has_key(a, key) || has_key(b, key),
{
    let all = a + b;
    if has_key(a, key) {
        let i = choose|i: int| 0 <= i < a.len() && (#[trigger] a[i]).0 == key;
        assert(all[i].0 == key);
    }
    if has_key(b, key) {
        let i = choose|i: int| 0 <= i < b.len() && (#[trigger] b[i]).0 == key;
        assert(all[a.len() + i].0 == key);
    }
    if has_key(all, key) {
        let i = choose|i: int| 0 <= i < all.len() && (#[trigger] all[i]).0 == key;
        if i < a.len() {
            assert(a[i].0 == key);
        } else {
            assert(b[i - a.len()].0 == key);
        }
    }
}

/// A loader watches one of the paths for the module.
pub open spec fn watched_by(
    watches: Seq<Watch>,
    paths: Seq<Seq<char>>,
    specifier: Seq<char>,
) -> bool {
    exists|i: int, k: int|
        0 <= i < watches.len() && 0 <= k < paths.len() && (#[trigger] watches[i]).specifier
            == specifier && watches[i].path == parts(#[trigger] paths[k])
}

/// A module is loaded again exactly where its loader watches one of the changed
/// paths, and then once.
pub proof fn lemma_affected(watches: Seq<Watch>, paths: Seq<Seq<char>>, specifier: Seq<char>)
    ensures
        has_key(first_of_each(owners_of_all(watches, paths)), specifier) <==> watched_by(
            watches,
            paths,
            specifier,
        ),
{
    lemma_first_of_each(owners_of_all(watches, paths));
    lemma_owners_of_all(watches, paths, specifier);
}

proof fn lemma_owners_of_all(watches: Seq<Watch>, paths: Seq<Seq<char>>, specifier: Seq<char>)
    ensures
        has_key(owners_of_all(watches, paths), specifier) <==> watched_by(
            watches,
            paths,
            specifier,
        ),
    decreases paths.len(),
{
    if paths.len() > 0 {
        let init = paths.drop_last();
        let last = parts(paths.last());
        lemma_owners_of_all(watches, init, specifier);
        lemma_owners(watches, last, specifier);
        lemma_has_key_concat(owners_of_all(watches, init), owners(watches, last), specifier);
        if watched_by(watches, init, specifier) {
            let (i, k) = choose|i: int, k: int|
                0 <= i < watches.len() && 0 <= k < init.len() && (#[trigger] watches[i]).specifier
                    == specifier && watches[i].path == parts(#[trigger] init[k]);
            assert(paths[k] == init[k]);
        }
        if has_key(owners(watches, last), specifier) {
            let i = choose|i: int|
                0 <= i < watches.len() && (#[trigger] watches[i]).path == last
                    && watches[i].specifier == specifier;
            assert(paths[paths.len() - 1] == paths.last());
        }
        if watched_by(watches, paths, specifier) {
            let (i, k) = choose|i: int, k: int|
                0 <= i < watches.len() && 0 <= k < paths.len() && (#[trigger] watches[i]).specifier
                    == specifier && watches[i].path == parts(#[trigger] paths[k]);
            if k < init.len() {
                assert(init[k] == paths[k]);
            }
        }
    }
}

impl Refresh {
    /// What is still to be loaded again can be listed.
    pub open spec fn listed(self) -> bool {
        keys_ascending(listing(self.pending)) && pairs_map(listing(self.pending)) == self.pending
    }
}

/// A refresh is all or nothing. Where any loader of the batch failed, every
/// source is as it was, and no module counts as refreshed.
pub proof fn lemma_all_or_nothing(
    state: Refresh,
    batch: Seq<(Seq<char>, Seq<char>)>,
    replies: Seq<Result<String, String>>,
)
    ensures
        failures(batch, replies).len() > 0 ==> {
            &&& state.after(batch, replies).sources == state.sources
            &&& state.refreshed(batch, replies).len() == 0
        },
        failures(batch, replies).len() == 0 ==> {
            &&& state.after(batch, replies).sources == state.sources.union_prefer_right(
                pairs_map(fetched(batch, replies)),
            )
            &&& forall|k: int|
                0 <= k < batch.len() ==> !state.after(batch, replies).pending.contains_key(
                    (#[trigger] batch[k]).0,
                )
        },
{
    if failures(batch, replies).len() == 0 {
        assert forall|k: int| 0 <= k < batch.len() implies !state.after(
            batch,
            replies,
        ).pending.contains_key((#[trigger] batch[k]).0) by {
            lemma_pairs_map_keys(batch, batch[k].0);
            assert(has_key(batch, batch[k].0));
        }
    }
}

/// No key occurs twice.
pub open spec fn keys_distinct(list: Seq<(Seq<char>, Seq<char>)>) -> bool {
    forall|i: int, j: int|
        0 <= i < j < list.len() ==> (#[trigger] list[i]).0 != (#[trigger] list[j]).0
}

/// The first pair of its key is kept.
proof fn lemma_first_is_kept(list: Seq<(Seq<char>, Seq<char>)>, i: int)
    requires
        0 <= i < list.len(),
        forall|j: int| 0 <= j < i ==> (#[trigger] list[j]).0 != list[i].0,
    ensures
        first_of_each(list).contains(list[i]),
    decreases list.len(),
{
    let init = list.drop_last();
    let before = first_of_each(init);
    let kept = first_of_each(list);
    if i == list.len() - 1 {
        lemma_first_of_each(init);
        assert(!has_key(init, list[i].0));
        assert(!has_key(before, list[i].0));
        assert(kept[before.len() as int] == list[i]);
    } else {
        lemma_first_is_kept(init, i);
        assert(init[i] == list[i]);
        let k = choose|k: int| 0 <= k < before.len() && before[k] == list[i];
        assert(kept[k] == list[i]);
    }
}

/// A pair of a list without repeated keys is in the list of the map as it is.
proof fn lemma_listed_pair(
    list: Seq<(Seq<char>, Seq<char>)>,
    sorted: Seq<(Seq<char>, Seq<char>)>,
    k: int,
)
    requires
        keys_distinct(list),
        0 <= k < list.len(),
        keys_ascending(sorted),
        pairs_map(sorted).contains_key(list[k].0),
        pairs_map(sorted)[list[k].0] == pairs_map(list)[list[k].0],
    ensures
        sorted.contains(list[k]),
{
    let key = list[k].0;
    lemma_distinct_entry(list, k);
    lemma_pairs_map_keys(sorted, key);
    let i = choose|i: int| 0 <= i < sorted.len() && (#[trigger] sorted[i]).0 == key;
    lemma_pairs_map_entry(sorted, i);
    assert(sorted[i] == list[k]);
}

proof fn lemma_distinct_entry(list: Seq<(Seq<char>, Seq<char>)>, k: int)
    requires
        keys_distinct(list),
        0 <= k < list.len(),
    ensures
        pairs_map(list).contains_key(list[k].0),
        pairs_map(list)[list[k].0] == list[k].1,
    decreases list.len(),
{
    let init = list.drop_last();
    if k < list.len() - 1 {
        assert(keys_distinct(init)) by {
            assert forall|i: int, j: int| 0 <= i < j < init.len() implies (#[trigger] init[i]).0
                != (#[trigger] init[j]).0 by {
                assert(init[i] == list[i] && init[j] == list[j]);
            }
        }
        lemma_distinct_entry(init, k);
        assert(init[k] == list[k]);
        assert(list[k].0 != list[list.len() - 1].0);
    }
}

/// Everything that is still to be loaded again is in the next batch, which has
/// no module twice.
proof fn lemma_batch_takes_pending(state: Refresh, paths: Seq<Seq<char>>, key: Seq<char>)
    requires
        state.hosted,
        state.listed(),
    ensures
        has_key(state.batch(paths), key) <==> state.pending.contains_key(key) || watched_by(
            state.watches,
            paths,
            key,
        ),
        keys_distinct(state.batch(paths)),
{
    let direct = owners_of_all(state.watches, paths);
    let rest = listing(state.pending);
    lemma_first_of_each(direct + rest);
    lemma_has_key_concat(direct, rest, key);
    lemma_owners_of_all(state.watches, paths, key);
    lemma_pairs_map_keys(rest, key);
}

/// Nothing that a failed batch touched is lost: whatever changes next, the next
/// refresh loads exactly the modules of that batch, those whose own loaders had
/// answered too, and those whose loaders watch a file that has changed since.
/// It loads each of them once, and one of the batch with the same loader unless
/// a change names another.
pub proof fn lemma_failed_batch_is_retried(
    state: Refresh,
    earlier: Seq<Seq<char>>,
    replies: Seq<Result<String, String>>,
    paths: Seq<Seq<char>>,
)
    requires
        state.hosted,
        state.listed(),
        failures(state.batch(earlier), replies).len() > 0,
    ensures
        ({
            let batch = state.batch(earlier);
            let next = state.after(batch, replies);
            &&& next.listed()
            &&& keys_distinct(next.batch(paths))
            &&& forall|key: Seq<char>| #[trigger]
                has_key(next.batch(paths), key) <==> has_key(batch, key) || watched_by(
                    state.watches,
                    paths,
                    key,
                )
            &&& forall|k: int|
                0 <= k < batch.len() && !watched_by(
                    state.watches,
                    paths,
                    (#[trigger] batch[k]).0,
                ) ==> next.batch(paths).contains(batch[k])
        }),
{
    let batch = state.batch(earlier);
    let next = state.after(batch, replies);
    let sorted = lemma_can_be_listed(listing(state.pending), batch);
    lemma_listing(sorted, next.pending);
    lemma_batch_takes_pending(state, earlier, Seq::empty());
    lemma_batch_takes_pending(next, paths, Seq::empty());
    assert forall|key: Seq<char>| #[trigger] has_key(next.batch(paths), key) <==> has_key(
        batch,
        key,
    ) || watched_by(state.watches, paths, key) by {
        lemma_batch_takes_pending(state, earlier, key);
        lemma_batch_takes_pending(next, paths, key);
        lemma_pairs_map_keys(batch, key);
    }
    let direct = owners_of_all(next.watches, paths);
    let all = direct + sorted;
    assert forall|k: int|
        0 <= k < batch.len() && !watched_by(
            state.watches,
            paths,
            (#[trigger] batch[k]).0,
        ) implies next.batch(paths).contains(batch[k]) by {
        let key = batch[k].0;
        lemma_owners_of_all(state.watches, paths, key);
        lemma_distinct_entry(batch, k);
        lemma_listed_pair(batch, sorted, k);
        let i = choose|i: int| 0 <= i < sorted.len() && sorted[i] == batch[k];
        let at = direct.len() + i;
        assert(all[at] == batch[k]);
        assert forall|j: int| 0 <= j < at implies (#[trigger] all[j]).0 != key by {
            if j < direct.len() {
                assert(direct[j] == all[j]);
                assert(!has_key(direct, key));
            } else {
                lemma_text_order();
                assert(all[j] == sorted[j - direct.len()]);
                assert(lex(char_less())(sorted[j - direct.len()].0, sorted[i].0));
            }
        }
        lemma_first_is_kept(all, at);
    }
}

/// After a success nothing is left over: every module of the batch has the
/// source that its loader replied, and the next refresh loads only what a change
/// asks for.
pub proof fn lemma_success_leaves_nothing(
    state: Refresh,
    earlier: Seq<Seq<char>>,
    replies: Seq<Result<String, String>>,
    paths: Seq<Seq<char>>,
)
    requires
        state.hosted,
        state.listed(),
        replies.len() == state.batch(earlier).len(),
        failures(state.batch(earlier), replies).len() == 0,
    ensures
        ({
            let batch = state.batch(earlier);
            let next = state.after(batch, replies);
            &&& next.pending == Map::<Seq<char>, Seq<char>>::empty()
            &&& next.batch(paths) == first_of_each(owners_of_all(state.watches, paths))
            &&& forall|k: int|
                0 <= k < batch.len() ==> replies[k] is Ok && next.sources.contains_key(
                    (#[trigger] batch[k]).0,
                ) && next.sources[batch[k].0] == replies[k]->Ok_0@
        }),
{
    let batch = state.batch(earlier);
    let next = state.after(batch, replies);
    let empty = Seq::<(Seq<char>, Seq<char>)>::empty();
    assert(next.pending =~= Map::empty()) by {
        assert forall|key: Seq<char>| !next.pending.contains_key(key) by {
            lemma_batch_takes_pending(state, earlier, key);
            lemma_pairs_map_keys(batch, key);
        }
    }
    assert(keys_ascending(empty));
    lemma_listing(empty, next.pending);
    let direct = owners_of_all(state.watches, paths);
    assert(direct + empty =~= direct);
    lemma_all_fetched(batch, replies);
    let got = fetched(batch, replies);
    lemma_batch_takes_pending(state, earlier, Seq::empty());
    assert(keys_distinct(got)) by {
        assert forall|i: int, j: int| 0 <= i < j < got.len() implies (#[trigger] got[i]).0 != (
        #[trigger] got[j]).0 by {
            assert(replies[i] is Ok && replies[j] is Ok);
            assert(batch[i].0 != batch[j].0);
        }
    }
    assert forall|k: int| 0 <= k < batch.len() implies replies[k] is Ok
        && next.sources.contains_key((#[trigger] batch[k]).0) && next.sources[batch[k].0]
        == replies[k]->Ok_0@ by {
        assert(got[k] == (batch[k].0, replies[k]->Ok_0@));
        lemma_distinct_entry(got, k);
    }
}

/// Where no loader failed, the batch has brought a source for each module.
proof fn lemma_all_fetched(
    batch: Seq<(Seq<char>, Seq<char>)>,
    replies: Seq<Result<String, String>>,
)
    requires
        replies.len() == batch.len(),
        failures(batch, replies).len() == 0,
    ensures
        fetched(batch, replies).len() == batch.len(),
        forall|k: int|
            0 <= k < batch.len() ==> #[trigger] replies[k] is Ok && fetched(batch, replies)[k] == (
                batch[k].0,
                replies[k]->Ok_0@,
            ),
    decreases batch.len(),
{
    if batch.len() > 0 {
        let n = batch.len() - 1;
        lemma_all_fetched(batch.drop_last(), replies.drop_last());
        assert forall|k: int| 0 <= k < batch.len() implies #[trigger] replies[k] is Ok && fetched(
            batch,
            replies,
        )[k] == (batch[k].0, replies[k]->Ok_0@) by {
            if k < n {
                assert(replies.drop_last()[k] == replies[k]);
                assert(batch.drop_last()[k] == batch[k]);
            }
        }
    }
}

/// Without a host nothing is loaded, whatever has changed.
pub proof fn lemma_no_host_no_loads(state: Refresh, paths: Seq<Seq<char>>)
    requires
        !state.hosted,
    ensures
        state.batch(paths).len() == 0,
        state.after(state.batch(paths), Seq::empty()).sources == state.sources,
        state.after(state.batch(paths), Seq::empty()).pending == state.pending,
{
    let after = state.after(state.batch(paths), Seq::empty());
    assert(after.sources =~= state.sources);
    assert(after.pending =~= state.pending);
}

} // verus!

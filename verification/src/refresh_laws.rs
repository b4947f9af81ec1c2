//! What the refresh of plugin modules does, told from the registered modules, the
//! changed paths and the replies of the loaders.

use vstd::prelude::*;

use crate::order::{char_less, lex};
use crate::path::{parts, Part};
use crate::plan::texts;
use crate::plugin_refresh::{
    entry_watches, failures, fetched, first_of_each, flat, keys_of, listing, owners, owners_of_all,
    registered, watched, watched_by, Refresh, VirtualModuleEntry, Watch,
};
use crate::text_map::{
    has_key, keys_ascending, lemma_can_be_listed, lemma_pairs_map_keys, pairs_map,
};

verus! {

proof fn lemma_flat(lists: Seq<Vec<String>>, path: Seq<char>)
    ensures
        flat(lists).contains(path) <==> exists|f: int, p: int|
            0 <= f < lists.len() && 0 <= p < lists[f]@.len() && (#[trigger] lists[f]@[p])@ == path,
    decreases lists.len(),
{
    if lists.len() > 0 {
        let init = lists.drop_last();
        let last = lists.last();
        lemma_flat(init, path);
        let before = flat(init);
        let more = texts(last@);
        assert(lists[lists.len() - 1] == last);
        if flat(lists).contains(path) {
            let i = choose|i: int| 0 <= i < flat(lists).len() && flat(lists)[i] == path;
            if i < before.len() {
                assert(before[i] == path);
                let (f, p) = choose|f: int, p: int|
                    0 <= f < init.len() && 0 <= p < init[f]@.len() && (
                    #[trigger] init[f]@[p])@ == path;
                assert(lists[f] == init[f]);
                assert(lists[f]@[p]@ == path);
            } else {
                let p = i - before.len();
                assert(more[p] == path);
                assert(lists[lists.len() - 1]@[p]@ == path);
            }
        }
        if exists|f: int, p: int|
            0 <= f < lists.len() && 0 <= p < lists[f]@.len() && (#[trigger] lists[f]@[p])@
                == path {
            let (f, p) = choose|f: int, p: int|
                0 <= f < lists.len() && 0 <= p < lists[f]@.len() && (#[trigger] lists[f]@[p])@
                    == path;
            if f < init.len() {
                assert(init[f] == lists[f]);
                assert(init[f]@[p]@ == path);
                let i = choose|i: int| 0 <= i < before.len() && before[i] == path;
                assert(flat(lists)[i] == path);
            } else {
                assert(more[p] == path);
                assert(flat(lists)[before.len() + p] == path);
            }
        }
    }
}

/// The loader of the module watches this path, by one of the file's paths.
pub open spec fn brings(entry: VirtualModuleEntry, w: Watch) -> bool {
    &&& w.specifier == entry.specifier@
    &&& w.loader == entry.loader_id.0@
    &&& exists|f: int, p: int|
        0 <= f < entry.watch_files@.len() && 0 <= p < entry.watch_files@[f]@.len() && parts(
            (#[trigger] entry.watch_files@[f]@[p])@,
        ) == w.path
}

proof fn lemma_entry_watches(entry: VirtualModuleEntry, w: Watch)
    ensures
        entry_watches(entry).contains(w) <==> brings(entry, w),
{
    let paths = flat(entry.watch_files@);
    let all = entry_watches(entry);
    if all.contains(w) {
        let i = choose|i: int| 0 <= i < all.len() && all[i] == w;
        assert(paths.contains(paths[i]));
        lemma_flat(entry.watch_files@, paths[i]);
        let (f, p) = choose|f: int, p: int|
            0 <= f < entry.watch_files@.len() && 0 <= p < entry.watch_files@[f]@.len() && (
            #[trigger] entry.watch_files@[f]@[p])@ == paths[i];
        assert(parts(entry.watch_files@[f]@[p]@) == w.path);
    }
    if brings(entry, w) {
        let (f, p) = choose|f: int, p: int|
            0 <= f < entry.watch_files@.len() && 0 <= p < entry.watch_files@[f]@.len() && parts(
                (#[trigger] entry.watch_files@[f]@[p])@,
            ) == w.path;
        let path = entry.watch_files@[f]@[p]@;
        lemma_flat(entry.watch_files@, path);
        let i = choose|i: int| 0 <= i < paths.len() && paths[i] == path;
        assert(all[i] == w);
    }
}

/// A watch is registered exactly where the loader of one of the modules watches
/// the path: every module, every one of its files, and every path of each file
/// counts, and nothing else does.
pub proof fn lemma_what_is_watched(entries: Seq<VirtualModuleEntry>, w: Watch)
    ensures
        registered(entries).contains(w) <==> exists|e: int|
            0 <= e < entries.len() && brings(#[trigger] entries[e], w),
    decreases entries.len(),
{
    if entries.len() > 0 {
        let init = entries.drop_last();
        let last = entries.last();
        assert(entries[entries.len() - 1] == last);
        lemma_what_is_watched(init, w);
        lemma_entry_watches(last, w);
        let before = registered(init);
        let more = entry_watches(last);
        let all = registered(entries);
        if all.contains(w) {
            let i = choose|i: int| 0 <= i < all.len() && all[i] == w;
            if i < before.len() {
                assert(before[i] == w);
                let e = choose|e: int| 0 <= e < init.len() && brings(#[trigger] init[e], w);
                assert(entries[e] == init[e]);
            } else {
                assert(more[i - before.len()] == w);
            }
        }
        if exists|e: int| 0 <= e < entries.len() && brings(#[trigger] entries[e], w) {
            let e = choose|e: int| 0 <= e < entries.len() && brings(#[trigger] entries[e], w);
            if e < init.len() {
                assert(init[e] == entries[e]);
                let i = choose|i: int| 0 <= i < before.len() && before[i] == w;
                assert(all[i] == w);
            } else {
                let i = choose|i: int| 0 <= i < more.len() && more[i] == w;
                assert(all[before.len() + i] == w);
            }
        }
    }
}

/// The paths that are watched are those of the watches.
pub proof fn lemma_watched_paths(watches: Seq<Watch>, path: Seq<Part>)
    ensures
        watched(watches).contains(path) <==> exists|i: int|
            0 <= i < watches.len() && (#[trigger] watches[i]).path == path,
{
    let keys = watches.map_values(|w: Watch| w.path);
    if watched(watches).contains(path) {
        assert(keys.contains(path));
        let i = choose|i: int| 0 <= i < keys.len() && keys[i] == path;
        assert(watches[i].path == path);
    }
    if exists|i: int| 0 <= i < watches.len() && (#[trigger] watches[i]).path == path {
        let i = choose|i: int| 0 <= i < watches.len() && (#[trigger] watches[i]).path == path;
        assert(keys[i] == path);
        assert(keys.contains(path));
    }
}

/// The module with this loader is registered for one of the paths.
pub open spec fn asked_for(
    watches: Seq<Watch>,
    paths: Seq<Seq<char>>,
    specifier: Seq<char>,
    loader: Seq<char>,
) -> bool {
    exists|i: int, k: int|
        0 <= i < watches.len() && 0 <= k < paths.len() && (#[trigger] watches[i]).specifier
            == specifier && watches[i].loader == loader && watches[i].path == parts(
            #[trigger] paths[k],
        )
}

proof fn lemma_owner(watches: Seq<Watch>, path: Seq<Part>, pair: (Seq<char>, Seq<char>))
    requires
        owners(watches, path).contains(pair),
    ensures
        exists|i: int|
            0 <= i < watches.len() && (#[trigger] watches[i]).path == path && watches[i].specifier
                == pair.0 && watches[i].loader == pair.1,
    decreases watches.len(),
{
    if watches.len() > 0 {
        let init = watches.drop_last();
        let before = owners(init, path);
        let all = owners(watches, path);
        let k = choose|k: int| 0 <= k < all.len() && all[k] == pair;
        if k < before.len() {
            assert(before[k] == pair);
            lemma_owner(init, path, pair);
            let i = choose|i: int|
                0 <= i < init.len() && (#[trigger] init[i]).path == path && init[i].specifier
                    == pair.0 && init[i].loader == pair.1;
            assert(watches[i] == init[i]);
        } else {
            assert(watches[watches.len() - 1].path == path);
        }
    }
}

proof fn lemma_owner_of_all(
    watches: Seq<Watch>,
    paths: Seq<Seq<char>>,
    pair: (Seq<char>, Seq<char>),
)
    requires
        owners_of_all(watches, paths).contains(pair),
    ensures
        asked_for(watches, paths, pair.0, pair.1),
    decreases paths.len(),
{
    if paths.len() > 0 {
        let init = paths.drop_last();
        let before = owners_of_all(watches, init);
        let more = owners(watches, parts(paths.last()));
        let all = owners_of_all(watches, paths);
        let n = choose|n: int| 0 <= n < all.len() && all[n] == pair;
        if n < before.len() {
            assert(before[n] == pair);
            lemma_owner_of_all(watches, init, pair);
            let (i, k) = choose|i: int, k: int|
                0 <= i < watches.len() && 0 <= k < init.len() && (#[trigger] watches[i]).specifier
                    == pair.0 && watches[i].loader == pair.1 && watches[i].path == parts(
                    #[trigger] init[k],
                );
            assert(paths[k] == init[k]);
        } else {
            assert(more[n - before.len()] == pair);
            lemma_owner(watches, parts(paths.last()), pair);
            let i = choose|i: int|
                0 <= i < watches.len() && (#[trigger] watches[i]).path == parts(paths.last())
                    && watches[i].specifier == pair.0 && watches[i].loader == pair.1;
            assert(paths[paths.len() - 1] == paths.last());
            assert(watches[i].path == parts(paths[paths.len() - 1]));
        }
    }
}

/// What is kept of a list is in it, and is the first of its key.
proof fn lemma_first(list: Seq<(Seq<char>, Seq<char>)>, pair: (Seq<char>, Seq<char>)) -> (i: int)
    requires
        first_of_each(list).contains(pair),
    ensures
        0 <= i < list.len(),
        list[i] == pair,
        forall|j: int| 0 <= j < i ==> (#[trigger] list[j]).0 != pair.0,
    decreases list.len(),
{
    if list.len() == 0 {
        0
    } else {
        let init = list.drop_last();
        let before = first_of_each(init);
        let kept = first_of_each(list);
        let k = choose|k: int| 0 <= k < kept.len() && kept[k] == pair;
        if k < before.len() {
            assert(before[k] == pair);
            let i = lemma_first(init, pair);
            assert forall|j: int| 0 <= j < i implies (#[trigger] list[j]).0 != pair.0 by {
                assert(init[j] == list[j]);
            }
            assert(init[i] == list[i]);
            i
        } else {
            crate::plugin_refresh::lemma_first_of_each(init);
            let n = list.len() - 1;
            assert forall|j: int| 0 <= j < n implies (#[trigger] list[j]).0 != pair.0 by {
                assert(init[j] == list[j]);
                if init[j].0 == pair.0 {
                    assert(has_key(init, pair.0));
                }
            }
            n
        }
    }
}

/// A refresh loads a module with a loader that is registered for it and watches
/// one of the changed paths. Only where none does, it loads it with the loader
/// with which an earlier batch failed.
pub proof fn lemma_who_loads(
    state: Refresh,
    paths: Seq<Seq<char>>,
    pair: (Seq<char>, Seq<char>),
)
    requires
        state.batch(paths).contains(pair),
        state.listed(),
    ensures
        state.hosted,
        watched_by(state.watches, paths, pair.0) ==> asked_for(
            state.watches,
            paths,
            pair.0,
            pair.1,
        ),
        !watched_by(state.watches, paths, pair.0) ==> state.pending.contains_key(pair.0)
            && state.pending[pair.0] == pair.1,
{
    let direct = owners_of_all(state.watches, paths);
    let rest = listing(state.pending);
    let all = direct + rest;
    let i = lemma_first(all, pair);
    crate::plugin_refresh::lemma_affected(state.watches, paths, pair.0);
    crate::plugin_refresh::lemma_first_of_each(direct);
    if i < direct.len() {
        assert(direct[i] == pair);
        lemma_owner_of_all(state.watches, paths, pair);
        assert(has_key(direct, pair.0));
    } else {
        assert(rest[i - direct.len()] == pair);
        if has_key(direct, pair.0) {
            let j = choose|j: int| 0 <= j < direct.len() && (#[trigger] direct[j]).0 == pair.0;
            assert(all[j] == direct[j]);
        }
        crate::text_map::lemma_pairs_map_entry(rest, i - direct.len());
    }
}

/// Each reply is taken for the module that it answers for: a source, or a failure
/// with its message, in the order of the batch.
pub proof fn lemma_replies_are_sorted(
    batch: Seq<(Seq<char>, Seq<char>)>,
    replies: Seq<Result<String, String>>,
    module: (Seq<char>, Seq<char>),
    source: String,
    message: String,
)
    ensures
        fetched(Seq::empty(), Seq::empty()).len() == 0,
        failures(Seq::empty(), Seq::empty()).len() == 0,
        fetched(batch.push(module), replies.push(Ok(source))) == fetched(batch, replies).push(
            (module.0, source@),
        ),
        fetched(batch.push(module), replies.push(Err(message))) == fetched(batch, replies),
        failures(batch.push(module), replies.push(Ok(source))) == failures(batch, replies),
        failures(batch.push(module), replies.push(Err(message))) == failures(batch, replies).push(
            (module.0, message@),
        ),
{
    assert(batch.push(module).drop_last() =~= batch);
    assert(replies.push(Ok(source)).drop_last() =~= replies);
    assert(replies.push(Err(message)).drop_last() =~= replies);
}

proof fn lemma_any_failure(
    batch: Seq<(Seq<char>, Seq<char>)>,
    replies: Seq<Result<String, String>>,
)
    requires
        batch.len() == replies.len(),
    ensures
        failures(batch, replies).len() > 0 <==> exists|k: int|
            0 <= k < replies.len() && #[trigger] replies[k] is Err,
    decreases batch.len(),
{
    if batch.len() > 0 {
        let init = replies.drop_last();
        lemma_any_failure(batch.drop_last(), init);
        assert(replies[replies.len() - 1] == replies.last());
        if exists|k: int| 0 <= k < init.len() && #[trigger] init[k] is Err {
            let k = choose|k: int| 0 <= k < init.len() && #[trigger] init[k] is Err;
            assert(replies[k] is Err);
        }
        if exists|k: int| 0 <= k < replies.len() && #[trigger] replies[k] is Err {
            let k = choose|k: int| 0 <= k < replies.len() && #[trigger] replies[k] is Err;
            if k < init.len() {
                assert(init[k] is Err);
            }
        }
    }
}

proof fn lemma_fetched_keys(
    batch: Seq<(Seq<char>, Seq<char>)>,
    replies: Seq<Result<String, String>>,
    key: Seq<char>,
)
    ensures
        has_key(fetched(batch, replies), key) ==> has_key(batch, key),
    decreases batch.len(),
{
    if batch.len() > 0 {
        let init = batch.drop_last();
        let before = fetched(init, replies.drop_last());
        lemma_fetched_keys(init, replies.drop_last(), key);
        let all = fetched(batch, replies);
        if has_key(all, key) {
            let k = choose|k: int| 0 <= k < all.len() && (#[trigger] all[k]).0 == key;
            if k < before.len() {
                assert(before[k].0 == key);
                let i = choose|i: int| 0 <= i < init.len() && (#[trigger] init[i]).0 == key;
                assert(batch[i].0 == key);
            } else {
                assert(batch[batch.len() - 1].0 == key);
            }
        }
    }
}

/// One failed reply keeps every source as it was, and every module of the batch
/// is to be loaded again, with its loader. Otherwise no module of the batch is.
/// A module that is not of the batch keeps its source, and stays to be loaded
/// again where it was. What is watched, and whether there is a host, never
/// changes.
pub proof fn lemma_refresh_keeps_the_rest(
    state: Refresh,
    batch: Seq<(Seq<char>, Seq<char>)>,
    replies: Seq<Result<String, String>>,
    key: Seq<char>,
)
    requires
        batch.len() == replies.len(),
    ensures
        ({
            let next = state.after(batch, replies);
            let failed = exists|k: int| 0 <= k < replies.len() && #[trigger] replies[k] is Err;
            &&& next.watches == state.watches
            &&& next.hosted == state.hosted
            &&& failed ==> next.sources == state.sources
            &&& failed && has_key(batch, key) ==> next.pending.contains_key(key)
            &&& !failed && has_key(batch, key) ==> !next.pending.contains_key(key)
            &&& !has_key(batch, key) ==> {
                &&& next.sources.contains_key(key) == state.sources.contains_key(key)
                &&& next.sources.contains_key(key) ==> next.sources[key] == state.sources[key]
                &&& next.pending.contains_key(key) == state.pending.contains_key(key)
                &&& next.pending.contains_key(key) ==> next.pending[key] == state.pending[key]
            }
        }),
{
    lemma_any_failure(batch, replies);
    lemma_pairs_map_keys(batch, key);
    lemma_pairs_map_keys(fetched(batch, replies), key);
    lemma_fetched_keys(batch, replies, key);
}

/// Where no loader failed, a refresh reports each module of the batch as refreshed,
/// once, and in dictionary order. Where one did, it reports none.
pub proof fn lemma_what_is_refreshed(
    state: Refresh,
    batch: Seq<(Seq<char>, Seq<char>)>,
    replies: Seq<Result<String, String>>,
    key: Seq<char>,
)
    requires
        batch.len() == replies.len(),
    ensures
        ({
            let done = state.refreshed(batch, replies);
            let failed = exists|k: int| 0 <= k < replies.len() && #[trigger] replies[k] is Err;
            &&& failed ==> done.len() == 0
            &&& !failed ==> (done.contains(key) <==> has_key(batch, key))
            &&& forall|i: int, j: int|
                0 <= i < j < done.len() ==> lex(char_less())(
                    #[trigger] done[i],
                    #[trigger] done[j],
                )
        }),
{
    lemma_any_failure(batch, replies);
    let got = fetched(batch, replies);
    let map = pairs_map(got);
    let empty = Seq::<(Seq<char>, Seq<char>)>::empty();
    let sorted = lemma_can_be_listed(empty, got);
    assert(pairs_map(empty).union_prefer_right(map) =~= map);
    let list = listing(map);
    assert(keys_ascending(list) && pairs_map(list) == map) by {
        assert(keys_ascending(sorted) && pairs_map(sorted) == map);
    }
    let done = keys_of(list);
    assert forall|i: int, j: int| 0 <= i < j < done.len() implies lex(char_less())(
        #[trigger] done[i],
        #[trigger] done[j],
    ) by {
        assert(done[i] == list[i].0 && done[j] == list[j].0);
    }
    assert(done.contains(key) <==> has_key(list, key)) by {
        if done.contains(key) {
            let i = choose|i: int| 0 <= i < done.len() && done[i] == key;
            assert(list[i].0 == key);
        }
        if has_key(list, key) {
            let i = choose|i: int| 0 <= i < list.len() && (#[trigger] list[i]).0 == key;
            assert(done[i] == key);
        }
    }
    lemma_pairs_map_keys(list, key);
    lemma_pairs_map_keys(got, key);
    lemma_fetched_keys(batch, replies, key);
    if failures(batch, replies).len() == 0 {
        lemma_all_are_fetched(batch, replies, key);
    }
}

proof fn lemma_all_are_fetched(
    batch: Seq<(Seq<char>, Seq<char>)>,
    replies: Seq<Result<String, String>>,
    key: Seq<char>,
)
    requires
        batch.len() == replies.len(),
        failures(batch, replies).len() == 0,
    ensures
        has_key(batch, key) ==> has_key(fetched(batch, replies), key),
    decreases batch.len(),
{
    if batch.len() > 0 {
        let init = batch.drop_last();
        let before = fetched(init, replies.drop_last());
        let all = fetched(batch, replies);
        lemma_all_are_fetched(init, replies.drop_last(), key);
        if has_key(batch, key) {
            let i = choose|i: int| 0 <= i < batch.len() && (#[trigger] batch[i]).0 == key;
            if i < init.len() {
                assert(init[i].0 == key);
                let k = choose|k: int| 0 <= k < before.len() && (#[trigger] before[k]).0 == key;
                assert(all[k].0 == key);
            } else {
                assert(all[before.len() as int].0 == key);
            }
        }
    }
}

/// One more watch adds its module behind the others, for its own path alone. One
/// more changed path adds the modules that watch it behind those of the other
/// paths. Of two loaders for one module the first counts.
pub proof fn lemma_modules_in_order(
    watches: Seq<Watch>,
    w: Watch,
    paths: Seq<Seq<char>>,
    path: Seq<char>,
    list: Seq<(Seq<char>, Seq<char>)>,
    pair: (Seq<char>, Seq<char>),
)
    ensures
        owners(watches.push(w), w.path) == owners(watches, w.path).push((w.specifier, w.loader)),
        w.path != parts(path) ==> owners(watches.push(w), parts(path)) == owners(
            watches,
            parts(path),
        ),
        owners_of_all(watches, paths.push(path)) == owners_of_all(watches, paths) + owners(
            watches,
            parts(path),
        ),
        has_key(list, pair.0) ==> first_of_each(list.push(pair)) == first_of_each(list),
        !has_key(list, pair.0) ==> first_of_each(list.push(pair)) == first_of_each(list).push(
            pair,
        ),
{
    assert(watches.push(w).drop_last() =~= watches);
    assert(paths.push(path).drop_last() =~= paths);
    assert(list.push(pair).drop_last() =~= list);
    crate::plugin_refresh::lemma_first_of_each(list);
}

proof fn lemma_longer_keeps_first(
    list: Seq<(Seq<char>, Seq<char>)>,
    more: Seq<(Seq<char>, Seq<char>)>,
)
    ensures
        first_of_each(list).is_prefix_of(first_of_each(list + more)),
    decreases more.len(),
{
    if more.len() == 0 {
        assert(list + more =~= list);
    } else {
        let init = more.drop_last();
        lemma_longer_keeps_first(list, init);
        assert((list + more).drop_last() =~= list + init);
    }
}

/// The modules that watch a changed path stand in front of the batch, in the order
/// of the paths: a path that changed as well puts nothing in front of them, and
/// neither does what is still to be loaded again.
pub proof fn lemma_changed_modules_first(state: Refresh, paths: Seq<Seq<char>>, path: Seq<char>)
    requires
        state.hosted,
    ensures
        first_of_each(owners_of_all(state.watches, paths)).is_prefix_of(state.batch(paths)),
        first_of_each(owners_of_all(state.watches, paths)).is_prefix_of(
            state.batch(paths.push(path)),
        ),
{
    let direct = owners_of_all(state.watches, paths);
    let more = owners(state.watches, parts(path));
    assert(paths.push(path).drop_last() =~= paths);
    lemma_longer_keeps_first(direct, listing(state.pending));
    lemma_longer_keeps_first(direct, more + listing(state.pending));
    assert(direct + (more + listing(state.pending)) =~= direct + more + listing(state.pending));
}

/// No key stands twice in the list.
pub open spec fn each_once(list: Seq<(Seq<char>, Seq<char>)>) -> bool {
    forall|i: int, j: int|
        0 <= i < j < list.len() ==> (#[trigger] list[i]).0 != (#[trigger] list[j]).0
}

proof fn lemma_pair_is_held(list: Seq<(Seq<char>, Seq<char>)>, k: int)
    requires
        each_once(list),
        0 <= k < list.len(),
    ensures
        pairs_map(list).contains_key(list[k].0),
        pairs_map(list)[list[k].0] == list[k].1,
    decreases list.len(),
{
    let init = list.drop_last();
    if k < init.len() {
        assert(each_once(init)) by {
            assert forall|i: int, j: int| 0 <= i < j < init.len() implies (#[trigger] init[i]).0
                != (#[trigger] init[j]).0 by {
                assert(list[i].0 != list[j].0);
            }
        }
        lemma_pair_is_held(init, k);
        assert(list[k].0 != list[list.len() - 1].0);
    }
}

proof fn lemma_all_came(
    batch: Seq<(Seq<char>, Seq<char>)>,
    replies: Seq<Result<String, String>>,
    k: int,
)
    requires
        batch.len() == replies.len(),
        forall|i: int| 0 <= i < replies.len() ==> #[trigger] replies[i] is Ok,
        0 <= k < batch.len(),
    ensures
        fetched(batch, replies).len() == batch.len(),
        fetched(batch, replies)[k] == (batch[k].0, replies[k]->Ok_0@),
    decreases batch.len(),
{
    assert(replies[replies.len() - 1] is Ok);
    if batch.len() > 1 {
        let init = replies.drop_last();
        assert forall|i: int| 0 <= i < init.len() implies #[trigger] init[i] is Ok by {
            assert(replies[i] is Ok);
        }
        lemma_all_came(batch.drop_last(), init, if k < batch.len() - 1 { k } else { 0 });
    } else {
        assert(fetched(batch.drop_last(), replies.drop_last()) =~= Seq::empty());
    }
}

/// Where every loader gave a source, each module of the batch has the source that
/// its own loader gave. Where one failed, each is to be loaded again, with the
/// loader that it had.
pub proof fn lemma_reply_is_taken(
    state: Refresh,
    batch: Seq<(Seq<char>, Seq<char>)>,
    replies: Seq<Result<String, String>>,
    k: int,
)
    requires
        batch.len() == replies.len(),
        each_once(batch),
        0 <= k < batch.len(),
    ensures
        ({
            let next = state.after(batch, replies);
            let failed = exists|i: int| 0 <= i < replies.len() && #[trigger] replies[i] is Err;
            &&& failed ==> next.pending.contains_key(batch[k].0) && next.pending[batch[k].0]
                == batch[k].1
            &&& !failed ==> replies[k] is Ok && next.sources.contains_key(batch[k].0)
                && next.sources[batch[k].0] == replies[k]->Ok_0@
        }),
{
    lemma_any_failure(batch, replies);
    lemma_pair_is_held(batch, k);
    if forall|i: int| 0 <= i < replies.len() ==> #[trigger] replies[i] is Ok {
        let got = fetched(batch, replies);
        lemma_all_came(batch, replies, k);
        assert forall|i: int, j: int| 0 <= i < j < got.len() implies (#[trigger] got[i]).0 != (
        #[trigger] got[j]).0 by {
            lemma_all_came(batch, replies, i);
            lemma_all_came(batch, replies, j);
            assert(batch[i].0 != batch[j].0);
        }
        lemma_pair_is_held(got, k);
    }
    assert(replies[k] is Ok || replies[k] is Err);
    assert(!(exists|i: int| 0 <= i < replies.len() && #[trigger] replies[i] is Err) ==> forall|
        i: int,
    |
        0 <= i < replies.len() ==> #[trigger] replies[i] is Ok) by {
        if !(exists|i: int| 0 <= i < replies.len() && #[trigger] replies[i] is Err) {
            assert forall|i: int| 0 <= i < replies.len() implies #[trigger] replies[i] is Ok by {
                assert(!(replies[i] is Err));
            }
        }
    }
}

/// No module stands twice in a batch.
pub proof fn lemma_batch_has_each_once(state: Refresh, paths: Seq<Seq<char>>)
    ensures
        each_once(state.batch(paths)),
{
    crate::plugin_refresh::lemma_first_of_each(
        owners_of_all(state.watches, paths) + listing(state.pending),
    );
}

} // verus!

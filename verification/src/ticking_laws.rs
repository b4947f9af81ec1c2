//! What a tick does, told from the changes and from what is known of them.

use vstd::prelude::*;

use crate::facts::{changes_view, fact_paths, Change, ChangeKind, PathClass, PathFacts, Project};
use crate::orchestrator::planned;
use crate::page::{page_key_set, PageId};
use crate::path::Part;
use crate::plan::{lemma_merge, texts, DirtySet, Plan, Selection};
use crate::planning_laws::{
    chosen, css_reason, is_source, islands_reason, lemma_mirrored, lemma_names, lemma_plan_runs,
    lemma_plan_selects, mirrored, names, reported_dirty, reports_none, scripts_reason, ssr_reason,
    takes_all, takes_page, unnarrowed,
};
use crate::tick::{
    change_paths, content_paths, created_paths, live_changes, normalized, removal_claims_all,
    removal_wants_client_scripts, removal_wants_css, removal_wants_islands, removal_wants_ssr,
    removed_paths, settled, tick_plan, CreatedFacts, DiscoveryOutcome, Told,
};
use crate::tick_run::{
    lemma_plan_is_made_of_what_was_told, tell, tick_acts, told_all, told_by, Tick, TickAction,
    TickAnswer, TickWait,
};

verus! {

/// The removal of a path is a reason to run the CSS pipeline.
pub open spec fn removal_restyles(project: Project, f: PathFacts) -> bool {
    ||| f.plugin_watch_target
    ||| f.class == PathClass::Global
    ||| f.class == PathClass::Style
    ||| mirrored(project, f)
}

/// The removal of a path is a reason to run the islands bundler.
pub open spec fn removal_rebundles_islands(f: PathFacts) -> bool {
    ||| f.plugin_watch_target
    ||| f.class == PathClass::Global
    ||| f.class == PathClass::Module && f.islands_candidate
    ||| f.islands_dependency
}

/// The removal of a path is a reason to run the client-scripts bundler.
pub open spec fn removal_rebundles_scripts(f: PathFacts) -> bool {
    ||| f.plugin_watch_target
    ||| f.class == PathClass::Global
    ||| f.client_script_candidate
    ||| f.client_script_raw_target
    ||| f.client_script_worker_target
    ||| f.client_script_sibling_target
}

/// The removal of a path is a reason to reload the renderer.
pub open spec fn removal_reloads(f: PathFacts) -> bool {
    ||| f.plugin_watch_target
    ||| f.class == PathClass::Global
    ||| is_source(f.class)
    ||| f.class == PathClass::External
}

/// A removed path is global or watched by a plugin.
pub open spec fn removal_takes_all(f: PathFacts) -> bool {
    f.plugin_watch_target || f.class == PathClass::Global
}

/// A tick runs each sub-pipeline exactly where one of the live changes or one of
/// the removed paths is a reason to. Whether the renderer is fresh, and which
/// outputs go, is what discovery reports. The triggers are the live paths, in
/// order.
pub proof fn lemma_tick_runs(
    project: Project,
    live: Seq<(Seq<char>, ChangeKind)>,
    told: Told,
)
    ensures
        ({
            let plan = tick_plan(project, live, told);
            let n = told.planned.len();
            let m = told.removed.len();
            &&& plan.rerun_css <==> (exists|i: int|
                0 <= i < n && #[trigger] css_reason(project, told.planned, i)) || (exists|j: int|
                0 <= j < m && removal_restyles(project, #[trigger] told.removed[j]))
            &&& plan.rerun_islands <==> (exists|i: int|
                0 <= i < n && #[trigger] islands_reason(project, told.planned, i)) || (exists|
                j: int,
            | 0 <= j < m && removal_rebundles_islands(#[trigger] told.removed[j]))
            &&& plan.rerun_client_scripts <==> (exists|i: int|
                0 <= i < n && #[trigger] scripts_reason(project, told.planned, i)) || (exists|
                j: int,
            | 0 <= j < m && removal_rebundles_scripts(#[trigger] told.removed[j]))
            &&& plan.ssr_reload_needed <==> (exists|i: int|
                0 <= i < n && #[trigger] ssr_reason(project, told.planned, i)) || (exists|j: int|
                0 <= j < m && removal_reloads(#[trigger] told.removed[j]))
            &&& plan.renderer_fresh == told.reloaded
            &&& plan.prune_paths == told.vanished
            &&& plan.triggers.len() == n
            &&& forall|i: int| 0 <= i < n ==> #[trigger] plan.triggers[i] == told.planned[i].path@
        }),
{
    let plan = tick_plan(project, live, told);
    let base = planned(project, told.planned);
    let m = told.removed.len();
    lemma_plan_runs(project, told.planned);
    assert forall|j: int| 0 <= j < m implies {
        let f = #[trigger] told.removed[j];
        &&& removal_wants_css(project, f) == removal_restyles(project, f)
        &&& removal_wants_islands(f) == removal_rebundles_islands(f)
        &&& removal_wants_client_scripts(f) == removal_rebundles_scripts(f)
        &&& removal_wants_ssr(f) == removal_reloads(f)
    } by {
        lemma_mirrored(project, told.removed[j]);
    }
    assert(plan.rerun_css <==> base.rerun_css || (exists|j: int|
        0 <= j < m && removal_restyles(project, #[trigger] told.removed[j])));
    assert(plan.rerun_islands <==> base.rerun_islands || (exists|j: int|
        0 <= j < m && removal_rebundles_islands(#[trigger] told.removed[j])));
    assert(plan.rerun_client_scripts <==> base.rerun_client_scripts || (exists|j: int|
        0 <= j < m && removal_rebundles_scripts(#[trigger] told.removed[j])));
    assert(plan.ssr_reload_needed <==> base.ssr_reload_needed || (exists|j: int|
        0 <= j < m && removal_reloads(#[trigger] told.removed[j])));
    assert(plan.triggers == base.triggers);
}

/// A tick selects a page exactly where one of the live changes takes it, it reads
/// a removed path, its route was discovered, or everything is rebuilt.
pub proof fn lemma_tick_selects(
    project: Project,
    live: Seq<(Seq<char>, ChangeKind)>,
    told: Told,
    key: Seq<Part>,
)
    ensures
        ({
            let pages = tick_plan(project, live, told).pages;
            let n = told.planned.len();
            let m = told.removed.len();
            let all = exists|j: int| 0 <= j < m && removal_takes_all(#[trigger] told.removed[j]);
            &&& chosen(pages, key) <==> all || (exists|i: int|
                0 <= i < n && #[trigger] takes_page(project, told.planned, i, key)) || names(
                told.removed_consumers,
                key,
            ) || names(told.found, key)
            &&& pages == Selection::All <==> all || (exists|i: int|
                0 <= i < n && #[trigger] takes_all(project, told.planned, i))
        }),
{
    let base = planned(project, told.planned);
    let consumers = Selection::Specific(page_key_set(told.removed_consumers));
    let found = Selection::Specific(page_key_set(told.found));
    lemma_plan_selects(project, told.planned, key);
    lemma_names(told.removed_consumers, key);
    lemma_names(told.found, key);
    lemma_merge(base.pages, consumers, found);
    let m = told.removed.len();
    assert((exists|j: int| 0 <= j < m && removal_takes_all(#[trigger] told.removed[j])) == (exists|
        j: int,
    | 0 <= j < m && removal_claims_all(#[trigger] told.removed[j]))) by {
        if exists|j: int| 0 <= j < m && removal_takes_all(#[trigger] told.removed[j]) {
            let j = choose|j: int| 0 <= j < m && removal_takes_all(#[trigger] told.removed[j]);
            assert(removal_claims_all(told.removed[j]));
        }
        if exists|j: int| 0 <= j < m && removal_claims_all(#[trigger] told.removed[j]) {
            let j = choose|j: int| 0 <= j < m && removal_claims_all(#[trigger] told.removed[j]);
            assert(removal_takes_all(told.removed[j]));
        }
    }
}

/// What the pipeline is handed, in plain terms: nothing exactly where no
/// sub-pipeline runs, no output goes and no page is left to render once `All`
/// stands for the pages that there are; and otherwise the plan, with those pages
/// in place of `All`.
pub proof fn lemma_pipeline_is_handed(plan: Plan, pages: Set<Seq<Part>>)
    ensures
        settled(plan, pages) is None <==> !plan.rerun_css && !plan.rerun_islands
            && !plan.rerun_client_scripts && !plan.ssr_reload_needed && plan.prune_paths.len() == 0
            && (plan.pages matches Selection::Specific(set) ==> forall|key: Seq<Part>|
            !#[trigger] set.contains(key)) && (plan.pages is All ==> forall|key: Seq<Part>|
            !#[trigger] pages.contains(key)),
        settled(plan, pages) matches Some(p) ==> {
            &&& plan.pages is All ==> p.pages == Selection::Specific(pages)
            &&& plan.pages is Specific ==> p.pages == plan.pages
            &&& p.rerun_css == plan.rerun_css
            &&& p.rerun_islands == plan.rerun_islands
            &&& p.rerun_client_scripts == plan.rerun_client_scripts
            &&& p.ssr_reload_needed == plan.ssr_reload_needed
            &&& p.renderer_fresh == plan.renderer_fresh
            &&& p.prune_paths == plan.prune_paths
            &&& p.triggers == plan.triggers
            &&& p.content_narrowing == plan.content_narrowing
        },
{
    if let Selection::Specific(set) = plan.pages {
        if forall|key: Seq<Part>| !#[trigger] set.contains(key) {
            assert(set =~= Set::empty());
        } else {
            let key = choose|key: Seq<Part>| #[trigger] set.contains(key);
            assert(set != Set::<Seq<Part>>::empty());
        }
    } else {
        if forall|key: Seq<Part>| !#[trigger] pages.contains(key) {
            assert(pages =~= Set::empty());
        } else {
            let key = choose|key: Seq<Part>| #[trigger] pages.contains(key);
            assert(pages != Set::<Seq<Part>>::empty());
        }
    }
}

/// A tick in which a stylesheet was removed hands the pipeline a plan that runs
/// the CSS.
pub proof fn lemma_removed_style_reruns_css(
    project: Project,
    live: Seq<(Seq<char>, ChangeKind)>,
    told: Told,
    pages: Set<Seq<Part>>,
    i: int,
)
    requires
        0 <= i < told.removed.len(),
        told.removed[i].class == PathClass::Style,
    ensures
        tick_plan(project, live, told).rerun_css,
        settled(tick_plan(project, live, told), pages) is Some,
        (settled(tick_plan(project, live, told), pages)->0).rerun_css,
{
    lemma_tick_runs(project, live, told);
    assert(removal_restyles(project, told.removed[i]));
    lemma_pipeline_is_handed(tick_plan(project, live, told), pages);
}

/// A tick that edits or creates a stylesheet or a module hands the pipeline a
/// plan that runs the CSS, and one that touches a source of pages or removes one
/// hands it a plan that reloads the renderer.
pub proof fn lemma_tick_hands_on_work(
    project: Project,
    live: Seq<(Seq<char>, ChangeKind)>,
    told: Told,
    pages: Set<Seq<Part>>,
    f: PathFacts,
)
    requires
        told.planned.contains(f) || told.removed.contains(f),
    ensures
        ({
            let handed = settled(tick_plan(project, live, told), pages);
            &&& f.class == PathClass::Style ==> handed is Some && (handed->0).rerun_css
            &&& f.class == PathClass::Module && told.planned.contains(f) ==> handed is Some && (
            handed->0).rerun_css
            &&& is_source(f.class) ==> handed is Some && (handed->0).ssr_reload_needed
            &&& f.plugin_watch_target ==> handed is Some && (handed->0).rerun_css && (
            handed->0).rerun_islands && (handed->0).rerun_client_scripts && (
            handed->0).ssr_reload_needed && (handed->0).pages == Selection::Specific(pages)
        }),
{
    let plan = tick_plan(project, live, told);
    lemma_tick_runs(project, live, told);
    lemma_tick_selects(project, live, told, Seq::empty());
    lemma_pipeline_is_handed(plan, pages);
    if told.planned.contains(f) {
        let i = choose|i: int| 0 <= i < told.planned.len() && told.planned[i] == f;
        assert(f.class == PathClass::Style || f.class == PathClass::Module
            || f.plugin_watch_target ==> css_reason(project, told.planned, i));
        assert(is_source(f.class) || f.plugin_watch_target ==> ssr_reason(
            project,
            told.planned,
            i,
        ));
        if f.plugin_watch_target {
            assert(islands_reason(project, told.planned, i));
            assert(scripts_reason(project, told.planned, i));
            assert(takes_all(project, told.planned, i));
        }
    } else {
        let j = choose|j: int| 0 <= j < told.removed.len() && told.removed[j] == f;
        assert(f.class == PathClass::Style || f.plugin_watch_target ==> removal_restyles(
            project,
            told.removed[j],
        ));
        assert(is_source(f.class) || f.plugin_watch_target ==> removal_reloads(told.removed[j]));
        if f.plugin_watch_target {
            assert(removal_rebundles_islands(told.removed[j]));
            assert(removal_rebundles_scripts(told.removed[j]));
            assert(removal_takes_all(told.removed[j]));
        }
    }
}

/// What the removal of a path does by itself, whatever else the tick brings. A
/// stylesheet, and what the CSS scan reads from outside the project, reruns the
/// CSS; a module below an islands root, and whatever the last islands bundle
/// read, the islands; whatever a client script reads, the client scripts; every
/// source of pages, and every file outside the project, reloads the renderer.
/// Pages that read a removed path are rendered. A global file, and one that a
/// plugin watches, rebuilds everything.
pub proof fn lemma_what_a_removal_does(
    project: Project,
    live: Seq<(Seq<char>, ChangeKind)>,
    told: Told,
    i: int,
    c: int,
)
    requires
        0 <= i < told.removed.len(),
    ensures
        ({
            let plan = tick_plan(project, live, told);
            let f = told.removed[i];
            &&& f.class == PathClass::Style ==> plan.rerun_css
            &&& mirrored(project, f) ==> plan.rerun_css
            &&& f.class == PathClass::Module && f.islands_candidate ==> plan.rerun_islands
            &&& f.islands_dependency ==> plan.rerun_islands
            &&& f.client_script_candidate ==> plan.rerun_client_scripts
            &&& f.client_script_raw_target ==> plan.rerun_client_scripts
            &&& f.client_script_worker_target ==> plan.rerun_client_scripts
            &&& f.client_script_sibling_target ==> plan.rerun_client_scripts
            &&& f.class == PathClass::Page ==> plan.ssr_reload_needed
            &&& f.class == PathClass::Module ==> plan.ssr_reload_needed
            &&& f.class == PathClass::Content ==> plan.ssr_reload_needed
            &&& f.class == PathClass::Data ==> plan.ssr_reload_needed
            &&& f.class == PathClass::External ==> plan.ssr_reload_needed
            &&& f.plugin_watch_target || f.class == PathClass::Global ==> plan.rerun_css
                && plan.rerun_islands && plan.rerun_client_scripts && plan.ssr_reload_needed
                && plan.pages == Selection::All
            &&& 0 <= c < told.removed_consumers.len() ==> chosen(
                plan.pages,
                told.removed_consumers[c].key(),
            )
            &&& 0 <= c < told.found.len() ==> chosen(plan.pages, told.found[c].key())
        }),
{
    lemma_tick_runs(project, live, told);
    lemma_tick_selects(project, live, told, Seq::empty());
    if 0 <= c < told.removed_consumers.len() {
        lemma_tick_selects(project, live, told, told.removed_consumers[c].key());
    }
    if 0 <= c < told.found.len() {
        lemma_tick_selects(project, live, told, told.found[c].key());
    }
}

/// A tick that only removes files does no more than the removed files ask for.
/// Where none of them is global or watched by a plugin, a sub-pipeline that none
/// of them has to do with does not run, and a page that neither reads one of them
/// nor was discovered is not selected.
pub proof fn lemma_what_removals_leave_alone(
    project: Project,
    live: Seq<(Seq<char>, ChangeKind)>,
    told: Told,
    key: Seq<Part>,
)
    requires
        told.planned.len() == 0,
        forall|i: int|
            0 <= i < told.removed.len() ==> !(#[trigger] told.removed[i]).plugin_watch_target
                && told.removed[i].class != PathClass::Global,
    ensures
        ({
            let plan = tick_plan(project, live, told);
            let n = told.removed.len();
            &&& (forall|i: int|
                0 <= i < n ==> (#[trigger] told.removed[i]).class != PathClass::Style
                    && told.removed[i].css_mirror is None) ==> !plan.rerun_css
            &&& (forall|i: int|
                0 <= i < n ==> (#[trigger] told.removed[i]).class != PathClass::Module
                    && !told.removed[i].islands_dependency) ==> !plan.rerun_islands
            &&& (forall|i: int|
                0 <= i < n ==> !(#[trigger] told.removed[i]).client_script_candidate
                    && !told.removed[i].client_script_raw_target
                    && !told.removed[i].client_script_worker_target
                    && !told.removed[i].client_script_sibling_target) ==> !plan.rerun_client_scripts
            &&& (forall|i: int|
                0 <= i < n ==> (#[trigger] told.removed[i]).class == PathClass::Style
                    || told.removed[i].class == PathClass::Asset || told.removed[i].class
                    == PathClass::Unclassified) ==> !plan.ssr_reload_needed
            &&& plan.pages is Specific
            &&& plan.pages->Specific_0.contains(key) ==> names(told.removed_consumers, key)
                || names(told.found, key)
            &&& plan.content_narrowing is None
            &&& plan.renderer_fresh == told.reloaded
        }),
{
    lemma_tick_runs(project, live, told);
    lemma_tick_selects(project, live, told, key);
    let plan = tick_plan(project, live, told);
    if plan.rerun_css {
        let i = choose|i: int|
            0 <= i < told.removed.len() && removal_restyles(project, #[trigger] told.removed[i]);
        assert(!told.removed[i].plugin_watch_target);
    }
    if plan.rerun_islands {
        let i = choose|i: int|
            0 <= i < told.removed.len() && removal_rebundles_islands(#[trigger] told.removed[i]);
        assert(!told.removed[i].plugin_watch_target);
    }
    if plan.rerun_client_scripts {
        let i = choose|i: int|
            0 <= i < told.removed.len() && removal_rebundles_scripts(#[trigger] told.removed[i]);
        assert(!told.removed[i].plugin_watch_target);
    }
    if plan.ssr_reload_needed {
        let i = choose|i: int|
            0 <= i < told.removed.len() && removal_reloads(#[trigger] told.removed[i]);
        assert(!told.removed[i].plugin_watch_target);
    }
    assert(content_paths(told.planned) =~= Seq::empty());
}

/// The hint of a tick is there exactly where a content file was changed and some
/// page is rendered. It names the content files among the live changes, in
/// order, and says that nothing else has to be rendered exactly where every
/// change is a modification of a content file that no plugin watches.
pub proof fn lemma_hint_is_exact(
    project: Project,
    live: Seq<(Seq<char>, ChangeKind)>,
    told: Told,
) -> (idx: Seq<int>)
    ensures
        ({
            let plan = tick_plan(project, live, told);
            let some = (exists|i: int|
                0 <= i < told.planned.len() && (#[trigger] told.planned[i]).class
                    == PathClass::Content) && (plan.pages is All || exists|key: Seq<Part>| #[trigger]
                chosen(plan.pages, key));
            &&& plan.content_narrowing is Some <==> some
            &&& plan.content_narrowing matches Some(h) ==> {
                &&& h.changed_content.len() == idx.len()
                &&& forall|k: int|
                    0 <= k < idx.len() ==> 0 <= (#[trigger] idx[k]) < told.planned.len()
                        && told.planned[idx[k]].class == PathClass::Content && h.changed_content[k]
                        == told.planned[idx[k]].path@
                &&& forall|k: int, l: int|
                    0 <= k < l < idx.len() ==> #[trigger] idx[k] < #[trigger] idx[l]
                &&& forall|i: int|
                    0 <= i < told.planned.len() && (#[trigger] told.planned[i]).class
                        == PathClass::Content ==> idx.contains(i)
                &&& h.fan_out_safe <==> told.removed.len() == 0 && forall|i: int|
                    0 <= i < live.len() ==> (#[trigger] live[i]).1 == ChangeKind::Modified
                        && told.planned[i].class == PathClass::Content
                        && !told.planned[i].plugin_watch_target
            }
        }),
{
    let plan = tick_plan(project, live, told);
    let idx = content_places(told.planned);
    lemma_content_places(told.planned);
    if exists|i: int|
        0 <= i < told.planned.len() && (#[trigger] told.planned[i]).class == PathClass::Content {
        let i = choose|i: int|
            0 <= i < told.planned.len() && (#[trigger] told.planned[i]).class
                == PathClass::Content;
        assert(idx.contains(i));
        assert(idx.len() > 0);
    }
    if idx.len() > 0 {
        assert(told.planned[idx[0]].class == PathClass::Content);
    }
    if let Selection::Specific(set) = plan.pages {
        if exists|key: Seq<Part>| #[trigger] chosen(plan.pages, key) {
            let key = choose|key: Seq<Part>| #[trigger] chosen(plan.pages, key);
            assert(set.contains(key));
            assert(plan.pages != Selection::none());
        } else {
            assert forall|key: Seq<Part>| !#[trigger] set.contains(key) by {
                assert(!chosen(plan.pages, key));
            }
            assert(set =~= Set::empty());
            assert(plan.pages == Selection::none());
        }
    }
    idx
}

/// Where the content files are among the facts.
spec fn content_places(facts: Seq<PathFacts>) -> Seq<int>
    decreases facts.len(),
{
    if facts.len() == 0 {
        Seq::empty()
    } else {
        let before = content_places(facts.drop_last());
        if facts.last().class == PathClass::Content {
            before.push(facts.len() - 1)
        } else {
            before
        }
    }
}

proof fn lemma_content_places(facts: Seq<PathFacts>)
    ensures
        ({
            let idx = content_places(facts);
            let list = content_paths(facts);
            &&& list.len() == idx.len()
            &&& forall|k: int|
                0 <= k < idx.len() ==> 0 <= (#[trigger] idx[k]) < facts.len()
                    && facts[idx[k]].class == PathClass::Content && list[k] == facts[idx[k]].path@
            &&& forall|k: int, l: int|
                0 <= k < l < idx.len() ==> #[trigger] idx[k] < #[trigger] idx[l]
            &&& forall|i: int|
                0 <= i < facts.len() && (#[trigger] facts[i]).class == PathClass::Content
                    ==> idx.contains(i)
        }),
    decreases facts.len(),
{
    if facts.len() > 0 {
        let init = facts.drop_last();
        lemma_content_places(init);
        let before = content_places(init);
        let idx = content_places(facts);
        assert forall|k: int| 0 <= k < idx.len() implies 0 <= (#[trigger] idx[k]) < facts.len()
            && facts[idx[k]].class == PathClass::Content && content_paths(facts)[k]
            == facts[idx[k]].path@ by {
            if k < before.len() {
                assert(idx[k] == before[k]);
                assert(init[before[k]] == facts[before[k]]);
            }
        }
        assert forall|k: int, l: int| 0 <= k < l < idx.len() implies #[trigger] idx[k]
            < #[trigger] idx[l] by {
            assert(idx[k] == before[k]);
            if l < before.len() {
                assert(idx[l] == before[l]);
            }
        }
        assert forall|i: int|
            0 <= i < facts.len() && (#[trigger] facts[i]).class
                == PathClass::Content implies idx.contains(i) by {
            if i < init.len() {
                assert(init[i] == facts[i]);
                assert(before.contains(i));
                let k = choose|k: int| 0 <= k < before.len() && before[k] == i;
                assert(idx[k] == i);
            } else {
                assert(idx[before.len() as int] == i);
            }
        }
    }
}

/// What the views of changes and of texts say: each change with its path and its
/// kind, each path, in order.
pub proof fn lemma_views_keep_everything(
    changes: Seq<Change>,
    facts: Seq<PathFacts>,
    list: Seq<String>,
)
    ensures
        changes_view(changes).len() == changes.len(),
        forall|i: int|
            0 <= i < changes.len() ==> (#[trigger] changes_view(changes)[i]) == (
                changes[i].path@,
                changes[i].kind,
            ),
        fact_paths(facts).len() == facts.len(),
        forall|i: int| 0 <= i < facts.len() ==> (#[trigger] fact_paths(facts)[i]) == facts[i].path@,
        texts(list).len() == list.len(),
        forall|i: int| 0 <= i < list.len() ==> (#[trigger] texts(list)[i]) == list[i]@,
{
}

/// Naming a change by its real kind keeps its path. A content file that was
/// reported as created is modified exactly where it is a known entry or some
/// page reads it; every other change keeps its kind.
pub proof fn lemma_real_kinds(
    changes: Seq<(Seq<char>, ChangeKind)>,
    facts: Seq<CreatedFacts>,
    i: int,
)
    requires
        facts.len() == changes.len(),
        0 <= i < changes.len(),
    ensures
        normalized(changes, facts).len() == changes.len(),
        normalized(changes, facts)[i].0 == changes[i].0,
        normalized(changes, facts)[i].1 == ChangeKind::Created <==> changes[i].1
            == ChangeKind::Created && (facts[i].class != PathClass::Content || !facts[i].known_entry
            && !facts[i].has_consumers),
        normalized(changes, facts)[i].1 == ChangeKind::Removed <==> changes[i].1
            == ChangeKind::Removed,
{
}

/// One more change is either a removal or live, and a live one is created or
/// not: each list of changes goes by the kinds alone, and keeps the order.
pub proof fn lemma_changes_are_sorted_by_kind(
    changes: Seq<(Seq<char>, ChangeKind)>,
    path: Seq<char>,
)
    ensures
        removed_paths(Seq::empty()).len() == 0,
        live_changes(Seq::empty()).len() == 0,
        created_paths(Seq::empty()).len() == 0,
        removed_paths(changes.push((path, ChangeKind::Removed))) == removed_paths(changes).push(
            path,
        ),
        removed_paths(changes.push((path, ChangeKind::Modified))) == removed_paths(changes),
        removed_paths(changes.push((path, ChangeKind::Created))) == removed_paths(changes),
        live_changes(changes.push((path, ChangeKind::Removed))) == live_changes(changes),
        live_changes(changes.push((path, ChangeKind::Modified))) == live_changes(changes).push(
            (path, ChangeKind::Modified),
        ),
        live_changes(changes.push((path, ChangeKind::Created))) == live_changes(changes).push(
            (path, ChangeKind::Created),
        ),
        created_paths(changes.push((path, ChangeKind::Created))) == created_paths(changes).push(
            path,
        ),
        created_paths(changes.push((path, ChangeKind::Modified))) == created_paths(changes),
        created_paths(changes.push((path, ChangeKind::Removed))) == created_paths(changes),
        change_paths(changes.push((path, ChangeKind::Created))) == change_paths(changes).push(path),
        change_paths(changes.push((path, ChangeKind::Modified))) == change_paths(changes).push(
            path,
        ),
{
    assert(changes.push((path, ChangeKind::Removed)).drop_last() =~= changes);
    assert(changes.push((path, ChangeKind::Modified)).drop_last() =~= changes);
    assert(changes.push((path, ChangeKind::Created)).drop_last() =~= changes);
    assert(change_paths(changes.push((path, ChangeKind::Created))) =~= change_paths(changes).push(
        path,
    ));
    assert(change_paths(changes.push((path, ChangeKind::Modified))) =~= change_paths(changes).push(
        path,
    ));
}

/// A path is among the removed ones exactly where one of the changes removes it,
/// and among the created ones exactly where one creates it.
pub proof fn lemma_paths_by_kind(changes: Seq<(Seq<char>, ChangeKind)>, path: Seq<char>)
    ensures
        removed_paths(changes).contains(path) <==> changes.contains((path, ChangeKind::Removed)),
        created_paths(changes).contains(path) <==> changes.contains((path, ChangeKind::Created)),
        live_changes(changes).contains((path, ChangeKind::Created)) <==> changes.contains(
            (path, ChangeKind::Created),
        ),
        live_changes(changes).contains((path, ChangeKind::Modified)) <==> changes.contains(
            (path, ChangeKind::Modified),
        ),
        !live_changes(changes).contains((path, ChangeKind::Removed)),
    decreases changes.len(),
{
    if changes.len() > 0 {
        let init = changes.drop_last();
        let last = changes.last();
        lemma_paths_by_kind(init, path);
        assert(changes =~= init.push(last));
        lemma_pushed(removed_paths(init), last.0, path);
        lemma_pushed(created_paths(init), last.0, path);
        lemma_pushed(init, last, (path, ChangeKind::Removed));
        lemma_pushed(init, last, (path, ChangeKind::Created));
        lemma_pushed(init, last, (path, ChangeKind::Modified));
        lemma_pushed(live_changes(init), last, (path, ChangeKind::Removed));
        lemma_pushed(live_changes(init), last, (path, ChangeKind::Created));
        lemma_pushed(live_changes(init), last, (path, ChangeKind::Modified));
    }
}

proof fn lemma_pushed<A>(list: Seq<A>, last: A, x: A)
    ensures
        list.push(last).contains(x) <==> list.contains(x) || last == x,
{
    let all = list.push(last);
    if list.contains(x) {
        let i = choose|i: int| 0 <= i < list.len() && list[i] == x;
        assert(all[i] == x);
    }
    if last == x {
        assert(all[list.len() as int] == x);
    }
    if all.contains(x) {
        let i = choose|i: int| 0 <= i < all.len() && all[i] == x;
        if i < list.len() {
            assert(list[i] == x);
        }
    }
}

/// Some change of the kind is among the changes.
pub open spec fn some_change(changes: Seq<(Seq<char>, ChangeKind)>, kind: ChangeKind) -> bool {
    exists|i: int| 0 <= i < changes.len() && (#[trigger] changes[i]).1 == kind
}

proof fn lemma_some_change(changes: Seq<(Seq<char>, ChangeKind)>)
    ensures
        removed_paths(changes).len() > 0 <==> some_change(changes, ChangeKind::Removed),
        created_paths(changes).len() > 0 <==> some_change(changes, ChangeKind::Created),
{
    if removed_paths(changes).len() > 0 {
        let path = removed_paths(changes)[0];
        assert(removed_paths(changes).contains(path));
        lemma_paths_by_kind(changes, path);
        let i = choose|i: int|
            0 <= i < changes.len() && changes[i] == (path, ChangeKind::Removed);
        assert(changes[i].1 == ChangeKind::Removed);
    }
    if created_paths(changes).len() > 0 {
        let path = created_paths(changes)[0];
        assert(created_paths(changes).contains(path));
        lemma_paths_by_kind(changes, path);
        let i = choose|i: int|
            0 <= i < changes.len() && changes[i] == (path, ChangeKind::Created);
        assert(changes[i].1 == ChangeKind::Created);
    }
    if some_change(changes, ChangeKind::Removed) {
        let i = choose|i: int|
            0 <= i < changes.len() && (#[trigger] changes[i]).1 == ChangeKind::Removed;
        lemma_paths_by_kind(changes, changes[i].0);
        assert(changes.contains(changes[i]));
    }
    if some_change(changes, ChangeKind::Created) {
        let i = choose|i: int|
            0 <= i < changes.len() && (#[trigger] changes[i]).1 == ChangeKind::Created;
        lemma_paths_by_kind(changes, changes[i].0);
        assert(changes.contains(changes[i]));
    }
}

/// Some change creates a file, and is no second report of one that is known.
pub open spec fn really_creates(
    changes: Seq<(Seq<char>, ChangeKind)>,
    facts: Seq<CreatedFacts>,
) -> bool {
    exists|i: int|
        0 <= i < changes.len() && (#[trigger] changes[i]).1 == ChangeKind::Created && (
        facts[i].class != PathClass::Content || !facts[i].known_entry && !facts[i].has_consumers)
}

proof fn lemma_really_creates(
    changes: Seq<(Seq<char>, ChangeKind)>,
    facts: Seq<CreatedFacts>,
)
    requires
        facts.len() == changes.len(),
    ensures
        created_paths(live_changes(normalized(changes, facts))).len() > 0 <==> really_creates(
            changes,
            facts,
        ),
{
    let all = normalized(changes, facts);
    let live = live_changes(all);
    lemma_some_change(live);
    if some_change(live, ChangeKind::Created) {
        let i = choose|i: int|
            0 <= i < live.len() && (#[trigger] live[i]).1 == ChangeKind::Created;
        assert(live.contains(live[i]));
        lemma_paths_by_kind(all, live[i].0);
        let j = choose|j: int| 0 <= j < all.len() && all[j] == (live[i].0, ChangeKind::Created);
        lemma_real_kinds(changes, facts, j);
        assert(changes[j].1 == ChangeKind::Created);
    }
    if really_creates(changes, facts) {
        let i = choose|i: int|
            0 <= i < changes.len() && (#[trigger] changes[i]).1 == ChangeKind::Created && (
            facts[i].class != PathClass::Content || !facts[i].known_entry
                && !facts[i].has_consumers);
        lemma_real_kinds(changes, facts, i);
        assert(all[i] == (changes[i].0, ChangeKind::Created));
        assert(all.contains(all[i]));
        lemma_paths_by_kind(all, changes[i].0);
        let j = choose|j: int|
            0 <= j < live.len() && live[j] == (changes[i].0, ChangeKind::Created);
        assert(live[j].1 == ChangeKind::Created);
    }
}

/// Where a tick goes: it forgets and detaches where something was removed, has
/// the hook look where there is one and something was really created, then looks
/// at the changes, lists the pages and is planned.
pub proof fn lemma_where_a_tick_goes<E>(
    project: Project,
    changes: Seq<(Seq<char>, ChangeKind)>,
    hooked: bool,
    facts: Vec<CreatedFacts>,
    consumers: Vec<PageId>,
    found: DiscoveryOutcome,
    error: E,
)
    requires
        facts@.len() == changes.len(),
    ensures
        ({
            let removes = some_change(changes, ChangeKind::Removed);
            let creates = really_creates(changes, facts@);
            let first = Tick::opened(changes, hooked);
            let inspected = first.at(TickWait::Inspect).after(
                project,
                TickAnswer::<E>::Inspected(facts),
            );
            let detached = inspected.after(project, TickAnswer::<E>::Detached(consumers));
            let discovered = detached.after(project, TickAnswer::<E>::Discovered(Ok(found)));
            &&& first.wait is Purge <==> removes
            &&& first.wait is Inspect <==> !removes
            &&& first.after(project, TickAnswer::<E>::Purged).wait is Inspect
            &&& inspected.wait is Detach <==> removes
            &&& inspected.wait is Discover <==> !removes && hooked && creates
            &&& inspected.wait is Facts <==> !removes && !(hooked && creates)
            &&& detached.wait is Discover <==> hooked && creates
            &&& detached.wait is Facts <==> !(hooked && creates)
            &&& detached.told.removed_consumers == consumers@
            &&& discovered.wait is Facts
            &&& discovered.told.removed_consumers == consumers@
            &&& discovered.told.found == found.pages@
            &&& discovered.told.reloaded == found.renderer_reloaded
            &&& discovered.told.vanished.len() == found.vanished_output_paths@.len()
            &&& forall|k: int|
                0 <= k < found.vanished_output_paths@.len()
                    ==> #[trigger] discovered.told.vanished[k] == found.vanished_output_paths@[k]@
            &&& detached.after(project, TickAnswer::Discovered(Err(error))).wait is Failed
        }),
{
    lemma_some_change(changes);
    lemma_really_creates(changes, facts@);
}

/// What a tick asks for: to forget and to detach every removed path, and to look
/// at every file that was really created, each of them in order.
pub proof fn lemma_what_a_tick_hands_out(tick: Tick, action: TickAction, path: Seq<char>)
    requires
        tick_acts(tick, action),
    ensures
        action is Purge <==> tick.wait is Purge,
        action is Detach <==> tick.wait is Detach,
        action is Discover <==> tick.wait is Discover,
        action is Inspect <==> tick.wait is Inspect,
        action is Facts <==> tick.wait is Facts,
        action is ListPages <==> tick.wait is Pages,
        action is Finish <==> tick.wait is Planned,
        action is Fail <==> tick.wait is Failed,
        action matches TickAction::Purge { paths } ==> (named_in(paths@, path)
            <==> tick.changes.contains((path, ChangeKind::Removed))),
        action matches TickAction::Detach { paths } ==> (named_in(paths@, path)
            <==> tick.changes.contains((path, ChangeKind::Removed))),
        action matches TickAction::Discover { paths } ==> (named_in(paths@, path)
            <==> tick.live.contains((path, ChangeKind::Created))),
{
    lemma_paths_by_kind(tick.changes, path);
    lemma_paths_by_kind(tick.live, path);
    match action {
        TickAction::Purge { paths } | TickAction::Detach { paths } | TickAction::Discover {
            paths,
        } => {
            lemma_named_in(paths@, path);
        },
        _ => {},
    }
}

/// The list names this path, as it is spelled.
pub open spec fn named_in(list: Seq<String>, path: Seq<char>) -> bool {
    exists|k: int| 0 <= k < list.len() && (#[trigger] list[k])@ == path
}

proof fn lemma_named_in(list: Seq<String>, path: Seq<char>)
    ensures
        texts(list).contains(path) <==> named_in(list, path),
{
    if named_in(list, path) {
        let k = choose|k: int| 0 <= k < list.len() && (#[trigger] list[k])@ == path;
        assert(texts(list)[k] == path);
    }
    if texts(list).contains(path) {
        let k = choose|k: int| 0 <= k < texts(list).len() && texts(list)[k] == path;
        assert(list[k]@ == path);
    }
}

/// From the watcher's changes to the pipeline: a tick in which a stylesheet was
/// removed hands on a plan that runs the CSS; and one in which a source of pages
/// was changed, that the hook does not narrow, hands on a plan with every page
/// that the dependency graph reports dirty for it.
pub proof fn lemma_whole_tick_hands_on<E>(
    project: Project,
    changes: Seq<(Seq<char>, ChangeKind)>,
    hooked: bool,
    list: Seq<TickAnswer<E>>,
    i: int,
    key: Seq<Part>,
)
    requires
        tell(project, Tick::opened(changes, hooked), list),
        told_all(project, Tick::opened(changes, hooked), list).wait is Planned,
    ensures
        ({
            let n = list.len() as int;
            let handed = told_all(
                project,
                Tick::opened(changes, hooked),
                list,
            ).wait->Planned_0;
            let planned = list[n - 2]->Facts_planned@;
            let removed = list[n - 2]->Facts_removed@;
            let pages = list[n - 1]->Pages_0@;
            &&& n >= 2
            &&& list[n - 2] is Facts
            &&& list[n - 1] is Pages
            &&& 0 <= i < removed.len() && removed[i].class == PathClass::Style ==> handed is Some
                && (handed->0).rerun_css
            &&& 0 <= i < planned.len() && unnarrowed(project, planned, i) && is_source(
                planned[i].class,
            ) ==> {
                &&& handed is Some
                &&& (handed->0).ssr_reload_needed
                &&& reported_dirty(planned[i].dirty, key) && names(pages, key) ==> chosen(
                    (handed->0).pages,
                    key,
                )
                &&& planned[i].dirty matches DirtySet::Specific(set) ==> set@.contains(key)
                    ==> chosen((handed->0).pages, key) || (handed->0).pages
                    == Selection::Specific(page_key_set(pages))
                &&& reports_none(planned[i].dirty) && !planned[i].known ==> (handed->0).pages
                    == Selection::Specific(page_key_set(pages))
            }
        }),
{
    lemma_plan_is_made_of_what_was_told(project, changes, hooked, list);
    let n = list.len() as int;
    let end = told_all(project, Tick::opened(changes, hooked), list);
    let pages = list[n - 1]->Pages_0@;
    let plan = tick_plan(project, end.live, end.told);
    lemma_last_facts(list);
    lemma_pipeline_is_handed(plan, page_key_set(pages));
    let removed = list[n - 2]->Facts_removed@;
    let planned = list[n - 2]->Facts_planned@;
    lemma_names(pages, key);
    if 0 <= i < removed.len() && removed[i].class == PathClass::Style {
        lemma_removed_style_reruns_css(project, end.live, end.told, page_key_set(pages), i);
    }
    if 0 <= i < planned.len() && unnarrowed(project, planned, i) && is_source(planned[i].class) {
        assert(planned.contains(planned[i]));
        lemma_tick_hands_on_work(
            project,
            end.live,
            end.told,
            page_key_set(pages),
            planned[i],
        );
        lemma_tick_selects(project, end.live, end.told, key);
        if reported_dirty(planned[i].dirty, key) {
            assert(takes_page(project, planned, i, key));
        }
        if reports_none(planned[i].dirty) && !planned[i].known {
            assert(takes_all(project, planned, i));
        }
    }
}

/// What is told last of the changes counts.
proof fn lemma_last_facts<E>(list: Seq<TickAnswer<E>>)
    requires
        list.len() >= 2,
        list[list.len() - 1] is Pages,
        list[list.len() - 2] is Facts,
    ensures
        told_by(list).planned == list[list.len() - 2]->Facts_planned@,
        told_by(list).removed == list[list.len() - 2]->Facts_removed@,
{
    let init = list.drop_last();
    assert(list.last() == list[list.len() - 1]);
    assert(init.last() == list[list.len() - 2]);
    assert(told_by(list) == told_by(init));
    reveal_with_fuel(told_by, 2);
}

} // verus!

//! What a plan does, told from what is known of the changed paths.

use vstd::prelude::*;

use crate::facts::{
    out_of_root, passes_skipped, swallows_project, under_css_mirror, PathClass, PathFacts, Project,
};
use crate::orchestrator::{
    any_rebuilds_all, claim, default_debounce, folded, lemma_claims_select, override_at,
    override_for, planned, rebuilds_all, wants_client_scripts, wants_css, wants_islands, wants_ssr,
    OrchestratorConfig,
};
use crate::page::{page_key_set, page_keys, PageId};
use crate::path::{below, parts, Part};
use crate::plan::{DirtySet, Selection};

verus! {

/// The hook was asked about the change `facts[j]`, which is one of the path of
/// `facts[i]`, and told which pages it touches.
pub open spec fn hook_spoke(project: Project, facts: Seq<PathFacts>, i: int, j: int) -> bool {
    &&& 0 <= j < facts.len()
    &&& parts(facts[j].path@) == parts(facts[i].path@)
    &&& !parts(project.root).is_prefix_of(parts(facts[j].path@))
    &&& facts[j].hook_verdict is Some
}

/// The hook told of no change of the path of `facts[i]` which pages it touches.
pub open spec fn unnarrowed(project: Project, facts: Seq<PathFacts>, i: int) -> bool {
    forall|j: int| !#[trigger] hook_spoke(project, facts, i, j)
}

/// The last word of the hook on the path of `facts[i]` is what it told of
/// `facts[j]`.
pub open spec fn last_word(project: Project, facts: Seq<PathFacts>, i: int, j: int) -> bool {
    &&& hook_spoke(project, facts, i, j)
    &&& forall|k: int| j < k ==> !#[trigger] hook_spoke(project, facts, i, k)
}

/// The page with this key is selected.
pub open spec fn chosen(pages: Selection, key: Seq<Part>) -> bool {
    match pages {
        Selection::All => true,
        Selection::Specific(set) => set.contains(key),
    }
}

/// The list names a page with this key.
pub open spec fn names(list: Seq<PageId>, key: Seq<Part>) -> bool {
    exists|k: int| 0 <= k < list.len() && (#[trigger] list[k]).key() == key
}

/// The dependency graph reports the page with this key dirty.
pub open spec fn reported_dirty(dirty: DirtySet, key: Seq<Part>) -> bool {
    match dirty {
        DirtySet::All => true,
        DirtySet::Specific(set) => set@.contains(key),
    }
}

/// The dependency graph reports no page dirty.
pub open spec fn reports_none(dirty: DirtySet) -> bool {
    match dirty {
        DirtySet::All => false,
        DirtySet::Specific(set) => forall|key: Seq<Part>| !#[trigger] set@.contains(key),
    }
}

/// The class is that of a source of pages.
pub open spec fn is_source(class: PathClass) -> bool {
    class == PathClass::Page || class == PathClass::Module || class == PathClass::Content || class
        == PathClass::Data
}

/// The change, whatever the hook may say of other paths, selects every page.
pub open spec fn takes_all(project: Project, facts: Seq<PathFacts>, i: int) -> bool {
    let f = facts[i];
    ||| f.plugin_watch_target
    ||| unnarrowed(project, facts, i) && (f.class == PathClass::Global || f.class
        == PathClass::External || is_source(f.class) && reports_none(f.dirty) && !f.known || (
    f.dirty is All && f.class != PathClass::Asset))
}

/// The change selects the page with this key.
pub open spec fn takes_page(
    project: Project,
    facts: Seq<PathFacts>,
    i: int,
    key: Seq<Part>,
) -> bool {
    let f = facts[i];
    ||| takes_all(project, facts, i)
    ||| unnarrowed(project, facts, i) && reported_dirty(f.dirty, key) && f.class
        != PathClass::Asset
    ||| exists|j: int|
        #[trigger] last_word(project, facts, i, j) && names(facts[j].hook_verdict->0@, key)
}

/// The CSS scan reads the path from a directory outside the project that does
/// not hold the project itself, and no directory on the way down is skipped.
pub open spec fn mirrored(project: Project, f: PathFacts) -> bool {
    f.css_mirror matches Some(m) && (forall|a: int|
        0 <= a < project.aliases.len() ==> !parts(m.root@).is_prefix_of(
            parts(#[trigger] project.aliases[a]),
        )) && (forall|c: int|
        0 <= c < parts(m.relative@).len() ==> (#[trigger] parts(m.relative@)[c] matches
            Part::Normal(name) ==> !project.skip_names.contains(name)))
}

/// A reason to run the CSS pipeline.
pub open spec fn css_reason(project: Project, facts: Seq<PathFacts>, i: int) -> bool {
    let f = facts[i];
    ||| f.plugin_watch_target
    ||| f.class == PathClass::Style
    ||| f.class == PathClass::Module
    ||| (f.class == PathClass::Content || f.class == PathClass::Data || f.class
        == PathClass::External) && mirrored(project, f)
    ||| f.class == PathClass::Global && unnarrowed(project, facts, i)
}

/// A reason to run the islands bundler.
pub open spec fn islands_reason(project: Project, facts: Seq<PathFacts>, i: int) -> bool {
    let f = facts[i];
    ||| f.plugin_watch_target
    ||| f.class == PathClass::Module && f.islands_candidate
    ||| f.islands_dependency
    ||| f.class == PathClass::Global && unnarrowed(project, facts, i)
}

/// A reason to run the client-scripts bundler.
pub open spec fn scripts_reason(project: Project, facts: Seq<PathFacts>, i: int) -> bool {
    let f = facts[i];
    ||| f.plugin_watch_target
    ||| f.client_script_candidate
    ||| f.client_script_raw_target
    ||| f.client_script_worker_target
    ||| f.client_script_sibling_target
    ||| f.class == PathClass::Global && unnarrowed(project, facts, i)
}

/// A reason to reload the renderer for server-rendered output.
pub open spec fn ssr_reason(project: Project, facts: Seq<PathFacts>, i: int) -> bool {
    let f = facts[i];
    ||| f.plugin_watch_target
    ||| !unnarrowed(project, facts, i)
    ||| is_source(f.class)
    ||| f.class == PathClass::External
    ||| f.class == PathClass::Global
}

proof fn lemma_override(project: Project, facts: Seq<PathFacts>, all: Seq<PathFacts>, i: int)
    requires
        0 <= i < all.len(),
        facts.is_prefix_of(all),
    ensures
        ({
            let o = override_for(project, facts, parts(all[i].path@));
            &&& o is None ==> forall|j: int|
                0 <= j < facts.len() ==> !#[trigger] hook_spoke(project, all, i, j)
            &&& o matches Some(pages) ==> exists|j: int|
                0 <= j < facts.len() && #[trigger] hook_spoke(project, all, i, j) && pages
                    == all[j].hook_verdict->0@ && forall|k: int|
                    j < k < facts.len() ==> !#[trigger] hook_spoke(project, all, i, k)
        }),
    decreases facts.len(),
{
    if facts.len() > 0 {
        let n = facts.len() - 1;
        assert(facts.last() == all[n]);
        assert(facts.drop_last().is_prefix_of(all));
        lemma_override(project, facts.drop_last(), all, i);
        let f = facts.last();
        assert(hook_spoke(project, all, i, n) <==> parts(f.path@) == parts(all[i].path@)
            && out_of_root(project, f.path@) && f.hook_verdict is Some);
        if !hook_spoke(project, all, i, n) {
            let o = override_for(project, facts.drop_last(), parts(all[i].path@));
            assert(override_for(project, facts, parts(all[i].path@)) == o);
            if let Some(pages) = o {
                let j = choose|j: int|
                    0 <= j < n && #[trigger] hook_spoke(project, all, i, j) && pages
                        == all[j].hook_verdict->0@ && forall|k: int|
                        j < k < n ==> !#[trigger] hook_spoke(project, all, i, k);
                assert(hook_spoke(project, all, i, j));
                assert forall|k: int| j < k < facts.len() implies !#[trigger] hook_spoke(
                    project,
                    all,
                    i,
                    k,
                ) by {}
            }
        }
    }
}

/// The hook's narrowing of a change, in terms of what it told.
proof fn lemma_override_at(project: Project, facts: Seq<PathFacts>, i: int) -> (j: int)
    requires
        0 <= i < facts.len(),
    ensures
        override_at(project, facts, i) is None <==> unnarrowed(project, facts, i),
        override_at(project, facts, i) matches Some(pages) ==> last_word(project, facts, i, j)
            && pages == facts[j].hook_verdict->0@,
{
    assert(facts.is_prefix_of(facts));
    lemma_override(project, facts, facts, i);
    let o = override_at(project, facts, i);
    if let Some(pages) = o {
        let j = choose|j: int|
            0 <= j < facts.len() && #[trigger] hook_spoke(project, facts, i, j) && pages
                == facts[j].hook_verdict->0@ && forall|k: int|
                j < k < facts.len() ==> !#[trigger] hook_spoke(project, facts, i, k);
        assert(hook_spoke(project, facts, i, j));
        assert forall|k: int| j < k implies !#[trigger] hook_spoke(project, facts, i, k) by {}
        j
    } else {
        0
    }
}

/// The keys of a list of pages are those of its pages.
pub proof fn lemma_names(list: Seq<PageId>, key: Seq<Part>)
    ensures
        page_key_set(list).contains(key) <==> names(list, key),
{
    let keys = page_keys(list);
    if names(list, key) {
        let k = choose|k: int| 0 <= k < list.len() && (#[trigger] list[k]).key() == key;
        assert(keys[k] == key);
        assert(keys.contains(key));
    }
    if page_key_set(list).contains(key) {
        assert(keys.contains(key));
        let k = choose|k: int| 0 <= k < keys.len() && keys[k] == key;
        assert(list[k].key() == key);
    }
}

proof fn lemma_reports_none(dirty: DirtySet)
    ensures
        reports_none(dirty) <==> dirty@ == Selection::none(),
{
    if let DirtySet::Specific(set) = dirty {
        if reports_none(dirty) {
            assert(set@ =~= Set::empty());
        }
    }
}

/// What one change selects.
proof fn lemma_claim(project: Project, facts: Seq<PathFacts>, i: int, key: Seq<Part>)
    requires
        0 <= i < facts.len(),
        !rebuilds_all(project, facts, i),
    ensures
        ({
            let c = claim(facts[i], override_at(project, facts, i));
            &&& c == Selection::All <==> takes_all(project, facts, i)
            &&& c.selects(key) <==> takes_page(project, facts, i, key)
        }),
{
    let f = facts[i];
    let o = override_at(project, facts, i);
    let j = lemma_override_at(project, facts, i);
    lemma_reports_none(f.dirty);
    if let Some(pages) = o {
        lemma_names(pages, key);
        assert(last_word(project, facts, i, j));
        assert(!unnarrowed(project, facts, i));
        if exists|k: int|
            #[trigger] last_word(project, facts, i, k) && names(facts[k].hook_verdict->0@, key) {
            let k = choose|k: int|
                #[trigger] last_word(project, facts, i, k) && names(
                    facts[k].hook_verdict->0@,
                    key,
                );
            assert(last_word(project, facts, i, k) && last_word(project, facts, i, j));
            if k < j {
                assert(!hook_spoke(project, facts, i, j));
            }
            if j < k {
                assert(!hook_spoke(project, facts, i, k));
            }
        }
    } else {
        assert(unnarrowed(project, facts, i));
        assert forall|k: int| !#[trigger] last_word(project, facts, i, k) by {
            assert(!hook_spoke(project, facts, i, k));
        }
    }
}

/// A plan selects a page exactly where one of the changes takes it: the hook
/// narrowed the change to it, or the hook narrowed nothing and the dependency
/// graph reports the page dirty; or the change takes every page. It selects all
/// pages by the `All` marker exactly where one of the changes takes them all.
pub proof fn lemma_plan_selects(project: Project, facts: Seq<PathFacts>, key: Seq<Part>)
    ensures
        chosen(planned(project, facts).pages, key) <==> exists|i: int|
            0 <= i < facts.len() && #[trigger] takes_page(project, facts, i, key),
        planned(project, facts).pages == Selection::All <==> exists|i: int|
            0 <= i < facts.len() && #[trigger] takes_all(project, facts, i),
{
    let n = facts.len() as int;
    let plan = planned(project, facts);
    if any_rebuilds_all(project, facts, n) {
        let i = choose|i: int| 0 <= i < n && #[trigger] rebuilds_all(project, facts, i);
        let j = lemma_override_at(project, facts, i);
        assert(takes_all(project, facts, i));
        assert(takes_page(project, facts, i, key));
    } else {
        lemma_claims_select(project, facts, n, key);
        assert forall|i: int| 0 <= i < n implies {
            let c = claim(#[trigger] facts[i], override_at(project, facts, i));
            &&& c == Selection::All <==> takes_all(project, facts, i)
            &&& c.selects(key) <==> takes_page(project, facts, i, key)
        } by {
            assert(!rebuilds_all(project, facts, i));
            lemma_claim(project, facts, i, key);
        }
        if plan.pages.selects(key) {
            let i = choose|i: int|
                0 <= i < n && claim(#[trigger] facts[i], override_at(project, facts, i)).selects(
                    key,
                );
            assert(takes_page(project, facts, i, key));
        }
        if exists|i: int| 0 <= i < n && #[trigger] takes_page(project, facts, i, key) {
            let i = choose|i: int| 0 <= i < n && #[trigger] takes_page(project, facts, i, key);
            assert(claim(facts[i], override_at(project, facts, i)).selects(key));
        }
        if plan.pages == Selection::All {
            let i = choose|i: int|
                0 <= i < n && claim(#[trigger] facts[i], override_at(project, facts, i))
                    == Selection::All;
            assert(takes_all(project, facts, i));
        }
        if exists|i: int| 0 <= i < n && #[trigger] takes_all(project, facts, i) {
            let i = choose|i: int| 0 <= i < n && #[trigger] takes_all(project, facts, i);
            assert(claim(facts[i], override_at(project, facts, i)) == Selection::All);
        }
    }
}

/// Where the hook does not narrow a change of a page, a module, a content file or
/// a data file, every page that the dependency graph reports dirty for it is
/// selected. Where the graph reports none and has no record of the path, every
/// page is.
pub proof fn lemma_dirty_pages_are_selected(
    project: Project,
    facts: Seq<PathFacts>,
    i: int,
    key: Seq<Part>,
)
    requires
        0 <= i < facts.len(),
        unnarrowed(project, facts, i),
        facts[i].class == PathClass::Page || facts[i].class == PathClass::Module || facts[i].class
            == PathClass::Content || facts[i].class == PathClass::Data,
    ensures
        ({
            let pages = planned(project, facts).pages;
            &&& facts[i].dirty is All ==> pages == Selection::All
            &&& facts[i].dirty matches DirtySet::Specific(set) ==> set@.contains(key) ==> pages
                == Selection::All || pages->Specific_0.contains(key)
            &&& facts[i].dirty matches DirtySet::Specific(set) ==> (forall|k: Seq<Part>|
                !#[trigger] set@.contains(k)) && !facts[i].known ==> pages == Selection::All
        }),
{
    lemma_plan_selects(project, facts, key);
    if facts[i].dirty is All {
        assert(takes_all(project, facts, i));
    }
    if reported_dirty(facts[i].dirty, key) {
        assert(takes_page(project, facts, i, key));
    }
    if let DirtySet::Specific(set) = facts[i].dirty {
        if (forall|k: Seq<Part>| !#[trigger] set@.contains(k)) && !facts[i].known {
            assert(reports_none(facts[i].dirty));
            assert(takes_all(project, facts, i));
        }
    }
}

/// Where the hook tells which pages a change touches, each of them is selected;
/// and where that is the only change, and no plugin watches its path, no other.
pub proof fn lemma_hook_decides_pages(project: Project, facts: Seq<PathFacts>, i: int, k: int)
    requires
        0 <= i < facts.len(),
        !parts(project.root).is_prefix_of(parts(facts[i].path@)),
        facts[i].hook_verdict is Some,
        forall|j: int|
            i < j < facts.len() ==> parts((#[trigger] facts[j]).path@) != parts(facts[i].path@),
    ensures
        0 <= k < facts[i].hook_verdict->0@.len() ==> chosen(
            planned(project, facts).pages,
            facts[i].hook_verdict->0@[k].key(),
        ),
        facts.len() == 1 && !facts[i].plugin_watch_target ==> planned(project, facts).pages
            is Specific && forall|key: Seq<Part>| #[trigger]
            chosen(planned(project, facts).pages, key) ==> names(facts[i].hook_verdict->0@, key),
{
    assert(hook_spoke(project, facts, i, i));
    assert(last_word(project, facts, i, i));
    assert(!unnarrowed(project, facts, i));
    if 0 <= k < facts[i].hook_verdict->0@.len() {
        let key = facts[i].hook_verdict->0@[k].key();
        lemma_plan_selects(project, facts, key);
        assert(names(facts[i].hook_verdict->0@, key));
        assert(takes_page(project, facts, i, key));
    }
    if facts.len() == 1 && !facts[i].plugin_watch_target {
        lemma_plan_selects(project, facts, Seq::empty());
        assert(!takes_all(project, facts, 0));
        assert forall|key: Seq<Part>| #[trigger]
            chosen(planned(project, facts).pages, key) implies names(
            facts[i].hook_verdict->0@,
            key,
        ) by {
            lemma_plan_selects(project, facts, key);
            let m = choose|m: int|
                0 <= m < facts.len() && #[trigger] takes_page(project, facts, m, key);
            assert(m == 0 && i == 0);
            let j = choose|j: int|
                #[trigger] last_word(project, facts, 0, j) && names(
                    facts[j].hook_verdict->0@,
                    key,
                );
            assert(hook_spoke(project, facts, 0, j));
            assert(j == 0);
        }
    }
}

/// What the CSS scan reads from outside the project, component by component.
pub proof fn lemma_mirrored(project: Project, f: PathFacts)
    ensures
        under_css_mirror(project, f) <==> mirrored(project, f),
{
    if let Some(m) = f.css_mirror {
        if swallows_project(project.aliases, m.root@) {
            let a = choose|a: int|
                0 <= a < project.aliases.len() && below(#[trigger] project.aliases[a], m.root@);
            assert(parts(m.root@).is_prefix_of(parts(project.aliases[a])));
        }
        if passes_skipped(project.skip_names, m.relative@) {
            let c = choose|c: int|
                0 <= c < parts(m.relative@).len() && match #[trigger] parts(m.relative@)[c] {
                    Part::Normal(name) => project.skip_names.contains(name),
                    _ => false,
                };
            assert(parts(m.relative@)[c] is Normal);
        }
        if !mirrored(project, f) && !swallows_project(project.aliases, m.root@) {
            assert forall|a: int| 0 <= a < project.aliases.len() implies !parts(
                m.root@,
            ).is_prefix_of(parts(#[trigger] project.aliases[a])) by {
                assert(!below(project.aliases[a], m.root@));
            }
            let c = choose|c: int|
                0 <= c < parts(m.relative@).len() && !(#[trigger] parts(m.relative@)[c] matches
                    Part::Normal(name) ==> !project.skip_names.contains(name));
            assert(passes_skipped(project.skip_names, m.relative@));
        }
    }
}

/// A plan runs each sub-pipeline exactly where one of the changes is a reason
/// to. It names every changed path, in order, and asks for nothing else.
pub proof fn lemma_plan_runs(project: Project, facts: Seq<PathFacts>)
    ensures
        ({
            let plan = planned(project, facts);
            &&& plan.rerun_css <==> exists|i: int|
                0 <= i < facts.len() && #[trigger] css_reason(project, facts, i)
            &&& plan.rerun_islands <==> exists|i: int|
                0 <= i < facts.len() && #[trigger] islands_reason(project, facts, i)
            &&& plan.rerun_client_scripts <==> exists|i: int|
                0 <= i < facts.len() && #[trigger] scripts_reason(project, facts, i)
            &&& plan.ssr_reload_needed <==> exists|i: int|
                0 <= i < facts.len() && #[trigger] ssr_reason(project, facts, i)
            &&& plan.triggers.len() == facts.len()
            &&& forall|i: int|
                0 <= i < facts.len() ==> #[trigger] plan.triggers[i] == facts[i].path@
            &&& !plan.renderer_fresh
            &&& plan.prune_paths.len() == 0
            &&& plan.content_narrowing is None
        }),
{
    let n = facts.len() as int;
    let plan = planned(project, facts);
    assert forall|i: int| 0 <= i < n implies #[trigger] plan.triggers[i] == facts[i].path@ by {}
    if any_rebuilds_all(project, facts, n) {
        let i = choose|i: int| 0 <= i < n && #[trigger] rebuilds_all(project, facts, i);
        let j = lemma_override_at(project, facts, i);
        assert(css_reason(project, facts, i));
        assert(islands_reason(project, facts, i));
        assert(scripts_reason(project, facts, i));
        assert(ssr_reason(project, facts, i));
    } else {
        assert forall|i: int| 0 <= i < n implies {
            let f = #[trigger] facts[i];
            &&& wants_css(project, f) == css_reason(project, facts, i)
            &&& wants_islands(f) == islands_reason(project, facts, i)
            &&& wants_client_scripts(f) == scripts_reason(project, facts, i)
            &&& wants_ssr(f, override_at(project, facts, i)) == ssr_reason(project, facts, i)
        } by {
            assert(!rebuilds_all(project, facts, i));
            let j = lemma_override_at(project, facts, i);
            lemma_mirrored(project, facts[i]);
        }
        lemma_flags(project, facts);
    }
}

proof fn lemma_flags(project: Project, facts: Seq<PathFacts>)
    requires
        forall|i: int|
            0 <= i < facts.len() ==> {
                let f = #[trigger] facts[i];
                &&& wants_css(project, f) == css_reason(project, facts, i)
                &&& wants_islands(f) == islands_reason(project, facts, i)
                &&& wants_client_scripts(f) == scripts_reason(project, facts, i)
                &&& wants_ssr(f, override_at(project, facts, i)) == ssr_reason(project, facts, i)
            },
    ensures
        ({
            let plan = folded(project, facts, facts.len() as int);
            &&& plan.rerun_css <==> exists|i: int|
                0 <= i < facts.len() && #[trigger] css_reason(project, facts, i)
            &&& plan.rerun_islands <==> exists|i: int|
                0 <= i < facts.len() && #[trigger] islands_reason(project, facts, i)
            &&& plan.rerun_client_scripts <==> exists|i: int|
                0 <= i < facts.len() && #[trigger] scripts_reason(project, facts, i)
            &&& plan.ssr_reload_needed <==> exists|i: int|
                0 <= i < facts.len() && #[trigger] ssr_reason(project, facts, i)
        }),
{
    let n = facts.len() as int;
    let plan = folded(project, facts, n);
    if plan.rerun_css {
        let i = choose|i: int| 0 <= i < n && wants_css(project, #[trigger] facts[i]);
        assert(css_reason(project, facts, i));
    }
    if plan.rerun_islands {
        let i = choose|i: int| 0 <= i < n && wants_islands(#[trigger] facts[i]);
        assert(islands_reason(project, facts, i));
    }
    if plan.rerun_client_scripts {
        let i = choose|i: int| 0 <= i < n && wants_client_scripts(#[trigger] facts[i]);
        assert(scripts_reason(project, facts, i));
    }
    if plan.ssr_reload_needed {
        let i = choose|i: int|
            0 <= i < n && wants_ssr(#[trigger] facts[i], override_at(project, facts, i));
        assert(ssr_reason(project, facts, i));
    }
    if exists|i: int| 0 <= i < n && #[trigger] css_reason(project, facts, i) {
        let i = choose|i: int| 0 <= i < n && #[trigger] css_reason(project, facts, i);
        assert(wants_css(project, facts[i]));
    }
    if exists|i: int| 0 <= i < n && #[trigger] islands_reason(project, facts, i) {
        let i = choose|i: int| 0 <= i < n && #[trigger] islands_reason(project, facts, i);
        assert(wants_islands(facts[i]));
    }
    if exists|i: int| 0 <= i < n && #[trigger] scripts_reason(project, facts, i) {
        let i = choose|i: int| 0 <= i < n && #[trigger] scripts_reason(project, facts, i);
        assert(wants_client_scripts(facts[i]));
    }
    if exists|i: int| 0 <= i < n && #[trigger] ssr_reason(project, facts, i) {
        let i = choose|i: int| 0 <= i < n && #[trigger] ssr_reason(project, facts, i);
        assert(wants_ssr(facts[i], override_at(project, facts, i)));
    }
}

/// What each change does by itself, among whatever others. A stylesheet and a
/// module rerun the CSS; a module below an islands root, and whatever the last
/// islands bundle read, the islands; whatever a client script reads, the client
/// scripts; and every source of pages, and every file outside the project,
/// reloads the renderer. A file that a plugin watches does all of that, and
/// selects every page; so does a global one that the hook does not narrow.
pub proof fn lemma_what_a_change_does(project: Project, facts: Seq<PathFacts>, i: int)
    requires
        0 <= i < facts.len(),
    ensures
        ({
            let plan = planned(project, facts);
            let f = facts[i];
            &&& f.class == PathClass::Style ==> plan.rerun_css
            &&& f.class == PathClass::Module ==> plan.rerun_css
            &&& f.class == PathClass::Content && mirrored(project, f) ==> plan.rerun_css
            &&& f.class == PathClass::Data && mirrored(project, f) ==> plan.rerun_css
            &&& f.class == PathClass::External && mirrored(project, f) ==> plan.rerun_css
            &&& f.class == PathClass::Module && f.islands_candidate ==> plan.rerun_islands
            &&& f.islands_dependency ==> plan.rerun_islands
            &&& f.client_script_candidate ==> plan.rerun_client_scripts
            &&& f.client_script_raw_target ==> plan.rerun_client_scripts
            &&& f.client_script_worker_target ==> plan.rerun_client_scripts
            &&& f.client_script_sibling_target ==> plan.rerun_client_scripts
            &&& f.class == PathClass::Page ==> plan.ssr_reload_needed
            &&& f.class == PathClass::Module ==> plan.ssr_reload_needed
            &&& f.class == PathClass::Content ==> plan.ssr_reload_needed
            &&& f.class == PathClass::Data ==> plan.ssr_reload_needed
            &&& f.class == PathClass::External ==> plan.ssr_reload_needed
            &&& f.class == PathClass::External && unnarrowed(project, facts, i) ==> plan.pages
                == Selection::All
            &&& f.plugin_watch_target || f.class == PathClass::Global && unnarrowed(
                project,
                facts,
                i,
            ) ==> plan.rerun_css && plan.rerun_islands && plan.rerun_client_scripts
                && plan.ssr_reload_needed && plan.pages == Selection::All
        }),
{
    lemma_plan_runs(project, facts);
    lemma_plan_selects(project, facts, Seq::empty());
    let plan = planned(project, facts);
    assert(css_reason(project, facts, i) ==> plan.rerun_css);
    assert(islands_reason(project, facts, i) ==> plan.rerun_islands);
    assert(scripts_reason(project, facts, i) ==> plan.rerun_client_scripts);
    assert(ssr_reason(project, facts, i) ==> plan.ssr_reload_needed);
    assert(takes_all(project, facts, i) ==> plan.pages == Selection::All);
}

/// What no change gives a reason for is not done. Where no plugin watches any of
/// the paths and none of them is global, a sub-pipeline that none of them has to
/// do with does not run; and changes of assets alone do nothing at all.
pub proof fn lemma_what_changes_leave_alone(project: Project, facts: Seq<PathFacts>)
    requires
        forall|i: int|
            0 <= i < facts.len() ==> !(#[trigger] facts[i]).plugin_watch_target && facts[i].class
                != PathClass::Global,
    ensures
        ({
            let plan = planned(project, facts);
            &&& (forall|i: int|
                0 <= i < facts.len() ==> (#[trigger] facts[i]).class != PathClass::Style
                    && facts[i].class != PathClass::Module && facts[i].css_mirror is None)
                ==> !plan.rerun_css
            &&& (forall|i: int|
                0 <= i < facts.len() ==> (#[trigger] facts[i]).class != PathClass::Module
                    && !facts[i].islands_dependency) ==> !plan.rerun_islands
            &&& (forall|i: int|
                0 <= i < facts.len() ==> !(#[trigger] facts[i]).client_script_candidate
                    && !facts[i].client_script_raw_target && !facts[i].client_script_worker_target
                    && !facts[i].client_script_sibling_target) ==> !plan.rerun_client_scripts
            &&& (forall|i: int|
                0 <= i < facts.len() ==> ((#[trigger] facts[i]).class == PathClass::Style
                    || facts[i].class == PathClass::Asset || facts[i].class
                    == PathClass::Unclassified) && facts[i].hook_verdict is None)
                ==> !plan.ssr_reload_needed
            &&& (forall|i: int|
                0 <= i < facts.len() ==> (#[trigger] facts[i]).class == PathClass::Asset
                    && facts[i].hook_verdict is None) ==> !plan.rerun_css
                && !plan.ssr_reload_needed && plan.pages == Selection::none()
        }),
{
    lemma_plan_runs(project, facts);
    let plan = planned(project, facts);
    if plan.rerun_css {
        let i = choose|i: int| 0 <= i < facts.len() && #[trigger] css_reason(project, facts, i);
        assert(!facts[i].plugin_watch_target);
    }
    if plan.rerun_islands {
        let i = choose|i: int|
            0 <= i < facts.len() && #[trigger] islands_reason(project, facts, i);
        assert(!facts[i].plugin_watch_target);
    }
    if plan.rerun_client_scripts {
        let i = choose|i: int|
            0 <= i < facts.len() && #[trigger] scripts_reason(project, facts, i);
        assert(!facts[i].plugin_watch_target);
    }
    if (forall|i: int| 0 <= i < facts.len() ==> (#[trigger] facts[i]).hook_verdict is None) {
        assert forall|i: int| unnarrowed(project, facts, i) by {
            assert forall|j: int| !#[trigger] hook_spoke(project, facts, i, j) by {
                if 0 <= j < facts.len() {
                    assert(facts[j].hook_verdict is None);
                }
            }
        }
        if plan.ssr_reload_needed {
            let i = choose|i: int|
                0 <= i < facts.len() && #[trigger] ssr_reason(project, facts, i);
            assert(!facts[i].plugin_watch_target);
            assert(unnarrowed(project, facts, i));
        }
        if forall|i: int| 0 <= i < facts.len() ==> (#[trigger] facts[i]).class
            == PathClass::Asset {
            lemma_plan_selects(project, facts, Seq::empty());
            if plan.pages == Selection::All {
                let i = choose|i: int|
                    0 <= i < facts.len() && #[trigger] takes_all(project, facts, i);
                assert(facts[i].class == PathClass::Asset);
            }
            assert forall|key: Seq<Part>| !chosen(plan.pages, key) by {
                lemma_plan_selects(project, facts, key);
                if chosen(plan.pages, key) {
                    let i = choose|i: int|
                        0 <= i < facts.len() && #[trigger] takes_page(project, facts, i, key);
                    assert(facts[i].class == PathClass::Asset);
                    if exists|j: int|
                        #[trigger] last_word(project, facts, i, j) && names(
                            facts[j].hook_verdict->0@,
                            key,
                        ) {
                        let j = choose|j: int|
                            #[trigger] last_word(project, facts, i, j) && names(
                                facts[j].hook_verdict->0@,
                                key,
                            );
                        assert(unnarrowed(project, facts, i));
                        assert(!hook_spoke(project, facts, i, j));
                    }
                }
            }
            if let Selection::Specific(set) = plan.pages {
                assert forall|key: Seq<Part>| !set.contains(key) by {
                    assert(!chosen(plan.pages, key));
                }
                assert(set =~= Set::empty());
            }
        }
    }
}

/// A page is selected only where there is a reason: where no plugin watches any of
/// the paths, the hook narrows none, and each of them is known, a source of pages,
/// and one for which the graph does not report the page, the page is not selected.
pub proof fn lemma_clean_pages_stay(project: Project, facts: Seq<PathFacts>, key: Seq<Part>)
    requires
        forall|i: int|
            0 <= i < facts.len() ==> !(#[trigger] facts[i]).plugin_watch_target && (is_source(
                facts[i].class,
            ) || facts[i].class == PathClass::Style || facts[i].class == PathClass::Unclassified)
                && facts[i].known && facts[i].hook_verdict is None,
        forall|i: int|
            0 <= i < facts.len() ==> ((#[trigger] facts[i]).dirty matches DirtySet::Specific(set)
                && !set@.contains(key)),
    ensures
        planned(project, facts).pages is Specific,
        !planned(project, facts).pages->Specific_0.contains(key),
{
    lemma_plan_selects(project, facts, key);
    let plan = planned(project, facts);
    assert forall|i: int, j: int| !hook_spoke(project, facts, i, j) by {
        if 0 <= j < facts.len() {
            assert(facts[j].hook_verdict is None);
        }
    }
    if plan.pages == Selection::All {
        let i = choose|i: int| 0 <= i < facts.len() && #[trigger] takes_all(project, facts, i);
        assert(facts[i].known && !facts[i].plugin_watch_target);
        assert(facts[i].dirty is Specific);
    }
    if chosen(plan.pages, key) {
        let i = choose|i: int|
            0 <= i < facts.len() && #[trigger] takes_page(project, facts, i, key);
        assert(facts[i].known && !facts[i].plugin_watch_target);
        assert(facts[i].dirty is Specific);
        if exists|j: int|
            #[trigger] last_word(project, facts, i, j) && names(facts[j].hook_verdict->0@, key) {
            let j = choose|j: int|
                #[trigger] last_word(project, facts, i, j) && names(
                    facts[j].hook_verdict->0@,
                    key,
                );
            assert(!hook_spoke(project, facts, i, j));
        }
    }
}

/// The project as planning sees it is what the configuration says: its root, the
/// names under which that is known and the directory names that are skipped, each
/// in order. The watcher's own debounce window is fifty milliseconds.
pub proof fn lemma_project_is_configured(config: OrchestratorConfig)
    ensures
        config.project().root == config.project_root@,
        config.project().aliases.len() == config.project_aliases@.len(),
        forall|i: int|
            0 <= i < config.project_aliases@.len() ==> #[trigger] config.project().aliases[i]
                == config.project_aliases@[i]@,
        config.project().skip_names.len() == config.css_mirror_skip_dir_names@.len(),
        forall|i: int|
            0 <= i < config.css_mirror_skip_dir_names@.len()
                ==> #[trigger] config.project().skip_names[i]
                == config.css_mirror_skip_dir_names@[i]@,
        default_debounce().secs == 0,
        default_debounce().nanos == 50 * 1000 * 1000,
{
}

/// The hook is asked about a path exactly where it lies outside the root.
pub proof fn lemma_when_the_hook_is_asked(project: Project, path: Seq<char>)
    ensures
        out_of_root(project, path) <==> !(parts(project.root).len() <= parts(path).len() && forall|
            i: int,
        |
            0 <= i < parts(project.root).len() ==> #[trigger] parts(project.root)[i] == parts(
                path,
            )[i]),
{
    let p = parts(path);
    let q = parts(project.root);
    if below(path, project.root) {
        assert forall|i: int| 0 <= i < q.len() implies #[trigger] q[i] == p[i] by {
            assert(p.subrange(0, q.len() as int)[i] == p[i]);
        }
    }
    if q.len() <= p.len() && forall|i: int| 0 <= i < q.len() ==> #[trigger] q[i] == p[i] {
        assert(p.subrange(0, q.len() as int) =~= q);
    }
}

} // verus!

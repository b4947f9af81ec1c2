//! What plans and selections are, told field by field and page by page.

use vstd::prelude::*;

use crate::path::Part;
use crate::plan::{ContentNarrowing, DirtySet, PageSelection, Plan, RebuildPlan};
use crate::tick::{resolved, settled};

verus! {

/// The empty plan asks for nothing at all. The full one asks for every page and
/// every sub-pipeline, reloads the renderer, and deletes nothing.
pub proof fn lemma_nothing_and_everything(key: Seq<Part>)
    ensures
        ({
            let nothing = Plan::empty();
            let everything = Plan::full();
            &&& nothing.pages is Specific && !nothing.pages.selects(key)
            &&& !nothing.rerun_css && !nothing.rerun_islands && !nothing.rerun_client_scripts
            &&& !nothing.renderer_fresh && !nothing.ssr_reload_needed
            &&& nothing.prune_paths.len() == 0 && nothing.triggers.len() == 0
            &&& nothing.content_narrowing is None
            &&& everything.pages is All && everything.pages.selects(key)
            &&& everything.rerun_css && everything.rerun_islands
                && everything.rerun_client_scripts
            &&& !everything.renderer_fresh && everything.ssr_reload_needed
            &&& everything.prune_paths.len() == 0 && everything.triggers.len() == 0
            &&& everything.content_narrowing is None
        }),
{
}

/// A plan does nothing exactly where it selects no page, runs no sub-pipeline,
/// reloads no renderer and deletes nothing.
pub proof fn lemma_what_asks_for_nothing(plan: Plan)
    ensures
        plan.noop() <==> {
            &&& plan.pages is Specific
            &&& forall|key: Seq<Part>| !#[trigger] plan.pages.selects(key)
            &&& !plan.rerun_css
            &&& !plan.rerun_islands
            &&& !plan.rerun_client_scripts
            &&& !plan.ssr_reload_needed
            &&& plan.prune_paths.len() == 0
        },
{
    if plan.pages is Specific && forall|key: Seq<Part>| !#[trigger] plan.pages.selects(key) {
        let set = plan.pages->Specific_0;
        assert forall|key: Seq<Part>| !#[trigger] set.contains(key) by {
            assert(!plan.pages.selects(key));
        }
        assert(set =~= Set::empty());
    }
}

/// With the pages at hand, a plan for every page selects those that there are, any
/// other plan what it selected, and nothing else about the plan changes. The plan
/// is handed on exactly where it asked for something before and still does.
pub proof fn lemma_every_page_is_resolved(plan: Plan, pages: Set<Seq<Part>>, key: Seq<Part>)
    ensures
        ({
            let ready = resolved(plan, pages);
            &&& ready.pages is Specific
            &&& plan.pages is All ==> (ready.pages.selects(key) <==> pages.contains(key))
            &&& plan.pages is Specific ==> ready.pages == plan.pages
            &&& ready.rerun_css == plan.rerun_css
            &&& ready.rerun_islands == plan.rerun_islands
            &&& ready.rerun_client_scripts == plan.rerun_client_scripts
            &&& ready.renderer_fresh == plan.renderer_fresh
            &&& ready.ssr_reload_needed == plan.ssr_reload_needed
            &&& ready.prune_paths == plan.prune_paths
            &&& ready.triggers == plan.triggers
            &&& ready.content_narrowing == plan.content_narrowing
            &&& settled(plan, pages) == (if ready.noop() {
                None::<Plan>
            } else {
                Some(ready)
            })
        }),
{
}

/// A selection selects a page where it is for every page or names it, and so does
/// what the dependency graph reports dirty; made into a selection, that selects the
/// same pages.
pub proof fn lemma_what_is_selected(pages: PageSelection, dirty: DirtySet, key: Seq<Part>)
    ensures
        pages@.selects(key) <==> match pages {
            PageSelection::All => true,
            PageSelection::Specific(set) => set@.contains(key),
        },
        dirty@.selects(key) <==> match dirty {
            DirtySet::All => true,
            DirtySet::Specific(set) => set@.contains(key),
        },
        pages@ is All <==> pages is All,
        dirty@ is All <==> dirty is All,
        <PageSelection as vstd::std_specs::convert::FromSpec<DirtySet>>::from_spec(dirty)@.selects(key) <==> dirty@.selects(
            key,
        ),
        <PageSelection as vstd::std_specs::convert::FromSpec<DirtySet>>::from_spec(dirty)@ is All <==> dirty is All,
{
}

/// What a plan says is what its fields hold, each path as it is spelled and in
/// order.
pub proof fn lemma_plan_says(plan: RebuildPlan, hint: ContentNarrowing, i: int)
    ensures
        plan@.pages == plan.pages@,
        plan@.rerun_css == plan.rerun_css,
        plan@.rerun_islands == plan.rerun_islands,
        plan@.rerun_client_scripts == plan.rerun_client_scripts,
        plan@.renderer_fresh == plan.renderer_fresh,
        plan@.ssr_reload_needed == plan.ssr_reload_needed,
        plan@.prune_paths.len() == plan.prune_paths@.len(),
        0 <= i < plan.prune_paths@.len() ==> plan@.prune_paths[i] == plan.prune_paths@[i]@,
        plan@.triggers.len() == plan.triggers@.len(),
        0 <= i < plan.triggers@.len() ==> plan@.triggers[i] == plan.triggers@[i]@,
        plan@.content_narrowing is Some <==> plan.content_narrowing is Some,
        plan.content_narrowing is Some ==> plan@.content_narrowing->0
            == plan.content_narrowing->0@,
        hint@.fan_out_safe == hint.fan_out_safe,
        hint@.changed_content.len() == hint.changed_content@.len(),
        0 <= i < hint.changed_content@.len() ==> hint@.changed_content[i]
            == hint.changed_content@[i]@,
{
}

} // verus!

//! One tick of the dev loop: from the watcher's changes to the plan that is
//! handed to the pipeline, or to none.
//!
//! A tick goes through three stages. [`TickIntake`] names the paths that the
//! registry of known content must forget before anything reads it.
//! [`NormalizedTick`] has each change under the kind that it really is, the
//! removed paths apart from the rest. [`BuildOrchestrator::tick_with_kinds`]
//! plans, from the answers that were collected for that stage.
//! [`crate::tick_run`] keeps the stages in their order.

use vstd::prelude::*;

use crate::facts::{
    changes_view, fact_paths, feeds_client_scripts, under_css_mirror, Change, ChangeKind, PathClass,
    PathFacts, Project,
};
use crate::orchestrator::{
    planned, shows_in_ssr, wants_client_scripts, wants_islands, BuildOrchestrator,
};
use crate::page::{list_with_all, page_key_set, PageId};
use crate::path::Part;
use crate::plan::{
    lemma_merge, select_pages, texts, ContentNarrowing, Narrowing, PageSelection, Plan, RebuildPlan,
    Selection,
};

verus! {

/// What is known of a changed path that may have been reported as created
/// though it was there before.
#[derive(Debug)]
pub struct CreatedFacts {
    /// Whether the path is a known content entry.
    pub known_entry: bool,
    /// Whether some page is recorded as reading it.
    pub has_consumers: bool,
    /// Its class.
    pub class: PathClass,
}

/// The kind that a change really is: a content file that was known before it
/// was reported as created has been modified.
pub open spec fn real_kind(kind: ChangeKind, f: CreatedFacts) -> ChangeKind {
    if kind == ChangeKind::Created && (f.known_entry || f.has_consumers) && f.class
        == PathClass::Content {
        ChangeKind::Modified
    } else {
        kind
    }
}

/// The changes under the kinds that they really are.
pub open spec fn normalized(
    changes: Seq<(Seq<char>, ChangeKind)>,
    facts: Seq<CreatedFacts>,
) -> Seq<(Seq<char>, ChangeKind)> {
    Seq::new(changes.len(), |i: int| (changes[i].0, real_kind(changes[i].1, facts[i])))
}

/// The removed paths among the changes, in order.
pub open spec fn removed_paths(changes: Seq<(Seq<char>, ChangeKind)>) -> Seq<Seq<char>>
    decreases changes.len(),
{
    if changes.len() == 0 {
        Seq::empty()
    } else {
        let before = removed_paths(changes.drop_last());
        if changes.last().1 == ChangeKind::Removed {
            before.push(changes.last().0)
        } else {
            before
        }
    }
}

/// The changes that are no removals, in order.
pub open spec fn live_changes(changes: Seq<(Seq<char>, ChangeKind)>) -> Seq<
    (Seq<char>, ChangeKind),
>
    decreases changes.len(),
{
    if changes.len() == 0 {
        Seq::empty()
    } else {
        let before = live_changes(changes.drop_last());
        if changes.last().1 == ChangeKind::Removed {
            before
        } else {
            before.push(changes.last())
        }
    }
}

/// The created paths among the changes, in order.
pub open spec fn created_paths(changes: Seq<(Seq<char>, ChangeKind)>) -> Seq<Seq<char>>
    decreases changes.len(),
{
    if changes.len() == 0 {
        Seq::empty()
    } else {
        let before = created_paths(changes.drop_last());
        if changes.last().1 == ChangeKind::Created {
            before.push(changes.last().0)
        } else {
            before
        }
    }
}

/// The paths of the changes, in order.
pub open spec fn change_paths(changes: Seq<(Seq<char>, ChangeKind)>) -> Seq<Seq<char>> {
    changes.map_values(|c: (Seq<char>, ChangeKind)| c.0)
}

proof fn lemma_removed_survive(
    changes: Seq<(Seq<char>, ChangeKind)>,
    facts: Seq<CreatedFacts>,
)
    requires
        facts.len() == changes.len(),
    ensures
        removed_paths(normalized(changes, facts)) == removed_paths(changes),
    decreases changes.len(),
{
    if changes.len() > 0 {
        lemma_removed_survive(changes.drop_last(), facts.drop_last());
        assert(normalized(changes, facts).drop_last() =~= normalized(
            changes.drop_last(),
            facts.drop_last(),
        ));
    }
}

/// Naming changes by their real kinds a second time changes nothing, and no
/// removal is ever taken for anything else, nor anything else for a removal.
pub proof fn lemma_normalization(
    changes: Seq<(Seq<char>, ChangeKind)>,
    facts: Seq<CreatedFacts>,
)
    requires
        facts.len() == changes.len(),
    ensures
        normalized(normalized(changes, facts), facts) == normalized(changes, facts),
        change_paths(normalized(changes, facts)) == change_paths(changes),
        forall|i: int|
            0 <= i < changes.len() ==> ((#[trigger] normalized(changes, facts)[i]).1
                == ChangeKind::Removed <==> changes[i].1 == ChangeKind::Removed),
        forall|i: int|
            0 <= i < changes.len() && changes[i].1 == ChangeKind::Created && !facts[i].known_entry
                && !facts[i].has_consumers ==> (#[trigger] normalized(changes, facts)[i]).1
                == ChangeKind::Created,
{
    assert(normalized(normalized(changes, facts), facts) =~= normalized(changes, facts));
    assert(change_paths(normalized(changes, facts)) =~= change_paths(changes));
}

/// The changes of a tick as the watcher reported them.
#[derive(Debug)]
pub struct TickIntake {
    changes: Vec<Change>,
}

impl View for TickIntake {
    type V = Seq<(Seq<char>, ChangeKind)>;

    closed spec fn view(&self) -> Seq<(Seq<char>, ChangeKind)> {
        changes_view(self.changes@)
    }
}

impl TickIntake {
    /// A tick with these changes.
    pub fn new(changes: Vec<Change>) -> (r: TickIntake)
        ensures
            r@ == changes_view(changes@),
    {
        TickIntake { changes }
    }

    /// The changes.
    pub fn changes(&self) -> (r: &Vec<Change>)
        ensures
            changes_view(r@) == self@,
    {
        &self.changes
    }

    /// The paths that the registry of known content must forget, with all that
    /// lies below them, before the tick goes on: the removed ones.
    pub fn purges(&self) -> (r: Vec<String>)
        ensures
            texts(r@) == removed_paths(self@),
    {
        let mut out: Vec<String> = Vec::new();
        let mut i: usize = 0;
        let ghost all = self@;
        assert(all.take(0) =~= Seq::empty());
        assert(texts(out@) =~= removed_paths(all.take(0)));
        while i < self.changes.len()
            invariant
                i <= self.changes@.len(),
                all == changes_view(self.changes@),
                texts(out@) == removed_paths(all.take(i as int)),
            decreases self.changes@.len() - i,
        {
            let c = &self.changes[i];
            assert(all[i as int] == c@);
            assert(all.take(i as int + 1).drop_last() =~= all.take(i as int));
            if c.kind == ChangeKind::Removed {
                out.push(c.path.clone());
                assert(texts(out@) =~= removed_paths(all.take(i as int)).push(c.path@));
            }
            i = i + 1;
        }
        assert(all.take(i as int) =~= all);
        out
    }

    /// Names each change by its real kind. `facts` are what is known of the
    /// changed paths, in the order of the changes, after the registry has
    /// forgotten the paths that [`TickIntake::purges`] names.
    pub fn normalize(&self, facts: &Vec<CreatedFacts>) -> (r: NormalizedTick)
        requires
            facts@.len() == self@.len(),
        ensures
            r.live() == live_changes(normalized(self@, facts@)),
            r.gone() == removed_paths(self@),
    {
        let ghost all = normalized(self@, facts@);
        let ghost raw = self@;
        let mut live: Vec<Change> = Vec::new();
        let mut removed: Vec<String> = Vec::new();
        let mut i: usize = 0;
        assert(all.take(0) =~= Seq::empty());
        assert(changes_view(live@) =~= live_changes(all.take(0)));
        assert(texts(removed@) =~= removed_paths(all.take(0)));
        while i < self.changes.len()
            invariant
                i <= self.changes@.len(),
                facts@.len() == self.changes@.len(),
                raw == changes_view(self.changes@),
                raw.len() == self.changes@.len(),
                all == normalized(raw, facts@),
                all.len() == raw.len(),
                changes_view(live@) == live_changes(all.take(i as int)),
                texts(removed@) == removed_paths(all.take(i as int)),
            decreases self.changes@.len() - i,
        {
            let c = &self.changes[i];
            let f = &facts[i];
            assert(raw[i as int] == c@);
            assert(all.take(i as int + 1).drop_last() =~= all.take(i as int));
            assert(all[i as int] == (c.path@, real_kind(c.kind, *f)));
            let spurious: bool = c.kind == ChangeKind::Created && (f.known_entry
                || f.has_consumers) && f.class == PathClass::Content;
            let kind: ChangeKind = if spurious {
                ChangeKind::Modified
            } else {
                c.kind
            };
            if kind == ChangeKind::Removed {
                removed.push(c.path.clone());
                assert(texts(removed@) =~= removed_paths(all.take(i as int)).push(c.path@));
            } else {
                live.push(Change { path: c.path.clone(), kind });
                assert(changes_view(live@) =~= live_changes(all.take(i as int)).push(
                    (c.path@, kind),
                ));
            }
            i = i + 1;
        }
        proof {
            assert(all.take(i as int) =~= all);
            lemma_removed_survive(raw, facts@);
        }
        NormalizedTick { live, removed }
    }
}

/// The changes of a tick under the kinds that they really are, the removed paths
/// apart.
#[derive(Debug)]
pub struct NormalizedTick {
    live: Vec<Change>,
    removed: Vec<String>,
}

impl NormalizedTick {
    /// A tick without changes.
    pub fn empty() -> (r: NormalizedTick)
        ensures
            r.live().len() == 0,
            r.gone().len() == 0,
    {
        NormalizedTick { live: Vec::new(), removed: Vec::new() }
    }

    /// The changes that are no removals.
    pub closed spec fn live(&self) -> Seq<(Seq<char>, ChangeKind)> {
        changes_view(self.live@)
    }

    /// The removed paths.
    pub closed spec fn gone(&self) -> Seq<Seq<char>> {
        texts(self.removed@)
    }

    /// The changes that are no removals.
    pub fn live_changes(&self) -> (r: &Vec<Change>)
        ensures
            changes_view(r@) == self.live(),
    {
        &self.live
    }

    /// The removed paths.
    pub fn removed(&self) -> (r: &Vec<String>)
        ensures
            texts(r@) == self.gone(),
    {
        &self.removed
    }

    /// The created paths.
    pub fn created(&self) -> (r: Vec<String>)
        ensures
            texts(r@) == created_paths(self.live()),
    {
        let mut out: Vec<String> = Vec::new();
        let mut i: usize = 0;
        let ghost all = self.live();
        assert(all.take(0) =~= Seq::empty());
        assert(texts(out@) =~= created_paths(all.take(0)));
        while i < self.live.len()
            invariant
                i <= self.live@.len(),
                all == changes_view(self.live@),
                texts(out@) == created_paths(all.take(i as int)),
            decreases self.live@.len() - i,
        {
            let c = &self.live[i];
            assert(all[i as int] == c@);
            assert(all.take(i as int + 1).drop_last() =~= all.take(i as int));
            if c.kind == ChangeKind::Created {
                out.push(c.path.clone());
                assert(texts(out@) =~= created_paths(all.take(i as int)).push(c.path@));
            }
            i = i + 1;
        }
        assert(all.take(i as int) =~= all);
        out
    }

    /// What the discovery hook is asked about: the created paths, where there is
    /// a hook and there are any.
    pub fn discovery_request(&self, hooked: bool) -> (r: Option<Vec<String>>)
        ensures
            match r {
                Some(paths) => hooked && texts(paths@) == created_paths(self.live())
                    && paths@.len() > 0,
                None => !hooked || created_paths(self.live()).len() == 0,
            },
    {
        if !hooked {
            return None;
        }
        let out = self.created();
        assert(texts(out@).len() == out@.len());
        if out.len() == 0 {
            None
        } else {
            Some(out)
        }
    }
}

/// What the discovery hook did.
#[derive(Debug)]
pub struct DiscoveryOutcome {
    /// The pages whose routes changed.
    pub pages: Vec<PageId>,
    /// Whether the hook rebuilt and reloaded the renderer.
    pub renderer_reloaded: bool,
    /// The absolute output paths that no route has any more.
    pub vanished_output_paths: Vec<String>,
}

impl Default for DiscoveryOutcome {
    fn default() -> (r: DiscoveryOutcome)
        ensures
            r.pages@.len() == 0,
            !r.renderer_reloaded,
            r.vanished_output_paths@.len() == 0,
    {
        DiscoveryOutcome {
            pages: Vec::new(),
            renderer_reloaded: false,
            vanished_output_paths: Vec::new(),
        }
    }
}

/// The answers that a normalized tick is planned from, collected after the
/// removed paths have left the dependency graph and the discovery hook has run.
#[derive(Debug)]
pub struct TickAnswers {
    /// What is known of each change that is no removal, in order.
    pub planned: Vec<PathFacts>,
    /// What is known of each removed path, in order.
    pub removed: Vec<PathFacts>,
    /// The pages that read the removed paths.
    pub removed_consumers: Vec<PageId>,
    /// What the discovery hook did.
    pub discovered: DiscoveryOutcome,
}

/// What [`TickAnswers`] say.
pub struct Told {
    pub planned: Seq<PathFacts>,
    pub removed: Seq<PathFacts>,
    pub removed_consumers: Seq<PageId>,
    /// The pages that were discovered.
    pub found: Seq<PageId>,
    /// Whether discovery reloaded the renderer.
    pub reloaded: bool,
    /// The outputs that discovery left without a route.
    pub vanished: Seq<Seq<char>>,
}

impl View for TickAnswers {
    type V = Told;

    open spec fn view(&self) -> Told {
        Told {
            planned: self.planned@,
            removed: self.removed@,
            removed_consumers: self.removed_consumers@,
            found: self.discovered.pages@,
            reloaded: self.discovered.renderer_reloaded,
            vanished: texts(self.discovered.vanished_output_paths@),
        }
    }
}

/// A removal that invalidates every page.
pub open spec fn removal_claims_all(f: PathFacts) -> bool {
    f.class == PathClass::Global || f.plugin_watch_target
}

/// A removal that reruns the CSS pipeline.
pub open spec fn removal_wants_css(project: Project, f: PathFacts) -> bool {
    ||| f.class == PathClass::Global
    ||| f.class == PathClass::Style
    ||| under_css_mirror(project, f)
    ||| f.plugin_watch_target
}

/// A removal that reruns the islands bundler.
pub open spec fn removal_wants_islands(f: PathFacts) -> bool {
    f.class == PathClass::Global || wants_islands(f)
}

/// A removal that reruns the client-scripts bundler.
pub open spec fn removal_wants_client_scripts(f: PathFacts) -> bool {
    f.class == PathClass::Global || wants_client_scripts(f)
}

/// A removal that reloads the renderer.
pub open spec fn removal_wants_ssr(f: PathFacts) -> bool {
    f.class == PathClass::Global || shows_in_ssr(f.class) || f.plugin_watch_target
}

/// What the first `n` removals add to a plan.
pub open spec fn with_removals(
    project: Project,
    base: Plan,
    facts: Seq<PathFacts>,
    n: int,
) -> Plan {
    Plan {
        pages: if exists|i: int| 0 <= i < n && removal_claims_all(#[trigger] facts[i]) {
            Selection::All
        } else {
            base.pages
        },
        rerun_css: base.rerun_css || exists|i: int|
            0 <= i < n && removal_wants_css(project, #[trigger] facts[i]),
        rerun_islands: base.rerun_islands || exists|i: int|
            0 <= i < n && removal_wants_islands(#[trigger] facts[i]),
        rerun_client_scripts: base.rerun_client_scripts || exists|i: int|
            0 <= i < n && removal_wants_client_scripts(#[trigger] facts[i]),
        ssr_reload_needed: base.ssr_reload_needed || exists|i: int|
            0 <= i < n && removal_wants_ssr(#[trigger] facts[i]),
        ..base
    }
}

/// The paths of the content files among the facts, in order.
pub open spec fn content_paths(facts: Seq<PathFacts>) -> Seq<Seq<char>>
    decreases facts.len(),
{
    if facts.len() == 0 {
        Seq::empty()
    } else {
        let before = content_paths(facts.drop_last());
        if facts.last().class == PathClass::Content {
            before.push(facts.last().path@)
        } else {
            before
        }
    }
}

/// The tick is nothing but in-place edits of content files from which no plugin
/// loads a module.
pub open spec fn in_place_content_only(
    live: Seq<(Seq<char>, ChangeKind)>,
    removed: Seq<PathFacts>,
    facts: Seq<PathFacts>,
) -> bool {
    &&& removed.len() == 0
    &&& forall|i: int|
        0 <= i < live.len() ==> (#[trigger] live[i]).1 == ChangeKind::Modified && facts[i].class
            == PathClass::Content && !facts[i].plugin_watch_target
}

/// The narrowing hint of a tick that renders `pages`.
pub open spec fn hint(
    live: Seq<(Seq<char>, ChangeKind)>,
    answers: Told,
    pages: Selection,
) -> Option<Narrowing> {
    let edited = content_paths(answers.planned);
    if edited.len() > 0 && pages != Selection::none() {
        Some(
            Narrowing {
                changed_content: edited,
                fan_out_safe: in_place_content_only(live, answers.removed, answers.planned),
            },
        )
    } else {
        None
    }
}

/// The plan of a tick, before `All` is resolved.
pub open spec fn tick_plan(
    project: Project,
    live: Seq<(Seq<char>, ChangeKind)>,
    answers: Told,
) -> Plan {
    let base = planned(project, answers.planned);
    let consumers = Selection::Specific(page_key_set(answers.removed_consumers));
    let found = Selection::Specific(page_key_set(answers.found));
    let folded = with_removals(
        project,
        Plan { pages: base.pages.merged(consumers), ..base },
        answers.removed,
        answers.removed.len() as int,
    );
    let pages = folded.pages.merged(found);
    Plan {
        pages,
        renderer_fresh: answers.reloaded,
        prune_paths: answers.vanished,
        content_narrowing: hint(live, answers, pages),
        ..folded
    }
}

/// The answers are about these changes and these removed paths, in order.
pub open spec fn answers_about(
    live: Seq<(Seq<char>, ChangeKind)>,
    gone: Seq<Seq<char>>,
    answers: Told,
) -> bool {
    &&& fact_paths(answers.planned) == change_paths(live)
    &&& fact_paths(answers.removed) == gone
}

/// The answers are about the paths of the tick.
pub open spec fn answers_match(tick: NormalizedTick, answers: Told) -> bool {
    answers_about(tick.live(), tick.gone(), answers)
}

/// The plan with `All` replaced by the pages that there are.
pub open spec fn resolved(plan: Plan, pages: Set<Seq<Part>>) -> Plan {
    Plan {
        pages: if plan.pages == Selection::All {
            Selection::Specific(pages)
        } else {
            plan.pages
        },
        ..plan
    }
}

/// What is handed to the pipeline: nothing where the plan asks for nothing, or
/// asks for nothing once `All` is resolved.
pub open spec fn settled(plan: Plan, pages: Set<Seq<Part>>) -> Option<Plan> {
    if plan.noop() || resolved(plan, pages).noop() {
        None
    } else {
        Some(resolved(plan, pages))
    }
}

/// The plan that a pipeline may be handed, as a specification value.
pub open spec fn plan_view(plan: Option<RebuildPlan>) -> Option<Plan> {
    match plan {
        Some(p) => Some(p@),
        None => None,
    }
}

/// Replaces `All` by the pages that there are.
pub fn resolve_all(plan: &mut RebuildPlan, pages: &Vec<PageId>)
    ensures
        final(plan)@ == resolved(old(plan)@, page_key_set(pages@)),
        final(plan).pages.listed() == if old(plan)@.pages == Selection::All {
            list_with_all(Seq::empty(), pages@)
        } else {
            old(plan).pages.listed()
        },
{
    if plan.pages.is_all() {
        plan.pages = select_pages(pages);
    }
}

/// Resolves a plan, and drops it where it asks for nothing.
pub fn settle(plan: RebuildPlan, pages: &Vec<PageId>) -> (r: Option<RebuildPlan>)
    ensures
        plan_view(r) == settled(plan@, page_key_set(pages@)),
{
    if plan.is_noop() {
        return None;
    }
    let mut plan = plan;
    resolve_all(&mut plan, pages);
    if plan.is_noop() {
        return None;
    }
    Some(plan)
}

proof fn lemma_with_removals_step(project: Project, base: Plan, facts: Seq<PathFacts>, n: int)
    requires
        0 <= n < facts.len(),
    ensures
        ({
            let before = with_removals(project, base, facts, n);
            with_removals(project, base, facts, n + 1) == (Plan {
                pages: if removal_claims_all(facts[n]) {
                    Selection::All
                } else {
                    before.pages
                },
                rerun_css: before.rerun_css || removal_wants_css(project, facts[n]),
                rerun_islands: before.rerun_islands || removal_wants_islands(facts[n]),
                rerun_client_scripts: before.rerun_client_scripts || removal_wants_client_scripts(
                    facts[n],
                ),
                ssr_reload_needed: before.ssr_reload_needed || removal_wants_ssr(facts[n]),
                ..before
            })
        }),
{
    let f = facts[n];
    assert((exists|i: int| 0 <= i < n + 1 && removal_claims_all(#[trigger] facts[i])) == ((exists|
        i: int,
    | 0 <= i < n && removal_claims_all(#[trigger] facts[i])) || removal_claims_all(f)));
    assert((exists|i: int| 0 <= i < n + 1 && removal_wants_css(project, #[trigger] facts[i])) == ((
    exists|i: int| 0 <= i < n && removal_wants_css(project, #[trigger] facts[i]))
        || removal_wants_css(project, f)));
    assert((exists|i: int| 0 <= i < n + 1 && removal_wants_islands(#[trigger] facts[i])) == ((
    exists|i: int| 0 <= i < n && removal_wants_islands(#[trigger] facts[i]))
        || removal_wants_islands(f)));
    assert((exists|i: int| 0 <= i < n + 1 && removal_wants_client_scripts(#[trigger] facts[i])) == ((
    exists|i: int| 0 <= i < n && removal_wants_client_scripts(#[trigger] facts[i]))
        || removal_wants_client_scripts(f)));
    assert((exists|i: int| 0 <= i < n + 1 && removal_wants_ssr(#[trigger] facts[i])) == ((exists|
        i: int,
    | 0 <= i < n && removal_wants_ssr(#[trigger] facts[i])) || removal_wants_ssr(f)));
}

impl BuildOrchestrator {
    /// Adds to the plan what a removal asks for.
    fn fold_removed(&self, plan: &mut RebuildPlan, f: &PathFacts)
        ensures
            ({
                let before = old(plan)@;
                final(plan)@ == (Plan {
                    pages: if removal_claims_all(*f) {
                        Selection::All
                    } else {
                        before.pages
                    },
                    rerun_css: before.rerun_css || removal_wants_css(self.project(), *f),
                    rerun_islands: before.rerun_islands || removal_wants_islands(*f),
                    rerun_client_scripts: before.rerun_client_scripts
                        || removal_wants_client_scripts(*f),
                    ssr_reload_needed: before.ssr_reload_needed || removal_wants_ssr(*f),
                    ..before
                })
            }),
    {
        match f.class {
            PathClass::Global => {
                plan.mark_pages(PageSelection::All);
                plan.mark_css();
                plan.mark_islands();
                plan.mark_client_scripts();
                plan.mark_ssr_reload_needed();
            },
            PathClass::Page | PathClass::Module | PathClass::Content | PathClass::Data => {
                plan.mark_ssr_reload_needed();
                if f.class == PathClass::Module && f.islands_candidate {
                    plan.mark_islands();
                }
            },
            PathClass::Style => {
                plan.mark_css();
            },
            PathClass::External => {
                plan.mark_ssr_reload_needed();
            },
            PathClass::Asset | PathClass::Unclassified => {},
        }
        if self.config().path_under_css_mirror_root(f) {
            plan.mark_css();
        }
        if f.islands_dependency {
            plan.mark_islands();
        }
        if f.feeds_client_scripts() {
            plan.mark_client_scripts();
        }
        if f.plugin_watch_target {
            plan.mark_pages(PageSelection::All);
            plan.mark_islands();
            plan.mark_client_scripts();
            plan.mark_css();
            plan.mark_ssr_reload_needed();
        }
    }

    /// The plan of a normalized tick, before `All` is resolved.
    pub fn plan_tick(&self, tick: &NormalizedTick, answers: &TickAnswers) -> (plan: RebuildPlan)
        requires
            answers_match(*tick, answers@),
        ensures
            plan@ == tick_plan(self.project(), tick.live(), answers@),
    {
        let ghost project = self.project();
        let mut plan = self.plan_for_changes(&answers.planned);
        let ghost first = plan@;
        proof {
            lemma_merge(first.pages, Selection::none(), Selection::none());
        }
        if answers.removed_consumers.len() > 0 {
            plan.mark_pages(select_pages(&answers.removed_consumers));
        } else {
            assert(page_key_set(answers.removed_consumers@) =~= Set::empty());
        }
        let ghost base = plan@;
        assert(base == (Plan {
            pages: first.pages.merged(
                Selection::Specific(page_key_set(answers.removed_consumers@)),
            ),
            ..first
        }));
        let mut i: usize = 0;
        while i < answers.removed.len()
            invariant
                i <= answers.removed@.len(),
                project == self.project(),
                plan@ == with_removals(project, base, answers.removed@, i as int),
            decreases answers.removed@.len() - i,
        {
            proof {
                lemma_with_removals_step(project, base, answers.removed@, i as int);
            }
            self.fold_removed(&mut plan, &answers.removed[i]);
            i = i + 1;
        }
        let ghost folded = plan@;
        proof {
            lemma_merge(folded.pages, Selection::none(), Selection::none());
        }
        let d = &answers.discovered;
        if d.renderer_reloaded {
            plan.mark_renderer_fresh();
        }
        if d.pages.len() > 0 {
            plan.mark_pages(select_pages(&d.pages));
        } else {
            assert(page_key_set(d.pages@) =~= Set::empty());
        }
        if d.vanished_output_paths.len() > 0 {
            plan.add_prune_paths(&d.vanished_output_paths);
        }
        assert(plan@.prune_paths =~= texts(d.vanished_output_paths@));
        let edited = edited_content(&answers.planned);
        assert(texts(edited@).len() == edited@.len());
        if edited.len() > 0 && !plan.pages.is_empty() {
            let fan_out_safe = self.tick_is_in_place_content(tick, answers);
            plan.content_narrowing = Some(
                ContentNarrowing { changed_content: edited, fan_out_safe },
            );
        }
        assert(plan@ =~= tick_plan(project, tick.live(), answers@));
        plan
    }

    /// Whether the tick is nothing but in-place edits of content files from
    /// which no plugin loads a module.
    fn tick_is_in_place_content(&self, tick: &NormalizedTick, answers: &TickAnswers) -> (r: bool)
        requires
            answers_match(*tick, answers@),
        ensures
            r == in_place_content_only(tick.live(), answers.removed@, answers.planned@),
    {
        if answers.removed.len() > 0 {
            return false;
        }
        let live = tick.live_changes();
        let ghost all = tick.live();
        assert(change_paths(all).len() == all.len());
        assert(fact_paths(answers.planned@).len() == answers.planned@.len());
        let mut i: usize = 0;
        while i < live.len()
            invariant
                i <= live@.len(),
                all == changes_view(live@),
                all.len() == live@.len(),
                all == tick.live(),
                answers.planned@.len() == live@.len(),
                forall|k: int|
                    0 <= k < i ==> (#[trigger] all[k]).1 == ChangeKind::Modified
                        && answers.planned@[k].class == PathClass::Content
                        && !answers.planned@[k].plugin_watch_target,
            decreases live@.len() - i,
        {
            assert(all[i as int] == live@[i as int]@);
            let f = &answers.planned[i];
            if live[i].kind != ChangeKind::Modified || f.class != PathClass::Content
                || f.plugin_watch_target {
                return false;
            }
            i = i + 1;
        }
        true
    }

    /// What the pipeline is handed for a list of changes, kinds aside. `pages`
    /// are all the pages that there are.
    pub fn tick(&self, facts: &Vec<PathFacts>, pages: &Vec<PageId>) -> (r: Option<RebuildPlan>)
        ensures
            plan_view(r) == settled(planned(self.project(), facts@), page_key_set(pages@)),
    {
        let plan = self.plan_for_changes(facts);
        settle(plan, pages)
    }

    /// What the pipeline is handed for a tick. `pages` are all the pages that
    /// there are.
    pub fn tick_with_kinds(
        &self,
        tick: &NormalizedTick,
        answers: &TickAnswers,
        pages: &Vec<PageId>,
    ) -> (r: Option<RebuildPlan>)
        requires
            answers_match(*tick, answers@),
        ensures
            plan_view(r) == settled(
                tick_plan(self.project(), tick.live(), answers@),
                page_key_set(pages@),
            ),
    {
        let plan = self.plan_tick(tick, answers);
        settle(plan, pages)
    }

    /// What the pipeline is handed at boot: every page, with the renderer
    /// already fresh; nothing where there is no page.
    pub fn initial_build(&self, pages: &Vec<PageId>) -> (r: Option<RebuildPlan>)
        ensures
            plan_view(r) == (if page_key_set(pages@) == Set::<Seq<Part>>::empty() {
                None
            } else {
                Some(
                    Plan {
                        pages: Selection::Specific(page_key_set(pages@)),
                        renderer_fresh: true,
                        ..Plan::empty()
                    },
                )
            }),
    {
        let mut plan = RebuildPlan::empty();
        plan.mark_pages(PageSelection::All);
        plan.mark_renderer_fresh();
        resolve_all(&mut plan, pages);
        if plan.pages.is_empty() {
            return None;
        }
        Some(plan)
    }
}

/// The paths of the content files among the facts.
fn edited_content(facts: &Vec<PathFacts>) -> (r: Vec<String>)
    ensures
        texts(r@) == content_paths(facts@),
{
    let mut out: Vec<String> = Vec::new();
    let mut i: usize = 0;
    assert(facts@.take(0) =~= Seq::empty());
    assert(texts(out@) =~= content_paths(facts@.take(0)));
    while i < facts.len()
        invariant
            i <= facts@.len(),
            texts(out@) == content_paths(facts@.take(i as int)),
        decreases facts@.len() - i,
    {
        let f = &facts[i];
        assert(facts@.take(i as int + 1).drop_last() =~= facts@.take(i as int));
        if f.class == PathClass::Content {
            out.push(f.path.clone());
            assert(texts(out@) =~= content_paths(facts@.take(i as int)).push(f.path@));
        }
        i = i + 1;
    }
    assert(facts@.take(i as int) =~= facts@);
    out
}

/// `path` is the path of some content file among the facts.
pub open spec fn is_content_path(facts: Seq<PathFacts>, path: Seq<char>) -> bool {
    exists|i: int|
        0 <= i < facts.len() && (#[trigger] facts[i]).class == PathClass::Content && facts[i].path@
            == path
}

proof fn lemma_content_paths(facts: Seq<PathFacts>)
    ensures
        (forall|i: int| 0 <= i < facts.len() ==> (#[trigger] facts[i]).class == PathClass::Content)
            ==> content_paths(facts) == fact_paths(facts),
        forall|k: int|
            0 <= k < content_paths(facts).len() ==> is_content_path(
                facts,
                #[trigger] content_paths(facts)[k],
            ),
    decreases facts.len(),
{
    if facts.len() == 0 {
        assert(content_paths(facts) =~= fact_paths(facts));
    } else {
        let init = facts.drop_last();
        let last = facts.last();
        assert(last == facts[facts.len() - 1]);
        lemma_content_paths(init);
        if forall|i: int| 0 <= i < facts.len() ==> (#[trigger] facts[i]).class
            == PathClass::Content {
            assert forall|i: int| 0 <= i < init.len() implies (#[trigger] init[i]).class
                == PathClass::Content by {
                assert(facts[i].class == PathClass::Content);
            }
            assert(content_paths(facts) =~= fact_paths(facts));
        }
        assert forall|k: int| 0 <= k < content_paths(facts).len() implies is_content_path(
            facts,
            #[trigger] content_paths(facts)[k],
        ) by {
            if k < content_paths(init).len() {
                let path = content_paths(init)[k];
                assert(is_content_path(init, path));
                let i = choose|i: int|
                    0 <= i < init.len() && (#[trigger] init[i]).class == PathClass::Content
                        && init[i].path@ == path;
                assert(facts[i] == init[i]);
            } else {
                assert(facts[facts.len() - 1].path@ == content_paths(facts)[k]);
            }
        }
    }
}

/// Where a tick's hint says that rendering only what the edited files back
/// leaves nothing out, the tick is nothing but in-place edits of content files,
/// and the hint names all of them in order.
pub proof fn lemma_fan_out_safe(project: Project, tick: NormalizedTick, answers: Told)
    requires
        answers_match(tick, answers),
        tick_plan(project, tick.live(), answers).content_narrowing is Some,
        (tick_plan(project, tick.live(), answers).content_narrowing->0).fan_out_safe,
    ensures
        tick.gone().len() == 0,
        forall|i: int|
            0 <= i < tick.live().len() ==> (#[trigger] tick.live()[i]).1 == ChangeKind::Modified,
        (tick_plan(project, tick.live(), answers).content_narrowing->0).changed_content
            == change_paths(tick.live()),
{
    let facts = answers.planned;
    let live = tick.live();
    assert(fact_paths(facts).len() == facts.len());
    assert(change_paths(live).len() == live.len());
    assert(fact_paths(answers.removed).len() == answers.removed.len());
    assert forall|i: int| 0 <= i < facts.len() implies (#[trigger] facts[i]).class
        == PathClass::Content by {
        assert(live[i].1 == ChangeKind::Modified);
    }
    lemma_content_paths(facts);
}

/// A tick's hint names content files that were changed and not removed.
pub proof fn lemma_hint_names_live_content(
    project: Project,
    tick: NormalizedTick,
    answers: Told,
    k: int,
)
    requires
        answers_match(tick, answers),
        tick_plan(project, tick.live(), answers).content_narrowing is Some,
        0 <= k < (tick_plan(
            project,
            tick.live(),
            answers,
        ).content_narrowing->0).changed_content.len(),
    ensures
        change_paths(tick.live()).contains(
            (tick_plan(project, tick.live(), answers).content_narrowing->0).changed_content[k],
        ),
{
    lemma_content_paths(answers.planned);
    let path = content_paths(answers.planned)[k];
    assert(is_content_path(answers.planned, path));
    let i = choose|i: int|
        0 <= i < answers.planned.len() && (#[trigger] answers.planned[i]).class
            == PathClass::Content && answers.planned[i].path@ == path;
    assert(fact_paths(answers.planned)[i] == path);
    assert(change_paths(tick.live())[i] == path);
}

/// A deletion never falls back to rendering every page: where a tick only
/// removes files, none of them global or watched by a plugin, it renders the
/// pages that read them and the pages that were discovered.
pub proof fn lemma_removal_renders_consumers(
    project: Project,
    live: Seq<(Seq<char>, ChangeKind)>,
    answers: Told,
)
    requires
        answers.planned.len() == 0,
        forall|i: int|
            0 <= i < answers.removed.len() ==> !removal_claims_all(
                #[trigger] answers.removed[i],
            ),
    ensures
        tick_plan(project, live, answers).pages == Selection::Specific(
            page_key_set(answers.removed_consumers).union(
                page_key_set(answers.found),
            ),
        ),
        tick_plan(project, live, answers).content_narrowing is None,
{
    let consumers = Selection::Specific(page_key_set(answers.removed_consumers));
    lemma_merge(consumers, Selection::none(), Selection::none());
    assert(planned(project, answers.planned).pages == Selection::none());
    assert(Selection::none().merged(consumers) == consumers);
}

/// The removal of a global file, or of one from which a plugin loads a virtual
/// module, rebuilds everything: every page and every sub-pipeline.
pub proof fn lemma_removal_rebuilds_all(
    project: Project,
    live: Seq<(Seq<char>, ChangeKind)>,
    answers: Told,
    i: int,
)
    requires
        0 <= i < answers.removed.len(),
        removal_claims_all(answers.removed[i]),
    ensures
        ({
            let plan = tick_plan(project, live, answers);
            &&& plan.pages == Selection::All
            &&& plan.rerun_css
            &&& plan.rerun_islands
            &&& plan.rerun_client_scripts
            &&& plan.ssr_reload_needed
        }),
{
    let f = answers.removed[i];
    assert(removal_wants_css(project, f) && removal_wants_islands(f));
    assert(removal_wants_client_scripts(f) && removal_wants_ssr(f));
}

/// Where nothing was removed and nothing was discovered, as with in-place edits,
/// a tick asks for what the changed paths ask for, kinds aside, but for the hint.
pub proof fn lemma_edits_go_by_path(
    project: Project,
    live: Seq<(Seq<char>, ChangeKind)>,
    answers: Told,
    pages: Set<Seq<Part>>,
)
    requires
        answers.removed.len() == 0,
        answers.removed_consumers.len() == 0,
        answers.found.len() == 0,
        !answers.reloaded,
        answers.vanished.len() == 0,
    ensures
        ({
            let by_kind = tick_plan(project, live, answers);
            let by_path = planned(project, answers.planned);
            &&& by_kind == (Plan { content_narrowing: by_kind.content_narrowing, ..by_path })
            &&& by_path.content_narrowing is None
            &&& settled(by_kind, pages) is Some <==> settled(by_path, pages) is Some
            &&& settled(by_kind, pages) matches Some(plan) ==> settled(by_path, pages) == Some(
                Plan { content_narrowing: None, ..plan },
            )
        }),
{
    let by_path = planned(project, answers.planned);
    lemma_merge(by_path.pages, Selection::none(), Selection::none());
    assert(page_key_set(answers.removed_consumers) =~= Set::empty());
    assert(page_key_set(answers.found) =~= Set::empty());
    assert(answers.vanished =~= Seq::empty());
    assert(tick_plan(project, live, answers) =~= Plan {
        content_narrowing: tick_plan(project, live, answers).content_narrowing,
        ..by_path
    });
}

/// A file that was known, was removed and is created again in a later tick is
/// created, not edited: once it is neither known content nor read by any page,
/// its change keeps its kind and is handed to discovery.
pub proof fn lemma_recreated_is_created(path: Seq<char>, facts: CreatedFacts)
    requires
        !facts.known_entry,
        !facts.has_consumers,
    ensures
        ({
            let changes = normalized(seq![(path, ChangeKind::Created)], seq![facts]);
            created_paths(live_changes(changes)) == seq![path]
        }),
{
    let changes = normalized(seq![(path, ChangeKind::Created)], seq![facts]);
    assert(changes =~= seq![(path, ChangeKind::Created)]);
    reveal_with_fuel(live_changes, 2);
    reveal_with_fuel(created_paths, 2);
    assert(changes.drop_last() =~= Seq::empty());
    let live = live_changes(changes);
    assert(live =~= seq![(path, ChangeKind::Created)]);
    assert(live.drop_last() =~= Seq::empty());
    assert(created_paths(live) =~= seq![path]);
}

/// The pipeline is never handed a plan that it cannot act on or that asks for
/// nothing: `All` is always resolved.
pub proof fn lemma_settled_is_ready(plan: Plan, pages: Set<Seq<Part>>)
    ensures
        settled(plan, pages) matches Some(p) ==> {
            &&& p.pages is Specific
            &&& !p.noop()
            &&& p.rerun_css == plan.rerun_css
            &&& p.rerun_islands == plan.rerun_islands
            &&& p.rerun_client_scripts == plan.rerun_client_scripts
            &&& p.ssr_reload_needed == plan.ssr_reload_needed
            &&& p.prune_paths == plan.prune_paths
            &&& p.triggers == plan.triggers
        },
        settled(plan, pages) is None && !plan.noop() ==> {
            &&& plan.pages == Selection::All
            &&& pages == Set::<Seq<Part>>::empty()
        },
{
}

} // verus!

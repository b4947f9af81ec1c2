//! Planning: from a tick's changes to the plan that the asset pipeline gets.
//!
//! The dependency graph, the granularity policy and the hooks answer questions
//! about paths; their answers come in as [`PathFacts`]. Everything that is
//! decided from them is decided here.

use vstd::prelude::*;

use crate::facts::{
    content_under_css_mirror, fact_paths, feeds_client_scripts, has_skipped_component, out_of_root,
    root_swallows_project, under_css_mirror, PathClass, PathFacts, Project,
};
use crate::page::{page_key_set, PageId};
use crate::path::{parts, path_starts_with, same_path, Part};
use crate::plan::{select_pages, texts, PageSelection, Plan, RebuildPlan, Selection};
use crate::text::copy_str;

verus! {

/// How the watcher notices changes.
#[derive(Debug, Clone, Copy, PartialEq, Eq, Structural)]
pub enum WatchBackend {
    /// The operating system reports them.
    Native,
    /// The tree is read again and again, this often.
    Poll { interval: Span },
}

/// A length of time.
#[derive(Debug, Clone, Copy, PartialEq, Eq, Structural)]
pub struct Span {
    pub secs: u64,
    pub nanos: u32,
}

impl Span {
    /// `millis` milliseconds.
    pub fn from_millis(millis: u64) -> (r: Span)
        ensures
            r.secs == millis / 1000,
            r.nanos == (millis % 1000) * 1000000,
    {
        let rest: u64 = millis % 1000;
        Span { secs: millis / 1000, nanos: rest as u32 * 1000000 }
    }
}

/// The debounce window that the watcher uses where none is configured.
pub open spec fn default_debounce() -> Span {
    Span { secs: 0, nanos: 50000000 }
}

/// What the watcher is started with.
#[derive(Debug, Clone, Copy, PartialEq, Eq, Structural)]
pub struct WatchOptions {
    pub debounce: Span,
    pub backend: WatchBackend,
}

/// How an orchestrator is set up.
#[derive(Debug)]
pub struct OrchestratorConfig {
    /// The project root.
    pub project_root: String,
    /// The source roots to watch, relative to the project root.
    pub watch_roots: Vec<String>,
    /// Further absolute paths to watch.
    pub extra_watch_paths: Vec<String>,
    /// The absolute names under which the project root is known.
    pub project_aliases: Vec<String>,
    /// The directory names that the CSS scan skips below a mirror directory.
    pub css_mirror_skip_dir_names: Vec<String>,
    /// The debounce window; `None` for the watcher's own.
    pub debounce: Option<Span>,
    /// How the watcher notices changes.
    pub backend: WatchBackend,
}

impl OrchestratorConfig {
    /// The project as planning sees it.
    pub open spec fn project(&self) -> Project {
        Project {
            root: self.project_root@,
            aliases: texts(self.project_aliases@),
            skip_names: texts(self.css_mirror_skip_dir_names@),
        }
    }

    /// A configuration for `project_root` and its source roots, with defaults
    /// for the rest. The root is known under its own name.
    pub fn new(project_root: &str, watch_roots: Vec<String>) -> (r: OrchestratorConfig)
        ensures
            r.project_root@ == project_root@,
            r.watch_roots == watch_roots,
            r.extra_watch_paths@.len() == 0,
            texts(r.project_aliases@) == seq![project_root@],
            r.css_mirror_skip_dir_names@.len() == 0,
            r.debounce is None,
            r.backend == WatchBackend::Native,
    {
        let mut project_aliases: Vec<String> = Vec::new();
        project_aliases.push(copy_str(project_root));
        assert(texts(project_aliases@) =~= seq![project_root@]);
        OrchestratorConfig {
            project_root: copy_str(project_root),
            watch_roots,
            extra_watch_paths: Vec::new(),
            project_aliases,
            css_mirror_skip_dir_names: Vec::new(),
            debounce: None,
            backend: WatchBackend::Native,
        }
    }

    /// With other directory names to skip.
    pub fn with_css_mirror_skip_dir_names(self, names: Vec<String>) -> (r: OrchestratorConfig)
        ensures
            r == (OrchestratorConfig { css_mirror_skip_dir_names: names, ..self }),
    {
        let mut r = self;
        r.css_mirror_skip_dir_names = names;
        r
    }

    /// With other names for the project root.
    pub fn with_project_aliases(self, aliases: Vec<String>) -> (r: OrchestratorConfig)
        ensures
            r == (OrchestratorConfig { project_aliases: aliases, ..self }),
    {
        let mut r = self;
        r.project_aliases = aliases;
        r
    }

    /// With another debounce window.
    pub fn with_debounce(self, debounce: Span) -> (r: OrchestratorConfig)
        ensures
            r == (OrchestratorConfig { debounce: Some(debounce), ..self }),
    {
        let mut r = self;
        r.debounce = Some(debounce);
        r
    }

    /// With another backend.
    pub fn with_backend(self, backend: WatchBackend) -> (r: OrchestratorConfig)
        ensures
            r == (OrchestratorConfig { backend, ..self }),
    {
        let mut r = self;
        r.backend = backend;
        r
    }

    /// With further paths to watch.
    pub fn with_extra_watch_paths(self, paths: Vec<String>) -> (r: OrchestratorConfig)
        ensures
            r == (OrchestratorConfig { extra_watch_paths: paths, ..self }),
    {
        let mut r = self;
        r.extra_watch_paths = paths;
        r
    }

    /// Whether the path lies in a directory that the CSS scan reads from
    /// outside the project, whatever its class. A directory that contains the
    /// project does not count, nor does a path below a skipped directory.
    pub fn path_under_css_mirror_root(&self, f: &PathFacts) -> (r: bool)
        ensures
            r == under_css_mirror(self.project(), *f),
    {
        match &f.css_mirror {
            None => false,
            Some(m) => {
                if root_swallows_project(m.root.as_str(), &self.project_aliases) {
                    return false;
                }
                !has_skipped_component(m.relative.as_str(), &self.css_mirror_skip_dir_names)
            },
        }
    }

    /// Whether a live edit of the path has to rerun the CSS scan because of
    /// where the path lies.
    pub fn content_under_css_mirror_root(&self, f: &PathFacts) -> (r: bool)
        ensures
            r == content_under_css_mirror(self.project(), *f),
    {
        match f.class {
            PathClass::Content | PathClass::Data | PathClass::External => {
                self.path_under_css_mirror_root(f)
            },
            _ => false,
        }
    }

    /// Whether the external-invalidation hook is asked about a path: only where
    /// it lies outside the project.
    pub fn consults_external_hook(&self, path: &str) -> (r: bool)
        ensures
            r == out_of_root(self.project(), path@),
    {
        !path_starts_with(path, self.project_root.as_str())
    }
}

/// What the watcher is started with: the configured debounce window, or its own,
/// and the configured backend.
pub fn watch_options_for(config: &OrchestratorConfig) -> (r: WatchOptions)
    ensures
        r.debounce == (match config.debounce {
            Some(d) => d,
            None => default_debounce(),
        }),
        r.backend == config.backend,
{
    let debounce = match config.debounce {
        Some(d) => d,
        None => Span { secs: 0, nanos: 50000000 },
    };
    WatchOptions { debounce, backend: config.backend }
}

/// The pages to which the hook narrows changes of the path with these parts:
/// the last verdict that it gave for it.
pub open spec fn override_for(project: Project, facts: Seq<PathFacts>, path: Seq<Part>) -> Option<
    Seq<PageId>,
>
    decreases facts.len(),
{
    if facts.len() == 0 {
        None
    } else {
        let f = facts.last();
        if parts(f.path@) == path && out_of_root(project, f.path@) && f.hook_verdict is Some {
            Some(f.hook_verdict->0@)
        } else {
            override_for(project, facts.drop_last(), path)
        }
    }
}

/// The pages to which the hook narrows the change `facts[i]`.
pub open spec fn override_at(project: Project, facts: Seq<PathFacts>, i: int) -> Option<
    Seq<PageId>,
> {
    override_for(project, facts, parts(facts[i].path@))
}

/// The pages that a change selects, given what the hook narrowed it to.
pub open spec fn claim(f: PathFacts, narrowed: Option<Seq<PageId>>) -> Selection {
    if f.plugin_watch_target {
        Selection::All
    } else {
        match narrowed {
            Some(pages) => Selection::Specific(page_key_set(pages)),
            None => match f.class {
                PathClass::Page | PathClass::Module | PathClass::Content | PathClass::Data => {
                    if f.dirty@ == Selection::none() && !f.known {
                        Selection::All
                    } else {
                        f.dirty@
                    }
                },
                PathClass::Style | PathClass::Unclassified => f.dirty@,
                PathClass::Asset => Selection::none(),
                PathClass::External | PathClass::Global => Selection::All,
            },
        }
    }
}

/// The pages that the first `n` changes select.
pub open spec fn claims(project: Project, facts: Seq<PathFacts>, n: int) -> Selection
    decreases n,
{
    if n <= 0 {
        Selection::none()
    } else {
        let narrowed = override_at(project, facts, n - 1);
        claims(project, facts, n - 1).merged(claim(facts[n - 1], narrowed))
    }
}

/// A live edit of the path reruns the CSS pipeline.
pub open spec fn wants_css(project: Project, f: PathFacts) -> bool {
    ||| f.plugin_watch_target
    ||| f.class == PathClass::Style
    ||| f.class == PathClass::Module
    ||| content_under_css_mirror(project, f)
}

/// A change of the path reruns the islands bundler.
pub open spec fn wants_islands(f: PathFacts) -> bool {
    ||| f.plugin_watch_target
    ||| (f.class == PathClass::Module && f.islands_candidate)
    ||| f.islands_dependency
}

/// A change of the path reruns the client-scripts bundler.
pub open spec fn wants_client_scripts(f: PathFacts) -> bool {
    f.plugin_watch_target || feeds_client_scripts(f)
}

/// The class is one that server-rendered output may show.
pub open spec fn shows_in_ssr(class: PathClass) -> bool {
    match class {
        PathClass::Page
        | PathClass::Module
        | PathClass::Content
        | PathClass::Data
        | PathClass::External => true,
        _ => false,
    }
}

/// A live edit of the path reloads the renderer.
pub open spec fn wants_ssr(f: PathFacts, narrowed: Option<Seq<PageId>>) -> bool {
    f.plugin_watch_target || narrowed is Some || shows_in_ssr(f.class)
}

/// The change rebuilds everything: a global file that the hook did not narrow.
pub open spec fn rebuilds_all(project: Project, facts: Seq<PathFacts>, i: int) -> bool {
    facts[i].class == PathClass::Global && override_at(project, facts, i) is None
}

/// Some change among the first `n` rebuilds everything.
pub open spec fn any_rebuilds_all(project: Project, facts: Seq<PathFacts>, n: int) -> bool {
    exists|i: int| 0 <= i < n && #[trigger] rebuilds_all(project, facts, i)
}

/// What the first `n` changes ask for, none of which rebuilds everything.
pub open spec fn folded(project: Project, facts: Seq<PathFacts>, n: int) -> Plan {
    Plan {
        pages: claims(project, facts, n),
        rerun_css: exists|i: int| 0 <= i < n && wants_css(project, #[trigger] facts[i]),
        rerun_islands: exists|i: int| 0 <= i < n && wants_islands(#[trigger] facts[i]),
        rerun_client_scripts: exists|i: int|
            0 <= i < n && wants_client_scripts(#[trigger] facts[i]),
        ssr_reload_needed: exists|i: int|
            0 <= i < n && wants_ssr(#[trigger] facts[i], override_at(project, facts, i)),
        triggers: fact_paths(facts).take(n),
        ..Plan::empty()
    }
}

/// The plan for a list of changes. Every path is a trigger, in order.
pub open spec fn planned(project: Project, facts: Seq<PathFacts>) -> Plan {
    let n = facts.len() as int;
    if any_rebuilds_all(project, facts, n) {
        Plan { triggers: fact_paths(facts), ..Plan::full() }
    } else {
        folded(project, facts, n)
    }
}

proof fn lemma_folded_step(project: Project, facts: Seq<PathFacts>, n: int)
    requires
        0 <= n < facts.len(),
    ensures
        ({
            let narrowed = override_at(project, facts, n);
            let before = folded(project, facts, n);
            folded(project, facts, n + 1) == (Plan {
                pages: before.pages.merged(claim(facts[n], narrowed)),
                rerun_css: before.rerun_css || wants_css(project, facts[n]),
                rerun_islands: before.rerun_islands || wants_islands(facts[n]),
                rerun_client_scripts: before.rerun_client_scripts || wants_client_scripts(facts[n]),
                ssr_reload_needed: before.ssr_reload_needed || wants_ssr(facts[n], narrowed),
                triggers: before.triggers.push(facts[n].path@),
                ..before
            })
        }),
{
    let after = folded(project, facts, n + 1);
    let before = folded(project, facts, n);
    if before.rerun_css {
        let i = choose|i: int| 0 <= i < n && wants_css(project, #[trigger] facts[i]);
        assert(wants_css(project, facts[i]));
    }
    if before.rerun_islands {
        let i = choose|i: int| 0 <= i < n && wants_islands(#[trigger] facts[i]);
        assert(wants_islands(facts[i]));
    }
    if before.rerun_client_scripts {
        let i = choose|i: int| 0 <= i < n && wants_client_scripts(#[trigger] facts[i]);
        assert(wants_client_scripts(facts[i]));
    }
    if before.ssr_reload_needed {
        let i = choose|i: int|
            0 <= i < n && wants_ssr(#[trigger] facts[i], override_at(project, facts, i));
        assert(wants_ssr(facts[i], override_at(project, facts, i)));
    }
    assert(fact_paths(facts).take(n + 1) =~= fact_paths(facts).take(n).push(facts[n].path@));
}

/// The dev-loop orchestrator: decides, from what is known of the changed paths,
/// what the asset pipeline does.
#[derive(Debug)]
pub struct BuildOrchestrator {
    config: OrchestratorConfig,
}

impl BuildOrchestrator {
    /// The project as planning sees it.
    pub closed spec fn project(&self) -> Project {
        self.config.project()
    }

    /// The configuration.
    pub closed spec fn settings(&self) -> OrchestratorConfig {
        self.config
    }

    /// An orchestrator with this configuration.
    pub fn new(config: OrchestratorConfig) -> (r: BuildOrchestrator)
        ensures
            r.settings() == config,
            r.project() == config.project(),
    {
        BuildOrchestrator { config }
    }

    /// The configuration.
    pub fn config(&self) -> (r: &OrchestratorConfig)
        ensures
            *r == self.settings(),
            r.project() == self.project(),
    {
        &self.config
    }

    /// The pages to which the hook narrows the change `facts[i]`.
    fn narrowed_to(&self, facts: &Vec<PathFacts>, i: usize) -> (r: Option<PageSelection>)
        requires
            i < facts@.len(),
        ensures
            match (r, override_at(self.project(), facts@, i as int)) {
                (Some(s), Some(pages)) => s@ == Selection::Specific(page_key_set(pages)),
                (None, None) => true,
                _ => false,
            },
    {
        let ghost project = self.project();
        let ghost path = parts(facts@[i as int].path@);
        let mut j: usize = facts.len();
        assert(facts@.take(j as int) =~= facts@);
        while j > 0
            invariant
                j <= facts@.len(),
                i < facts@.len(),
                project == self.project(),
                path == parts(facts@[i as int].path@),
                override_for(project, facts@, path) == override_for(
                    project,
                    facts@.take(j as int),
                    path,
                ),
            decreases j,
        {
            let f = &facts[j - 1];
            assert(facts@.take(j as int).last() == *f);
            assert(facts@.take(j as int).drop_last() =~= facts@.take(j as int - 1));
            if let Some(pages) = &f.hook_verdict {
                if same_path(f.path.as_str(), facts[i].path.as_str())
                    && self.config.consults_external_hook(f.path.as_str()) {
                    return Some(select_pages(pages));
                }
            }
            j = j - 1;
        }
        None
    }

    /// Where a plugin's virtual module is loaded from the path, invalidates
    /// everything that could read the module.
    fn apply_plugin_watch_invalidation(&self, plan: &mut RebuildPlan, f: &PathFacts)
        ensures
            final(plan)@ == (if f.plugin_watch_target {
                Plan {
                    pages: Selection::All,
                    rerun_css: true,
                    rerun_islands: true,
                    rerun_client_scripts: true,
                    ssr_reload_needed: true,
                    ..old(plan)@
                }
            } else {
                old(plan)@
            }),
    {
        if !f.plugin_watch_target {
            return;
        }
        plan.mark_pages(PageSelection::All);
        plan.mark_islands();
        plan.mark_client_scripts();
        plan.mark_css();
        plan.mark_ssr_reload_needed();
    }

    /// Adds to the plan what a change asks for whose pages the hook narrowed.
    fn fold_narrowed(&self, plan: &mut RebuildPlan, f: &PathFacts, pages: PageSelection)
        ensures
            ({
                let before = old(plan)@;
                final(plan)@ == (Plan {
                    pages: if f.plugin_watch_target {
                        Selection::All
                    } else {
                        before.pages.merged(pages@)
                    },
                    rerun_css: before.rerun_css || wants_css(self.project(), *f),
                    rerun_islands: before.rerun_islands || wants_islands(*f),
                    rerun_client_scripts: before.rerun_client_scripts || wants_client_scripts(*f),
                    ssr_reload_needed: true,
                    ..before
                })
            }),
    {
        plan.mark_pages(pages);
        plan.mark_ssr_reload_needed();
        if f.class == PathClass::Style {
            plan.mark_css();
        }
        if f.class == PathClass::Module {
            plan.mark_css();
        }
        if self.config.content_under_css_mirror_root(f) {
            plan.mark_css();
        }
        if f.class == PathClass::Module && f.islands_candidate {
            plan.mark_islands();
        }
        if f.islands_dependency {
            plan.mark_islands();
        }
        if f.feeds_client_scripts() {
            plan.mark_client_scripts();
        }
        self.apply_plugin_watch_invalidation(plan, f);
    }

    /// Adds to the plan what a change asks for by its class.
    fn fold_classified(&self, plan: &mut RebuildPlan, f: &PathFacts)
        requires
            f.class != PathClass::Global,
        ensures
            ({
                let before = old(plan)@;
                final(plan)@ == (Plan {
                    pages: before.pages.merged(claim(*f, None)),
                    rerun_css: before.rerun_css || wants_css(self.project(), *f),
                    rerun_islands: before.rerun_islands || wants_islands(*f),
                    rerun_client_scripts: before.rerun_client_scripts || wants_client_scripts(*f),
                    ssr_reload_needed: before.ssr_reload_needed || wants_ssr(*f, None),
                    ..before
                })
            }),
    {
        let ghost before = plan@;
        proof {
            crate::plan::lemma_merge(before.pages, Selection::none(), Selection::none());
        }
        match f.class {
            PathClass::Page | PathClass::Module | PathClass::Content | PathClass::Data => {
                let dirty = f.dirty.selection();
                if dirty.is_empty() && !f.known {
                    plan.mark_pages(PageSelection::All);
                } else {
                    plan.mark_pages(dirty);
                }
                plan.mark_ssr_reload_needed();
                if f.class == PathClass::Module && f.islands_candidate {
                    plan.mark_islands();
                }
                if f.class == PathClass::Module {
                    plan.mark_css();
                }
                if self.config.content_under_css_mirror_root(f) {
                    plan.mark_css();
                }
            },
            PathClass::Style => {
                plan.mark_css();
                plan.mark_pages(f.dirty.selection());
            },
            PathClass::Unclassified => {
                plan.mark_pages(f.dirty.selection());
            },
            PathClass::External => {
                plan.mark_pages(PageSelection::All);
                plan.mark_ssr_reload_needed();
                if self.config.content_under_css_mirror_root(f) {
                    plan.mark_css();
                }
            },
            PathClass::Asset | PathClass::Global => {},
        }
        if f.islands_dependency {
            plan.mark_islands();
        }
        if f.feeds_client_scripts() {
            plan.mark_client_scripts();
        }
        self.apply_plugin_watch_invalidation(plan, f);
    }

    /// The plan for a list of changes.
    pub fn plan_for_changes(&self, facts: &Vec<PathFacts>) -> (plan: RebuildPlan)
        ensures
            plan@ == planned(self.project(), facts@),
    {
        let ghost project = self.project();
        let mut plan = RebuildPlan::empty();
        let mut i: usize = 0;
        assert(fact_paths(facts@).take(0) =~= Seq::empty());
        while i < facts.len()
            invariant
                i <= facts@.len(),
                project == self.project(),
                !any_rebuilds_all(project, facts@, i as int),
                plan@ == folded(project, facts@, i as int),
            decreases facts@.len() - i,
        {
            proof {
                lemma_folded_step(project, facts@, i as int);
            }
            let f = &facts[i];
            plan.record_trigger(f.path.clone());
            match self.narrowed_to(facts, i) {
                Some(pages) => {
                    self.fold_narrowed(&mut plan, f, pages);
                },
                None => {
                    if f.class == PathClass::Global {
                        assert(rebuilds_all(project, facts@, i as int));
                        let mut full = RebuildPlan::full_rebuild();
                        full.triggers = plan.triggers;
                        let mut j: usize = i + 1;
                        assert(texts(full.triggers@) =~= fact_paths(facts@).take(j as int));
                        while j < facts.len()
                            invariant
                                j <= facts@.len(),
                                full@ == (Plan {
                                    triggers: fact_paths(facts@).take(j as int),
                                    ..Plan::full()
                                }),
                            decreases facts@.len() - j,
                        {
                            full.record_trigger(facts[j].path.clone());
                            assert(fact_paths(facts@).take(j as int + 1) =~= fact_paths(
                                facts@,
                            ).take(j as int).push(facts@[j as int].path@));
                            j = j + 1;
                        }
                        assert(fact_paths(facts@).take(j as int) =~= fact_paths(facts@));
                        return full;
                    }
                    self.fold_classified(&mut plan, f);
                },
            }
            i = i + 1;
        }
        plan
    }
}

/// Every changed path is a trigger of its plan, once, in the order of the
/// changes, whatever the plan does.
pub proof fn lemma_triggers(project: Project, facts: Seq<PathFacts>)
    ensures
        planned(project, facts).triggers == fact_paths(facts),
{
    assert(fact_paths(facts).take(facts.len() as int) =~= fact_paths(facts));
}

/// A page is selected exactly where some change selects it.
pub proof fn lemma_claims_select(project: Project, facts: Seq<PathFacts>, n: int, key: Seq<Part>)
    requires
        0 <= n <= facts.len(),
    ensures
        claims(project, facts, n).selects(key) <==> exists|i: int|
            0 <= i < n && claim(#[trigger] facts[i], override_at(project, facts, i)).selects(key),
        claims(project, facts, n) == Selection::All <==> exists|i: int|
            0 <= i < n && claim(#[trigger] facts[i], override_at(project, facts, i))
                == Selection::All,
    decreases n,
{
    if n > 0 {
        lemma_claims_select(project, facts, n - 1, key);
        let before = claims(project, facts, n - 1);
        let last = claim(facts[n - 1], override_at(project, facts, n - 1));
        crate::plan::lemma_merge(before, last, last);
        assert(claims(project, facts, n).selects(key) <==> before.selects(key) || last.selects(
            key,
        ));
        if before.selects(key) {
            let i = choose|i: int|
                0 <= i < n - 1 && claim(
                    #[trigger] facts[i],
                    override_at(project, facts, i),
                ).selects(key);
            assert(claim(facts[i], override_at(project, facts, i)).selects(key));
        }
        if before == Selection::All {
            let i = choose|i: int|
                0 <= i < n - 1 && claim(#[trigger] facts[i], override_at(project, facts, i))
                    == Selection::All;
            assert(claim(facts[i], override_at(project, facts, i)) == Selection::All);
        }
    }
}

/// A file from which a plugin loads a virtual module rebuilds everything that
/// could read the module, every page with it, whatever its class and whatever
/// the hook says.
pub proof fn lemma_plugin_watch_invalidates_all(project: Project, facts: Seq<PathFacts>, i: int)
    requires
        0 <= i < facts.len(),
        facts[i].plugin_watch_target,
    ensures
        ({
            let plan = planned(project, facts);
            &&& plan.pages == Selection::All
            &&& plan.rerun_css
            &&& plan.rerun_islands
            &&& plan.rerun_client_scripts
            &&& plan.ssr_reload_needed
        }),
{
    let n = facts.len() as int;
    if !any_rebuilds_all(project, facts, n) {
        lemma_claims_select(project, facts, n, Seq::empty());
        assert(claim(facts[i], override_at(project, facts, i)) == Selection::All);
        assert(wants_css(project, facts[i]));
        assert(wants_islands(facts[i]));
        assert(wants_client_scripts(facts[i]));
        assert(wants_ssr(facts[i], override_at(project, facts, i)));
    }
}

/// Two lists of facts about the same changes, which differ in nothing but what
/// the external-invalidation hook said.
pub open spec fn differ_in_verdicts(a: Seq<PathFacts>, b: Seq<PathFacts>) -> bool {
    &&& a.len() == b.len()
    &&& forall|i: int|
        #![trigger a[i]]
        #![trigger b[i]]
        0 <= i < a.len() ==> b[i] == (PathFacts { hook_verdict: b[i].hook_verdict, ..a[i] })
}

/// The external-invalidation hook narrows the selection of pages and nothing
/// else: the sub-pipelines that run and the triggers are the same with it and
/// without it, and it never holds back the reload of the renderer.
///
/// This is so where no changed file is a global one.
pub proof fn lemma_hook_narrows_pages_only(
    project: Project,
    without: Seq<PathFacts>,
    with: Seq<PathFacts>,
)
    requires
        differ_in_verdicts(without, with),
        forall|i: int| 0 <= i < without.len() ==> (#[trigger] without[i]).hook_verdict is None,
        forall|i: int| 0 <= i < without.len() ==> (#[trigger] without[i]).class != PathClass::Global,
    ensures
        ({
            let a = planned(project, without);
            let b = planned(project, with);
            &&& a.rerun_css == b.rerun_css
            &&& a.rerun_islands == b.rerun_islands
            &&& a.rerun_client_scripts == b.rerun_client_scripts
            &&& a.triggers == b.triggers
            &&& a.ssr_reload_needed ==> b.ssr_reload_needed
        }),
{
    let n = without.len() as int;
    let a = folded(project, without, n);
    let b = folded(project, with, n);
    assert forall|i: int| 0 <= i < n implies without[i].class == (#[trigger] with[i]).class by {
        assert(without[i].class != PathClass::Global);
    }
    assert forall|i: int| 0 <= i < n implies wants_css(project, #[trigger] with[i]) == wants_css(
        project,
        without[i],
    ) && wants_islands(with[i]) == wants_islands(without[i]) && wants_client_scripts(with[i])
        == wants_client_scripts(without[i]) by {
        assert(without[i].css_mirror == with[i].css_mirror);
    }
    if a.rerun_css {
        let i = choose|i: int| 0 <= i < n && wants_css(project, #[trigger] without[i]);
        assert(wants_css(project, with[i]));
    }
    if b.rerun_css {
        let i = choose|i: int| 0 <= i < n && wants_css(project, #[trigger] with[i]);
        assert(wants_css(project, without[i]));
    }
    if a.rerun_islands {
        let i = choose|i: int| 0 <= i < n && wants_islands(#[trigger] without[i]);
        assert(wants_islands(with[i]));
    }
    if b.rerun_islands {
        let i = choose|i: int| 0 <= i < n && wants_islands(#[trigger] with[i]);
        assert(wants_islands(without[i]));
    }
    if a.rerun_client_scripts {
        let i = choose|i: int| 0 <= i < n && wants_client_scripts(#[trigger] without[i]);
        assert(wants_client_scripts(with[i]));
    }
    if b.rerun_client_scripts {
        let i = choose|i: int| 0 <= i < n && wants_client_scripts(#[trigger] with[i]);
        assert(wants_client_scripts(without[i]));
    }
    if a.ssr_reload_needed {
        let i = choose|i: int|
            0 <= i < n && wants_ssr(#[trigger] without[i], override_at(project, without, i));
        lemma_no_verdict_no_override(project, without, parts(without[i].path@));
        assert(wants_ssr(with[i], override_at(project, with, i)));
    }
    assert(fact_paths(without) =~= fact_paths(with)) by {
        assert forall|i: int| 0 <= i < n implies fact_paths(without)[i] == #[trigger] fact_paths(
            with,
        )[i] by {
            assert(with[i].path == without[i].path);
        }
    }
    assert(!any_rebuilds_all(project, without, n)) by {
        if any_rebuilds_all(project, without, n) {
            let i = choose|i: int| 0 <= i < n && #[trigger] rebuilds_all(project, without, i);
            assert(without[i].class == PathClass::Global);
        }
    }
    assert(!any_rebuilds_all(project, with, n)) by {
        if any_rebuilds_all(project, with, n) {
            let i = choose|i: int| 0 <= i < n && #[trigger] rebuilds_all(project, with, i);
            assert(with[i].class == PathClass::Global);
        }
    }
}

proof fn lemma_no_verdict_no_override(project: Project, facts: Seq<PathFacts>, path: Seq<Part>)
    requires
        forall|i: int| 0 <= i < facts.len() ==> (#[trigger] facts[i]).hook_verdict is None,
    ensures
        override_for(project, facts, path) is None,
    decreases facts.len(),
{
    if facts.len() > 0 {
        assert(facts[facts.len() - 1].hook_verdict is None);
        lemma_no_verdict_no_override(project, facts.drop_last(), path);
    }
}

/// An additional change never takes work away: whatever the plan for some
/// changes does, the plan for these and one more does too.
///
/// This is so where the hook narrows none of them.
pub proof fn lemma_more_changes_more_work(
    project: Project,
    facts: Seq<PathFacts>,
    more: PathFacts,
    key: Seq<Part>,
)
    requires
        forall|i: int| 0 <= i < facts.len() ==> (#[trigger] facts[i]).hook_verdict is None,
        more.hook_verdict is None,
    ensures
        ({
            let a = planned(project, facts);
            let b = planned(project, facts.push(more));
            &&& a.pages.selects(key) ==> b.pages.selects(key)
            &&& a.rerun_css ==> b.rerun_css
            &&& a.rerun_islands ==> b.rerun_islands
            &&& a.rerun_client_scripts ==> b.rerun_client_scripts
            &&& a.ssr_reload_needed ==> b.ssr_reload_needed
        }),
{
    let n = facts.len() as int;
    let all = facts.push(more);
    assert forall|i: int| 0 <= i < all.len() implies (#[trigger] all[i]).hook_verdict is None by {
        if i < n {
            assert(all[i] == facts[i]);
        }
    }
    assert forall|i: int| 0 <= i < n implies override_at(project, facts, i) is None
        && #[trigger] override_at(project, all, i) is None && all[i] == facts[i] by {
        lemma_no_verdict_no_override(project, facts, parts(facts[i].path@));
        lemma_no_verdict_no_override(project, all, parts(all[i].path@));
    }
    if any_rebuilds_all(project, facts, n) {
        let i = choose|i: int| 0 <= i < n && #[trigger] rebuilds_all(project, facts, i);
        assert(override_at(project, all, i) is None);
        assert(rebuilds_all(project, all, i));
        assert(any_rebuilds_all(project, all, n + 1));
    } else if !any_rebuilds_all(project, all, n + 1) {
        let a = folded(project, facts, n);
        let b = folded(project, all, n + 1);
        lemma_claims_select(project, facts, n, key);
        lemma_claims_select(project, all, n + 1, key);
        if a.pages.selects(key) {
            let i = choose|i: int|
                0 <= i < n && claim(#[trigger] facts[i], override_at(project, facts, i)).selects(
                    key,
                );
            assert(override_at(project, all, i) is None);
            assert(claim(all[i], override_at(project, all, i)).selects(key));
        }
        if a.rerun_css {
            let i = choose|i: int| 0 <= i < n && wants_css(project, #[trigger] facts[i]);
            assert(wants_css(project, all[i]));
        }
        if a.rerun_islands {
            let i = choose|i: int| 0 <= i < n && wants_islands(#[trigger] facts[i]);
            assert(wants_islands(all[i]));
        }
        if a.rerun_client_scripts {
            let i = choose|i: int| 0 <= i < n && wants_client_scripts(#[trigger] facts[i]);
            assert(wants_client_scripts(all[i]));
        }
        if a.ssr_reload_needed {
            let i = choose|i: int|
                0 <= i < n && wants_ssr(#[trigger] facts[i], override_at(project, facts, i));
            assert(override_at(project, all, i) is None);
            assert(wants_ssr(all[i], override_at(project, all, i)));
        }
    }
}

/// What the hook says of a change: the pages, where the file is out of the root
/// and the hook gave a verdict.
pub open spec fn own_override(project: Project, f: PathFacts) -> Option<Seq<PageId>> {
    if out_of_root(project, f.path@) && f.hook_verdict is Some {
        Some(f.hook_verdict->0@)
    } else {
        None
    }
}

/// The hook's verdict depends on the path alone.
pub open spec fn hook_goes_by_path(project: Project, facts: Seq<PathFacts>) -> bool {
    forall|i: int, j: int|
        0 <= i < facts.len() && 0 <= j < facts.len() && parts((#[trigger] facts[i]).path@) == parts(
            (#[trigger] facts[j]).path@,
        ) ==> own_override(project, facts[i]) == own_override(project, facts[j])
}

proof fn lemma_override_by_path(project: Project, facts: Seq<PathFacts>, f: PathFacts)
    requires
        forall|j: int|
            0 <= j < facts.len() && parts((#[trigger] facts[j]).path@) == parts(f.path@)
                ==> own_override(project, facts[j]) == own_override(project, f),
    ensures
        ({
            let narrowed = override_for(project, facts, parts(f.path@));
            &&& narrowed is Some ==> narrowed == own_override(project, f)
            &&& (exists|j: int| 0 <= j < facts.len() && #[trigger] facts[j] == f) ==> narrowed
                == own_override(project, f)
        }),
    decreases facts.len(),
{
    if facts.len() > 0 {
        let n = facts.len() - 1;
        let last = facts[n];
        assert(facts.last() == last);
        let init = facts.drop_last();
        assert forall|j: int|
            0 <= j < init.len() && parts((#[trigger] init[j]).path@) == parts(
                f.path@,
            ) implies own_override(project, init[j]) == own_override(project, f) by {
            assert(init[j] == facts[j]);
        }
        lemma_override_by_path(project, init, f);
        if parts(last.path@) == parts(f.path@) {
            assert(own_override(project, last) == own_override(project, f));
        }
        if exists|j: int| 0 <= j < facts.len() && #[trigger] facts[j] == f {
            let j = choose|j: int| 0 <= j < facts.len() && #[trigger] facts[j] == f;
            if j < n {
                assert(init[j] == f);
            }
        }
    }
}

proof fn lemma_override_is_own(project: Project, facts: Seq<PathFacts>, i: int)
    requires
        0 <= i < facts.len(),
        hook_goes_by_path(project, facts),
    ensures
        override_at(project, facts, i) == own_override(project, facts[i]),
{
    let f = facts[i];
    assert forall|j: int|
        0 <= j < facts.len() && parts((#[trigger] facts[j]).path@) == parts(
            f.path@,
        ) implies own_override(project, facts[j]) == own_override(project, f) by {
        assert(parts(facts[i].path@) == parts(f.path@));
    }
    lemma_override_by_path(project, facts, f);
}

/// What two plans ask for together.
pub open spec fn together(a: Plan, b: Plan) -> Plan {
    Plan {
        pages: a.pages.merged(b.pages),
        rerun_css: a.rerun_css || b.rerun_css,
        rerun_islands: a.rerun_islands || b.rerun_islands,
        rerun_client_scripts: a.rerun_client_scripts || b.rerun_client_scripts,
        ssr_reload_needed: a.ssr_reload_needed || b.ssr_reload_needed,
        triggers: a.triggers + b.triggers,
        ..Plan::empty()
    }
}

/// The hook says the same of a change among others as among more of them.
spec fn same_overrides(
    project: Project,
    some: Seq<PathFacts>,
    all: Seq<PathFacts>,
    at: int,
) -> bool {
    &&& 0 <= at
    &&& at + some.len() <= all.len()
    &&& forall|i: int|
        0 <= i < some.len() ==> (#[trigger] some[i]) == all[at + i] && override_at(project, some, i)
            == override_at(project, all, at + i)
}

proof fn lemma_same_overrides(project: Project, some: Seq<PathFacts>, all: Seq<PathFacts>, at: int)
    requires
        hook_goes_by_path(project, all),
        0 <= at,
        at + some.len() <= all.len(),
        some == all.subrange(at, at + some.len()),
    ensures
        same_overrides(project, some, all, at),
{
    assert forall|i: int| 0 <= i < some.len() implies (#[trigger] some[i]) == all[at + i] by {
        assert(some[i] == all.subrange(at, at + some.len())[i]);
    }
    assert(hook_goes_by_path(project, some)) by {
        assert forall|i: int, j: int|
            0 <= i < some.len() && 0 <= j < some.len() && parts((#[trigger] some[i]).path@)
                == parts((#[trigger] some[j]).path@) implies own_override(project, some[i])
            == own_override(project, some[j]) by {
            assert(all[at + i] == some[i] && all[at + j] == some[j]);
        }
    }
    assert forall|i: int| 0 <= i < some.len() implies (#[trigger] some[i]) == all[at + i]
        && override_at(project, some, i) == override_at(project, all, at + i) by {
        lemma_override_is_own(project, some, i);
        lemma_override_is_own(project, all, at + i);
    }
}

/// The first `n` changes of `some` ask for the same behind `at` others.
proof fn lemma_folded_together(
    project: Project,
    some: Seq<PathFacts>,
    all: Seq<PathFacts>,
    at: int,
    n: int,
)
    requires
        same_overrides(project, some, all, at),
        0 <= n <= some.len(),
    ensures
        folded(project, all, at + n) == together(
            folded(project, all, at),
            folded(project, some, n),
        ),
    decreases n,
{
    let before = folded(project, all, at);
    if n == 0 {
        crate::plan::lemma_merge(before.pages, before.pages, before.pages);
        assert(fact_paths(some).take(0) =~= Seq::empty());
        assert(before.triggers + Seq::empty() =~= before.triggers);
        assert(together(before, folded(project, some, 0)).triggers =~= before.triggers);
    } else {
        let i = n - 1;
        lemma_folded_together(project, some, all, at, i);
        lemma_folded_step(project, some, i);
        lemma_folded_step(project, all, at + i);
        assert(some[i] == all[at + i]);
        let last = claim(some[i], override_at(project, some, i));
        crate::plan::lemma_merge(before.pages, folded(project, some, i).pages, last);
        let path = some[i].path@;
        assert((before.triggers + folded(project, some, i).triggers).push(path)
            =~= before.triggers + folded(project, some, i).triggers.push(path));
    }
}

/// Changes that are planned together ask for what they ask for apart: the union
/// of the pages and of the sub-pipelines, with the triggers one after another.
///
/// This is so where the hook's verdict depends on the path alone.
pub proof fn lemma_planned_together(project: Project, xs: Seq<PathFacts>, ys: Seq<PathFacts>)
    requires
        hook_goes_by_path(project, xs + ys),
    ensures
        planned(project, xs + ys) == together(planned(project, xs), planned(project, ys)),
{
    let all = xs + ys;
    let a = xs.len() as int;
    let n = all.len() as int;
    assert(xs =~= all.subrange(0, 0 + a));
    assert(ys =~= all.subrange(a, a + ys.len()));
    lemma_same_overrides(project, xs, all, 0);
    lemma_same_overrides(project, ys, all, a);
    lemma_folded_together(project, xs, all, 0, a);
    lemma_folded_together(project, ys, all, a, ys.len() as int);
    let first = planned(project, xs);
    let second = planned(project, ys);
    lemma_triggers(project, xs);
    lemma_triggers(project, ys);
    lemma_triggers(project, all);
    assert(fact_paths(all) =~= fact_paths(xs) + fact_paths(ys));
    crate::plan::lemma_merge(second.pages, first.pages, Selection::All);
    crate::plan::lemma_merge(first.pages, second.pages, Selection::All);
    if any_rebuilds_all(project, all, n) {
        let i = choose|i: int| 0 <= i < n && #[trigger] rebuilds_all(project, all, i);
        if i < a {
            assert(xs[i] == all[0 + i]);
            assert(rebuilds_all(project, xs, i));
        } else {
            assert(ys[i - a] == all[a + (i - a)]);
            assert(rebuilds_all(project, ys, i - a));
        }
    } else {
        assert(!any_rebuilds_all(project, xs, a)) by {
            if any_rebuilds_all(project, xs, a) {
                let i = choose|i: int| 0 <= i < a && #[trigger] rebuilds_all(project, xs, i);
                assert(xs[i] == all[0 + i]);
                assert(rebuilds_all(project, all, i));
            }
        }
        assert(!any_rebuilds_all(project, ys, ys.len() as int)) by {
            if any_rebuilds_all(project, ys, ys.len() as int) {
                let i = choose|i: int|
                    0 <= i < ys.len() && #[trigger] rebuilds_all(project, ys, i);
                assert(ys[i] == all[a + i]);
                assert(rebuilds_all(project, all, a + i));
            }
        }
        let nothing = folded(project, all, 0);
        let apart = folded(project, xs, a);
        crate::plan::lemma_merge(apart.pages, nothing.pages, nothing.pages);
        assert(nothing.triggers =~= Seq::empty());
        assert(nothing.triggers + apart.triggers =~= apart.triggers);
        assert(folded(project, all, a) == apart);
    }
}

} // verus!

use std::cell::RefCell;
use std::collections::BTreeMap;
use std::rc::Rc;

use zfb_build::orchestrator::{BuildOrchestrator, OrchestratorConfig};
use zfb_build::page::{PageId, PageSet};
use zfb_build::path::RelDistPath;
use zfb_build::pipeline::cache::WriteCache;
use zfb_build::pipeline::dev::{DevAction, DevAnswer, DevError, DevRun};
use zfb_build::pipeline::dev_pipeline::DevAssetPipeline;
use zfb_build::pipeline::publication::DocumentPublicationEvent;
use zfb_build::pipeline::request::{
    GuardedWriteOutcome, RequestAction, RequestAnswer, RequestError, RequestWrite,
    RequestWriteOutcome,
};
use zfb_build::pipeline::{
    BuildContext, BuildOutcome, DevBuildContext, IslandsBundleInfo, ProdBuildContext,
    RefreshOutcome, RenderedPage,
};
use zfb_build::plan::{ContentNarrowing, PageSelection, RebuildPlan};

type Log = Rc<RefCell<Vec<String>>>;
type Pipeline = DevAssetPipeline<(), (), (), (), ()>;
type Hint = Option<(Vec<String>, bool)>;

const ROOT: &str = "/dist";

fn pid(s: &str) -> PageId {
    PageId::new(s.to_string())
}

fn page(id: &str, output: &str, html: &str) -> RenderedPage {
    RenderedPage {
        page: pid(id),
        output_path: RelDistPath::new(output).unwrap(),
        html: html.to_string(),
        content_type: None,
    }
}

fn plan_for(pages: &[&str]) -> RebuildPlan {
    let mut set = PageSet::new();
    for p in pages {
        set.insert(pid(p));
    }
    let mut plan = RebuildPlan::empty();
    plan.pages = PageSelection::Specific(set);
    plan
}

fn client_script_page_plan() -> RebuildPlan {
    let mut plan = plan_for(&["/pages/index.tsx"]);
    plan.rerun_client_scripts = true;
    plan.renderer_fresh = true;
    plan
}

fn label(event: &DocumentPublicationEvent) -> String {
    match event {
        DocumentPublicationEvent::Begin => "begin".to_string(),
        DocumentPublicationEvent::SnapshotLazyFallbacks(p) => format!("snapshot {p:?}"),
        DocumentPublicationEvent::DocumentMutationStarted => "mutation".to_string(),
        DocumentPublicationEvent::DocumentWriteStarted(p) => format!("write-start {p}"),
        DocumentPublicationEvent::DocumentWriteCompleted(p) => format!("write-complete {p}"),
        DocumentPublicationEvent::DocumentPathsRemoved(p) => format!("paths-removed {p:?}"),
        DocumentPublicationEvent::CommitPublished => "commit".to_string(),
        DocumentPublicationEvent::CommitEntriesOnly => "commit-entries".to_string(),
        DocumentPublicationEvent::AbortBeforeDocumentWrite => "abort".to_string(),
        DocumentPublicationEvent::LeavePending => "pending".to_string(),
        other => format!("{other:?}"),
    }
}

/// What a tick can call, and what comes of it.
struct World {
    files: BTreeMap<String, String>,
    log: Log,
    rendered: Box<dyn Fn(&[PageId]) -> Result<Vec<RenderedPage>, String>>,
    hints: Vec<Hint>,
    scripts: Option<Result<bool, String>>,
    islands: Option<Result<Option<&'static str>, String>>,
    css: Option<Result<bool, String>>,
    reload: Option<Box<dyn Fn() -> Result<RefreshOutcome, String>>>,
    refuse: bool,
    write_fails: bool,
    remove_fails: bool,
}

impl World {
    fn new(rendered: impl Fn(&[PageId]) -> Result<Vec<RenderedPage>, String> + 'static) -> World {
        World {
            files: BTreeMap::new(),
            log: Rc::new(RefCell::new(Vec::new())),
            rendered: Box::new(rendered),
            hints: Vec::new(),
            scripts: None,
            islands: None,
            css: None,
            reload: None,
            refuse: false,
            write_fails: false,
            remove_fails: false,
        }
    }

    fn render(&mut self, rendered: impl Fn(&[PageId]) -> Result<Vec<RenderedPage>, String> + 'static) {
        self.rendered = Box::new(rendered);
    }

    fn reload(&mut self, outcome: impl Fn() -> Result<RefreshOutcome, String> + 'static) {
        self.reload = Some(Box::new(outcome));
    }

    fn note(&self, what: &str) {
        self.log.borrow_mut().push(what.to_string());
    }

    fn take_log(&self) -> Vec<String> {
        std::mem::take(&mut *self.log.borrow_mut())
    }

    fn labels(&self) -> Vec<String> {
        self.take_log()
            .iter()
            .map(|l| l.split(' ').next().unwrap().to_string())
            .collect()
    }

    fn context(&self) -> BuildContext<(), (), (), (), ()> {
        DevBuildContext {
            dist_root: ROOT.to_string(),
            render_pages: (),
            run_css: self.css.as_ref().map(|_| ()),
            run_islands: self.islands.as_ref().map(|_| ()),
            run_client_scripts: self.scripts.as_ref().map(|_| ()),
            reload_renderer: self.reload.as_ref().map(|_| ()),
        }
        .into_build_context()
    }

    fn flush(&self, run: &mut DevRun) {
        for event in run.take_events() {
            self.log.borrow_mut().push(label(&event));
        }
    }

    fn answer(&mut self, action: DevAction) -> DevAnswer<String> {
        match action {
            DevAction::RunClientScripts => {
                self.note("client");
                DevAnswer::ClientScripts(self.scripts.clone().unwrap())
            }
            DevAction::RunIslands => {
                self.note("islands");
                DevAnswer::Islands(self.islands.clone().unwrap().map(|i| {
                    i.map(|url| IslandsBundleInfo {
                        changed: true,
                        bundle_url: url.to_string(),
                        components: Vec::new(),
                    })
                }))
            }
            DevAction::Reload => {
                self.note("reload");
                DevAnswer::Reloaded((self.reload.as_ref().unwrap())())
            }
            DevAction::Render { pages, narrowing } => {
                self.note("render");
                self.hints
                    .push(narrowing.map(|n| (n.changed_content, n.fan_out_safe)));
                DevAnswer::Rendered((self.rendered)(&pages))
            }
            DevAction::Validate { output_path, .. } => {
                if self.refuse {
                    DevAnswer::Validated(Err("refused".to_string()))
                } else {
                    DevAnswer::Validated(Ok(format!("{ROOT}/{output_path}")))
                }
            }
            DevAction::Write { dest, bytes } => {
                if self.write_fails {
                    DevAnswer::Written(Err("disk full".to_string()))
                } else {
                    self.files.insert(dest, String::from_utf8(bytes).unwrap());
                    DevAnswer::Written(Ok(()))
                }
            }
            DevAction::Remove { path } => {
                if !self.remove_fails {
                    self.files.remove(&path);
                }
                DevAnswer::Removed(!self.remove_fails)
            }
            DevAction::CollectFallbacks => {
                self.note("probe");
                DevAnswer::Fallbacks(vec![format!("{ROOT}/injected/existing.html")])
            }
            DevAction::RunCss => {
                self.note("css");
                DevAnswer::Css(self.css.clone().unwrap())
            }
            DevAction::ProbeStale => DevAnswer::Stale(vec!["stale/index.html".to_string()]),
            DevAction::ProbeSsr => DevAnswer::Ssr(true),
            DevAction::ProbeDynamic => DevAnswer::Dynamic(true),
            DevAction::Finish => unreachable!(),
        }
    }

    fn apply(
        &mut self,
        pipeline: &mut Pipeline,
        plan: &RebuildPlan,
    ) -> Result<BuildOutcome, DevError<String>> {
        let (mut run, resolved) = pipeline.apply(plan, &self.context());
        self.flush(&mut run);
        if !resolved {
            return Err(DevError::Outside("unresolved".to_string()));
        }
        loop {
            let action = run.action();
            if matches!(action, DevAction::Finish) {
                return Ok(run.into_outcome());
            }
            let answer = self.answer(action);
            let result = pipeline.resume_tick(&mut run, answer);
            self.flush(&mut run);
            result?;
        }
    }
}

fn written(outcome: &BuildOutcome) -> Vec<&str> {
    outcome.pages_written.iter().map(|p| p.path()).collect()
}

fn writes_rendered_pages() {
    let mut world = World::new(|_| Ok(vec![page("/p/a.tsx", "a/index.html", "<h1>A</h1>")]));
    let outcome = world
        .apply(&mut Pipeline::new(), &plan_for(&["/p/a.tsx"]))
        .unwrap();
    assert_eq!(outcome.pages_rendered, 1);
    assert_eq!(written(&outcome), vec!["/p/a.tsx"]);
    assert_eq!(world.hints.len(), 1);
    assert_eq!(world.files["/dist/a/index.html"], "<h1>A</h1>");
}

#[test]
fn dev_writes_rendered_pages_atomically() {
    writes_rendered_pages();
}

#[test]
fn pipeline_writes_rendered_pages_atomically() {
    writes_rendered_pages();
}

#[test]
fn client_script_addition_publishes_entry_before_declaring_html() {
    let mut world = World::new(|_| {
        Ok(vec![page(
            "/pages/index.tsx",
            "index.html",
            r#"<script src="/assets/client/new.js"></script>"#,
        )])
    });
    world.scripts = Some(Ok(true));
    let outcome = world
        .apply(&mut Pipeline::new(), &client_script_page_plan())
        .unwrap();
    assert!(outcome.client_scripts_rerun && outcome.client_scripts_changed);
    let calls: Vec<String> = world
        .labels()
        .into_iter()
        .filter(|l| l == "client" || l == "render")
        .collect();
    assert_eq!(calls, vec!["client", "render"]);
}

#[test]
fn client_script_removal_keeps_previous_entry_through_html_publication() {
    let mut world = World::new(|_| {
        Ok(vec![page(
            "/pages/index.tsx",
            "index.html",
            "<main>client entry removed</main>",
        )])
    });
    world
        .files
        .insert("/dist/assets/client/old.js".to_string(), "old entry".to_string());
    world.scripts = Some(Ok(false));
    let outcome = world
        .apply(&mut Pipeline::new(), &client_script_page_plan())
        .unwrap();
    assert!(!outcome.client_scripts_changed);
    assert!(outcome.pages_pruned.is_empty());
    assert!(world.files.contains_key("/dist/assets/client/old.js"));
}

#[test]
fn islands_and_clients_precede_pages_and_commit_precedes_css_failure() {
    let mut world = World::new(|_| {
        Ok(vec![page(
            "/pages/index.tsx",
            "index.html",
            "<main>ready</main>",
        )])
    });
    world.scripts = Some(Ok(true));
    world.islands = Some(Ok(Some("/assets/islands.js")));
    world.css = Some(Err("css failed after document publication".to_string()));
    let mut plan = client_script_page_plan();
    plan.rerun_islands = true;
    plan.rerun_css = true;
    assert!(world.apply(&mut Pipeline::new(), &plan).is_err());
    assert_eq!(
        world.labels(),
        vec![
            "begin",
            "client",
            "islands",
            "mutation",
            "render",
            "write-start",
            "write-complete",
            "commit",
            "css"
        ]
    );
}

#[test]
fn complete_lazy_fallback_snapshot_precedes_ordinary_commit() {
    let mut world = World::new(|_| Ok(vec![]));
    let mut pipeline = Pipeline::new()
        .with_lazy_fallback_probe(())
        .with_document_publication_hook(());
    let mut plan = RebuildPlan::empty();
    plan.rerun_client_scripts = true;
    world.apply(&mut pipeline, &plan).unwrap();
    assert_eq!(
        world.take_log(),
        vec![
            "begin",
            "probe",
            "snapshot [\"/dist/injected/existing.html\"]",
            "commit-entries"
        ]
    );
}

#[test]
fn render_failure_leaves_document_transaction_pending() {
    let mut world = World::new(|_| Err("render failed".to_string()));
    assert!(world
        .apply(&mut Pipeline::new(), &client_script_page_plan())
        .is_err());
    assert_eq!(
        world.labels(),
        vec!["begin", "mutation", "render", "pending"]
    );
}

#[test]
fn document_write_failure_records_exact_path_and_leaves_pending() {
    let mut world = World::new(|_| {
        Ok(vec![page(
            "/pages/index.tsx",
            "index.html",
            "<main>cannot replace directory</main>",
        )])
    });
    world.write_fails = true;
    assert!(matches!(
        world.apply(&mut Pipeline::new(), &client_script_page_plan()),
        Err(DevError::Outside(e)) if e == "disk full"
    ));
    assert_eq!(
        world.take_log(),
        vec![
            "begin",
            "mutation",
            "render",
            "write-start /dist/index.html",
            "pending"
        ]
    );
}

#[test]
fn document_validation_failure_records_lexical_path_and_leaves_pending() {
    let mut world = World::new(|_| {
        Ok(vec![page(
            "/pages/index.tsx",
            "escape/index.html",
            "<main>escape rejected</main>",
        )])
    });
    world.refuse = true;
    match world.apply(&mut Pipeline::new(), &client_script_page_plan()) {
        Err(DevError::RefusedPage(page, e)) => {
            assert_eq!(page.path(), "/pages/index.tsx");
            assert_eq!(e, "refused");
        }
        other => panic!("{other:?}"),
    }
    assert_eq!(
        world.take_log(),
        vec![
            "begin",
            "mutation",
            "render",
            "write-start /dist/escape/index.html",
            "pending"
        ]
    );
}

#[test]
fn islands_failure_before_document_render_aborts_transaction() {
    let mut world = World::new(|_| Ok(vec![]));
    world.islands = Some(Err("islands failed".to_string()));
    let mut plan = client_script_page_plan();
    plan.rerun_client_scripts = false;
    plan.rerun_islands = true;
    assert!(world.apply(&mut Pipeline::new(), &plan).is_err());
    assert_eq!(world.labels(), vec!["begin", "islands", "abort"]);
}

fn skips_unchanged() {
    let mut world = World::new(|_| Ok(vec![page("/p/a.tsx", "a.html", "<p>same</p>")]));
    let mut pipeline = Pipeline::new();
    let plan = plan_for(&["/p/a.tsx"]);
    let first = world.apply(&mut pipeline, &plan).unwrap();
    assert_eq!(first.pages_written.len(), 1);
    let second = world.apply(&mut pipeline, &plan).unwrap();
    assert_eq!(second.pages_written.len(), 0);
    assert_eq!(second.pages_rendered, 1, "renderer still ran");
}

#[test]
fn dev_skips_write_when_html_unchanged() {
    skips_unchanged();
}

#[test]
fn pipeline_skips_write_when_html_unchanged() {
    skips_unchanged();
}

fn css_rerun() {
    let mut world = World::new(|_| Ok(vec![]));
    world.css = Some(Ok(true));
    let mut plan = RebuildPlan::empty();
    plan.rerun_css = true;
    let outcome = world.apply(&mut Pipeline::new(), &plan).unwrap();
    assert!(outcome.css_rerun);
    assert!(outcome.css_changed);
    assert_eq!(world.labels(), vec!["css"]);
}

#[test]
fn dev_css_rerun_invokes_callback() {
    css_rerun();
}

#[test]
fn pipeline_css_rerun_invokes_callback() {
    css_rerun();
}

fn stale_output_pruned() {
    let mut pipeline = Pipeline::new();
    let mut world =
        World::new(|_| Ok(vec![page("/p/sitemap.xml.tsx", "sitemap.xml", "<urlset/>")]));
    let plan = plan_for(&["/p/sitemap.xml.tsx"]);
    let first = world.apply(&mut pipeline, &plan).unwrap();
    assert_eq!(first.pages_written.len(), 1);
    assert!(first.pages_pruned.is_empty());
    assert!(world.files.contains_key("/dist/sitemap.xml"));

    world.render(|_| Ok(vec![page("/p/sitemap.xml.tsx", "sitemap.rss", "<rss/>")]));
    let second = world.apply(&mut pipeline, &plan).unwrap();
    assert_eq!(second.pages_written.len(), 1);
    assert_eq!(second.pages_pruned, vec!["/dist/sitemap.xml"]);
    assert!(!world.files.contains_key("/dist/sitemap.xml"));
    assert!(world.files.contains_key("/dist/sitemap.rss"));
}

#[test]
fn dev_stale_output_is_pruned_when_extension_changes() {
    stale_output_pruned();
}

#[test]
fn pipeline_stale_output_is_pruned_when_extension_changes() {
    stale_output_pruned();
}

fn unchanged_path_stays() {
    let mut world = World::new(|_| Ok(vec![page("/p/a.tsx", "a/index.html", "<h1>A</h1>")]));
    let mut pipeline = Pipeline::new();
    let plan = plan_for(&["/p/a.tsx"]);
    let first = world.apply(&mut pipeline, &plan).unwrap();
    let second = world.apply(&mut pipeline, &plan).unwrap();
    assert!(first.pages_pruned.is_empty());
    assert!(second.pages_pruned.is_empty());
}

#[test]
fn dev_unchanged_output_path_does_not_prune() {
    unchanged_path_stays();
}

#[test]
fn pipeline_unchanged_output_path_does_not_prune() {
    unchanged_path_stays();
}

#[test]
fn stale_output_prune_skipped_when_sibling_claims_path() {
    let mut pipeline = Pipeline::new();
    let mut world = World::new(|_| {
        Ok(vec![
            page("/p/a.tsx", "shared.html", "<p>A tick1</p>"),
            page("/p/b.tsx", "b.html", "<p>B tick1</p>"),
        ])
    });
    let plan = plan_for(&["/p/a.tsx", "/p/b.tsx"]);
    let first = world.apply(&mut pipeline, &plan).unwrap();
    assert_eq!(first.pages_written.len(), 2);
    assert!(first.pages_pruned.is_empty());

    world.render(|_| {
        Ok(vec![
            page("/p/a.tsx", "a.html", "<p>A tick2</p>"),
            page("/p/b.tsx", "shared.html", "<p>B tick2</p>"),
        ])
    });
    let second = world.apply(&mut pipeline, &plan).unwrap();
    assert!(!second.pages_pruned.contains(&"/dist/shared.html".to_string()));
    assert_eq!(world.files["/dist/shared.html"], "<p>B tick2</p>");
    assert_eq!(world.files["/dist/a.html"], "<p>A tick2</p>");
    assert!(!world.files.contains_key("/dist/b.html"));
    assert!(second.pages_pruned.contains(&"/dist/b.html".to_string()));
}

fn all_is_refused() {
    let mut world = World::new(|_| Ok(vec![]));
    let mut plan = RebuildPlan::empty();
    plan.pages = PageSelection::All;
    assert!(world.apply(&mut Pipeline::new(), &plan).is_err());
    assert_eq!(world.labels(), vec!["begin", "abort"]);
}

#[test]
fn dev_all_must_be_resolved_before_reaching_pipeline() {
    all_is_refused();
}

#[test]
fn pipeline_all_must_be_resolved_before_reaching_pipeline() {
    all_is_refused();
}

#[test]
fn dev_pipeline_does_not_emit_hashed_asset_urls() {
    let mut world = World::new(|_| Ok(vec![]));
    world.css = Some(Ok(true));
    world.islands = Some(Ok(Some("/assets/islands-test.js")));
    let mut plan = RebuildPlan::empty();
    plan.rerun_css = true;
    plan.rerun_islands = true;
    let outcome = world.apply(&mut Pipeline::new(), &plan).unwrap();
    assert!(outcome.hashed_asset_urls.is_empty());
    assert!(outcome.islands_changed);
    assert_eq!(
        outcome.islands_bundle.unwrap().bundle_url,
        "/assets/islands-test.js"
    );
}

fn refreshed() -> Result<RefreshOutcome, String> {
    Ok(RefreshOutcome::Refreshed {
        vanished: vec![],
        changed_sources: vec![],
    })
}

fn skipped() -> Result<RefreshOutcome, String> {
    Ok(RefreshOutcome::Skipped)
}

#[test]
fn skipped_reload_renders_selection_but_prunes_no_vanished_routes() {
    let mut pipeline = Pipeline::new();
    let mut world = World::new(|_| Ok(vec![page("/p/a.tsx", "a/index.html", "<h1>A</h1>")]));
    let plan = plan_for(&["/p/a.tsx"]);
    world.reload(refreshed);
    let first = world.apply(&mut pipeline, &plan).unwrap();
    assert_eq!(first.pages_rendered, 1);
    assert!(world.files.contains_key("/dist/a/index.html"));

    world.reload(skipped);
    let second = world.apply(&mut pipeline, &plan).unwrap();
    assert_eq!(world.hints.len(), 2);
    assert_eq!(second.pages_rendered, 1);
    assert!(second.pages_written.is_empty());
    assert!(second.pages_pruned.is_empty());
    assert!(world.files.contains_key("/dist/a/index.html"));
}

#[test]
fn skipped_tick_prunes_moved_per_page_artifact_and_evicts_cache() {
    let mut pipeline = Pipeline::new();
    let mut world = World::new(|_| Ok(vec![page("/p/a.tsx", "x/index.html", "<h1>X</h1>")]));
    let plan = plan_for(&["/p/a.tsx"]);
    world.reload(refreshed);
    let first = world.apply(&mut pipeline, &plan).unwrap();
    assert_eq!(written(&first), vec!["/p/a.tsx"]);
    assert!(world.files.contains_key("/dist/x/index.html"));

    world.reload(skipped);
    world.render(|_| Ok(vec![page("/p/a.tsx", "y/index.html", "<h1>Y</h1>")]));
    let second = world.apply(&mut pipeline, &plan).unwrap();
    assert!(written(&second).contains(&"/p/a.tsx"));
    assert!(world.files.contains_key("/dist/y/index.html"));
    assert!(second
        .pages_pruned
        .contains(&"/dist/x/index.html".to_string()));
    assert!(!world.files.contains_key("/dist/x/index.html"));

    assert!(pipeline
        .cache
        .needs_write("/dist/x/index.html", &b"<h1>X</h1>".to_vec()));
    assert_eq!(
        pipeline.cache.stale_path(&pid("/p/a.tsx"), "/dist/z.html"),
        Some("/dist/y/index.html".to_string())
    );
}

#[test]
fn skipped_reload_still_runs_css_and_islands() {
    let mut world = World::new(|_| Ok(vec![]));
    world.reload(skipped);
    world.css = Some(Ok(true));
    world.islands = Some(Ok(None));
    let mut plan = plan_for(&["/p/a.tsx"]);
    plan.rerun_css = true;
    plan.rerun_islands = true;
    let outcome = world.apply(&mut Pipeline::new(), &plan).unwrap();
    assert_eq!(world.hints.len(), 1);
    assert!(outcome.css_rerun);
    assert!(outcome.islands_rerun);
    assert!(!outcome.islands_changed);
    let log = world.labels();
    assert_eq!(log.iter().filter(|l| *l == "css").count(), 1);
    assert_eq!(log.iter().filter(|l| *l == "islands").count(), 1);
}

#[test]
fn skipped_tick_still_renders_differing_page_selection() {
    let mut pipeline = Pipeline::new();
    let mut world = World::new(|pages| {
        Ok(pages
            .iter()
            .map(|p| {
                let name = p
                    .path()
                    .rsplit('/')
                    .next()
                    .unwrap()
                    .trim_end_matches(".tsx")
                    .to_string();
                page(
                    p.path(),
                    &format!("{name}/index.html"),
                    &format!("<h1>{name}</h1>"),
                )
            })
            .collect())
    });
    world.reload(refreshed);
    let a = world
        .apply(&mut pipeline, &plan_for(&["/p/r1.tsx"]))
        .unwrap();
    assert_eq!(a.pages_rendered, 1);
    assert!(world.files.contains_key("/dist/r1/index.html"));
    assert!(!world.files.contains_key("/dist/r2/index.html"));

    world.reload(skipped);
    let b = world
        .apply(&mut pipeline, &plan_for(&["/p/r2.tsx"]))
        .unwrap();
    assert_eq!(world.hints.len(), 2);
    assert_eq!(b.pages_rendered, 1);
    assert!(written(&b).contains(&"/p/r2.tsx"));
    assert!(world.files.contains_key("/dist/r2/index.html"));
    assert!(b.pages_pruned.is_empty());
    assert!(world.files.contains_key("/dist/r1/index.html"));
}

#[test]
fn skipped_reload_still_processes_plan_prune_paths() {
    let mut world = World::new(|_| Ok(vec![]));
    world
        .files
        .insert("/dist/stale.html".to_string(), "<p>stale</p>".to_string());
    world.reload(skipped);
    let mut plan = plan_for(&["/p/a.tsx"]);
    plan.prune_paths = vec!["/dist/stale.html".to_string()];
    let outcome = world.apply(&mut Pipeline::new(), &plan).unwrap();
    assert_eq!(world.hints.len(), 1);
    assert!(!world.files.contains_key("/dist/stale.html"));
    assert_eq!(outcome.pages_pruned, vec!["/dist/stale.html"]);
}

#[test]
fn ssr_only_skipped_reload_prunes_nothing() {
    let mut world = World::new(|_| Ok(vec![]));
    world
        .files
        .insert("/dist/page.html".to_string(), "<p>live</p>".to_string());
    world.reload(skipped);
    let mut plan = RebuildPlan::empty();
    plan.ssr_reload_needed = true;
    let outcome = world.apply(&mut Pipeline::new(), &plan).unwrap();
    assert!(outcome.pages_pruned.is_empty());
    assert!(world.files.contains_key("/dist/page.html"));
}

#[test]
fn refreshed_reload_renders_as_before() {
    let mut world = World::new(|_| Ok(vec![page("/p/a.tsx", "a/index.html", "<h1>A</h1>")]));
    world.reload(refreshed);
    let outcome = world
        .apply(&mut Pipeline::new(), &plan_for(&["/p/a.tsx"]))
        .unwrap();
    assert_eq!(world.hints.len(), 1);
    assert_eq!(outcome.pages_rendered, 1);
    assert!(world.files.contains_key("/dist/a/index.html"));
}

fn narrowed_plan() -> RebuildPlan {
    let mut plan = plan_for(&["/p/a.tsx"]);
    plan.content_narrowing = Some(ContentNarrowing {
        changed_content: vec!["/proj/content/post.md".to_string()],
        fan_out_safe: true,
    });
    plan
}

fn seen_hints(plan: &RebuildPlan, vanished: &[&str], changed: &[&str]) -> Vec<Hint> {
    let vanished: Vec<String> = vanished.iter().map(|s| s.to_string()).collect();
    let changed: Vec<String> = changed.iter().map(|s| s.to_string()).collect();
    let mut world = World::new(|_| Ok(vec![]));
    world.reload(move || {
        Ok(RefreshOutcome::Refreshed {
            vanished: vanished.clone(),
            changed_sources: changed.iter().map(|s| pid(s)).collect(),
        })
    });
    world.apply(&mut Pipeline::new(), plan).unwrap();
    world.hints
}

fn hint(fan_out_safe: bool) -> Vec<Hint> {
    vec![Some((
        vec!["/proj/content/post.md".to_string()],
        fan_out_safe,
    ))]
}

#[test]
fn narrowing_hint_reaches_render_callback() {
    assert_eq!(seen_hints(&narrowed_plan(), &[], &[]), hint(true));
}

#[test]
fn refresh_changed_sources_clears_fan_out_safe() {
    assert_eq!(
        seen_hints(&narrowed_plan(), &[], &["/p/blog/[slug].tsx"]),
        hint(false)
    );
}

#[test]
fn refresh_vanished_routes_clears_fan_out_safe() {
    assert_eq!(
        seen_hints(&narrowed_plan(), &["/dist/gone/index.html"], &[]),
        hint(false)
    );
}

#[test]
fn renderer_fresh_tick_clears_fan_out_safe() {
    let mut plan = narrowed_plan();
    plan.renderer_fresh = true;
    assert_eq!(seen_hints(&plan, &[], &[]), hint(false));
}

#[test]
fn narrowed_tick_leaves_sibling_outputs_and_bookkeeping_intact() {
    let mut pipeline = Pipeline::new();
    let plan = plan_for(&["/p/blog/[slug].tsx"]);
    let a = "blog/a/index.html";
    let b = "blog/b/index.html";
    let mut world = World::new(move |_| Ok(vec![page(a, a, "<p>A v1</p>"), page(b, b, "<p>B v1</p>")]));
    let first = world.apply(&mut pipeline, &plan).unwrap();
    assert_eq!(first.pages_written.len(), 2);
    assert!(world.files.contains_key("/dist/blog/b/index.html"));

    world.render(move |_| Ok(vec![page(a, a, "<p>A v2</p>")]));
    let second = world.apply(&mut pipeline, &plan).unwrap();
    assert_eq!(written(&second), vec![a]);
    assert!(second.pages_pruned.is_empty());
    assert_eq!(world.files["/dist/blog/b/index.html"], "<p>B v1</p>");

    world.render(move |_| Ok(vec![page(a, a, "<p>A v2</p>"), page(b, b, "<p>B v1</p>")]));
    let third = world.apply(&mut pipeline, &plan).unwrap();
    assert!(third.pages_written.is_empty());
    assert!(third.pages_pruned.is_empty());
}

#[test]
fn vanished_routes_are_pruned_unless_a_page_owns_them() {
    let mut world = World::new(|_| Ok(vec![page("/p/a.tsx", "kept.html", "A")]));
    world
        .files
        .insert("/dist/gone.html".to_string(), "old".to_string());
    world.reload(|| {
        Ok(RefreshOutcome::Refreshed {
            vanished: vec![
                "/dist/gone.html".to_string(),
                "/dist//kept.html".to_string(),
            ],
            changed_sources: vec![],
        })
    });
    let mut plan = plan_for(&["/p/a.tsx"]);
    plan.prune_paths = vec!["/dist/planned.html".to_string()];
    let outcome = world.apply(&mut Pipeline::new(), &plan).unwrap();
    assert_eq!(
        outcome.pages_pruned,
        vec!["/dist/planned.html", "/dist/gone.html"]
    );
    assert!(world.files.contains_key("/dist/kept.html"));
    assert!(world.take_log().contains(
        &"paths-removed [\"/dist/planned.html\", \"/dist/gone.html\"]".to_string()
    ));
}

#[test]
fn an_output_that_cannot_be_deleted_is_pruned_but_not_reported_gone() {
    let mut world = World::new(|_| Ok(vec![]));
    world.remove_fails = true;
    let mut plan = RebuildPlan::empty();
    plan.prune_paths = vec!["/dist/planned.html".to_string()];
    let outcome = world.apply(&mut Pipeline::new(), &plan).unwrap();
    assert_eq!(outcome.pages_pruned, vec!["/dist/planned.html"]);
    assert_eq!(world.take_log(), vec!["write-start /dist/planned.html"]);
}

#[test]
fn a_server_only_reload_prunes_what_vanished() {
    let mut world = World::new(|_| Ok(vec![]));
    world.reload(|| {
        Ok(RefreshOutcome::Refreshed {
            vanished: vec!["/dist/gone.html".to_string()],
            changed_sources: vec![],
        })
    });
    let mut plan = RebuildPlan::empty();
    plan.ssr_reload_needed = true;
    let outcome = world.apply(&mut Pipeline::new(), &plan).unwrap();
    assert_eq!(outcome.pages_pruned, vec!["/dist/gone.html"]);
    assert_eq!(
        world.labels(),
        vec![
            "begin",
            "reload",
            "mutation",
            "write-start",
            "paths-removed",
            "commit-entries"
        ]
    );
}

#[test]
fn the_probes_are_drained_after_css() {
    let mut world = World::new(|_| Ok(vec![]));
    world.css = Some(Ok(false));
    let mut pipeline = Pipeline::with_stale_probe(())
        .with_ssr_publish_probe(())
        .with_dynamic_injected_probe(());
    let mut plan = RebuildPlan::empty();
    plan.rerun_css = true;
    let outcome = world.apply(&mut pipeline, &plan).unwrap();
    assert!(!outcome.css_changed);
    assert_eq!(outcome.pages_stale, vec!["stale/index.html"]);
    assert!(outcome.ssr_routes_published);
    assert!(outcome.dynamic_injected_restaled);
}

#[test]
fn a_failed_write_is_tried_again_with_the_next_tick() {
    let mut pipeline = Pipeline::new();
    let mut world = World::new(|_| Ok(vec![page("/p/a.tsx", "a.html", "A")]));
    let plan = plan_for(&["/p/a.tsx"]);
    world.write_fails = true;
    assert!(world.apply(&mut pipeline, &plan).is_err());
    world.write_fails = false;
    let again = world.apply(&mut pipeline, &plan).unwrap();
    assert_eq!(written(&again), vec!["/p/a.tsx"]);
}

#[test]
fn a_reset_pipeline_writes_everything_again() {
    let mut pipeline = Pipeline::new();
    let mut world = World::new(|_| Ok(vec![page("/p/a.tsx", "a.html", "A")]));
    let plan = plan_for(&["/p/a.tsx"]);
    world.apply(&mut pipeline, &plan).unwrap();
    pipeline.reset_cache();
    let again = world.apply(&mut pipeline, &plan).unwrap();
    assert_eq!(written(&again), vec!["/p/a.tsx"]);
}

/// Drives a request-time write, and says what was written where.
fn drive(
    pipeline: &mut Pipeline,
    mut write: RequestWrite,
    claim: bool,
    dest: Result<(), &str>,
    disk: Result<(), &str>,
) -> (Result<GuardedWriteOutcome, RequestError<String>>, Vec<String>) {
    let mut log = Vec::new();
    loop {
        let answer = match write.action() {
            RequestAction::Revalidate => {
                log.push("revalidate".to_string());
                RequestAnswer::Revalidated(claim)
            }
            RequestAction::Validate => {
                log.push("validate".to_string());
                let path = format!("{}/{}", write.dist_root(), write.output_path());
                RequestAnswer::Validated(dest.map(|_| path).map_err(str::to_string))
            }
            RequestAction::Write => {
                log.push(format!(
                    "write {} {}",
                    write.dest().unwrap(),
                    write.bytes().len()
                ));
                RequestAnswer::Written(disk.map_err(str::to_string))
            }
            RequestAction::AfterWrite => {
                log.push("after".to_string());
                RequestAnswer::Finalized
            }
            RequestAction::Done(outcome) => return (Ok(outcome), log),
            RequestAction::Failed => unreachable!(),
        };
        if let Err(e) = pipeline.resume_request(&mut write, answer) {
            return (Err(e), log);
        }
    }
}

#[test]
fn a_request_writes_once_and_shares_what_it_wrote_with_ticks() {
    let mut pipeline = Pipeline::new();
    let bytes = b"A".to_vec();
    let (first, log) = drive(
        &mut pipeline,
        Pipeline::new().request_write(ROOT, "a.html", bytes.clone()),
        true,
        Ok(()),
        Ok(()),
    );
    assert_eq!(
        first.unwrap(),
        GuardedWriteOutcome::Written(RequestWriteOutcome { written: true })
    );
    assert_eq!(log, vec!["validate", "write /dist/a.html 1"]);

    let (second, log) = drive(
        &mut pipeline,
        Pipeline::new().request_write(ROOT, "a.html", bytes),
        true,
        Ok(()),
        Ok(()),
    );
    assert_eq!(
        second.unwrap(),
        GuardedWriteOutcome::Written(RequestWriteOutcome { written: false })
    );
    assert_eq!(log, vec!["validate"]);

    let mut world = World::new(|_| Ok(vec![page("/p/a.tsx", "a.html", "A")]));
    let tick = world
        .apply(&mut pipeline, &plan_for(&["/p/a.tsx"]))
        .unwrap();
    assert!(tick.pages_written.is_empty());
}

#[test]
fn a_guard_that_fails_keeps_a_write_back_wholesale() {
    let mut pipeline = Pipeline::new();
    let (outcome, log) = drive(
        &mut pipeline,
        Pipeline::new().request_write_guarded(ROOT, "a.html", b"A".to_vec()),
        false,
        Err("never asked"),
        Ok(()),
    );
    assert_eq!(outcome.unwrap(), GuardedWriteOutcome::Skipped);
    assert_eq!(log, vec!["revalidate"]);
    assert!(pipeline.cache.needs_write("/dist/a.html", &b"A".to_vec()));
}

#[test]
fn a_guarded_write_is_finalized_after_it_is_made() {
    let mut pipeline = Pipeline::new();
    let (outcome, log) = drive(
        &mut pipeline,
        Pipeline::new().request_write_guarded_then(ROOT, "repair.html", b"repaired".to_vec()),
        true,
        Ok(()),
        Ok(()),
    );
    assert_eq!(
        outcome.unwrap(),
        GuardedWriteOutcome::Written(RequestWriteOutcome { written: true })
    );
    assert_eq!(
        log,
        vec![
            "revalidate",
            "validate",
            "write /dist/repair.html 8",
            "after"
        ]
    );
}

#[test]
fn a_refused_or_failed_request_is_not_remembered() {
    let mut pipeline = Pipeline::new();
    let (refused, log) = drive(
        &mut pipeline,
        Pipeline::new().request_write(ROOT, "a.html", b"A".to_vec()),
        true,
        Err("outside"),
        Ok(()),
    );
    assert!(matches!(refused, Err(RequestError::Refused(e)) if e == "outside"));
    assert_eq!(log, vec!["validate"]);
    let (failed, log) = drive(
        &mut pipeline,
        Pipeline::new().request_write_guarded_then(ROOT, "a.html", b"A".to_vec()),
        true,
        Ok(()),
        Err("disk full"),
    );
    assert!(matches!(failed, Err(RequestError::Failed(e)) if e == "disk full"));
    assert_eq!(log, vec!["revalidate", "validate", "write /dist/a.html 1"]);
    assert!(pipeline.cache.needs_write("/dist/a.html", &b"A".to_vec()));
}

#[test]
fn the_cache_knows_paths_however_they_are_spelled() {
    let mut cache = WriteCache::new();
    cache.commit_bytes("/dist//a/./b.html", b"x".to_vec());
    assert!(!cache.needs_write("/dist/a/b.html", &b"x".to_vec()));
    assert!(cache.needs_write("/dist/a/b.html", &b"y".to_vec()));
    cache.commit_page(&pid("/p/a.tsx"), "/dist/a/b.html");
    assert_eq!(cache.stale_path(&pid("/p//a.tsx"), "/dist/a//b.html"), None);
    assert_eq!(
        cache.stale_path(&pid("/p/a.tsx"), "/dist/c.html"),
        Some("/dist/a/b.html".to_string())
    );
    cache.evict_path("/dist/a/b.html/");
    assert!(cache.needs_write("/dist/a/b.html", &b"x".to_vec()));
    assert_eq!(cache.stale_path(&pid("/p/a.tsx"), "/dist/c.html"), None);
}

#[test]
fn a_production_context_has_no_dev_callbacks() {
    let ctx: BuildContext<u8, (), (), (), ()> = ProdBuildContext {
        dist_root: ROOT.to_string(),
        render_pages: 7u8,
    }
    .into_build_context();
    assert_eq!(ctx.dist_root, ROOT);
    assert_eq!(ctx.render_pages, 7);
    assert!(ctx.run_css.is_none() && ctx.run_islands.is_none());
    assert!(ctx.run_client_scripts.is_none() && ctx.reload_renderer.is_none());
}

#[test]
fn initial_build_renders_all_seeded_pages_with_no_file_events() {
    let seeded = vec![
        pid("pages/index.tsx"),
        pid("pages/about.md"),
        pid("pages/posts/[slug].tsx"),
    ];
    let orch = BuildOrchestrator::new(OrchestratorConfig::new("/proj", vec!["pages".to_string()]));
    let plan = orch
        .initial_build(&seeded)
        .expect("a graph with pages must render at least one page");

    let calls = Rc::new(RefCell::new(0));
    let counted = Rc::clone(&calls);
    let mut world = World::new(move |pages| {
        *counted.borrow_mut() += pages.len();
        Ok(pages
            .iter()
            .enumerate()
            .map(|(i, p)| {
                page(p.path(), &format!("p{i}.html"), &format!("<html>{}</html>", p.path()))
            })
            .collect())
    });
    let mut pipeline = Pipeline::new();
    let outcome = world.apply(&mut pipeline, &plan).expect("initial_build must succeed");
    assert_eq!(outcome.pages_rendered, seeded.len());
    assert_eq!(*calls.borrow(), seeded.len());
    assert_eq!(
        world.files.keys().filter(|p| p.ends_with(".html")).count(),
        seeded.len()
    );
}

#[test]
fn a_tick_that_is_left_closes_its_publication() {
    let world = World::new(|_| Ok(Vec::new()));
    let mut pipeline = Pipeline::new();
    let (mut run, _) = pipeline.apply(&plan_for(&["/p/a.tsx"]), &world.context());
    assert!(matches!(run.action(), DevAction::Render { .. }));
    run.abandon();
    assert!(matches!(run.action(), DevAction::Finish));
    let labels: Vec<String> = run.take_events().iter().map(label).collect();
    assert_eq!(labels, vec!["begin", "mutation", "pending"]);

    let mut scripts = client_script_page_plan();
    scripts.pages = PageSelection::none();
    let mut world = World::new(|_| Ok(Vec::new()));
    world.scripts = Some(Ok(true));
    let (mut run, _) = pipeline.apply(&scripts, &world.context());
    assert!(matches!(run.action(), DevAction::RunClientScripts));
    run.abandon();
    let labels: Vec<String> = run.take_events().iter().map(label).collect();
    assert_eq!(labels, vec!["begin", "abort"]);
    pipeline.reset_cache();
}

#[test]
fn what_is_remembered_is_on_disk() {
    let mut pipeline = Pipeline::new();
    let plan = plan_for(&["/p/a.tsx", "/p/b.tsx"]);
    let outputs = [("a.html", "b.html"), ("b.html", "a.html"), ("c.html", "a.html")];
    let mut world = World::new(|_| Ok(Vec::new()));
    for (round, (a, b)) in outputs.into_iter().enumerate() {
        let html = format!("round {round}");
        world.render(move |_| {
            Ok(vec![page("/p/a.tsx", a, "same"), page("/p/b.tsx", b, &html)])
        });
        world.apply(&mut pipeline, &plan).unwrap();
        assert_eq!(world.files[&format!("{ROOT}/{a}")], "same");
        assert_eq!(world.files[&format!("{ROOT}/{b}")], format!("round {round}"));
        for (path, content) in &world.files {
            assert!(!pipeline.cache.needs_write(path, &content.as_bytes().to_vec()), "{path}");
        }
    }
    assert_eq!(world.files.len(), 2);

    world.write_fails = true;
    world.render(|_| Ok(vec![page("/p/a.tsx", "d.html", "new")]));
    assert!(world.apply(&mut pipeline, &plan).is_err());
    assert!(pipeline.cache.needs_write("/dist/d.html", &b"new".to_vec()));
    world.write_fails = false;
    world.apply(&mut pipeline, &plan).unwrap();
    assert!(!world.files.contains_key("/dist/c.html"));
    assert_eq!(world.files["/dist/d.html"], "new");
}

#[test]
fn a_second_tick_with_the_same_pages_changes_nothing() {
    let mut pipeline = Pipeline::new();
    let mut world = World::new(|_| {
        Ok(vec![
            page("/p/[slug].tsx", "one/index.html", "<h1>1</h1>"),
            page("/p/a.tsx", "a/index.html", "<h1>A</h1>"),
            page("/p/[slug].tsx", "two/index.html", "<h1>2</h1>"),
        ])
    });
    let plan = plan_for(&["/p/[slug].tsx", "/p/a.tsx"]);
    let first = world.apply(&mut pipeline, &plan).unwrap();
    assert_eq!(first.pages_written.len(), 3);
    let before = world.files.clone();
    for again in [plan, plan_for(&["/p//a.tsx", "/p/./[slug].tsx"])] {
        let second = world.apply(&mut pipeline, &again).unwrap();
        assert_eq!(second.pages_rendered, first.pages_rendered);
        assert!(second.pages_written.is_empty());
        assert!(second.pages_pruned.is_empty());
        assert_eq!(world.files, before);
    }
}

#[test]
fn an_output_that_its_page_has_left_is_deleted_once_and_written_on_request() {
    let mut pipeline = Pipeline::new();
    let mut world = World::new(|_| Ok(vec![page("/p/[slug].tsx", "x.html", "<h1>X</h1>")]));
    let plan = plan_for(&["/p/[slug].tsx"]);
    world.apply(&mut pipeline, &plan).unwrap();

    world.render(|_| {
        Ok(vec![
            page("/p/[slug].tsx", "y.html", "<h1>Y</h1>"),
            page("/p/[slug].tsx", "z.html", "<h1>Z</h1>"),
        ])
    });
    let moved = world.apply(&mut pipeline, &plan).unwrap();
    assert_eq!(moved.pages_pruned, vec!["/dist/x.html".to_string()]);
    assert!(!world.files.contains_key("/dist/x.html"));
    assert_eq!(world.files["/dist/y.html"], "<h1>Y</h1>");
    assert_eq!(world.files["/dist/z.html"], "<h1>Z</h1>");
    assert!(world.apply(&mut pipeline, &plan).unwrap().pages_pruned.is_empty());

    let (outcome, log) = drive(
        &mut pipeline,
        Pipeline::new().request_write(ROOT, "x.html", b"<h1>X</h1>".to_vec()),
        true,
        Ok(()),
        Ok(()),
    );
    assert_eq!(
        outcome.unwrap(),
        GuardedWriteOutcome::Written(RequestWriteOutcome { written: true })
    );
    assert_eq!(log, vec!["validate", "write /dist/x.html 10"]);
}

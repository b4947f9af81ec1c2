use std::collections::BTreeMap;
use std::path::Path;

use zfb_build::drain::{pre_tick_refresh_applies, retain_unsuppressed_changes, Intake};
use zfb_build::facts::{Change, ChangeKind, CssMirrorMatch, PathClass, PathFacts};
use zfb_build::orchestrator::{
    watch_options_for, BuildOrchestrator, OrchestratorConfig, Span, WatchBackend,
};
use zfb_build::page::{PageId, PageSet};
use zfb_build::plan::{ContentNarrowing, DirtySet, PageSelection, RebuildPlan};
use zfb_build::tick::{CreatedFacts, DiscoveryOutcome, TickAnswers, TickIntake};
use zfb_build::tick_run::{TickAction, TickAnswer, TickRun};

type Hook = Box<dyn Fn(&str) -> Option<Vec<PageId>>>;

fn pid(s: &str) -> PageId {
    PageId::new(s.to_string())
}

fn strings(list: &[&str]) -> Vec<String> {
    list.iter().map(|s| s.to_string()).collect()
}

fn change(path: &str, kind: ChangeKind) -> Change {
    Change { path: path.to_string(), kind }
}

fn a_change(path: &str) -> Intake {
    intake(path, ChangeKind::Modified, false)
}

fn intake(path: &str, kind: ChangeKind, watched: bool) -> Intake {
    Intake { change: change(path, kind), suppressed: false, plugin_watch_target: watched }
}

/// The dependency graph, the classification and the registries that a project
/// answers with.
struct World {
    orch: BuildOrchestrator,
    root: String,
    pages: Vec<String>,
    consumers: BTreeMap<String, Vec<String>>,
    global: String,
    islands: Vec<String>,
    client_scripts: Vec<String>,
    workers: Vec<String>,
    siblings: Vec<String>,
    plugin_files: Vec<String>,
    mirror_roots: Vec<String>,
    known_content: Vec<String>,
    hook: Option<Hook>,
}

fn skip_names() -> Vec<String> {
    strings(&["node_modules", "dist", ".git", "target", ".turbo", ".next", ".vercel"])
}

impl World {
    fn rooted(root: &str) -> World {
        let config = OrchestratorConfig::new(root, strings(&["pages", "content"]))
            .with_css_mirror_skip_dir_names(skip_names());
        let mut consumers = BTreeMap::new();
        consumers.insert(
            "/proj/components/Header.tsx".to_string(),
            strings(&["/proj/pages/a.tsx", "/proj/pages/b.tsx"]),
        );
        consumers.insert("/proj/content/post.md".to_string(), strings(&["/proj/pages/c.tsx"]));
        World {
            orch: BuildOrchestrator::new(config),
            root: root.to_string(),
            pages: strings(&["/proj/pages/a.tsx", "/proj/pages/b.tsx", "/proj/pages/c.tsx"]),
            consumers,
            global: "/proj/zfb.config.ts".to_string(),
            islands: Vec::new(),
            client_scripts: Vec::new(),
            workers: Vec::new(),
            siblings: Vec::new(),
            plugin_files: Vec::new(),
            mirror_roots: Vec::new(),
            known_content: Vec::new(),
            hook: None,
        }
    }

    fn new() -> World {
        World::rooted("/proj")
    }

    fn hooked(hook: impl Fn(&str) -> Option<Vec<PageId>> + 'static) -> World {
        let mut world = World::new();
        world.hook = Some(Box::new(hook));
        world
    }

    fn watching(files: &[&str]) -> World {
        let mut world = World::new();
        world.plugin_files = strings(files);
        world
    }

    fn knowing(files: &[&str]) -> World {
        let mut world = World::new();
        world.known_content = strings(files);
        world
    }

    fn mirroring() -> World {
        let mut world = World::rooted("/ws/sub-packages/host");
        world.mirror_roots = strings(&["/ws/lib/ushared"]);
        world
    }

    fn class(&self, path: &str) -> PathClass {
        let extension = Path::new(path).extension().and_then(|e| e.to_str()).unwrap_or("");
        let inside = Path::new(path).strip_prefix(&self.root).ok();
        let first = match inside {
            Some(rest) => rest.iter().next().and_then(|p| p.to_str()).unwrap_or(""),
            None => "",
        };
        if path == self.global {
            PathClass::Global
        } else if first == "public" {
            PathClass::Asset
        } else if first == "pages" && (extension == "tsx" || extension == "ts") {
            PathClass::Page
        } else {
            match extension {
                "css" => PathClass::Style,
                "ts" | "tsx" => PathClass::Module,
                "md" | "mdx" => PathClass::Content,
                "json" => PathClass::Data,
                _ => match inside {
                    Some(_) => PathClass::Unclassified,
                    None => PathClass::External,
                },
            }
        }
    }

    fn readers(&self, path: &str) -> Vec<PageId> {
        let mut out = Vec::new();
        if self.pages.iter().any(|p| p == path) {
            out.push(pid(path));
        }
        for page in self.consumers.get(path).into_iter().flatten() {
            out.push(pid(page));
        }
        out
    }

    fn facts(&self, path: &str) -> PathFacts {
        let named = |list: &Vec<String>| list.iter().any(|p| p == path);
        let dirty = if path == self.global {
            DirtySet::All
        } else {
            DirtySet::Specific(PageSet::from_list(&self.readers(path)))
        };
        let hook_verdict = match &self.hook {
            Some(hook) if self.orch.config().consults_external_hook(path) => hook(path),
            _ => None,
        };
        let mirror = self.mirror_roots.iter().find(|r| Path::new(path).starts_with(r));
        PathFacts {
            path: path.to_string(),
            class: self.class(path),
            known: path == self.global || !self.readers(path).is_empty(),
            dirty,
            islands_candidate: Path::new(path)
                .iter()
                .any(|p| p == "components" || p == "src"),
            islands_dependency: named(&self.islands),
            client_script_candidate: path.ends_with(".client.ts"),
            client_script_raw_target: named(&self.client_scripts),
            client_script_worker_target: named(&self.workers),
            client_script_sibling_target: named(&self.siblings),
            plugin_watch_target: named(&self.plugin_files),
            css_mirror: mirror.map(|root| CssMirrorMatch {
                root: root.clone(),
                relative: Path::new(path)
                    .strip_prefix(root)
                    .unwrap()
                    .to_str()
                    .unwrap()
                    .to_string(),
            }),
            hook_verdict,
        }
    }

    fn all_pages(&self) -> Vec<PageId> {
        self.pages.iter().map(|p| pid(p)).collect()
    }

    fn plan(&self, paths: &[&str]) -> RebuildPlan {
        let facts = paths.iter().map(|p| self.facts(p)).collect();
        self.orch.plan_for_changes(&facts)
    }

    fn tick(&mut self, changes: &[(&str, ChangeKind)]) -> Option<RebuildPlan> {
        self.run(changes, None).0.unwrap().into_plan()
    }

    /// Runs a tick to its end, with a log of what it asks for.
    fn run(
        &mut self,
        changes: &[(&str, ChangeKind)],
        discover: Option<Result<DiscoveryOutcome, String>>,
    ) -> (Result<TickRun, String>, Vec<String>) {
        let mut discover = discover;
        let changes = changes.iter().map(|(p, k)| change(p, *k)).collect();
        let mut run = TickRun::begin(changes, discover.is_some());
        let mut log = Vec::new();
        loop {
            let answer = match run.action() {
                TickAction::Purge { paths } => {
                    log.push(format!("purge {paths:?}"));
                    for gone in paths {
                        self.known_content.retain(|p| !Path::new(p).starts_with(&gone));
                    }
                    TickAnswer::Purged
                }
                TickAction::Inspect => {
                    log.push("inspect".to_string());
                    TickAnswer::Inspected(
                        run.changes()
                            .iter()
                            .map(|c| CreatedFacts {
                                known_entry: self.known_content.contains(&c.path),
                                has_consumers: !self.readers(&c.path).is_empty(),
                                class: self.class(&c.path),
                            })
                            .collect(),
                    )
                }
                TickAction::Detach { paths } => {
                    log.push(format!("detach {paths:?}"));
                    TickAnswer::Detached(paths.iter().flat_map(|p| self.readers(p)).collect())
                }
                TickAction::Discover { paths } => {
                    log.push(format!("discover {paths:?}"));
                    TickAnswer::Discovered(discover.take().unwrap())
                }
                TickAction::Facts => {
                    log.push("facts".to_string());
                    TickAnswer::Facts {
                        planned: run.live_changes().iter().map(|c| self.facts(&c.path)).collect(),
                        removed: run.removed().iter().map(|p| self.facts(p)).collect(),
                    }
                }
                TickAction::ListPages => {
                    log.push("pages".to_string());
                    TickAnswer::Pages(self.all_pages())
                }
                TickAction::Finish => return (Ok(run), log),
                TickAction::Fail => unreachable!(),
            };
            if let Err(e) = run.resume(&self.orch, answer) {
                assert_eq!(run.action(), TickAction::Fail);
                return (Err(e), log);
            }
        }
    }
}

fn specific(plan: &RebuildPlan) -> Vec<String> {
    match &plan.pages {
        PageSelection::Specific(set) => {
            set.to_vec().iter().map(|p| p.path().to_string()).collect()
        }
        PageSelection::All => unreachable!("expected PageSelection::Specific"),
    }
}

fn hint(plan: &RebuildPlan) -> (Vec<String>, bool) {
    let narrowing = plan.content_narrowing.as_ref().expect("content narrowing hint");
    (narrowing.changed_content.clone(), narrowing.fan_out_safe)
}

#[test]
fn empty_plan_is_noop() {
    assert!(RebuildPlan::empty().is_noop());
}

#[test]
fn content_narrowing_hint_does_not_affect_is_noop() {
    let mut plan = RebuildPlan::empty();
    plan.content_narrowing = Some(ContentNarrowing {
        changed_content: strings(&["/proj/content/post.md"]),
        fan_out_safe: true,
    });
    assert!(plan.is_noop());
}

#[test]
fn full_rebuild_is_not_noop() {
    let p = RebuildPlan::full_rebuild();
    assert!(!p.is_noop());
    assert!(p.pages.is_all());
    assert!(p.rerun_css);
    assert!(p.rerun_islands);
}

#[test]
fn merging_specific_into_all_stays_all() {
    let mut sel = PageSelection::All;
    let mut s = PageSet::new();
    s.insert(pid("/p/a.tsx"));
    sel.merge(PageSelection::Specific(s));
    assert!(sel.is_all());
}

#[test]
fn merging_all_into_specific_promotes() {
    let mut sel = PageSelection::Specific(PageSet::new());
    sel.merge(PageSelection::All);
    assert!(sel.is_all());
}

#[test]
fn merging_specifics_unions() {
    let mut a = PageSet::new();
    a.insert(pid("/p/a.tsx"));
    let mut b = PageSet::new();
    b.insert(pid("/p/b.tsx"));
    let mut sel = PageSelection::Specific(a);
    sel.merge(PageSelection::Specific(b));
    match sel {
        PageSelection::Specific(s) => {
            assert!(s.contains(&pid("/p/a.tsx")));
            assert!(s.contains(&pid("/p/b.tsx")));
        }
        other => unreachable!("expected PageSelection::Specific, got {other:?}"),
    }
}

#[test]
fn watch_options_for_defaults_to_native_backend() {
    let config = OrchestratorConfig::new("/proj", strings(&["pages"]));
    let options = watch_options_for(&config);
    assert_eq!(options.backend, WatchBackend::Native);
}

#[test]
fn watch_options_for_selects_poll_backend_when_configured() {
    let poll_backend = WatchBackend::Poll { interval: Span::from_millis(250) };
    let config = OrchestratorConfig::new("/proj", strings(&["pages"])).with_backend(poll_backend);
    let options = watch_options_for(&config);
    assert_eq!(options.backend, poll_backend);
}

#[test]
fn watch_options_for_carries_the_configured_debounce_alongside_the_backend() {
    let poll_backend = WatchBackend::Poll { interval: Span::from_millis(250) };
    let config = OrchestratorConfig::new("/proj", strings(&["pages"]))
        .with_debounce(Span::from_millis(10))
        .with_backend(poll_backend);
    let options = watch_options_for(&config);
    assert_eq!(options.debounce, Span::from_millis(10));
    assert_eq!(options.backend, poll_backend);
}

#[test]
fn page_change_dirties_only_that_page() {
    let plan = World::new().plan(&["/proj/pages/a.tsx"]);
    match &plan.pages {
        PageSelection::Specific(s) => {
            assert!(s.contains(&pid("/proj/pages/a.tsx")));
            assert!(!s.contains(&pid("/proj/pages/b.tsx")));
        }
        other => unreachable!("expected PageSelection::Specific, got {other:?}"),
    }
    assert!(!plan.rerun_css);
    assert!(!plan.rerun_islands);
}

#[test]
fn shared_component_dirties_all_consumers() {
    let plan = World::new().plan(&["/proj/components/Header.tsx"]);
    match &plan.pages {
        PageSelection::Specific(s) => {
            assert!(s.contains(&pid("/proj/pages/a.tsx")));
            assert!(s.contains(&pid("/proj/pages/b.tsx")));
            assert!(!s.contains(&pid("/proj/pages/c.tsx")));
        }
        other => unreachable!("expected PageSelection::Specific, got {other:?}"),
    }
    assert!(plan.rerun_islands);
    assert!(plan.rerun_css);
}

#[test]
fn out_of_root_module_change_without_hook_still_reruns_css() {
    let plan = World::new().plan(&["/srv/shared/lib/Utils.tsx"]);
    assert!(plan.pages.is_all());
    assert!(plan.rerun_css);
}

#[test]
fn content_edit_after_a_provenance_wipe_falls_back_to_a_full_rebuild() {
    let mut world = World::new();
    world.pages = strings(&["/proj/pages/c.tsx"]);
    world.consumers.clear();
    let plan = world.plan(&["/proj/content/post.md"]);
    assert!(plan.pages.is_all());
}

#[test]
fn css_change_triggers_css_pipeline_only() {
    let plan = World::new().plan(&["/proj/styles/main.css"]);
    assert!(plan.rerun_css);
    assert!(!plan.rerun_islands);
    assert!(plan.pages.is_empty());
}

#[test]
fn global_change_promotes_to_full_rebuild() {
    let plan = World::new().plan(&["/proj/zfb.config.ts"]);
    assert!(plan.pages.is_all());
    assert!(plan.rerun_css);
    assert!(plan.rerun_islands);
}

#[test]
fn global_change_does_not_duplicate_trigger_paths() {
    let plan = World::new().plan(&["/proj/zfb.config.ts", "/proj/pages/a.tsx"]);
    assert_eq!(plan.triggers, vec!["/proj/zfb.config.ts", "/proj/pages/a.tsx"]);
}

#[test]
fn content_change_dirties_consumer_pages() {
    let plan = World::new().plan(&["/proj/content/post.md"]);
    assert_eq!(specific(&plan), vec!["/proj/pages/c.tsx"]);
}

#[test]
fn unclassified_change_with_no_consumers_is_noop() {
    let plan = World::new().plan(&["/proj/some-random-thing"]);
    assert!(plan.is_noop());
}

#[test]
fn external_change_with_non_whitelisted_extension_triggers_full_rebuild() {
    let plan = World::new().plan(&["/srv/shared/assets/logo.png"]);
    assert!(plan.pages.is_all());
}

#[test]
fn external_change_with_no_extension_triggers_full_rebuild() {
    let plan = World::new().plan(&["/srv/shared/Makefile"]);
    assert!(plan.pages.is_all());
}

fn narrowing_to_a() -> World {
    World::hooked(|_| Some(vec![pid("/proj/pages/a.tsx")]))
}

#[test]
fn external_hook_some_narrows_to_specific_pages() {
    let plan = narrowing_to_a().plan(&["/srv/shared/assets/logo.png"]);
    assert_eq!(specific(&plan), vec!["/proj/pages/a.tsx"]);
    assert!(plan.ssr_reload_needed);
}

#[test]
fn external_hook_some_empty_narrows_to_no_pages() {
    let plan = World::hooked(|_| Some(vec![])).plan(&["/srv/shared/assets/logo.png"]);
    assert!(plan.pages.is_empty());
    assert!(!plan.pages.is_all());
    assert!(plan.ssr_reload_needed);
}

#[test]
fn external_hook_none_falls_back_to_full_rebuild() {
    let plan = World::hooked(|_| None).plan(&["/srv/shared/assets/logo.png"]);
    assert!(plan.pages.is_all());
    assert!(plan.ssr_reload_needed);
}

#[test]
fn external_hook_narrows_out_of_root_whitelisted_extension() {
    let plan = narrowing_to_a().plan(&["/srv/skills/foo.mdx"]);
    assert_eq!(specific(&plan), vec!["/proj/pages/a.tsx"]);
    assert!(plan.ssr_reload_needed);
}

#[test]
fn out_of_root_whitelisted_extension_without_hook_is_full_rebuild() {
    let plan = World::new().plan(&["/srv/skills/foo.mdx"]);
    assert!(plan.pages.is_all());
}

#[test]
fn external_hook_narrowing_css_still_reruns_css() {
    let plan = narrowing_to_a().plan(&["/srv/shared/styles/theme.css"]);
    assert_eq!(specific(&plan), vec!["/proj/pages/a.tsx"]);
    assert!(plan.rerun_css);
    assert!(plan.ssr_reload_needed);
}

#[test]
fn external_hook_narrowing_islands_module_still_reruns_islands() {
    let plan = narrowing_to_a().plan(&["/srv/shared/components/Widget.tsx"]);
    assert_eq!(specific(&plan), vec!["/proj/pages/a.tsx"]);
    assert!(plan.rerun_islands);
    assert!(plan.ssr_reload_needed);
}

#[test]
fn external_hook_narrowing_module_still_reruns_css() {
    let plan = narrowing_to_a().plan(&["/srv/shared/lib/Utils.tsx"]);
    assert_eq!(specific(&plan), vec!["/proj/pages/a.tsx"]);
    assert!(plan.rerun_css);
    assert!(!plan.rerun_islands);
    assert!(plan.ssr_reload_needed);
}

#[test]
fn external_hook_receives_changed_path() {
    let world = World::hooked(|path| {
        if Path::new(path).ends_with("a.skill") {
            Some(vec![pid("/proj/pages/a.tsx")])
        } else {
            Some(vec![pid("/proj/pages/b.tsx")])
        }
    });
    let plan_a = world.plan(&["/srv/skills/a.skill"]);
    assert_eq!(specific(&plan_a), vec!["/proj/pages/a.tsx"]);
    let plan_b = world.plan(&["/srv/skills/b.skill"]);
    assert_eq!(specific(&plan_b), vec!["/proj/pages/b.tsx"]);
}

#[test]
fn external_hook_is_asked_only_about_paths_outside_the_project() {
    let plan = narrowing_to_a().plan(&["/proj/content/post.md"]);
    assert_eq!(specific(&plan), vec!["/proj/pages/c.tsx"]);
}

#[test]
fn modified_only_content_tick_produces_fan_out_safe_hint() {
    let plan = World::new()
        .tick(&[("/proj/content/post.md", ChangeKind::Modified)])
        .unwrap();
    assert_eq!(hint(&plan), (strings(&["/proj/content/post.md"]), true));
}

#[test]
fn content_classified_plugin_watch_file_tick_is_not_fan_out_safe() {
    let mut world = World::watching(&["/proj/content/watched.md"]);
    assert!(world.facts("/proj/content/watched.md").plugin_watch_target);
    let plan = world
        .tick(&[("/proj/content/watched.md", ChangeKind::Modified)])
        .expect("a plugin-watch content tick must produce a plan");
    assert_eq!(hint(&plan), (strings(&["/proj/content/watched.md"]), false));
    assert_eq!(
        specific(&plan),
        vec!["/proj/pages/a.tsx", "/proj/pages/b.tsx", "/proj/pages/c.tsx"]
    );
}

#[test]
fn non_watched_sibling_content_tick_stays_fan_out_safe() {
    let plan = World::watching(&["/proj/content/watched.md"])
        .tick(&[("/proj/content/sibling.md", ChangeKind::Modified)])
        .expect("a Modified-only content tick must produce a plan");
    assert_eq!(hint(&plan), (strings(&["/proj/content/sibling.md"]), true));
}

#[test]
fn mixed_tick_with_module_trigger_is_not_fan_out_safe() {
    let plan = World::new()
        .tick(&[
            ("/proj/content/post.md", ChangeKind::Modified),
            ("/proj/components/Header.tsx", ChangeKind::Modified),
        ])
        .unwrap();
    assert_eq!(hint(&plan), (strings(&["/proj/content/post.md"]), false));
}

#[test]
fn spurious_created_on_known_content_normalizes_to_modified() {
    let plan = World::new()
        .tick(&[("/proj/content/post.md", ChangeKind::Created)])
        .unwrap();
    assert_eq!(hint(&plan), (strings(&["/proj/content/post.md"]), true));
}

#[test]
fn edge_less_known_boot_entry_created_normalizes_to_modified() {
    let plan = World::knowing(&["/proj/content/other.md"])
        .tick(&[("/proj/content/other.md", ChangeKind::Created)])
        .unwrap();
    assert_eq!(hint(&plan), (strings(&["/proj/content/other.md"]), true));
}

#[test]
fn genuinely_new_entry_absent_from_registry_stays_created() {
    let plan = World::knowing(&["/proj/content/other.md"])
        .tick(&[("/proj/content/brand-new.md", ChangeKind::Created)])
        .unwrap();
    assert!(!hint(&plan).1);
}

#[test]
fn removed_entry_is_purged_so_a_later_recreate_still_discovers() {
    let entry = "/proj/content/other.md";
    let mut world = World::knowing(&[entry]);
    assert!(world.known_content.contains(&entry.to_string()));
    world.tick(&[(entry, ChangeKind::Removed)]);
    assert!(!world.known_content.contains(&entry.to_string()));
    let plan = world.tick(&[(entry, ChangeKind::Created)]).unwrap();
    assert!(!hint(&plan).1);
}

#[test]
fn removed_directory_purges_descendants_before_normalizing_same_tick() {
    let child = "/proj/content/nested/x.md";
    let mut world = World::knowing(&[child]);
    let plan = world
        .tick(&[
            ("/proj/content/nested", ChangeKind::Removed),
            (child, ChangeKind::Created),
        ])
        .unwrap();
    assert!(!world.known_content.contains(&child.to_string()));
    assert!(!hint(&plan).1);
}

#[test]
fn unknown_created_file_is_not_fan_out_safe() {
    let plan = World::new()
        .tick(&[
            ("/proj/content/other.md", ChangeKind::Created),
            ("/proj/content/post.md", ChangeKind::Modified),
        ])
        .unwrap();
    let (changed, fan_out_safe) = hint(&plan);
    assert!(!fan_out_safe);
    assert!(changed.contains(&"/proj/content/other.md".to_string()));
    assert!(changed.contains(&"/proj/content/post.md".to_string()));
}

#[test]
fn removed_content_excluded_from_lazy_basis() {
    let plan = World::new()
        .tick(&[
            ("/proj/content/post.md", ChangeKind::Modified),
            ("/proj/content/other.md", ChangeKind::Removed),
        ])
        .unwrap();
    let (changed, fan_out_safe) = hint(&plan);
    assert!(!fan_out_safe);
    assert!(changed.contains(&"/proj/content/post.md".to_string()));
    assert!(!changed.contains(&"/proj/content/other.md".to_string()));
}

#[test]
fn initial_build_on_empty_graph_is_noop() {
    let orch = BuildOrchestrator::new(OrchestratorConfig::new("/proj", strings(&["pages"])));
    assert!(orch.initial_build(&Vec::new()).is_none());
}

#[test]
fn client_script_edit_under_pages_sets_rerun_client_scripts() {
    let plan = World::new().plan(&["/proj/pages/analytics.client.ts"]);
    assert!(plan.rerun_client_scripts);
    assert!(!plan.rerun_islands);
}

#[test]
fn removed_client_script_under_pages_sets_rerun_client_scripts() {
    let plan = World::new()
        .tick(&[("/proj/pages/analytics.client.ts", ChangeKind::Removed)])
        .unwrap();
    assert!(plan.rerun_client_scripts);
}

#[test]
fn client_script_edit_under_components_sets_rerun_client_scripts() {
    let plan = World::new().plan(&["/proj/components/search-widget.client.ts"]);
    assert!(plan.rerun_client_scripts);
    assert!(plan.rerun_islands);
}

#[test]
fn client_script_edit_under_src_sets_rerun_client_scripts() {
    let plan = World::new().plan(&["/proj/src/my-lib.client.ts"]);
    assert!(plan.rerun_client_scripts);
    assert!(plan.rerun_islands);
}

#[test]
fn regular_tsx_edit_under_pages_does_not_set_rerun_client_scripts() {
    let plan = World::new().plan(&["/proj/pages/index.tsx"]);
    assert!(!plan.rerun_client_scripts);
}

#[test]
fn original_raw_target_edit_reruns_islands_and_client_scripts() {
    let target = "/proj/data/noise.frag";
    let mut world = World::new();
    world.islands = strings(&[target]);
    world.client_scripts = strings(&[target]);
    let plan = world.plan(&[target]);
    assert!(plan.rerun_islands);
    assert!(plan.rerun_client_scripts);

    world.islands.clear();
    world.client_scripts.clear();
    let plan = world.plan(&[target]);
    assert!(!plan.rerun_islands);
    assert!(!plan.rerun_client_scripts);
}

#[test]
fn client_raw_dependency_planning_survives_delete_recreate_and_replaces_stale_targets() {
    let payload = "/root/lib/client-payload.txt";
    let next_payload = "/root/lib/next-client-payload.txt";
    let mut world = World::rooted("/root");
    world.client_scripts = strings(&[payload]);

    let edited = world.tick(&[(payload, ChangeKind::Modified)]).unwrap();
    assert!(edited.rerun_client_scripts);
    assert!(!edited.rerun_islands);

    let deleted = world.tick(&[(payload, ChangeKind::Removed)]).unwrap();
    assert!(deleted.rerun_client_scripts);
    assert!(!deleted.rerun_islands);

    let recreated = world.plan(&[payload]);
    assert!(recreated.rerun_client_scripts);
    assert!(!recreated.rerun_islands);
    world.client_scripts = strings(&[next_payload]);
    let stale_tick = world.plan(&[payload]);
    assert!(!stale_tick.rerun_client_scripts);
    let next_tick = world.plan(&[next_payload]);
    assert!(next_tick.rerun_client_scripts);
    assert!(!next_tick.rerun_islands);
}

#[test]
fn client_script_worker_dependency_replacement_stops_stale_pipeline_planning() {
    let old_helper = "/proj/lib/old-worker-helper.ts";
    let next_helper = "/proj/lib/next-worker-helper.ts";
    let mut world = World::new();
    world.workers = strings(&[old_helper]);
    let first_tick = world.plan(&[old_helper]);
    assert!(first_tick.rerun_client_scripts);
    assert!(!first_tick.rerun_islands);

    world.workers = strings(&[next_helper]);
    let stale_tick = world.plan(&[old_helper]);
    assert!(!stale_tick.rerun_client_scripts);
    assert!(world.plan(&[next_helper]).rerun_client_scripts);
}

#[test]
fn client_script_sibling_dependency_replacement_stops_stale_pipeline_planning() {
    let old_sibling = "/workspace/lib/shared/plain.ts";
    let next_sibling = "/workspace/lib/shared/next-plain.ts";
    let mut world = World::new();
    world.siblings = strings(&[old_sibling]);
    let first_tick = world.plan(&[old_sibling]);
    assert!(first_tick.rerun_client_scripts);
    assert!(!first_tick.rerun_islands);

    world.siblings = strings(&[next_sibling]);
    let stale_tick = world.plan(&[old_sibling]);
    assert!(!stale_tick.rerun_client_scripts);
    assert!(world.plan(&[next_sibling]).rerun_client_scripts);
}

#[test]
fn client_script_sibling_dependency_deletion_reruns_client_scripts_and_clears_stale_ownership() {
    let sibling = "/root/lib/shared/plain.ts";
    let next_sibling = "/root/lib/shared/next-plain.ts";
    let mut world = World::rooted("/root");
    world.siblings = strings(&[sibling]);

    let edited = world.tick(&[(sibling, ChangeKind::Modified)]).unwrap();
    assert!(edited.rerun_client_scripts);
    assert!(!edited.rerun_islands);

    let deleted = world.tick(&[(sibling, ChangeKind::Removed)]).unwrap();
    assert!(deleted.rerun_client_scripts);
    assert!(!deleted.rerun_islands);

    world.siblings = strings(&[next_sibling]);
    let stale_tick = world.plan(&[sibling]);
    assert!(!stale_tick.rerun_client_scripts);
    assert!(world.plan(&[next_sibling]).rerun_client_scripts);
}

#[test]
fn live_worker_closure_outside_islands_roots_survives_edit_delete_and_next_generation() {
    let worker = "/root/pages/workers/search.worker.ts";
    let helper = "/root/lib/tokenize.ts";
    let raw = "/root/lib/dictionary.txt";
    let css = "/root/lib/worker.css";
    let next = "/root/lib/stemmer.ts";
    let mut world = World::rooted("/root");
    world.islands = strings(&[worker, helper, raw, css]);

    let edited = world.tick(&[(helper, ChangeKind::Modified)]).unwrap();
    assert!(edited.rerun_islands);
    let deleted = world.tick(&[(helper, ChangeKind::Removed)]).unwrap();
    assert!(deleted.rerun_islands);

    world.islands = strings(&[worker, helper, css, next]);
    assert!(world.plan(&[helper]).rerun_islands);
    assert!(world.plan(&[next]).rerun_islands);
    assert!(!world.plan(&[raw]).rerun_islands);
}

#[test]
fn sibling_mirror_root_mdx_edit_reruns_css() {
    let world = World::mirroring();
    let mdx = "/ws/lib/ushared/notes.mdx";
    assert!(world.facts(mdx).css_mirror.is_some());
    assert_eq!(world.class(mdx), PathClass::Content);
    let plan = world.plan(&[mdx]);
    assert!(plan.rerun_css);
    assert!(plan.pages.is_all());
}

#[test]
fn in_root_content_edit_outside_mirror_roots_does_not_rerun_css() {
    let world = World::mirroring();
    let mdx = "/ws/sub-packages/host/content/post.mdx";
    assert!(world.facts(mdx).css_mirror.is_none());
    assert!(!world.plan(&[mdx]).rerun_css);
}

#[test]
fn degenerate_project_containing_mirror_root_does_not_rerun_css() {
    let mut world = World::mirroring();
    world.mirror_roots = strings(&["/ws/sub-packages"]);
    let mdx = "/ws/sub-packages/host/content/post.mdx";
    assert!(world.facts(mdx).css_mirror.is_some());
    assert!(!world.plan(&[mdx]).rerun_css);
}

#[test]
fn mirror_root_infra_dir_event_does_not_rerun_css() {
    let world = World::mirroring();
    assert!(!world.plan(&["/ws/lib/ushared/dist/generated.mdx"]).rerun_css);
    assert!(!world.plan(&["/ws/lib/ushared/pkg/node_modules/dep/readme.md"]).rerun_css);
    assert!(world.plan(&["/ws/lib/ushared/docs/notes.mdx"]).rerun_css);
}

#[test]
fn sibling_mirror_root_mdx_removal_reruns_css() {
    let plan = World::mirroring()
        .tick(&[("/ws/lib/ushared/notes.mdx", ChangeKind::Removed)])
        .unwrap();
    assert!(plan.rerun_css);
}

#[test]
fn sibling_mirror_root_module_removal_reruns_css() {
    let mut world = World::mirroring();
    let tsx = "/ws/lib/ushared/Widget.tsx";
    assert_eq!(world.class(tsx), PathClass::Module);
    let plan = world.tick(&[(tsx, ChangeKind::Removed)]).unwrap();
    assert!(plan.rerun_css);
}

#[test]
fn in_root_module_removal_does_not_rerun_css() {
    let mut world = World::mirroring();
    let tsx = "/ws/sub-packages/host/components/Widget.tsx";
    assert_eq!(world.class(tsx), PathClass::Module);
    assert!(world.facts(tsx).css_mirror.is_none());
    let plan = world.tick(&[(tsx, ChangeKind::Removed)]).unwrap();
    assert!(!plan.rerun_css);
}

#[test]
fn mirror_root_infra_dir_module_removal_does_not_rerun_css() {
    let mut world = World::mirroring();
    let tsx = "/ws/lib/ushared/dist/Generated.tsx";
    assert_eq!(world.class(tsx), PathClass::Module);
    assert!(world.facts(tsx).css_mirror.is_some());
    let plan = world.tick(&[(tsx, ChangeKind::Removed)]).unwrap();
    assert!(!plan.rerun_css);
}

#[test]
fn sibling_mirror_root_data_file_reruns_css() {
    let world = World::mirroring();
    assert_eq!(world.class("/ws/lib/ushared/tokens.json"), PathClass::Data);
    assert!(world.plan(&["/ws/lib/ushared/tokens.json"]).rerun_css);
    assert!(!world.plan(&["/ws/sub-packages/host/content/tokens.json"]).rerun_css);
}

#[test]
fn sibling_mirror_root_external_file_reruns_css() {
    let world = World::mirroring();
    assert_eq!(world.class("/ws/lib/ushared/widget.vue"), PathClass::External);
    assert!(world.plan(&["/ws/lib/ushared/widget.vue"]).rerun_css);
    assert!(!world.plan(&["/ws/elsewhere/widget.vue"]).rerun_css);
}

#[test]
fn hook_narrowed_mirror_root_mdx_still_reruns_css() {
    let mut world = World::mirroring();
    world.hook = Some(Box::new(|_: &str| Some(vec![pid("/proj/pages/a.tsx")])));
    let plan = world.plan(&["/ws/lib/ushared/notes.mdx"]);
    assert!(plan.rerun_css);
    assert!(!plan.pages.is_all());
}

#[test]
fn external_hook_narrowing_client_script_sibling_still_reruns_client_scripts() {
    let sibling = "/srv/shared/lib/plain.ts";
    let mut world = narrowing_to_a();
    world.siblings = strings(&[sibling]);
    let plan = world.plan(&[sibling]);
    assert_eq!(specific(&plan), vec!["/proj/pages/a.tsx"]);
    assert!(plan.rerun_client_scripts);
    assert!(!plan.rerun_islands);
}

#[test]
fn pre_tick_refresh_applies_only_for_registered_plugin_watch_paths() {
    let watched = "/ext/data/watched.json";
    let unrelated = "/proj/pages/index.tsx";
    for kind in [ChangeKind::Created, ChangeKind::Modified, ChangeKind::Removed] {
        assert!(pre_tick_refresh_applies(&vec![intake(watched, kind, true)]));
    }
    assert!(pre_tick_refresh_applies(&vec![
        a_change(unrelated),
        intake(watched, ChangeKind::Modified, true),
    ]));
    assert!(!pre_tick_refresh_applies(&vec![a_change(unrelated)]));
    assert!(!pre_tick_refresh_applies(&vec![a_change(watched)]));
}

#[test]
fn plugin_watch_file_change_reruns_all_virtual_module_consumers() {
    let world = World::watching(&["/ext/data/watched.json", "/proj/public/blob.bin"]);
    let plan = world.plan(&["/ext/data/watched.json"]);
    assert!(plan.pages.is_all());
    assert!(plan.ssr_reload_needed);
    assert!(plan.rerun_islands);
    assert!(plan.rerun_client_scripts);
    assert!(plan.rerun_css);

    let plan = world.plan(&["/proj/public/blob.bin"]);
    assert!(!plan.is_noop());
    assert!(plan.rerun_islands && plan.rerun_client_scripts && plan.rerun_css);
    assert!(plan.ssr_reload_needed);

    let plan = world.plan(&["/proj/public/other.bin"]);
    assert!(plan.is_noop());
}

#[test]
fn plugin_watch_file_change_invalidates_prerendered_pages() {
    let watched = "/proj/plugin-watched/note.txt";
    let world = World::watching(&[watched]);
    assert!(world.readers(watched).is_empty());
    let plan = world.plan(&[watched]);
    assert!(plan.pages.is_all());
    assert!(plan.rerun_islands && plan.rerun_client_scripts && plan.rerun_css);
    assert!(plan.ssr_reload_needed);

    let plan = world.plan(&["/proj/plugin-watched/other.txt"]);
    assert!(plan.is_noop());
    assert!(!plan.pages.is_all());
}

#[test]
fn plugin_watch_target_invalidation_survives_external_hook_narrowing() {
    let watched = "/srv/plugin-watched/note.txt";
    let mut world = narrowing_to_a();
    world.plugin_files = strings(&[watched]);
    let plan = world.plan(&[watched]);
    assert!(plan.pages.is_all());
    assert!(plan.rerun_islands && plan.rerun_client_scripts && plan.rerun_css);
    assert!(plan.ssr_reload_needed);

    let plan = world.plan(&["/srv/shared/styles/theme.css"]);
    assert_eq!(specific(&plan), vec!["/proj/pages/a.tsx"]);
}

#[test]
fn removed_plugin_watch_file_reruns_consumers_and_invalidates_pages() {
    let watched = "/proj/plugin-watched/note.txt";
    let plan = World::watching(&[watched])
        .tick(&[(watched, ChangeKind::Removed)])
        .expect("a removed plugin watch file must produce a plan");
    assert!(plan.rerun_islands);
    assert!(plan.rerun_client_scripts);
    assert!(plan.rerun_css);
    assert!(plan.ssr_reload_needed);
    assert_eq!(
        specific(&plan),
        vec!["/proj/pages/a.tsx", "/proj/pages/b.tsx", "/proj/pages/c.tsx"]
    );
}

#[test]
fn plugin_watch_set_is_static_across_removed_ticks() {
    let watched = "/proj/data/watched.json";
    let mut world = World::watching(&[watched]);
    world.tick(&[(watched, ChangeKind::Removed)]);
    let facts = world.facts(watched);
    assert!(facts.plugin_watch_target);
    assert!(pre_tick_refresh_applies(&vec![intake(
        watched,
        ChangeKind::Created,
        facts.plugin_watch_target,
    )]));
}

fn is_temp_entry(path: &str) -> bool {
    let name = Path::new(path).file_name().and_then(|n| n.to_str());
    name.is_some_and(|n| n.starts_with("zfb-tailwind-entry-") && n.ends_with(".css"))
}

fn suppressible(path: &str, kind: ChangeKind) -> Intake {
    Intake {
        change: change(path, kind),
        suppressed: is_temp_entry(path),
        plugin_watch_target: false,
    }
}

fn kept(batch: Vec<Intake>) -> Vec<(String, ChangeKind)> {
    retain_unsuppressed_changes(batch)
        .into_iter()
        .map(|i| (i.change.path, i.change.kind))
        .collect()
}

#[test]
fn intake_suppression_mixed_batch_drops_temp_entries_and_keeps_the_real_css_change() {
    let batch = vec![
        suppressible("/proj/styles/zfb-tailwind-entry-a1B2c3.css", ChangeKind::Created),
        suppressible("/proj/styles/zfb-tailwind-entry-a1B2c3.css", ChangeKind::Modified),
        suppressible("/proj/styles/zfb-tailwind-entry-d4E5f6.css", ChangeKind::Removed),
        suppressible("/proj/styles/main.css", ChangeKind::Modified),
    ];
    let filtered = kept(batch);
    assert_eq!(
        filtered,
        vec![("/proj/styles/main.css".to_string(), ChangeKind::Modified)]
    );
    let plan = World::new().plan(&[filtered[0].0.as_str()]);
    assert!(plan.rerun_css);
}

#[test]
fn intake_suppression_all_temp_batch_filters_to_empty() {
    let filtered = kept(vec![
        suppressible("/proj/styles/zfb-tailwind-entry-a1B2c3.css", ChangeKind::Created),
        suppressible("/proj/styles/zfb-tailwind-entry-a1B2c3.css", ChangeKind::Modified),
        suppressible("/proj/styles/zfb-tailwind-entry-a1B2c3.css", ChangeKind::Removed),
    ]);
    assert!(filtered.is_empty());
}

#[test]
fn intake_suppression_absent_is_identity() {
    let batch = vec![
        intake("/proj/styles/zfb-tailwind-entry-a1B2c3.css", ChangeKind::Created, false),
        intake("/proj/styles/main.css", ChangeKind::Modified, false),
    ];
    assert_eq!(
        kept(batch),
        vec![
            ("/proj/styles/zfb-tailwind-entry-a1B2c3.css".to_string(), ChangeKind::Created),
            ("/proj/styles/main.css".to_string(), ChangeKind::Modified),
        ]
    );
}

#[test]
fn a_global_change_is_planned_with_everything_that_came_with_it() {
    let plan = World::new().plan(&["/proj/styles/main.css", "/proj/zfb.config.ts"]);
    assert!(plan.pages.is_all());
    assert!(plan.rerun_css && plan.rerun_islands && plan.rerun_client_scripts);
    assert!(plan.ssr_reload_needed);
}

#[test]
fn discovery_adds_pages_and_prunes_what_vanished() {
    let mut world = World::new();
    let path = "/proj/pages/new.tsx";
    world.pages.push(path.to_string());
    let tick = TickIntake::new(vec![change(path, ChangeKind::Created)]).normalize(&vec![
        CreatedFacts { known_entry: false, has_consumers: false, class: PathClass::Page },
    ]);
    assert_eq!(tick.discovery_request(true), Some(strings(&[path])));
    assert_eq!(tick.discovery_request(false), None);
    let answers = TickAnswers {
        planned: vec![world.facts(path)],
        removed: Vec::new(),
        removed_consumers: Vec::new(),
        discovered: DiscoveryOutcome {
            pages: vec![pid("/proj/pages/a.tsx")],
            renderer_reloaded: true,
            vanished_output_paths: strings(&["/dist/old/index.html"]),
        },
    };
    let plan = world
        .orch
        .tick_with_kinds(&tick, &answers, &world.all_pages())
        .unwrap();
    assert_eq!(specific(&plan), vec!["/proj/pages/a.tsx", "/proj/pages/new.tsx"]);
    assert!(plan.renderer_fresh);
    assert_eq!(plan.prune_paths, vec!["/dist/old/index.html"]);
}

#[test]
fn a_removed_file_renders_its_readers() {
    let plan = World::new()
        .tick(&[("/proj/components/Header.tsx", ChangeKind::Removed)])
        .unwrap();
    assert_eq!(specific(&plan), vec!["/proj/pages/a.tsx", "/proj/pages/b.tsx"]);
}

#[test]
fn a_plain_tick_resolves_every_page() {
    let world = World::new();
    let facts = vec![world.facts("/srv/shared/Makefile")];
    let plan = world.orch.tick(&facts, &world.all_pages()).unwrap();
    assert_eq!(
        specific(&plan),
        vec!["/proj/pages/a.tsx", "/proj/pages/b.tsx", "/proj/pages/c.tsx"]
    );
    let quiet = vec![world.facts("/proj/some-random-thing")];
    assert!(world.orch.tick(&quiet, &world.all_pages()).is_none());
}

#[test]
fn a_mirror_root_may_contain_the_project_under_another_name() {
    let mut world = World::mirroring();
    world.orch = BuildOrchestrator::new(
        OrchestratorConfig::new("/ws/sub-packages/host", strings(&["pages"]))
            .with_project_aliases(strings(&["/ws/sub-packages/host", "/ws/lib/ushared/host"]))
            .with_extra_watch_paths(strings(&["/ext/data"])),
    );
    assert_eq!(world.orch.config().extra_watch_paths, vec!["/ext/data"]);
    assert!(!world.plan(&["/ws/lib/ushared/notes.mdx"]).rerun_css);
}

#[test]
fn a_removed_global_file_rebuilds_everything() {
    let plan = World::new()
        .tick(&[("/proj/zfb.config.ts", ChangeKind::Removed)])
        .unwrap();
    assert!(plan.rerun_css && plan.rerun_islands && plan.rerun_client_scripts);
    assert!(plan.ssr_reload_needed);
    assert_eq!(
        specific(&plan),
        vec!["/proj/pages/a.tsx", "/proj/pages/b.tsx", "/proj/pages/c.tsx"]
    );
}

#[test]
fn a_removed_plugin_file_rebuilds_everything() {
    let plan = World::watching(&["/proj/data/virtual.yaml"])
        .tick(&[("/proj/data/virtual.yaml", ChangeKind::Removed)])
        .unwrap();
    assert!(plan.rerun_css && plan.rerun_islands && plan.rerun_client_scripts);
    assert!(plan.ssr_reload_needed);
    assert_eq!(specific(&plan).len(), 3);
}

#[test]
fn changes_planned_together_ask_for_what_they_ask_for_apart() {
    let world = World::hooked(|path| {
        (path == "/elsewhere/shared.yaml").then_some(vec![pid("/proj/pages/b.tsx")])
    });
    let changes = [
        "/proj/pages/a.tsx",
        "/proj/styles/global.css",
        "/elsewhere/shared.yaml",
        "/proj/components/Header.tsx",
        "/proj/public/logo.png",
        "/proj/content/post.md",
    ];
    for cut in 0..=changes.len() {
        let together = world.plan(&changes);
        let first = world.plan(&changes[..cut]);
        let second = world.plan(&changes[cut..]);
        let mut pages = specific(&first);
        pages.extend(specific(&second));
        pages.sort();
        pages.dedup();
        assert_eq!(specific(&together), pages);
        assert_eq!(together.rerun_css, first.rerun_css || second.rerun_css);
        assert_eq!(together.rerun_islands, first.rerun_islands || second.rerun_islands);
        assert_eq!(
            together.rerun_client_scripts,
            first.rerun_client_scripts || second.rerun_client_scripts
        );
        assert_eq!(
            together.ssr_reload_needed,
            first.ssr_reload_needed || second.ssr_reload_needed
        );
        assert_eq!(together.triggers, [first.triggers, second.triggers].concat());
    }
}

#[test]
fn a_tick_asks_in_order() {
    let mut world = World::knowing(&["/proj/content/old/a.md"]);
    let found = DiscoveryOutcome {
        pages: vec![pid("/proj/pages/new.tsx")],
        renderer_reloaded: true,
        vanished_output_paths: strings(&["/dist/old.html"]),
    };
    let (run, log) = world.run(
        &[
            ("/proj/content/old", ChangeKind::Removed),
            ("/proj/content/old/a.md", ChangeKind::Created),
            ("/proj/pages/a.tsx", ChangeKind::Modified),
        ],
        Some(Ok(found)),
    );
    assert_eq!(
        log,
        strings(&[
            "purge [\"/proj/content/old\"]",
            "inspect",
            "detach [\"/proj/content/old\"]",
            "discover [\"/proj/content/old/a.md\"]",
            "facts",
            "pages",
        ])
    );
    let plan = run.unwrap().into_plan().unwrap();
    assert!(plan.renderer_fresh);
    assert_eq!(plan.prune_paths, strings(&["/dist/old.html"]));
}

#[test]
fn a_tick_asks_for_no_more_than_it_needs() {
    let mut world = World::new();
    let (run, log) = world.run(&[("/proj/pages/a.tsx", ChangeKind::Modified)], None);
    assert_eq!(log, strings(&["inspect", "facts", "pages"]));
    assert_eq!(specific(&run.unwrap().into_plan().unwrap()), strings(&["/proj/pages/a.tsx"]));
}

#[test]
fn an_error_of_discovery_ends_the_tick() {
    let mut world = World::new();
    let (run, log) = world.run(
        &[("/proj/content/new.md", ChangeKind::Created)],
        Some(Err("no bundle".to_string())),
    );
    assert_eq!(run.unwrap_err(), "no bundle");
    assert_eq!(log, strings(&["inspect", "discover [\"/proj/content/new.md\"]"]));
}

#[test]
fn in_place_edits_are_planned_alike_with_kinds_and_without() {
    let mut world = World::new();
    let paths = ["/proj/content/post.md", "/proj/components/Header.tsx"];
    let facts = paths.iter().map(|p| world.facts(p)).collect();
    let by_path = world.orch.tick(&facts, &world.all_pages()).unwrap();
    let by_kind = world
        .tick(&paths.map(|path| (path, ChangeKind::Modified)))
        .unwrap();
    assert_eq!(specific(&by_kind), specific(&by_path));
    assert_eq!(by_kind.rerun_css, by_path.rerun_css);
    assert_eq!(by_kind.rerun_islands, by_path.rerun_islands);
    assert_eq!(by_kind.ssr_reload_needed, by_path.ssr_reload_needed);
    assert_eq!(by_kind.triggers, by_path.triggers);
    assert!(by_kind.content_narrowing.is_some() && by_path.content_narrowing.is_none());
}

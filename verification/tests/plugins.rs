use zfb_build::plugin_bundler::{
    bundle_error_text, bundle_plugin_entry, needs_bundling, remap_default_slot_not_found,
    sweep_considers, sweep_removes, BundleAction, BundleAnswer, BundleError, PluginBundling,
    RunEnd, SpawnEnd, StagedPluginBundle, SweepCandidate, PLUGIN_BUNDLE_TEMP_PREFIX,
    PLUGIN_BUNDLE_TEMP_STALE_AFTER, PLUGIN_BUNDLE_TEMP_SUFFIX,
};
use zfb_build::plugin_refresh::{
    PluginRefreshOutcome, PluginRefreshState, PluginVirtualModuleStore, PluginWatchOwnership,
    VirtualLoaderId, VirtualModuleEntry,
};

fn pair(a: &str, b: &str) -> (String, String) {
    (a.to_string(), b.to_string())
}

#[test]
fn store_seed_snapshot_and_publish_roundtrip() {
    let mut store = PluginVirtualModuleStore::seeded(vec![
        pair("virtual:a", "v1"),
        pair("virtual:b", "v1"),
    ]);
    assert_eq!(store.get("virtual:a").as_deref(), Some("v1"));
    assert_eq!(
        store.snapshot_pairs(),
        vec![pair("virtual:a", "v1"), pair("virtual:b", "v1")]
    );

    store.publish(vec![pair("virtual:a", "v2")]);
    assert_eq!(store.get("virtual:a").as_deref(), Some("v2"));
    assert_eq!(store.get("virtual:b").as_deref(), Some("v1"));
    assert_eq!(
        store.snapshot().get("virtual:a").map(String::as_str),
        Some("v2")
    );
}

#[test]
fn default_store_is_empty() {
    let store = PluginVirtualModuleStore::default();
    assert!(store.snapshot().is_empty());
    assert_eq!(store.get("virtual:anything"), None);
}

#[test]
fn needs_bundling_matches_ts_family_extensions() {
    for ext in ["ts", "tsx", "mts", "cts"] {
        assert!(
            needs_bundling(&format!("file:///project/plugins/index.{ext}")),
            "expected .{ext} to need bundling"
        );
    }
}

#[test]
fn needs_bundling_rejects_non_ts_extensions_and_bare_paths() {
    for ext in ["js", "mjs", "cjs", "json"] {
        assert!(
            !needs_bundling(&format!("file:///project/plugins/index.{ext}")),
            ".{ext} must not need bundling"
        );
    }
    assert!(!needs_bundling("file:///project/plugins/index"));
}

#[test]
fn needs_bundling_is_case_sensitive() {
    assert!(!needs_bundling("file:///project/plugins/index.TS"));
    assert!(!needs_bundling("file:///project/plugins/index.Tsx"));
}

#[test]
fn needs_bundling_works_without_a_file_scheme_prefix() {
    assert!(needs_bundling("/project/plugins/index.ts"));
    assert!(!needs_bundling("/project/plugins/index.js"));
}

#[test]
fn needs_bundling_goes_by_the_end_of_the_url() {
    assert!(needs_bundling("file:///project/plugins/.ts"));
    assert!(!needs_bundling("file:///project/plugins/foo.ts/"));
    assert!(!needs_bundling("file:///project/plugins/foots"));
    assert!(!needs_bundling(""));
}

fn registry_with(entries: Vec<(&str, &str, Vec<&str>)>) -> Vec<VirtualModuleEntry> {
    entries
        .into_iter()
        .map(|(specifier, plugin, files)| VirtualModuleEntry {
            specifier: specifier.to_string(),
            plugin: plugin.to_string(),
            loader_id: VirtualLoaderId(format!("loader:{specifier}")),
            watch_files: files.into_iter().map(|f| vec![f.to_string()]).collect(),
        })
        .collect()
}

fn paths(list: &[&str]) -> Vec<Vec<String>> {
    list.iter().map(|p| vec![p.to_string()]).collect()
}

#[test]
fn ownership_map_is_empty_when_no_loader_declares_watch_files() {
    let registry = registry_with(vec![("virtual:a", "p", vec![])]);
    let ownership = PluginWatchOwnership::from_registry(&registry);
    assert!(ownership.is_empty());
    assert!(ownership.watched_paths().is_empty());
    assert!(ownership
        .affected(&paths(&["/proj/data/whatever.json"]))
        .is_empty());
}

#[test]
fn one_loader_many_files_both_paths_resolve_to_the_same_specifier() {
    let a = "/proj/data/a.json";
    let b = "/proj/data/b.json";
    let registry = registry_with(vec![("virtual:data", "p", vec![a, b])]);
    let ownership = PluginWatchOwnership::from_registry(&registry);
    assert_eq!(ownership.watched_paths().len(), 2);

    let via_a = ownership.affected(&paths(&[a]));
    assert_eq!(via_a.len(), 1);
    assert_eq!(via_a[0].0, "virtual:data");

    let via_b = ownership.affected(&paths(&[b]));
    assert_eq!(via_b.len(), 1);
    assert_eq!(via_b[0].0, "virtual:data");

    let via_both = ownership.affected(&paths(&[a, b]));
    assert_eq!(via_both.len(), 1);
    assert_eq!(via_both[0].0, "virtual:data");
}

#[test]
fn overlapping_declarations_two_loaders_one_file_both_affected() {
    let shared = "/proj/data/shared.json";
    let registry = registry_with(vec![
        ("virtual:a", "plugin-a", vec![shared]),
        ("virtual:b", "plugin-b", vec![shared]),
    ]);
    let ownership = PluginWatchOwnership::from_registry(&registry);
    assert_eq!(ownership.watched_paths(), vec![shared.to_string()]);

    let affected = ownership.affected(&paths(&[shared]));
    let specifiers: Vec<&str> = affected.iter().map(|(s, _)| s.as_str()).collect();
    assert_eq!(specifiers, vec!["virtual:a", "virtual:b"]);
    assert_eq!(affected[1].1 .0, "loader:virtual:b");
}

#[test]
fn affected_ignores_unrelated_changed_paths() {
    let registry = registry_with(vec![("virtual:a", "p", vec!["/proj/data/watched.json"])]);
    let ownership = PluginWatchOwnership::from_registry(&registry);
    assert!(ownership
        .affected(&paths(&["/proj/pages/index.tsx"]))
        .is_empty());
    assert_eq!(
        ownership
            .affected(&paths(&["/proj/data/watched.json"]))
            .len(),
        1
    );
}

#[test]
fn a_file_is_watched_under_all_of_its_paths() {
    let registry = vec![VirtualModuleEntry {
        specifier: "virtual:a".to_string(),
        plugin: "p".to_string(),
        loader_id: VirtualLoaderId("l".to_string()),
        watch_files: vec![vec![
            "/var/data.json".to_string(),
            "/private/var/data.json".to_string(),
        ]],
    }];
    let ownership = PluginWatchOwnership::from_registry(&registry);
    assert_eq!(
        ownership.watched_paths(),
        vec!["/private/var/data.json", "/var/data.json"]
    );
    assert_eq!(ownership.affected(&paths(&["/var//data.json"])).len(), 1);
    let both = vec![vec![
        "/private/var/data.json".to_string(),
        "/var/data.json".to_string(),
    ]];
    assert_eq!(ownership.affected(&both).len(), 1);
}

fn state(files: Vec<(&str, &str, Vec<&str>)>, sources: &[(&str, &str)]) -> PluginRefreshState<()> {
    PluginRefreshState::new(
        Some(()),
        PluginWatchOwnership::from_registry(&registry_with(files)),
        PluginVirtualModuleStore::seeded(sources.iter().map(|(a, b)| pair(a, b)).collect()),
    )
}

/// A refresh whose loaders reply as `load` says, with what was loaded.
fn refresh(
    state: &mut PluginRefreshState<()>,
    changed: &[&str],
    load: impl Fn(&str) -> Result<String, String>,
) -> (PluginRefreshOutcome, Vec<String>) {
    let batch = state.begin_refresh(&paths(changed));
    let loaded: Vec<String> = batch.loads().iter().map(|(s, _)| s.clone()).collect();
    let replies = batch.loads().iter().map(|(s, _)| load(s)).collect();
    (state.finish_refresh(batch, replies), loaded)
}

#[test]
fn refresh_is_noop_without_a_host_or_unrelated_paths() {
    let mut state: PluginRefreshState<()> = PluginRefreshState::default();
    let (outcome, loaded) = refresh(&mut state, &["/proj/data/anything.json"], |_| {
        Ok("x".to_string())
    });
    assert!(outcome.is_noop());
    assert!(loaded.is_empty());
    assert!(state.store().snapshot().is_empty());
}

#[test]
fn refresh_publishes_fresh_content() {
    let mut state = state(
        vec![("virtual:data", "watcher", vec!["/t/data.json"])],
        &[("virtual:data", "stale")],
    );
    assert!(state.host().is_some());
    assert_eq!(state.watched_paths(), vec!["/t/data.json"]);
    let (outcome, _) = refresh(&mut state, &["/t/data.json"], |_| Ok("two".to_string()));
    assert_eq!(outcome.refreshed, vec!["virtual:data"]);
    assert!(outcome.failed.is_empty());
    assert!(!outcome.is_noop());
    assert_eq!(state.store().get("virtual:data").as_deref(), Some("two"));

    let (outcome, loaded) = refresh(&mut state, &["/t/unrelated.tsx"], |_| Ok("?".to_string()));
    assert!(outcome.is_noop());
    assert!(loaded.is_empty());
    assert_eq!(state.store().get("virtual:data").as_deref(), Some("two"));
}

#[test]
fn one_failing_loader_blocks_the_batch_and_all_of_it_is_tried_again() {
    let mut state = state(
        vec![
            ("virtual:ok", "w", vec!["/t/ok.json"]),
            ("virtual:bad", "w", vec!["/t/bad.json"]),
        ],
        &[("virtual:ok", "ok-one"), ("virtual:bad", "bad-one")],
    );
    let (outcome, _) = refresh(&mut state, &["/t/ok.json", "/t/bad.json"], |s| {
        if s == "virtual:ok" {
            Ok("ok-two".to_string())
        } else {
            Err("no such file".to_string())
        }
    });
    assert!(outcome.refreshed.is_empty());
    assert_eq!(outcome.failed, vec![pair("virtual:bad", "no such file")]);
    assert_eq!(state.store().get("virtual:ok").as_deref(), Some("ok-one"));

    let (outcome, loaded) = refresh(&mut state, &["/t/bad.json"], |s| Ok(format!("{s} two")));
    assert_eq!(loaded, vec!["virtual:bad", "virtual:ok"]);
    assert_eq!(outcome.refreshed, vec!["virtual:bad", "virtual:ok"]);
    assert_eq!(
        state.store().get("virtual:ok").as_deref(),
        Some("virtual:ok two")
    );

    let (outcome, loaded) = refresh(&mut state, &[], |_| Ok("?".to_string()));
    assert!(outcome.is_noop() && loaded.is_empty());
}

#[test]
fn the_store_lists_its_sources_in_order() {
    let store = PluginVirtualModuleStore::seeded(vec![
        pair("virtual:b", "1"),
        pair("virtual:a", "2"),
        pair("virtual:B", "3"),
        pair("virtual:b", "4"),
        pair("virtual:é", "5"),
    ]);
    assert_eq!(
        store.snapshot_pairs(),
        vec![
            pair("virtual:B", "3"),
            pair("virtual:a", "2"),
            pair("virtual:b", "4"),
            pair("virtual:é", "5")
        ]
    );
}

#[test]
fn tier4_default_slot_failure_is_remapped_to_plugin_scoped_text() {
    let slot = "crates/zfb/binaries/esbuild/esbuild";
    let msg = remap_default_slot_not_found(
        "esbuild binary not found. Evaluating a `zfb.config.ts` needs it".to_string(),
        slot,
    );
    assert!(msg.starts_with(
        "plugin bundling: esbuild binary not found — bundling a \
         `.ts`/`.tsx`/`.mts`/`.cts` plugin entry needs the pinned esbuild."
    ));
    assert!(msg.contains("ZFB_ESBUILD_BIN"), "msg: {msg}");
    assert!(msg.contains(slot), "msg: {msg}");
    assert!(!msg.contains("Evaluating a `zfb.config.ts`"));
}

#[test]
fn tier2_env_failure_passes_through_the_shared_remap_function_unchanged() {
    let given = "ZFB_ESBUILD_BIN=/tmp/not-there does not exist";
    let msg = remap_default_slot_not_found(given.to_string(), "slot");
    assert!(msg.contains("ZFB_ESBUILD_BIN="));
    assert!(!msg.starts_with("plugin bundling: esbuild binary not found —"));
    assert_eq!(msg, given);
}

fn candidate(name: &str, is_file: bool, age_secs: Option<u64>) -> SweepCandidate {
    SweepCandidate {
        name: name.to_string(),
        is_file,
        age_secs,
    }
}

fn staged_name(middle: &str) -> String {
    format!("{PLUGIN_BUNDLE_TEMP_PREFIX}{middle}{PLUGIN_BUNDLE_TEMP_SUFFIX}")
}

#[test]
fn sweep_removes_a_stale_stranded_bundle_file() {
    let c = candidate(
        &staged_name("UErIaE"),
        true,
        Some(PLUGIN_BUNDLE_TEMP_STALE_AFTER + 3600),
    );
    assert!(sweep_considers(&c));
    assert!(sweep_removes(&c, true));
}

#[test]
fn sweep_keeps_a_fresh_bundle_file() {
    let name = staged_name("rN8CIp");
    assert!(!sweep_removes(&candidate(&name, true, Some(0)), true));
    assert!(!sweep_removes(
        &candidate(&name, true, Some(PLUGIN_BUNDLE_TEMP_STALE_AFTER - 1)),
        true
    ));
    assert!(sweep_removes(
        &candidate(&name, true, Some(PLUGIN_BUNDLE_TEMP_STALE_AFTER)),
        true
    ));
    assert!(!sweep_removes(&candidate(&name, true, None), true));
}

#[test]
fn sweep_keeps_a_stale_bundle_file_still_holding_the_shared_lock() {
    let c = candidate(
        &staged_name("owned"),
        true,
        Some(PLUGIN_BUNDLE_TEMP_STALE_AFTER + 3600),
    );
    assert!(!sweep_removes(&c, false));
    assert!(sweep_removes(&c, true));
}

#[test]
fn sweep_leaves_non_matching_files_alone() {
    let old = Some(PLUGIN_BUNDLE_TEMP_STALE_AFTER + 3600);
    for name in [
        "index.ts".to_string(),
        format!("{PLUGIN_BUNDLE_TEMP_PREFIX}abc.txt"),
        format!("some-other-prefix-abc{PLUGIN_BUNDLE_TEMP_SUFFIX}"),
    ] {
        assert!(!sweep_removes(&candidate(&name, true, old), true), "{name}");
    }
    assert!(!sweep_removes(
        &candidate(&staged_name("dir"), false, old),
        true
    ));
}

/// Brings a bundling to the start of the bundler.
fn spawning(entry: &str, staged: &str) -> PluginBundling {
    let mut bundling = bundle_plugin_entry(entry, "my-plugin").unwrap();
    assert!(matches!(bundling.action(), BundleAction::Sweep { dir } if dir == "/proj/plugins"));
    bundling.resume(BundleAnswer::<String>::Swept).unwrap();
    assert!(matches!(bundling.action(), BundleAction::Stage { dir } if dir == "/proj/plugins"));
    bundling
        .resume(BundleAnswer::<String>::Staged(Ok(staged.to_string())))
        .unwrap();
    bundling
}

#[test]
fn the_staging_directory_is_spelled_as_the_entry_spells_it() {
    let mut bundling = bundle_plugin_entry("/proj//plugins/./a.ts", "my-plugin").unwrap();
    assert!(matches!(bundling.action(), BundleAction::Sweep { dir } if dir == "/proj//plugins"));
    bundling.resume(BundleAnswer::<String>::Swept).unwrap();
    assert!(matches!(bundling.action(), BundleAction::Stage { dir } if dir == "/proj//plugins"));
}

#[test]
fn a_bundle_is_staged_beside_its_entry_and_has_a_url() {
    let staged = "/proj/plugins/.zfb-plugin-bundle-é x.mjs";
    let mut bundling = spawning("/proj/plugins/index.ts", staged);
    match bundling.action() {
        BundleAction::Spawn { args } => assert_eq!(
            args,
            vec![
                "/proj/plugins/index.ts",
                "--bundle",
                "--format=esm",
                "--platform=node",
                "--target=node22",
                "--packages=external",
                "--sourcemap=inline",
                "--log-level=warning",
                "--color=false",
                "--banner:js=import { createRequire as __zfbCreateRequire } from \"node:module\"; const require = __zfbCreateRequire(import.meta.url);",
                "--outfile=/proj/plugins/.zfb-plugin-bundle-é x.mjs",
            ]
        ),
        other => panic!("{other:?}"),
    }
    bundling
        .resume(BundleAnswer::<String>::Spawned(SpawnEnd::Running))
        .unwrap();
    assert!(matches!(
        bundling.action(),
        BundleAction::Await { timeout_secs: 300 }
    ));
    bundling
        .resume(BundleAnswer::<String>::Ended(RunEnd::Exited {
            success: true,
            stderr: "a warning".to_string(),
        }))
        .unwrap();
    match bundling.action() {
        BundleAction::Done { staged: path, url } => {
            assert_eq!(path, staged);
            assert_eq!(
                url,
                "file:///proj/plugins/.zfb-plugin-bundle-%C3%A9%20x.mjs"
            );
            let bundle = StagedPluginBundle::new(7u8, path, url);
            assert_eq!(bundle.path(), staged);
            assert!(bundle.file_url().starts_with("file://"));
            assert!(bundle.file_url().ends_with(".mjs"));
            assert_eq!(*bundle.guard(), 7);
        }
        other => panic!("{other:?}"),
    }
}

#[test]
fn spawn_retry_absorbs_transient_etxtbsy_and_then_succeeds() {
    let mut bundling = spawning("/proj/plugins/index.ts", "/proj/plugins/s.mjs");
    for pause in [10, 20] {
        bundling
            .resume(BundleAnswer::Spawned(SpawnEnd::Busy("busy".to_string())))
            .unwrap();
        match bundling.action() {
            BundleAction::Pause { millis } => assert_eq!(millis, pause),
            other => panic!("{other:?}"),
        }
        bundling.resume(BundleAnswer::<String>::Paused).unwrap();
    }
    bundling
        .resume(BundleAnswer::<String>::Spawned(SpawnEnd::Running))
        .unwrap();
    assert!(matches!(bundling.action(), BundleAction::Await { .. }));
}

#[test]
fn spawn_retry_exhausts_its_budget_and_surfaces_the_original_error() {
    let mut bundling = spawning("/proj/plugins/index.ts", "/proj/plugins/s.mjs");
    let mut attempts = 0;
    let error = loop {
        attempts += 1;
        match bundling.resume(BundleAnswer::Spawned(SpawnEnd::Busy(26))) {
            Ok(()) => bundling.resume(BundleAnswer::<i32>::Paused).unwrap(),
            Err(e) => break e,
        }
    };
    assert_eq!(attempts, 6);
    assert!(matches!(error, BundleError::Spawn(26)));
    assert!(matches!(bundling.action(), BundleAction::Failed));
}

#[test]
fn spawn_retry_never_retries_a_non_etxtbsy_failure() {
    let mut bundling = spawning("/proj/plugins/index.ts", "/proj/plugins/s.mjs");
    assert!(matches!(
        bundling.resume(BundleAnswer::Spawned(SpawnEnd::Failed(2))),
        Err(BundleError::Spawn(2))
    ));
}

fn ended(end: RunEnd<String>, staged: &str) -> BundleError<String> {
    let mut bundling = spawning("/proj/plugins/index.ts", staged);
    bundling
        .resume(BundleAnswer::<String>::Spawned(SpawnEnd::Running))
        .unwrap();
    bundling.resume(BundleAnswer::Ended(end)).unwrap_err()
}

#[test]
fn every_bundling_error_has_its_text() {
    let text = |e: &BundleError<String>| {
        bundle_error_text("/proj/plugins/index.ts", "my-plugin", "/proj/plugins", e)
    };
    assert!(bundle_plugin_entry("/", "p").is_none());
    assert!(bundle_plugin_entry("", "p").is_none());
    assert!(bundle_plugin_entry("index.ts", "p").is_some());
    assert_eq!(
        bundle_error_text("/", "my-plugin", "", &BundleError::NoParent),
        "plugin bundling: failed to stage bundle for plugin `my-plugin` in /: entry path has no parent directory"
    );
    let mut bundling = bundle_plugin_entry("/proj/plugins/index.ts", "my-plugin").unwrap();
    bundling.resume(BundleAnswer::<String>::Swept).unwrap();
    let error = bundling
        .resume(BundleAnswer::Staged(Err("read-only".to_string())))
        .unwrap_err();
    assert_eq!(
        text(&error),
        "plugin bundling: failed to stage bundle for plugin `my-plugin` in /proj/plugins: read-only"
    );
    assert_eq!(
        text(&BundleError::Spawn("x".to_string())),
        "plugin bundling: failed to spawn esbuild for plugin `my-plugin`"
    );
    assert_eq!(
        text(&ended(RunEnd::Broken("x".to_string()), "/s.mjs")),
        "plugin bundling: failed to run esbuild for plugin `my-plugin`"
    );
    assert_eq!(
        text(&ended(RunEnd::TimedOut, "/s.mjs")),
        "plugin bundling: esbuild did not exit within 300s while bundling plugin `my-plugin` (/proj/plugins/index.ts) — killed"
    );
    let failed = RunEnd::Exited {
        success: false,
        stderr: "boom".to_string(),
    };
    assert_eq!(
        text(&ended(failed, "/s.mjs")),
        "plugin bundling: esbuild failed for plugin `my-plugin` (/proj/plugins/index.ts):\nboom"
    );
    let done = RunEnd::Exited {
        success: true,
        stderr: String::new(),
    };
    assert_eq!(
        text(&ended(done, "relative.mjs")),
        "plugin bundling: failed to convert staged bundle path relative.mjs to a file:// URL"
    );
}

#[test]
fn file_urls_escape_what_a_path_may_hold() {
    for (path, expected) in [
        ("/", "file:///"),
        ("/a//b/./c", "file:///a/b/c"),
        ("/a/../b", "file:///a/../b"),
        ("/a b#c?d%e", "file:///a%20b%23c%3Fd%25e"),
        ("/\"<>`{}\\|^~:@", "file:///%22%3C%3E%60%7B%7D%5C|^~:@"),
        ("/\u{1}\u{7f}é", "file:///%01%7F%C3%A9"),
    ] {
        let mut bundling = spawning("/proj/plugins/index.ts", path);
        bundling
            .resume(BundleAnswer::<String>::Spawned(SpawnEnd::Running))
            .unwrap();
        bundling
            .resume(BundleAnswer::<String>::Ended(RunEnd::Exited {
                success: true,
                stderr: String::new(),
            }))
            .unwrap();
        match bundling.action() {
            BundleAction::Done { url, .. } => assert_eq!(url, expected),
            other => panic!("{other:?}"),
        }
    }
}

#[test]
fn after_a_failure_the_batch_is_loaded_with_what_is_newly_affected() {
    let mut state = state(
        vec![
            ("virtual:a", "w", vec!["/t/a.json"]),
            ("virtual:b", "w", vec!["/t/b.json"]),
            ("virtual:c", "w", vec!["/t/c.json"]),
            ("virtual:d", "w", vec!["/t/d.json"]),
        ],
        &[],
    );
    let (_, loaded) = refresh(&mut state, &["/t/b.json", "/t/a.json"], |_| Err("no".to_string()));
    assert_eq!(loaded, vec!["virtual:b", "virtual:a"]);
    let (_, loaded) = refresh(&mut state, &["/t/c.json", "/t/b.json"], |_| Err("no".to_string()));
    assert_eq!(loaded, vec!["virtual:c", "virtual:b", "virtual:a"]);
    let (outcome, loaded) = refresh(&mut state, &["/t/x.json"], |s| Ok(s.to_uppercase()));
    assert_eq!(loaded, vec!["virtual:a", "virtual:b", "virtual:c"]);
    assert_eq!(outcome.refreshed, loaded);
    assert_eq!(state.store().get("virtual:c").as_deref(), Some("VIRTUAL:C"));
    let (_, loaded) = refresh(&mut state, &["/t/d.json"], |_| Ok("d".to_string()));
    assert_eq!(loaded, vec!["virtual:d"]);
}

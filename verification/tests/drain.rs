use zfb_build::drain::{
    orch_panic_on_tick_armed, orch_stop_ms_decision, pre_tick_refresh_applies,
    retain_unsuppressed_changes, DrainAction, DrainAnswer, DrainLoop, Intake, TickEnd,
};
use zfb_build::facts::{Change, ChangeKind};
use zfb_build::pipeline::timing::{
    dev_timing_enabled, format_tick_client_scripts_published_line,
    format_tick_islands_published_line, format_tick_page_write_complete_line,
};

#[test]
fn orch_panic_on_tick_armed_unset_is_not_armed() {
    assert!(!orch_panic_on_tick_armed(None));
}

#[test]
fn orch_panic_on_tick_armed_set_invalid_falsy_values_are_not_armed() {
    assert!(!orch_panic_on_tick_armed(Some("")));
    assert!(!orch_panic_on_tick_armed(Some("0")));
    assert!(!orch_panic_on_tick_armed(Some("false")));
    assert!(!orch_panic_on_tick_armed(Some("FALSE")));
    assert!(!orch_panic_on_tick_armed(Some("  ")));
}

#[test]
fn orch_panic_on_tick_armed_set_valid_is_armed() {
    assert!(orch_panic_on_tick_armed(Some("1")));
    assert!(orch_panic_on_tick_armed(Some("true")));
    assert!(orch_panic_on_tick_armed(Some("yes")));
}

#[test]
fn orch_stop_ms_decision_unset_is_none() {
    assert_eq!(orch_stop_ms_decision(None), None);
}

#[test]
fn orch_stop_ms_decision_set_invalid_is_none() {
    assert_eq!(orch_stop_ms_decision(Some("")), None);
    assert_eq!(orch_stop_ms_decision(Some("  ")), None);
    assert_eq!(orch_stop_ms_decision(Some("not-a-number")), None);
    assert_eq!(orch_stop_ms_decision(Some("-5")), None);
    assert_eq!(orch_stop_ms_decision(Some("12.5")), None);
}

#[test]
fn orch_stop_ms_decision_set_valid_parses() {
    assert_eq!(orch_stop_ms_decision(Some("250")), Some(250));
    assert_eq!(orch_stop_ms_decision(Some(" 250 ")), Some(250));
}

#[test]
fn orch_stop_ms_decision_boundary_zero_is_armed() {
    assert_eq!(orch_stop_ms_decision(Some("0")), Some(0));
}

#[test]
fn orch_stop_ms_decision_keeps_to_the_range_of_the_number() {
    assert_eq!(
        orch_stop_ms_decision(Some("18446744073709551615")),
        Some(u64::MAX)
    );
    assert_eq!(orch_stop_ms_decision(Some("18446744073709551616")), None);
    assert_eq!(orch_stop_ms_decision(Some("+7")), Some(7));
    assert_eq!(orch_stop_ms_decision(Some("+")), None);
}

#[test]
fn publication_timing_line_format_is_stable() {
    assert_eq!(
        format_tick_page_write_complete_line(),
        "[zfb-timing] tick: page write complete"
    );
    assert_eq!(
        format_tick_islands_published_line(),
        "[zfb-timing] tick: islands published"
    );
    assert_eq!(
        format_tick_client_scripts_published_line(),
        "[zfb-timing] tick: client scripts published"
    );
}

#[test]
fn dev_timing_needs_one_or_true() {
    assert!(!dev_timing_enabled(None));
    assert!(!dev_timing_enabled(Some("")));
    assert!(!dev_timing_enabled(Some("yes")));
    assert!(!dev_timing_enabled(Some("0")));
    assert!(dev_timing_enabled(Some("1")));
    assert!(dev_timing_enabled(Some(" TRUE\n")));
}

fn intake(path: &str, kind: ChangeKind, suppressed: bool, plugin: bool) -> Intake {
    Intake {
        change: Change {
            path: path.to_string(),
            kind,
        },
        suppressed,
        plugin_watch_target: plugin,
    }
}

#[test]
fn suppression_drops_events_of_every_kind() {
    let kept = retain_unsuppressed_changes(vec![
        intake("/p/.tmp.css", ChangeKind::Created, true, false),
        intake("/p/a.tsx", ChangeKind::Modified, false, false),
        intake("/p/.tmp.css", ChangeKind::Modified, true, false),
        intake("/p/.tmp.css", ChangeKind::Removed, true, false),
        intake("/p/b.tsx", ChangeKind::Removed, false, false),
    ]);
    let paths: Vec<&str> = kept.iter().map(|i| i.change.path.as_str()).collect();
    assert_eq!(paths, vec!["/p/a.tsx", "/p/b.tsx"]);
}

#[test]
fn refresh_applies_where_one_path_is_watched() {
    assert!(!pre_tick_refresh_applies(&vec![]));
    assert!(!pre_tick_refresh_applies(&vec![intake(
        "/p/a",
        ChangeKind::Modified,
        false,
        false
    )]));
    assert!(pre_tick_refresh_applies(&vec![
        intake("/p/a", ChangeKind::Modified, false, false),
        intake("/p/b", ChangeKind::Removed, false, true),
    ]));
}

fn ready(refreshes: bool) -> DrainLoop {
    let mut drain = DrainLoop::start(false, refreshes);
    assert!(matches!(drain.action(), DrainAction::Register));
    drain.resume(DrainAnswer::Registered);
    assert!(matches!(drain.action(), DrainAction::ReadKnobs));
    drain.resume(DrainAnswer::Knobs {
        panic_on_tick: None,
        stop_ms: None,
    });
    assert!(matches!(
        drain.action(),
        DrainAction::Receive { stops_after: None }
    ));
    drain
}

#[test]
fn the_boot_render_is_reported_before_anything_is_received() {
    let mut drain = DrainLoop::start(true, false);
    assert!(matches!(drain.action(), DrainAction::Boot));
    drain.resume(DrainAnswer::Booted(true));
    assert!(matches!(drain.action(), DrainAction::Report));
    drain.resume(DrainAnswer::Reported);
    assert!(matches!(drain.action(), DrainAction::Register));
    drain.resume(DrainAnswer::Registered);
    assert!(matches!(drain.action(), DrainAction::ReadKnobs));
    drain.resume(DrainAnswer::Knobs {
        panic_on_tick: Some("1"),
        stop_ms: Some("0"),
    });
    assert!(matches!(
        drain.action(),
        DrainAction::Receive {
            stops_after: Some(0)
        }
    ));
    drain.resume(DrainAnswer::Received(Some(vec![intake(
        "/p/a",
        ChangeKind::Modified,
        false,
        true,
    )])));
    assert!(matches!(
        drain.action(),
        DrainAction::Tick { panics: true, .. }
    ));
    drain.resume(DrainAnswer::TickPanicked);
    assert!(matches!(drain.action(), DrainAction::Panic));
}

#[test]
fn a_silent_boot_render_is_not_reported() {
    let mut drain = DrainLoop::start(true, false);
    drain.resume(DrainAnswer::Booted(false));
    assert!(matches!(drain.action(), DrainAction::Register));
}

#[test]
fn a_batch_of_suppressed_events_makes_no_tick() {
    let mut drain = ready(true);
    drain.resume(DrainAnswer::Received(Some(vec![intake(
        "/p/.tmp.css",
        ChangeKind::Created,
        true,
        true,
    )])));
    assert!(matches!(drain.action(), DrainAction::Receive { .. }));
}

#[test]
fn plugins_are_refreshed_before_the_tick_even_where_that_fails() {
    let mut drain = ready(true);
    drain.resume(DrainAnswer::Received(Some(vec![
        intake("/p/a.tsx", ChangeKind::Modified, false, false),
        intake("/p/.tmp.css", ChangeKind::Created, true, false),
        intake("/p/data.json", ChangeKind::Removed, false, true),
    ])));
    match drain.action() {
        DrainAction::Refresh { paths } => assert_eq!(paths, vec!["/p/a.tsx", "/p/data.json"]),
        other => panic!("{other:?}"),
    }
    drain.resume(DrainAnswer::Refreshed(false));
    match drain.action() {
        DrainAction::Tick { changes, panics } => {
            assert!(!panics);
            assert_eq!(changes.len(), 2);
            assert_eq!(changes[1].path, "/p/data.json");
            assert_eq!(changes[1].kind, ChangeKind::Removed);
        }
        other => panic!("{other:?}"),
    }
}

#[test]
fn without_a_hook_nothing_is_refreshed() {
    let mut drain = ready(false);
    drain.resume(DrainAnswer::Received(Some(vec![intake(
        "/p/data.json",
        ChangeKind::Modified,
        false,
        true,
    )])));
    assert!(matches!(drain.action(), DrainAction::Tick { .. }));
}

#[test]
fn a_failed_tick_does_not_end_the_loop() {
    for (end, reports) in [
        (TickEnd::Outcome, true),
        (TickEnd::Noop, false),
        (TickEnd::Failed, false),
    ] {
        let mut drain = ready(false);
        drain.resume(DrainAnswer::Received(Some(vec![intake(
            "/p/a",
            ChangeKind::Modified,
            false,
            false,
        )])));
        drain.resume(DrainAnswer::Ticked(end));
        assert!(matches!(drain.action(), DrainAction::Register));
        drain.resume(DrainAnswer::Registered);
        if reports {
            assert!(matches!(drain.action(), DrainAction::Report));
            drain.resume(DrainAnswer::Reported);
        }
        assert!(matches!(drain.action(), DrainAction::Receive { .. }));
        drain.resume(DrainAnswer::Received(None));
        assert!(matches!(drain.action(), DrainAction::Stop));
    }
}

#[test]
fn a_lost_tick_ends_the_loop() {
    let mut drain = ready(false);
    drain.resume(DrainAnswer::Received(Some(vec![intake(
        "/p/a",
        ChangeKind::Modified,
        false,
        false,
    )])));
    drain.resume(DrainAnswer::TickLost);
    assert!(matches!(drain.action(), DrainAction::Fail));
}

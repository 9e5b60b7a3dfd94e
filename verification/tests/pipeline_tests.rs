use workshop_pipeline::detector::{create_downloaded_mod_result, detect_mod_download, is_mod_partially_downloaded, verify_mod_download_complete, DetectorVerdict, DetectorWait};
use workshop_pipeline::installer::{
    FolderSnapshot, InstallAction, InstallError, ModUpdater,
};
use workshop_pipeline::naming::{resolve_suffixed_name, DestFolder};
use workshop_pipeline::orchestrator::{DownloadRun, ItemOutcome};
use workshop_pipeline::scan::parse_steamcmd_output;

fn folder(name: &str, corrupted: bool, package_id: Option<&str>, mod_id: Option<&str>) -> DestFolder {
    DestFolder {
        name: name.to_string(),
        corrupted,
        package_id: package_id.map(|s| s.to_string()),
        mod_id: mod_id.map(|s| s.to_string()),
    }
}

fn complete_snapshot() -> FolderSnapshot {
    FolderSnapshot {
        exists: true,
        is_dir: true,
        has_entries: true,
        has_about_dir: true,
        has_about_xml: true,
    }
}

fn missing_snapshot() -> FolderSnapshot {
    FolderSnapshot {
        exists: false,
        is_dir: false,
        has_entries: false,
        has_about_dir: false,
        has_about_xml: false,
    }
}

fn outcome_id(o: &ItemOutcome) -> String {
    match o {
        ItemOutcome::Success { mod_id } => mod_id.clone(),
        ItemOutcome::Failed { mod_id, .. } => mod_id.clone(),
        ItemOutcome::RetryQueued { mod_id, .. } => mod_id.clone(),
        ItemOutcome::Cancelled { mod_id } => mod_id.clone(),
    }
}

#[test]
fn test_run_both_items_succeed_first_attempt() {
    let requested = vec!["111".to_string(), "222".to_string()];
    let confirmations = vec![
        vec!["222".to_string(), "111".to_string()],
        vec![],
        vec![],
        vec![],
        vec![],
        vec![],
    ];
    let (events, used) =
        workshop_pipeline::orchestrator::run_to_completion(requested, &confirmations, 6);
    assert_eq!(used, 1);
    let mut successes: Vec<String> = events
        .iter()
        .filter(|e| matches!(e, ItemOutcome::Success { .. }))
        .map(outcome_id)
        .collect();
    successes.sort();
    assert_eq!(successes, vec!["111".to_string(), "222".to_string()]);
    assert_eq!(events.len(), 2);
}

#[test]
fn test_run_item_failing_every_attempt_fails_after_max() {
    let requested = vec!["111".to_string()];
    let confirmations: Vec<Vec<String>> = vec![vec![]; 6];
    let (events, used) =
        workshop_pipeline::orchestrator::run_to_completion(requested, &confirmations, 6);
    assert_eq!(used, 6);
    let terminal: Vec<&ItemOutcome> = events
        .iter()
        .filter(|e| !matches!(e, ItemOutcome::RetryQueued { .. }))
        .collect();
    assert_eq!(terminal.len(), 1);
    assert!(matches!(terminal[0], ItemOutcome::Failed { .. }));
    // Five retry notices precede the terminal failure: one per attempt
    // short of the last.
    let retries = events
        .iter()
        .filter(|e| matches!(e, ItemOutcome::RetryQueued { .. }))
        .count();
    assert_eq!(retries, 5);
}

#[test]
fn test_run_late_success_reported_once() {
    let requested = vec!["111".to_string(), "222".to_string()];
    let confirmations = vec![
        vec!["111".to_string()],
        vec![],
        vec!["222".to_string()],
        vec![],
        vec![],
        vec![],
    ];
    let (events, used) =
        workshop_pipeline::orchestrator::run_to_completion(requested, &confirmations, 6);
    assert_eq!(used, 3);
    for id in ["111", "222"] {
        let count = events
            .iter()
            .filter(|e| !matches!(e, ItemOutcome::RetryQueued { .. }))
            .filter(|e| outcome_id(e) == id)
            .count();
        assert_eq!(count, 1, "terminal outcomes for {}", id);
    }
}

#[test]
fn test_cancel_after_first_item_confirmed() {
    let mut run = DownloadRun::new(vec!["111".to_string(), "222".to_string()], 6);
    let events = run.record_attempt(&vec!["111".to_string()]);
    assert!(matches!(&events[0], ItemOutcome::Success { mod_id } if mod_id == "111"));
    let cancel_events = run.cancel();
    assert!(run.is_done());
    assert_eq!(cancel_events.len(), 1);
    assert!(matches!(&cancel_events[0], ItemOutcome::Cancelled { mod_id } if mod_id == "222"));
}

#[test]
fn test_backoff_doubles_and_caps() {
    let mut run = DownloadRun::new(vec!["1".to_string()], 10);
    let empty: Vec<String> = vec![];
    let expected = [1u64, 2, 4, 8, 16, 32, 32, 32];
    for want in expected {
        run.record_attempt(&empty);
        assert_eq!(run.backoff_secs(), want);
    }
}

#[test]
fn test_parse_output_failure_line() {
    let ids = vec!["111".to_string()];
    let (failed, downloading) =
        parse_steamcmd_output("ERROR! download item 111 failed (Failure)", &ids);
    assert_eq!(failed, vec!["111".to_string()]);
    assert!(downloading.is_empty());
}

#[test]
fn test_parse_output_downloading_line() {
    let ids = vec!["111".to_string(), "222".to_string()];
    let (failed, downloading) = parse_steamcmd_output("Downloading item 111 ...", &ids);
    assert!(failed.is_empty());
    assert_eq!(downloading, vec!["111".to_string()]);
}

#[test]
fn test_parse_output_ignores_unrelated_lines() {
    let ids = vec!["111".to_string()];
    let (failed, downloading) = parse_steamcmd_output("Success. Downloaded item 111", &ids);
    assert!(failed.is_empty());
    assert!(downloading.is_empty());
}

#[test]
fn test_resolve_collision_appends_suffix() {
    // A folder named "Alpha" carries a different package identifier, so
    // the incoming item gets "Alpha_".
    let folders = vec![folder("Alpha", false, Some("other.pkg"), None)];
    let source_pkg = "mine.pkg".to_string();
    let name = ModUpdater::resolve_folder_name(
        "12345",
        None,
        Some(&"Alpha".to_string()),
        Some(&source_pkg),
        &folders,
        None,
    )
    .unwrap();
    assert_eq!(name, "Alpha_");
}

#[test]
fn test_resolve_collision_chain_terminates() {
    let folders = vec![
        folder("Alpha", false, None, None),
        folder("Alpha_", false, None, None),
        folder("Alpha__", false, None, None),
    ];
    let name = resolve_suffixed_name("Alpha", &folders, None, false, "12345");
    assert_eq!(name, "Alpha___");
}

#[test]
fn test_resolve_collision_falls_back_to_item_id() {
    let mut folders = vec![folder("A", false, None, None)];
    let mut suffixed = "A".to_string();
    for _ in 0..60 {
        suffixed.push('_');
        folders.push(folder(&suffixed, false, None, None));
    }
    let name = resolve_suffixed_name("A", &folders, None, false, "12345");
    assert_eq!(name, "A_12345");
}

#[test]
fn test_resolve_same_package_overwrites() {
    let pkg = "same.pkg".to_string();
    let folders = vec![folder("Alpha", false, Some("same.pkg"), None)];
    let name = ModUpdater::resolve_folder_name(
        "12345",
        None,
        Some(&"Alpha".to_string()),
        Some(&pkg),
        &folders,
        None,
    )
    .unwrap();
    assert_eq!(name, "Alpha");
}

#[test]
fn test_resolve_reuses_folder_with_same_mod_id() {
    let folders = vec![folder("Renamed By Hand", false, None, Some("12345"))];
    let name = ModUpdater::resolve_folder_name("12345", None, None, None, &folders, None).unwrap();
    assert_eq!(name, "Renamed By Hand");
}

#[test]
fn test_corrupted_conflict_requires_decision() {
    let updater = ModUpdater;
    let folders = vec![folder("Alpha", true, None, None)];
    let (acts, outcome) = updater.update_mod(
        "12345",
        "downloads/12345",
        &complete_snapshot(),
        "downloads",
        &complete_snapshot(),
        "mods",
        &folders,
        None,
        false,
        None,
        Some(&"Alpha".to_string()),
        None,
        None,
        false,
        false,
        false,
    );
    assert!(acts.is_empty());
    match outcome {
        Err(InstallError::CorruptedModConflict { folder_name, mod_id }) => {
            assert_eq!(folder_name, "Alpha");
            assert_eq!(mod_id, "12345");
        },
        _ => panic!("expected a corrupted-folder conflict"),
    }
}

#[test]
fn test_corrupted_conflict_overwrite_decision_proceeds() {
    let updater = ModUpdater;
    let folders = vec![folder("Alpha", true, None, None)];
    let (acts, outcome) = updater.update_mod(
        "12345",
        "downloads/12345",
        &complete_snapshot(),
        "downloads",
        &complete_snapshot(),
        "mods",
        &folders,
        None,
        false,
        None,
        Some(&"Alpha".to_string()),
        Some(true),
        None,
        false,
        false,
        false,
    );
    assert_eq!(outcome.unwrap(), "mods/Alpha");
    assert!(matches!(acts.last(), Some(InstallAction::UnregisterIgnore { .. })));
}

#[test]
fn test_install_plan_success_sequence() {
    let updater = ModUpdater;
    let folders: Vec<DestFolder> = vec![];
    let (acts, outcome) = updater.update_mod(
        "12345",
        "downloads/12345",
        &complete_snapshot(),
        "downloads",
        &complete_snapshot(),
        "mods",
        &folders,
        Some(&"Alpha".to_string()),
        false,
        None,
        None,
        None,
        None,
        false,
        false,
        false,
    );
    assert_eq!(outcome.unwrap(), "mods/Alpha");
    let shape: Vec<&str> = acts
        .iter()
        .map(|a| match a {
            InstallAction::EnsureDirExists { .. } => "ensure",
            InstallAction::RemoveDirAllIfPresent { .. } => "remove_if_present",
            InstallAction::CopyDir { .. } => "copy",
            InstallAction::RegisterIgnore { .. } => "register",
            InstallAction::SleepMillis { .. } => "sleep",
            InstallAction::RemoveDirWithRetry { .. } => "remove_retry",
            InstallAction::VerifyComplete { .. } => "verify",
            InstallAction::WriteMarker { .. } => "marker",
            InstallAction::UnregisterIgnore { .. } => "unregister",
        })
        .collect();
    assert_eq!(
        shape,
        vec!["ensure", "register", "sleep", "copy", "verify", "marker", "unregister"]
    );
}

#[test]
fn test_install_plan_backup_and_replace() {
    let updater = ModUpdater;
    let folders = vec![folder("Alpha", false, None, Some("12345"))];
    let backup_dir = "backups".to_string();
    let (acts, outcome) = updater.update_mod(
        "12345",
        "downloads/12345",
        &complete_snapshot(),
        "downloads",
        &complete_snapshot(),
        "mods",
        &folders,
        Some(&"Alpha".to_string()),
        true,
        Some(&backup_dir),
        None,
        None,
        None,
        false,
        false,
        false,
    );
    assert_eq!(outcome.unwrap(), "mods/Alpha");
    assert!(acts.iter().any(|a| matches!(
        a,
        InstallAction::CopyDir { from, to } if from == "mods/Alpha" && to == "backups/Alpha"
    )));
    assert!(acts.iter().any(|a| matches!(
        a,
        InstallAction::RemoveDirWithRetry { path, attempts: 3, delay_ms: 200 } if path == "mods/Alpha"
    )));
}

#[test]
fn test_install_cancelled_before_copy_plans_no_copy() {
    let updater = ModUpdater;
    let folders: Vec<DestFolder> = vec![];
    let (acts, outcome) = updater.update_mod(
        "12345",
        "downloads/12345",
        &complete_snapshot(),
        "downloads",
        &complete_snapshot(),
        "mods",
        &folders,
        Some(&"Alpha".to_string()),
        false,
        None,
        None,
        None,
        None,
        false,
        false,
        true,
    );
    assert!(matches!(outcome, Err(InstallError::Cancelled)));
    assert!(!acts
        .iter()
        .any(|a| matches!(a, InstallAction::CopyDir { to, .. } if to == "mods/Alpha")));
    assert!(matches!(acts.last(), Some(InstallAction::UnregisterIgnore { .. })));
}

#[test]
fn test_install_source_missing() {
    let updater = ModUpdater;
    let folders: Vec<DestFolder> = vec![];
    let (acts, outcome) = updater.update_mod(
        "12345",
        "downloads/12345",
        &missing_snapshot(),
        "downloads",
        &missing_snapshot(),
        "mods",
        &folders,
        Some(&"Alpha".to_string()),
        false,
        None,
        None,
        None,
        None,
        false,
        false,
        false,
    );
    match outcome {
        Err(InstallError::SourceMissing { path }) => assert_eq!(path, "downloads/12345"),
        _ => panic!("expected a missing source"),
    }
    assert!(matches!(acts.last(), Some(InstallAction::UnregisterIgnore { .. })));
}

#[test]
fn test_install_source_incomplete() {
    let updater = ModUpdater;
    let folders: Vec<DestFolder> = vec![];
    let incomplete = FolderSnapshot {
        exists: true,
        is_dir: true,
        has_entries: true,
        has_about_dir: false,
        has_about_xml: false,
    };
    let (_acts, outcome) = updater.update_mod(
        "12345",
        "downloads/12345",
        &incomplete,
        "downloads",
        &incomplete,
        "mods",
        &folders,
        Some(&"Alpha".to_string()),
        false,
        None,
        None,
        None,
        None,
        false,
        false,
        false,
    );
    assert!(matches!(outcome, Err(InstallError::SourceIncomplete { .. })));
}

#[test]
fn test_detector_verdicts() {
    assert_eq!(detect_mod_download(&complete_snapshot(), false), DetectorVerdict::Confirmed);
    assert_eq!(
        detect_mod_download(&complete_snapshot(), true),
        DetectorVerdict::SuppressedFailure
    );
    assert_eq!(detect_mod_download(&missing_snapshot(), false), DetectorVerdict::NotYet);
}

#[test]
fn test_detector_wait_schedule() {
    let mut wait = DetectorWait::new(2_000, 5_000);
    assert_eq!(wait.next_wait(), Some(2_000));
    wait.advance(2_000);
    assert_eq!(wait.next_wait(), Some(2_000));
    wait.advance(2_000);
    assert_eq!(wait.next_wait(), Some(1_000));
    wait.advance(1_000);
    assert_eq!(wait.next_wait(), None);
}

#[test]
fn test_download_completeness_checks() {
    let complete = complete_snapshot();
    assert!(verify_mod_download_complete(&complete));
    assert!(is_mod_partially_downloaded(&complete));
    let bare = FolderSnapshot {
        exists: true,
        is_dir: true,
        has_entries: true,
        has_about_dir: false,
        has_about_xml: false,
    };
    assert!(!verify_mod_download_complete(&bare));
    assert!(is_mod_partially_downloaded(&bare));
    assert!(!is_mod_partially_downloaded(&missing_snapshot()));
}

#[test]
fn test_create_downloaded_mod_result() {
    let fetched = create_downloaded_mod_result("downloads/12345", "12345".to_string());
    assert_eq!(fetched.mod_id, "12345");
    assert_eq!(fetched.mod_path, "downloads/12345");
    assert_eq!(fetched.folder, Some("12345".to_string()));
}

#[test]
fn test_is_mod_corrupted_cases() {
    assert!(!ModUpdater::is_mod_corrupted(&missing_snapshot()));
    assert!(!ModUpdater::is_mod_corrupted(&complete_snapshot()));
    let no_manifest = FolderSnapshot {
        exists: true,
        is_dir: true,
        has_entries: true,
        has_about_dir: false,
        has_about_xml: false,
    };
    assert!(ModUpdater::is_mod_corrupted(&no_manifest));
    let no_manifest_file = FolderSnapshot {
        exists: true,
        is_dir: true,
        has_entries: true,
        has_about_dir: true,
        has_about_xml: false,
    };
    assert!(ModUpdater::is_mod_corrupted(&no_manifest_file));
}

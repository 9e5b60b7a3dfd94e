use workshop_pipeline::access::check_directory_access;
use workshop_pipeline::backup::restore_backup;
use workshop_pipeline::installer::{marker_needs_write, published_id_from_content, InstallAction};
use workshop_pipeline::metadata::{is_eligible_for_update, needs_update, WorkshopFileDetails};
use workshop_pipeline::paths::{extract_folder_name, get_mods_path_from_mod_path, path_join, validate_mods_path};
use workshop_pipeline::rate::RateLimiter;
use workshop_pipeline::registry::Registry;
use workshop_pipeline::steam_api::SteamApi;
use workshop_pipeline::downloader::Downloader;
use workshop_pipeline::metadata::parse_timestamp;
use workshop_pipeline::naming::{find_all_folders_with_mod_id, DestFolder};
use workshop_pipeline::metadata::details_for_local_mod;
use workshop_pipeline::watcher::{classify_fs_event, removal_lookup, FsEventKind, WatcherAction};
use workshop_pipeline::xml::get_package_id;

fn details(result: i32, visibility: i32, banned: bool, creator_app_id: i32) -> WorkshopFileDetails {
    WorkshopFileDetails {
        publishedfileid: "1".to_string(),
        result,
        creator: String::new(),
        creator_app_id,
        consumer_app_id: creator_app_id,
        filename: String::new(),
        file_size: 0,
        file_url: String::new(),
        hcontent_file: String::new(),
        preview_url: String::new(),
        hcontent_preview: String::new(),
        title: String::new(),
        description: String::new(),
        time_updated: 0,
        time_created: 0,
        visibility,
        flags: 0,
        workshop_file_url: String::new(),
        workshop_accepted: false,
        show_subscribe_all: false,
        num_comments_developer: 0,
        num_comments_public: 0,
        banned,
        ban_reason: String::new(),
        banner: String::new(),
        can_be_deleted: false,
        app_name: String::new(),
        file_type: 0,
        can_subscribe: false,
        subscriptions: 0,
        favorited: 0,
        followers: 0,
        lifetime_subscriptions: 0,
        lifetime_favorited: 0,
        lifetime_followers: 0,
        lifetime_playtime: String::new(),
        lifetime_playtime_sessions: String::new(),
        views: 0,
        num_children: 0,
        num_reports: 0,
        tags: Vec::new(),
    }
}

#[test]
fn test_restore_backup_plan() {
    let plan = restore_backup("mods/Alpha", "backups", true).unwrap();
    let shape: Vec<&str> = plan
        .iter()
        .map(|a| match a {
            InstallAction::RegisterIgnore { .. } => "register",
            InstallAction::RemoveDirAllIfPresent { .. } => "remove_if_present",
            InstallAction::CopyDir { .. } => "copy",
            InstallAction::UnregisterIgnore { .. } => "unregister",
            _ => "other",
        })
        .collect();
    assert_eq!(
        shape,
        vec!["register", "remove_if_present", "copy", "remove_if_present", "unregister"]
    );
    assert!(plan.iter().any(|a| matches!(
        a,
        InstallAction::CopyDir { from, to } if from == "backups/Alpha" && to == "mods/Alpha"
    )));
}

#[test]
fn test_restore_backup_same_paths_rejected() {
    let err = restore_backup("mods/Alpha", "mods/Alpha/backup", true).unwrap_err();
    assert!(err.contains("cannot be inside"));
}

#[test]
fn test_restore_backup_nested_backup_dir_rejected() {
    let err = restore_backup("store/Alpha", "store", true).unwrap_err();
    assert!(err.contains("cannot be inside"));
}

#[test]
fn test_restore_backup_missing_backup() {
    let err = restore_backup("mods/Alpha", "backups", false).unwrap_err();
    assert_eq!(err, "Backup not found");
}

#[test]
fn test_eligibility_rules() {
    assert!(is_eligible_for_update(&details(1, 0, false, 294100)));
    assert!(!is_eligible_for_update(&details(9, 0, false, 294100)));
    assert!(!is_eligible_for_update(&details(2, 0, false, 294100)));
    assert!(!is_eligible_for_update(&details(1, 1, false, 294100)));
    assert!(!is_eligible_for_update(&details(1, 0, true, 294100)));
    assert!(!is_eligible_for_update(&details(1, 0, false, 1)));
}

#[test]
fn test_needs_update_rules() {
    assert!(needs_update(1_000, 100, None));
    assert!(!needs_update(100, 100, None));
    assert!(!needs_update(101, 100, None));
    assert!(needs_update(102, 100, None));
    // An ignored-update mark wins over the local time.
    assert!(!needs_update(1_000, 100, Some(999)));
    assert!(needs_update(1_000, 2_000, Some(900)));
}

#[test]
fn test_path_helpers() {
    assert_eq!(path_join("mods", "Alpha"), "mods/Alpha");
    assert_eq!(extract_folder_name("mods/Alpha").unwrap(), "Alpha");
    assert_eq!(extract_folder_name("mods/Alpha/").unwrap(), "Alpha");
    assert!(extract_folder_name("///").is_err());
    assert_eq!(get_mods_path_from_mod_path("mods/Alpha").unwrap(), "mods");
    assert_eq!(get_mods_path_from_mod_path("/mods/Alpha").unwrap(), "/mods");
    assert_eq!(get_mods_path_from_mod_path("/Alpha").unwrap(), "/");
    assert!(get_mods_path_from_mod_path("").is_err());
}

#[test]
fn test_validate_mods_path_messages() {
    assert_eq!(validate_mods_path("mods", true, true).unwrap(), "mods");
    assert_eq!(
        validate_mods_path("mods", false, false).unwrap_err(),
        "Mods path does not exist: mods"
    );
    assert_eq!(
        validate_mods_path("mods", true, false).unwrap_err(),
        "Mods path is not a directory: mods"
    );
}

#[test]
fn test_registry_ignore_prefix() {
    let mut reg = Registry::new();
    assert!(!reg.is_cancelled());
    reg.ignore_path("mods/Alpha".to_string());
    assert!(reg.is_path_ignored("mods/Alpha"));
    assert!(reg.is_path_ignored("mods/Alpha/About/About.xml"));
    assert!(!reg.is_path_ignored("mods/Alphabet"));
    reg.unignore_path("mods/Alpha");
    assert!(!reg.is_path_ignored("mods/Alpha"));
}

#[test]
fn test_registry_cancel_flag() {
    let mut reg = Registry::new();
    reg.request_cancel();
    assert!(reg.is_cancelled());
    reg.reset_cancel();
    assert!(!reg.is_cancelled());
}

#[test]
fn test_marker_decisions() {
    assert!(marker_needs_write(None, "12345"));
    assert!(marker_needs_write(Some(&"99999".to_string()), "12345"));
    assert!(!marker_needs_write(Some(&"12345".to_string()), "12345"));
    assert!(!marker_needs_write(Some(&"  12345\n".to_string()), "12345"));
}

#[test]
fn test_published_id_from_content() {
    assert_eq!(published_id_from_content(" 12345\n").unwrap(), "12345");
    assert!(published_id_from_content("   ").is_none());
    assert!(published_id_from_content("").is_none());
}

#[test]
fn test_package_id_read_from_manifest() {
    let xml = "<?xml version=\"1.0\" encoding=\"utf-8\"?>\n<ModMetaData>\n  <name>Alpha</name>\n  <packageId>author.alpha</packageId>\n</ModMetaData>\n";
    assert_eq!(get_package_id(xml).unwrap(), "author.alpha");
}

#[test]
fn test_package_id_ignores_nested_occurrences() {
    let xml = "<ModMetaData><modDependencies><li><packageId>other.dep</packageId></li></modDependencies><packageId>author.alpha</packageId></ModMetaData>";
    assert_eq!(get_package_id(xml).unwrap(), "author.alpha");
}

#[test]
fn test_package_id_absent() {
    let xml = "<ModMetaData><name>Alpha</name></ModMetaData>";
    assert!(get_package_id(xml).is_none());
    assert!(get_package_id("").is_none());
}

#[test]
fn test_access_check_messages() {
    assert!(check_directory_access("mods", true, true, true, true).is_ok());
    let e = check_directory_access("mods", false, false, false, false).unwrap_err();
    assert_eq!(e.reason, "Directory does not exist: mods");
    assert_eq!(e.message(), "Access error for mods: Directory does not exist: mods");
    let e = check_directory_access("mods", true, true, true, false).unwrap_err();
    assert!(e.can_read);
    assert!(!e.can_write);
    assert_eq!(e.reason, "Cannot write to directory: mods");
}

#[test]
fn test_rate_limiter_spacing() {
    let limiter = RateLimiter::new(2_000);
    let mut limiter = limiter;
    limiter.note_request_at(10_000);
    assert_eq!(limiter.delay_needed_at(10_000), 2_000);
    assert_eq!(limiter.delay_needed_at(11_500), 500);
    assert_eq!(limiter.delay_needed_at(12_000), 0);
    assert_eq!(limiter.delay_needed_at(9_000), 2_000);
}

#[test]
fn test_steam_api_cache_key() {
    let _api = SteamApi::new();
    assert_eq!(SteamApi::file_details_cache_key("12345"), "file-details-12345");
}

#[test]
fn test_steamcmd_candidate_order() {
    let candidates = Downloader::steamcmd_candidate_paths(
        "/opt/app",
        "steamcmd",
        "steamcmd",
        "steamcmd-x86_64-unknown-linux-gnu",
    );
    assert_eq!(
        candidates,
        vec![
            "/opt/app/steamcmd-x86_64-unknown-linux-gnu".to_string(),
            "/opt/app/resources/steamcmd-x86_64-unknown-linux-gnu".to_string(),
            "/opt/app/../steamcmd-x86_64-unknown-linux-gnu".to_string(),
            "/opt/app/../resources/steamcmd-x86_64-unknown-linux-gnu".to_string(),
            "bin/steamcmd/steamcmd".to_string(),
            "steamcmd/steamcmd".to_string(),
        ]
    );
}

#[test]
fn test_classify_fs_event() {
    assert_eq!(classify_fs_event(&FsEventKind::Create), WatcherAction::CheckFolder);
    assert_eq!(classify_fs_event(&FsEventKind::Remove), WatcherAction::LookupRemoval);
    assert_eq!(classify_fs_event(&FsEventKind::RenameFrom), WatcherAction::LookupRemoval);
    assert_eq!(classify_fs_event(&FsEventKind::RenameTo), WatcherAction::CheckIfUnknown);
    assert_eq!(classify_fs_event(&FsEventKind::OtherModify), WatcherAction::CheckIfPending);
    assert_eq!(classify_fs_event(&FsEventKind::Other), WatcherAction::Nothing);
}

#[test]
fn test_details_for_local_mod() {
    let d = details_for_local_mod("12345", "Alpha", 1_700_000_000).unwrap();
    assert_eq!(d.publishedfileid, "12345");
    assert_eq!(d.title, "Alpha");
    assert_eq!(d.result, 1);
    assert_eq!(d.creator_app_id, 294100);
    assert_eq!(d.time_updated, 1_700_000_000);
    assert_eq!(d.time_created, 1_700_000_000);
    assert!(!d.banned);
    assert!(details_for_local_mod("12345", "Alpha", 0).is_none());
}

#[test]
fn test_dedup_strings_keeps_first_occurrences() {
    let ids = vec![
        "111".to_string(),
        "222".to_string(),
        "111".to_string(),
        "333".to_string(),
        "222".to_string(),
    ];
    let unique = workshop_pipeline::strings::dedup_strings(&ids);
    assert_eq!(unique, vec!["111".to_string(), "222".to_string(), "333".to_string()]);
}

#[test]
fn test_parse_timestamp() {
    assert_eq!(parse_timestamp("1700000000"), Some(1_700_000_000));
    assert_eq!(parse_timestamp("  42\n"), Some(42));
    assert_eq!(parse_timestamp("0"), None);
    assert_eq!(parse_timestamp("-5"), None);
    assert_eq!(parse_timestamp("abc"), None);
    assert_eq!(parse_timestamp(""), None);
    assert_eq!(parse_timestamp("99999999999999999999999999"), None);
}

#[test]
fn test_find_all_folders_with_mod_id() {
    let folders = vec![
        DestFolder {
            name: "Alpha".to_string(),
            corrupted: false,
            package_id: None,
            mod_id: Some("111".to_string()),
        },
        DestFolder {
            name: "Beta".to_string(),
            corrupted: false,
            package_id: None,
            mod_id: Some("222".to_string()),
        },
        DestFolder {
            name: "Alpha Copy".to_string(),
            corrupted: false,
            package_id: None,
            mod_id: Some("111".to_string()),
        },
    ];
    assert_eq!(find_all_folders_with_mod_id(&folders, "111"), vec![0, 2]);
    assert_eq!(find_all_folders_with_mod_id(&folders, "999"), Vec::<usize>::new());
}

#[test]
fn test_removal_lookup_strategies() {
    let known = vec![
        ("mods/Alpha".to_string(), "111".to_string()),
        ("mods/Beta".to_string(), "222".to_string()),
    ];
    // Exact path.
    assert_eq!(removal_lookup(&known, "mods/Alpha"), Some(0));
    // Same folder name under another spelling of the parent.
    assert_eq!(removal_lookup(&known, "/elsewhere/Beta"), Some(1));
    // Backslash separators.
    assert_eq!(removal_lookup(&known, "mods\\Alpha"), Some(0));
    assert_eq!(removal_lookup(&known, "mods/Gamma"), None);
}

use workshop_pipeline::downloader::Downloader;

#[test]
fn steamcmd_client_test_is_downloading() {
    let mut downloader = Downloader::new(None);
    assert!(!downloader.is_downloading("123456789"));

    downloader.mark_downloading("123456789".to_string());
    assert!(downloader.is_downloading("123456789"));

    downloader.mark_downloaded("123456789");
    assert!(!downloader.is_downloading("123456789"));
}

#[test]
fn steamcmd_client_test_mark_downloading_multiple() {
    let mut downloader = Downloader::new(None);

    downloader.mark_downloading("111111111".to_string());
    downloader.mark_downloading("222222222".to_string());
    downloader.mark_downloading("333333333".to_string());

    assert!(downloader.is_downloading("111111111"));
    assert!(downloader.is_downloading("222222222"));
    assert!(downloader.is_downloading("333333333"));

    downloader.mark_downloaded("222222222");
    assert!(downloader.is_downloading("111111111"));
    assert!(!downloader.is_downloading("222222222"));
    assert!(downloader.is_downloading("333333333"));
}

#[test]
fn steamcmd_client_test_downloader_paths() {
    let steamcmd_path = "scratch/steamcmd".to_string();

    let downloader = Downloader::new(Some(steamcmd_path.clone()));

    assert_eq!(downloader.steamcmd_path(), &steamcmd_path);
    assert_eq!(
        downloader.download_path(),
        "scratch/steamcmd/steamapps/workshop/content/294100"
    );
}

#[test]
fn downloader_test_is_downloading() {
    let mut downloader = Downloader::new(None);
    assert!(!downloader.is_downloading("123456789"));

    downloader.mark_downloading("123456789".to_string());
    assert!(downloader.is_downloading("123456789"));

    downloader.mark_downloaded("123456789");
    assert!(!downloader.is_downloading("123456789"));
}

#[test]
fn downloader_test_mark_downloading_multiple() {
    let mut downloader = Downloader::new(None);

    downloader.mark_downloading("111111111".to_string());
    downloader.mark_downloading("222222222".to_string());
    downloader.mark_downloading("333333333".to_string());

    assert!(downloader.is_downloading("111111111"));
    assert!(downloader.is_downloading("222222222"));
    assert!(downloader.is_downloading("333333333"));

    downloader.mark_downloaded("222222222");
    assert!(downloader.is_downloading("111111111"));
    assert!(!downloader.is_downloading("222222222"));
    assert!(downloader.is_downloading("333333333"));
}

#[test]
fn downloader_test_downloader_paths() {
    let downloader = Downloader::new(None);
    assert_eq!(downloader.steamcmd_path(), "steamcmd");
    assert_eq!(
        downloader.download_path(),
        "steamcmd/steamapps/workshop/content/294100"
    );
}

#[test]
fn test_balance_round_robin_two_items_two_instances() {
    let ids = vec!["111".to_string(), "222".to_string()];
    let batches = Downloader::balance_mods_round_robin(&ids, 2);
    assert_eq!(batches.len(), 2);
    assert_eq!(batches[0], vec!["111".to_string()]);
    assert_eq!(batches[1], vec!["222".to_string()]);
}

#[test]
fn test_balance_round_robin_wraps() {
    let ids = vec![
        "1".to_string(),
        "2".to_string(),
        "3".to_string(),
        "4".to_string(),
        "5".to_string(),
    ];
    let batches = Downloader::balance_mods_round_robin(&ids, 2);
    assert_eq!(batches.len(), 2);
    assert_eq!(batches[0], vec!["1".to_string(), "3".to_string(), "5".to_string()]);
    assert_eq!(batches[1], vec!["2".to_string(), "4".to_string()]);
}

#[test]
fn test_balance_by_size_prefers_least_loaded() {
    let ids = vec![
        "big".to_string(),
        "mid".to_string(),
        "small".to_string(),
        "tiny".to_string(),
    ];
    let sizes = vec![
        ("big".to_string(), 100u64),
        ("mid".to_string(), 60u64),
        ("small".to_string(), 30u64),
        ("tiny".to_string(), 10u64),
    ];
    let batches = Downloader::balance_mods_by_size(&ids, &sizes, 2);
    assert_eq!(batches.len(), 2);
    // Largest first: big -> instance 0; mid -> instance 1; small -> instance 1
    // (60+30 < 100); tiny -> instance 1 reaches 100, ties go to the first.
    assert_eq!(batches[0], vec!["big".to_string()]);
    assert_eq!(batches[1], vec!["mid".to_string(), "small".to_string(), "tiny".to_string()]);
    // The documented bound: no instance carries more than
    // ceil(total / instances) + the largest single size.
    let total: u64 = 200;
    let bound = (total + 1) / 2 + 100;
    for batch in &batches {
        let load: u64 = batch
            .iter()
            .map(|id| sizes.iter().find(|(k, _)| k == id).map(|(_, s)| *s).unwrap_or(0))
            .sum();
        assert!(load <= bound);
    }
}

#[test]
fn test_balance_by_size_everything_once() {
    let ids = vec!["a".to_string(), "b".to_string(), "c".to_string()];
    let sizes = vec![("a".to_string(), 5u64), ("b".to_string(), 5u64), ("c".to_string(), 5u64)];
    let batches = Downloader::balance_mods_by_size(&ids, &sizes, 2);
    let mut all: Vec<String> = batches.into_iter().flatten().collect();
    all.sort();
    assert_eq!(all, vec!["a".to_string(), "b".to_string(), "c".to_string()]);
}

#[test]
fn test_build_batch_script_lines() {
    let ids = vec!["111".to_string(), "222".to_string()];
    let lines = Downloader::build_batch_script("/opt/tool", &ids);
    assert_eq!(
        lines,
        vec![
            "force_install_dir \"/opt/tool\"".to_string(),
            "login anonymous".to_string(),
            "workshop_download_item 294100 111".to_string(),
            "workshop_download_item 294100 222".to_string(),
            "quit".to_string(),
        ]
    );
}

#[test]
fn test_num_instances_ceiling() {
    assert_eq!(Downloader::num_instances(10, 4), 4);
    assert_eq!(Downloader::num_instances(2, 4), 2);
    assert_eq!(Downloader::num_instances(0, 4), 1);
    assert_eq!(Downloader::num_instances(3, 0), 1);
}

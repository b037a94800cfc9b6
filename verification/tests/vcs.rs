use nucleotide::vcs::{
    git_output_cuttable, parse_git_status, CacheStats, CachedLookup, MonitorRequest, VcsConfig, VcsEvent,
    VcsService, VcsStatus,
};

fn service_on(root: &str, now: u64) -> VcsService {
    let mut service = VcsService::new(VcsConfig::default());
    let request = service.start_monitoring(root.to_string(), now);
    assert_eq!(request, MonitorRequest { refresh: true, announce_start: true });
    service
}

#[test]
fn default_config_polls_every_two_seconds() {
    let config = VcsConfig::default();
    assert_eq!(config.poll_interval_ms, 2000);
    assert!(config.enabled);
    assert_eq!(config.max_files, 10000);
}

#[test]
fn cache_stats_reset_to_zero() {
    let mut stats = CacheStats { hits: 3, misses: 2, stale_hits: 1, invalidations: 4 };
    stats.reset();
    assert_eq!(stats, CacheStats::new());
}

#[test]
fn porcelain_lines_give_statuses() {
    let output = "?? new.txt\n M src/lib.rs\nA  added.rs\n D gone.rs\nR  moved.rs\nUU clash.rs\nC  copy.rs\nAM both.rs\nXY odd.rs\n!\n";
    assert!(git_output_cuttable("/repo", output, 100));
    let parsed = parse_git_status("/repo", output, 100);
    assert_eq!(
        parsed,
        vec![
            ("/repo/new.txt".to_string(), VcsStatus::Untracked),
            ("/repo/src/lib.rs".to_string(), VcsStatus::Modified),
            ("/repo/added.rs".to_string(), VcsStatus::Added),
            ("/repo/gone.rs".to_string(), VcsStatus::Deleted),
            ("/repo/moved.rs".to_string(), VcsStatus::Renamed),
            ("/repo/clash.rs".to_string(), VcsStatus::Conflicted),
            ("/repo/copy.rs".to_string(), VcsStatus::Added),
            ("/repo/both.rs".to_string(), VcsStatus::Modified),
        ]
    );
}

#[test]
fn porcelain_reading_stops_at_the_file_limit_and_keeps_the_last_status() {
    let output = " M a.rs\r\n?? a.rs\n M b.rs\n M c.rs";
    let parsed = parse_git_status("/r", output, 3);
    assert_eq!(
        parsed,
        vec![("/r/a.rs".to_string(), VcsStatus::Untracked), ("/r/b.rs".to_string(), VcsStatus::Modified)]
    );
}

#[test]
fn a_line_that_cannot_be_cut_is_detected() {
    assert!(!git_output_cuttable("/r", "aé x\n", 10));
    assert!(git_output_cuttable("/r", "aé x\n", 0));
}

#[test]
fn monitoring_the_same_directory_again_is_rate_limited() {
    let mut service = service_on("/repo", 0);
    assert!(service.is_monitoring());
    assert_eq!(service.root_path(), Some(&"/repo".to_string()));
    // No check yet: ask git.
    assert_eq!(
        service.start_monitoring("/repo".to_string(), 10),
        MonitorRequest { refresh: true, announce_start: false }
    );
    assert_eq!(service.begin_refresh(10), Some("/repo".to_string()));
    service.finish_refresh(Ok(Vec::new()), 10);
    assert_eq!(
        service.start_monitoring("/repo".to_string(), 2000),
        MonitorRequest { refresh: false, announce_start: false }
    );
    assert_eq!(
        service.start_monitoring("/repo".to_string(), 3010),
        MonitorRequest { refresh: true, announce_start: false }
    );
    assert!(!service.force_refresh(1500));
    assert!(service.force_refresh(2010));
}

#[test]
fn disabled_service_does_not_monitor() {
    let mut service = VcsService::new(VcsConfig { poll_interval_ms: 1, enabled: false, max_files: 1 });
    assert_eq!(
        service.start_monitoring("/repo".to_string(), 0),
        MonitorRequest { refresh: false, announce_start: false }
    );
    assert!(!service.is_monitoring());
    assert!(!service.force_refresh(100000));
}

#[test]
fn refresh_reports_changes_and_lookups_count_hits() {
    let mut service = service_on("/repo", 0);
    let first = vec![
        ("/repo/a.rs".to_string(), VcsStatus::Modified),
        ("/repo/b.rs".to_string(), VcsStatus::Added),
    ];
    match service.finish_refresh(Ok(first), 100) {
        Some(VcsEvent::StatusUpdated { changes }) => assert_eq!(changes.len(), 2),
        other => panic!("unexpected event {:?}", other),
    }
    assert_eq!(service.get_status("a.rs"), Some(VcsStatus::Modified));
    assert_eq!(service.get_status("/repo/b.rs"), Some(VcsStatus::Added));
    assert_eq!(service.get_status("c.rs"), None);

    assert_eq!(service.get_status_cached("a.rs", 200), CachedLookup::Answer(Some(VcsStatus::Modified)));
    // Stale at 6000 and missing for c.rs: the cache asks to be refreshed.
    assert_eq!(service.get_status_cached("a.rs", 6000), CachedLookup::Refresh);
    assert_eq!(service.get_status_cached("c.rs", 200), CachedLookup::Refresh);
    assert_eq!(service.get_cache_stats(), CacheStats { hits: 1, misses: 1, stale_hits: 1, invalidations: 0 });

    let second = vec![("/repo/a.rs".to_string(), VcsStatus::Modified)];
    match service.finish_refresh(Ok(second), 7000) {
        Some(VcsEvent::StatusUpdated { changes }) => {
            assert_eq!(changes, vec![("/repo/b.rs".to_string(), VcsStatus::UpToDate)])
        }
        other => panic!("unexpected event {:?}", other),
    }
    let same = vec![("/repo/a.rs".to_string(), VcsStatus::Modified)];
    assert!(service.finish_refresh(Ok(same), 7100).is_none());
}

#[test]
fn failed_refresh_is_reported() {
    let mut service = service_on("/repo", 0);
    match service.finish_refresh(Err("not a repository".to_string()), 5) {
        Some(VcsEvent::Error { message }) => assert_eq!(message, "Git status failed: not a repository"),
        other => panic!("unexpected event {:?}", other),
    }
}

#[test]
fn stale_entries_are_cleared_and_counted() {
    let mut service = service_on("/repo", 0);
    service.finish_refresh(Ok(vec![("/repo/a.rs".to_string(), VcsStatus::Modified)]), 1000);
    service.clear_stale_cache(3000);
    assert_eq!(service.get_cache_info(), (1, 5000));
    service.clear_stale_cache(7000);
    assert_eq!(service.get_cache_info(), (0, 5000));
    assert_eq!(service.get_cache_stats().invalidations, 1);
    service.reset_cache_stats();
    assert_eq!(service.get_cache_stats(), CacheStats::new());
}

#[test]
fn bulk_lookup_and_picker_refresh_decision() {
    let mut service = service_on("/repo", 0);
    service.finish_refresh(Ok(vec![("/repo/a.rs".to_string(), VcsStatus::Added)]), 0);
    let paths = vec!["a.rs".to_string(), "b.rs".to_string()];
    let answers = service.get_status_bulk(&paths, 10);
    assert_eq!(
        answers,
        vec![("a.rs".to_string(), Some(VcsStatus::Added)), ("b.rs".to_string(), None)]
    );
    assert_eq!(service.get_cache_stats().hits, 1);
    assert_eq!(service.get_cache_stats().misses, 1);
    // One of two missing is more than a quarter.
    assert!(service.picker_needs_refresh(&paths, 10));
    assert!(!service.picker_needs_refresh(&vec!["a.rs".to_string()], 10));
    assert!(!service.update_cache_bulk(&paths));
    let many: Vec<String> = (0..11).map(|i| format!("f{}.rs", i)).collect();
    assert!(service.update_cache_bulk(&many));
}

#[test]
fn stopping_clears_the_cache() {
    let mut service = service_on("/repo", 0);
    service.finish_refresh(Ok(vec![("/repo/a.rs".to_string(), VcsStatus::Added)]), 0);
    service.stop_monitoring();
    assert!(!service.is_monitoring());
    assert!(service.get_all_status().is_empty());
    assert_eq!(service.get_status("/repo/a.rs"), None);
    assert_eq!(service.begin_refresh(10), None);
}

#[test]
fn a_stale_lookup_answers_with_the_refreshed_status() {
    let mut service = service_on("/repo", 0);
    let first = vec![("/repo/a.rs".to_string(), VcsStatus::Modified)];
    service.finish_refresh(Ok(first), 100);
    assert_eq!(service.get_status_cached("a.rs", 6000), CachedLookup::Refresh);
    let refreshed = vec![("/repo/a.rs".to_string(), VcsStatus::Added)];
    let (status, event) = service.answer_after_refresh("a.rs", Ok(refreshed), 6000);
    assert_eq!(status, Some(VcsStatus::Added));
    assert!(event.is_some());
    // Fresh again right after the refresh.
    assert_eq!(service.get_status_cached("a.rs", 6100), CachedLookup::Answer(Some(VcsStatus::Added)));
}

#[test]
fn without_a_root_the_cached_status_answers() {
    let mut service = VcsService::new(VcsConfig::default());
    assert_eq!(service.get_status_cached("/repo/a.rs", 10), CachedLookup::Answer(None));
    assert_eq!(service.get_status_cached("a.rs", 10), CachedLookup::Answer(None));
}

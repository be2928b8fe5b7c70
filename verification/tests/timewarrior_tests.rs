use taskwarrior_tui::timewarrior::{ActiveTrackingInfo, TimewarriorConfig,
    TimewarriorIntegration, TimewarriorStatus, TrackingCache};

#[test]
fn test_timewarrior_config_default_values() {
    let config = TimewarriorConfig::default();
    assert!(config.enabled);
    assert_eq!(config.tag_prefix, "");
    assert!(config.include_project);
    assert!(!config.include_description);
    assert_eq!(config.log_level, "info");
    assert!(!config.hook_installed);
}

#[test]
fn test_get_setup_instructions_complete() {
    let integration = TimewarriorIntegration::default();
    let instructions = integration.get_setup_instructions();

    // Verify we get some instructions
    assert!(!instructions.is_empty());

    // Verify instructions contain status indicators
    let text = instructions.join("\n");
    assert!(text.contains("\u{2705}") || text.contains("\u{274c}"));
}

#[test]
fn test_active_tracking_info() {
    let info = ActiveTrackingInfo {
        tags: "project:test uuid:123".to_string(),
        duration: "1h30m".to_string(),
    };

    assert_eq!(info.tags, "project:test uuid:123");
    assert_eq!(info.duration, "1h30m");
}

#[test]
fn test_timewarrior_status_complete() {
    let status = TimewarriorStatus {
        timewarrior_available: true,
        hook_installed: true,
        integration_enabled: true,
        active_tracking: Some(ActiveTrackingInfo {
            tags: "work".to_string(),
            duration: "45m".to_string(),
        }),
    };

    assert!(status.timewarrior_available);
    assert!(status.hook_installed);
    assert!(status.integration_enabled);
    assert!(status.active_tracking.is_some());
}

#[test]
fn test_is_task_being_tracked_when_disabled() {
    let mut integration = TimewarriorIntegration::default();
    integration.config.enabled = false;

    // Should return false when integration is disabled
    assert!(!integration.is_task_being_tracked("some-uuid", 0));
}

#[test]
fn test_is_task_being_tracked_when_enabled() {
    let integration = TimewarriorIntegration::default();

    // Should not panic when checking task tracking
    let _result = integration.is_task_being_tracked("test-uuid-123", 0);
}

#[test]
fn test_tracking_cache_functionality() {
    let integration = TimewarriorIntegration::default();

    // First call consults the cache
    let result1 = integration.is_task_being_tracked("test-uuid-123", 0);

    // Second call within the cache window answers the same
    let result2 = integration.is_task_being_tracked("test-uuid-123", 0);

    // Results should be consistent
    assert_eq!(result1, result2);
}

#[test]
fn test_tracking_cache_expiry_and_refresh() {
    let mut cache = TrackingCache::new();
    // A never-refreshed cache is expired at every time, even at the
    // very start of the caller's clock.
    assert!(cache.last_updated.is_none());
    assert!(cache.is_expired(0));
    assert!(cache.is_expired(20_000));
    cache.update(vec!["abc".to_string()], 30_000);
    assert_eq!(cache.last_updated, Some(30_000));
    assert!(!cache.is_expired(31_000));
    assert!(!cache.is_expired(35_000));
    assert!(cache.is_expired(35_001));
    assert!(cache.contains("abc"));
    assert!(!cache.contains("def"));
}

#[test]
fn test_refresh_cycle_queries_at_most_once_within_ttl() {
    let mut tw = TimewarriorIntegration::new(TimewarriorConfig::default(), true);
    // A fresh integration has never refreshed: the first consultation
    // queries, whatever the clock reads — including zero.
    assert!(tw.needs_refresh(0));
    assert!(tw.needs_refresh(20_000));
    tw.apply_refresh(Some("project:x uuid:abc uuid:def other"), 20_000);
    // Two consultations inside the TTL window: no further query is due.
    assert!(!tw.needs_refresh(21_000));
    assert!(!tw.needs_refresh(25_000));
    assert!(tw.is_task_being_tracked("abc", 21_000));
    assert!(tw.is_task_being_tracked("def", 25_000));
    assert!(!tw.is_task_being_tracked("ghi", 25_000));
    // Past the window, a query is due again.
    assert!(tw.needs_refresh(26_000));
    // A failed refresh degrades to an empty tracked set.
    tw.force_refresh_tracking_cache(None, 30_000);
    assert!(!tw.is_task_being_tracked("abc", 30_500));
}

#[test]
fn test_update_config_returns_save_plan() {
    let mut tw = TimewarriorIntegration::default();
    let new_config = TimewarriorConfig {
        enabled: false,
        tag_prefix: "tw_".to_string(),
        include_project: false,
        include_description: true,
        log_level: "debug".to_string(),
        hook_installed: true,
    };
    let plan = tw.update_config(new_config);
    assert_eq!(plan.len(), 5);
    assert_eq!(plan[0], ("enabled".to_string(), "false".to_string()));
    assert_eq!(plan[1], ("tag.prefix".to_string(), "tw_".to_string()));
    assert_eq!(plan[2], ("include.project".to_string(), "false".to_string()));
    assert_eq!(plan[3], ("include.description".to_string(), "true".to_string()));
    assert_eq!(plan[4], ("log.level".to_string(), "debug".to_string()));
    assert!(!tw.get_config().enabled);
    assert!(tw.is_hook_installed());
}

#[test]
fn test_apply_setting_mirrors_tool_settings() {
    let mut config = TimewarriorConfig::default();
    config.apply_setting("enabled", "FALSE");
    assert!(!config.enabled);
    config.apply_setting("enabled", "");
    assert!(config.enabled);
    config.apply_setting("tag.prefix", "tw_");
    assert_eq!(config.tag_prefix, "tw_");
    config.apply_setting("include.description", "true");
    assert!(config.include_description);
    config.apply_setting("log.level", "warn");
    assert_eq!(config.log_level, "warn");
    config.apply_setting("unknown.key", "whatever");
    assert_eq!(config.log_level, "warn");
}

#[test]
fn test_active_tracking_from_probe() {
    let info = TimewarriorIntegration::active_tracking_from_probe(
        " 1\n", Some("work".to_string()), Some("45m".to_string()));
    let info = info.expect("active flag 1 reports tracking");
    assert_eq!(info.tags, "work");
    assert_eq!(info.duration, "45m");

    let none = TimewarriorIntegration::active_tracking_from_probe("0", None, None);
    assert!(none.is_none());

    let fallback = TimewarriorIntegration::active_tracking_from_probe("1", None, None)
        .expect("active");
    assert_eq!(fallback.tags, "No tags");
    assert_eq!(fallback.duration, "Unknown");
}

#[test]
fn test_get_status_assembles_flags() {
    let tw = TimewarriorIntegration::new(TimewarriorConfig::default(), false);
    // Availability is probed afresh at status time, not taken from
    // the startup probe.
    let status = tw.get_status(true, None);
    assert!(status.timewarrior_available);
    assert!(status.integration_enabled);
    assert!(!status.hook_installed);
    assert!(status.active_tracking.is_none());
}

#[test]
fn test_is_tracking_active_flag() {
    assert!(TimewarriorIntegration::is_tracking_active("1"));
    assert!(TimewarriorIntegration::is_tracking_active(" 1\n"));
    assert!(!TimewarriorIntegration::is_tracking_active("0"));
    assert!(!TimewarriorIntegration::is_tracking_active(""));
    assert!(!TimewarriorIntegration::is_tracking_active("11"));
}

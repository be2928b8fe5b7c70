use taskwarrior_tui::backend::{added_tags, parse_modifications, parse_report_filter_output,
    parse_task_arg, BackendConfig, CliBackend, Config, TaskChampionBackend,
    TaskModification};
use taskwarrior_tui::filter::{extract_limit_from_filter, filter_tasks,
    task_matches_taskwarrior_filter};
use taskwarrior_tui::task::{TaskRecord, TaskStatus, Timestamp};
use taskwarrior_tui::TaskError;

fn ts(epoch_seconds: i64) -> Timestamp {
    Timestamp { year: 2024, month: 1, day: 5, hour: 12, minute: 0, second: 0, epoch_seconds }
}

fn task(uuid: &str, description: &str, status: TaskStatus) -> TaskRecord {
    let mut t = TaskRecord::new(uuid.to_string(), description.to_string(), ts(1000));
    t.status = status;
    t
}

#[test]
fn test_backend_configuration_parsing() {
    // Test default configuration
    let default_config = BackendConfig::default();
    match default_config {
        BackendConfig::Cli => {
            println!("Default backend is CLI");
        }
        BackendConfig::TaskChampion { .. } => {
            println!("Default backend is TaskChampion (feature enabled)");
        }
    }
}

#[test]
fn test_config_defaults_to_cli() {
    let config = Config::new();
    assert_eq!(config.uda_backend, "cli");
    assert!(config.uda_taskchampion_data_dir.is_none());
    assert!(config.uda_taskchampion_server_config.is_none());
}

#[test]
fn test_extract_limit_variants() {
    // `limit:page` maps to 25, `limit:n` to n, anything else to none,
    // wherever the limit term stands among the other terms.
    assert_eq!(extract_limit_from_filter("limit:page"), Some(25));
    assert_eq!(extract_limit_from_filter("status:pending limit:page"), Some(25));
    assert_eq!(extract_limit_from_filter("limit:page status:pending"), Some(25));
    assert_eq!(extract_limit_from_filter("status:pending limit:10 +work"), Some(10));
    assert_eq!(extract_limit_from_filter("+work status:pending limit:10"), Some(10));
    assert_eq!(extract_limit_from_filter("status:pending +work"), None);
    assert_eq!(extract_limit_from_filter(""), None);
    // An unparsable limit value carries no limit.
    assert_eq!(extract_limit_from_filter("limit:soon"), None);
    // A huge value is still a limit as long as it fits the machine.
    assert_eq!(extract_limit_from_filter("limit:10000000000000000000"),
        Some(10_000_000_000_000_000_000));
    // One beyond 64 bits carries no limit.
    assert_eq!(extract_limit_from_filter("limit:999999999999999999999"), None);
}

#[test]
fn test_empty_filter_is_identity() {
    let records = vec![
        task("a", "one", TaskStatus::Pending),
        task("b", "two", TaskStatus::Completed),
        task("c", "three", TaskStatus::Waiting),
    ];
    let expected: Vec<String> = records.iter().map(|t| t.uuid.clone()).collect();
    let filtered = filter_tasks(records, "");
    let got: Vec<String> = filtered.iter().map(|t| t.uuid.clone()).collect();
    assert_eq!(got, expected);
}

#[test]
fn test_filter_scenario_pending_not_waiting() {
    // Scenario: "status:pending -WAITING" over a pending record, a
    // pending record with a wait date, and a completed record keeps
    // exactly the first.
    let pending = task("p1", "pending plain", TaskStatus::Pending);
    let mut pending_waiting = task("p2", "pending waiting", TaskStatus::Pending);
    pending_waiting.wait = Some(ts(99_999));
    let completed = task("p3", "done", TaskStatus::Completed);

    assert!(task_matches_taskwarrior_filter(&pending, "status:pending -WAITING"));
    assert!(!task_matches_taskwarrior_filter(&pending_waiting, "status:pending -WAITING"));
    assert!(!task_matches_taskwarrior_filter(&completed, "status:pending -WAITING"));

    let records = vec![pending, pending_waiting, completed];
    let filtered = filter_tasks(records, "status:pending -WAITING");
    assert_eq!(filtered.len(), 1);
    assert_eq!(filtered[0].uuid, "p1");
}

#[test]
fn test_filter_terms() {
    let mut t = task("x", "desc", TaskStatus::Pending);
    t.project = Some("Home.Garden".to_string());
    t.tags = Some(vec!["Urgent".to_string()]);
    assert!(task_matches_taskwarrior_filter(&t, "project:home"));
    assert!(task_matches_taskwarrior_filter(&t, "project:garden"));
    assert!(!task_matches_taskwarrior_filter(&t, "project:work"));
    assert!(task_matches_taskwarrior_filter(&t, "+urgent"));
    assert!(!task_matches_taskwarrior_filter(&t, "+other"));
    // An unrecognized exclusion and an unknown term are no-ops.
    assert!(task_matches_taskwarrior_filter(&t, "-SOMETHING unknownterm"));
    // A record without a project fails a project term.
    let bare = task("y", "other", TaskStatus::Pending);
    assert!(!task_matches_taskwarrior_filter(&bare, "project:home"));
}

#[test]
fn test_embedded_export_pipeline() {
    let backend = TaskChampionBackend::new(None, None);
    let records = vec![
        task("a", "one", TaskStatus::Pending),
        task("b", "gone", TaskStatus::Deleted),
        task("c", "two", TaskStatus::Pending),
        task("d", "done", TaskStatus::Completed),
        task("e", "three", TaskStatus::Pending),
    ];
    // Deleted records are dropped before filtering; the limit cuts
    // the filtered list down.
    let out = backend.export_tasks(records.clone(), "status:pending limit:2", "");
    let ids: Vec<String> = out.iter().map(|t| t.uuid.clone()).collect();
    assert_eq!(ids, vec!["a", "c"]);

    // An empty explicit filter falls back to the report's filter.
    let out = backend.export_tasks(records.clone(), "", "status:completed");
    let ids: Vec<String> = out.iter().map(|t| t.uuid.clone()).collect();
    assert_eq!(ids, vec!["d"]);

    // With both empty, every non-deleted record survives.
    let out = backend.export_tasks(records, "", "");
    let ids: Vec<String> = out.iter().map(|t| t.uuid.clone()).collect();
    assert_eq!(ids, vec!["a", "c", "d", "e"]);
}

#[test]
fn test_cli_backend_version_gate() {
    let old = CliBackend::new("task 2.6.2 (2022-10-19)").expect("version parses");
    assert!(!old.version_supported);
    let newer = CliBackend::new("task 3.0.0").expect("version parses");
    assert!(newer.version_supported);
    let bare = CliBackend::new("3.4.1\n").expect("bare version parses");
    assert!(bare.version_supported);
    match CliBackend::new("") {
        Err(TaskError::VersionParseFailure { line }) => assert_eq!(line, ""),
        other => panic!("empty probe must fail to parse: {:?}", other),
    }
}

#[test]
fn test_build_export_args_version_gating() {
    let newer = CliBackend { version_supported: true };
    let args = newer.build_export_args("status:pending", "next", "");
    assert_eq!(args, vec![
        "rc.json.array=on",
        "rc.confirmation=off",
        "rc.json.depends.array=on",
        "rc.color=off",
        "rc._forcecolor=off",
        // the shell splitter strips the quoting around the filter
        "rc.report.next.filter=status:pending",
        "export",
        "next",
    ]);

    let old = CliBackend { version_supported: false };
    let args = old.build_export_args("", "next", "project:home");
    assert_eq!(args, vec![
        "rc.json.array=on",
        "rc.confirmation=off",
        "rc.json.depends.array=on",
        "rc.color=off",
        "rc._forcecolor=off",
        "'\\(project:home\\)'",
        "export",
    ]);

    let newer_ctx = newer.build_export_args("", "next", "project:home");
    assert_eq!(newer_ctx[5], "project:home");
    assert_eq!(newer_ctx[6], "export");
    assert_eq!(newer_ctx[7], "next");
}

#[test]
fn test_build_mutation_args() {
    let backend = CliBackend { version_supported: true };
    let uuids = vec!["u1".to_string(), "u2".to_string()];
    let done = backend.build_done_args(&uuids);
    assert_eq!(done, vec![
        "rc.bulk=0",
        "rc.confirmation=off",
        "rc.dependency.confirmation=off",
        "rc.recurrence.confirmation=off",
        "u1",
        "u2",
        "done",
    ]);
    let delete = backend.build_delete_args(&uuids);
    assert_eq!(delete[6], "delete");
    let modify = backend.build_modify_args(&uuids, "description:'new text' +tag");
    assert_eq!(&modify[4..], &["u1", "u2", "description:new text", "+tag"]);
    let add = backend.build_add_args("buy milk", &vec!["+errand".to_string()]);
    assert_eq!(add, vec!["add", "buy milk", "+errand"]);
    let details = backend.build_task_details_args("u9");
    assert_eq!(&details[5..], &["u9", "export"]);
    assert_eq!(backend.build_sync_args(), vec!["sync"]);
}

#[test]
fn test_parse_task_arg_forms() {
    assert_eq!(parse_task_arg("project:home"), Some(("project".to_string(), "home".to_string())));
    assert_eq!(parse_task_arg("tagname"), Some(("tagname".to_string(), "".to_string())));
    assert_eq!(parse_task_arg("a:b:c"), Some(("a".to_string(), "b:c".to_string())));
}

#[test]
fn test_parse_modifications_plan() {
    let mods = parse_modifications("description:urgent project:home priority:H simple key:value");
    assert_eq!(mods.len(), 3);
    assert!(matches!(&mods[0], TaskModification::SetDescription(s) if s == "urgent"));
    assert!(matches!(&mods[1], TaskModification::AddTag(t) if t == "simple"));
    assert!(matches!(&mods[2], TaskModification::AddTag(t) if t == "key:value"));
}

#[test]
fn test_added_tags_skips_settings() {
    let args = vec![
        "project:home".to_string(),
        "priority:H".to_string(),
        "work".to_string(),
        "due:tomorrow".to_string(),
    ];
    assert_eq!(added_tags(&args), vec!["work", "due"]);
}

#[test]
fn test_parse_report_filter_output_scans_data_section() {
    let stdout = "Config Variable    Value\n\
                  ------------------ ----------------------------------\n\
                  report.next.filter status:pending -WAITING limit:page\n";
    let filter = parse_report_filter_output(stdout, "next");
    assert_eq!(filter, Some("status:pending -WAITING limit:page".to_string()));

    // Before the dashed separator nothing counts as data.
    let no_data = "report.next.filter status:pending\n";
    assert_eq!(parse_report_filter_output(no_data, "next"), None);

    // A line for another report does not match.
    let other = "---\nreport.other.filter status:pending\n";
    assert_eq!(parse_report_filter_output(other, "next"), None);
}

use taskwarrior_tui::task::{TaskRecord, TaskStatus, Timestamp, UdaValue};
use taskwarrior_tui::task_report::{format_date, format_date_time, format_duration,
    truncate_description, vague_format_date_time, TaskReportTable};
use taskwarrior_tui::TaskError;

fn ts(epoch_seconds: i64) -> Timestamp {
    Timestamp { year: 2024, month: 1, day: 5, hour: 12, minute: 30, second: 0, epoch_seconds }
}

fn simple_task(uuid: &str, description: &str) -> TaskRecord {
    TaskRecord::new(uuid.to_string(), description.to_string(), ts(1_700_000_000))
}

#[test]
fn test_format_duration_basic_cases() {
    // Test basic second formatting
    assert_eq!(format_duration(0, false), "0s");
    assert_eq!(format_duration(30, false), "30s");

    // Test minute formatting
    assert_eq!(format_duration(60, false), "1min");
    assert_eq!(format_duration(90, false), "1min");
    assert_eq!(format_duration(90, true), "1min30s");

    // Test hour formatting
    assert_eq!(format_duration(3600, false), "1h");
    assert_eq!(format_duration(3661, false), "1h");
    assert_eq!(format_duration(3661, true), "1h1min");

    assert_eq!(format_duration(1255, false), "20min");
    assert_eq!(format_duration(1255, true), "20min55s");
}

#[test]
fn test_format_duration_edge_cases() {
    // Test negative durations
    assert_eq!(format_duration(-300, false), "-5min");
    assert_eq!(format_duration(-3661, true), "-1h1min");

    // Test larger time units
    assert_eq!(format_duration(86400, false), "1d"); // 1 day
    assert_eq!(format_duration(604800, false), "7d"); // 1 week shows as 7 days
    assert_eq!(format_duration(1209600, false), "2w"); // 2 weeks
    assert_eq!(format_duration(2592000, false), "4w"); // 1 month shows as 4 weeks
    assert_eq!(format_duration(7776000, false), "3mo"); // 3 months
    assert_eq!(format_duration(31536000, false), "1y"); // 1 year

    // Test with remainder for larger units
    assert_eq!(format_duration(90061, true), "1d1h"); // 1d + 1h + 1m + 1s
}

#[test]
fn test_is_duration_field() {
    // Test fields that should be detected as duration
    assert!(TaskReportTable::is_duration_field("totalactivetime"));
    assert!(TaskReportTable::is_duration_field("totaltime"));
    assert!(TaskReportTable::is_duration_field("worktime"));
    assert!(TaskReportTable::is_duration_field("elapsed"));
    assert!(TaskReportTable::is_duration_field("customactivetime"));
    assert!(TaskReportTable::is_duration_field("anyduration"));

    // Test fields that should NOT be detected as duration
    assert!(!TaskReportTable::is_duration_field("description"));
    assert!(!TaskReportTable::is_duration_field("priority"));
    assert!(!TaskReportTable::is_duration_field("project"));
    assert!(!TaskReportTable::is_duration_field("status"));
    assert!(!TaskReportTable::is_duration_field("id"));
    assert!(!TaskReportTable::is_duration_field("urgency"));
}

#[test]
fn test_vague_format_date_time_directions() {
    assert_eq!(vague_format_date_time(1000, 1090, true), "1min30s");
    assert_eq!(vague_format_date_time(1090, 1000, false), "-1min");
    assert_eq!(vague_format_date_time(0, 31536000, false), "1y");
}

#[test]
fn test_format_date_and_date_time() {
    let t = Timestamp { year: 2024, month: 3, day: 9, hour: 7, minute: 5, second: 3, epoch_seconds: 0 };
    assert_eq!(format_date(&t), "2024-03-09");
    assert_eq!(format_date_time(&t), "2024-03-09 07:05:03");
}

#[test]
fn test_report_table_from_configured_columns_and_labels() {
    let data = "report.next.columns id,description,urgency\nreport.next.labels ID,Description,Urgency\n";
    let table = TaskReportTable::new(data, "next").expect("equal counts must build");
    assert_eq!(table.columns, vec!["id", "description", "urgency"]);
    assert_eq!(table.labels, vec!["ID", "Description", "Urgency"]);
    assert_eq!(table.description_width, 100);
    assert!(table.duration_human_readable);
    assert!(!table.date_time_vague_precise);
}

#[test]
fn test_report_table_auto_derives_labels() {
    let data = "report.next.columns id,description.truncated,urgency\n";
    let table = TaskReportTable::new(data, "next").expect("derived labels match columns");
    assert_eq!(table.labels, vec!["ID", "Description", "Urgency"]);
}

#[test]
fn test_report_mismatch_raises_configuration_error() {
    // Scenario: columns ["id","description"], labels ["ID"].
    let data = "report.next.columns id,description\nreport.next.labels ID\n";
    let err = TaskReportTable::new(data, "next").err().expect("mismatch must fail");
    match err {
        TaskError::ConfigurationMismatch { report, columns, labels } => {
            assert_eq!(report, "next");
            assert_eq!(columns, 2);
            assert_eq!(labels, 1);
        }
        other => panic!("wrong error: {:?}", other),
    }
}

#[test]
fn test_simplify_table_drops_empty_columns() {
    let data = "report.next.columns id,project,description\n";
    let mut table = TaskReportTable::new(data, "next").expect("table builds");
    let mut with_project = simple_task("a1", "first");
    with_project.id = Some(1);
    let mut without_project = simple_task("b2", "second");
    without_project.id = Some(2);
    let tasks = vec![with_project, without_project];
    table.generate_table(&tasks, 1_700_000_100);
    let (rows, headers) = table.simplify_table();
    // The project column is empty in every row, so it is dropped.
    assert_eq!(headers, vec!["ID", "Description"]);
    assert_eq!(rows, vec![vec!["1".to_string(), "first".to_string()],
        vec!["2".to_string(), "second".to_string()]]);
}

#[test]
fn test_simplify_table_is_idempotent() {
    let data = "report.next.columns id,project,description\n";
    let mut table = TaskReportTable::new(data, "next").expect("table builds");
    let mut t1 = simple_task("a1", "first");
    t1.id = Some(1);
    let mut t2 = simple_task("b2", "");
    t2.id = Some(2);
    let tasks = vec![t1, t2];
    table.generate_table(&tasks, 1_700_000_100);
    let (rows1, headers1) = table.simplify_table();
    // Feed the simplified table through a second simplification.
    let mut again = TaskReportTable::new("report.x.columns a\nreport.x.labels A\n", "x")
        .expect("builds");
    again.labels = headers1.clone();
    again.columns = headers1.clone();
    again.tasks = rows1.clone();
    let (rows2, headers2) = again.simplify_table();
    assert_eq!(rows1, rows2);
    assert_eq!(headers1, headers2);
}

#[test]
fn test_simplify_table_with_no_rows_is_empty() {
    let data = "report.next.columns id,description\n";
    let mut table = TaskReportTable::new(data, "next").expect("builds");
    table.generate_table(&Vec::new(), 0);
    let (rows, headers) = table.simplify_table();
    assert!(rows.is_empty());
    assert!(headers.is_empty());
}

#[test]
fn test_get_string_attribute_basics() {
    let table = TaskReportTable::new("report.next.columns id\n", "next").expect("builds");
    let mut task = simple_task("a1", "write the report");
    task.id = Some(7);
    task.status = TaskStatus::Pending;
    task.urgency = Some(350);
    let tasks = vec![task.clone()];
    let now = 1_700_000_000;
    assert_eq!(table.get_string_attribute("id", &task, &tasks, now), "7");
    // A record without an ephemeral id shows an empty id cell.
    let idless = simple_task("b2", "no id yet");
    assert_eq!(table.get_string_attribute("id", &idless, &tasks, now), "");
    assert_eq!(table.get_string_attribute("status", &task, &tasks, now), "Pending");
    assert_eq!(table.get_string_attribute("status.short", &task, &tasks, now), "P");
    assert_eq!(table.get_string_attribute("urgency", &task, &tasks, now), "3.50");
    assert_eq!(table.get_string_attribute("description", &task, &tasks, now), "write the report");
    assert_eq!(table.get_string_attribute("project", &task, &tasks, now), "");
}

#[test]
fn test_get_string_attribute_urgency_default_and_negative() {
    let table = TaskReportTable::new("report.next.columns id\n", "next").expect("builds");
    let mut task = simple_task("a1", "x");
    let tasks = vec![task.clone()];
    assert_eq!(table.get_string_attribute("urgency", &task, &tasks, 0), "0.00");
    task.urgency = Some(-150);
    assert_eq!(table.get_string_attribute("urgency", &task, &tasks, 0), "-1.50");
    task.urgency = Some(5);
    assert_eq!(table.get_string_attribute("urgency", &task, &tasks, 0), "0.05");
}

#[test]
fn test_get_string_attribute_tags_filters_virtual_tags() {
    let table = TaskReportTable::new("report.next.columns tags\n", "next").expect("builds");
    let mut task = simple_task("a1", "x");
    task.tags = Some(vec!["work".to_string(), "PENDING".to_string(), "urgent".to_string()]);
    let tasks = vec![task.clone()];
    assert_eq!(table.get_string_attribute("tags", &task, &tasks, 0), "work,urgent");
    assert_eq!(table.get_string_attribute("tags.count", &task, &tasks, 0), "2");
    task.tags = Some(vec!["PENDING".to_string()]);
    assert_eq!(table.get_string_attribute("tags.count", &task, &tasks, 0), "");
}

#[test]
fn test_get_string_attribute_depends_resolves_in_result_set() {
    let table = TaskReportTable::new("report.next.columns depends\n", "next").expect("builds");
    let mut a = simple_task("aaa", "a");
    a.id = Some(1);
    let mut b = simple_task("bbb", "b");
    b.id = Some(2);
    let mut c = simple_task("ccc", "c");
    c.id = Some(3);
    c.depends = Some(vec!["aaa".to_string(), "zzz".to_string(), "bbb".to_string()]);
    let tasks = vec![a, b, c.clone()];
    // The cross-set dependency zzz is silently dropped.
    assert_eq!(table.get_string_attribute("depends", &c, &tasks, 0), "1 2");
    assert_eq!(table.get_string_attribute("depends.count", &c, &tasks, 0), "3");
}

#[test]
fn test_get_string_attribute_dates_and_ages() {
    let table = TaskReportTable::new("report.next.columns due\n", "next").expect("builds");
    let mut task = simple_task("a1", "x");
    task.entry = Timestamp { year: 2024, month: 1, day: 1, hour: 0, minute: 0, second: 0,
        epoch_seconds: 1000 };
    task.due = Some(Timestamp { year: 2024, month: 2, day: 3, hour: 0, minute: 0, second: 0,
        epoch_seconds: 4600 });
    let tasks = vec![task.clone()];
    assert_eq!(table.get_string_attribute("entry", &task, &tasks, 1060), "2024-01-01");
    assert_eq!(table.get_string_attribute("entry.age", &task, &tasks, 1060), "1min");
    assert_eq!(table.get_string_attribute("due", &task, &tasks, 1060), "2024-02-03");
    assert_eq!(table.get_string_attribute("due.relative", &task, &tasks, 1000), "1h");
}

#[test]
fn test_get_string_attribute_duration_uda() {
    let table = TaskReportTable::new("report.next.columns id\n", "next").expect("builds");
    let mut task = simple_task("a1", "x");
    task.uda = vec![
        ("totalactivetime".to_string(), UdaValue::Str("3661".to_string())),
        ("note".to_string(), UdaValue::Str("3661".to_string())),
        ("worktime".to_string(), UdaValue::Int(120)),
        ("elapsed".to_string(), UdaValue::Real { text: "90.5".to_string(), whole: 90 }),
    ];
    let tasks = vec![task.clone()];
    assert_eq!(table.get_string_attribute("totalactivetime", &task, &tasks, 0), "1h");
    assert_eq!(table.get_string_attribute("note", &task, &tasks, 0), "3661");
    assert_eq!(table.get_string_attribute("worktime", &task, &tasks, 0), "2min");
    assert_eq!(table.get_string_attribute("elapsed", &task, &tasks, 0), "1min");
    assert_eq!(table.get_string_attribute("missing", &task, &tasks, 0), "");
}

#[test]
fn test_get_string_attribute_description_count() {
    let table = TaskReportTable::new("report.next.columns id\n", "next").expect("builds");
    let mut task = simple_task("a1", "do it");
    let tasks = vec![task.clone()];
    assert_eq!(table.get_string_attribute("description.count", &task, &tasks, 0), "do it ");
    task.annotation_count = Some(3);
    assert_eq!(table.get_string_attribute("description.count", &task, &tasks, 0), "do it [3]");
}

#[test]
fn test_truncate_description_respects_budget() {
    // Truncation removed characters: one column of the budget goes to
    // the ellipsis mark, so kept prefix plus mark fit the budget.
    let (text, width) = truncate_description("hello world", 5);
    assert_eq!(text, "hell\u{2026}");
    assert!(width < 5);

    // A budget at least the content keeps the text whole, no mark.
    let (text, width) = truncate_description("hello", 10);
    assert_eq!(text, "hello");
    assert!(width <= 10);

    // Wide characters never panic and stay within the budget.
    let (text, width) = truncate_description("日本語のテキスト", 4);
    assert!(width < 4);
    assert!(text.ends_with('\u{2026}'));

    // A wide text that exactly fits its budget stays whole.
    let (text, width) = truncate_description("\u{6f22}\u{6f22}", 4);
    assert_eq!(text, "\u{6f22}\u{6f22}");
    assert!(width <= 4);

    // A zero budget keeps nothing, even of a nonempty description.
    let (text, width) = truncate_description("abc", 0);
    assert_eq!(text, "");
    assert_eq!(width, 0);

    // Empty input is untouched for any budget.
    let (text, width) = truncate_description("", 7);
    assert_eq!(text, "");
    assert_eq!(width, 0);
}

#[test]
fn test_truncated_description_attribute() {
    let data = "report.next.columns description.truncated\n";
    let mut table = TaskReportTable::new(data, "next").expect("builds");
    table.description_width = 4;
    let task = simple_task("a1", "abcdefgh");
    let tasks = vec![task.clone()];
    assert_eq!(table.get_string_attribute("description.truncated", &task, &tasks, 0),
        "abc\u{2026}");
    let short = simple_task("a2", "ab");
    assert_eq!(table.get_string_attribute("description.truncated", &short, &tasks, 0), "ab");
}

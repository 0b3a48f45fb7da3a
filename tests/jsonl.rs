use after15::calendar::CalDate;
use after15::format::format_hm;
use after15::jsonl::{
    extract_project_from_tool_input, extract_project_name, find_all_jsonl_files,
    find_recent_jsonl_files, find_today_jsonl_files, project_of_record, FileCandidate, JsonlEntry,
    ToolInput,
};
use after15::report::{normalize_project_name, ProjectsConfig};

#[test]
fn test_extract_project_name() {
    let path = "/home/jarx/.agent/projects/-home-jarx-Programowanie-farmaster2/session.jsonl";
    let name = extract_project_name(path);
    assert_eq!(name, "-home-jarx-Programowanie-farmaster2");
}

#[test]
fn background_logs_and_bare_logs() {
    assert_eq!(extract_project_name("/home/u/.agent/transcripts/x.jsonl"), "transcripts");
    assert_eq!(extract_project_name("/home/u/.agent/projects/x.jsonl"), "unknown");
    assert_eq!(extract_project_name("x.jsonl"), "unknown");
}

fn entry(file_path: Option<&str>, path: Option<&str>, workdir: Option<&str>) -> JsonlEntry {
    JsonlEntry {
        timestamp: None,
        session_id: None,
        tool_input: Some(ToolInput {
            file_path: file_path.map(|s| s.to_string()),
            path: path.map(|s| s.to_string()),
            workdir: workdir.map(|s| s.to_string()),
        }),
    }
}

#[test]
fn project_from_tool_input_paths() {
    let e = entry(Some("/home/jarx/Programowanie/my_app/src/main.rs"), None, None);
    assert_eq!(extract_project_from_tool_input(&e).as_deref(), Some("-home-jarx-Programowanie-my-app"));
    let e = entry(None, Some("/x/Programowanie/tool"), Some("/y"));
    assert_eq!(extract_project_from_tool_input(&e).as_deref(), Some("-home-jarx-Programowanie-tool"));
    let e = entry(None, None, Some("/home/jarx/Documents/a"));
    assert_eq!(extract_project_from_tool_input(&e), None);
    let e = entry(Some("/home/jarx/Programowanie//a"), None, None);
    assert_eq!(extract_project_from_tool_input(&e), None);
    let none = JsonlEntry { timestamp: None, session_id: None, tool_input: None };
    assert_eq!(extract_project_from_tool_input(&none), None);
}

#[test]
fn record_labels() {
    let e = entry(Some("/home/jarx/Programowanie/a_b/c"), None, None);
    assert_eq!(project_of_record(&"transcripts".to_string(), &e), "-home-jarx-Programowanie-a-b");
    assert_eq!(project_of_record(&"proj".to_string(), &e), "proj");
    let plain = entry(None, None, None);
    assert_eq!(project_of_record(&"transcripts".to_string(), &plain), "transcripts");
}

fn cand(path: &str, is_file: bool, modified: Option<CalDate>) -> FileCandidate {
    FileCandidate { path: path.to_string(), is_file, modified }
}

#[test]
fn log_files_are_filtered() {
    let d1 = CalDate::from_ymd(2025, 8, 1).unwrap();
    let d5 = CalDate::from_ymd(2025, 8, 5).unwrap();
    let cands = vec![
        cand("/p/a/s.jsonl", true, Some(d1)),
        cand("/p/a/s.json", true, Some(d5)),
        cand("/p/a/subagents/s.jsonl", true, Some(d5)),
        cand("/p/a/dir.jsonl", false, Some(d5)),
        cand("/p/b/t.jsonl", true, Some(d5)),
        cand("/p/c/u.jsonl", true, None),
    ];
    assert_eq!(find_all_jsonl_files(&cands), vec!["/p/a/s.jsonl", "/p/b/t.jsonl", "/p/c/u.jsonl"]);
    assert_eq!(find_today_jsonl_files(&cands, d5), vec!["/p/b/t.jsonl", "/p/c/u.jsonl"]);
    assert_eq!(find_recent_jsonl_files(&cands, d5, 3), vec!["/p/b/t.jsonl", "/p/c/u.jsonl"]);
    assert_eq!(find_recent_jsonl_files(&cands, d5, 4).len(), 3);
}

#[test]
fn hour_formatting() {
    let minute: i128 = 60_000_000;
    assert_eq!(format_hm(0), "0:00");
    assert_eq!(format_hm(90 * minute), "1:30");
    assert_eq!(format_hm(-90 * minute), "-1:30");
    assert_eq!(format_hm(-30 * minute), "-0:30");
    assert_eq!(format_hm(minute / 2 - 1), "0:00");
    assert_eq!(format_hm(minute / 2), "0:01");
    assert_eq!(format_hm(-minute / 2), "-0:01");
    assert_eq!(format_hm(605 * minute), "10:05");
    assert_eq!(format_hm(1234 * 60 * minute), "1234:00");
}

#[test]
fn project_display_names() {
    assert_eq!(normalize_project_name("-home-jarx-Programowanie-farmaster2", "Programowanie"), "farmaster2");
    assert_eq!(normalize_project_name("", "Programowanie"), "Inne");
    assert_eq!(normalize_project_name("unknown", "Programowanie"), "Inne");
    assert_eq!(normalize_project_name("-home-jarx-Programowanie-", "Programowanie"), "Inne");
    assert_eq!(normalize_project_name("-home-jarx-Programowanie-a-b-", "Programowanie"), "a-b");
    let cfg = ProjectsConfig::default();
    assert_eq!(cfg.tracked_path, "Programowanie");
    assert!(cfg.excluded_projects.is_empty());
}

use cortex::report::{
    generate_id,
    is_report_file, newest_first, prepare_report, report_file_name, report_id, reports_dir,
    stamp_report, synthesize, TaskReport,
};

fn report(ts: &str, task_type: &str, files: &[&str], issues: &[&str]) -> TaskReport {
    TaskReport {
        id: format!("id-{ts}"),
        timestamp: ts.to_string(),
        project_root: "/p".to_string(),
        task_type: task_type.to_string(),
        summary: "done".to_string(),
        model: "m1".to_string(),
        tools_used: vec!["search_symbols".to_string()],
        files_modified: files.iter().map(|f| f.to_string()).collect(),
        issues_found: issues.iter().map(|i| i.to_string()).collect(),
        improvement_suggestions: vec![],
        metadata: vec![],
    }
}

#[test]
fn synthesis_counts_and_dates() {
    let reports = vec![
        report("2024-03-02T10:00:00Z", "bug_fix", &["src/a.rs", "src/b.rs"], &["flaky test"]),
        report("2024-03-01T09:00:00Z", "feature", &["src/a.rs"], &["flaky test"]),
        report("2024-03-03T08:00:00Z", "bug_fix", &[], &[]),
    ];
    let r = synthesize(&reports, 5);
    assert_eq!(r.total_reports, 5);
    assert_eq!(r.reports_analyzed, 3);
    let d = r.date_range.unwrap();
    assert_eq!(d.from, "2024-03-01T09:00:00Z");
    assert_eq!(d.to, "2024-03-03T08:00:00Z");
    assert_eq!(r.task_type_breakdown[0], ("bug_fix".to_string(), 2));
    assert_eq!(r.frequently_modified_files[0].file_path, "src/a.rs");
    assert_eq!(r.frequently_modified_files[0].count, 2);
    assert_eq!(r.recurring_issues[0].issue, "flaky test");
    assert_eq!(r.recurring_issues[0].count, 2);
    assert_eq!(r.tools_usage[0].count, 3);
}

#[test]
fn synthesis_of_nothing() {
    let r = synthesize(&[], 0);
    assert!(r.date_range.is_none());
    assert_eq!(r.reports_analyzed, 0);
}

#[test]
fn newest_reports_first_and_limited() {
    let reports = vec![
        report("2024-01-02", "other", &[], &[]),
        report("2024-01-03", "other", &[], &[]),
        report("2024-01-01", "other", &[], &[]),
        report("2024-01-03", "review", &[], &[]),
    ];
    let r = newest_first(reports.clone(), 10);
    let order: Vec<(&str, &str)> = r.iter().map(|x| (x.timestamp.as_str(), x.task_type.as_str())).collect();
    assert_eq!(
        order,
        vec![("2024-01-03", "other"), ("2024-01-03", "review"), ("2024-01-02", "other"), ("2024-01-01", "other")]
    );
    assert_eq!(newest_first(reports, 2).len(), 2);
}

#[test]
fn report_names_and_ids() {
    assert_eq!(report_id("20240102-030405", 123456789), "20240102-030405-123456");
    assert_eq!(report_id("t", 42), "t-42");
    assert_eq!(report_file_name("abc"), "abc.json");
    assert!(is_report_file("/p/.cortex/reports/abc.json"));
    assert!(!is_report_file("/p/.cortex/reports/notes.txt"));
    assert_eq!(reports_dir("/p"), "/p/.cortex/reports");
}

#[test]
fn reports_are_stamped_before_saving() {
    let r = stamp_report(report("", "feature", &[], &[]), "i".to_string(), "t".to_string(), "/q".to_string());
    assert_eq!((r.id.as_str(), r.timestamp.as_str(), r.project_root.as_str()), ("i", "t", "/q"));
    assert_eq!(r.task_type, "feature");
    let p = prepare_report(report("", "feature", &[], &[]), "/proj");
    assert_eq!(p.project_root, "/proj");
    assert!(!p.timestamp.is_empty());
    assert!(p.id.contains('-'));
    assert_eq!(p.summary, "done");
}

#[test]
fn rankings_count_every_occurrence_and_keep_ties_in_order() {
    let reports = vec![
        report("2024-05-01", "bug_fix", &["z.rs", "a.rs", "m.rs"], &[]),
        report("2024-05-02", "bug_fix", &["m.rs", "q.rs"], &[]),
        report("2024-05-03", "review", &["a.rs", "m.rs"], &[]),
    ];
    let r = synthesize(&reports, 3);
    let files: Vec<(&str, u32)> =
        r.frequently_modified_files.iter().map(|f| (f.file_path.as_str(), f.count)).collect();
    assert_eq!(files, vec![("m.rs", 3), ("a.rs", 2), ("z.rs", 1), ("q.rs", 1)]);
    assert_eq!(r.task_type_breakdown, vec![("bug_fix".to_string(), 2), ("review".to_string(), 1)]);
}

#[test]
fn at_most_ten_files_are_ranked() {
    let names: Vec<String> = (0..12).map(|i| format!("f{i:02}.rs")).collect();
    let refs: Vec<&str> = names.iter().map(|s| s.as_str()).collect();
    let mut reports = vec![report("2024-06-01", "other", &refs, &[])];
    reports.push(report("2024-06-02", "other", &["f11.rs"], &[]));
    let r = synthesize(&reports, 2);
    assert_eq!(r.frequently_modified_files.len(), 10);
    assert_eq!(r.frequently_modified_files[0].file_path, "f11.rs");
    assert_eq!(r.frequently_modified_files[0].count, 2);
    assert_eq!(r.frequently_modified_files[1].file_path, "f00.rs");
    assert_eq!(r.frequently_modified_files[9].file_path, "f08.rs");
}

#[test]
fn fresh_ids_and_times_have_their_forms() {
    let id = generate_id();
    let cs: Vec<char> = id.chars().collect();
    assert!(cs.len() >= 17 && cs.len() <= 22);
    assert!(cs[..8].iter().all(|c| c.is_ascii_digit()));
    assert_eq!(cs[8], '-');
    assert!(cs[9..15].iter().all(|c| c.is_ascii_digit()));
    assert_eq!(cs[15], '-');
    assert!(cs[16..].iter().all(|c| c.is_ascii_digit()));

    let r = prepare_report(report("", "other", &[], &[]), "/p");
    assert!(r.timestamp.ends_with("+00:00"));
    assert_eq!(&r.timestamp[4..5], "-");
    assert_eq!(&r.timestamp[10..11], "T");
    assert_eq!(&r.timestamp[13..14], ":");
    assert!(r.id.len() >= 17);
}

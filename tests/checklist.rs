use merge_forest::remote::parse_repo_name;
use merge_forest::model::{CoreError, MergeRecord, PrEntry, PrTree};
use merge_forest::forest::{build_forest, parse_merge_record};
use merge_forest::pipeline::{merge_method, plan_submission, pull_request_forest, MergeMethod, OpenPullRequest, Submission};
use merge_forest::reconcile::reconcile;
use merge_forest::render::render;
use merge_forest::resolve::{parse_pr_number, parse_pull_refs, resolve, PrRef};
use merge_forest::text::decimal_chars;

fn lines(v: &[&str]) -> Vec<String> {
    v.iter().map(|s| s.to_string()).collect()
}

fn record(line: &str) -> MergeRecord {
    parse_merge_record(line).unwrap()
}

fn set_authors(forest: &mut Vec<PrTree>, names: &[(u64, &str)]) {
    let name_of = |id: Option<u64>| {
        names.iter().find(|(n, _)| Some(*n) == id).map(|(_, a)| a.to_string()).unwrap_or_default()
    };
    for t in forest.iter_mut() {
        t.head.author = name_of(t.head.id);
        for c in t.children.iter_mut() {
            c.author = name_of(c.id);
        }
    }
}

fn sample_forest(refs: &[&str]) -> Vec<PrTree> {
    let all = lines(&["'p1 p2 2024-01-01'", "'p3 p4 2024-01-02'"]);
    let fp = lines(&["'p1 p2 2024-01-01'"]);
    pull_request_forest(&all, &fp, &lines(refs)).unwrap()
}

#[test]
fn end_to_end_nested_child_resolved() {
    let mut forest = sample_forest(&["p2\trefs/pull/10/head", "p4\trefs/pull/11/head"]);
    assert_eq!(forest.len(), 1);
    assert_eq!(forest[0].head.id, Some(10));
    assert_eq!(forest[0].children.len(), 1);
    assert_eq!(forest[0].children[0].id, Some(11));
    set_authors(&mut forest, &[(10, "alice"), (11, "bob")]);
    assert_eq!(render(&forest), "- [ ] #10 @alice 2024-01-01\n  - [ ] #11 @bob 2024-01-02\n");
}

#[test]
fn end_to_end_unresolved_child_dropped() {
    let mut forest = sample_forest(&["p2\trefs/pull/10/head"]);
    assert_eq!(forest.len(), 1);
    assert!(forest[0].children.is_empty());
    set_authors(&mut forest, &[(10, "alice")]);
    assert_eq!(render(&forest), "- [ ] #10 @alice 2024-01-01\n");
}

#[test]
fn unresolved_top_level_drops_its_children() {
    let forest = sample_forest(&["p4\trefs/pull/11/head"]);
    assert!(forest.is_empty());
    assert_eq!(render(&forest), "");
}

#[test]
fn empty_log_gives_empty_checklist() {
    let forest = pull_request_forest(&vec![], &vec![], &vec![]).unwrap();
    assert!(forest.is_empty());
    assert_eq!(render(&forest), "");
}

#[test]
fn mainline_records_are_top_level_in_order() {
    let all = vec![record("'a b 1'"), record("'c d 2'"), record("'e f 3'"), record("'g h 4'")];
    let fp = vec![record("'e f 3'"), record("'a b 1'")];
    let forest = build_forest(&all, &fp);
    assert_eq!(forest.len(), 2);
    assert_eq!(forest[0].head.hash, "b");
    assert_eq!(forest[0].head.date, "1");
    assert_eq!(forest[0].children.len(), 1);
    assert_eq!(forest[0].children[0].hash, "d");
    assert_eq!(forest[1].head.hash, "f");
    assert_eq!(forest[1].children.len(), 1);
    assert_eq!(forest[1].children[0].hash, "h");
    assert_eq!(forest[1].children[0].date, "4");
}

#[test]
fn leading_nested_record_is_kept() {
    let all = vec![record("'a b 1'"), record("'c d 2'")];
    let fp = vec![record("'c d 2'")];
    let forest = build_forest(&all, &fp);
    assert_eq!(forest.len(), 2);
    assert_eq!(forest[0].head.hash, "b");
    assert!(forest[0].children.is_empty());
    assert_eq!(forest[1].head.hash, "d");
}

#[test]
fn resolving_twice_changes_nothing() {
    let all = vec![record("'a b 1'"), record("'c d 2'"), record("'e f 3'"), record("'g h 4'")];
    let fp = vec![record("'a b 1'"), record("'e f 3'")];
    let forest = build_forest(&all, &fp);
    let refs = vec![
        PrRef { hash: "b".to_string(), id: 1 },
        PrRef { hash: "h".to_string(), id: 4 },
        PrRef { hash: "b".to_string(), id: 9 },
    ];
    let once = resolve(&forest, &refs);
    let twice = resolve(&once, &refs);
    assert_eq!(render(&once), render(&twice));
    assert_eq!(once.len(), 1);
    assert_eq!(once[0].head.id, Some(1));
    assert!(once[0].children.is_empty());
    assert_eq!(twice.len(), 1);
}

#[test]
fn rendering_is_deterministic() {
    let entry = |id: u64, author: &str| PrEntry {
        id: Some(id),
        date: "2024-01-01T00:00:00Z".to_string(),
        author: author.to_string(),
        hash: "x".to_string(),
    };
    let forest = vec![PrTree { head: entry(120, "carol"), children: vec![entry(7, "dan"), entry(0, "")] }];
    let first = render(&forest);
    assert_eq!(first, render(&forest.clone()));
    assert_eq!(
        first,
        "- [ ] #120 @carol 2024-01-01T00:00:00Z\n  - [ ] #7 @dan 2024-01-01T00:00:00Z\n  - [ ] #0 @ 2024-01-01T00:00:00Z\n"
    );
}

#[test]
fn reconcile_keeps_mark_of_identical_line() {
    let old = "- [x] #42 @alice 2024-01-01T00:00:00Z";
    let new = "- [ ] #7 @bob 2024-01-02T00:00:00Z\n- [ ] #42 @alice 2024-01-01T00:00:00Z\n";
    let out = reconcile(old, new);
    assert_eq!(out, "- [ ] #7 @bob 2024-01-02T00:00:00Z\n- [x] #42 @alice 2024-01-01T00:00:00Z\n");
}

#[test]
fn reconcile_loses_mark_when_author_changes() {
    let old = "- [x] #42 @ 2024-01-01T00:00:00Z\n";
    let new = "- [ ] #42 @alice 2024-01-01T00:00:00Z\n";
    assert_eq!(reconcile(old, new), new);
}

#[test]
fn reconcile_loses_mark_when_date_or_id_changes() {
    let old = "- [x] #42 @alice 2024-01-01\n- [x] #43 @bob 2024-01-01\n";
    let new = "- [ ] #42 @alice 2024-01-02\n- [ ] #44 @bob 2024-01-01\n";
    assert_eq!(reconcile(old, new), new);
}

#[test]
fn reconcile_compares_whole_lines() {
    let old = "- [x] #4 @a d\n";
    let new = "- [ ] #42 @a d\n  - [ ] #4 @a d\n";
    assert_eq!(reconcile(old, new), new);
    let old_nested = "  - [x] #4 @a d";
    assert_eq!(reconcile(old_nested, new), "- [ ] #42 @a d\n  - [x] #4 @a d\n");
}

#[test]
fn reconcile_ignores_unchecked_and_other_lines() {
    let old = "- [ ] #1 @a d\nsome text\n";
    let new = "- [ ] #1 @a d\n";
    assert_eq!(reconcile(old, new), new);
}

#[test]
fn reconcile_pattern_with_tab_leaves_line_alone() {
    let old = "-\t[x]\t#1 @a d\n";
    let new = "-\t[x]\t#1 @a d\n- [ ] #1 @a d\n";
    assert_eq!(reconcile(old, new), new);
}

#[test]
fn new_pull_request_gets_fresh_body() {
    let fresh = "- [ ] #10 @alice 2024-01-01\n".to_string();
    match plan_submission(None, fresh.clone()) {
        Submission::Create { body } => assert_eq!(body, fresh),
        Submission::Update { .. } => panic!("expected a new pull request"),
    }
}

#[test]
fn existing_pull_request_is_updated_with_reconciled_body() {
    let fresh = "- [ ] #10 @alice 2024-01-01\n  - [ ] #11 @bob 2024-01-02\n".to_string();
    let existing = OpenPullRequest { number: 5, body: Some("  - [x] #11 @bob 2024-01-02\n".to_string()) };
    match plan_submission(Some(existing), fresh) {
        Submission::Update { number, body } => {
            assert_eq!(number, 5);
            assert_eq!(body, "- [ ] #10 @alice 2024-01-01\n  - [x] #11 @bob 2024-01-02\n");
        }
        Submission::Create { .. } => panic!("expected an update"),
    }
}

#[test]
fn existing_pull_request_without_body_gets_fresh_body() {
    let fresh = "- [ ] #10 @alice 2024-01-01\n".to_string();
    match plan_submission(Some(OpenPullRequest { number: 8, body: None }), fresh.clone()) {
        Submission::Update { number, body } => {
            assert_eq!(number, 8);
            assert_eq!(body, fresh);
        }
        Submission::Create { .. } => panic!("expected an update"),
    }
}

#[test]
fn merge_method_choice() {
    assert_eq!(merge_method(false, true, true), None);
    assert_eq!(merge_method(true, false, false), Some(MergeMethod::Merge));
    assert_eq!(merge_method(true, true, false), Some(MergeMethod::Squash));
    assert_eq!(merge_method(true, true, true), Some(MergeMethod::Rebase));
}

#[test]
fn log_line_is_parsed() {
    let r = parse_merge_record("'abc123 def456 2024-01-01T10:00:00+09:00'").unwrap();
    assert_eq!(r.parents, vec!["abc123".to_string(), "def456".to_string()]);
    assert_eq!(r.date, "2024-01-01T10:00:00+09:00");
}

#[test]
fn short_log_line_is_an_error() {
    assert_eq!(parse_merge_record("'abc123 2024-01-01'").unwrap_err(), CoreError::UnparseableLogLine);
    let all = lines(&["'a b 1'", ""]);
    assert_eq!(pull_request_forest(&all, &vec![], &vec![]).unwrap_err(), CoreError::UnparseableLogLine);
}

#[test]
fn ref_lines_are_parsed_and_others_skipped() {
    let refs = parse_pull_refs(&lines(&[
        "abc123\trefs/pull/17/head",
        "def456\trefs/heads/main",
        "0a1b refs/pull/007/head",
    ]))
    .unwrap();
    assert_eq!(refs.len(), 2);
    assert_eq!(refs[0].hash, "abc123");
    assert_eq!(refs[0].id, 17);
    assert_eq!(refs[1].hash, "0a1b");
    assert_eq!(refs[1].id, 7);
}

#[test]
fn oversized_pull_request_number_is_an_error() {
    let r = parse_pull_refs(&lines(&["abc\trefs/pull/18446744073709551616/head"]));
    assert_eq!(r.unwrap_err(), CoreError::UnparseableRefLine);
    let ok = parse_pull_refs(&lines(&["abc\trefs/pull/18446744073709551615/head"])).unwrap();
    assert_eq!(ok[0].id, u64::MAX);
}

#[test]
fn pull_request_numbers() {
    assert_eq!(parse_pr_number("0"), Some(0));
    assert_eq!(parse_pr_number("1234"), Some(1234));
    assert_eq!(parse_pr_number(""), None);
    assert_eq!(parse_pr_number("12a"), None);
    assert_eq!(parse_pr_number("١٢"), None);
}

#[test]
fn decimal_notation() {
    assert_eq!(decimal_chars(0), vec!['0']);
    assert_eq!(decimal_chars(907), vec!['9', '0', '7']);
    assert_eq!(decimal_chars(u64::MAX).into_iter().collect::<String>(), "18446744073709551615");
}

#[test]
fn repo_name_from_ssh_and_https_remotes() {
    assert_eq!(
        parse_repo_name("git@github.com:octo/widgets.git").unwrap(),
        ("octo".to_string(), "widgets".to_string())
    );
    assert_eq!(
        parse_repo_name("https://github.com/octo/widgets.git").unwrap(),
        ("octo".to_string(), "widgets".to_string())
    );
    assert_eq!(parse_repo_name("https://github.com/octo/widgets").unwrap().1, "widgets");
}

#[test]
fn malformed_remote_is_an_error() {
    assert_eq!(parse_repo_name("no-colon-here").unwrap_err(), CoreError::MalformedRemoteUrl);
    assert_eq!(parse_repo_name("https://github.com/octo").unwrap_err(), CoreError::MalformedRemoteUrl);
    assert_eq!(parse_repo_name("https://github.com/").unwrap_err(), CoreError::MalformedRemoteUrl);
}

#[test]
fn reference_numbered_zero_resolves_nothing() {
    let forest = sample_forest(&["p2\trefs/pull/0/head", "p4\trefs/pull/11/head"]);
    assert!(forest.is_empty());
    let mut forest = sample_forest(&["p2\trefs/pull/10/head", "p4\trefs/pull/0/head"]);
    assert_eq!(forest.len(), 1);
    assert_eq!(forest[0].head.id, Some(10));
    assert!(forest[0].children.is_empty());
    set_authors(&mut forest, &[(10, "alice")]);
    assert_eq!(render(&forest), "- [ ] #10 @alice 2024-01-01\n");
}

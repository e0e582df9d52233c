use grade::aggregate::{Aggregator, ExecutionResult};
use grade::record::Entry;
use grade::scan::{clean_username, find_submissions, IsDir, ListingEntry};
use grade::template::{load_template, Registry, TemplateError};
use grade::window::{grader_output, split_lines, window};

const HEADER: &str =
    "username,permnum,full_name,email,comments,grader_output,score,letter_grade,late_days\n";

fn s(v: &str) -> String {
    v.to_string()
}

fn lines(v: &[&str]) -> Vec<String> {
    v.iter().map(|l| l.to_string()).collect()
}

fn result(id: &str, output: &str) -> ExecutionResult {
    ExecutionResult { student_id: s(id), grader_output: s(output) }
}

fn template_text() -> String {
    format!(
        "{}alice,111,Alice A,alice@x.edu,,,,,\ncarol,333,Carol C,carol@x.edu,late,,90,A,2\n",
        HEADER
    )
}

/// Runs the merge of `results` over `registry` as the application does:
/// rows of the results first, then the records left in the roster.
fn run(registry: Registry, results: Vec<ExecutionResult>, sidecar: &str) -> Vec<Entry> {
    let mut agg = Aggregator::new(registry);
    let mut rows = Vec::new();
    for r in results {
        let fallback = if agg.needs_sidecar(&r.student_id) {
            Some(Entry::from_readme(sidecar))
        } else {
            None
        };
        rows.push(agg.merge(r, fallback).unwrap());
    }
    rows.extend(agg.finish());
    rows
}

#[test]
fn derived_id_stops_at_first_dash() {
    assert_eq!(clean_username("alice-hw1"), "alice");
    assert_eq!(clean_username("bob"), "bob");
    assert_eq!(clean_username("eve-hw1-late"), "eve");
    assert_eq!(clean_username("-hw1"), "");
    assert_eq!(clean_username(""), "");
}

#[test]
fn listing_keeps_directories_only() {
    let listing = vec![
        ListingEntry { name: s("alice-hw1"), directory: true },
        ListingEntry { name: s("grading.csv"), directory: false },
        ListingEntry { name: s("bob"), directory: true },
    ];
    assert!(listing[0].is_dir());
    assert!(!listing[1].is_dir());
    let jobs = find_submissions(&listing);
    assert_eq!(jobs.len(), 2);
    assert_eq!(jobs[0].directory, "alice-hw1");
    assert_eq!(jobs[0].student_id, "alice");
    assert_eq!(jobs[1].directory, "bob");
    assert_eq!(jobs[1].student_id, "bob");
}

#[test]
fn lines_split_like_line_reading() {
    assert_eq!(split_lines("a\nb\r\nc"), lines(&["a", "b", "c"]));
    assert_eq!(split_lines("a\n"), lines(&["a"]));
    assert_eq!(split_lines(""), lines(&[]));
    assert_eq!(split_lines("\n\n"), lines(&["", ""]));
    assert_eq!(split_lines("x\r"), lines(&["x\r"]));
    assert_eq!(split_lines("é\nü"), lines(&["é", "ü"]));
}

#[test]
fn window_keeps_last_lines() {
    let ls = lines(&["a", "b", "c"]);
    assert_eq!(window(&ls, Some(1)), "c\n");
    assert_eq!(window(&ls, Some(2)), "b\nc\n");
    assert_eq!(window(&ls, None), "a\nb\nc\n");
}

#[test]
fn window_wide_or_empty() {
    let ls = lines(&["a", "b", "c"]);
    assert_eq!(window(&ls, Some(3)), window(&ls, None));
    assert_eq!(window(&ls, Some(100)), "a\nb\nc\n");
    assert_eq!(window(&ls, Some(0)), "");
    assert_eq!(window(&lines(&[]), None), "");
}

#[test]
fn grader_output_marks_failure() {
    assert_eq!(grader_output("one\ntwo\n", None, Some(1)), "two\n");
    assert_eq!(
        grader_output("ok\n", Some(s("exit status: 1")), Some(1)),
        "error: exit status: 1\nok\n"
    );
    assert_eq!(grader_output("", Some(s("spawn failed")), None), "error: spawn failed\n");
}

#[test]
fn parse_error_record_fields() {
    let e = Entry::parse_error();
    assert_eq!(e.username, "error");
    assert_eq!(e.permnum, "error");
    assert_eq!(e.full_name, "error");
    assert_eq!(e.email, "error");
    assert_eq!(e.comments, "error");
    assert_eq!(e.grader_output, "error");
    assert_eq!(e.score, "");
    assert_eq!(e.letter_grade, "");
    assert_eq!(e.late_days, "");
}

#[test]
fn readme_fields_are_read() {
    let e = Entry::from_readme("username = \"bob\"\nname = \"Bob B\"\nemail = \"bob@x.edu\"\n");
    assert_eq!(e.username, "bob");
    assert_eq!(e.full_name, "Bob B");
    assert_eq!(e.email, "bob@x.edu");
    assert_eq!(e.permnum, "");
    assert_eq!(e.comments, "");
    assert_eq!(e.grader_output, "");
}

#[test]
fn readme_missing_keys_are_marked() {
    let e = Entry::from_readme("name = 7\n");
    assert_eq!(e.username, "error");
    assert_eq!(e.full_name, "error");
    assert_eq!(e.email, "error");
    assert_eq!(e.permnum, "");
    let empty = Entry::from_readme("");
    assert_eq!(empty.username, "error");
    assert_eq!(empty.full_name, "error");
    assert_eq!(empty.email, "error");
}

#[test]
fn readme_unparsable_gives_error_record() {
    assert_eq!(Entry::from_readme("this is = = not toml"), Entry::parse_error());
}

#[test]
fn template_loads_rows_in_order() {
    let reg = load_template(&template_text()).unwrap();
    assert_eq!(reg.len(), 2);
    let rows = reg.into_entries();
    assert_eq!(rows[0].username, "alice");
    assert_eq!(rows[0].permnum, "111");
    assert_eq!(rows[1].username, "carol");
    assert_eq!(rows[1].comments, "late");
    assert_eq!(rows[1].score, "90");
    assert_eq!(rows[1].late_days, "2");
}

#[test]
fn template_later_duplicate_replaces() {
    let text = format!("{}a,1,,,,,,,\nb,2,,,,,,,\na,3,,,,,,,\n", HEADER);
    let rows = load_template(&text).unwrap().into_entries();
    assert_eq!(rows.len(), 2);
    assert_eq!(rows[0].username, "a");
    assert_eq!(rows[0].permnum, "3");
    assert_eq!(rows[1].username, "b");
}

#[test]
fn template_errors() {
    let short = "a,b\n1,2\n3,4\n";
    assert_eq!(load_template(short).err(), Some(TemplateError::BadRow(0)));
    let ragged = "a,b\n1,2,3\n";
    assert_eq!(load_template(ragged).err(), Some(TemplateError::Unreadable));
    assert_eq!(load_template(HEADER).unwrap().len(), 0);
}

#[test]
fn registry_insert_remove() {
    let mut reg = Registry::new();
    let mut a = Entry::parse_error();
    a.username = s("a");
    reg.insert(a.clone());
    assert!(reg.contains(&s("a")));
    assert!(!reg.contains(&s("b")));
    assert_eq!(reg.remove(&s("b")), None);
    assert_eq!(reg.remove(&s("a")), Some(a));
    assert_eq!(reg.len(), 0);
}

#[test]
fn columns_round_trip() {
    let reg = load_template(&template_text()).unwrap();
    let carol = reg.into_entries().pop().unwrap();
    let cols = carol.columns();
    assert_eq!(cols.len(), 9);
    assert_eq!(cols[0], "carol");
    assert_eq!(cols[8], "2");
    assert_eq!(Entry::from_columns(cols), Some(carol));
    assert_eq!(Entry::from_columns(lines(&["x"])), None);
}

#[test]
fn scenario_template_and_fallback_rows() {
    let reg = load_template(&template_text()).unwrap();
    let listing = vec![
        ListingEntry { name: s("alice-hw1"), directory: true },
        ListingEntry { name: s("bob-hw1"), directory: true },
    ];
    let jobs = find_submissions(&listing);
    let results: Vec<ExecutionResult> = jobs
        .iter()
        .map(|j| result(&j.student_id, &grader_output("ok\n", None, Some(1))))
        .collect();
    let rows = run(reg, results, "username = \"bobby\"\nname = \"Bob B\"\nemail = \"bob@x.edu\"\n");
    assert_eq!(rows.len(), 3);
    assert_eq!(rows[0].username, "alice");
    assert_eq!(rows[0].full_name, "Alice A");
    assert_eq!(rows[0].permnum, "111");
    assert_eq!(rows[0].grader_output, "ok\n");
    assert_eq!(rows[1].username, "bob");
    assert_eq!(rows[1].full_name, "Bob B");
    assert_eq!(rows[1].email, "bob@x.edu");
    assert_eq!(rows[1].grader_output, "ok\n");
    assert_eq!(rows[2].username, "carol");
    assert_eq!(rows[2].full_name, "Carol C");
    assert_eq!(rows[2].grader_output, "");
}

#[test]
fn scenario_no_sidecar_no_template() {
    let rows = run(Registry::new(), vec![result("dave", "done\n")], "");
    assert_eq!(rows.len(), 1);
    assert_eq!(rows[0].username, "dave");
    assert_eq!(rows[0].full_name, "error");
    assert_eq!(rows[0].email, "error");
    assert_eq!(rows[0].grader_output, "done\n");
}

#[test]
fn scenario_failed_command_still_emitted() {
    let reg = load_template(&template_text()).unwrap();
    let out = grader_output("partial\n", Some(s("exit status: 2")), None);
    let rows = run(reg, vec![result("alice", &out), result("zed", "fine\n")], "");
    assert_eq!(rows.len(), 3);
    assert_eq!(rows[0].username, "alice");
    assert!(rows[0].grader_output.starts_with("error: "));
    assert_eq!(rows[0].grader_output, "error: exit status: 2\npartial\n");
}

#[test]
fn row_count_and_each_id_once() {
    let reg = load_template(&template_text()).unwrap();
    let rows = run(
        reg,
        vec![result("alice", "1\n"), result("bob", "2\n"), result("dan", "3\n")],
        "",
    );
    // 3 results, 2 roster records, 1 matched: 3 + 2 - 1 rows.
    assert_eq!(rows.len(), 4);
    let mut ids: Vec<String> = rows.iter().map(|r| r.username.clone()).collect();
    ids.sort();
    assert_eq!(ids, lines(&["alice", "bob", "carol", "dan"]));
}

#[test]
fn arrival_order_keeps_row_set() {
    let first = run(
        load_template(&template_text()).unwrap(),
        vec![result("alice", "1\n"), result("bob", "2\n")],
        "",
    );
    let second = run(
        load_template(&template_text()).unwrap(),
        vec![result("bob", "2\n"), result("alice", "1\n")],
        "",
    );
    let mut a: Vec<Vec<String>> = first.iter().map(|e| e.columns()).collect();
    let mut b: Vec<Vec<String>> = second.iter().map(|e| e.columns()).collect();
    assert_ne!(a, b);
    a.sort();
    b.sort();
    assert_eq!(a, b);
}

#[test]
fn merge_without_fallback_waits() {
    let mut agg = Aggregator::new(Registry::new());
    assert!(agg.needs_sidecar(&s("x")));
    assert_eq!(agg.merge(result("x", "o\n"), None), None);
    let row = agg.merge(result("x", "o\n"), Some(Entry::parse_error())).unwrap();
    assert_eq!(row.username, "x");
    assert_eq!(row.grader_output, "o\n");
    assert_eq!(row.comments, "error");
    assert_eq!(agg.finish().len(), 0);
}

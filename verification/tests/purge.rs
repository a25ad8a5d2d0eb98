use delete_old_files::age::Timestamp;
use delete_old_files::config::Config;
use delete_old_files::purge::{purge, Report};
use delete_old_files::status::{Outcome, StatusLine};
use delete_old_files::tree::{list, Node};

const NOW_SECS: u64 = 1_000_000;

fn now() -> Option<Timestamp> {
    Some(Timestamp::new(NOW_SECS, 0))
}

fn aged(minutes: u64) -> Option<Timestamp> {
    Some(Timestamp::new(NOW_SECS - minutes * 60, 0))
}

fn file(path: &str, minutes: u64) -> Node {
    Node::file(String::from(path), aged(minutes), true)
}

fn locked_file(path: &str, minutes: u64) -> Node {
    Node::file(String::from(path), aged(minutes), false)
}

fn dir(path: &str, children: Vec<Node>) -> Node {
    Node::dir(String::from(path), children, true, true)
}

fn locked_dir(path: &str, children: Vec<Node>) -> Node {
    Node::dir(String::from(path), children, true, false)
}

fn unreadable_dir(path: &str, children: Vec<Node>) -> Node {
    Node::dir(String::from(path), children, false, true)
}

fn line(outcome: Outcome, path: &str) -> StatusLine {
    StatusLine::new(outcome, String::from(path))
}

fn run(root: &Node, min_age: u32, delete: bool) -> Report {
    let config = Config::new(String::from("root"), min_age, delete).unwrap();
    purge(&config, root, now())
}

fn texts(report: &Report) -> Vec<String> {
    report.lines.iter().map(|l| l.text()).collect()
}

#[test]
fn scenario_old_file_is_deleted() {
    let root = dir("root", vec![file("root/a.txt", 90)]);
    let report = run(&root, 60, true);
    assert_eq!(report.result, Ok(true));
    assert_eq!(report.root, dir("root", vec![]));
    assert_eq!(report.lines, vec![line(Outcome::FileDeleted, "root/a.txt")]);
    assert_eq!(texts(&report), vec!["File deleted: root/a.txt"]);
}

#[test]
fn scenario_young_file_is_skipped() {
    let root = dir("root", vec![file("root/a.txt", 10)]);
    let report = run(&root, 60, true);
    assert_eq!(report.result, Ok(false));
    assert_eq!(report.root, root);
    assert_eq!(report.lines, vec![line(Outcome::FileSkippedTooYoung, "root/a.txt")]);
    assert_eq!(texts(&report), vec!["File not old enough to be deleted: root/a.txt"]);
}

#[test]
fn scenario_empty_subdirectory_is_removed() {
    let root = dir("root", vec![dir("root/sub", vec![])]);
    let report = run(&root, 60, true);
    assert_eq!(report.result, Ok(true));
    assert_eq!(report.root, dir("root", vec![]));
    assert_eq!(report.lines, vec![line(Outcome::DirectoryDeleted, "root/sub")]);
    assert_eq!(texts(&report), vec!["Directory deleted: root/sub"]);
}

#[test]
fn scenario_subdirectory_with_young_file_stays() {
    let root = dir("root", vec![dir("root/sub", vec![file("root/sub/a.txt", 10)])]);
    let report = run(&root, 60, true);
    assert_eq!(report.result, Ok(false));
    assert_eq!(report.root, root);
    assert_eq!(
        report.lines,
        vec![
            line(Outcome::FileSkippedTooYoung, "root/sub/a.txt"),
            line(Outcome::DirectoryNotEmptyEnough, "root/sub"),
        ]
    );
    assert_eq!(
        texts(&report),
        vec![
            "File not old enough to be deleted: root/sub/a.txt",
            "Failed to delete all files/directories within directory: root/sub",
        ]
    );
}

#[test]
fn scenario_simulation_reports_deletion_but_keeps_file() {
    let root = dir("root", vec![file("root/a.txt", 90)]);
    let report = run(&root, 60, false);
    assert_eq!(report.result, Ok(true));
    assert_eq!(report.root, root);
    assert_eq!(report.lines, vec![line(Outcome::FileDeleted, "root/a.txt")]);
    assert_eq!(texts(&report), vec!["File deleted: root/a.txt"]);
}

#[test]
fn empty_root_is_cleared_and_kept() {
    let root = dir("root", vec![]);
    for delete in [false, true] {
        let report = run(&root, 60, delete);
        assert_eq!(report.result, Ok(true));
        assert_eq!(report.root, root);
        assert!(report.lines.is_empty());
    }
}

#[test]
fn root_is_kept_even_if_it_could_be_removed() {
    let root = Node::dir(String::from("root"), vec![file("root/a", 500)], true, true);
    let report = run(&root, 60, true);
    assert_eq!(report.result, Ok(true));
    assert_eq!(report.root, dir("root", vec![]));
}

#[test]
fn file_that_resists_removal_is_reported_and_kept() {
    let root = dir("root", vec![locked_file("root/a", 90), file("root/b", 90)]);
    let report = run(&root, 60, true);
    assert_eq!(report.result, Ok(false));
    assert_eq!(report.root, dir("root", vec![locked_file("root/a", 90)]));
    assert_eq!(
        report.lines,
        vec![line(Outcome::FileDeleteFailed, "root/a"), line(Outcome::FileDeleted, "root/b")]
    );
}

#[test]
fn directory_that_resists_removal_is_reported_and_kept_empty() {
    let root = dir("root", vec![locked_dir("root/sub", vec![file("root/sub/a", 90)])]);
    let report = run(&root, 60, true);
    assert_eq!(report.result, Ok(false));
    assert_eq!(report.root, dir("root", vec![locked_dir("root/sub", vec![])]));
    assert_eq!(
        report.lines,
        vec![
            line(Outcome::FileDeleted, "root/sub/a"),
            line(Outcome::DirectoryDeleteFailed, "root/sub"),
        ]
    );
}

#[test]
fn file_without_readable_age_is_kept() {
    let root = dir("root", vec![Node::file(String::from("root/a"), None, true)]);
    for delete in [false, true] {
        let report = run(&root, 0, delete);
        assert_eq!(report.result, Ok(false));
        assert_eq!(report.root, root);
        assert_eq!(report.lines, vec![line(Outcome::FileSkippedTooYoung, "root/a")]);
    }
}

#[test]
fn unreadable_clock_keeps_everything() {
    let root = dir("root", vec![file("root/a", 90), dir("root/sub", vec![file("root/sub/b", 90)])]);
    let config = Config::new(String::from("root"), 0, true).unwrap();
    let report = purge(&config, &root, None);
    assert_eq!(report.result, Ok(false));
    assert_eq!(report.root, root);
    assert_eq!(
        report.lines,
        vec![
            line(Outcome::FileSkippedTooYoung, "root/a"),
            line(Outcome::FileSkippedTooYoung, "root/sub/b"),
            line(Outcome::DirectoryNotEmptyEnough, "root/sub"),
        ]
    );
}

#[test]
fn file_modified_in_the_future_is_kept() {
    let future = Node::file(String::from("root/a"), Some(Timestamp::new(NOW_SECS + 1, 0)), true);
    let root = dir("root", vec![future]);
    let report = run(&root, 0, true);
    assert_eq!(report.result, Ok(false));
    assert_eq!(report.root, root);
    assert_eq!(report.lines, vec![line(Outcome::FileSkippedTooYoung, "root/a")]);
}

#[test]
fn entries_are_visited_depth_first_in_listing_order() {
    let root = dir(
        "r",
        vec![
            file("r/1", 90),
            dir("r/d", vec![file("r/d/1", 90), dir("r/d/e", vec![file("r/d/e/1", 90)]), file("r/d/2", 90)]),
            file("r/2", 90),
        ],
    );
    let report = run(&root, 60, true);
    assert_eq!(report.result, Ok(true));
    assert_eq!(report.root, dir("r", vec![]));
    assert_eq!(
        texts(&report),
        vec![
            "File deleted: r/1",
            "File deleted: r/d/1",
            "File deleted: r/d/e/1",
            "Directory deleted: r/d/e",
            "File deleted: r/d/2",
            "Directory deleted: r/d",
            "File deleted: r/2",
        ]
    );
}

#[test]
fn one_young_file_keeps_every_directory_above_it() {
    let root = dir(
        "r",
        vec![
            dir("r/a", vec![dir("r/a/b", vec![file("r/a/b/young", 5), file("r/a/b/old", 90)]), file("r/a/old", 90)]),
            dir("r/c", vec![file("r/c/old", 90)]),
        ],
    );
    let report = run(&root, 60, true);
    assert_eq!(report.result, Ok(false));
    assert_eq!(
        report.root,
        dir("r", vec![dir("r/a", vec![dir("r/a/b", vec![file("r/a/b/young", 5)])])])
    );
    assert_eq!(
        report.lines,
        vec![
            line(Outcome::FileSkippedTooYoung, "r/a/b/young"),
            line(Outcome::FileDeleted, "r/a/b/old"),
            line(Outcome::DirectoryNotEmptyEnough, "r/a/b"),
            line(Outcome::FileDeleted, "r/a/old"),
            line(Outcome::DirectoryNotEmptyEnough, "r/a"),
            line(Outcome::FileDeleted, "r/c/old"),
            line(Outcome::DirectoryDeleted, "r/c"),
        ]
    );
}

#[test]
fn directory_is_removed_exactly_when_everything_beneath_it_went() {
    let emptied = dir("r/gone", vec![file("r/gone/a", 90), dir("r/gone/e", vec![])]);
    let blocked = dir("r/stays", vec![file("r/stays/a", 90), locked_file("r/stays/b", 90)]);
    let root = dir("r", vec![emptied, blocked]);
    let report = run(&root, 60, true);
    assert_eq!(report.result, Ok(false));
    assert_eq!(report.root, dir("r", vec![dir("r/stays", vec![locked_file("r/stays/b", 90)])]));
    assert!(report.lines.contains(&line(Outcome::DirectoryDeleted, "r/gone")));
    assert!(report.lines.contains(&line(Outcome::DirectoryDeleted, "r/gone/e")));
    assert!(report.lines.contains(&line(Outcome::DirectoryNotEmptyEnough, "r/stays")));
    assert!(!report.lines.contains(&line(Outcome::DirectoryDeleted, "r/stays")));
}

#[test]
fn young_file_survives_in_both_modes() {
    let root = dir(
        "r",
        vec![file("r/old", 61), file("r/young", 59), dir("r/d", vec![file("r/d/young", 0)])],
    );
    for delete in [false, true] {
        let report = run(&root, 60, delete);
        assert_eq!(report.result, Ok(false));
        match &report.root {
            Node::Dir { children, .. } => {
                assert!(children.contains(&file("r/young", 59)));
                assert!(children.contains(&dir("r/d", vec![file("r/d/young", 0)])));
            },
            other => panic!("root became {:?}", other),
        }
    }
}

#[test]
fn simulation_leaves_tree_unchanged_and_reports_like_deletion() {
    let root = dir(
        "r",
        vec![
            file("r/1", 90),
            dir("r/d", vec![file("r/d/1", 90), file("r/d/2", 3)]),
            dir("r/e", vec![dir("r/e/f", vec![]), file("r/e/1", 120)]),
        ],
    );
    let simulated = run(&root, 60, false);
    let deleted = run(&root, 60, true);
    assert_eq!(simulated.root, root);
    assert_eq!(simulated.lines, deleted.lines);
    assert_eq!(simulated.result, deleted.result);
    assert_eq!(simulated.result, Ok(false));
    assert_eq!(deleted.root, dir("r", vec![dir("r/d", vec![file("r/d/2", 3)])]));
}

#[test]
fn simulation_differs_from_deletion_where_a_removal_fails() {
    let root = dir("r", vec![locked_file("r/a", 90)]);
    let simulated = run(&root, 60, false);
    let deleted = run(&root, 60, true);
    assert_eq!(simulated.result, Ok(true));
    assert_eq!(simulated.lines, vec![line(Outcome::FileDeleted, "r/a")]);
    assert_eq!(deleted.result, Ok(false));
    assert_eq!(deleted.lines, vec![line(Outcome::FileDeleteFailed, "r/a")]);
    assert_eq!(simulated.root, root);
    assert_eq!(deleted.root, root);
}

#[test]
fn second_run_finds_nothing_more_to_remove() {
    let root = dir(
        "r",
        vec![
            file("r/old", 90),
            file("r/young", 10),
            locked_file("r/locked", 90),
            dir("r/d", vec![file("r/d/old", 90)]),
            locked_dir("r/l", vec![file("r/l/old", 90)]),
        ],
    );
    let first = run(&root, 60, true);
    let second = run(&first.root, 60, true);
    assert_eq!(second.root, first.root);
    assert_eq!(second.result, first.result);
    assert_eq!(
        first.root,
        dir("r", vec![file("r/young", 10), locked_file("r/locked", 90), locked_dir("r/l", vec![])])
    );
    assert_eq!(
        second.lines,
        vec![
            line(Outcome::FileSkippedTooYoung, "r/young"),
            line(Outcome::FileDeleteFailed, "r/locked"),
            line(Outcome::DirectoryDeleteFailed, "r/l"),
        ]
    );
}

#[test]
fn second_run_on_a_cleared_tree_finds_it_empty() {
    let root = dir("r", vec![file("r/a", 90), dir("r/d", vec![file("r/d/a", 90)])]);
    let first = run(&root, 60, true);
    assert_eq!(first.result, Ok(true));
    let second = run(&first.root, 60, true);
    assert_eq!(second.result, Ok(true));
    assert_eq!(second.root, dir("r", vec![]));
    assert!(second.lines.is_empty());
}

#[test]
fn later_run_removes_what_has_aged_past_the_threshold() {
    let root = dir("r", vec![file("r/a", 50), file("r/b", 10)]);
    let config = Config::new(String::from("r"), 60, true).unwrap();
    let first = purge(&config, &root, now());
    assert_eq!(first.root, root);
    let later = Some(Timestamp::new(NOW_SECS + 10 * 60, 0));
    let second = purge(&config, &first.root, later);
    assert_eq!(second.result, Ok(false));
    assert_eq!(second.root, dir("r", vec![file("r/b", 10)]));
    assert_eq!(
        second.lines,
        vec![line(Outcome::FileDeleted, "r/a"), line(Outcome::FileSkippedTooYoung, "r/b")]
    );
}

#[test]
fn unreadable_root_breaks_the_run_off() {
    let root = unreadable_dir("whatever", vec![file("whatever/a", 90)]);
    let config = Config::new(String::from("/no/such/place"), 60, true).unwrap();
    let report = purge(&config, &root, now());
    assert_eq!(report.result, Err(String::from("/no/such/place")));
    assert_eq!(report.root, root);
    assert!(report.lines.is_empty());
}

#[test]
fn root_that_is_a_file_breaks_the_run_off() {
    let root = file("r", 90);
    let report = run(&root, 60, true);
    assert_eq!(report.result, Err(String::from("root")));
    assert_eq!(report.root, root);
    assert!(report.lines.is_empty());
}

#[test]
fn unreadable_subdirectory_breaks_the_run_off_where_it_stands() {
    let root = dir(
        "r",
        vec![
            file("r/1", 90),
            dir("r/d", vec![file("r/d/1", 90), unreadable_dir("r/d/x", vec![]), file("r/d/2", 90)]),
            file("r/2", 90),
        ],
    );
    let report = run(&root, 60, true);
    assert_eq!(report.result, Err(String::from("r/d/x")));
    assert_eq!(
        report.root,
        dir(
            "r",
            vec![
                dir("r/d", vec![unreadable_dir("r/d/x", vec![]), file("r/d/2", 90)]),
                file("r/2", 90),
            ]
        )
    );
    assert_eq!(
        report.lines,
        vec![line(Outcome::FileDeleted, "r/1"), line(Outcome::FileDeleted, "r/d/1")]
    );
}

#[test]
fn threshold_is_compared_in_whole_minutes() {
    let just_short = Node::file(
        String::from("r/a"),
        Some(Timestamp::new(NOW_SECS - 3_600, 1)),
        true,
    );
    let exact = Node::file(String::from("r/b"), Some(Timestamp::new(NOW_SECS - 3_600, 0)), true);
    let root = dir("r", vec![just_short.duplicate(), exact]);
    let report = run(&root, 60, true);
    assert_eq!(report.result, Ok(false));
    assert_eq!(report.root, dir("r", vec![just_short]));
    assert_eq!(
        report.lines,
        vec![line(Outcome::FileSkippedTooYoung, "r/a"), line(Outcome::FileDeleted, "r/b")]
    );
}

#[test]
fn listing_names_each_entry_and_its_kind() {
    let nodes = vec![file("r/a", 1), dir("r/d", vec![file("r/d/x", 1)]), unreadable_dir("r/u", vec![])];
    let entries = list(&nodes);
    assert_eq!(entries.len(), 3);
    assert_eq!(entries[0].path, "r/a");
    assert!(!entries[0].is_dir);
    assert_eq!(entries[1].path, "r/d");
    assert!(entries[1].is_dir);
    assert_eq!(entries[2].path, "r/u");
    assert!(entries[2].is_dir);
    assert_eq!(nodes[0].entry(), entries[0]);
    assert!(list(&vec![]).is_empty());
}

#[test]
fn duplicate_copies_the_whole_tree() {
    let root = dir("r", vec![file("r/a", 1), locked_dir("r/d", vec![locked_file("r/d/x", 2)])]);
    assert_eq!(root.duplicate(), root);
    let leaf = Node::file(String::from("f"), None, false);
    assert_eq!(leaf.duplicate(), leaf);
}

#[test]
fn every_entry_gets_one_line_in_either_mode() {
    let root = dir(
        "r",
        vec![
            file("r/1", 90),
            locked_file("r/2", 90),
            file("r/3", 1),
            dir("r/d", vec![file("r/d/1", 90), dir("r/d/e", vec![])]),
            locked_dir("r/l", vec![]),
        ],
    );
    for delete in [false, true] {
        let report = run(&root, 60, delete);
        assert_eq!(report.lines.len(), 7);
    }
}

#[test]
fn cleared_tree_has_nothing_beneath_the_root() {
    let root = dir("r", vec![file("r/a", 90), dir("r/d", vec![dir("r/d/e", vec![file("r/d/e/f", 61)])])]);
    let report = run(&root, 60, true);
    assert_eq!(report.result, Ok(true));
    assert_eq!(report.root, dir("r", vec![]));
    let kept = dir("r", vec![file("r/a", 90), dir("r/d", vec![dir("r/d/e", vec![file("r/d/e/f", 59)])])]);
    let report = run(&kept, 60, true);
    assert_eq!(report.result, Ok(false));
    assert_eq!(report.root, dir("r", vec![dir("r/d", vec![dir("r/d/e", vec![file("r/d/e/f", 59)])])]));
}

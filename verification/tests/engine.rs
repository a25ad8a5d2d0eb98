use delete_old_files::age::{AgeReading, Timestamp};
use delete_old_files::config::Config;
use delete_old_files::engine::{Action, Child, Engine, Event};
use delete_old_files::status::{Outcome, StatusLine};

fn engine(root: &str, min_age: u32, delete: bool) -> Engine {
    Engine::new(&Config::new(String::from(root), min_age, delete).unwrap())
}

fn child(path: &str, is_dir: bool) -> Child {
    Child { path: String::from(path), is_dir }
}

fn age(minutes: u64) -> Event {
    Event::Age(AgeReading {
        modified: Some(Timestamp::new(1_000_000 - minutes * 60, 0)),
        now: Some(Timestamp::new(1_000_000, 0)),
    })
}

fn line(outcome: Outcome, path: &str) -> StatusLine {
    StatusLine::new(outcome, String::from(path))
}

fn path(p: &str) -> String {
    String::from(p)
}

#[test]
fn engine_starts_by_asking_for_the_root_listing() {
    let e = engine("/data", 60, true);
    assert_eq!(e.awaiting(), Action::List(path("/data")));
    assert_eq!(e.result(), None);
}

#[test]
fn engine_finishes_at_once_on_an_empty_root() {
    let s = engine("/data", 60, true).step(Event::Listed(vec![]));
    assert_eq!(s.action, Action::Done(true));
    assert!(s.lines.is_empty());
    assert_eq!(s.engine.awaiting(), Action::Done(true));
    assert_eq!(s.engine.result(), Some(Ok(true)));
}

#[test]
fn engine_fails_when_the_root_cannot_be_listed() {
    let s = engine("/data", 60, true).step(Event::ListFailed);
    assert_eq!(s.action, Action::Failed(path("/data")));
    assert!(s.lines.is_empty());
    assert_eq!(s.engine.result(), Some(Err(path("/data"))));
}

#[test]
fn engine_removes_an_old_file_after_reading_its_age() {
    let s = engine("r", 60, true).step(Event::Listed(vec![child("r/a", false)]));
    assert_eq!(s.action, Action::ReadAge(path("r/a")));
    assert!(s.lines.is_empty());
    let s = s.engine.step(age(90));
    assert_eq!(s.action, Action::RemoveFile(path("r/a")));
    assert!(s.lines.is_empty());
    let s = s.engine.step(Event::Removed(true));
    assert_eq!(s.action, Action::Done(true));
    assert_eq!(s.lines, vec![line(Outcome::FileDeleted, "r/a")]);
}

#[test]
fn engine_reports_a_failed_file_removal() {
    let s = engine("r", 60, true).step(Event::Listed(vec![child("r/a", false)]));
    let s = s.engine.step(age(90));
    let s = s.engine.step(Event::Removed(false));
    assert_eq!(s.action, Action::Done(false));
    assert_eq!(s.lines, vec![line(Outcome::FileDeleteFailed, "r/a")]);
}

#[test]
fn engine_skips_a_young_file_without_asking_for_removal() {
    let s = engine("r", 60, true).step(Event::Listed(vec![child("r/a", false), child("r/b", false)]));
    let s = s.engine.step(age(10));
    assert_eq!(s.action, Action::ReadAge(path("r/b")));
    assert_eq!(s.lines, vec![line(Outcome::FileSkippedTooYoung, "r/a")]);
    let s = s.engine.step(age(59));
    assert_eq!(s.action, Action::Done(false));
    assert_eq!(s.lines, vec![line(Outcome::FileSkippedTooYoung, "r/b")]);
}

#[test]
fn engine_treats_a_failed_age_reading_as_too_young() {
    let s = engine("r", 0, true).step(Event::Listed(vec![child("r/a", false)]));
    let s = s.engine.step(Event::Age(AgeReading { modified: None, now: None }));
    assert_eq!(s.action, Action::Done(false));
    assert_eq!(s.lines, vec![line(Outcome::FileSkippedTooYoung, "r/a")]);
}

#[test]
fn engine_in_simulation_never_asks_for_a_removal() {
    let s = engine("r", 60, false).step(Event::Listed(vec![child("r/d", true), child("r/a", false)]));
    assert_eq!(s.action, Action::List(path("r/d")));
    let s = s.engine.step(Event::Listed(vec![child("r/d/x", false)]));
    assert_eq!(s.action, Action::ReadAge(path("r/d/x")));
    let s = s.engine.step(age(90));
    assert_eq!(s.action, Action::ReadAge(path("r/a")));
    assert_eq!(
        s.lines,
        vec![line(Outcome::FileDeleted, "r/d/x"), line(Outcome::DirectoryDeleted, "r/d")]
    );
    let s = s.engine.step(age(90));
    assert_eq!(s.action, Action::Done(true));
    assert_eq!(s.lines, vec![line(Outcome::FileDeleted, "r/a")]);
}

#[test]
fn engine_removes_a_directory_once_it_is_cleared() {
    let s = engine("r", 60, true).step(Event::Listed(vec![child("r/d", true)]));
    assert_eq!(s.action, Action::List(path("r/d")));
    let s = s.engine.step(Event::Listed(vec![child("r/d/x", false)]));
    let s = s.engine.step(age(90));
    assert_eq!(s.action, Action::RemoveFile(path("r/d/x")));
    let s = s.engine.step(Event::Removed(true));
    assert_eq!(s.action, Action::RemoveDir(path("r/d")));
    assert_eq!(s.lines, vec![line(Outcome::FileDeleted, "r/d/x")]);
    let s = s.engine.step(Event::Removed(true));
    assert_eq!(s.action, Action::Done(true));
    assert_eq!(s.lines, vec![line(Outcome::DirectoryDeleted, "r/d")]);
}

#[test]
fn engine_removes_an_empty_directory() {
    let s = engine("r", 60, true).step(Event::Listed(vec![child("r/sub", true)]));
    let s = s.engine.step(Event::Listed(vec![]));
    assert_eq!(s.action, Action::RemoveDir(path("r/sub")));
    assert!(s.lines.is_empty());
    let s = s.engine.step(Event::Removed(true));
    assert_eq!(s.action, Action::Done(true));
    assert_eq!(s.lines, vec![line(Outcome::DirectoryDeleted, "r/sub")]);
}

#[test]
fn engine_reports_a_failed_directory_removal() {
    let s = engine("r", 60, true).step(Event::Listed(vec![child("r/sub", true), child("r/a", false)]));
    let s = s.engine.step(Event::Listed(vec![]));
    let s = s.engine.step(Event::Removed(false));
    assert_eq!(s.action, Action::ReadAge(path("r/a")));
    assert_eq!(s.lines, vec![line(Outcome::DirectoryDeleteFailed, "r/sub")]);
    let s = s.engine.step(age(90));
    let s = s.engine.step(Event::Removed(true));
    assert_eq!(s.action, Action::Done(false));
}

#[test]
fn engine_leaves_a_directory_alone_when_something_beneath_it_stays() {
    let s = engine("r", 60, true).step(Event::Listed(vec![child("r/a", true)]));
    let s = s.engine.step(Event::Listed(vec![child("r/a/b", true)]));
    let s = s.engine.step(Event::Listed(vec![child("r/a/b/f", false)]));
    assert_eq!(s.action, Action::ReadAge(path("r/a/b/f")));
    let s = s.engine.step(age(1));
    assert_eq!(s.action, Action::Done(false));
    assert_eq!(
        s.lines,
        vec![
            line(Outcome::FileSkippedTooYoung, "r/a/b/f"),
            line(Outcome::DirectoryNotEmptyEnough, "r/a/b"),
            line(Outcome::DirectoryNotEmptyEnough, "r/a"),
        ]
    );
}

#[test]
fn engine_breaks_off_when_a_subdirectory_cannot_be_listed() {
    let s = engine("r", 60, true).step(Event::Listed(vec![child("r/a", false), child("r/d", true), child("r/b", false)]));
    let s = s.engine.step(age(90));
    let s = s.engine.step(Event::Removed(true));
    assert_eq!(s.action, Action::List(path("r/d")));
    let s = s.engine.step(Event::ListFailed);
    assert_eq!(s.action, Action::Failed(path("r/d")));
    assert!(s.lines.is_empty());
    assert_eq!(s.engine.result(), Some(Err(path("r/d"))));
    let s = s.engine.step(age(90));
    assert_eq!(s.action, Action::Failed(path("r/d")));
    assert!(s.lines.is_empty());
}

#[test]
fn engine_ignores_an_event_that_does_not_answer_its_request() {
    let s = engine("r", 60, true).step(Event::Removed(true));
    assert_eq!(s.action, Action::List(path("r")));
    assert!(s.lines.is_empty());
    let s = s.engine.step(age(90));
    assert_eq!(s.action, Action::List(path("r")));
    let s = s.engine.step(Event::Listed(vec![child("r/a", false)]));
    assert_eq!(s.action, Action::ReadAge(path("r/a")));
    let s = s.engine.step(Event::Listed(vec![child("r/zzz", false)]));
    assert_eq!(s.action, Action::ReadAge(path("r/a")));
    assert!(s.lines.is_empty());
    let s = s.engine.step(Event::Removed(true));
    assert_eq!(s.action, Action::ReadAge(path("r/a")));
    let s = s.engine.step(Event::ListFailed);
    assert_eq!(s.action, Action::ReadAge(path("r/a")));
    let s = s.engine.step(age(90));
    assert_eq!(s.action, Action::RemoveFile(path("r/a")));
    let s = s.engine.step(age(90));
    assert_eq!(s.action, Action::RemoveFile(path("r/a")));
    let s = s.engine.step(Event::Removed(true));
    assert_eq!(s.action, Action::Done(true));
    let s = s.engine.step(Event::Removed(true));
    assert_eq!(s.action, Action::Done(true));
    assert!(s.lines.is_empty());
}

#[test]
fn action_duplicate_equals_the_action() {
    let actions = [
        Action::List(path("a")),
        Action::ReadAge(path("b")),
        Action::RemoveFile(path("c")),
        Action::RemoveDir(path("d")),
        Action::Done(true),
        Action::Done(false),
        Action::Failed(path("e")),
    ];
    for a in actions.iter() {
        assert_eq!(&a.duplicate(), a);
    }
}

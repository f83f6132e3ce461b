//! Builds: logs, checks before a build, and the queue.

use vxpm::building::{
    binary_version, build_deps, build_log_path, build_report, builds_from_source, bump_log_path,
    clean_masterdir, dirty_masterdir_entries, error_log_lines, history_path, log_dir,
    pkgver_version, preflight, preview_names, prune_build_logs, run_build_queue, versions_path,
    BuildHistory, BuildJobStatus, BuildMsg, BuildOutcome, BuildQueue, BuildStep, CleanOutcome,
    KEPT_LOGS,
};

fn texts(v: &[&str]) -> Vec<String> {
    v.iter().map(|s| s.to_string()).collect()
}

fn some(s: &str) -> Option<String> {
    Some(s.to_string())
}

fn dirs(v: &[(&str, &[&str])]) -> Vec<(String, Vec<String>)> {
    v.iter().map(|(d, e)| (d.to_string(), texts(e))).collect()
}

#[test]
fn empty_builddir_is_not_dirty() {
    let root = dirs(&[("masterdir-x86_64", &[])]);
    assert!(dirty_masterdir_entries(&root).is_empty());
    assert!(preflight(&root, &Vec::new()).is_empty());
}

#[test]
fn leftover_builddir_entries_flagged() {
    let root = dirs(&[("masterdir-x86_64", &["curl-8.19.0", ".xbps-zed"])]);

    let entries = dirty_masterdir_entries(&root);
    assert_eq!(entries.len(), 2);
    assert!(entries.contains(&"curl-8.19.0".to_string()));

    let warnings = preflight(&root, &Vec::new());
    assert_eq!(warnings.len(), 1);
    assert!(warnings[0].cleanable);
    assert!(warnings[0].message.contains("curl-8.19.0"));
}

#[test]
fn pkgver_version_extracts_version() {
    assert_eq!(pkgver_version("curl-8.20.0_1").as_deref(), Some("8.20.0"));
    assert_eq!(pkgver_version("ca-certificates-20250419+3.125_1").as_deref(), Some("20250419+3.125"));
    assert_eq!(pkgver_version("  openssl-3.6.3_1  ").as_deref(), Some("3.6.3"));
    assert_eq!(pkgver_version(""), None);
}

#[test]
fn only_build_directories_of_masterdirs_count() {
    let root = dirs(&[
        ("srcpkgs", &["x"]),
        ("masterdir-b", &["z", "m"]),
        ("masterdir", &["a"]),
        ("oldmasterdir", &["y"]),
    ]);
    assert_eq!(dirty_masterdir_entries(&root), ["a", "m", "z"]);
}

#[test]
fn names_are_previewed() {
    let names = texts(&["a", "b", "c", "d"]);
    assert_eq!(preview_names(&names, 4), "a, b, c, d");
    assert_eq!(preview_names(&names, 3), "a, b, c, +1 more");
    assert_eq!(preview_names(&Vec::new(), 3), "");
}

#[test]
fn warnings_before_a_build() {
    let root = dirs(&[("masterdir", &["b", "a", "d", "c"])]);
    let warnings = preflight(&root, &texts(&["curl"]));
    assert_eq!(warnings.len(), 2);
    assert_eq!(
        warnings[0].message,
        "masterdir has 4 leftover build dir(s) from an interrupted build (a, b, c, +1 more); these \
         can cause 'cannot access wrksrc' failures"
    );
    assert_eq!(
        warnings[1].message,
        "1 dependency will build from source (no binary / repo lag): curl — expect extra compile \
         time"
    );
    assert!(!warnings[1].cleanable);
    let warnings = preflight(&Vec::new(), &texts(&["a", "b"]));
    assert!(warnings[0].message.starts_with("2 dependencies will build from source"));
}

#[test]
fn dependencies_of_a_build() {
    let lists = texts(&["curl\n openssl \n\nfoo\n", "bar\ncurl\n"]);
    assert_eq!(build_deps(&lists, &texts(&["foo"])), ["bar", "curl", "openssl"]);
    assert!(build_deps(&Vec::new(), &texts(&["foo"])).is_empty());
}

#[test]
fn what_is_compiled() {
    assert!(builds_from_source(&some("2.0"), &None));
    assert!(builds_from_source(&some("2.0"), &some("1.9")));
    assert!(!builds_from_source(&some("2.0"), &some("2.0")));
    assert!(!builds_from_source(&None, &None));
    assert_eq!(binary_version(true, "curl-8.20.0_1\n").as_deref(), Some("8.20.0"));
    assert_eq!(binary_version(false, "curl-8.20.0_1\n"), None);
    assert_eq!(binary_version(true, ""), None);
}

#[test]
fn what_is_said_of_cleaning() {
    assert_eq!(clean_masterdir(&CleanOutcome::Cleaned), "Cleaned masterdir build state");
    assert_eq!(
        clean_masterdir(&CleanOutcome::Failed("first\nlast\n".to_string())),
        "Clean failed: last"
    );
    assert_eq!(
        clean_masterdir(&CleanOutcome::Failed(String::new())),
        "Clean failed: non-zero exit"
    );
    assert_eq!(
        clean_masterdir(&CleanOutcome::NotRun("no such file".to_string())),
        "Clean failed: no such file"
    );
}

#[test]
fn where_things_are_kept() {
    assert_eq!(history_path(&some("/x"), &some("/h")), "/x/vxpm/build_history.json");
    assert_eq!(log_dir(&None, &some("/h")), "/h/.cache/vxpm/logs");
    assert_eq!(versions_path(&None, &None), "/tmp/vxpm/versions.json");
    assert_eq!(build_log_path("/l", "foo", "20260102-030405"), "/l/foo-20260102-030405.log");
    assert_eq!(bump_log_path("/l", "foo", "20260102-030405"), "/l/foo-bump-20260102-030405.log");
}

#[test]
fn the_newest_logs_of_each_package_stay() {
    let files = texts(&[
        "foo-20260101-000000.log",
        "foo-20260103-000000.log",
        "foo-20260102-000000.log",
        "bar-20250101-000000.log",
        "foo-bump-20250101-000000.log",
        "notes.txt",
        "short.log",
    ]);
    assert_eq!(
        prune_build_logs(&files, 2),
        [true, false, false, false, false, false, false]
    );
    assert_eq!(prune_build_logs(&files, 0), [true, true, true, true, true, false, false]);
    assert_eq!(prune_build_logs(&files, KEPT_LOGS), [false; 7]);
}

#[test]
fn a_log_counts_for_the_package_in_its_name() {
    let a = "foo-20260101-000000.log".to_string();
    let path = build_log_path("/l", "foo", "20260102-000000");
    let b = path.strip_prefix("/l/").unwrap().to_string();
    assert_eq!(prune_build_logs(&vec![a, b], 1), [true, false]);
}

#[test]
fn the_history_grows() {
    let mut history = BuildHistory::new();
    history.record("foo", true, 10);
    history.record("foo", false, 20);
    assert_eq!(history.entries.len(), 2);
    assert_eq!(history.entries[0].name, "foo");
    assert!(history.entries[0].success);
    assert!(!history.entries[1].success);
    assert_eq!(history.entries[1].timestamp, 20);
}

#[test]
fn a_queue_starts_with_its_jobs() {
    let mut queue = BuildQueue::new();
    assert!(queue.start().is_empty());
    assert!(!queue.active);
    queue.set_jobs(&texts(&["a", "b"]));
    queue.current_output.push("old".to_string());
    queue.cancelled = true;
    assert_eq!(queue.start(), ["a", "b"]);
    assert!(queue.active);
    assert!(!queue.cancelled);
    assert!(queue.current_output.is_empty());
    assert_eq!(queue.jobs[1].status, BuildJobStatus::Pending);
}

#[test]
fn a_queue_builds_in_order() {
    let names = texts(&["a", "b"]);
    let mut at = 0;
    for name in ["a", "b"] {
        match run_build_queue(&names, &mut at, false) {
            BuildStep::Build(n) => assert_eq!(n, name),
            BuildStep::Complete => panic!("over too early"),
        }
    }
    assert!(matches!(run_build_queue(&names, &mut at, false), BuildStep::Complete));
    assert_eq!(at, 2);
}

#[test]
fn a_cancelled_queue_stops() {
    let names = texts(&["a", "b"]);
    let mut at = 1;
    assert!(matches!(run_build_queue(&names, &mut at, true), BuildStep::Complete));
    assert_eq!(at, 1);
}

#[test]
fn what_is_reported_of_a_build() {
    let errors: Vec<String> = (0..60).map(|i| i.to_string()).collect();
    match build_report("foo", &BuildOutcome::Succeeded, &errors, "/l") {
        BuildMsg::Finished(n, l) => assert_eq!((n.as_str(), l.as_str()), ("foo", "/l")),
        other => panic!("{:?}", other),
    }
    match build_report("foo", &BuildOutcome::Failed, &errors, "/l") {
        BuildMsg::Failed(n, e, l) => {
            assert_eq!((n.as_str(), l.as_str()), ("foo", "/l"));
            assert_eq!(e, errors[10..]);
        }
        other => panic!("{:?}", other),
    }
    match build_report("foo", &BuildOutcome::Failed, &Vec::new(), "") {
        BuildMsg::Failed(_, e, _) => assert_eq!(e, ["Build failed with non-zero exit code"]),
        other => panic!("{:?}", other),
    }
    match build_report("foo", &BuildOutcome::Error("no".to_string()), &errors, "") {
        BuildMsg::Failed(_, e, _) => assert_eq!(e, ["no"]),
        other => panic!("{:?}", other),
    }
}

#[test]
fn what_a_log_gets_of_the_errors() {
    let errors = texts(&["a", "b"]);
    assert_eq!(error_log_lines(&BuildOutcome::Failed, &errors, "/l"), ["ERR: a", "ERR: b"]);
    assert!(error_log_lines(&BuildOutcome::Failed, &errors, "").is_empty());
    assert_eq!(error_log_lines(&BuildOutcome::Succeeded, &errors, "/l"), ["ERR: a", "ERR: b"]);
    assert!(error_log_lines(&BuildOutcome::Succeeded, &errors, "").is_empty());
    assert!(error_log_lines(&BuildOutcome::Error("e".to_string()), &errors, "/l").is_empty());
}

//! The commands of the program.

use vxpm::cli::{
    bump, bump_all_targets, bump_exit_code, bump_failed_line, bumping_line, check_exit_code,
    check_updates, find_updates, run, sweep_latest, up_to_date_line, update_line, BumpPlan,
    CliError, Command,
};
use vxpm::package::{parse_template, Package, PackageState, Status};
use vxpm::table::TextMap;
use vxpm::version_check::VersionMsg;

fn texts(v: &[&str]) -> Vec<String> {
    v.iter().map(|s| s.to_string()).collect()
}

fn package(name: &str, version: &str) -> Package {
    let mut p = parse_template("");
    p.name = name.to_string();
    p.version = version.to_string();
    p
}

fn latest(v: &[(&str, &str)]) -> TextMap<String> {
    let mut m = TextMap::new();
    for (k, x) in v {
        m.insert(k.to_string(), x.to_string());
    }
    m
}

fn failure(args: &[&str]) -> String {
    match run(&texts(args)) {
        Ok(c) => panic!("{:?}", c),
        Err(e) => e.message(),
    }
}

#[test]
fn commands_that_are_understood() {
    assert!(matches!(
        run(&texts(&["check-updates"])),
        Ok(Command::CheckUpdates { json: false })
    ));
    assert!(matches!(
        run(&texts(&["check-updates", "--json", "--json"])),
        Ok(Command::CheckUpdates { json: true })
    ));
    assert!(matches!(run(&texts(&["bump", "--all"])), Ok(Command::BumpAll)));
    match run(&texts(&["bump", "foo"])) {
        Ok(Command::Bump(name)) => assert_eq!(name, "foo"),
        other => panic!("{:?}", other),
    }
}

#[test]
fn commands_that_are_refused() {
    assert_eq!(failure(&["frobnicate"]), "unknown subcommand: frobnicate");
    assert_eq!(failure(&["check-updates", "--xml"]), "unknown flag: --xml");
    assert_eq!(failure(&["check-updates", "foo"]), "unknown flag: foo");
    assert_eq!(failure(&["bump", "--some"]), "unknown flag: --some");
    assert_eq!(failure(&["bump", "a", "b"]), "bump takes a single package name (or --all)");
    assert_eq!(failure(&["bump", "a", "--all"]), "--all and <pkg> are mutually exclusive");
    assert_eq!(failure(&["bump"]), "bump requires <pkg> or --all");
    assert_eq!(failure(&["bump", "a", "b", "--x"]), "bump takes a single package name (or --all)");
}

#[test]
fn what_a_sweep_found() {
    let found = |n: &str, v: &str| VersionMsg::Found(n.to_string(), v.to_string(), None);
    let (map, limited) = sweep_latest(&vec![
        found("a", "1"),
        found("b", "2"),
        found("a", "3"),
        VersionMsg::Done(3, true),
    ]);
    assert_eq!(map.get("a").map(|s| s.as_str()), Some("3"));
    assert_eq!(map.get("b").map(|s| s.as_str()), Some("2"));
    assert!(limited);
    let (map, limited) = sweep_latest(&Vec::new());
    assert!(map.entries.is_empty());
    assert!(!limited);
}

#[test]
fn rows_are_the_updates_in_order() {
    let packages = vec![
        package("zed", "1.0"),
        package("foo", "1.0"),
        package("bar", "1.0"),
        package("none", "1.0"),
    ];
    let map = latest(&[("zed", "1.1"), ("foo", "1.0"), ("bar", "2.0")]);
    let rows = check_updates(&packages, &map);
    let lines: Vec<String> = rows
        .iter()
        .map(|r| update_line(&r.name, &r.current, &r.latest))
        .collect();
    assert_eq!(lines, ["bar 1.0 -> 2.0", "zed 1.0 -> 1.1"]);
    let unsorted: Vec<String> = find_updates(&packages, &map).iter().map(|r| r.name.clone()).collect();
    assert_eq!(unsorted, ["zed", "bar"]);
}

#[test]
fn bumping_all_does_what_the_check_lists() {
    let packages = vec![package("zed", "1.0"), package("foo", "1.0"), package("bar", "1.0")];
    let map = latest(&[("zed", "1.1"), ("foo", "1.0"), ("bar", "2.0")]);
    let mut bumped = match bump_all_targets(&packages, &map) {
        BumpPlan::Bump(t) => t,
        other => panic!("{:?}", other),
    };
    bumped.sort();
    let listed: Vec<(String, String)> = check_updates(&packages, &map)
        .iter()
        .map(|r| (r.name.clone(), r.latest.clone()))
        .collect();
    assert_eq!(bumped, listed);
    match bump(&None, &packages, &latest(&[])) {
        Ok(BumpPlan::Bump(t)) => assert!(t.is_empty()),
        other => panic!("{:?}", other),
    }
}

#[test]
fn bumping_one() {
    let packages = vec![package("foo", "1.0"), package("bar", "1.0")];
    let map = latest(&[("foo", "1.1")]);
    match bump(&Some("foo".to_string()), &packages, &map) {
        Ok(BumpPlan::Bump(t)) => assert_eq!(t, [("foo".to_string(), "1.1".to_string())]),
        other => panic!("{:?}", other),
    }
    match bump(&Some("foo".to_string()), &packages, &latest(&[("foo", "1.0")])) {
        Ok(BumpPlan::UpToDate { name, current, latest }) => {
            assert_eq!(up_to_date_line(&name, &current, &latest), "foo already at 1.0 (latest 1.0)")
        }
        other => panic!("{:?}", other),
    }
    match bump(&Some("nope".to_string()), &packages, &map) {
        Err(CliError::UnknownPackage(n)) => assert_eq!(n, "nope"),
        other => panic!("{:?}", other),
    }
    match bump(&Some("bar".to_string()), &packages, &map) {
        Err(e) => assert_eq!(e.message(), "no upstream version resolved for bar"),
        other => panic!("{:?}", other),
    }
    assert_eq!(
        CliError::UnknownPackage("x".to_string()).message(),
        "unknown package: x"
    );
}

#[test]
fn exit_codes() {
    assert_eq!(check_exit_code(0, false), 0);
    assert_eq!(check_exit_code(3, false), 1);
    assert_eq!(check_exit_code(0, true), 2);
    assert_eq!(check_exit_code(3, true), 2);
    assert_eq!(bump_exit_code(0, false), 0);
    assert_eq!(bump_exit_code(2, false), 1);
    assert_eq!(bump_exit_code(0, true), 2);
    assert_eq!(bump_exit_code(2, true), 2);
}

#[test]
fn lines_of_a_bump() {
    assert_eq!(bumping_line("foo", "1.1", "/l/x.log"), "bumping foo -> 1.1 (log: /l/x.log)");
    assert_eq!(bump_failed_line("foo", "cancelled"), "bump failed for foo: cancelled");
}

#[test]
fn updates_are_the_packages_that_upstream_is_ahead_of() {
    let map = latest(&[("a", "1.1"), ("b", "1.0"), ("c", "0.9")]);
    for p in [package("a", "1.0"), package("b", "1.0"), package("c", "1.0"), package("d", "1.0")] {
        let newest = map.get(&p.name).cloned();
        let ahead = PackageState::compute_status(&p, &None, &None, &newest) == Status::UpstreamAhead;
        assert_eq!(!find_updates(&vec![p], &map).is_empty(), ahead);
    }
}

//! The packages of a checkout.

use vxpm::package::{parse_template, Package, Status};
use vxpm::repo::{
    all_names, build_package_states, clean_all_packages, clean_old_packages,
    discover_custom_packages, discover_uncommitted_packages, find_built_xbps, later, load_packages,
    parse_built, query_installed, real_packages, PackageDir,
};

fn texts(v: &[&str]) -> Vec<String> {
    v.iter().map(|s| s.to_string()).collect()
}

fn package(name: &str, version: &str) -> Package {
    let mut p = parse_template("");
    p.name = name.to_string();
    p.version = version.to_string();
    p
}

#[test]
fn packages_with_changes_in_order() {
    let log = "srcpkgs/zed/template\n\nsrcpkgs/foo/template\nsrcpkgs/foo/patches/x\nREADME\n";
    assert_eq!(discover_custom_packages(log), ["foo", "zed"]);
    assert!(discover_custom_packages("").is_empty());
}

#[test]
fn new_packages_that_are_not_committed() {
    let status = "?? srcpkgs/new/\nA  srcpkgs/added/template\n M srcpkgs/changed/template\n\
                  ?? srcpkgs/known/\n?? other/place/\n??\n?? srcpkgs\nAM srcpkgs/both/template\n";
    assert_eq!(
        discover_uncommitted_packages(status, &texts(&["known"])),
        ["added", "new"]
    );
    assert!(discover_uncommitted_packages("", &Vec::new()).is_empty());
    assert!(discover_uncommitted_packages("ö x/y\n", &Vec::new()).is_empty());
}

#[test]
fn links_and_directories_without_templates_are_no_packages() {
    let dir = |is_symlink, has_template| PackageDir { is_symlink, has_template };
    assert_eq!(
        real_packages(
            &texts(&["foo", "foo-devel", "gone", "zed"]),
            &vec![dir(false, true), dir(true, true), dir(false, false), dir(false, true)],
        ),
        ["foo", "zed"]
    );
}

#[test]
fn all_names_in_order() {
    assert_eq!(all_names(&texts(&["a", "c"]), &texts(&["b", "d"])), ["a", "b", "c", "d"]);
    assert_eq!(all_names(&texts(&["b"]), &texts(&["a", "b"])), ["a", "b", "b"]);
}

#[test]
fn what_a_query_says_is_installed() {
    assert_eq!(query_installed(true, "foo-1.0_1\n").as_deref(), Some("foo-1.0_1"));
    assert_eq!(query_installed(true, " \n"), None);
    assert_eq!(query_installed(false, "foo-1.0_1\n"), None);
}

#[test]
fn versions_in_file_names() {
    assert_eq!(
        parse_built("hyprutils-0.11.0_1.x86_64.xbps", "hyprutils").as_deref(),
        Some("0.11.0_1")
    );
    assert_eq!(parse_built("hyprutils-devel-0.11.0_1.x86_64.xbps", "hyprutils"), None);
    assert_eq!(parse_built("hyprutils-0.11.0_1.x86_64.xbps.sig2", "hyprutils"), None);
    assert_eq!(parse_built("other-1_1.x86_64.xbps", "hyprutils"), None);
    assert_eq!(parse_built("hyprutils-1.xbps", "hyprutils"), None);
    assert_eq!(parse_built("hyprutils-.xbps", "hyprutils"), None);
}

#[test]
fn the_latest_build_goes_by_version_then_revision() {
    let files = texts(&[
        "foo-9.0_1.x86_64.xbps",
        "foo-10.0_1.x86_64.xbps",
        "foo-10.0_12.x86_64.xbps",
        "foo-10.0_2.x86_64.xbps",
        "foo-devel-11.0_1.x86_64.xbps",
    ]);
    assert_eq!(find_built_xbps(&files, "foo").as_deref(), Some("10.0_12"));
    assert_eq!(find_built_xbps(&files, "foo-devel").as_deref(), Some("11.0_1"));
    assert_eq!(find_built_xbps(&files, "bar"), None);
    assert_eq!(find_built_xbps(&Vec::new(), "foo"), None);
}

#[test]
fn the_latest_build_does_not_depend_on_the_order_of_files() {
    let mut files = texts(&["foo-1_1.x.xbps", "foo-2_1.x.xbps", "foo-2_3.x.xbps", "foo-02_3.x.xbps"]);
    let first = find_built_xbps(&files, "foo");
    files.reverse();
    assert_eq!(find_built_xbps(&files, "foo"), first);
    files.swap(0, 2);
    assert_eq!(find_built_xbps(&files, "foo"), first);
}

#[test]
fn later_is_a_strict_total_order() {
    let builds = ["1.0_1", "1.0_2", "1.0_10", "1_1", "01_1", "2rc1_1", "2_1", "2", ""];
    for a in builds {
        assert!(!later(a, a));
        for b in builds {
            assert!(a == b || later(a, b) != later(b, a));
            for c in builds {
                if later(a, b) && later(b, c) {
                    assert!(later(a, c));
                }
            }
        }
    }
}

#[test]
fn cleaning_keeps_the_latest_of_each_package() {
    let files = texts(&[
        "foo-1.0_1.x86_64.xbps",
        "foo-1.0_2.x86_64.xbps",
        "bar-3.0_1.x86_64.xbps",
        "foo-devel-1.0_1.x86_64.xbps",
        "foo-0.9_1.x86_64.xbps",
    ]);
    let names = texts(&["foo", "bar"]);
    assert_eq!(clean_old_packages(&files, &names), [true, false, false, false, true]);
    assert_eq!(clean_all_packages(&files, &names), [true, true, true, false, true]);
    assert_eq!(clean_all_packages(&files, &Vec::new()), [false, false, false, false, false]);
}

#[test]
fn states_of_packages() {
    let states = build_package_states(
        &vec![package("foo", "1.0"), package("bar", "2.0")],
        &vec![Some("foo-1.0_1".to_string()), None],
        &vec![Some("1.0_1".to_string()), Some("2.0_1".to_string())],
        &texts(&["bar"]),
    );
    assert_eq!(states.len(), 2);
    assert_eq!(states[0].package.name, "foo");
    assert_eq!(states[0].status, Status::UpToDate);
    assert!(!states[0].uncommitted);
    assert_eq!(states[0].latest, None);
    assert_eq!(states[1].status, Status::ReadyToInstall);
    assert_eq!(states[1].built.as_deref(), Some("2.0_1"));
    assert!(states[1].uncommitted);
}

#[test]
fn templates_that_cannot_be_read_are_left_out() {
    let packages = load_packages(&vec![
        Some("pkgname=foo\nversion=1.0\n".to_string()),
        None,
        Some("pkgname=bar\nversion=2.0\n".to_string()),
    ]);
    assert_eq!(packages.len(), 2);
    assert_eq!(packages[0].name, "foo");
    assert_eq!(packages[1].version, "2.0");
}

//! Versions, templates and the status of packages.

use vxpm::package::{
    installed_to_ver_rev, parse_template, split_deps, unquote, ver_rev, version_newer_pub, Package,
    PackageState, Status,
};
use vxpm::version::version_newer;

fn package(name: &str, version: &str, revision: u32) -> Package {
    let mut p = parse_template("");
    p.name = name.to_string();
    p.version = version.to_string();
    p.revision = revision;
    p
}

fn some(s: &str) -> Option<String> {
    Some(s.to_string())
}

#[test]
fn test_version_newer() {
    assert!(version_newer("0.12.0", "0.11.0"));
    assert!(version_newer("1.0.0", "0.99.99"));
    assert!(!version_newer("0.11.0", "0.11.0"));
    assert!(!version_newer("0.10.0", "0.11.0"));
    // Prerelease suffixes: release > prerelease of same number
    assert!(version_newer("0.45.0", "0.45.0beta1"));
    assert!(!version_newer("0.45.0beta1", "0.45.0"));
    assert!(!version_newer("0.45.0beta1", "0.45.0beta1"));
    // Parts compare as numbers, not as texts
    assert!(version_newer("10.0.0", "9.0.0"));
}

#[test]
fn test_installed_to_ver_rev() {
    assert_eq!(installed_to_ver_rev("hyprutils-0.11.0_1"), "0.11.0_1");
    assert_eq!(
        installed_to_ver_rev("google-chrome-133.0.6943.53_1"),
        "133.0.6943.53_1"
    );
}

#[test]
fn pkgver_without_a_dash_is_kept() {
    assert_eq!(installed_to_ver_rev("1.0_1"), "1.0_1");
    assert_eq!(installed_to_ver_rev(""), "");
}

#[test]
fn missing_parts_of_a_version_count_as_zero() {
    assert!(!version_newer("1.0", "1"));
    assert!(!version_newer("1", "1.0"));
    assert!(version_newer("1.0.1", "1.0"));
    assert!(!version_newer("", ""));
    assert!(!version_newer("", "0"));
}

#[test]
fn a_part_too_large_for_a_number_counts_as_zero() {
    assert!(version_newer("18446744073709551615", "18446744073709551614"));
    assert!(!version_newer("18446744073709551616", "1"));
}

#[test]
fn newer_is_irreflexive_asymmetric_and_transitive() {
    let versions = ["", "0", "0.1", "0.1rc1", "1beta", "1", "1.0", "1.0.1", "2", "10.0", "x"];
    for a in versions {
        assert!(!version_newer(a, a));
        for b in versions {
            assert!(!(version_newer(a, b) && version_newer(b, a)));
            assert_eq!(version_newer(a, b), version_newer_pub(a, b));
            for c in versions {
                if version_newer(a, b) && version_newer(b, c) {
                    assert!(version_newer(a, c));
                }
            }
        }
    }
}

#[test]
fn versions_of_one_rank_stand_alike_to_all_others() {
    let versions = ["", "0", "0.1", "0.1rc1", "1beta", "1", "1.0", "1.0.1", "2", "10.0", "x"];
    for a in versions {
        for b in versions {
            if !version_newer(a, b) && !version_newer(b, a) {
                for c in versions {
                    assert_eq!(version_newer(a, c), version_newer(b, c));
                    assert_eq!(version_newer(c, a), version_newer(c, b));
                }
            }
        }
    }
}

#[test]
fn a_release_is_newer_than_its_prerelease() {
    assert!(version_newer("3.2", "3.2rc4"));
    assert!(!version_newer("3.2rc4", "3.2"));
}

#[test]
fn labels_of_the_statuses() {
    assert_eq!(Status::UpToDate.label(), "UP TO DATE");
    assert_eq!(Status::UpstreamAhead.label(), "UPSTREAM AHEAD");
    assert_eq!(Status::BuildOutdated.label(), "BUILD OUTDATED");
    assert_eq!(Status::ReadyToInstall.label(), "READY TO INSTALL");
    assert_eq!(Status::BuildFailed.label(), "BUILD FAILED");
}

#[test]
fn upstream_comes_before_everything() {
    let p = package("foo", "1.0", 1);
    assert_eq!(
        PackageState::compute_status(&p, &None, &None, &some("1.1")),
        Status::UpstreamAhead
    );
    assert_eq!(
        PackageState::compute_status(&p, &some("foo-1.0_1"), &some("1.0_1"), &some("1.1")),
        Status::UpstreamAhead
    );
}

#[test]
fn status_without_news_from_upstream() {
    let p = package("foo", "1.0", 2);
    assert_eq!(ver_rev(&p), "1.0_2");
    let status = |installed: &Option<String>, built: &Option<String>| {
        PackageState::compute_status(&p, installed, built, &some("1.0"))
    };
    assert_eq!(status(&None, &None), Status::BuildOutdated);
    assert_eq!(status(&None, &some("1.0_2")), Status::ReadyToInstall);
    assert_eq!(status(&None, &some("0.9_1")), Status::ReadyToInstall);
    assert_eq!(status(&some("foo-1.0_1"), &some("1.0_1")), Status::BuildOutdated);
    assert_eq!(status(&some("foo-1.0_1"), &some("1.0_2")), Status::ReadyToInstall);
    assert_eq!(status(&some("foo-1.0_2"), &some("1.0_2")), Status::UpToDate);
    assert_eq!(status(&some("foo-1.0_2"), &None), Status::UpToDate);
    assert_eq!(status(&some("foo-1.0_1"), &None), Status::BuildOutdated);
}

#[test]
fn hints_for_the_statuses() {
    let mut state = PackageState {
        package: package("foo", "1.0", 1),
        installed: None,
        built: None,
        latest: None,
        status: Status::UpToDate,
        uncommitted: false,
        shlibs: Vec::new(),
        soname_mismatches: Vec::new(),
        build_log: None,
    };
    assert_eq!(state.action_hint(), "Nothing to do.");
    state.status = Status::UpstreamAhead;
    assert_eq!(
        state.action_hint(),
        "Press t to bump the template to the upstream version."
    );
    state.status = Status::BuildOutdated;
    assert_eq!(state.action_hint(), "Press b to build the package.");
    state.status = Status::ReadyToInstall;
    assert_eq!(state.action_hint(), "Run xi <pkg> to install the built package.");
    state.status = Status::BuildFailed;
    assert_eq!(state.action_hint(), "Check the build log. Press b to retry.");
}

#[test]
fn quotes_are_taken_off_in_pairs() {
    let chars = |s: &str| s.chars().collect::<Vec<char>>();
    assert_eq!(unquote(&chars(" \"a b\" ")), chars("a b").as_slice());
    assert_eq!(unquote(&chars("\"a")), chars("\"a").as_slice());
    assert_eq!(unquote(&chars("\"")), chars("\"").as_slice());
    assert_eq!(unquote(&chars("\"\"")), chars("").as_slice());
    assert_eq!(unquote(&chars("plain")), chars("plain").as_slice());
}

#[test]
fn dependencies_stand_between_white_space() {
    assert_eq!(split_deps("  a b-devel\t c\n"), ["a", "b-devel", "c"]);
    assert!(split_deps("   ").is_empty());
}

#[test]
fn a_whole_template_is_read() {
    let content = "# Template file for 'foo'
pkgname=foo
version=1.2.3
revision=4
build_style=cmake
hostmakedepends=\"pkg-config\"
makedepends=\"bar-devel
 baz-devel
 qux-devel\"
makedepends+=\" extra-devel\"
depends=\"bar\"
short_desc=\"Foo for everyone\"
homepage=\"https://foo.example\"
changelog=\"https://foo.example/NEWS\"
distfiles=\"https://github.com/o/foo/archive/v${version}.tar.gz\"
checksum=0123

foo-devel_package() {
	depends=\"${sourcepkg}>=${version}_${revision}\"
	short_desc+=\" - development files\"
	pkg_install() {
		vmove usr/include
	}
}
";
    let p = parse_template(content);
    assert_eq!(p.name, "foo");
    assert_eq!(p.version, "1.2.3");
    assert_eq!(p.revision, 4);
    assert_eq!(p.build_style, "cmake");
    assert_eq!(p.hostmakedepends, ["pkg-config"]);
    assert_eq!(p.makedepends, ["bar-devel", "baz-devel", "qux-devel", "extra-devel"]);
    assert_eq!(p.depends, ["bar"]);
    assert_eq!(p.short_desc, "Foo for everyone  - development files");
    assert_eq!(p.homepage, "https://foo.example");
    assert_eq!(p.changelog, "https://foo.example/NEWS");
    assert_eq!(p.distfiles, "https://github.com/o/foo/archive/v1.2.3.tar.gz");
}

#[test]
fn an_empty_template_has_nothing_and_revision_one() {
    let p = parse_template("");
    assert_eq!(p.name, "");
    assert_eq!(p.version, "");
    assert_eq!(p.revision, 1);
    assert!(p.makedepends.is_empty());
    assert_eq!(parse_template("revision=x\n").revision, 1);
    assert_eq!(parse_template("revision=4294967295\n").revision, 4294967295);
    assert_eq!(parse_template("revision=4294967296\n").revision, 1);
}

#[test]
fn a_reference_copies_what_is_known() {
    let p = parse_template("makedepends=\"a b\"\ndepends=$makedepends\nhomepage=$nothing\n");
    assert_eq!(p.depends, ["a", "b"]);
    assert_eq!(p.homepage, "");
}

#[test]
fn a_multiline_append_goes_on_from_what_is_there() {
    let p = parse_template("depends=\"a\"\ndepends+=\" b\n c\"\ndepends+=d\n");
    assert_eq!(p.depends, ["a", "b", "c", "d"]);
}

#[test]
fn names_that_are_not_words_are_no_variables() {
    let p = parse_template("pkg-name=x\nfoo bar=y\npkgname=ok\n");
    assert_eq!(p.name, "ok");
}

#[test]
fn a_copy_holds_the_same() {
    let mut p = package("foo", "1.0", 3);
    p.depends = vec!["a".to_string()];
    assert_eq!(format!("{:?}", p.clone()), format!("{:?}", p));
}

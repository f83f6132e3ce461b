//! Configuration, and the compiler that packages need.

use vxpm::config::{
    bootstrap, config_of, config_path, expand_tilde, load, migrate_legacy_paths, path_join,
    should_migrate,
};
use vxpm::gcc::{
    bootstrap_config, parse_major_minor, parse_version_tuple, requirements_of, requirements_path,
    GccInfo,
};
use vxpm::settings::Setting;

fn some(s: &str) -> Option<String> {
    Some(s.to_string())
}

#[test]
fn paths_are_joined() {
    assert_eq!(path_join("/a", "b"), "/a/b");
    assert_eq!(path_join("/a/", "b"), "/a/b");
    assert_eq!(path_join("/a", "/b"), "/b");
    assert_eq!(path_join("", "b"), "b");
}

#[test]
fn the_home_directory_is_expanded() {
    assert_eq!(expand_tilde("~/src", "/home/me"), "/home/me/src");
    assert_eq!(expand_tilde("~", "/home/me"), "/home/me");
    assert_eq!(expand_tilde("/srv/x", "/home/me"), "/srv/x");
    assert_eq!(expand_tilde("~you/x", "/home/me"), "~you/x");
    assert_eq!(expand_tilde("rel", "/home/me"), "rel");
}

#[test]
fn the_configured_checkout() {
    let set = some("# comment\nvoid_packages = \"~/void\"\nother = 1\n");
    assert_eq!(load(&set, "/home/me").void_packages, "/home/me/void");
    assert_eq!(
        load(&some("void_packages = \"/srv/void\"\n"), "/home/me").void_packages,
        "/srv/void"
    );
}

#[test]
fn the_default_checkout() {
    for content in [
        None,
        some(""),
        some("void_packages = 3\n"),
        some("not toml ["),
        some("[void_packages]\nx = \"y\"\n"),
    ] {
        assert_eq!(load(&content, "/home/me").void_packages, "/home/me/void-packages");
    }
}

#[test]
fn the_configuration_that_is_written_first_reads_as_the_default() {
    let content = bootstrap("/home/me");
    assert_eq!(
        content,
        "# VPM configuration\nvoid_packages = \"/home/me/void-packages\"\n"
    );
    assert_eq!(load(&Some(content), "/elsewhere").void_packages, "/home/me/void-packages");
    assert_eq!(config_path("/home/me"), "/home/me/.config/vxpm/config.toml");
}

#[test]
fn settings_of_a_table() {
    let entries = Some(vec![
        ("other".to_string(), Setting::Other),
        ("void_packages".to_string(), Setting::Text("~".to_string())),
    ]);
    assert_eq!(config_of(&entries, "/h").void_packages, "/h");
    assert_eq!(config_of(&None, "/h").void_packages, "/h/void-packages");
}

#[test]
fn directories_of_the_old_name_move_once() {
    assert_eq!(
        migrate_legacy_paths("/h"),
        [
            ("/h/.config/vpm".to_string(), "/h/.config/vxpm".to_string()),
            ("/h/.cache/vpm".to_string(), "/h/.cache/vxpm".to_string())
        ]
    );
    assert!(should_migrate(true, false));
    assert!(!should_migrate(true, true));
    assert!(!should_migrate(false, false));
    assert!(!should_migrate(false, true));
}

#[test]
fn the_version_of_the_compiler() {
    let version = |s: &str| GccInfo::detect(&some(s), &None).system_version;
    assert_eq!(version("13.2.0\n"), Some((13, 2, 0)));
    assert_eq!(version("14\n"), Some((14, 0, 0)));
    assert_eq!(version("13.x.1"), Some((13, 0, 1)));
    assert_eq!(version("none"), None);
    assert_eq!(version(""), None);
    assert_eq!(GccInfo::detect(&None, &None).system_version, None);
}

#[test]
fn packages_that_need_a_newer_compiler() {
    let gcc = GccInfo::detect(
        &some("13.2.0\n"),
        &some("[requirements]\nnew = \"15.0\"\nminor = \"13.3\"\nfine = \"13\"\nbad = 3\nworse = \"x\"\n"),
    );
    assert!(gcc.is_blocked("new"));
    assert!(gcc.is_blocked("minor"));
    assert!(!gcc.is_blocked("fine"));
    assert!(!gcc.is_blocked("bad"));
    assert!(!gcc.is_blocked("unknown"));
    assert_eq!(gcc.version_string(), "13.2.0");
    assert_eq!(gcc.required_version("new").as_deref(), Some("15.0"));
    assert_eq!(gcc.required_version("fine").as_deref(), Some("13.0"));
    assert_eq!(gcc.required_version("bad"), None);
    assert_eq!(gcc.required_version("worse"), None);
}

#[test]
fn a_newer_compiler_suffices_where_an_older_one_does() {
    let reqs = "[requirements]\na = \"12.1\"\nb = \"13.2\"\nc = \"14.0\"\n";
    let older = GccInfo::detect(&some("13.2.0"), &some(reqs));
    for newer in ["13.2.1", "13.3.0", "14.0.0"] {
        let newer = GccInfo::detect(&some(newer), &some(reqs));
        for name in ["a", "b", "c"] {
            assert!(older.is_blocked(name) || !newer.is_blocked(name));
        }
    }
}

#[test]
fn an_unknown_compiler_blocks_nothing() {
    let gcc = GccInfo::detect(&None, &some("[requirements]\nnew = \"15.0\"\n"));
    assert!(!gcc.is_blocked("new"));
    assert_eq!(gcc.version_string(), "unknown");
    assert!(GccInfo::detect(&None, &some("x = [")).requirements.entries.is_empty());
    assert!(GccInfo::detect(&None, &some("requirements = 3\n")).requirements.entries.is_empty());
}

#[test]
fn requirements_out_of_a_table() {
    let entries = Some(vec![(
        "requirements".to_string(),
        Setting::Table(vec![
            ("a".to_string(), some("9.1")),
            ("b".to_string(), None),
        ]),
    )]);
    let map = requirements_of(&entries);
    assert_eq!(map.get("a"), Some(&(9, 1)));
    assert_eq!(map.get("b"), None);
}

#[test]
fn the_first_requirements_require_nothing() {
    let gcc = GccInfo::detect(&some("1.0.0"), &some(bootstrap_config()));
    assert!(gcc.requirements.entries.is_empty());
    assert_eq!(requirements_path("/h"), "/h/.config/vxpm/gcc_requirements.toml");
}

#[test]
fn versions_of_the_compiler_read_back() {
    for s in ["14.2.0", "4294967295.0.7", "none"] {
        let gcc = GccInfo::detect(&some(s), &None);
        assert_eq!(parse_version_tuple(&gcc.version_string()), gcc.system_version);
    }
    assert_eq!(parse_version_tuple("unknown"), None);
    assert_eq!(parse_version_tuple("14"), Some((14, 0, 0)));
    let gcc = GccInfo::detect(&None, &some("[requirements]\na = \"15\"\nb = \"9.3.1\"\n"));
    for (name, version) in [("a", (15, 0)), ("b", (9, 3))] {
        let shown = gcc.required_version(name).unwrap();
        assert_eq!(parse_major_minor(&shown), Some(version));
    }
}

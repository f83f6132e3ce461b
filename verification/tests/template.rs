//! Bumping templates.

use vxpm::package::{parse_template, PackageState, Status};
use vxpm::template::{
    bump_outcome, bump_template, checksum_of, download_urls, hex_text, parse_template_vars,
    resolve_distfiles_url, rewrite_template, source_file_name,
};

const TEMPLATE: &str = "# Template file for 'foo'
pkgname=foo
version=1.2.3
revision=4
distfiles=\"https://example.org/foo-${version}.tar.gz\"
checksum=0123

post_install() {
	vlicense LICENSE
}
";

const ABC: &str = "ba7816bf8f01cfea414140de5dae2223b00361a396177a9cb410ff61f20015ad";

#[test]
fn variables_keep_their_references() {
    let vars = parse_template_vars(TEMPLATE);
    assert_eq!(vars.get("version").map(|s| s.as_str()), Some("1.2.3"));
    assert_eq!(
        vars.get("distfiles").map(|s| s.as_str()),
        Some("https://example.org/foo-${version}.tar.gz")
    );
    assert!(vars.get("nothing").is_none());
}

#[test]
fn variables_over_several_lines() {
    let vars = parse_template_vars("a=\"one\n  two\nthree\" rest\nb=\"\n x\n\"\nc=last\n");
    assert_eq!(vars.get("a").map(|s| s.as_str()), Some("one two three"));
    assert_eq!(vars.get("b").map(|s| s.as_str()), Some("x"));
    assert_eq!(vars.get("c").map(|s| s.as_str()), Some("last"));
}

#[test]
fn a_value_that_is_never_closed_is_lost() {
    let vars = parse_template_vars("a=1\nb=\"open\nc=2\n");
    assert!(vars.get("a").is_some());
    assert!(vars.get("b").is_none());
    assert!(vars.get("c").is_none());
}

#[test]
fn names_are_letters_digits_and_underscores_of_any_script() {
    let vars = parse_template_vars("größe_2=x\nsub-name=y\na b=z\n=w\n#k=v\n");
    assert_eq!(vars.get("größe_2").map(|s| s.as_str()), Some("x"));
    assert!(vars.get("sub-name").is_none());
    assert!(vars.get("a b").is_none());
    assert_eq!(vars.get("").map(|s| s.as_str()), Some("w"));
    assert!(vars.get("k").is_none());
    assert!(vars.get("#k").is_none());
}

#[test]
fn the_later_value_of_a_variable_holds() {
    let vars = parse_template_vars("a=1\na=2\n");
    assert_eq!(vars.get("a").map(|s| s.as_str()), Some("2"));
    assert_eq!(vars.entries.len(), 1);
}

#[test]
fn references_are_resolved_with_the_new_version() {
    let vars = parse_template_vars("pkgname=foo\nversion=1\n_url=\"https://e.org/${version}\"\n");
    assert_eq!(
        resolve_distfiles_url("${_url}/${pkgname}-$pkgname-${version}.tgz>x.tgz", &vars, "2"),
        "https://e.org/2/foo-foo-2.tgz"
    );
    assert_eq!(resolve_distfiles_url("  ", &vars, "2"), "");
    assert_eq!(resolve_distfiles_url("$version ${none}", &vars, "2"), "$version ${none}");
}

#[test]
fn longer_names_are_resolved_first() {
    let vars = parse_template_vars("foo=short\nfoobar=long\n");
    assert_eq!(resolve_distfiles_url("$foobar/$foo", &vars, "1"), "long/short");
    let vars = parse_template_vars("foobar=long\nfoo=short\n");
    assert_eq!(resolve_distfiles_url("$foobar/$foo", &vars, "1"), "long/short");
}

#[test]
fn the_file_name_of_a_url() {
    assert_eq!(source_file_name("https://e.org/a/b.tar.gz?raw=1"), "b.tar.gz");
    assert_eq!(source_file_name("plain"), "plain");
    assert_eq!(source_file_name("https://e.org/dir/"), "");
}

#[test]
fn bytes_in_hexadecimal() {
    assert_eq!(hex_text(&[0, 9, 10, 255]), "00090aff");
    assert_eq!(hex_text(&[]), "");
}

#[test]
fn checksums_of_known_contents() {
    assert_eq!(
        checksum_of(b""),
        "e3b0c44298fc1c149afbf4c8996fb92427ae41e4649b934ca495991b7852b855"
    );
    assert_eq!(checksum_of(b"abc"), ABC);
}

#[test]
fn a_rewrite_touches_three_lines() {
    let new = rewrite_template(TEMPLATE, "2.0.0", "beef");
    assert_eq!(
        new,
        TEMPLATE
            .replace("version=1.2.3", "version=2.0.0")
            .replace("revision=4", "revision=1")
            .replace("checksum=0123", "checksum=beef")
    );
    assert_eq!(new.lines().count(), TEMPLATE.lines().count());
}

#[test]
fn a_rewrite_keeps_indentation_and_the_last_newline() {
    assert_eq!(rewrite_template("\tversion=1", "2", "c"), "\tversion=2");
    assert_eq!(rewrite_template("  revision=7 \n", "2", "c"), "  revision=1\n");
    assert_eq!(rewrite_template("", "2", "c"), "");
    assert_eq!(rewrite_template("a\r\nb", "2", "c"), "a\nb");
    assert_eq!(rewrite_template("_version=1\n", "2", "c"), "_version=1\n");
}

#[test]
fn the_url_of_the_new_source() {
    assert_eq!(
        download_urls(TEMPLATE, "2.0.0"),
        vec!["https://example.org/foo-2.0.0.tar.gz".to_string()]
    );
    assert!(download_urls("version=1\n", "2").is_empty());
    assert!(download_urls("distfiles=\">name\"\n", "2").is_empty());
}

#[test]
fn a_bumped_template_reads_back() {
    let (content, result) = bump_template(TEMPLATE, "2.0.0", &vec![b"abc".to_vec()]);
    assert_eq!(result.old_version, "1.2.3");
    assert_eq!(result.new_version, "2.0.0");
    let p = parse_template(&content);
    assert_eq!(p.name, "foo");
    assert_eq!(p.version, "2.0.0");
    assert_eq!(p.revision, 1);
    let vars = parse_template_vars(&content);
    assert_eq!(vars.get("checksum").map(|s| s.as_str()), Some(ABC));
    assert_eq!(bump_template("", "2", &vec![]).1.old_version, "");
}

#[test]
fn a_bump_settles_upstream() {
    let (content, _) = bump_template(TEMPLATE, "2.0.0", &vec![b"abc".to_vec()]);
    let latest = Some("2.0.0".to_string());
    let before = parse_template(TEMPLATE);
    let after = parse_template(&content);
    assert_eq!(
        PackageState::compute_status(&before, &None, &None, &latest),
        Status::UpstreamAhead
    );
    assert_eq!(
        PackageState::compute_status(&after, &None, &None, &latest),
        Status::BuildOutdated
    );
}

const EMPTY: &str = "e3b0c44298fc1c149afbf4c8996fb92427ae41e4649b934ca495991b7852b855";

const TWO_SOURCES: &str = "# Template file for 'two'
pkgname=two
version=1.0
revision=3
_site=https://example.org
distfiles=\"${_site}/${pkgname}-${version}.tar.gz>two.tar.gz
 ${_site}/data-${version}.zip\"
checksum=\"0123
 4567
 89ab\"
short_desc=\"Two distfiles\"
";

#[test]
fn each_distfile_has_its_url() {
    assert_eq!(
        download_urls(TWO_SOURCES, "2.0"),
        vec![
            "https://example.org/two-2.0.tar.gz".to_string(),
            "https://example.org/data-2.0.zip".to_string(),
        ]
    );
}

#[test]
fn a_bump_updates_all_checksums() {
    let sources = vec![b"abc".to_vec(), b"".to_vec()];
    let (content, result) = bump_template(TWO_SOURCES, "2.0", &sources);
    assert_eq!(result.old_version, "1.0");
    assert_eq!(
        content,
        TWO_SOURCES
            .replace("version=1.0", "version=2.0")
            .replace("revision=3", "revision=1")
            .replace(
                "checksum=\"0123\n 4567\n 89ab\"",
                &format!("checksum=\"{} {}\"", ABC, EMPTY)
            )
    );
    let vars = parse_template_vars(&content);
    assert_eq!(
        vars.get("checksum").map(|s| s.to_string()),
        Some(format!("{} {}", ABC, EMPTY))
    );
    let p = parse_template(&content);
    assert_eq!(p.version, "2.0");
    assert_eq!(p.revision, 1);
    assert_eq!(p.short_desc, "Two distfiles");
}

#[test]
fn checksums_over_several_lines_give_way_to_one() {
    assert_eq!(
        rewrite_template("checksum=\"a\n b\n c\"\nversion=1\n", "2", "d"),
        "checksum=d\nversion=2\n"
    );
    assert_eq!(rewrite_template("checksum=\"a b\"\nx=1\n", "2", "d"), "checksum=d\nx=1\n");
    assert_eq!(rewrite_template("checksum=\"a\n b\"", "2", "d"), "checksum=d");
    // A value that is never closed has no further lines.
    assert_eq!(rewrite_template("checksum=\"a\nversion=1\n", "2", "d"), "checksum=d\nversion=2\n");
}

#[test]
fn a_bump_needs_every_distfile() {
    let abc = Some(b"abc".to_vec());
    let empty = Some(Vec::new());
    assert!(bump_outcome(TWO_SOURCES, "2.0", vec![]).is_none());
    assert!(bump_outcome(TWO_SOURCES, "2.0", vec![None]).is_none());
    assert!(bump_outcome(TWO_SOURCES, "2.0", vec![abc.clone(), None]).is_none());
    assert!(bump_outcome(TWO_SOURCES, "2.0", vec![None, abc.clone()]).is_none());

    let (content, result) = bump_outcome(TWO_SOURCES, "2.0", vec![abc.clone(), empty]).unwrap();
    let both = vec![b"abc".to_vec(), Vec::new()];
    assert_eq!(content, bump_template(TWO_SOURCES, "2.0", &both).0);
    assert!(content.contains(&format!("checksum=\"{} {}\"", ABC, EMPTY)));
    assert_eq!(result.old_version, "1.0");
    assert_eq!(result.new_version, "2.0");

    let (content, _) = bump_outcome(TEMPLATE, "2.0.0", vec![abc]).unwrap();
    assert_eq!(content, bump_template(TEMPLATE, "2.0.0", &vec![b"abc".to_vec()]).0);
}

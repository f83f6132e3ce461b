//! Asking upstream for versions.

use vxpm::package::{parse_template, Package};
use vxpm::version_check::{
    check_all_versions_streaming, clean_version_tag, extract_github_repo, offered_version,
    parse_github_url, refused, Action, Reply, Sweep, VersionCache, VersionMsg, CACHE_TTL_SECS,
};

fn package(name: &str, homepage: &str) -> Package {
    let mut p = parse_template("");
    p.name = name.to_string();
    p.homepage = homepage.to_string();
    p
}

fn pair(a: &str, b: &str) -> Option<(String, String)> {
    Some((a.to_string(), b.to_string()))
}

fn tag(s: &str) -> Reply {
    Reply::Tag(s.to_string())
}

fn printed(s: &str) -> Reply {
    Reply::Printed(s.to_string())
}

/// Runs a sweep whose questions are answered by `answer`, and gives what it did.
fn run(
    sweep: &mut Sweep,
    packages: &Vec<Package>,
    answer: &dyn Fn(&Action) -> Reply,
) -> (Vec<String>, Vec<VersionMsg>) {
    let mut asked = Vec::new();
    let mut reported = Vec::new();
    let mut reply = Reply::Nothing;
    loop {
        let action = check_all_versions_streaming(sweep, packages, reply);
        reply = answer(&action);
        match action {
            Action::Report(m) => reported.push(m),
            Action::AskRelease(url) => asked.push(url),
            Action::AskTags(url) => asked.push(url),
            Action::AskSource(name) => asked.push(name),
            Action::Next => {}
            Action::End => break,
        }
    }
    (asked, reported)
}

fn shown(reported: &[VersionMsg]) -> Vec<String> {
    reported
        .iter()
        .map(|m| match m {
            VersionMsg::Found(n, v, age) => format!("{} {} {:?}", n, v, age),
            VersionMsg::Done(count, limited) => format!("done {} {}", count, limited),
        })
        .collect()
}

#[test]
fn repositories_in_addresses() {
    assert_eq!(parse_github_url("https://github.com/o/r"), pair("o", "r"));
    assert_eq!(parse_github_url("https://github.com/o/r.git"), pair("o", "r"));
    assert_eq!(
        parse_github_url("https://github.com/o/r/archive/v1.tar.gz>r-1.tar.gz"),
        pair("o", "r")
    );
    assert_eq!(parse_github_url("https://github.com/o"), None);
    assert_eq!(parse_github_url("https://github.com//r"), None);
    assert_eq!(parse_github_url("https://github.com/o/"), None);
    assert_eq!(parse_github_url("https://example.org/o/r"), None);
    assert_eq!(parse_github_url("x>https://github.com/o/r"), None);
    assert_eq!(parse_github_url("github.com:o/r"), None);
}

#[test]
fn the_source_comes_before_the_homepage() {
    let mut p = package("foo", "https://github.com/home/page");
    assert_eq!(extract_github_repo(&p), pair("home", "page"));
    p.distfiles = "https://github.com/dist/file/x.tar.gz".to_string();
    assert_eq!(extract_github_repo(&p), pair("dist", "file"));
    let mut q = package("foo", "https://example.org");
    q.changelog = "https://github.com/change/log/releases".to_string();
    assert_eq!(extract_github_repo(&q), pair("change", "log"));
    assert_eq!(extract_github_repo(&package("foo", "")), None);
}

#[test]
fn prefixes_of_tags() {
    assert_eq!(clean_version_tag("v1.2.3"), "1.2.3");
    assert_eq!(clean_version_tag("release-1.2"), "1.2");
    assert_eq!(clean_version_tag("vrelease-1.2"), "1.2");
    assert_eq!(clean_version_tag("1.2"), "1.2");
    assert_eq!(clean_version_tag("vv1"), "v1");
}

#[test]
fn the_update_check_offers_a_version() {
    assert_eq!(
        offered_version("noise\ngoogle-chrome-133.0.6943.53_1 update to 134.0.6998.35_1\n")
            .as_deref(),
        Some("134.0.6998.35")
    );
    assert_eq!(offered_version("a-1_1 update to 2\nb-1_1 update to 3\n").as_deref(), Some("2"));
    assert_eq!(offered_version("nothing new\n"), None);
    assert_eq!(offered_version(""), None);
}

#[test]
fn an_answer_is_fresh_for_an_hour() {
    let mut cache = VersionCache::new();
    assert_eq!(cache.last_check_time(), None);
    cache.store("foo", "1.0", 1000);
    cache.store("bar", "2.0", 500);
    assert_eq!(cache.fresh("foo", 1000), Some(("1.0".to_string(), 0)));
    assert_eq!(
        cache.fresh("foo", 1000 + CACHE_TTL_SECS - 1),
        Some(("1.0".to_string(), CACHE_TTL_SECS - 1))
    );
    assert_eq!(cache.fresh("foo", 1000 + CACHE_TTL_SECS), None);
    assert_eq!(cache.fresh("foo", 999), None);
    assert_eq!(cache.fresh("baz", 1000), None);
    assert_eq!(cache.last_check_time(), Some(1000));
    cache.store("foo", "1.1", 2000);
    assert_eq!(cache.fresh("foo", 2000), Some(("1.1".to_string(), 0)));
}

#[test]
fn a_release_settles_a_package() {
    let packages = vec![package("foo", "https://github.com/o/r")];
    let mut sweep = Sweep::start(VersionCache::new(), false, 100);
    let (asked, reported) = run(&mut sweep, &packages, &|_| tag("v1.5"));
    assert_eq!(asked, ["https://api.github.com/repos/o/r/releases/latest"]);
    assert_eq!(shown(&reported), ["foo 1.5 None", "done 1 false"]);
    assert_eq!(sweep.cache.fresh("foo", 100), Some(("1.5".to_string(), 0)));
}

#[test]
fn tags_then_the_build_system_are_asked() {
    let packages = vec![package("foo", "https://github.com/o/r")];
    let mut sweep = Sweep::start(VersionCache::new(), false, 100);
    let (asked, reported) = run(&mut sweep, &packages, &|a| match a {
        Action::AskSource(_) => printed("foo-1.0_1 update to 1.1_2\n"),
        _ => Reply::NoTag(false),
    });
    assert_eq!(
        asked,
        [
            "https://api.github.com/repos/o/r/releases/latest",
            "https://api.github.com/repos/o/r/tags?per_page=1",
            "foo"
        ]
    );
    assert_eq!(shown(&reported), ["foo 1.1 None", "done 1 false"]);
}

#[test]
fn a_refusal_for_too_many_requests_is_told() {
    let packages = vec![package("foo", "https://github.com/o/r"), package("bar", "")];
    let mut sweep = Sweep::start(VersionCache::new(), false, 100);
    let (asked, reported) = run(&mut sweep, &packages, &|a| match a {
        Action::AskRelease(_) => Reply::NoTag(true),
        Action::AskTags(_) => Reply::Failed,
        _ => printed("nothing\n"),
    });
    assert_eq!(asked.len(), 4);
    assert_eq!(shown(&reported), ["done 0 true"]);
}

#[test]
fn an_answer_that_cannot_be_read_leads_to_the_build_system() {
    let packages = vec![package("foo", "https://github.com/o/r")];
    let mut sweep = Sweep::start(VersionCache::new(), true, 100);
    let (asked, reported) = run(&mut sweep, &packages, &|_| Reply::Failed);
    assert_eq!(asked, ["https://api.github.com/repos/o/r/releases/latest", "foo"]);
    assert_eq!(shown(&reported), ["done 0 false"]);
}

#[test]
fn a_sweep_counts_and_orders_what_it_reports() {
    let packages = vec![package("a", ""), package("b", ""), package("c", "")];
    let mut sweep = Sweep::start(VersionCache::new(), false, 100);
    let (_, reported) = run(&mut sweep, &packages, &|a| match a {
        Action::AskSource(n) if n == "b" => Reply::Failed,
        Action::AskSource(n) => printed(&format!("{} update to 1_1", n)),
        _ => Reply::Nothing,
    });
    assert_eq!(shown(&reported), ["a 1 None", "c 1 None", "done 2 false"]);
}

#[test]
fn only_a_forced_sweep_asks_again() {
    let packages = vec![package("foo", "")];
    let mut cache = VersionCache::new();
    cache.store("foo", "1.0", 100);
    let mut sweep = Sweep::start(cache, false, 160);
    let (asked, reported) = run(&mut sweep, &packages, &|_| printed("foo update to 2"));
    assert!(asked.is_empty());
    assert_eq!(shown(&reported), ["foo 1.0 Some(60)", "done 1 false"]);

    let mut forced = Sweep::start(sweep.cache, true, 160);
    let (asked, reported) = run(&mut forced, &packages, &|_| printed("foo update to 2"));
    assert_eq!(asked, ["foo"]);
    assert_eq!(shown(&reported), ["foo 2 None", "done 1 false"]);
}

#[test]
fn a_sweep_over_nothing_ends_at_once() {
    let mut sweep = Sweep::start(VersionCache::new(), false, 0);
    let (asked, reported) = run(&mut sweep, &Vec::new(), &|_| Reply::Nothing);
    assert!(asked.is_empty());
    assert_eq!(shown(&reported), ["done 0 false"]);
}

#[test]
fn statuses_that_stand_for_too_many_requests() {
    assert!(matches!(refused(403), Reply::NoTag(true)));
    assert!(matches!(refused(429), Reply::NoTag(true)));
    assert!(matches!(refused(404), Reply::NoTag(false)));
}

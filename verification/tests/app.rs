//! The state of the program: what is loaded, what messages and keys do.

use vxpm::actions::{next_bump, removed_message, Stops};
use vxpm::app::{App, Operation, TemplateBumpMsg};
use vxpm::building::{BuildHistory, BuildJobStatus, BuildMsg, CleanOutcome, PreflightWarning};
use vxpm::gcc::GccInfo;
use vxpm::git::{get_git_status, GitMsg, GitOp};
use vxpm::keys::{Effect, Key};
use vxpm::load::Loaded;
use vxpm::package::{parse_template, Package, Status};
use vxpm::poll::Followup;
use vxpm::screen::{PanelMode, View};
use vxpm::shlibs::parse_shlibs;
use vxpm::version_check::VersionMsg;

fn some(s: &str) -> Option<String> {
    Some(s.to_string())
}

fn package(name: &str, depends: &[&str]) -> Package {
    let mut p = parse_template("version=1.0\n");
    p.name = name.to_string();
    p.depends = depends.iter().map(|s| s.to_string()).collect();
    p
}

/// Packages of which nothing is built or installed.
fn loaded(packages: Vec<Package>) -> Loaded {
    let n = packages.len();
    Loaded {
        packages,
        installed: vec![None; n],
        built: vec![None; n],
        uncommitted: Vec::new(),
        shlib_map: parse_shlibs(""),
        sonames: vec![Vec::new(); n],
    }
}

fn app_with(l: Loaded, gcc: GccInfo) -> App {
    App::new("/void".to_string(), l, None, gcc, BuildHistory::new(), Some(5))
}

/// b needs a; c is alone.
fn app() -> App {
    app_with(
        loaded(vec![package("b", &["a"]), package("a", &[]), package("c", &[])]),
        GccInfo::detect(&None, &None),
    )
}

fn found(app: &mut App, name: &str, version: &str) {
    let msg = VersionMsg::Found(name.to_string(), version.to_string(), None);
    app.poll_version_check(&vec![msg], 0);
}

fn said(app: &App) -> &str {
    app.status_msg.as_deref().unwrap_or("")
}

fn press(app: &mut App, c: char) -> Effect {
    app.handle_key(Key::Char(c), false)
}

const NO_STOPS: Stops = Stops { build: false, bump: false, git: false, abort_rebase: false };

#[test]
fn a_new_program_shows_the_list() {
    let app = app();
    assert_eq!(app.packages.len(), 3);
    assert_eq!(app.selected, 0);
    assert_eq!(app.view, View::List);
    assert_eq!(app.panel, PanelMode::Closed);
    assert_eq!(app.pkg_last_checked, Some(5));
    assert_eq!(app.void_pkgs, "/void");
    assert!(!app.any_op_active());
    assert_eq!(app.packages[0].status, Status::BuildOutdated);
}

#[test]
fn mismatches_are_found_when_loading() {
    let mut l = loaded(vec![package("foo", &[]), package("bar", &[])]);
    l.shlib_map = parse_shlibs("libfoo.so.1 foo-1.0_1\n");
    l.sonames = vec![vec!["libfoo.so.2".to_string()], Vec::new()];
    l.uncommitted = vec!["bar".to_string()];
    l.built = vec![some("1.0_1"), None];
    let app = app_with(l, GccInfo::detect(&None, &None));
    assert_eq!(app.packages[0].shlibs.len(), 1);
    assert_eq!(app.packages[0].soname_mismatches[0].installed, "libfoo.so.2");
    assert_eq!(app.packages[0].status, Status::ReadyToInstall);
    assert!(app.packages[1].shlibs.is_empty());
    assert!(app.packages[1].uncommitted);
}

#[test]
fn moving_stays_in_the_list() {
    let mut app = app();
    app.move_up();
    assert_eq!(app.selected, 0);
    for _ in 0..5 {
        app.move_down();
    }
    assert_eq!(app.selected, 2);
    assert_eq!(app.selected_package().unwrap().package.name, "c");
    app.move_up();
    assert_eq!(app.selected, 1);
}

#[test]
fn without_a_filter_everything_is_visible() {
    assert_eq!(app().visible_packages(), [0, 1, 2]);
}

#[test]
fn a_filter_keeps_the_order_and_ignores_case() {
    let mut app = app_with(
        loaded(vec![
            package("Größe", &[]),
            package("other", &[]),
            package("GRÖSSE-x", &[]),
            package("grö", &[]),
        ]),
        GccInfo::detect(&None, &None),
    );
    app.start_filter();
    assert!(app.filter_active);
    for c in "GRÖ".chars() {
        app.filter_input(c);
    }
    assert_eq!(app.filter, "GRÖ");
    assert_eq!(app.visible_packages(), [0, 2, 3]);
    app.move_down();
    assert_eq!(app.selected_package().unwrap().package.name, "GRÖSSE-x");
    app.filter_backspace();
    assert_eq!(app.filter, "GR");
    assert_eq!(app.selected, 0);
    app.stop_filter(false);
    assert_eq!(app.filter, "GR");
    assert!(!app.filter_active);
    app.stop_filter(true);
    assert_eq!(app.filter, "");
    app.filter_backspace();
    assert_eq!(app.filter, "");
}

#[test]
fn a_filter_that_matches_nothing_selects_nothing() {
    let mut app = app();
    app.start_filter();
    app.filter_input('z');
    assert!(app.visible_packages().is_empty());
    assert!(app.selected_package().is_none());
    app.move_down();
    assert_eq!(app.selected, 0);
}

#[test]
fn toggles() {
    let mut app = app();
    app.toggle_detail();
    assert_eq!(app.panel, PanelMode::Detail);
    app.toggle_detail();
    assert_eq!(app.panel, PanelMode::Closed);
    app.toggle_tree();
    assert_eq!(app.view, View::Tree);
    app.toggle_tree();
    assert_eq!(app.view, View::List);
    app.toggle_help();
    assert_eq!(app.panel, PanelMode::Help);
    app.toggle_help();
    assert_eq!(app.panel, PanelMode::Closed);
}

#[test]
fn the_counts_add_up() {
    let mut app = app();
    found(&mut app, "a", "2.0");
    let counts = app.status_counts();
    assert_eq!(counts.upstream_ahead, 1);
    assert_eq!(counts.build_outdated, 2);
    assert_eq!(
        counts.up_to_date
            + counts.upstream_ahead
            + counts.build_outdated
            + counts.ready_to_install
            + counts.build_failed,
        app.packages.len()
    );
    assert_eq!(app.unchecked_count(), 2);
}

#[test]
fn a_refresh_keeps_versions_and_failures() {
    let mut app = app();
    found(&mut app, "a", "2.0");
    found(&mut app, "c", "1.0");
    app.packages[0].status = Status::BuildFailed;
    app.selected = 2;
    let mut again = loaded(vec![package("a", &[]), package("b", &["a"])]);
    again.built = vec![None, some("1.0_1")];
    app.refresh(Some(again));
    assert_eq!(said(&app), "Refreshed");
    assert_eq!(app.packages.len(), 2);
    assert_eq!(app.packages[0].latest.as_deref(), Some("2.0"));
    assert_eq!(app.packages[0].status, Status::UpstreamAhead);
    assert_eq!(app.packages[1].status, Status::BuildFailed);
    assert_eq!(app.selected, 1);
}

#[test]
fn a_second_refresh_changes_nothing() {
    let mut app = app();
    found(&mut app, "a", "2.0");
    let packages = || vec![package("b", &["a"]), package("a", &[]), package("c", &[])];
    app.refresh(Some(loaded(packages())));
    let once = format!("{:?}", app);
    app.refresh(Some(loaded(packages())));
    assert_eq!(format!("{:?}", app), once);
}

#[test]
fn a_refresh_that_fails_changes_nothing() {
    let mut app = app();
    app.status_msg = some("before");
    app.refresh(None);
    assert_eq!(said(&app), "before");
    assert_eq!(app.packages.len(), 3);
}

#[test]
fn checking_the_selected_package() {
    let mut app = app();
    let p = app.check_version_selected().unwrap();
    assert_eq!(p.name, "b");
    assert!(app.checking_versions);
    assert_eq!(said(&app), "Checking upstream for b...");
    assert!(app.check_version_selected().is_none());
    assert_eq!(said(&app), "Version check already in progress");
    assert!(app.check_versions().is_none());
}

#[test]
fn checking_all_packages() {
    let mut app = app();
    let all = app.check_versions().unwrap();
    assert_eq!(all.len(), 3);
    assert_eq!(said(&app), "Checking upstream versions...");
}

#[test]
fn versions_that_are_found() {
    let mut app = app();
    app.checking_versions = true;
    let msgs = vec![
        VersionMsg::Found("a".to_string(), "2.0".to_string(), Some(125)),
        VersionMsg::Found("unknown".to_string(), "3.0".to_string(), None),
    ];
    app.poll_version_check(&msgs, 77);
    assert_eq!(app.packages[1].latest.as_deref(), Some("2.0"));
    assert_eq!(app.packages[1].status, Status::UpstreamAhead);
    assert_eq!(said(&app), "Checked unknown");
    assert!(app.checking_versions);
    app.poll_version_check(&vec![VersionMsg::Done(2, false)], 77);
    assert!(!app.checking_versions);
    assert_eq!(app.pkg_last_checked, Some(77));
    assert_eq!(said(&app), "Checked 2 packages");
    app.poll_version_check(
        &vec![VersionMsg::Found("a".to_string(), "2.0".to_string(), Some(125))],
        78,
    );
    assert_eq!(said(&app), "Checked a (cached 2m ago)");
    app.poll_version_check(&vec![VersionMsg::Done(1, true)], 79);
    assert_eq!(
        said(&app),
        "Checked 1/3 packages — GitHub rate limited (wait ~1hr or set GITHUB_TOKEN)"
    );
}

#[test]
fn bumping_the_selected_template() {
    let mut app = app();
    assert!(app.bump_template_selected().is_none());
    assert_eq!(said(&app), "b — not upstream ahead");
    found(&mut app, "b", "2.0");
    assert_eq!(
        app.bump_template_selected(),
        Some(("b".to_string(), "2.0".to_string()))
    );
    assert!(app.template_bumping);
    assert_eq!(app.panel, PanelMode::BumpLog);
    assert_eq!(said(&app), "Bumping b to v2.0...");
    assert!(app.bump_template_selected().is_none());
    assert_eq!(said(&app), "Template bump already in progress");
    assert!(app.bump_template_all().is_empty());
}

#[test]
fn a_template_without_a_known_version_is_not_bumped() {
    let mut app = app();
    app.packages[0].status = Status::UpstreamAhead;
    assert!(app.bump_template_selected().is_none());
    assert_eq!(said(&app), "No upstream version known — run u first");
}

#[test]
fn bumping_all_templates() {
    let mut app = app();
    assert!(app.bump_template_all().is_empty());
    assert_eq!(said(&app), "No packages with upstream updates");
    found(&mut app, "c", "2.0");
    found(&mut app, "b", "3.0");
    let targets = app.bump_template_all();
    assert_eq!(
        targets,
        [("b".to_string(), "3.0".to_string()), ("c".to_string(), "2.0".to_string())]
    );
    assert_eq!(said(&app), "Bumping 2 packages...");
    let mut at = 0;
    assert_eq!(next_bump(&targets, &mut at, false), Some(targets[0].clone()));
    assert_eq!(next_bump(&targets, &mut at, true), None);
    assert_eq!(next_bump(&targets, &mut at, false), Some(targets[1].clone()));
    assert_eq!(next_bump(&targets, &mut at, false), None);
}

#[test]
fn messages_of_bumps() {
    let mut app = app();
    app.template_bumping = true;
    app.bump_log_scroll = 3;
    let next = app.poll_template_bump(&vec![
        TemplateBumpMsg::Started("/l/a.log".to_string()),
        TemplateBumpMsg::Done("a".to_string(), "1".to_string(), "2".to_string()),
    ]);
    assert!(matches!(next, Followup::Nothing));
    assert_eq!(app.bump_log_path.as_deref(), Some("/l/a.log"));
    assert_eq!(app.bump_log_scroll, 0);
    assert_eq!(said(&app), "Bumped a 1 → 2");
    let next = app.poll_template_bump(&vec![TemplateBumpMsg::AllDone]);
    assert!(matches!(next, Followup::Refresh));
    assert!(!app.template_bumping);
}

#[test]
fn a_failed_bump_is_still_said_after_the_refresh() {
    let mut app = app();
    app.template_bumping = true;
    let next = app.poll_template_bump(&vec![
        TemplateBumpMsg::Failed("a".to_string(), "no".to_string()),
        TemplateBumpMsg::AllDone,
    ]);
    assert_eq!(said(&app), "Bump failed for a: no");
    match next {
        Followup::RefreshThen(msg) => assert_eq!(msg.as_deref(), Some("Bump failed for a: no")),
        other => panic!("{:?}", other),
    }
    assert!(!app.bump_had_failure);
}

#[test]
fn what_cannot_be_built() {
    let mut l = loaded(vec![package("new", &[])]);
    l.built = vec![some("1.0_1")];
    let mut app = app_with(
        l,
        GccInfo::detect(&some("13.2.0"), &some("[requirements]\nnew = \"15.0\"\n")),
    );
    assert!(!app.build_selected());
    assert_eq!(said(&app), "new — already built, run: xi new");
    app.packages[0].status = Status::UpToDate;
    assert!(!app.build_selected());
    assert_eq!(said(&app), "new — nothing to build");
    app.packages[0].status = Status::UpstreamAhead;
    assert!(!app.build_selected());
    assert_eq!(said(&app), "new — upstream ahead, bump template first (t)");
    app.packages[0].status = Status::BuildFailed;
    assert!(!app.build_selected());
    assert_eq!(said(&app), "Cannot build new: requires GCC 15.0+, system has 13.2.0");
    assert!(!app.build_all_buildable());
    assert_eq!(said(&app), "No buildable packages (1 GCC-blocked)");
    app.packages[0].status = Status::UpToDate;
    assert!(!app.build_all_buildable());
    assert_eq!(said(&app), "No packages to build (try 't' to bump templates)");
    app.build_queue.active = true;
    assert!(!app.build_selected());
    assert_eq!(said(&app), "Build already in progress");
    assert!(!app.build_all_buildable());
}

#[test]
fn everything_is_built_dependencies_first() {
    let mut app = app();
    assert!(app.build_all_buildable());
    assert_eq!(said(&app), "Building 3 packages...");
    let names = app.begin_build(Vec::new());
    let at = |n: &str| names.iter().position(|x| x == n).unwrap();
    assert_eq!(names.len(), 3);
    assert!(at("a") < at("b"));
    assert!(app.build_queue.active);
    assert_eq!(app.panel, PanelMode::BuildLog);
    assert!(app.pending_build.is_empty());
}

#[test]
fn a_warned_build_waits() {
    let mut app = app();
    assert!(app.build_selected());
    let warning = PreflightWarning { message: "w".to_string(), cleanable: true };
    assert!(app.begin_build(vec![warning]).is_empty());
    assert!(!app.build_queue.active);
    assert!(app.cleanable());
    assert_eq!(app.pending_build, ["b"]);
    let names = app.build_cleaned(&CleanOutcome::Cleaned);
    assert_eq!(names, ["b"]);
    assert_eq!(said(&app), "Cleaned masterdir build state");
    assert!(app.build_queue.active);
    assert!(app.preflight.is_empty());
}

#[test]
fn a_dismissed_build_is_dropped() {
    let mut app = app();
    assert!(app.build_selected());
    let warning = PreflightWarning { message: "w".to_string(), cleanable: false };
    app.begin_build(vec![warning]);
    assert!(!app.cleanable());
    app.dismiss_build();
    assert!(app.pending_build.is_empty());
    assert!(app.preflight.is_empty());
    assert!(!app.build_queue.active);
}

#[test]
fn messages_of_a_build() {
    let mut l = loaded(vec![package("foo", &[]), package("bar", &[])]);
    l.shlib_map = parse_shlibs("libfoo.so.1 foo-1.0_1\n");
    l.sonames = vec![vec!["libfoo.so.2".to_string()], Vec::new()];
    let mut app = app_with(l, GccInfo::detect(&None, &None));
    assert!(app.build_all_buildable());
    app.begin_build(Vec::new());
    let name = |s: &str| s.to_string();
    app.poll_build(
        &vec![BuildMsg::Started(name("foo")), BuildMsg::Output(name("foo"), name("line"))],
        9,
    );
    assert_eq!(said(&app), "Building foo...");
    assert_eq!(app.build_queue.current_output, ["line"]);
    let next = app.poll_build(
        &vec![
            BuildMsg::Finished(name("foo"), name("/l/foo")),
            BuildMsg::Started(name("bar")),
            BuildMsg::Failed(name("bar"), vec![name("boom")], name("/l/bar")),
            BuildMsg::QueueComplete,
        ],
        9,
    );
    match next {
        Followup::RefreshThen(msg) => assert_eq!(msg.as_deref(), Some("Run: xi foo")),
        other => panic!("{:?}", other),
    }
    assert!(!app.build_queue.active);
    assert_eq!(app.build_queue.current_output, ["ERR: boom"]);
    let job = |n: &str| app.build_queue.jobs.iter().find(|j| j.name == n).unwrap().status;
    assert_eq!(job("foo"), BuildJobStatus::Success);
    assert_eq!(job("bar"), BuildJobStatus::Failed);
    assert_eq!(app.packages[0].build_log.as_deref(), Some("/l/foo"));
    assert_eq!(app.packages[1].status, Status::BuildFailed);
    assert_eq!(app.build_history.entries.len(), 2);
    assert_eq!(app.build_history.entries[0].timestamp, 9);
    assert_eq!(
        app.shlib_updates,
        [(name("foo"), name("libfoo.so.1"), name("libfoo.so.2"), name("foo-1.0_1"))]
    );
}

#[test]
fn changes_of_the_register_do_not_pile_up() {
    let mut l = loaded(vec![package("foo", &[])]);
    l.shlib_map = parse_shlibs("libfoo.so.1 foo-1.0_1\n");
    l.sonames = vec![vec!["libfoo.so.2".to_string()]];
    let mut app = app_with(l, GccInfo::detect(&None, &None));
    app.build_queue.active = true;
    for _ in 0..3 {
        app.poll_build(&vec![BuildMsg::Finished("foo".to_string(), String::new())], 0);
    }
    assert_eq!(app.shlib_updates.len(), 1);
}

#[test]
fn the_output_of_a_build_is_bounded() {
    let mut app = app();
    app.build_queue.active = true;
    let msgs: Vec<BuildMsg> =
        (0..450).map(|i| BuildMsg::Output("a".to_string(), i.to_string())).collect();
    app.poll_build(&msgs, 0);
    assert_eq!(app.build_queue.current_output.len(), 200);
    assert_eq!(app.build_queue.current_output[0], "250");
    assert_eq!(app.build_queue.current_output[199], "449");
}

#[test]
fn a_queue_without_successes() {
    let mut app = app();
    app.build_queue.active = true;
    match app.poll_build(&vec![BuildMsg::QueueComplete], 0) {
        Followup::RefreshThen(msg) => {
            assert_eq!(msg.as_deref(), Some("Build queue finished (no successful builds)"))
        }
        other => panic!("{:?}", other),
    }
    let next = app.poll_build(&vec![BuildMsg::Started("a".to_string())], 0);
    assert!(matches!(next, Followup::Nothing));
}

#[test]
fn applying_changes_of_the_register() {
    let mut app = app();
    let t = |s: &str| s.to_string();
    app.shlib_updates = vec![(t("p"), t("old"), t("new"), t("p-1_1"))];
    assert_eq!(app.apply_shlib_updates(), [(t("old"), t("new"), t("p-1_1"))]);
    assert!(matches!(app.shlibs_written(&some("disk full")), Followup::Nothing));
    assert_eq!(said(&app), "Failed to write common/shlibs: disk full");
    assert_eq!(app.shlib_updates.len(), 1);
    match app.shlibs_written(&None) {
        Followup::RefreshThen(msg) => assert_eq!(msg.as_deref(), Some("Updated 1 shlib entries")),
        other => panic!("{:?}", other),
    }
    assert!(app.shlib_updates.is_empty());
}

#[test]
fn removing_built_packages() {
    let app = app();
    assert_eq!(app.package_names(), ["b", "a", "c"]);
    let files = vec!["a-1_1.x.xbps".to_string(), "a-2_1.x.xbps".to_string(), "z-1_1.x.xbps".to_string()];
    assert_eq!(app.clean_old_packages(&files), [true, false, false]);
    assert_eq!(app.clean_all_packages(&files), [true, true, false]);
    assert_eq!(removed_message(2, "3 B", false), "Cleaned 2 old package(s), freed 3 B");
    assert_eq!(
        removed_message(0, "0 B", false),
        "Nothing to clean — already at one version per package"
    );
    assert_eq!(removed_message(2, "3 B", true), "Removed 2 package(s), freed 3 B");
    assert_eq!(removed_message(0, "0 B", true), "No built packages to remove");
}

#[test]
fn cancelling_asks_first() {
    let mut app = app();
    app.request_cancel();
    assert_eq!(app.cancel_confirm, None);
    app.git_op_active = true;
    app.request_cancel();
    assert_eq!(app.cancel_confirm, Some(Operation::Git));
    app.template_bumping = true;
    app.request_cancel();
    assert_eq!(app.cancel_confirm, Some(Operation::Bump));
    app.build_queue.active = true;
    app.request_cancel();
    assert_eq!(app.cancel_confirm, Some(Operation::Build));
    assert_eq!(app.confirm_cancel(), Stops { build: true, ..NO_STOPS });
    assert_eq!(said(&app), "Cancelling build...");
    assert!(app.build_queue.cancelled);
    assert_eq!(app.cancel_confirm, None);
    assert_eq!(app.confirm_cancel(), NO_STOPS);
    app.cancel_confirm = Some(Operation::Bump);
    assert_eq!(app.confirm_cancel(), Stops { bump: true, ..NO_STOPS });
    assert!(app.bump_cancelled);
    app.cancel_confirm = Some(Operation::Git);
    assert_eq!(app.confirm_cancel(), Stops { git: true, ..NO_STOPS });
    assert!(app.git_cancelled);
    app.cancel_confirm = Some(Operation::Git);
    app.deny_cancel();
    assert_eq!(app.cancel_confirm, None);
}

#[test]
fn quitting_asks_while_something_runs() {
    let mut app = app();
    app.request_quit();
    assert!(app.should_quit);
    app.should_quit = false;
    app.git_op_active = true;
    app.git_current_op = Some(GitOp::RebaseCustom);
    app.request_quit();
    assert!(!app.should_quit);
    assert!(app.quit_confirm);
    app.deny_quit();
    assert!(!app.quit_confirm);
    let stops = app.confirm_quit();
    assert_eq!(stops, Stops { git: true, abort_rebase: true, ..NO_STOPS });
    assert!(app.should_quit);
    app.git_current_op = Some(GitOp::PushCustom);
    app.template_bumping = true;
    assert_eq!(app.kill_all(), Stops { git: true, bump: true, ..NO_STOPS });
}

#[test]
fn operations_on_the_branches_run_one_at_a_time() {
    let mut app = app();
    assert!(app.open_git_menu());
    assert_eq!(app.panel, PanelMode::GitMenu);
    app.refresh_git_status(get_git_status(&some("custom"), &some("1\t2"), None));
    assert_eq!(app.git_status.as_ref().unwrap().ahead, 2);
    app.git_output.push("old".to_string());
    assert!(app.git_rebase_custom());
    assert_eq!(app.git_current_op, Some(GitOp::RebaseCustom));
    assert!(app.git_output.is_empty());
    assert!(!app.git_sync_master());
    assert!(!app.git_push_custom());
    assert_eq!(said(&app), "Git operation already in progress");
    let msgs = vec![
        GitMsg::Output("out".to_string()),
        GitMsg::Success("ok".to_string()),
        GitMsg::Failed("bad".to_string()),
    ];
    assert!(!app.poll_git(&msgs));
    assert_eq!(app.git_output, ["out", "ok", "ERR: bad"]);
    assert_eq!(said(&app), "bad");
    assert!(app.poll_git(&vec![GitMsg::Done]));
    assert!(!app.git_op_active);
    assert_eq!(app.git_current_op, None);
    assert!(!app.open_git_menu());
    assert_eq!(app.panel, PanelMode::Closed);
}

#[test]
fn the_log_scrolls_within_its_lines() {
    let mut app = app();
    app.scroll_log_up();
    assert_eq!(app.build_log_scroll, 0);
    app.build_queue.current_output = vec!["1".to_string(), "2".to_string(), "3".to_string()];
    for _ in 0..5 {
        app.scroll_log_up();
    }
    assert_eq!(app.build_log_scroll, 2);
    app.scroll_log_down();
    assert_eq!(app.build_log_scroll, 1);
    app.scroll_log_down();
    app.scroll_log_down();
    assert_eq!(app.build_log_scroll, 0);
}

#[test]
fn keys_that_move() {
    let mut app = app();
    press(&mut app, 'j');
    app.handle_key(Key::Down, false);
    assert_eq!(app.selected, 2);
    press(&mut app, 'k');
    assert_eq!(app.selected, 1);
    app.handle_key(Key::Enter, false);
    assert_eq!(app.panel, PanelMode::Detail);
    app.handle_key(Key::Tab, false);
    assert_eq!(app.view, View::Tree);
    app.handle_key(Key::Esc, false);
    assert_eq!(app.panel, PanelMode::Closed);
    app.handle_key(Key::Esc, false);
    assert_eq!(app.view, View::List);
    press(&mut app, '?');
    assert_eq!(app.panel, PanelMode::Help);
    press(&mut app, 'q');
    assert!(app.should_quit);
}

#[test]
fn keys_that_type_a_filter() {
    let mut app = app();
    press(&mut app, '/');
    press(&mut app, 'q');
    assert!(!app.should_quit);
    assert_eq!(app.filter, "q");
    app.handle_key(Key::Backspace, false);
    press(&mut app, 'c');
    app.handle_key(Key::Enter, false);
    assert_eq!(app.visible_packages(), [2]);
    app.handle_key(Key::Esc, false);
    assert_eq!(app.filter, "");
}

#[test]
fn keys_that_have_something_done() {
    let mut app = app();
    match press(&mut app, 'u') {
        Effect::Check { packages, force } => {
            assert_eq!(packages[0].name, "b");
            assert!(force);
        }
        other => panic!("{:?}", other),
    }
    app.checking_versions = false;
    match press(&mut app, 'U') {
        Effect::Check { packages, force } => {
            assert_eq!(packages.len(), 3);
            assert!(!force);
        }
        other => panic!("{:?}", other),
    }
    assert!(matches!(press(&mut app, 'r'), Effect::Refresh));
    assert!(matches!(press(&mut app, 't'), Effect::Nothing));
    found(&mut app, "b", "2.0");
    match press(&mut app, 't') {
        Effect::Bump(targets) => assert_eq!(targets, [("b".to_string(), "2.0".to_string())]),
        other => panic!("{:?}", other),
    }
    app.template_bumping = false;
    match press(&mut app, 'T') {
        Effect::Bump(targets) => assert_eq!(targets.len(), 1),
        other => panic!("{:?}", other),
    }
    app.template_bumping = false;
    assert!(matches!(press(&mut app, 'B'), Effect::Preflight));
    assert!(matches!(press(&mut app, 'b'), Effect::Nothing));
    assert!(matches!(press(&mut app, 's'), Effect::Nothing));
    app.shlib_updates = vec![(String::new(), String::new(), String::new(), String::new())];
    assert!(matches!(press(&mut app, 's'), Effect::WriteShlibs(_)));
    assert!(matches!(press(&mut app, '1'), Effect::Nothing));
    assert!(matches!(press(&mut app, 'g'), Effect::GitStatus));
    assert!(matches!(press(&mut app, '1'), Effect::Git(GitOp::SyncMaster)));
    assert!(matches!(press(&mut app, '2'), Effect::Nothing));
    app.git_op_active = false;
    assert!(matches!(press(&mut app, '2'), Effect::Git(GitOp::RebaseCustom)));
    app.git_op_active = false;
    assert!(matches!(press(&mut app, '3'), Effect::Git(GitOp::PushCustom)));
    assert!(matches!(app.handle_key(Key::Other, false), Effect::Nothing));
}

#[test]
fn questions_wait_for_their_answer() {
    let mut app = app();
    app.git_op_active = true;
    app.handle_key(Key::Esc, false);
    assert_eq!(app.cancel_confirm, Some(Operation::Git));
    press(&mut app, 'j');
    assert_eq!(app.selected, 0);
    assert_eq!(app.cancel_confirm, Some(Operation::Git));
    press(&mut app, 'n');
    assert_eq!(app.cancel_confirm, None);
    press(&mut app, 'q');
    assert!(app.quit_confirm);
    assert!(matches!(press(&mut app, 'u'), Effect::Nothing));
    assert!(app.quit_confirm);
    app.handle_key(Key::Esc, false);
    assert!(!app.quit_confirm);
    press(&mut app, 'q');
    match press(&mut app, 'y') {
        Effect::Stop(stops) => assert_eq!(stops, Stops { git: true, ..NO_STOPS }),
        other => panic!("{:?}", other),
    }
    assert!(app.should_quit);
}

#[test]
fn keys_in_the_warning_before_a_build() {
    let warn = |cleanable| vec![PreflightWarning { message: "w".to_string(), cleanable }];
    let mut app = app();
    press(&mut app, 'b');
    app.begin_build(warn(false));
    assert!(matches!(press(&mut app, 'c'), Effect::Nothing));
    press(&mut app, 'q');
    assert!(!app.should_quit);
    assert!(app.preflight.is_empty());
    press(&mut app, 'b');
    app.begin_build(warn(true));
    assert!(matches!(press(&mut app, 'c'), Effect::CleanAndBuild));
    match press(&mut app, 'b') {
        Effect::Build(names) => assert_eq!(names, ["b"]),
        other => panic!("{:?}", other),
    }
    assert!(app.build_queue.active);
}

#[test]
fn control_c_always_quits() {
    let mut app = app();
    app.build_queue.active = true;
    app.filter_active = true;
    assert!(matches!(app.handle_key(Key::Char('c'), true), Effect::Nothing));
    assert!(app.should_quit);
    assert!(app.build_queue.active);
    assert!(!app.build_queue.cancelled);
    assert_eq!(app.filter, "");
}

#[test]
fn a_refresh_with_a_message() {
    let mut app = app();
    app.refresh_then(Some(loaded(vec![package("a", &[])])), some("Run: xi a"));
    assert_eq!(app.packages.len(), 1);
    assert_eq!(said(&app), "Run: xi a");
    app.refresh_then(None, some("other"));
    assert_eq!(app.packages.len(), 1);
    assert_eq!(said(&app), "other");
    app.refresh_then(None, None);
    assert_eq!(app.status_msg, None);
}

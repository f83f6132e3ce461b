//! What is on the screen.

use vxpm::app::{App, Operation};
use vxpm::building::{BuildHistory, BuildJob, BuildJobStatus, PreflightWarning};
use vxpm::gcc::GccInfo;
use vxpm::git::get_git_status;
use vxpm::load::Loaded;
use vxpm::package::{parse_template, Package, Status};
use vxpm::screen::{PanelMode, View};
use vxpm::shlibs::parse_shlibs;
use vxpm::ui::{
    ago_label, draw, draw_build_log, draw_bump_log, draw_detail, draw_git_panel, draw_header, draw_help,
    draw_package_list, draw_status_bar, draw_tree_view, list_headings, package_row, panel_height,
    prompt, Main, Span, Tone,
};

fn some(s: &str) -> Option<String> {
    Some(s.to_string())
}

fn package(name: &str, depends: &[&str]) -> Package {
    let mut p = parse_template("version=1.0\nshort_desc=\"A thing\"\nhomepage=https://e.org\n");
    p.name = name.to_string();
    p.depends = depends.iter().map(|s| s.to_string()).collect();
    p
}

/// b and c need a, d needs b; the libraries of a are not installed as they are registered.
fn app() -> App {
    let loaded = Loaded {
        packages: vec![
            package("a", &[]),
            package("b", &["a"]),
            package("c", &["a"]),
            package("d", &["b"]),
        ],
        installed: vec![some("a-1.0_1"), None, None, None],
        built: vec![None, None, None, None],
        uncommitted: Vec::new(),
        shlib_map: parse_shlibs("liba.so.1 a-1.0_1\nlibz.so.1 a-1.0_1\n"),
        sonames: vec![
            vec!["liba.so.2".to_string(), "libz.so.1".to_string()],
            Vec::new(),
            Vec::new(),
            Vec::new(),
        ],
    };
    App::new(
        "/void".to_string(),
        loaded,
        get_git_status(&some("custom"), &some("3\t2"), Some(1000)),
        GccInfo::detect(&some("13.2.0"), &some("[requirements]\nd = \"15.0\"\n")),
        BuildHistory::new(),
        None,
    )
}

fn text(line: &[Span]) -> String {
    line.iter().map(|s| s.text.as_str()).collect()
}

fn lines(v: &[Vec<Span>]) -> Vec<String> {
    v.iter().map(|l| text(l)).collect()
}

fn numbered(n: usize) -> Vec<String> {
    (0..n).map(|i| i.to_string()).collect()
}

#[test]
fn how_long_ago() {
    assert_eq!(ago_label(59), "just now");
    assert_eq!(ago_label(60), "1m ago");
    assert_eq!(ago_label(3599), "59m ago");
    assert_eq!(ago_label(7200), "2h ago");
    assert_eq!(ago_label(86400 * 3), "3d ago");
}

#[test]
fn rows_of_the_panels() {
    assert_eq!(panel_height(PanelMode::Closed), 0);
    assert_eq!(panel_height(PanelMode::Detail), 10);
    assert_eq!(panel_height(PanelMode::BuildLog), 12);
    assert_eq!(panel_height(PanelMode::BumpLog), 12);
    assert_eq!(panel_height(PanelMode::GitMenu), 10);
    assert_eq!(panel_height(PanelMode::Help), 16);
}

#[test]
fn the_header() {
    let mut app = app();
    assert_eq!(
        text(&draw_header(&app, 1120)),
        " VPM  Void Package Manager  custom | 2 ahead | 3 behind | synced 2m ago  GCC 13.2.0"
    );
    assert!(!text(&draw_header(&app, 999)).contains("synced"));
    app.git_status = None;
    app.filter = "b".to_string();
    assert_eq!(
        text(&draw_header(&app, 0)),
        " VPM  Void Package Manager  GCC 13.2.0  filter: b  1/4"
    );
    app.filter_active = true;
    assert_eq!(
        text(&draw_header(&app, 0)),
        " VPM  Void Package Manager  GCC 13.2.0  / b█  1/4"
    );
}

#[test]
fn the_list() {
    let mut app = app();
    assert_eq!(list_headings(), ["Package", "Template", "Installed", "Latest", "Status"]);
    let row: Vec<String> =
        package_row(&app.packages[0], &app.gcc_info).iter().map(|s| s.text.clone()).collect();
    assert_eq!(row, ["a", "1.0", "1.0_1", "-", "UP TO DATE !so"]);
    let row = package_row(&app.packages[3], &app.gcc_info);
    assert_eq!(row[4].text, "BUILD OUTDATED GCC 15.0+");
    assert_eq!(row[4].tone, Tone::Warning);
    assert!(row[4].bold);
    assert_eq!(package_row(&app.packages[0], &app.gcc_info)[4].tone, Tone::Notice);
    assert_eq!(draw_package_list(&app).len(), 4);
    app.filter = "c".to_string();
    let rows = draw_package_list(&app);
    assert_eq!(rows.len(), 1);
    assert_eq!(rows[0][0].text, "c");
}

#[test]
fn the_tree() {
    let app = app();
    let tree = app.dep_graph.reverse_dep_tree("a");
    assert_eq!(
        lines(&draw_tree_view(&app.packages[0], &tree)),
        ["a (v1.0)", "├── b", "│   └── d", "└── c"]
    );
    assert_eq!(
        lines(&draw_tree_view(&app.packages[3], &app.dep_graph.reverse_dep_tree("d"))),
        ["d (v1.0)", "  (no reverse dependencies)"]
    );
}

#[test]
fn the_panel_for_a_package() {
    let mut app = app();
    app.packages[0].build_log = some("/l/a.log");
    assert_eq!(
        lines(&draw_detail(&app, &app.packages[0])),
        [
            "  A thing",
            "  Homepage: https://e.org",
            "  Status: Nothing to do.",
            "  Depends on: (none)",
            "  Depended by: b, c",
            "  Shared libs: liba.so.1 (installed: liba.so.2 — MISMATCH) libz.so.1 (OK) ",
            "  Build log: /l/a.log"
        ]
    );
    let of_d = lines(&draw_detail(&app, &app.packages[3]));
    assert_eq!(of_d[3], "  Depends on: b");
    assert_eq!(of_d[4], "  Depended by: (none)");
    assert_eq!(of_d[5], "  GCC: Requires 15.0+, system has 13.2.0");
}

#[test]
fn the_build_log() {
    let mut app = app();
    app.build_queue.jobs = vec![
        BuildJob { name: "a".to_string(), status: BuildJobStatus::Success },
        BuildJob { name: "b".to_string(), status: BuildJobStatus::Building },
        BuildJob { name: "c".to_string(), status: BuildJobStatus::Failed },
        BuildJob { name: "d".to_string(), status: BuildJobStatus::Pending },
    ];
    app.build_queue.current_output = numbered(5);
    app.build_queue.current_output.push("ERR: bad".to_string());
    let shown = draw_build_log(&app, 3);
    assert_eq!(
        lines(&shown),
        ["  [OK] a  [BUILD] b  [FAIL] c  [WAIT] d  ", "  3", "  4", "  ERR: bad"]
    );
    assert_eq!(shown[3][0].tone, Tone::Bad);
    assert_eq!(shown[2][0].tone, Tone::Text);
    app.build_log_scroll = 2;
    assert_eq!(lines(&draw_build_log(&app, 3))[1..], ["  1", "  2", "  3"]);
}

#[test]
fn the_bump_log() {
    assert_eq!(lines(&draw_bump_log(&numbered(5), 2, 0)), ["  3", "  4"]);
    assert_eq!(lines(&draw_bump_log(&numbered(5), 2, 1)), ["  2", "  3"]);
    assert_eq!(lines(&draw_bump_log(&numbered(2), 9, 0)), ["  0", "  1"]);
    assert!(draw_bump_log(&Vec::new(), 3, 0).is_empty());
}

#[test]
fn the_panel_for_the_branches() {
    let mut app = app();
    assert_eq!(
        lines(&draw_git_panel(&app, 8)),
        [
            "  custom | 2 ahead of master | 3 behind master",
            "",
            "  1  Sync master (fetch upstream)",
            "  2  Rebase custom onto master",
            "  3  Push custom (--force-with-lease)",
            "",
            "  Esc  Close"
        ]
    );
    app.git_status = None;
    assert_eq!(lines(&draw_git_panel(&app, 8))[0], "  (git status unavailable)");
    app.git_output = numbered(4);
    app.git_op_active = true;
    assert_eq!(lines(&draw_git_panel(&app, 3)), ["  1", "  2", "  3"]);
    app.git_op_active = false;
    assert_eq!(
        lines(&draw_git_panel(&app, 6))[4..],
        ["", "  1  Sync master   2  Rebase custom   3  Push custom   Esc  Close"]
    );
    assert_eq!(lines(&draw_git_panel(&app, 5)).len(), 4);
}

#[test]
fn the_status_bar() {
    let mut app = app();
    let keys = "  j/k:nav  /:search  Enter:detail  Tab:tree  u/U:upstream  t/T:bump  b/B:build  \
                g:git  ?:help  q:quit";
    assert_eq!(text(&draw_status_bar(&app)), format!(" 1 ok │ 3 need build{}", keys));
    app.packages[1].status = Status::UpstreamAhead;
    app.packages[2].status = Status::ReadyToInstall;
    app.packages[3].status = Status::BuildFailed;
    app.status_msg = some("Hello");
    app.shlib_updates = vec![(String::new(), String::new(), String::new(), String::new())];
    assert_eq!(
        text(&draw_status_bar(&app)),
        format!(" 1 ok │ 1 updates │ 1 ready │ 1 failed  Hello  1 shlib updates  s:apply{}", keys)
    );
    app.packages.clear();
    app.status_msg = None;
    app.shlib_updates.clear();
    assert_eq!(text(&draw_status_bar(&app)), format!(" {}", keys));
}

#[test]
fn the_help() {
    let help = draw_help();
    assert_eq!(help.len(), 13);
    assert_eq!(text(&help[9]), "  s      Apply SONAME shlib updates");
    assert!(help.len() + 2 <= panel_height(PanelMode::Help) as usize);
}

#[test]
fn what_the_user_is_asked() {
    let mut app = app();
    assert_eq!(prompt(&app), None);
    app.preflight = vec![PreflightWarning { message: "w".to_string(), cleanable: false }];
    assert_eq!(prompt(&app).as_deref(), Some("b: build anyway   Esc/q: dismiss"));
    app.preflight[0].cleanable = true;
    assert_eq!(
        prompt(&app).as_deref(),
        Some("c: clean & build   b: build anyway   Esc/q: dismiss")
    );
    app.cancel_confirm = Some(Operation::Bump);
    assert_eq!(prompt(&app).as_deref(), Some("Cancel the bump? (y/n)"));
    app.quit_confirm = true;
    assert_eq!(
        prompt(&app).as_deref(),
        Some("Something is still running. Quit anyway? (y/n)")
    );
}

#[test]
fn the_whole_screen() {
    let mut app = app();
    let log = numbered(20);
    let screen = draw(&app, 1120, 0, &log);
    assert_eq!(text(&screen.header), text(&draw_header(&app, 1120)));
    assert_eq!(text(&screen.status_bar), text(&draw_status_bar(&app)));
    assert!(screen.panel.is_none());
    assert!(screen.prompt.is_none());
    match screen.main {
        Main::List { rows, selected } => {
            assert_eq!(rows.len(), 4);
            assert_eq!(selected, 0);
        }
        other => panic!("{:?}", other),
    }

    app.view = View::Tree;
    app.panel = PanelMode::BumpLog;
    let screen = draw(&app, 0, 5, &log);
    match screen.main {
        Main::Tree { lines: Some(tree) } => assert_eq!(lines(&tree)[0], "a (v1.0)"),
        other => panic!("{:?}", other),
    }
    let panel = screen.panel.unwrap();
    assert_eq!(panel.title, " Bump Log ");
    assert_eq!(lines(&panel.lines), ["  17", "  18", "  19"]);
    assert!(!panel.wrapped);

    app.panel = PanelMode::Detail;
    let panel = draw(&app, 0, 10, &log).panel.unwrap();
    assert_eq!(panel.title, " a ");
    assert!(panel.wrapped);
    for (mode, title) in [
        (PanelMode::BuildLog, " Build Log "),
        (PanelMode::GitMenu, " Git Operations "),
        (PanelMode::Help, " Help "),
    ] {
        app.panel = mode;
        assert_eq!(draw(&app, 0, 10, &log).panel.unwrap().title, title);
    }

    app.filter = "zzz".to_string();
    app.panel = PanelMode::Detail;
    let screen = draw(&app, 0, 10, &log);
    assert!(screen.panel.is_none());
    assert!(matches!(screen.main, Main::Tree { lines: None }));
}

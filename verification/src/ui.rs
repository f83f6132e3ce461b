//! What is on the screen, as lines of toned text.

use vstd::prelude::*;

use crate::actions::can_clean;
use crate::app::{as_ints, count_status, lemma_visible_in, state_names, App, AppModel, Operation};
use crate::building::{BuildJobStatus, JobModel};
use crate::dep_graph::{forest_model, subtrees, tree_model, TreeModel, TreeNode};
use crate::gcc::GccInfo;
use crate::git::{git_status_opt, GitStatus, GitStatusModel};
use crate::package::{
    installed_to_ver_rev, status_hint, status_label, PackageState, StateModel, Status,
};
use crate::screen;
use crate::screen::PanelMode;
use crate::shlibs::{MismatchModel, ShlibModel};
use crate::text::{
    begins, cat, cat3, chars_of, decimal, join, joined, number, rfind_char, same_text, starts_with,
    text_opt, texts,
};

verus! {

// ---------------------------------------------------------------------------------------------
// Toned text
// ---------------------------------------------------------------------------------------------

/// How a text is toned.
#[derive(Debug, Clone, Copy, PartialEq, Eq, Structural)]
pub enum Tone {
    /// As the terminal has it.
    Plain,
    Text,
    Dim,
    Good,
    Bad,
    Warning,
    Notice,
    Accent,
    /// Dark on the accent.
    Title,
}

/// A run of text of one tone.
#[derive(Debug)]
pub struct Span {
    pub text: String,
    pub tone: Tone,
    pub bold: bool,
}

/// What a `Span` holds.
pub struct SpanModel {
    pub text: Seq<char>,
    pub tone: Tone,
    pub bold: bool,
}

impl View for Span {
    type V = SpanModel;

    open spec fn view(&self) -> SpanModel {
        SpanModel { text: self.text@, tone: self.tone, bold: self.bold }
    }
}

pub open spec fn spans(v: Seq<Span>) -> Seq<SpanModel> {
    Seq::new(v.len(), |i: int| v[i]@)
}

/// The runs of lines.
pub open spec fn line_spans(v: Seq<Vec<Span>>) -> Seq<Seq<SpanModel>> {
    Seq::new(v.len(), |i: int| spans(v[i]@))
}

/// A run that is not bold.
pub open spec fn run(text: Seq<char>, tone: Tone) -> SpanModel {
    SpanModel { text, tone, bold: false }
}

/// A bold run.
pub open spec fn bold(text: Seq<char>, tone: Tone) -> SpanModel {
    SpanModel { text, tone, bold: true }
}

/// Puts a run behind the others.
fn put(out: &mut Vec<Span>, text: &str, tone: Tone, bold: bool)
    ensures
        spans(final(out)@) == spans(old(out)@).push(SpanModel { text: text@, tone, bold }),
{
    let ghost before = out@;
    let s = Span { text: text.to_owned(), tone, bold };
    out.push(s);
    assert(spans(out@) =~= spans(before).push(s@));
}

/// Puts a line behind the others.
fn put_line(out: &mut Vec<Vec<Span>>, line: Vec<Span>)
    ensures
        line_spans(final(out)@) == line_spans(old(out)@).push(spans(line@)),
{
    let ghost before = out@;
    out.push(line);
    assert(line_spans(out@) =~= line_spans(before).push(spans(line@)));
}

/// No runs.
fn no_spans() -> (r: Vec<Span>)
    ensures
        spans(r@) == Seq::<SpanModel>::empty(),
{
    let r: Vec<Span> = Vec::new();
    assert(spans(r@) =~= Seq::<SpanModel>::empty());
    r
}

/// A line of one run.
fn line1(text: &str, tone: Tone, is_bold: bool) -> (r: Vec<Span>)
    ensures
        spans(r@) == seq![SpanModel { text: text@, tone, bold: is_bold }],
{
    let mut r = no_spans();
    put(&mut r, text, tone, is_bold);
    assert(spans(r@) =~= seq![SpanModel { text: text@, tone, bold: is_bold }]);
    r
}

/// A line of a label and a value.
fn line2(label: &str, value: &str, tone: Tone) -> (r: Vec<Span>)
    ensures
        spans(r@) == seq![run(label@, Tone::Dim), run(value@, tone)],
{
    let mut r = no_spans();
    put(&mut r, label, Tone::Dim, false);
    put(&mut r, value, tone, false);
    assert(spans(r@) =~= seq![run(label@, Tone::Dim), run(value@, tone)]);
    r
}

/// No lines.
fn no_lines() -> (r: Vec<Vec<Span>>)
    ensures
        line_spans(r@) == Seq::<Seq<SpanModel>>::empty(),
{
    let r: Vec<Vec<Span>> = Vec::new();
    assert(line_spans(r@) =~= Seq::<Seq<SpanModel>>::empty());
    r
}

/// The tone of a status.
pub open spec fn status_tone(s: Status) -> Tone {
    match s {
        Status::UpToDate => Tone::Good,
        Status::UpstreamAhead => Tone::Notice,
        Status::BuildOutdated => Tone::Warning,
        Status::ReadyToInstall => Tone::Notice,
        Status::BuildFailed => Tone::Bad,
    }
}

/// The tone of a status.
fn tone_of(s: Status) -> (r: Tone)
    ensures
        r == status_tone(s),
{
    match s {
        Status::UpToDate => Tone::Good,
        Status::UpstreamAhead => Tone::Notice,
        Status::BuildOutdated => Tone::Warning,
        Status::ReadyToInstall => Tone::Notice,
        Status::BuildFailed => Tone::Bad,
    }
}

/// How many rows a panel takes.
pub fn panel_height(panel: PanelMode) -> (r: u16)
    ensures
        r == match panel {
            PanelMode::Closed => 0u16,
            PanelMode::Detail => 10,
            PanelMode::BuildLog => 12,
            PanelMode::BumpLog => 12,
            PanelMode::GitMenu => 10,
            PanelMode::Help => 16,
        },
{
    match panel {
        PanelMode::Closed => 0,
        PanelMode::Detail => 10,
        PanelMode::BuildLog => 12,
        PanelMode::BumpLog => 12,
        PanelMode::GitMenu => 10,
        PanelMode::Help => 16,
    }
}

// ---------------------------------------------------------------------------------------------
// The header
// ---------------------------------------------------------------------------------------------

/// How long ago something was.
pub open spec fn ago(secs: nat) -> Seq<char> {
    if secs < 60 {
        "just now"@
    } else if secs < 3600 {
        decimal(secs / 60) + "m ago"@
    } else if secs < 86400 {
        decimal(secs / 3600) + "h ago"@
    } else {
        decimal(secs / 86400) + "d ago"@
    }
}

/// How long ago something was.
pub fn ago_label(secs: u64) -> (r: String)
    ensures
        r@ == ago(secs as nat),
{
    if secs < 60 {
        "just now".to_owned()
    } else if secs < 3600 {
        cat(number(secs / 60).as_str(), "m ago")
    } else if secs < 86400 {
        cat(number(secs / 3600).as_str(), "h ago")
    } else {
        cat(number(secs / 86400).as_str(), "d ago")
    }
}

/// A count of commits, where there are any.
pub open spec fn count_span(front: Seq<char>, n: u32, back: Seq<char>, tone: Tone) -> Seq<
    SpanModel,
> {
    if n > 0 {
        seq![run(front + decimal(n as nat) + back, tone)]
    } else {
        Seq::empty()
    }
}

/// When upstream was last fetched, where that is known and not in the future.
pub open spec fn fetch_span(last_fetch: Option<u64>, now: u64) -> Seq<SpanModel> {
    match last_fetch {
        Some(t) => if t <= now {
            seq![run(" | synced "@ + ago((now - t) as nat), Tone::Dim)]
        } else {
            Seq::empty()
        },
        None => Seq::empty(),
    }
}

/// Where the branches stand, in the header.
pub open spec fn git_spans(status: Option<GitStatusModel>, now: u64) -> Seq<SpanModel> {
    match status {
        Some(s) => seq![run("  "@, Tone::Plain), run(s.branch, Tone::Dim)] + count_span(
            " | "@,
            s.ahead,
            " ahead"@,
            Tone::Notice,
        ) + count_span(" | "@, s.behind, " behind"@, Tone::Warning) + fetch_span(
            s.last_fetch,
            now,
        ),
        None => Seq::empty(),
    }
}

/// How many packages are visible.
pub open spec fn visible_count(m: AppModel) -> SpanModel {
    run("  "@ + decimal(m.visible().len()) + "/"@ + decimal(m.packages.len()), Tone::Dim)
}

/// The filter, in the header.
pub open spec fn filter_spans(m: AppModel) -> Seq<SpanModel> {
    if m.filter_active {
        seq![
            bold("  / "@, Tone::Accent),
            run(m.filter, Tone::Text),
            run("\u{2588}"@, Tone::Text),
            visible_count(m),
        ]
    } else if m.filter.len() > 0 {
        seq![run("  filter: "@, Tone::Dim), run(m.filter, Tone::Text), visible_count(m)]
    } else {
        Seq::empty()
    }
}

/// The header: the program, where the branches stand, the compiler, and the filter.
pub open spec fn header(m: AppModel, now: u64) -> Seq<SpanModel> {
    seq![bold(" VPM "@, Tone::Title), run(" Void Package Manager"@, Tone::Text)] + git_spans(
        m.git_status,
        now,
    ) + seq![
        run("  "@, Tone::Plain),
        run("GCC "@ + m.gcc_info.shown_version(), Tone::Dim),
    ] + filter_spans(m)
}

/// Puts a count of commits behind the others, where there are any.
fn put_count(out: &mut Vec<Span>, front: &str, n: u32, back: &str, tone: Tone)
    ensures
        spans(final(out)@) == spans(old(out)@) + count_span(front@, n, back@, tone),
{
    let ghost before = spans(out@);
    if n > 0 {
        let count = number(n as u64);
        let text = cat3(front, count.as_str(), back);
        put(out, text.as_str(), tone, false);
    }
    assert(spans(out@) =~= before + count_span(front@, n, back@, tone));
}

/// Puts behind the others where the branches stand.
fn put_git(out: &mut Vec<Span>, status: &Option<GitStatus>, now: u64)
    ensures
        spans(final(out)@) == spans(old(out)@) + git_spans(
            git_status_opt(*status),
            now,
        ),
{
    let ghost before = spans(out@);
    match status {
        Some(s) => {
            put(out, "  ", Tone::Plain, false);
            put(out, s.branch.as_str(), Tone::Dim, false);
            put_count(out, " | ", s.ahead, " ahead", Tone::Notice);
            put_count(out, " | ", s.behind, " behind", Tone::Warning);
            if let Some(t) = s.last_fetch {
                if t <= now {
                    let label = ago_label(now - t);
                    let text = cat(" | synced ", label.as_str());
                    put(out, text.as_str(), Tone::Dim, false);
                }
            }
        },
        None => {},
    }
    assert(spans(out@) =~= before + git_spans(git_status_opt(*status), now));
}

/// Puts the filter behind the others.
fn put_filter(out: &mut Vec<Span>, app: &App)
    ensures
        spans(final(out)@) == spans(old(out)@) + filter_spans(app@),
{
    let ghost before = spans(out@);
    let v: usize = app.visible_packages().len();
    let n: usize = app.packages.len();
    proof {
        assert(n == app@.packages.len());
    }
    let visible = number(v as u64);
    let all = number(n as u64);
    let front = cat3("  ", visible.as_str(), "/");
    let count = cat(front.as_str(), all.as_str());
    if app.filter_active {
        put(out, "  / ", Tone::Accent, true);
        put(out, app.filter.as_str(), Tone::Text, false);
        put(out, "\u{2588}", Tone::Text, false);
        put(out, count.as_str(), Tone::Dim, false);
    } else if chars_of(app.filter.as_str()).len() > 0 {
        put(out, "  filter: ", Tone::Dim, false);
        put(out, app.filter.as_str(), Tone::Text, false);
        put(out, count.as_str(), Tone::Dim, false);
    }
    assert(spans(out@) =~= before + filter_spans(app@));
}

/// The header.
pub fn draw_header(app: &App, now: u64) -> (r: Vec<Span>)
    ensures
        spans(r@) == header(app@, now),
{
    let mut out = no_spans();
    put(&mut out, " VPM ", Tone::Title, true);
    put(&mut out, " Void Package Manager", Tone::Text, false);
    assert(spans(out@) =~= seq![
        bold(" VPM "@, Tone::Title),
        run(" Void Package Manager"@, Tone::Text),
    ]);
    put_git(&mut out, &app.git_status, now);
    put(&mut out, "  ", Tone::Plain, false);
    let version = app.gcc_info.version_string();
    let gcc = cat("GCC ", version.as_str());
    put(&mut out, gcc.as_str(), Tone::Dim, false);
    put_filter(&mut out, app);
    assert(spans(out@) =~= header(app@, now));
    out
}

// ---------------------------------------------------------------------------------------------
// The list
// ---------------------------------------------------------------------------------------------

/// The headings of the list.
pub fn list_headings() -> (r: Vec<String>)
    ensures
        texts(r@) == seq!["Package"@, "Template"@, "Installed"@, "Latest"@, "Status"@],
{
    let mut v: Vec<String> = Vec::new();
    v.push("Package".to_owned());
    v.push("Template".to_owned());
    v.push("Installed".to_owned());
    v.push("Latest".to_owned());
    v.push("Status".to_owned());
    assert(texts(v@) =~= seq!["Package"@, "Template"@, "Installed"@, "Latest"@, "Status"@]);
    v
}

/// The installed "version_revision" of a package.
pub open spec fn installed_text(installed: Option<Seq<char>>) -> Seq<char> {
    match installed {
        Some(v) => match rfind_char(v, '-') {
            Some(i) => v.skip(i + 1),
            None => v,
        },
        None => "-"@,
    }
}

/// The required version of the compiler, as far as one is known.
pub open spec fn requirement_text(gcc: GccInfo, name: Seq<char>) -> Seq<char> {
    match gcc.shown_requirement(name) {
        Some(v) => v,
        None => Seq::empty(),
    }
}

/// The status of a package with its badges: for shared libraries that are not installed as they
/// are registered, and for a compiler that is too old.
pub open spec fn status_text(s: StateModel, gcc: GccInfo) -> Seq<char> {
    status_label(s.status) + (if s.soname_mismatches.len() > 0 {
        " !so"@
    } else {
        Seq::empty()
    }) + (if gcc.blocks(s.package.name) {
        " GCC "@ + requirement_text(gcc, s.package.name) + "+"@
    } else {
        Seq::empty()
    })
}

/// The tone of the status of a package: where nothing is wrong but a badge, that of the badge.
pub open spec fn row_tone(s: StateModel, gcc: GccInfo) -> Tone {
    if (s.soname_mismatches.len() > 0 || gcc.blocks(s.package.name)) && s.status
        == Status::UpToDate {
        Tone::Notice
    } else {
        status_tone(s.status)
    }
}

/// A row of the list.
pub open spec fn row(s: StateModel, gcc: GccInfo) -> Seq<SpanModel> {
    seq![
        run(s.package.name, Tone::Text),
        run(s.package.version, Tone::Text),
        run(installed_text(s.installed), Tone::Text),
        run(
            match s.latest {
                Some(v) => v,
                None => "-"@,
            },
            Tone::Text,
        ),
        bold(status_text(s, gcc), row_tone(s, gcc)),
    ]
}

/// The installed "version_revision" of a package.
fn installed_label(installed: &Option<String>) -> (r: String)
    ensures
        r@ == installed_text(text_opt(*installed)),
{
    match installed {
        Some(v) => installed_to_ver_rev(v.as_str()),
        None => "-".to_owned(),
    }
}

/// The required version of the compiler, as far as one is known.
fn requirement_label(gcc: &GccInfo, name: &str) -> (r: String)
    ensures
        r@ == requirement_text(*gcc, name@),
{
    match gcc.required_version(name) {
        Some(v) => v,
        None => {
            let e = String::new();
            assert(e@ =~= Seq::empty());
            e
        },
    }
}

/// The status of a package with its badges.
fn status_with_badges(s: &PackageState, gcc: &GccInfo) -> (r: String)
    ensures
        r@ == status_text(s@, *gcc),
{
    let mut out: String = s.status.label().to_owned();
    proof {
        assert(s@.soname_mismatches.len() == s.soname_mismatches@.len());
    }
    if s.soname_mismatches.len() > 0 {
        out = cat(out.as_str(), " !so");
    }
    if gcc.is_blocked(s.package.name.as_str()) {
        let req = requirement_label(gcc, s.package.name.as_str());
        let badge = cat3(" GCC ", req.as_str(), "+");
        out = cat(out.as_str(), badge.as_str());
    }
    assert(out@ =~= status_text(s@, *gcc));
    out
}

/// A row of the list.
pub fn package_row(s: &PackageState, gcc: &GccInfo) -> (r: Vec<Span>)
    ensures
        spans(r@) == row(s@, *gcc),
{
    let mut out = no_spans();
    put(&mut out, s.package.name.as_str(), Tone::Text, false);
    put(&mut out, s.package.version.as_str(), Tone::Text, false);
    put(&mut out, installed_label(&s.installed).as_str(), Tone::Text, false);
    let latest = match &s.latest {
        Some(v) => v.clone(),
        None => "-".to_owned(),
    };
    put(&mut out, latest.as_str(), Tone::Text, false);
    let text = status_with_badges(s, gcc);
    proof {
        assert(s@.soname_mismatches.len() == s.soname_mismatches@.len());
    }
    let badge = s.soname_mismatches.len() > 0 || gcc.is_blocked(s.package.name.as_str());
    let tone = if badge && s.status == Status::UpToDate {
        Tone::Notice
    } else {
        tone_of(s.status)
    };
    put(&mut out, text.as_str(), tone, true);
    assert(spans(out@) =~= row(s@, *gcc));
    out
}

/// The rows of the visible packages.
pub open spec fn list_rows(m: AppModel) -> Seq<Seq<SpanModel>> {
    Seq::new(m.visible().len(), |k: int| row(m.packages[m.visible()[k]], m.gcc_info))
}

/// The rows of the visible packages.
pub fn draw_package_list(app: &App) -> (r: Vec<Vec<Span>>)
    ensures
        line_spans(r@) == list_rows(app@),
{
    let visible = app.visible_packages();
    let ghost places = app@.visible();
    let ghost goal = list_rows(app@);
    let mut out = no_lines();
    let mut k: usize = 0;
    proof {
        lemma_visible_in(state_names(app@.packages), app@.filter);
        assert(visible@.len() == places.len());
        assert(line_spans(out@) =~= goal.take(0));
    }
    while k < visible.len()
        invariant
            k <= visible@.len(),
            visible@.len() == places.len(),
            places == app@.visible(),
            as_ints(visible@) == places,
            forall|j: int| 0 <= j < places.len() ==> 0 <= #[trigger] places[j] < app.packages@.len(),
            goal.len() == places.len(),
            forall|j: int|
                0 <= j < goal.len() ==> #[trigger] goal[j] == row(
                    app@.packages[places[j]],
                    app@.gcc_info,
                ),
            line_spans(out@) == goal.take(k as int),
        decreases visible@.len() - k,
    {
        proof {
            assert(as_ints(visible@)[k as int] == visible@[k as int]);
        }
        let line = package_row(&app.packages[visible[k]], &app.gcc_info);
        put_line(&mut out, line);
        k += 1;
        assert(goal.take(k as int) =~= goal.take(k - 1).push(goal[k - 1]));
    }
    assert(goal.take(k as int) =~= goal);
    out
}

// ---------------------------------------------------------------------------------------------
// The tree
// ---------------------------------------------------------------------------------------------

/// The lines for the first `k` of some packages in a tree, and for what is under them.
pub open spec fn tree_rows(nodes: Seq<TreeModel>, prefix: Seq<char>, k: nat) -> Seq<Seq<SpanModel>>
    decreases nodes, k,
{
    if k == 0 || k > nodes.len() {
        Seq::empty()
    } else {
        let node = nodes[k - 1];
        let last = k == nodes.len();
        let connector = if last {
            "\u{2514}\u{2500}\u{2500} "@
        } else {
            "\u{251c}\u{2500}\u{2500} "@
        };
        let below = prefix + if last {
            "    "@
        } else {
            "\u{2502}   "@
        };
        tree_rows(nodes, prefix, (k - 1) as nat).push(
            seq![run(prefix + connector, Tone::Dim), run(node.name, Tone::Text)],
        ) + tree_rows(node.children, below, node.children.len())
    }
}

/// The tree of the packages that depend on a package.
pub open spec fn tree_lines(s: StateModel, tree: Seq<TreeModel>) -> Seq<Seq<SpanModel>> {
    seq![
        seq![
            bold(s.package.name, Tone::Accent),
            run(" (v"@ + s.package.version + ")"@, Tone::Dim),
        ],
    ] + tree_rows(tree, Seq::empty(), tree.len()) + if tree.len() == 0 {
        seq![seq![run("  (no reverse dependencies)"@, Tone::Dim)]]
    } else {
        Seq::empty()
    }
}

/// What a forest holds, tree by tree.
proof fn lemma_forest_model(s: Seq<TreeNode>)
    ensures
        forest_model(s).len() == s.len(),
        forall|i: int| 0 <= i < s.len() ==> #[trigger] forest_model(s)[i] == tree_model(s[i]),
    decreases s.len(),
{
    if s.len() > 0 {
        lemma_forest_model(s.drop_last());
        assert forall|i: int| 0 <= i < s.len() implies #[trigger] forest_model(s)[i] == tree_model(
            s[i],
        ) by {
            if i < s.len() - 1 {
                assert(s.drop_last()[i] == s[i]);
            }
        }
    }
}

/// Puts behind the others the lines for some packages in a tree, and for what is under them.
fn render_tree_lines(nodes: &Vec<TreeNode>, prefix: &str, out: &mut Vec<Vec<Span>>)
    ensures
        line_spans(final(out)@) == line_spans(old(out)@) + tree_rows(
            forest_model(nodes@),
            prefix@,
            nodes@.len(),
        ),
    decreases nodes,
{
    let ghost start = line_spans(out@);
    let ghost model = forest_model(nodes@);
    let mut i: usize = 0;
    proof {
        lemma_forest_model(nodes@);
        assert(line_spans(out@) =~= start + tree_rows(model, prefix@, 0));
    }
    while i < nodes.len()
        invariant
            i <= nodes@.len(),
            model == forest_model(nodes@),
            model.len() == nodes@.len(),
            forall|j: int| 0 <= j < nodes@.len() ==> #[trigger] model[j] == tree_model(nodes@[j]),
            line_spans(out@) == start + tree_rows(model, prefix@, i as nat),
        decreases nodes@.len() - i,
    {
        let last = i + 1 == nodes.len();
        let node = &nodes[i];
        let head = if last {
            cat(prefix, "\u{2514}\u{2500}\u{2500} ")
        } else {
            cat(prefix, "\u{251c}\u{2500}\u{2500} ")
        };
        let line = line2(head.as_str(), node.name.as_str(), Tone::Text);
        let ghost before = line_spans(out@);
        put_line(out, line);
        let below = if last {
            cat(prefix, "    ")
        } else {
            cat(prefix, "\u{2502}   ")
        };
        proof {
            lemma_forest_model(node.children@);
            assert(model[i as int] == tree_model(*node));
        }
        render_tree_lines(&node.children, below.as_str(), out);
        proof {
            let k = (i + 1) as nat;
            let here = seq![run(head@, Tone::Dim), run(node.name@, Tone::Text)];
            let under = tree_rows(
                forest_model(node.children@),
                below@,
                forest_model(node.children@).len(),
            );
            assert(spans(line@) =~= here);
            assert(tree_rows(model, prefix@, k) == tree_rows(model, prefix@, i as nat).push(here)
                + under);
            assert(line_spans(out@) =~= start + tree_rows(model, prefix@, k));
        }
        i += 1;
    }
}

/// The tree of the packages that depend on the selected package.
pub fn draw_tree_view(s: &PackageState, tree: &Vec<TreeNode>) -> (r: Vec<Vec<Span>>)
    ensures
        line_spans(r@) == tree_lines(s@, forest_model(tree@)),
{
    let mut out = no_lines();
    let mut first = no_spans();
    put(&mut first, s.package.name.as_str(), Tone::Accent, true);
    let version = cat3(" (v", s.package.version.as_str(), ")");
    put(&mut first, version.as_str(), Tone::Dim, false);
    let ghost head = seq![
        bold(s@.package.name, Tone::Accent),
        run(" (v"@ + s@.package.version + ")"@, Tone::Dim),
    ];
    assert(spans(first@) =~= head);
    put_line(&mut out, first);
    assert(line_spans(out@) =~= seq![head]);
    let empty = String::new();
    assert(empty@ =~= Seq::empty());
    render_tree_lines(tree, empty.as_str(), &mut out);
    proof {
        lemma_forest_model(tree@);
    }
    if tree.len() == 0 {
        let line = line1("  (no reverse dependencies)", Tone::Dim, false);
        put_line(&mut out, line);
    }
    assert(line_spans(out@) =~= tree_lines(s@, forest_model(tree@)));
    out
}

// ---------------------------------------------------------------------------------------------
// The panel for a package
// ---------------------------------------------------------------------------------------------

/// Names, or that there are none.
pub open spec fn names_text(names: Seq<Seq<char>>) -> Seq<char> {
    let list = join(names, ", "@);
    if list.len() > 0 {
        list
    } else {
        "(none)"@
    }
}

/// What is installed in place of the library `soname`, where it is not installed.
pub open spec fn mismatch_of(ms: Seq<MismatchModel>, soname: Seq<char>) -> Option<Seq<char>>
    decreases ms.len(),
{
    if ms.len() == 0 {
        None
    } else if ms[0].registered == soname {
        Some(ms[0].installed)
    } else {
        mismatch_of(ms.drop_first(), soname)
    }
}

/// A shared library of a package.
pub open spec fn library_span(e: ShlibModel, ms: Seq<MismatchModel>) -> SpanModel {
    match mismatch_of(ms, e.soname) {
        Some(installed) => run(
            e.soname + " (installed: "@ + installed + " \u{2014} MISMATCH) "@,
            Tone::Notice,
        ),
        None => run(e.soname + " (OK) "@, Tone::Good),
    }
}

/// The shared libraries of a package, where it has any.
pub open spec fn library_lines(s: StateModel) -> Seq<Seq<SpanModel>> {
    if s.shlibs.len() > 0 {
        seq![
            seq![run("  Shared libs: "@, Tone::Dim)] + Seq::new(
                s.shlibs.len(),
                |i: int| library_span(s.shlibs[i], s.soname_mismatches),
            ),
        ]
    } else {
        Seq::empty()
    }
}

/// The log of the build of a package, where it has one.
pub open spec fn log_lines(s: StateModel) -> Seq<Seq<SpanModel>> {
    match s.build_log {
        Some(path) => seq![
            seq![
                run("  Build log: "@, Tone::Dim),
                run(
                    path,
                    if s.status == Status::BuildFailed {
                        Tone::Bad
                    } else {
                        Tone::Text
                    },
                ),
            ],
        ],
        None => Seq::empty(),
    }
}

/// That the compiler is too old for a package, where it is.
pub open spec fn compiler_lines(s: StateModel, gcc: GccInfo) -> Seq<Seq<SpanModel>> {
    if gcc.blocks(s.package.name) {
        seq![
            seq![
                run("  GCC: "@, Tone::Dim),
                run(
                    "Requires "@ + requirement_text(gcc, s.package.name) + "+, system has "@
                        + gcc.shown_version(),
                    Tone::Bad,
                ),
            ],
        ]
    } else {
        Seq::empty()
    }
}

/// The panel for a package.
pub open spec fn detail(m: AppModel, s: StateModel) -> Seq<Seq<SpanModel>> {
    let name = s.package.name;
    seq![
        seq![run("  "@, Tone::Plain), run(s.package.short_desc, Tone::Text)],
        seq![run("  Homepage: "@, Tone::Dim), run(s.package.homepage, Tone::Accent)],
        seq![run("  Status: "@, Tone::Dim), run(status_hint(s.status), status_tone(s.status))],
        seq![
            run("  Depends on: "@, Tone::Dim),
            run(names_text(m.dep_graph.dependencies(name)), Tone::Text),
        ],
        seq![
            run("  Depended by: "@, Tone::Dim),
            run(names_text(m.dep_graph.dependents(name)), Tone::Text),
        ],
    ] + library_lines(s) + log_lines(s) + compiler_lines(s, m.gcc_info)
}

/// Names, or that there are none.
fn names_label(names: &Vec<String>) -> (r: String)
    ensures
        r@ == names_text(texts(names@)),
{
    let list = joined(names, ", ");
    if chars_of(list.as_str()).len() > 0 {
        list
    } else {
        "(none)".to_owned()
    }
}

/// The run for the shared library at `k` of a package.
fn put_library(out: &mut Vec<Span>, s: &PackageState, k: usize)
    requires
        k < s.shlibs@.len(),
    ensures
        spans(final(out)@) == spans(old(out)@).push(
            library_span(s@.shlibs[k as int], s@.soname_mismatches),
        ),
{
    let soname = s.shlibs[k].soname.as_str();
    let ghost ms = s@.soname_mismatches;
    let mut i: usize = 0;
    assert(ms.skip(0) =~= ms);
    while i < s.soname_mismatches.len()
        invariant
            *out == *old(out),
            k < s.shlibs@.len(),
            soname@ == s.shlibs@[k as int].soname@,
            i <= s.soname_mismatches@.len(),
            ms == s@.soname_mismatches,
            mismatch_of(ms, soname@) == mismatch_of(ms.skip(i as int), soname@),
        decreases s.soname_mismatches@.len() - i,
    {
        proof {
            assert(ms.skip(i as int)[0] == s.soname_mismatches@[i as int]@);
            assert(ms.skip(i as int).drop_first() =~= ms.skip(i + 1));
        }
        if same_text(s.soname_mismatches[i].registered.as_str(), soname) {
            let front = cat3(
                soname,
                " (installed: ",
                s.soname_mismatches[i].installed.as_str(),
            );
            let text = cat(front.as_str(), " \u{2014} MISMATCH) ");
            put(out, text.as_str(), Tone::Notice, false);
            return ;
        }
        i += 1;
    }
    let text = cat(soname, " (OK) ");
    put(out, text.as_str(), Tone::Good, false);
}

/// Puts the shared libraries of a package behind the others.
fn put_libraries(out: &mut Vec<Vec<Span>>, s: &PackageState)
    ensures
        line_spans(final(out)@) == line_spans(old(out)@) + library_lines(s@),
{
    let ghost before = line_spans(out@);
    proof {
        assert(s@.shlibs.len() == s.shlibs@.len());
    }
    if s.shlibs.len() > 0 {
        let ghost all = Seq::new(
            s@.shlibs.len(),
            |i: int| library_span(s@.shlibs[i], s@.soname_mismatches),
        );
        let mut line = no_spans();
        put(&mut line, "  Shared libs: ", Tone::Dim, false);
        let ghost label = seq![run("  Shared libs: "@, Tone::Dim)];
        let mut k: usize = 0;
        assert(spans(line@) =~= label + all.take(0));
        while k < s.shlibs.len()
            invariant
                k <= s.shlibs@.len(),
                all.len() == s.shlibs@.len(),
                forall|j: int|
                    0 <= j < all.len() ==> #[trigger] all[j] == library_span(
                        s@.shlibs[j],
                        s@.soname_mismatches,
                    ),
                spans(line@) == label + all.take(k as int),
            decreases s.shlibs@.len() - k,
        {
            put_library(&mut line, s, k);
            k += 1;
            assert(label + all.take(k as int) =~= (label + all.take(k - 1)).push(all[k - 1]));
        }
        assert(all.take(k as int) =~= all);
        put_line(out, line);
    }
    assert(line_spans(out@) =~= before + library_lines(s@));
}

/// Puts the log of the build of a package behind the others.
fn put_log_path(out: &mut Vec<Vec<Span>>, s: &PackageState)
    ensures
        line_spans(final(out)@) == line_spans(old(out)@) + log_lines(s@),
{
    let ghost before = line_spans(out@);
    if let Some(path) = &s.build_log {
        let tone = if s.status == Status::BuildFailed {
            Tone::Bad
        } else {
            Tone::Text
        };
        let line = line2("  Build log: ", path.as_str(), tone);
        put_line(out, line);
    }
    assert(line_spans(out@) =~= before + log_lines(s@));
}

/// Puts behind the others that the compiler is too old for a package.
fn put_compiler(out: &mut Vec<Vec<Span>>, s: &PackageState, gcc: &GccInfo)
    ensures
        line_spans(final(out)@) == line_spans(old(out)@) + compiler_lines(s@, *gcc),
{
    let ghost before = line_spans(out@);
    let name = s.package.name.as_str();
    if gcc.is_blocked(name) {
        let req = requirement_label(gcc, name);
        let have = gcc.version_string();
        let front = cat3("Requires ", req.as_str(), "+, system has ");
        let text = cat(front.as_str(), have.as_str());
        let line = line2("  GCC: ", text.as_str(), Tone::Bad);
        put_line(out, line);
    }
    assert(line_spans(out@) =~= before + compiler_lines(s@, *gcc));
}

/// The panel for a package.
pub fn draw_detail(app: &App, s: &PackageState) -> (r: Vec<Vec<Span>>)
    requires
        app.dep_graph.wf(),
    ensures
        line_spans(r@) == detail(app@, s@),
{
    let mut out = no_lines();
    let mut first = no_spans();
    put(&mut first, "  ", Tone::Plain, false);
    put(&mut first, s.package.short_desc.as_str(), Tone::Text, false);
    assert(spans(first@) =~= seq![
        run("  "@, Tone::Plain),
        run(s@.package.short_desc, Tone::Text),
    ]);
    put_line(&mut out, first);
    put_line(&mut out, line2("  Homepage: ", s.package.homepage.as_str(), Tone::Accent));
    put_line(&mut out, line2("  Status: ", s.action_hint(), tone_of(s.status)));
    let name = s.package.name.as_str();
    let needs = names_label(&app.dep_graph.names_of_dependencies(name));
    put_line(&mut out, line2("  Depends on: ", needs.as_str(), Tone::Text));
    let needed = names_label(&app.dep_graph.names_of_dependents(name));
    put_line(&mut out, line2("  Depended by: ", needed.as_str(), Tone::Text));
    put_libraries(&mut out, s);
    put_log_path(&mut out, s);
    put_compiler(&mut out, s, &app.gcc_info);
    assert(line_spans(out@) =~= detail(app@, s@));
    out
}

// ---------------------------------------------------------------------------------------------
// Logs
// ---------------------------------------------------------------------------------------------

/// The part of some lines that fits into `available` rows, `scroll` rows above their end.
pub open spec fn window(all: Seq<Seq<char>>, available: nat, scroll: nat) -> Seq<Seq<char>> {
    let end = if all.len() > scroll {
        all.len() - scroll
    } else {
        0
    };
    let start = if end > available {
        end - available
    } else {
        0
    };
    all.subrange(start, end)
}

/// Lines of output: those of errors are toned as such.
pub open spec fn output_lines(all: Seq<Seq<char>>) -> Seq<Seq<SpanModel>> {
    Seq::new(
        all.len(),
        |i: int|
            seq![
                run(
                    "  "@ + all[i],
                    if starts_with(all[i], "ERR:"@) {
                        Tone::Bad
                    } else {
                        Tone::Text
                    },
                ),
            ],
    )
}

/// Puts behind the others the part of some lines that fits into `available` rows.
fn put_window(out: &mut Vec<Vec<Span>>, all: &Vec<String>, available: usize, scroll: usize)
    ensures
        line_spans(final(out)@) == line_spans(old(out)@) + output_lines(
            window(texts(all@), available as nat, scroll as nat),
        ),
{
    let ghost before = line_spans(out@);
    let ghost ts = texts(all@);
    let n: usize = all.len();
    let end: usize = if n > scroll {
        n - scroll
    } else {
        0
    };
    let start: usize = if end > available {
        end - available
    } else {
        0
    };
    let ghost part = ts.subrange(start as int, end as int);
    let ghost goal = output_lines(part);
    let mut i: usize = start;
    assert(line_spans(out@) =~= before + goal.take(0));
    while i < end
        invariant
            start <= i <= end <= n == all@.len(),
            ts == texts(all@),
            part == ts.subrange(start as int, end as int),
            goal == output_lines(part),
            line_spans(out@) == before + goal.take(i - start),
        decreases end - i,
    {
        let text = all[i].as_str();
        let c = chars_of(text);
        let tone = if begins(c.as_slice(), "ERR:") {
            Tone::Bad
        } else {
            Tone::Text
        };
        let shown = cat("  ", text);
        let line = line1(shown.as_str(), tone, false);
        put_line(out, line);
        i += 1;
        proof {
            let k = i - start;
            assert(part[k - 1] == all@[i - 1]@);
            assert(spans(line@) =~= goal[k - 1]);
            assert(before + goal.take(k) =~= (before + goal.take(k - 1)).push(goal[k - 1]));
        }
    }
    assert(goal.take(end - start) =~= goal);
}

/// The badge and the tone of a job.
pub open spec fn job_badge(s: BuildJobStatus) -> (Seq<char>, Tone) {
    match s {
        BuildJobStatus::Success => ("[OK] "@, Tone::Good),
        BuildJobStatus::Building => ("[BUILD] "@, Tone::Accent),
        BuildJobStatus::Failed => ("[FAIL] "@, Tone::Bad),
        BuildJobStatus::Pending => ("[WAIT] "@, Tone::Dim),
    }
}

/// The jobs of a queue, each with its badge.
pub open spec fn job_spans(jobs: Seq<JobModel>) -> Seq<SpanModel>
    decreases jobs.len(),
{
    if jobs.len() == 0 {
        seq![run("  "@, Tone::Plain)]
    } else {
        let job = jobs.last();
        job_spans(jobs.drop_last()) + seq![
            bold(job_badge(job.status).0, job_badge(job.status).1),
            run(job.name + "  "@, Tone::Text),
        ]
    }
}

/// The panel for builds: the jobs, and the part of the output that fits below them.
pub open spec fn build_log(m: AppModel, available: nat) -> Seq<Seq<SpanModel>> {
    seq![job_spans(m.build_queue.jobs)] + output_lines(
        window(m.build_queue.current_output, available, m.build_log_scroll as nat),
    )
}

/// The badge and the tone of a job.
fn badge_of(s: BuildJobStatus) -> (r: (&'static str, Tone))
    ensures
        r.0@ == job_badge(s).0,
        r.1 == job_badge(s).1,
{
    match s {
        BuildJobStatus::Success => ("[OK] ", Tone::Good),
        BuildJobStatus::Building => ("[BUILD] ", Tone::Accent),
        BuildJobStatus::Failed => ("[FAIL] ", Tone::Bad),
        BuildJobStatus::Pending => ("[WAIT] ", Tone::Dim),
    }
}

/// The panel for builds, where `available` rows are below the jobs.
pub fn draw_build_log(app: &App, available: usize) -> (r: Vec<Vec<Span>>)
    ensures
        line_spans(r@) == build_log(app@, available as nat),
{
    let ghost jobs = app@.build_queue.jobs;
    let mut line = no_spans();
    put(&mut line, "  ", Tone::Plain, false);
    let mut i: usize = 0;
    assert(spans(line@) =~= job_spans(jobs.take(0)));
    while i < app.build_queue.jobs.len()
        invariant
            i <= app.build_queue.jobs@.len(),
            jobs == app@.build_queue.jobs,
            spans(line@) == job_spans(jobs.take(i as int)),
        decreases app.build_queue.jobs@.len() - i,
    {
        proof {
            assert(jobs.take(i + 1).drop_last() =~= jobs.take(i as int));
            assert(jobs.take(i + 1).last() == app.build_queue.jobs@[i as int]@);
        }
        let ghost before = spans(line@);
        let job = &app.build_queue.jobs[i];
        let (badge, tone) = badge_of(job.status);
        put(&mut line, badge, tone, true);
        let name = cat(job.name.as_str(), "  ");
        put(&mut line, name.as_str(), Tone::Text, false);
        assert(spans(line@) =~= job_spans(jobs.take(i + 1)));
        i += 1;
    }
    assert(jobs.take(i as int) =~= jobs);
    let mut out = no_lines();
    put_line(&mut out, line);
    put_window(&mut out, &app.build_queue.current_output, available, app.build_log_scroll);
    assert(line_spans(out@) =~= build_log(app@, available as nat));
    out
}

/// The panel for bumps: the part of the log that fits into it.
pub fn draw_bump_log(log: &Vec<String>, available: usize, scroll: usize) -> (r: Vec<Vec<Span>>)
    ensures
        line_spans(r@) == output_lines(window(texts(log@), available as nat, scroll as nat)),
{
    let mut out = no_lines();
    put_window(&mut out, log, available, scroll);
    assert(line_spans(out@) =~= output_lines(
        window(texts(log@), available as nat, scroll as nat),
    ));
    out
}

// ---------------------------------------------------------------------------------------------
// The panel for operations on the branches
// ---------------------------------------------------------------------------------------------

/// Where the branches stand.
pub open spec fn git_status_line(status: Option<GitStatusModel>) -> Seq<SpanModel> {
    match status {
        Some(s) => seq![run("  "@ + s.branch, Tone::Dim)] + count_span(
            " | "@,
            s.ahead,
            " ahead of master"@,
            Tone::Notice,
        ) + count_span(" | "@, s.behind, " behind master"@, Tone::Warning),
        None => seq![run("  (git status unavailable)"@, Tone::Dim)],
    }
}

/// An operation in the menu.
pub open spec fn menu_line(key: Seq<char>, text: Seq<char>) -> Seq<SpanModel> {
    seq![bold(key, Tone::Accent), run(text, Tone::Text)]
}

/// The menu on one line.
pub open spec fn short_menu() -> Seq<SpanModel> {
    seq![
        bold("  1"@, Tone::Accent),
        run("  Sync master   "@, Tone::Text),
        bold("2"@, Tone::Accent),
        run("  Rebase custom   "@, Tone::Text),
        bold("3"@, Tone::Accent),
        run("  Push custom   "@, Tone::Text),
        bold("Esc"@, Tone::Accent),
        run("  Close"@, Tone::Text),
    ]
}

/// The panel for operations on the branches: the output of the last one, with the menu below it
/// where that is over and there is room, or the menu.
pub open spec fn git_panel(m: AppModel, available: nat) -> Seq<Seq<SpanModel>> {
    if m.git_op_active || m.git_output.len() > 0 {
        let shown = output_lines(window(m.git_output, available, 0));
        if !m.git_op_active && shown.len() + 2 <= available {
            shown + seq![Seq::empty(), short_menu()]
        } else {
            shown
        }
    } else {
        seq![
            git_status_line(m.git_status),
            Seq::empty(),
            menu_line("  1"@, "  Sync master (fetch upstream)"@),
            menu_line("  2"@, "  Rebase custom onto master"@),
            menu_line("  3"@, "  Push custom (--force-with-lease)"@),
            Seq::empty(),
            seq![run("  Esc  Close"@, Tone::Dim)],
        ]
    }
}

/// Where the branches stand.
fn draw_git_status(status: &Option<GitStatus>) -> (r: Vec<Span>)
    ensures
        spans(r@) == git_status_line(git_status_opt(*status)),
{
    let mut out = no_spans();
    match status {
        Some(s) => {
            let branch = cat("  ", s.branch.as_str());
            put(&mut out, branch.as_str(), Tone::Dim, false);
            put_count(&mut out, " | ", s.ahead, " ahead of master", Tone::Notice);
            put_count(&mut out, " | ", s.behind, " behind master", Tone::Warning);
        },
        None => {
            put(&mut out, "  (git status unavailable)", Tone::Dim, false);
        },
    }
    assert(spans(out@) =~= git_status_line(git_status_opt(*status)));
    out
}

/// An operation in the menu.
fn draw_menu_line(key: &str, text: &str) -> (r: Vec<Span>)
    ensures
        spans(r@) == menu_line(key@, text@),
{
    let mut out = no_spans();
    put(&mut out, key, Tone::Accent, true);
    put(&mut out, text, Tone::Text, false);
    assert(spans(out@) =~= menu_line(key@, text@));
    out
}

/// The menu on one line.
fn draw_short_menu() -> (r: Vec<Span>)
    ensures
        spans(r@) == short_menu(),
{
    let mut out = no_spans();
    put(&mut out, "  1", Tone::Accent, true);
    put(&mut out, "  Sync master   ", Tone::Text, false);
    put(&mut out, "2", Tone::Accent, true);
    put(&mut out, "  Rebase custom   ", Tone::Text, false);
    put(&mut out, "3", Tone::Accent, true);
    put(&mut out, "  Push custom   ", Tone::Text, false);
    put(&mut out, "Esc", Tone::Accent, true);
    put(&mut out, "  Close", Tone::Text, false);
    assert(spans(out@) =~= short_menu());
    out
}

/// The panel for operations on the branches, with `available` rows.
pub fn draw_git_panel(app: &App, available: usize) -> (r: Vec<Vec<Span>>)
    ensures
        line_spans(r@) == git_panel(app@, available as nat),
{
    let mut out = no_lines();
    proof {
        assert(app@.git_output.len() == app.git_output@.len());
    }
    if app.git_op_active || app.git_output.len() > 0 {
        put_window(&mut out, &app.git_output, available, 0);
        let ghost shown = output_lines(window(app@.git_output, available as nat, 0));
        assert(line_spans(out@) =~= shown);
        let used: usize = out.len();
        assert(used == line_spans(out@).len());
        if !app.git_op_active && available >= 2 && used <= available - 2 {
            put_line(&mut out, no_spans());
            put_line(&mut out, draw_short_menu());
        }
        assert(line_spans(out@) =~= git_panel(app@, available as nat));
    } else {
        put_line(&mut out, draw_git_status(&app.git_status));
        put_line(&mut out, no_spans());
        put_line(&mut out, draw_menu_line("  1", "  Sync master (fetch upstream)"));
        put_line(&mut out, draw_menu_line("  2", "  Rebase custom onto master"));
        put_line(&mut out, draw_menu_line("  3", "  Push custom (--force-with-lease)"));
        put_line(&mut out, no_spans());
        put_line(&mut out, line1("  Esc  Close", Tone::Dim, false));
        assert(line_spans(out@) =~= git_panel(app@, available as nat));
    }
    out
}

// ---------------------------------------------------------------------------------------------
// The status bar
// ---------------------------------------------------------------------------------------------

/// How many packages have a status, where there are any.
pub open spec fn status_count(n: nat, what: Seq<char>, tone: Tone) -> Seq<SpanModel> {
    if n > 0 {
        seq![run(decimal(n) + what, tone), run(" \u{2502} "@, Tone::Dim)]
    } else {
        Seq::empty()
    }
}

/// How many packages have each status.
pub open spec fn status_counts_bar(ps: Seq<StateModel>) -> Seq<SpanModel> {
    let all = status_count(count_status(ps, Status::UpToDate), " ok"@, Tone::Good) + status_count(
        count_status(ps, Status::UpstreamAhead),
        " updates"@,
        Tone::Notice,
    ) + status_count(count_status(ps, Status::BuildOutdated), " need build"@, Tone::Warning)
        + status_count(count_status(ps, Status::ReadyToInstall), " ready"@, Tone::Notice)
        + status_count(count_status(ps, Status::BuildFailed), " failed"@, Tone::Bad);
    seq![run(" "@, Tone::Plain)] + if all.len() > 0 {
        all.drop_last()
    } else {
        all
    }
}

/// What is said, where something is.
pub open spec fn message_spans(msg: Option<Seq<char>>) -> Seq<SpanModel> {
    match msg {
        Some(text) => seq![run("  "@, Tone::Plain), run(text, Tone::Dim)],
        None => Seq::empty(),
    }
}

/// How many changes of the register of shared libraries can be made, where there are any.
pub open spec fn register_spans(n: nat) -> Seq<SpanModel> {
    if n > 0 {
        seq![
            run("  "@, Tone::Plain),
            run(decimal(n) + " shlib updates  s:apply"@, Tone::Notice),
        ]
    } else {
        Seq::empty()
    }
}

/// The status bar: the counts, what is said, the changes that can be made, and the keys.
pub open spec fn status_bar(m: AppModel) -> Seq<SpanModel> {
    status_counts_bar(m.packages) + message_spans(m.status_msg) + register_spans(
        m.shlib_updates.len(),
    ) + seq![
        run("  "@, Tone::Plain),
        run(
            "j/k:nav  /:search  Enter:detail  Tab:tree  u/U:upstream  t/T:bump  b/B:build  g:git  ?:help  q:quit"@,
            Tone::Dim,
        ),
    ]
}

/// Puts behind the others how many packages have a status.
fn put_status_count(out: &mut Vec<Span>, n: usize, what: &str, tone: Tone)
    ensures
        spans(final(out)@) == spans(old(out)@) + status_count(n as nat, what@, tone),
{
    let ghost before = spans(out@);
    if n > 0 {
        let count = number(n as u64);
        let text = cat(count.as_str(), what);
        put(out, text.as_str(), tone, false);
        put(out, " \u{2502} ", Tone::Dim, false);
    }
    assert(spans(out@) =~= before + status_count(n as nat, what@, tone));
}

/// How many packages have each status.
fn draw_status_counts(app: &App) -> (r: Vec<Span>)
    ensures
        spans(r@) == status_counts_bar(app@.packages),
{
    let counts = app.status_counts();
    let mut out = no_spans();
    put(&mut out, " ", Tone::Plain, false);
    let ghost first = seq![run(" "@, Tone::Plain)];
    assert(spans(out@) =~= first);
    put_status_count(&mut out, counts.up_to_date, " ok", Tone::Good);
    put_status_count(&mut out, counts.upstream_ahead, " updates", Tone::Notice);
    put_status_count(&mut out, counts.build_outdated, " need build", Tone::Warning);
    put_status_count(&mut out, counts.ready_to_install, " ready", Tone::Notice);
    put_status_count(&mut out, counts.build_failed, " failed", Tone::Bad);
    let ghost before = out@;
    assert(spans(out@).len() == out@.len());
    if out.len() > 1 {
        let _ = out.pop();
        assert(spans(out@) =~= spans(before).drop_last());
    }
    assert(spans(out@) =~= status_counts_bar(app@.packages));
    out
}

/// The status bar.
pub fn draw_status_bar(app: &App) -> (r: Vec<Span>)
    ensures
        spans(r@) == status_bar(app@),
{
    let mut out = draw_status_counts(app);
    if let Some(msg) = &app.status_msg {
        put(&mut out, "  ", Tone::Plain, false);
        put(&mut out, msg.as_str(), Tone::Dim, false);
    }
    assert(spans(out@) =~= status_counts_bar(app@.packages) + message_spans(app@.status_msg));
    proof {
        assert(app@.shlib_updates.len() == app.shlib_updates@.len());
    }
    let n: usize = app.shlib_updates.len();
    if n > 0 {
        let count = number(n as u64);
        let text = cat(count.as_str(), " shlib updates  s:apply");
        put(&mut out, "  ", Tone::Plain, false);
        put(&mut out, text.as_str(), Tone::Notice, false);
    }
    put(&mut out, "  ", Tone::Plain, false);
    put(
        &mut out,
        "j/k:nav  /:search  Enter:detail  Tab:tree  u/U:upstream  t/T:bump  b/B:build  g:git  ?:help  q:quit",
        Tone::Dim,
        false,
    );
    assert(spans(out@) =~= status_bar(app@));
    out
}

// ---------------------------------------------------------------------------------------------
// Help
// ---------------------------------------------------------------------------------------------

/// A key and what it does.
pub open spec fn key_row(key: Seq<char>, does: Seq<char>) -> Seq<SpanModel> {
    seq![bold(key, Tone::Accent), run(does, Tone::Text)]
}

/// The keys and what they do.
pub open spec fn help_rows() -> Seq<Seq<SpanModel>> {
    seq![
        key_row("  j/k    "@, "Navigate"@),
        key_row("  /      "@, "Search/filter"@),
        key_row("  u      "@, "Check upstream versions (selected)"@),
        key_row("  U      "@, "Check upstream versions (all)"@),
        key_row("  t      "@, "Bump template to latest (selected)"@),
        key_row("  T      "@, "Bump all upstream-ahead templates"@),
        key_row("  b      "@, "Build selected"@),
        key_row("  B      "@, "Build all outdated"@),
        key_row("  g      "@, "Git status"@),
        key_row("  s      "@, "Apply SONAME shlib updates"@),
        key_row("  Enter  "@, "Detail panel"@),
        key_row("  ?      "@, "Help"@),
        key_row("  q      "@, "Quit"@),
    ]
}

/// Puts a key and what it does behind the others.
fn put_key(out: &mut Vec<Vec<Span>>, key: &str, does: &str)
    ensures
        line_spans(final(out)@) == line_spans(old(out)@).push(key_row(key@, does@)),
{
    let mut line = no_spans();
    put(&mut line, key, Tone::Accent, true);
    put(&mut line, does, Tone::Text, false);
    assert(spans(line@) =~= key_row(key@, does@));
    put_line(out, line);
}

/// The keys and what they do.
pub fn draw_help() -> (r: Vec<Vec<Span>>)
    ensures
        line_spans(r@) == help_rows(),
{
    let mut out = no_lines();
    put_key(&mut out, "  j/k    ", "Navigate");
    put_key(&mut out, "  /      ", "Search/filter");
    put_key(&mut out, "  u      ", "Check upstream versions (selected)");
    put_key(&mut out, "  U      ", "Check upstream versions (all)");
    put_key(&mut out, "  t      ", "Bump template to latest (selected)");
    put_key(&mut out, "  T      ", "Bump all upstream-ahead templates");
    put_key(&mut out, "  b      ", "Build selected");
    put_key(&mut out, "  B      ", "Build all outdated");
    put_key(&mut out, "  g      ", "Git status");
    put_key(&mut out, "  s      ", "Apply SONAME shlib updates");
    put_key(&mut out, "  Enter  ", "Detail panel");
    put_key(&mut out, "  ?      ", "Help");
    put_key(&mut out, "  q      ", "Quit");
    assert(line_spans(out@) =~= help_rows());
    out
}

// ---------------------------------------------------------------------------------------------
// Questions
// ---------------------------------------------------------------------------------------------

/// What the user is asked, if anything.
pub open spec fn question(m: AppModel) -> Option<Seq<char>> {
    if m.quit_confirm {
        Some("Something is still running. Quit anyway? (y/n)"@)
    } else {
        match m.cancel_confirm {
            Some(Operation::Build) => Some("Cancel the build? (y/n)"@),
            Some(Operation::Bump) => Some("Cancel the bump? (y/n)"@),
            Some(Operation::Git) => Some("Cancel the git operation? (y/n)"@),
            None => if m.preflight.len() > 0 {
                Some(
                    if can_clean(m.preflight) {
                        "c: clean & build   b: build anyway   Esc/q: dismiss"@
                    } else {
                        "b: build anyway   Esc/q: dismiss"@
                    },
                )
            } else {
                None
            },
        }
    }
}

/// What the user is asked, if anything.
pub fn prompt(app: &App) -> (r: Option<String>)
    ensures
        text_opt(r) == question(app@),
{
    if app.quit_confirm {
        return Some("Something is still running. Quit anyway? (y/n)".to_owned());
    }
    proof {
        assert(app@.preflight.len() == app.preflight@.len());
    }
    match app.cancel_confirm {
        Some(Operation::Build) => Some("Cancel the build? (y/n)".to_owned()),
        Some(Operation::Bump) => Some("Cancel the bump? (y/n)".to_owned()),
        Some(Operation::Git) => Some("Cancel the git operation? (y/n)".to_owned()),
        None => if app.preflight.len() > 0 {
            if app.cleanable() {
                Some("c: clean & build   b: build anyway   Esc/q: dismiss".to_owned())
            } else {
                Some("b: build anyway   Esc/q: dismiss".to_owned())
            }
        } else {
            None
        },
    }
}

// ---------------------------------------------------------------------------------------------
// The whole screen
// ---------------------------------------------------------------------------------------------

/// The middle of the screen: the list, with the place of the selected row, or the tree of the
/// packages that depend on the selected one.
#[derive(Debug)]
pub enum Main {
    List { rows: Vec<Vec<Span>>, selected: usize },
    Tree { lines: Option<Vec<Vec<Span>>> },
}

/// What a `Main` holds.
pub enum MainModel {
    List { rows: Seq<Seq<SpanModel>>, selected: usize },
    Tree { lines: Option<Seq<Seq<SpanModel>>> },
}

/// The lines behind an optional list of them.
pub open spec fn line_spans_opt(o: Option<Vec<Vec<Span>>>) -> Option<Seq<Seq<SpanModel>>> {
    match o {
        Some(v) => Some(line_spans(v@)),
        None => None,
    }
}

impl View for Main {
    type V = MainModel;

    open spec fn view(&self) -> MainModel {
        match self {
            Main::List { rows, selected } => MainModel::List {
                rows: line_spans(rows@),
                selected: *selected,
            },
            Main::Tree { lines } => MainModel::Tree { lines: line_spans_opt(*lines) },
        }
    }
}

/// A panel: its title, its lines, and whether lines that do not fit are wrapped.
#[derive(Debug)]
pub struct Panel {
    pub title: String,
    pub lines: Vec<Vec<Span>>,
    pub wrapped: bool,
}

/// What a `Panel` holds.
pub struct PanelModel {
    pub title: Seq<char>,
    pub lines: Seq<Seq<SpanModel>>,
    pub wrapped: bool,
}

impl View for Panel {
    type V = PanelModel;

    open spec fn view(&self) -> PanelModel {
        PanelModel {
            title: self.title@,
            lines: line_spans(self.lines@),
            wrapped: self.wrapped,
        }
    }
}

pub open spec fn panel_opt(o: Option<Panel>) -> Option<PanelModel> {
    match o {
        Some(p) => Some(p@),
        None => None,
    }
}

/// The rows of a panel that its frame leaves.
pub open spec fn inner_rows(rows: u16) -> nat {
    if rows >= 2 {
        (rows - 2) as nat
    } else {
        0
    }
}

/// The middle of the screen. There is no tree where nothing is selected.
pub open spec fn main_part(m: AppModel) -> MainModel {
    match m.view {
        screen::View::List => MainModel::List { rows: list_rows(m), selected: m.selected },
        screen::View::Tree => MainModel::Tree {
            lines: match m.chosen() {
                Some(s) => Some(
                    tree_lines(
                        s,
                        subtrees(
                            m.dep_graph,
                            s.package.name,
                            Set::empty(),
                            m.dep_graph.names@.len() + 1,
                        ).0,
                    ),
                ),
                None => None,
            },
        },
    }
}

/// The panel that is open, with `rows` rows and the log of a bump `log`. There is none for a
/// package where nothing is selected.
pub open spec fn open_panel(m: AppModel, rows: u16, log: Seq<Seq<char>>) -> Option<PanelModel> {
    let inside = inner_rows(rows);
    match m.panel {
        PanelMode::Closed => None,
        PanelMode::Detail => match m.chosen() {
            Some(s) => Some(
                PanelModel {
                    title: " "@ + s.package.name + " "@,
                    lines: detail(m, s),
                    wrapped: true,
                },
            ),
            None => None,
        },
        PanelMode::BuildLog => Some(
            PanelModel {
                title: " Build Log "@,
                lines: build_log(
                    m,
                    if inside > 0 {
                        (inside - 1) as nat
                    } else {
                        0
                    },
                ),
                wrapped: false,
            },
        ),
        PanelMode::BumpLog => Some(
            PanelModel {
                title: " Bump Log "@,
                lines: output_lines(window(log, inside, m.bump_log_scroll as nat)),
                wrapped: false,
            },
        ),
        PanelMode::GitMenu => Some(
            PanelModel {
                title: " Git Operations "@,
                lines: git_panel(m, inside),
                wrapped: false,
            },
        ),
        PanelMode::Help => Some(
            PanelModel { title: " Help "@, lines: help_rows(), wrapped: false },
        ),
    }
}

/// The middle of the screen.
fn draw_main(app: &App) -> (r: Main)
    requires
        app.dep_graph.wf(),
    ensures
        r@ == main_part(app@),
{
    match app.view {
        screen::View::List => Main::List { rows: draw_package_list(app), selected: app.selected },
        screen::View::Tree => match app.selected_package() {
            Some(s) => {
                let tree = app.dep_graph.reverse_dep_tree(s.package.name.as_str());
                Main::Tree { lines: Some(draw_tree_view(s, &tree)) }
            },
            None => Main::Tree { lines: None },
        },
    }
}

/// The panel that is open, with `rows` rows and the log of a bump.
fn draw_panel(app: &App, rows: u16, log: &Vec<String>) -> (r: Option<Panel>)
    requires
        app.dep_graph.wf(),
    ensures
        panel_opt(r) == open_panel(app@, rows, texts(log@)),
{
    let inside: usize = if rows >= 2 {
        (rows - 2) as usize
    } else {
        0
    };
    match app.panel {
        PanelMode::Closed => None,
        PanelMode::Detail => match app.selected_package() {
            Some(s) => Some(
                Panel {
                    title: cat3(" ", s.package.name.as_str(), " "),
                    lines: draw_detail(app, s),
                    wrapped: true,
                },
            ),
            None => None,
        },
        PanelMode::BuildLog => {
            let below: usize = if inside > 0 {
                inside - 1
            } else {
                0
            };
            Some(
                Panel {
                    title: " Build Log ".to_owned(),
                    lines: draw_build_log(app, below),
                    wrapped: false,
                },
            )
        },
        PanelMode::BumpLog => Some(
            Panel {
                title: " Bump Log ".to_owned(),
                lines: draw_bump_log(log, inside, app.bump_log_scroll),
                wrapped: false,
            },
        ),
        PanelMode::GitMenu => Some(
            Panel {
                title: " Git Operations ".to_owned(),
                lines: draw_git_panel(app, inside),
                wrapped: false,
            },
        ),
        PanelMode::Help => Some(
            Panel { title: " Help ".to_owned(), lines: draw_help(), wrapped: false },
        ),
    }
}

/// What is on the screen, from top to bottom, and what the user is asked in front of it.
#[derive(Debug)]
pub struct Screen {
    pub header: Vec<Span>,
    pub main: Main,
    pub panel: Option<Panel>,
    pub status_bar: Vec<Span>,
    pub prompt: Option<String>,
}

/// What is on the screen at the time `now`, where the panel has `rows` rows, with the log of a
/// bump.
pub fn draw(app: &App, now: u64, rows: u16, log: &Vec<String>) -> (r: Screen)
    requires
        app.dep_graph.wf(),
    ensures
        spans(r.header@) == header(app@, now),
        r.main@ == main_part(app@),
        panel_opt(r.panel) == open_panel(app@, rows, texts(log@)),
        spans(r.status_bar@) == status_bar(app@),
        text_opt(r.prompt) == question(app@),
{
    Screen {
        header: draw_header(app, now),
        main: draw_main(app),
        panel: draw_panel(app, rows, log),
        status_bar: draw_status_bar(app),
        prompt: prompt(app),
    }
}

} // verus!

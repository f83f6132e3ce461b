//! What the user sees of the packages: laws of what is on the screen.

use vstd::prelude::*;

use crate::app::{count_status, lemma_visible_in, state_names, AppModel};
use crate::building::{BuildJobStatus, JobModel};
use crate::dep_graph::{stands_in, TreeModel};
use crate::gcc::GccInfo;
use crate::git::GitStatusModel;
use crate::package::{
    law_installed_version_is_read, status_label, ver_rev_of, StateModel, Status,
};
use crate::screen;
use crate::screen::PanelMode;
use crate::shlibs::{MismatchModel, ShlibModel};
use crate::text::{decimal, join, starts_with};
use crate::ui::{
    ago, bold, build_log, detail, git_panel, git_spans, header, installed_text, job_badge,
    job_spans, library_span, list_rows, main_part, mismatch_of, open_panel, question, run,
    status_bar, status_count, status_counts_bar, status_text, tree_lines, tree_rows, window,
    MainModel, SpanModel, Tone,
};

verus! {

broadcast use vstd::seq_lib::group_seq_properties;

/// The list has a row for each visible package, in order: its name, the version of its template,
/// what is installed of it, the upstream version that is known, and its status.
pub proof fn law_row_shows_package(m: AppModel, k: int)
    requires
        0 <= k < m.visible().len(),
    ensures
        ({
            let s = m.packages[m.visible()[k]];
            let r = list_rows(m)[k];
            &&& list_rows(m).len() == m.visible().len()
            &&& 0 <= m.visible()[k] < m.packages.len()
            &&& r.len() == 5
            &&& r[0].text == s.package.name
            &&& r[1].text == s.package.version
            &&& s.installed is Some ==> r[2].text == ver_rev_of(s.installed->0)
            &&& s.installed is None ==> r[2].text == "-"@
            &&& s.latest is Some ==> r[3].text == s.latest->0
            &&& s.latest is None ==> r[3].text == "-"@
            &&& r[4].text == status_text(s, m.gcc_info)
        }),
{
    lemma_visible_in(state_names(m.packages), m.filter);
}

/// What is installed of a package is shown without its name.
pub proof fn law_installed_is_shown(name: Seq<char>, version: Seq<char>, revision: nat)
    requires
        !version.contains('-'),
    ensures
        installed_text(Some(name + "-"@ + (version + "_"@ + decimal(revision)))) == version + "_"@
            + decimal(revision),
        installed_text(None) == "-"@,
{
    law_installed_version_is_read(name, version, revision);
}

/// The status of a package is shown by its label, with a mark exactly where one of its libraries is
/// not installed under its registered name, and with what it asks of the compiler exactly where that
/// is too old.
pub proof fn law_status_is_marked(s: StateModel, gcc: GccInfo)
    ensures
        s.soname_mismatches.len() == 0 && !gcc.blocks(s.package.name) ==> status_text(s, gcc)
            == status_label(s.status),
        s.soname_mismatches.len() > 0 && !gcc.blocks(s.package.name) ==> status_text(s, gcc)
            == status_label(s.status) + " !so"@,
        s.soname_mismatches.len() == 0 && gcc.blocks(s.package.name) && gcc.shown_requirement(
            s.package.name,
        ) is Some ==> status_text(s, gcc) == status_label(s.status) + (" GCC "@
            + gcc.shown_requirement(s.package.name)->0 + "+"@),
{
    let label = status_label(s.status);
    assert(label + Seq::<char>::empty() =~= label);
    assert(label + Seq::<char>::empty() + Seq::<char>::empty() =~= label);
    assert(label + " !so"@ + Seq::<char>::empty() =~= label + " !so"@);
}

/// The labels of the statuses are different from one another.
pub proof fn law_labels_differ(a: Status, b: Status)
    requires
        status_label(a) == status_label(b),
    ensures
        a == b,
{
    reveal_strlit("UP TO DATE");
    reveal_strlit("UPSTREAM AHEAD");
    reveal_strlit("BUILD OUTDATED");
    reveal_strlit("READY TO INSTALL");
    reveal_strlit("BUILD FAILED");
    assert("UP TO DATE"@.len() == 10 && "UPSTREAM AHEAD"@.len() == 14);
    assert("BUILD OUTDATED"@.len() == 14 && "READY TO INSTALL"@.len() == 16);
    assert("BUILD FAILED"@.len() == 12);
    assert("UPSTREAM AHEAD"@[0] == 'U' && "BUILD OUTDATED"@[0] == 'B');
}

/// Of a log that is longer than its panel the end is shown, and as many lines further up as the user
/// scrolled; all of it where there is room.
pub proof fn law_window_shows_end(all: Seq<Seq<char>>, available: nat, scroll: nat, i: int)
    requires
        scroll <= all.len(),
        0 <= i < window(all, available, scroll).len(),
    ensures
        window(all, available, scroll).len() == (if all.len() - scroll < available {
            all.len() - scroll
        } else {
            available as int
        }),
        window(all, available, scroll)[i] == all[all.len() - scroll - window(
            all,
            available,
            scroll,
        ).len() + i],
        all.len() <= available ==> window(all, available, 0) == all,
{
    assert(all.subrange(0, all.len() as int) =~= all);
}

/// Whether a row of a tree names `x`.
pub open spec fn row_names(r: Seq<SpanModel>, x: Seq<char>) -> bool {
    r.len() == 2 && r[1].text == x
}

/// The tree of a package names exactly the packages that stand in it.
pub proof fn law_tree_shows_every_package(
    s: StateModel,
    tree: Seq<TreeModel>,
    x: Seq<char>,
)
    requires
        tree.len() > 0,
    ensures
        stands_in(tree, x) <==> exists|i: int|
            1 <= i < tree_lines(s, tree).len() && row_names(
                #[trigger] tree_lines(s, tree)[i],
                x,
            ),
        tree_lines(s, tree)[0][0].text == s.package.name,
{
    let rows = tree_rows(tree, Seq::empty(), tree.len());
    let all = tree_lines(s, tree);
    assert(tree.take(tree.len() as int) =~= tree);
    lemma_tree_rows(tree, Seq::empty(), tree.len(), x);
    assert(all.len() == rows.len() + 1);
    assert forall|i: int| 1 <= i < all.len() implies #[trigger] all[i] == rows[i - 1] by {}
    if stands_in(tree, x) {
        let i = choose|i: int| 0 <= i < rows.len() && row_names(#[trigger] rows[i], x);
        assert(all[i + 1] == rows[i]);
    }
}

/// The rows of the first `k` of some trees name exactly what stands in these.
proof fn lemma_tree_rows(nodes: Seq<TreeModel>, prefix: Seq<char>, k: nat, x: Seq<char>)
    requires
        k <= nodes.len(),
    ensures
        stands_in(nodes.take(k as int), x) <==> exists|i: int|
            0 <= i < tree_rows(nodes, prefix, k).len() && row_names(
                #[trigger] tree_rows(nodes, prefix, k)[i],
                x,
            ),
    decreases nodes, k,
{
    if k > 0 {
        let node = nodes[k - 1];
        let last = k == nodes.len();
        let connector = if last {
            "\u{2514}\u{2500}\u{2500} "@
        } else {
            "\u{251c}\u{2500}\u{2500} "@
        };
        let below = prefix + if last {
            "    "@
        } else {
            "\u{2502}   "@
        };
        let front = tree_rows(nodes, prefix, (k - 1) as nat);
        let own = seq![run(prefix + connector, Tone::Dim), run(node.name, Tone::Text)];
        let deeper = tree_rows(node.children, below, node.children.len());
        let all = tree_rows(nodes, prefix, k);
        assert(all == front.push(own) + deeper);
        lemma_tree_rows(nodes, prefix, (k - 1) as nat, x);
        lemma_tree_rows(node.children, below, node.children.len(), x);
        assert(node.children.take(node.children.len() as int) =~= node.children);
        assert(nodes.take(k as int).drop_last() =~= nodes.take(k - 1));
        assert(nodes.take(k as int).last() == node);
        let n = front.len() as int;
        assert(all[n] == own);
        if stands_in(nodes.take(k - 1), x) {
            let i = choose|i: int| 0 <= i < front.len() && row_names(#[trigger] front[i], x);
            assert(all[i] == front[i]);
            assert(row_names(all[i], x));
        }
        if stands_in(node.children, x) {
            let i = choose|i: int| 0 <= i < deeper.len() && row_names(#[trigger] deeper[i], x);
            assert(all[n + 1 + i] == deeper[i]);
            assert(row_names(all[n + 1 + i], x));
        }
        if node.name == x {
            assert(row_names(all[n], x));
        }
        if exists|i: int| 0 <= i < all.len() && row_names(#[trigger] all[i], x) {
            let i = choose|i: int| 0 <= i < all.len() && row_names(#[trigger] all[i], x);
            if i < n {
                assert(row_names(front[i], x));
            } else if i > n {
                assert(row_names(deeper[i - n - 1], x));
            }
        }
    } else {
        assert(nodes.take(0).len() == 0);
    }
}

/// The details of a package say what it is, where it comes from, what it depends on and what
/// depends on it.
pub proof fn law_detail_shows_package(m: AppModel, s: StateModel)
    ensures
        ({
            let d = detail(m, s);
            &&& d.len() >= 5
            &&& d[0][1].text == s.package.short_desc
            &&& d[1][1].text == s.package.homepage
            &&& m.dep_graph.dependencies(s.package.name).len() > 1 ==> d[3][1].text == join(
                m.dep_graph.dependencies(s.package.name),
                ", "@,
            )
            &&& m.dep_graph.dependents(s.package.name).len() > 1 ==> d[4][1].text == join(
                m.dep_graph.dependents(s.package.name),
                ", "@,
            )
            &&& m.dep_graph.dependencies(s.package.name).len() == 0 ==> d[3][1].text == "(none)"@
            &&& m.dep_graph.dependents(s.package.name).len() == 0 ==> d[4][1].text == "(none)"@
        }),
{
    reveal_strlit(", ");
    let a = m.dep_graph.dependencies(s.package.name);
    let b = m.dep_graph.dependents(s.package.name);
    if a.len() > 1 {
        assert(join(a, ", "@).len() >= 2);
    }
    if b.len() > 1 {
        assert(join(b, ", "@).len() >= 2);
    }
}

/// A library is shown with what is installed in its place exactly where a mismatch is known of it,
/// and as in order otherwise.
pub proof fn law_library_is_shown(e: ShlibModel, ms: Seq<MismatchModel>, i: int)
    requires
        0 <= i <= ms.len(),
        forall|j: int| 0 <= j < i ==> (#[trigger] ms[j]).registered != e.soname,
        i < ms.len() ==> ms[i].registered == e.soname,
    ensures
        i < ms.len() ==> library_span(e, ms) == run(
            e.soname + " (installed: "@ + ms[i].installed + " \u{2014} MISMATCH) "@,
            Tone::Notice,
        ),
        i == ms.len() ==> library_span(e, ms) == run(e.soname + " (OK) "@, Tone::Good),
{
    lemma_mismatch_at(ms, e.soname, i);
}

proof fn lemma_mismatch_at(ms: Seq<MismatchModel>, soname: Seq<char>, i: int)
    requires
        0 <= i <= ms.len(),
        forall|j: int| 0 <= j < i ==> (#[trigger] ms[j]).registered != soname,
        i < ms.len() ==> ms[i].registered == soname,
    ensures
        i < ms.len() ==> mismatch_of(ms, soname) == Some(ms[i].installed),
        i == ms.len() ==> mismatch_of(ms, soname) is None,
    decreases i,
{
    if i > 0 {
        let rest = ms.drop_first();
        assert(ms[0].registered != soname);
        assert forall|j: int| 0 <= j < i - 1 implies (#[trigger] rest[j]).registered
            != soname by {
            assert(rest[j] == ms[j + 1]);
        }
        if i < ms.len() {
            assert(rest[i - 1] == ms[i]);
        }
        lemma_mismatch_at(rest, soname, i - 1);
    }
}

/// How long ago something was is said in the largest unit that is full: minutes, hours or days.
pub proof fn law_age_is_said(n: nat, rest: nat)
    ensures
        rest < 60 ==> ago(rest) == "just now"@,
        0 < n < 60 && rest < 60 ==> ago(n * 60 + rest) == decimal(n) + "m ago"@,
        0 < n < 24 && rest < 3600 ==> ago(n * 3600 + rest) == decimal(n) + "h ago"@,
        0 < n && rest < 86400 ==> ago(n * 86400 + rest) == decimal(n) + "d ago"@,
{
}

/// Whether some runs hold a text.
pub open spec fn shows(r: Seq<SpanModel>, text: Seq<char>) -> bool {
    exists|i: int| 0 <= i < r.len() && (#[trigger] r[i]).text == text
}

/// What stands in a part of some runs stands in them.
proof fn lemma_shows(a: Seq<SpanModel>, b: Seq<SpanModel>, text: Seq<char>)
    ensures
        shows(a, text) ==> shows(a + b, text),
        shows(b, text) ==> shows(a + b, text),
{
    if shows(a, text) {
        let i = choose|i: int| 0 <= i < a.len() && (#[trigger] a[i]).text == text;
        assert((a + b)[i].text == text);
    }
    if shows(b, text) {
        let i = choose|i: int| 0 <= i < b.len() && (#[trigger] b[i]).text == text;
        assert((a + b)[a.len() + i].text == text);
    }
}

/// The header says which branch is checked out, how far it is ahead of the upstream branch and how
/// far behind it.
pub proof fn law_header_shows_branches(m: AppModel, s: GitStatusModel, now: u64)
    requires
        m.git_status == Some(s),
    ensures
        shows(header(m, now), s.branch),
        s.ahead > 0 ==> shows(header(m, now), " | "@ + decimal(s.ahead as nat) + " ahead"@),
        s.behind > 0 ==> shows(header(m, now), " | "@ + decimal(s.behind as nat) + " behind"@),
        s.last_fetch is Some && s.last_fetch->0 <= now ==> shows(
            header(m, now),
            " | synced "@ + ago((now - s.last_fetch->0) as nat),
        ),
{
    let g = git_spans(m.git_status, now);
    let h = header(m, now);
    assert(h[3] == g[1]);
    assert(h[3].text == s.branch);
    let ahead = if s.ahead > 0 {
        1int
    } else {
        0int
    };
    let behind = if s.behind > 0 {
        1int
    } else {
        0int
    };
    if s.ahead > 0 {
        assert(g[2].text == " | "@ + decimal(s.ahead as nat) + " ahead"@);
        assert(h[4] == g[2]);
    }
    if s.behind > 0 {
        assert(g[2 + ahead].text == " | "@ + decimal(s.behind as nat) + " behind"@);
        assert(h[4 + ahead] == g[2 + ahead]);
    }
    if s.last_fetch is Some && s.last_fetch->0 <= now {
        assert(g[2 + ahead + behind].text == " | synced "@ + ago((now - s.last_fetch->0) as nat));
        assert(h[4 + ahead + behind] == g[2 + ahead + behind]);
    }
}

/// The status bar says how many packages have each status, where there are any, what was last said,
/// and how many changes of the register can be made.
pub proof fn law_status_bar_counts(m: AppModel)
    ensures
        ({
            let ps = m.packages;
            &&& count_status(ps, Status::UpToDate) > 0 ==> shows(
                status_bar(m),
                decimal(count_status(ps, Status::UpToDate)) + " ok"@,
            )
            &&& count_status(ps, Status::UpstreamAhead) > 0 ==> shows(
                status_bar(m),
                decimal(count_status(ps, Status::UpstreamAhead)) + " updates"@,
            )
            &&& count_status(ps, Status::BuildOutdated) > 0 ==> shows(
                status_bar(m),
                decimal(count_status(ps, Status::BuildOutdated)) + " need build"@,
            )
            &&& count_status(ps, Status::ReadyToInstall) > 0 ==> shows(
                status_bar(m),
                decimal(count_status(ps, Status::ReadyToInstall)) + " ready"@,
            )
            &&& count_status(ps, Status::BuildFailed) > 0 ==> shows(
                status_bar(m),
                decimal(count_status(ps, Status::BuildFailed)) + " failed"@,
            )
        }),
{
    let ps = m.packages;
    let a = status_count(count_status(ps, Status::UpToDate), " ok"@, Tone::Good);
    let b = status_count(count_status(ps, Status::UpstreamAhead), " updates"@, Tone::Notice);
    let c = status_count(count_status(ps, Status::BuildOutdated), " need build"@, Tone::Warning);
    let d = status_count(count_status(ps, Status::ReadyToInstall), " ready"@, Tone::Notice);
    let e = status_count(count_status(ps, Status::BuildFailed), " failed"@, Tone::Bad);
    let none = Seq::<SpanModel>::empty();
    assert(a + b + c + d + e =~= none + a + (b + c + d + e));
    assert(a + b + c + d + e =~= a + b + (c + d + e));
    assert(a + b + c + d + e =~= (a + b) + c + (d + e));
    assert(a + b + c + d + e =~= (a + b + c) + d + e);
    assert(a + b + c + d + e =~= (a + b + c + d) + e + none);
    lemma_count_shown(none, count_status(ps, Status::UpToDate), " ok"@, Tone::Good, b + c + d + e);
    lemma_count_shown(
        a,
        count_status(ps, Status::UpstreamAhead),
        " updates"@,
        Tone::Notice,
        c + d + e,
    );
    lemma_count_shown(
        a + b,
        count_status(ps, Status::BuildOutdated),
        " need build"@,
        Tone::Warning,
        d + e,
    );
    lemma_count_shown(
        a + b + c,
        count_status(ps, Status::ReadyToInstall),
        " ready"@,
        Tone::Notice,
        e,
    );
    lemma_count_shown(
        a + b + c + d,
        count_status(ps, Status::BuildFailed),
        " failed"@,
        Tone::Bad,
        none,
    );
    lemma_bar(m, a + b + c + d + e, decimal(count_status(ps, Status::UpToDate)) + " ok"@);
    lemma_bar(m, a + b + c + d + e, decimal(count_status(ps, Status::UpstreamAhead)) + " updates"@);
    lemma_bar(
        m,
        a + b + c + d + e,
        decimal(count_status(ps, Status::BuildOutdated)) + " need build"@,
    );
    lemma_bar(m, a + b + c + d + e, decimal(count_status(ps, Status::ReadyToInstall)) + " ready"@);
    lemma_bar(m, a + b + c + d + e, decimal(count_status(ps, Status::BuildFailed)) + " failed"@);
}

/// A count stands in the bar without the mark behind the last one.
proof fn lemma_count_shown(
    a: Seq<SpanModel>,
    n: nat,
    what: Seq<char>,
    tone: Tone,
    b: Seq<SpanModel>,
)
    ensures
        n > 0 ==> (a + status_count(n, what, tone) + b).len() > 0 && shows(
            (a + status_count(n, what, tone) + b).drop_last(),
            decimal(n) + what,
        ),
{
    if n > 0 {
        let all = a + status_count(n, what, tone) + b;
        let i = a.len() as int;
        assert(all.drop_last()[i] == run(decimal(n) + what, tone));
    }
}

/// What stands in the counts stands in the status bar.
proof fn lemma_bar(m: AppModel, all: Seq<SpanModel>, text: Seq<char>)
    requires
        status_counts_bar(m.packages) == seq![run(" "@, Tone::Plain)] + if all.len() > 0 {
            all.drop_last()
        } else {
            all
        },
    ensures
        all.len() > 0 && shows(all.drop_last(), text) ==> shows(status_bar(m), text),
{
    if all.len() > 0 && shows(all.drop_last(), text) {
        lemma_shows(seq![run(" "@, Tone::Plain)], all.drop_last(), text);
        let i = choose|i: int|
            0 <= i < status_counts_bar(m.packages).len() && (#[trigger] status_counts_bar(
                m.packages,
            )[i]).text == text;
        assert(status_bar(m)[i] == status_counts_bar(m.packages)[i]);
    }
}

/// The log of a build shows every job with its state, in order, and below them the end of the
/// output, errors apart from the rest.
pub proof fn law_build_log_shows_jobs_and_output(
    m: AppModel,
    jobs: Seq<JobModel>,
    job: JobModel,
    available: nat,
    i: int,
)
    requires
        0 <= i < window(
            m.build_queue.current_output,
            available,
            m.build_log_scroll as nat,
        ).len(),
    ensures
        job_spans(jobs.push(job)) == job_spans(jobs) + seq![
            bold(job_badge(job.status).0, job_badge(job.status).1),
            run(job.name + "  "@, Tone::Text),
        ],
        build_log(m, available)[0] == job_spans(m.build_queue.jobs),
        ({
            let shown = window(
                m.build_queue.current_output,
                available,
                m.build_log_scroll as nat,
            );
            &&& build_log(m, available).len() == 1 + shown.len()
            &&& build_log(m, available)[1 + i][0].text == "  "@ + shown[i]
            &&& build_log(m, available)[1 + i][0].tone == (if starts_with(shown[i], "ERR:"@) {
                Tone::Bad
            } else {
                Tone::Text
            })
        }),
{
    assert(jobs.push(job).drop_last() =~= jobs);
}

/// The badges of jobs tell their states apart.
pub proof fn law_badges_differ(a: BuildJobStatus, b: BuildJobStatus)
    requires
        job_badge(a).1 == job_badge(b).1,
    ensures
        a == b,
{
}

/// The panel for the branches shows the output of an operation where there is any, as far as there
/// is room.
pub proof fn law_git_panel_shows_output(m: AppModel, available: nat, i: int)
    requires
        m.git_op_active || m.git_output.len() > 0,
        0 <= i < window(m.git_output, available, 0).len(),
    ensures
        git_panel(m, available).len() >= window(m.git_output, available, 0).len(),
        git_panel(m, available)[i][0].text == "  "@ + window(m.git_output, available, 0)[i],
{
}

/// The user sees a question exactly where one is asked.
pub proof fn law_question_is_shown(m: AppModel)
    ensures
        question(m) is Some <==> m.quit_confirm || m.cancel_confirm is Some || m.preflight.len()
            > 0,
{
}

/// What is open on the screen is what the state says: the list or the tree of the selected package,
/// and the panel.
pub proof fn law_screen_follows_state(m: AppModel, rows: u16, log: Seq<Seq<char>>)
    ensures
        m.view == screen::View::List ==> main_part(m) == (MainModel::List {
            rows: list_rows(m),
            selected: m.selected,
        }),
        m.view == screen::View::Tree ==> main_part(m) is Tree && (main_part(m)->lines is Some
            <==> m.chosen() is Some),
        m.panel == PanelMode::Closed ==> open_panel(m, rows, log) is None,
        m.panel == PanelMode::Detail && m.chosen() is Some ==> open_panel(m, rows, log) is Some
            && open_panel(m, rows, log)->0.lines == detail(m, m.chosen()->0),
        m.panel == PanelMode::BuildLog || m.panel == PanelMode::BumpLog || m.panel
            == PanelMode::GitMenu || m.panel == PanelMode::Help ==> open_panel(m, rows, log) is Some,
{
}

} // verus!

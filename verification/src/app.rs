//! The state of the program: what is shown, what is selected and what is running.

use vstd::prelude::*;

use crate::building::{
    warning_models, BuildHistory, BuildQueue, HistoryModel, PreflightWarning, QueueModel,
    WarningModel,
};
use crate::dep_graph::DepGraph;
use crate::gcc::GccInfo;
use crate::git::{git_status_opt, GitOp, GitStatus, GitStatusModel};
use crate::screen;
use crate::screen::PanelMode;
use crate::package::{state_models, PackageState, StateModel, Status};
use crate::shlibs::ShlibEntry;
use crate::table::TextMap;
use crate::text::{
    chars_of, find_text, has_text, lemma_find_text, lowercase, mentions, starts_with, text_of,
    text_opt, texts, to_lower,
};

verus! {

broadcast use vstd::seq_lib::group_seq_properties;

// ---------------------------------------------------------------------------------------------
// The state
// ---------------------------------------------------------------------------------------------

/// What the bump of templates reports.
#[derive(Debug)]
pub enum TemplateBumpMsg {
    /// A bump starts, with its log at this path.
    Started(String),
    /// A package, its old and its new version.
    Done(String, String, String),
    /// A package, and why its bump failed.
    Failed(String, String),
    /// There is nothing more to bump.
    AllDone,
}

/// What a `TemplateBumpMsg` holds.
pub enum BumpMsgModel {
    Started(Seq<char>),
    Done(Seq<char>, Seq<char>, Seq<char>),
    Failed(Seq<char>, Seq<char>),
    AllDone,
}

impl View for TemplateBumpMsg {
    type V = BumpMsgModel;

    open spec fn view(&self) -> BumpMsgModel {
        match self {
            TemplateBumpMsg::Started(p) => BumpMsgModel::Started(p@),
            TemplateBumpMsg::Done(n, a, b) => BumpMsgModel::Done(n@, a@, b@),
            TemplateBumpMsg::Failed(n, e) => BumpMsgModel::Failed(n@, e@),
            TemplateBumpMsg::AllDone => BumpMsgModel::AllDone,
        }
    }
}

/// What can run in the background.
#[derive(Debug, Clone, Copy, PartialEq, Eq, Structural)]
pub enum Operation {
    Build,
    Bump,
    Git,
}

/// The state of the program.
#[derive(Debug)]
pub struct App {
    pub packages: Vec<PackageState>,
    /// The place of the selected package among the visible ones.
    pub selected: usize,
    pub view: screen::View,
    pub dep_graph: DepGraph,
    /// Where the packages are.
    pub void_pkgs: String,
    pub panel: PanelMode,
    pub checking_versions: bool,
    pub status_msg: Option<String>,
    pub should_quit: bool,
    pub build_queue: BuildQueue,
    pub build_history: BuildHistory,
    pub git_status: Option<GitStatus>,
    pub git_output: Vec<String>,
    pub git_op_active: bool,
    pub git_cancelled: bool,
    pub git_current_op: Option<GitOp>,
    pub filter: String,
    pub filter_active: bool,
    pub shlib_map: TextMap<Vec<ShlibEntry>>,
    pub gcc_info: GccInfo,
    /// Changes of the register of shared libraries that can be made: a package, a library, the
    /// one in its place, and the package with its version.
    pub shlib_updates: Vec<(String, String, String, String)>,
    /// How many lines the build log is scrolled up; 0 follows its end.
    pub build_log_scroll: usize,
    /// When upstream versions were last asked for, in seconds since 1970.
    pub pkg_last_checked: Option<u64>,
    pub template_bumping: bool,
    pub bump_cancelled: bool,
    pub bump_had_failure: bool,
    pub bump_log_path: Option<String>,
    pub bump_log_scroll: usize,
    /// What is cancelled if the user confirms it.
    pub cancel_confirm: Option<Operation>,
    pub quit_confirm: bool,
    /// The packages that are built if the user confirms it.
    pub pending_build: Vec<String>,
    /// What the user is asked to confirm it in spite of.
    pub preflight: Vec<PreflightWarning>,
}

/// A change of the register of shared libraries that can be made for a package.
pub struct PendingModel {
    pub package: Seq<char>,
    pub old_soname: Seq<char>,
    pub new_soname: Seq<char>,
    pub new_pkg_ver: Seq<char>,
}

pub open spec fn pending_models(v: Seq<(String, String, String, String)>) -> Seq<PendingModel> {
    Seq::new(
        v.len(),
        |i: int|
            PendingModel {
                package: v[i].0@,
                old_soname: v[i].1@,
                new_soname: v[i].2@,
                new_pkg_ver: v[i].3@,
            },
    )
}

/// What an `App` holds.
pub struct AppModel {
    pub packages: Seq<StateModel>,
    pub selected: usize,
    pub view: screen::View,
    pub dep_graph: DepGraph,
    pub void_pkgs: Seq<char>,
    pub panel: PanelMode,
    pub checking_versions: bool,
    pub status_msg: Option<Seq<char>>,
    pub should_quit: bool,
    pub build_queue: QueueModel,
    pub build_history: Seq<HistoryModel>,
    pub git_status: Option<GitStatusModel>,
    pub git_output: Seq<Seq<char>>,
    pub git_op_active: bool,
    pub git_cancelled: bool,
    pub git_current_op: Option<GitOp>,
    pub filter: Seq<char>,
    pub filter_active: bool,
    pub shlib_map: TextMap<Vec<ShlibEntry>>,
    pub gcc_info: GccInfo,
    pub shlib_updates: Seq<PendingModel>,
    pub build_log_scroll: usize,
    pub pkg_last_checked: Option<u64>,
    pub template_bumping: bool,
    pub bump_cancelled: bool,
    pub bump_had_failure: bool,
    pub bump_log_path: Option<Seq<char>>,
    pub bump_log_scroll: usize,
    pub cancel_confirm: Option<Operation>,
    pub quit_confirm: bool,
    pub pending_build: Seq<Seq<char>>,
    pub preflight: Seq<WarningModel>,
}

impl View for App {
    type V = AppModel;

    open spec fn view(&self) -> AppModel {
        AppModel {
            packages: state_models(self.packages@),
            selected: self.selected,
            view: self.view,
            dep_graph: self.dep_graph,
            void_pkgs: self.void_pkgs@,
            panel: self.panel,
            checking_versions: self.checking_versions,
            status_msg: text_opt(self.status_msg),
            should_quit: self.should_quit,
            build_queue: self.build_queue@,
            build_history: self.build_history@,
            git_status: git_status_opt(self.git_status),
            git_output: texts(self.git_output@),
            git_op_active: self.git_op_active,
            git_cancelled: self.git_cancelled,
            git_current_op: self.git_current_op,
            filter: self.filter@,
            filter_active: self.filter_active,
            shlib_map: self.shlib_map,
            gcc_info: self.gcc_info,
            shlib_updates: pending_models(self.shlib_updates@),
            build_log_scroll: self.build_log_scroll,
            pkg_last_checked: self.pkg_last_checked,
            template_bumping: self.template_bumping,
            bump_cancelled: self.bump_cancelled,
            bump_had_failure: self.bump_had_failure,
            bump_log_path: text_opt(self.bump_log_path),
            bump_log_scroll: self.bump_log_scroll,
            cancel_confirm: self.cancel_confirm,
            quit_confirm: self.quit_confirm,
            pending_build: texts(self.pending_build@),
            preflight: warning_models(self.preflight@),
        }
    }
}

// ---------------------------------------------------------------------------------------------
// What is visible
// ---------------------------------------------------------------------------------------------

/// The names of the packages.
pub open spec fn state_names(ps: Seq<StateModel>) -> Seq<Seq<char>> {
    Seq::new(ps.len(), |i: int| ps[i].package.name)
}

/// Whether a package of this name is visible: the filter occurs in it, upper and lower case
/// alike.
pub open spec fn is_visible(name: Seq<char>, filter: Seq<char>) -> bool {
    filter.len() == 0 || has_text(lowercase(name), lowercase(filter))
}

/// The places of the visible packages, in order.
pub open spec fn visible_in(names: Seq<Seq<char>>, filter: Seq<char>) -> Seq<int>
    decreases names.len(),
{
    if names.len() == 0 {
        Seq::empty()
    } else {
        let before = visible_in(names.drop_last(), filter);
        if is_visible(names.last(), filter) {
            before.push(names.len() - 1)
        } else {
            before
        }
    }
}

/// What keeps the names of the packages, the filter, the graph and the selection, or selects the
/// first package, keeps the state well-formed.
pub proof fn lemma_wf_kept(a: AppModel, b: AppModel)
    requires
        a.wf(),
        a.dep_graph == b.dep_graph,
        b.selected == 0 || (state_names(a.packages) == state_names(b.packages) && a.filter
            == b.filter && a.selected == b.selected),
    ensures
        b.wf(),
{
}

/// The places of the visible packages are places of packages.
pub proof fn lemma_visible_in(names: Seq<Seq<char>>, filter: Seq<char>)
    ensures
        visible_in(names, filter).len() <= names.len(),
        forall|k: int|
            0 <= k < visible_in(names, filter).len() ==> 0 <= #[trigger] visible_in(
                names,
                filter,
            )[k] < names.len(),
    decreases names.len(),
{
    if names.len() > 0 {
        lemma_visible_in(names.drop_last(), filter);
    }
}

pub open spec fn as_ints(v: Seq<usize>) -> Seq<int> {
    Seq::new(v.len(), |i: int| v[i] as int)
}

impl AppModel {
    /// The places of the visible packages, in order.
    pub open spec fn visible(self) -> Seq<int> {
        visible_in(state_names(self.packages), self.filter)
    }

    /// The package that is selected, if any.
    pub open spec fn chosen(self) -> Option<StateModel> {
        if self.selected < self.visible().len() {
            Some(self.packages[self.visible()[self.selected as int]])
        } else {
            None
        }
    }

    /// The graph of dependencies is one, and the selection is on a visible package wherever there
    /// is one.
    pub open spec fn wf(self) -> bool {
        &&& self.dep_graph.wf()
        &&& self.selected == 0 || self.selected < self.visible().len()
    }

    /// Whether something runs that a user may want to wait for.
    pub open spec fn busy(self) -> bool {
        self.build_queue.active || self.template_bumping || self.git_op_active
    }
}

/// The state with the selection one up.
pub open spec fn moved_up(m: AppModel) -> AppModel {
    AppModel {
        selected: if m.selected > 0 {
            (m.selected - 1) as usize
        } else {
            0
        },
        ..m
    }
}

/// The state with the selection one down, where there is a visible package.
pub open spec fn moved_down(m: AppModel) -> AppModel {
    AppModel {
        selected: if m.selected + 1 < m.visible().len() {
            (m.selected + 1) as usize
        } else {
            m.selected
        },
        ..m
    }
}

/// The state with a new filter, the first package selected.
pub open spec fn filtered(m: AppModel, filter: Seq<char>) -> AppModel {
    AppModel { filter, selected: 0, ..m }
}

/// The filter without its last character.
pub open spec fn erased(filter: Seq<char>) -> Seq<char> {
    if filter.len() > 0 {
        filter.drop_last()
    } else {
        filter
    }
}

impl App {
    /// The places of the visible packages, in order.
    pub fn visible_packages(&self) -> (r: Vec<usize>)
        ensures
            as_ints(r@) == self@.visible(),
    {
        let ghost names = state_names(state_models(self.packages@));
        let all = chars_of(self.filter.as_str()).len() == 0;
        let needle = to_lower(self.filter.as_str());
        let mut out: Vec<usize> = Vec::new();
        let mut i: usize = 0;
        assert(as_ints(out@) =~= Seq::empty());
        while i < self.packages.len()
            invariant
                i <= self.packages@.len(),
                names == state_names(state_models(self.packages@)),
                all == (self.filter@.len() == 0),
                needle@ == lowercase(self.filter@),
                as_ints(out@) == visible_in(names.take(i as int), self.filter@),
            decreases self.packages@.len() - i,
        {
            proof {
                assert(names.take(i + 1).drop_last() =~= names.take(i as int));
                assert(names.take(i + 1).last() == names[i as int]);
            }
            let lower = to_lower(self.packages[i].package.name.as_str());
            let c = chars_of(lower.as_str());
            if all || mentions(c.as_slice(), needle.as_str()) {
                let ghost before = out@;
                out.push(i);
                assert(as_ints(out@) =~= as_ints(before).push(i as int));
            }
            i += 1;
        }
        assert(names.take(i as int) =~= names);
        out
    }

    /// The package that is selected, if any.
    pub fn selected_package(&self) -> (r: Option<&PackageState>)
        ensures
            match r {
                Some(p) => self@.chosen() == Some(p@),
                None => self@.chosen() is None,
            },
    {
        let visible = self.visible_packages();
        proof {
            lemma_visible_in(state_names(state_models(self.packages@)), self.filter@);
        }
        if self.selected < visible.len() {
            assert(as_ints(visible@)[self.selected as int] == visible@[self.selected as int]);
            Some(&self.packages[visible[self.selected]])
        } else {
            None
        }
    }

    /// Shows a message.
    pub fn say(&mut self, msg: String)
        ensures
            final(self)@ == (AppModel { status_msg: Some(msg@), ..old(self)@ }),
    {
        self.status_msg = Some(msg);
    }

    pub fn move_up(&mut self)
        ensures
            final(self)@ == moved_up(old(self)@),
    {
        if self.selected > 0 {
            self.selected -= 1;
        }
    }

    pub fn move_down(&mut self)
        ensures
            final(self)@ == moved_down(old(self)@),
    {
        let n: usize = self.visible_packages().len();
        if self.selected < n && self.selected + 1 < n {
            self.selected += 1;
        }
    }

    /// Starts to type a filter.
    pub fn start_filter(&mut self)
        ensures
            final(self)@ == filtered(
                AppModel { filter_active: true, ..old(self)@ },
                Seq::empty(),
            ),
    {
        self.filter_active = true;
        self.filter = String::new();
        self.selected = 0;
        assert(self.filter@ =~= Seq::empty());
    }

    pub fn filter_input(&mut self, c: char)
        ensures
            final(self)@ == filtered(old(self)@, old(self)@.filter.push(c)),
    {
        self.filter.push(c);
        self.selected = 0;
    }

    pub fn filter_backspace(&mut self)
        ensures
            final(self)@ == filtered(old(self)@, erased(old(self)@.filter)),
    {
        let c = chars_of(self.filter.as_str());
        let n: usize = c.len();
        if n > 0 {
            let head = vstd::slice::slice_subrange(c.as_slice(), 0, n - 1);
            assert(head@ =~= c@.drop_last());
            self.filter = text_of(head);
        }
        self.selected = 0;
    }

    /// Stops to type a filter, and drops it where `clear`.
    pub fn stop_filter(&mut self, clear: bool)
        ensures
            final(self)@ == (if clear {
                filtered(AppModel { filter_active: false, ..old(self)@ }, Seq::empty())
            } else {
                AppModel { filter_active: false, ..old(self)@ }
            }),
    {
        self.filter_active = false;
        if clear {
            self.filter = String::new();
            self.selected = 0;
            assert(self.filter@ =~= Seq::empty());
        }
    }

    pub fn toggle_detail(&mut self)
        ensures
            final(self)@ == (AppModel {
                panel: if old(self)@.panel == PanelMode::Detail {
                    PanelMode::Closed
                } else {
                    PanelMode::Detail
                },
                ..old(self)@
            }),
    {
        self.panel = match self.panel {
            PanelMode::Detail => PanelMode::Closed,
            _ => PanelMode::Detail,
        };
    }

    pub fn toggle_tree(&mut self)
        ensures
            final(self)@ == (AppModel {
                view: match old(self)@.view {
                    screen::View::List => screen::View::Tree,
                    screen::View::Tree => screen::View::List,
                },
                ..old(self)@
            }),
    {
        self.view = match self.view {
            screen::View::List => screen::View::Tree,
            screen::View::Tree => screen::View::List,
        };
    }

    /// Opens the help, or closes it.
    pub fn toggle_help(&mut self)
        ensures
            final(self)@ == (AppModel {
                panel: if old(self)@.panel == PanelMode::Help {
                    PanelMode::Closed
                } else {
                    PanelMode::Help
                },
                ..old(self)@
            }),
    {
        self.panel = match self.panel {
            PanelMode::Help => PanelMode::Closed,
            _ => PanelMode::Help,
        };
    }

    pub fn scroll_log_up(&mut self)
        ensures
            final(self)@ == (AppModel {
                build_log_scroll: scrolled_up(
                    old(self)@.build_log_scroll,
                    old(self)@.build_queue.current_output.len(),
                ),
                ..old(self)@
            }),
    {
        let n: usize = self.build_queue.current_output.len();
        let max: usize = if n > 0 {
            n - 1
        } else {
            0
        };
        if self.build_log_scroll < max {
            self.build_log_scroll += 1;
        } else {
            self.build_log_scroll = max;
        }
    }

    pub fn scroll_log_down(&mut self)
        ensures
            final(self)@ == (AppModel {
                build_log_scroll: if old(self)@.build_log_scroll > 0 {
                    (old(self)@.build_log_scroll - 1) as usize
                } else {
                    0
                },
                ..old(self)@
            }),
    {
        if self.build_log_scroll > 0 {
            self.build_log_scroll -= 1;
        }
    }

    /// Whether something runs that a user may want to wait for.
    pub fn any_op_active(&self) -> (r: bool)
        ensures
            r == self@.busy(),
    {
        self.build_queue.active || self.template_bumping || self.git_op_active
    }

    /// How many packages have no known upstream version yet.
    pub fn unchecked_count(&self) -> (r: usize)
        ensures
            r == count_unchecked(self@.packages),
    {
        let ghost all = state_models(self.packages@);
        let mut n: usize = 0;
        let mut i: usize = 0;
        while i < self.packages.len()
            invariant
                i <= self.packages@.len(),
                n <= i,
                all == state_models(self.packages@),
                n == count_unchecked(all.take(i as int)),
            decreases self.packages@.len() - i,
        {
            proof {
                assert(all.take(i + 1).drop_last() =~= all.take(i as int));
                assert(all.take(i + 1).last() == all[i as int]);
            }
            if self.packages[i].latest.is_none() {
                n += 1;
            }
            i += 1;
        }
        assert(all.take(i as int) =~= all);
        n
    }

    /// How many packages have each status.
    pub fn status_counts(&self) -> (r: StatusCounts)
        ensures
            r.up_to_date == count_status(self@.packages, Status::UpToDate),
            r.upstream_ahead == count_status(self@.packages, Status::UpstreamAhead),
            r.build_outdated == count_status(self@.packages, Status::BuildOutdated),
            r.ready_to_install == count_status(self@.packages, Status::ReadyToInstall),
            r.build_failed == count_status(self@.packages, Status::BuildFailed),
    {
        let ghost all = state_models(self.packages@);
        let mut counts = StatusCounts {
            up_to_date: 0,
            upstream_ahead: 0,
            build_outdated: 0,
            ready_to_install: 0,
            build_failed: 0,
        };
        let mut i: usize = 0;
        while i < self.packages.len()
            invariant
                i <= self.packages@.len(),
                all == state_models(self.packages@),
                counts.up_to_date <= i,
                counts.upstream_ahead <= i,
                counts.build_outdated <= i,
                counts.ready_to_install <= i,
                counts.build_failed <= i,
                counts.up_to_date == count_status(all.take(i as int), Status::UpToDate),
                counts.upstream_ahead == count_status(all.take(i as int), Status::UpstreamAhead),
                counts.build_outdated == count_status(all.take(i as int), Status::BuildOutdated),
                counts.ready_to_install == count_status(all.take(i as int), Status::ReadyToInstall),
                counts.build_failed == count_status(all.take(i as int), Status::BuildFailed),
            decreases self.packages@.len() - i,
        {
            proof {
                assert(all.take(i + 1).drop_last() =~= all.take(i as int));
                assert(all.take(i + 1).last() == all[i as int]);
            }
            match self.packages[i].status {
                Status::UpToDate => {
                    counts.up_to_date += 1;
                },
                Status::UpstreamAhead => {
                    counts.upstream_ahead += 1;
                },
                Status::BuildOutdated => {
                    counts.build_outdated += 1;
                },
                Status::ReadyToInstall => {
                    counts.ready_to_install += 1;
                },
                Status::BuildFailed => {
                    counts.build_failed += 1;
                },
            }
            i += 1;
        }
        assert(all.take(i as int) =~= all);
        counts
    }
}

/// One line further up, as far as there are lines.
pub open spec fn scrolled_up(scroll: usize, lines: nat) -> usize {
    if scroll + 1 < lines {
        (scroll + 1) as usize
    } else if lines > 0 {
        (lines - 1) as usize
    } else {
        0
    }
}

/// How many of the packages have no known upstream version yet.
pub open spec fn count_unchecked(ps: Seq<StateModel>) -> nat
    decreases ps.len(),
{
    if ps.len() == 0 {
        0
    } else {
        count_unchecked(ps.drop_last()) + if ps.last().latest is None {
            1nat
        } else {
            0nat
        }
    }
}

/// How many of the packages have this status.
pub open spec fn count_status(ps: Seq<StateModel>, s: Status) -> nat
    decreases ps.len(),
{
    if ps.len() == 0 {
        0
    } else {
        count_status(ps.drop_last(), s) + if ps.last().status == s {
            1nat
        } else {
            0nat
        }
    }
}

/// How many packages have each status.
#[derive(Debug)]
pub struct StatusCounts {
    pub up_to_date: usize,
    pub upstream_ahead: usize,
    pub build_outdated: usize,
    pub ready_to_install: usize,
    pub build_failed: usize,
}

/// Every package is counted once.
pub proof fn law_counts_add_up(ps: Seq<StateModel>)
    ensures
        count_status(ps, Status::UpToDate) + count_status(ps, Status::UpstreamAhead)
            + count_status(ps, Status::BuildOutdated) + count_status(ps, Status::ReadyToInstall)
            + count_status(ps, Status::BuildFailed) == ps.len(),
    decreases ps.len(),
{
    if ps.len() > 0 {
        law_counts_add_up(ps.drop_last());
    }
}

/// Moving the selection and typing a filter keep the selection on a visible package.
pub proof fn law_selection_stays_visible(m: AppModel, filter: Seq<char>)
    requires
        m.wf(),
    ensures
        moved_up(m).wf(),
        moved_down(m).wf(),
        filtered(m, filter).wf(),
{
}

/// Without a filter every package is visible.
pub proof fn law_no_filter_shows_all(names: Seq<Seq<char>>)
    ensures
        visible_in(names, Seq::empty()) == Seq::new(names.len(), |i: int| i),
    decreases names.len(),
{
    if names.len() > 0 {
        law_no_filter_shows_all(names.drop_last());
    }
    assert(visible_in(names, Seq::empty()) =~= Seq::new(names.len(), |i: int| i));
}

/// The visible packages stand in the order of all packages, and are those that the filter is in.
pub proof fn law_filter_keeps_order(names: Seq<Seq<char>>, filter: Seq<char>)
    ensures
        forall|i: int, j: int|
            0 <= i < j < visible_in(names, filter).len() ==> #[trigger] visible_in(names, filter)[i]
                < #[trigger] visible_in(names, filter)[j],
        forall|k: int|
            visible_in(names, filter).contains(k) <==> 0 <= k < names.len() && is_visible(
                #[trigger] names[k],
                filter,
            ),
    decreases names.len(),
{
    let v = visible_in(names, filter);
    if names.len() > 0 {
        let front = names.drop_last();
        law_filter_keeps_order(front, filter);
        lemma_visible_in(front, filter);
        let w = visible_in(front, filter);
        assert forall|k: int|
            v.contains(k) <==> 0 <= k < names.len() && is_visible(#[trigger] names[k], filter) by {
            if k < front.len() && k >= 0 {
                assert(front[k] == names[k]);
            }
            if w.contains(k) {
                let i = choose|i: int| 0 <= i < w.len() && w[i] == k;
                assert(v[i] == k);
                assert(front[k] == names[k]);
            }
            if k == names.len() - 1 && is_visible(names[k], filter) {
                assert(v[w.len() as int] == k);
            }
            if v.contains(k) {
                let i = choose|i: int| 0 <= i < v.len() && v[i] == k;
                if i < w.len() {
                    assert(w[i] == k);
                }
            }
        }
    }
}

/// A package is visible exactly where there is no filter, or the filter stands somewhere in its
/// name, upper and lower case alike.
pub proof fn law_filter_finds_names(names: Seq<Seq<char>>, filter: Seq<char>, i: int)
    requires
        0 <= i < names.len(),
    ensures
        visible_in(names, filter).contains(i) <==> filter.len() == 0 || exists|k: int|
            0 <= k && k + lowercase(filter).len() <= lowercase(names[i]).len()
                && #[trigger] lowercase(names[i]).subrange(k, k + lowercase(filter).len())
                == lowercase(filter),
    decreases names.len(),
{
    let front = names.drop_last();
    let before = visible_in(front, filter);
    let last = names.len() - 1;
    lemma_visible_below(front, filter);
    if i < last {
        law_filter_finds_names(front, filter, i);
        assert(front[i] == names[i]);
        let all = visible_in(names, filter);
        if before.contains(i) {
            let k = choose|k: int| 0 <= k < before.len() && before[k] == i;
            assert(all[k] == i);
        }
        if all.contains(i) {
            let k = choose|k: int| 0 <= k < all.len() && all[k] == i;
            assert(before[k] == i);
        }
    } else {
        let s = lowercase(names[i]);
        let p = lowercase(filter);
        lemma_find_text(s, p);
        if exists|k: int|
            0 <= k && k + p.len() <= s.len() && #[trigger] s.subrange(k, k + p.len()) == p {
            let k = choose|k: int|
                0 <= k && k + p.len() <= s.len() && #[trigger] s.subrange(k, k + p.len()) == p;
            assert(s.skip(k).take(p.len() as int) =~= s.subrange(k, k + p.len()));
            assert(starts_with(s.skip(k), p));
        }
        if is_visible(names.last(), filter) {
            assert(visible_in(names, filter)[before.len() as int] == i);
            if filter.len() > 0 {
                let k = find_text(s, p)->0;
                assert(s.subrange(k, k + p.len()) == p);
            }
        }
    }
}

/// The places of visible packages are places of packages.
proof fn lemma_visible_below(names: Seq<Seq<char>>, filter: Seq<char>)
    ensures
        forall|x: int| visible_in(names, filter).contains(x) ==> 0 <= x < names.len(),
    decreases names.len(),
{
    if names.len() > 0 {
        let before = visible_in(names.drop_last(), filter);
        let all = visible_in(names, filter);
        lemma_visible_below(names.drop_last(), filter);
        assert forall|x: int| all.contains(x) implies 0 <= x < names.len() by {
            let k = choose|k: int| 0 <= k < all.len() && all[k] == x;
            if k < before.len() {
                assert(before.contains(before[k]));
            }
        }
    }
}

/// The selection moves by one, and stays where there is nothing further.
pub proof fn law_selection_moves_by_one(m: AppModel)
    requires
        m.wf(),
        m.selected < usize::MAX,
    ensures
        m.selected > 0 ==> moved_up(m).selected == m.selected - 1,
        m.selected == 0 ==> moved_up(m) == m,
        m.selected + 1 < m.visible().len() ==> moved_down(m).selected == m.selected + 1
            && moved_up(moved_down(m)) == m,
        m.selected + 1 >= m.visible().len() ==> moved_down(m) == m,
        moved_up(m).visible() == m.visible(),
        moved_down(m).visible() == m.visible(),
{
}

/// Each package is counted under its status, and as unchecked where no upstream version of it is
/// known.
pub proof fn law_counts_count_each(ps: Seq<StateModel>, s: StateModel, status: Status)
    ensures
        count_status(ps.push(s), status) == count_status(ps, status) + (if s.status == status {
            1nat
        } else {
            0nat
        }),
        count_unchecked(ps.push(s)) == count_unchecked(ps) + (if s.latest is None {
            1nat
        } else {
            0nat
        }),
        count_status(Seq::<StateModel>::empty(), status) == 0,
        count_unchecked(Seq::<StateModel>::empty()) == 0,
{
    assert(ps.push(s).drop_last() =~= ps);
}

/// Scrolling goes up line by line, as far as there are lines.
pub proof fn law_scrolling_stays_in_log(scroll: usize, lines: nat)
    requires
        scroll < lines <= usize::MAX,
    ensures
        scroll + 1 < lines ==> scrolled_up(scroll, lines) == scroll + 1,
        scroll + 1 == lines ==> scrolled_up(scroll, lines) == scroll,
{
}

} // verus!

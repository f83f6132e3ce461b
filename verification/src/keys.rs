//! What keys do.

use vstd::prelude::*;

use crate::actions::{
    asking_to_cancel, build_started, building_all, building_selected, bumping_all,
    bumping_selected, can_clean, cancelling, changes, checking_all, checking_selected,
    count_blocked, git_started, none_buildable_text, saying, some_buildable, stopping_all, Stops,
};
use crate::app::{erased, filtered, moved_down, moved_up, scrolled_up, App, AppModel};
use crate::cli::pairs;
use crate::git::GitOp;
use crate::package::{models, Package, PackageModel};
use crate::screen;
use crate::screen::PanelMode;
use crate::shlibs::{updates_of, UpdateModel};
use crate::text::{chars_of, texts};

verus! {

/// A key.
#[derive(Debug, Clone, Copy, PartialEq, Eq, Structural)]
pub enum Key {
    Char(char),
    Up,
    Down,
    Enter,
    Tab,
    Esc,
    Backspace,
    Other,
}

/// What has to be done after a key.
#[derive(Debug)]
pub enum Effect {
    Nothing,
    /// Load the packages again.
    Refresh,
    /// Stop what runs in the background.
    Stop(Stops),
    /// Ask for the upstream versions of these packages, whatever the cache has where `force`.
    Check { packages: Vec<Package>, force: bool },
    /// Bump these packages to these versions.
    Bump(Vec<(String, String)>),
    /// Look at what speaks against the build that is planned.
    Preflight,
    /// Build these packages.
    Build(Vec<String>),
    /// Clean up, then build what is planned.
    CleanAndBuild,
    /// Make these changes of the register of shared libraries.
    WriteShlibs(Vec<(String, String, String)>),
    /// Look up where the branches stand.
    GitStatus,
    /// Run this operation on the branches.
    Git(GitOp),
}

/// What an `Effect` holds.
pub enum EffectModel {
    Nothing,
    Refresh,
    Stop(Stops),
    Check { packages: Seq<PackageModel>, force: bool },
    Bump(Seq<(Seq<char>, Seq<char>)>),
    Preflight,
    Build(Seq<Seq<char>>),
    CleanAndBuild,
    WriteShlibs(Seq<UpdateModel>),
    GitStatus,
    Git(GitOp),
}

impl View for Effect {
    type V = EffectModel;

    open spec fn view(&self) -> EffectModel {
        match self {
            Effect::Nothing => EffectModel::Nothing,
            Effect::Refresh => EffectModel::Refresh,
            Effect::Stop(s) => EffectModel::Stop(*s),
            Effect::Check { packages, force } => EffectModel::Check {
                packages: models(packages@),
                force: *force,
            },
            Effect::Bump(v) => EffectModel::Bump(pairs(v@)),
            Effect::Preflight => EffectModel::Preflight,
            Effect::Build(v) => EffectModel::Build(texts(v@)),
            Effect::CleanAndBuild => EffectModel::CleanAndBuild,
            Effect::WriteShlibs(v) => EffectModel::WriteShlibs(updates_of(v@)),
            Effect::GitStatus => EffectModel::GitStatus,
            Effect::Git(op) => EffectModel::Git(*op),
        }
    }
}

// ---------------------------------------------------------------------------------------------
// While the user is asked something
// ---------------------------------------------------------------------------------------------

/// A key while the user is asked whether to quit.
pub open spec fn quit_pressed(m: AppModel, key: Key) -> (AppModel, EffectModel) {
    match key {
        Key::Char('y') => (
            AppModel { should_quit: true, ..stopping_all(m).0 },
            EffectModel::Stop(stopping_all(m).1),
        ),
        Key::Char('n') | Key::Esc => (
            AppModel { quit_confirm: false, ..m },
            EffectModel::Nothing,
        ),
        _ => (m, EffectModel::Nothing),
    }
}

/// A key while the user is asked whether to cancel something.
pub open spec fn cancel_pressed(m: AppModel, key: Key) -> (AppModel, EffectModel) {
    match key {
        Key::Char('y') => (cancelling(m).0, EffectModel::Stop(cancelling(m).1)),
        Key::Char('n') | Key::Esc => (
            AppModel { cancel_confirm: None, ..m },
            EffectModel::Nothing,
        ),
        _ => (m, EffectModel::Nothing),
    }
}

/// A key while the user is asked whether to build in spite of something: `c` cleans up and builds,
/// where that would help, `b` builds, `Esc` and `q` drop the build.
pub open spec fn preflight_pressed(m: AppModel, key: Key) -> (AppModel, EffectModel) {
    match key {
        Key::Char('c') => if can_clean(m.preflight) {
            (m, EffectModel::CleanAndBuild)
        } else {
            (m, EffectModel::Nothing)
        },
        Key::Char('b') => (build_started(m), EffectModel::Build(m.pending_build)),
        Key::Char('q') | Key::Esc => (
            AppModel { pending_build: Seq::empty(), preflight: Seq::empty(), ..m },
            EffectModel::Nothing,
        ),
        _ => (m, EffectModel::Nothing),
    }
}

/// A key while a filter is typed.
pub open spec fn filter_pressed(m: AppModel, key: Key) -> AppModel {
    match key {
        Key::Esc => filtered(AppModel { filter_active: false, ..m }, Seq::empty()),
        Key::Enter => AppModel { filter_active: false, ..m },
        Key::Backspace => filtered(m, erased(m.filter)),
        Key::Char(c) => filtered(m, m.filter.push(c)),
        _ => m,
    }
}

impl App {
    fn press_in_quit(&mut self, key: Key) -> (r: Effect)
        ensures
            (final(self)@, r@) == quit_pressed(old(self)@, key),
    {
        match key {
            Key::Char('y') => Effect::Stop(self.confirm_quit()),
            Key::Char('n') | Key::Esc => {
                self.deny_quit();
                Effect::Nothing
            },
            _ => Effect::Nothing,
        }
    }

    fn press_in_cancel(&mut self, key: Key) -> (r: Effect)
        ensures
            (final(self)@, r@) == cancel_pressed(old(self)@, key),
    {
        match key {
            Key::Char('y') => Effect::Stop(self.confirm_cancel()),
            Key::Char('n') | Key::Esc => {
                self.deny_cancel();
                Effect::Nothing
            },
            _ => Effect::Nothing,
        }
    }

    fn press_in_preflight(&mut self, key: Key) -> (r: Effect)
        ensures
            (final(self)@, r@) == preflight_pressed(old(self)@, key),
    {
        match key {
            Key::Char('c') => if self.cleanable() {
                Effect::CleanAndBuild
            } else {
                Effect::Nothing
            },
            Key::Char('b') => Effect::Build(self.start_build()),
            Key::Char('q') | Key::Esc => {
                self.dismiss_build();
                Effect::Nothing
            },
            _ => Effect::Nothing,
        }
    }

    fn press_in_filter(&mut self, key: Key)
        ensures
            final(self)@ == filter_pressed(old(self)@, key),
    {
        match key {
            Key::Esc => {
                self.stop_filter(true);
            },
            Key::Enter => {
                self.stop_filter(false);
            },
            Key::Backspace => {
                self.filter_backspace();
            },
            Key::Char(c) => {
                self.filter_input(c);
            },
            _ => {},
        }
    }
}

// ---------------------------------------------------------------------------------------------
// At other times
// ---------------------------------------------------------------------------------------------

/// Whether a key moves around or changes what is shown.
pub open spec fn is_moving(key: Key) -> bool {
    match key {
        Key::Char('j') | Key::Char('k') | Key::Char('/') | Key::Char('?') | Key::Char('q') => true,
        Key::Down | Key::Up | Key::Enter | Key::Tab | Key::Esc => true,
        _ => false,
    }
}

/// One step back: what runs is cancelled if the user confirms it, else the filter is dropped,
/// else the panel is closed, else the list is shown.
pub open spec fn stepped_back(m: AppModel) -> AppModel {
    if m.busy() {
        asking_to_cancel(m)
    } else if m.filter.len() > 0 {
        filtered(m, Seq::empty())
    } else if m.panel != PanelMode::Closed {
        AppModel { panel: PanelMode::Closed, ..m }
    } else {
        AppModel { view: screen::View::List, ..m }
    }
}

/// The state after a key that moves around or changes what is shown. In the build log the arrows
/// scroll.
pub open spec fn moved(m: AppModel, key: Key) -> AppModel {
    match key {
        Key::Char('q') => if m.busy() {
            AppModel { quit_confirm: true, ..m }
        } else {
            AppModel { should_quit: true, ..m }
        },
        Key::Char('/') => filtered(AppModel { filter_active: true, ..m }, Seq::empty()),
        Key::Char('j') | Key::Down => if m.panel == PanelMode::BuildLog {
            AppModel {
                build_log_scroll: if m.build_log_scroll > 0 {
                    (m.build_log_scroll - 1) as usize
                } else {
                    0
                },
                ..m
            }
        } else {
            moved_down(m)
        },
        Key::Char('k') | Key::Up => if m.panel == PanelMode::BuildLog {
            AppModel {
                build_log_scroll: scrolled_up(
                    m.build_log_scroll,
                    m.build_queue.current_output.len(),
                ),
                ..m
            }
        } else {
            moved_up(m)
        },
        Key::Enter => AppModel {
            panel: if m.panel == PanelMode::Detail {
                PanelMode::Closed
            } else {
                PanelMode::Detail
            },
            ..m
        },
        Key::Tab => AppModel {
            view: match m.view {
                screen::View::List => screen::View::Tree,
                screen::View::Tree => screen::View::List,
            },
            ..m
        },
        Key::Char('?') => AppModel {
            panel: if m.panel == PanelMode::Help {
                PanelMode::Closed
            } else {
                PanelMode::Help
            },
            ..m
        },
        Key::Esc => stepped_back(m),
        _ => m,
    }
}

/// What a key does that has something done: `u` and `U` ask for upstream versions, `t` and `T`
/// bump templates, `b` builds, `r` loads the packages again, `s` changes the register of shared
/// libraries, `g` opens the panel for operations on the branches, and there `1`, `2` and `3` run
/// them.
pub open spec fn acted(m: AppModel, key: Key) -> (AppModel, EffectModel) {
    match key {
        Key::Char('u') => (
            checking_selected(m).0,
            match checking_selected(m).1 {
                Some(p) => EffectModel::Check { packages: seq![p], force: true },
                None => EffectModel::Nothing,
            },
        ),
        Key::Char('U') => (
            checking_all(m).0,
            match checking_all(m).1 {
                Some(ps) => EffectModel::Check { packages: ps, force: false },
                None => EffectModel::Nothing,
            },
        ),
        Key::Char('t') => (
            bumping_selected(m).0,
            match bumping_selected(m).1 {
                Some(t) => EffectModel::Bump(seq![t]),
                None => EffectModel::Nothing,
            },
        ),
        Key::Char('T') => (
            bumping_all(m).0,
            if bumping_all(m).1.len() > 0 {
                EffectModel::Bump(bumping_all(m).1)
            } else {
                EffectModel::Nothing
            },
        ),
        Key::Char('b') => (
            building_selected(m).0,
            if building_selected(m).1 {
                EffectModel::Preflight
            } else {
                EffectModel::Nothing
            },
        ),
        Key::Char('r') => (m, EffectModel::Refresh),
        Key::Char('s') => if m.shlib_updates.len() > 0 {
            (m, EffectModel::WriteShlibs(changes(m.shlib_updates)))
        } else {
            (m, EffectModel::Nothing)
        },
        Key::Char('g') => if m.panel == PanelMode::GitMenu {
            (AppModel { panel: PanelMode::Closed, ..m }, EffectModel::Nothing)
        } else {
            (AppModel { panel: PanelMode::GitMenu, ..m }, EffectModel::GitStatus)
        },
        Key::Char('1') => git_pressed(m, GitOp::SyncMaster),
        Key::Char('2') => git_pressed(m, GitOp::RebaseCustom),
        Key::Char('3') => git_pressed(m, GitOp::PushCustom),
        _ => (m, EffectModel::Nothing),
    }
}

/// What the key for an operation on the branches does: it counts in their panel, while none runs.
pub open spec fn git_pressed(m: AppModel, op: GitOp) -> (AppModel, EffectModel) {
    if m.panel == PanelMode::GitMenu && !m.git_op_active {
        (git_started(m, op).0, EffectModel::Git(op))
    } else {
        (m, EffectModel::Nothing)
    }
}

impl App {
    /// One step back.
    fn step_back(&mut self)
        ensures
            final(self)@ == stepped_back(old(self)@),
    {
        if self.any_op_active() {
            self.request_cancel();
        } else if chars_of(self.filter.as_str()).len() > 0 {
            self.filter = String::new();
            self.selected = 0;
            assert(self@.filter =~= Seq::empty());
        } else if self.panel != PanelMode::Closed {
            self.panel = PanelMode::Closed;
        } else {
            self.view = screen::View::List;
        }
    }

    fn press_down(&mut self)
        ensures
            final(self)@ == moved(old(self)@, Key::Down),
    {
        if self.panel == PanelMode::BuildLog {
            self.scroll_log_down();
        } else {
            self.move_down();
        }
    }

    fn press_up(&mut self)
        ensures
            final(self)@ == moved(old(self)@, Key::Up),
    {
        if self.panel == PanelMode::BuildLog {
            self.scroll_log_up();
        } else {
            self.move_up();
        }
    }

    fn press_moving(&mut self, key: Key)
        ensures
            final(self)@ == moved(old(self)@, key),
    {
        match key {
            Key::Char('q') => {
                self.request_quit();
            },
            Key::Char('/') => {
                self.start_filter();
            },
            Key::Char('j') | Key::Down => {
                self.press_down();
            },
            Key::Char('k') | Key::Up => {
                self.press_up();
            },
            Key::Enter => {
                self.toggle_detail();
            },
            Key::Tab => {
                self.toggle_tree();
            },
            Key::Char('?') => {
                self.toggle_help();
            },
            Key::Esc => {
                self.step_back();
            },
            _ => {},
        }
    }

    fn press_check(&mut self) -> (r: Effect)
        ensures
            (final(self)@, r@) == acted(old(self)@, Key::Char('u')),
    {
        match self.check_version_selected() {
            Some(p) => {
                let mut packages: Vec<Package> = Vec::new();
                packages.push(p);
                assert(models(packages@) =~= seq![p@]);
                Effect::Check { packages, force: true }
            },
            None => Effect::Nothing,
        }
    }

    fn press_check_all(&mut self) -> (r: Effect)
        ensures
            (final(self)@, r@) == acted(old(self)@, Key::Char('U')),
    {
        match self.check_versions() {
            Some(packages) => Effect::Check { packages, force: false },
            None => Effect::Nothing,
        }
    }

    fn press_bump(&mut self) -> (r: Effect)
        ensures
            (final(self)@, r@) == acted(old(self)@, Key::Char('t')),
    {
        match self.bump_template_selected() {
            Some(t) => {
                let mut targets: Vec<(String, String)> = Vec::new();
                targets.push(t);
                assert(pairs(targets@) =~= seq![(t.0@, t.1@)]);
                Effect::Bump(targets)
            },
            None => Effect::Nothing,
        }
    }

    fn press_bump_all(&mut self) -> (r: Effect)
        ensures
            (final(self)@, r@) == acted(old(self)@, Key::Char('T')),
    {
        let targets = self.bump_template_all();
        assert(pairs(targets@).len() == targets@.len());
        if targets.len() > 0 {
            Effect::Bump(targets)
        } else {
            Effect::Nothing
        }
    }

    fn press_build(&mut self) -> (r: Effect)
        ensures
            (final(self)@, r@) == acted(old(self)@, Key::Char('b')),
    {
        if self.build_selected() {
            Effect::Preflight
        } else {
            Effect::Nothing
        }
    }

    fn press_git(&mut self, op: GitOp) -> (r: Effect)
        ensures
            (final(self)@, r@) == git_pressed(old(self)@, op),
    {
        if self.panel == PanelMode::GitMenu && !self.git_op_active {
            let _ = match op {
                GitOp::SyncMaster => self.git_sync_master(),
                GitOp::RebaseCustom => self.git_rebase_custom(),
                GitOp::PushCustom => self.git_push_custom(),
            };
            Effect::Git(op)
        } else {
            Effect::Nothing
        }
    }

    fn press_acting(&mut self, key: Key) -> (r: Effect)
        ensures
            (final(self)@, r@) == acted(old(self)@, key),
    {
        match key {
            Key::Char('u') => self.press_check(),
            Key::Char('U') => self.press_check_all(),
            Key::Char('t') => self.press_bump(),
            Key::Char('T') => self.press_bump_all(),
            Key::Char('b') => self.press_build(),
            Key::Char('r') => Effect::Refresh,
            Key::Char('s') => {
                assert(self@.shlib_updates.len() == self.shlib_updates@.len());
                if self.shlib_updates.len() > 0 {
                    Effect::WriteShlibs(self.apply_shlib_updates())
                } else {
                    Effect::Nothing
                }
            },
            Key::Char('g') => if self.open_git_menu() {
                Effect::GitStatus
            } else {
                Effect::Nothing
            },
            Key::Char('1') => self.press_git(GitOp::SyncMaster),
            Key::Char('2') => self.press_git(GitOp::RebaseCustom),
            Key::Char('3') => self.press_git(GitOp::PushCustom),
            _ => Effect::Nothing,
        }
    }
}

// ---------------------------------------------------------------------------------------------
// Any key
// ---------------------------------------------------------------------------------------------

/// Whether the user is asked nothing, types no filter and has everything built.
pub open spec fn builds_all(m: AppModel, key: Key, ctrl: bool) -> bool {
    &&& !(ctrl && key == Key::Char('c'))
    &&& !m.quit_confirm
    &&& m.cancel_confirm is None
    &&& m.preflight.len() == 0
    &&& !m.filter_active
    &&& key == Key::Char('B')
}

/// What a key does, but for the one that has everything built. With control, `c` quits
/// at once, and stops nothing that runs.
pub open spec fn pressed(m: AppModel, key: Key, ctrl: bool) -> (AppModel, EffectModel) {
    if ctrl && key == Key::Char('c') {
        (AppModel { should_quit: true, ..m }, EffectModel::Nothing)
    } else if m.quit_confirm {
        quit_pressed(m, key)
    } else if m.cancel_confirm is Some {
        cancel_pressed(m, key)
    } else if m.preflight.len() > 0 {
        preflight_pressed(m, key)
    } else if m.filter_active {
        (filter_pressed(m, key), EffectModel::Nothing)
    } else if is_moving(key) {
        (moved(m, key), EffectModel::Nothing)
    } else {
        acted(m, key)
    }
}

/// What the key does that has everything built: what can be built is, in some build order.
pub open spec fn built_all(m: AppModel, after: AppModel, effect: EffectModel) -> bool {
    if m.build_queue.active {
        after == saying(m, "Build already in progress"@) && effect == EffectModel::Nothing
    } else if !some_buildable(m) {
        &&& after == saying(m, none_buildable_text(count_blocked(m.packages, m.gcc_info)))
        &&& effect == EffectModel::Nothing
    } else {
        &&& exists|order: Seq<Seq<char>>| #[trigger]
            m.dep_graph.is_build_order(order) && after == building_all(m, order)
        &&& effect == EffectModel::Preflight
    }
}

/// Whether a key leads from one state to another, and has this done.
pub open spec fn taken_in(
    m: AppModel,
    key: Key,
    ctrl: bool,
    after: AppModel,
    effect: EffectModel,
) -> bool {
    if builds_all(m, key, ctrl) {
        built_all(m, after, effect)
    } else {
        (after, effect) == pressed(m, key, ctrl)
    }
}

fn moves(key: Key) -> (r: bool)
    ensures
        r == is_moving(key),
{
    match key {
        Key::Char('j') | Key::Char('k') | Key::Char('/') | Key::Char('?') | Key::Char('q') => true,
        Key::Down | Key::Up | Key::Enter | Key::Tab | Key::Esc => true,
        _ => false,
    }
}

impl App {
    fn press_build_all(&mut self) -> (r: Effect)
        requires
            old(self).dep_graph.wf(),
        ensures
            built_all(old(self)@, final(self)@, r@),
    {
        if self.build_all_buildable() {
            Effect::Preflight
        } else {
            Effect::Nothing
        }
    }

    /// Takes in a key: what has to be done then.
    pub fn handle_key(&mut self, key: Key, ctrl: bool) -> (r: Effect)
        requires
            old(self).dep_graph.wf(),
        ensures
            taken_in(old(self)@, key, ctrl, final(self)@, r@),
    {
        assert(self@.preflight.len() == self.preflight@.len());
        if ctrl && key == Key::Char('c') {
            self.should_quit = true;
            Effect::Nothing
        } else if self.quit_confirm {
            self.press_in_quit(key)
        } else if self.cancel_confirm.is_some() {
            self.press_in_cancel(key)
        } else if self.preflight.len() > 0 {
            self.press_in_preflight(key)
        } else if self.filter_active {
            self.press_in_filter(key);
            Effect::Nothing
        } else if key == Key::Char('B') {
            self.press_build_all()
        } else if moves(key) {
            self.press_moving(key);
            Effect::Nothing
        } else {
            self.press_acting(key)
        }
    }
}

/// Whether the second state has the packages and the filter of the first, and the selection, or
/// the first package selected.
spec fn keeps(m: AppModel, n: AppModel) -> bool {
    &&& n.dep_graph == m.dep_graph
    &&& n.selected == 0 || (n.packages == m.packages && n.filter == m.filter && (n.selected
        == m.selected || n.selected < m.visible().len()))
}

proof fn lemma_answers_keep(m: AppModel, key: Key)
    ensures
        keeps(m, quit_pressed(m, key).0),
        keeps(m, cancel_pressed(m, key).0),
        keeps(m, preflight_pressed(m, key).0),
        keeps(m, filter_pressed(m, key)),
{
}

proof fn lemma_stepped_back_keeps(m: AppModel)
    ensures
        keeps(m, stepped_back(m)),
{
}

proof fn lemma_moved_keeps(m: AppModel, key: Key)
    requires
        m.wf(),
    ensures
        keeps(m, moved(m, key)),
{
    lemma_stepped_back_keeps(m);
    match key {
        Key::Char('j') | Key::Down => {},
        Key::Char('k') | Key::Up => {},
        Key::Esc => {},
        _ => {},
    }
}

proof fn lemma_started_keep(m: AppModel, op: GitOp)
    ensures
        keeps(m, checking_selected(m).0),
        keeps(m, checking_all(m).0),
        keeps(m, bumping_selected(m).0),
        keeps(m, bumping_all(m).0),
        keeps(m, building_selected(m).0),
        keeps(m, git_started(m, op).0),
{
}

proof fn lemma_acted_keeps(m: AppModel, key: Key)
    ensures
        keeps(m, acted(m, key).0),
{
    lemma_started_keep(m, GitOp::SyncMaster);
    lemma_started_keep(m, GitOp::RebaseCustom);
    lemma_started_keep(m, GitOp::PushCustom);
}

/// No key moves the selection off a visible package, and every key leaves a graph of
/// dependencies.
pub proof fn law_keys_keep_selection_visible(
    m: AppModel,
    key: Key,
    ctrl: bool,
    after: AppModel,
    effect: EffectModel,
)
    requires
        m.wf(),
        taken_in(m, key, ctrl, after, effect),
    ensures
        after.wf(),
{
    lemma_answers_keep(m, key);
    lemma_moved_keeps(m, key);
    lemma_acted_keeps(m, key);
    assert(keeps(m, after));
}

/// While the user is asked something, a key that is no answer does nothing.
pub proof fn law_questions_wait(m: AppModel, key: Key, after: AppModel, effect: EffectModel)
    requires
        m.quit_confirm || m.cancel_confirm is Some || m.preflight.len() > 0,
        key != Key::Esc,
        m.quit_confirm || m.cancel_confirm is Some ==> key != Key::Char('y') && key != Key::Char(
            'n',
        ),
        !m.quit_confirm && m.cancel_confirm is None ==> key != Key::Char('b') && key != Key::Char(
            'q',
        ) && (key == Key::Char('c') ==> !can_clean(m.preflight)),
        taken_in(m, key, false, after, effect),
    ensures
        after == m,
        effect == EffectModel::Nothing,
{
}

/// A build that the user drops when asked about it leaves everything else as it was.
pub proof fn law_dismissed_build_does_nothing(
    m: AppModel,
    key: Key,
    after: AppModel,
    effect: EffectModel,
)
    requires
        m.preflight.len() > 0,
        !m.quit_confirm,
        m.cancel_confirm is None,
        key == Key::Esc || key == Key::Char('q'),
        taken_in(m, key, false, after, effect),
    ensures
        after == (AppModel { pending_build: Seq::empty(), preflight: Seq::empty(), ..m }),
        effect == EffectModel::Nothing,
{
}

/// What the keys do where the user is asked nothing and types no filter: each has its own done, and
/// nothing else.
pub proof fn law_keys_have_their_work_done(m: AppModel)
    requires
        !m.quit_confirm,
        m.cancel_confirm is None,
        m.preflight.len() == 0,
        !m.filter_active,
    ensures
        checking_selected(m).1 is Some ==> pressed(m, Key::Char('u'), false).1
            == (EffectModel::Check { packages: seq![checking_selected(m).1->0], force: true }),
        checking_all(m).1 is Some ==> pressed(m, Key::Char('U'), false).1 == (EffectModel::Check {
            packages: checking_all(m).1->0,
            force: false,
        }),
        bumping_selected(m).1 is Some ==> pressed(m, Key::Char('t'), false).1 == EffectModel::Bump(
            seq![bumping_selected(m).1->0],
        ),
        bumping_all(m).1.len() > 0 ==> pressed(m, Key::Char('T'), false).1 == EffectModel::Bump(
            bumping_all(m).1,
        ),
        pressed(m, Key::Char('b'), false).1 == (if building_selected(m).1 {
            EffectModel::Preflight
        } else {
            EffectModel::Nothing
        }),
        pressed(m, Key::Char('u'), false).0 == checking_selected(m).0,
        pressed(m, Key::Char('U'), false).0 == checking_all(m).0,
        pressed(m, Key::Char('t'), false).0 == bumping_selected(m).0,
        pressed(m, Key::Char('T'), false).0 == bumping_all(m).0,
        pressed(m, Key::Char('b'), false).0 == building_selected(m).0,
        pressed(m, Key::Char('r'), false) == (m, EffectModel::Refresh),
        m.shlib_updates.len() > 0 ==> pressed(m, Key::Char('s'), false) == (
            m,
            EffectModel::WriteShlibs(changes(m.shlib_updates)),
        ),
        m.shlib_updates.len() == 0 ==> pressed(m, Key::Char('s'), false) == (
            m,
            EffectModel::Nothing,
        ),
        m.panel == PanelMode::GitMenu && !m.git_op_active ==> {
            &&& pressed(m, Key::Char('1'), false).1 == EffectModel::Git(GitOp::SyncMaster)
            &&& pressed(m, Key::Char('2'), false).1 == EffectModel::Git(GitOp::RebaseCustom)
            &&& pressed(m, Key::Char('3'), false).1 == EffectModel::Git(GitOp::PushCustom)
        },
        m.panel != PanelMode::GitMenu || m.git_op_active ==> {
            &&& pressed(m, Key::Char('1'), false) == (m, EffectModel::Nothing)
            &&& pressed(m, Key::Char('2'), false) == (m, EffectModel::Nothing)
            &&& pressed(m, Key::Char('3'), false) == (m, EffectModel::Nothing)
        },
{
}

/// What the keys show where the user is asked nothing and types no filter: they move the selection,
/// open and close panels, begin a filter and quit, the last one only after a question where
/// something runs.
pub proof fn law_keys_show(m: AppModel)
    requires
        !m.quit_confirm,
        m.cancel_confirm is None,
        m.preflight.len() == 0,
        !m.filter_active,
    ensures
        m.panel != PanelMode::BuildLog ==> pressed(m, Key::Char('j'), false).0 == moved_down(m)
            && pressed(m, Key::Down, false).0 == moved_down(m) && pressed(
            m,
            Key::Char('k'),
            false,
        ).0 == moved_up(m) && pressed(m, Key::Up, false).0 == moved_up(m),
        m.busy() ==> pressed(m, Key::Char('q'), false).0 == (AppModel { quit_confirm: true, ..m }),
        !m.busy() ==> pressed(m, Key::Char('q'), false).0 == (AppModel { should_quit: true, ..m }),
        pressed(m, Key::Char('/'), false).0.filter_active,
        m.panel == PanelMode::Detail ==> pressed(m, Key::Enter, false).0.panel
            == PanelMode::Closed,
        m.panel != PanelMode::Detail ==> pressed(m, Key::Enter, false).0.panel
            == PanelMode::Detail,
        m.view == screen::View::List ==> pressed(m, Key::Tab, false).0.view == screen::View::Tree,
        m.view == screen::View::Tree ==> pressed(m, Key::Tab, false).0.view == screen::View::List,
        m.panel == PanelMode::Help ==> pressed(m, Key::Char('?'), false).0.panel
            == PanelMode::Closed,
        m.panel != PanelMode::Help ==> pressed(m, Key::Char('?'), false).0.panel
            == PanelMode::Help,
        m.panel != PanelMode::GitMenu ==> pressed(m, Key::Char('g'), false) == (
            AppModel { panel: PanelMode::GitMenu, ..m },
            EffectModel::GitStatus,
        ),
        m.busy() ==> pressed(m, Key::Esc, false).0 == asking_to_cancel(m),
        !m.busy() && m.filter.len() > 0 ==> pressed(m, Key::Esc, false).0.filter.len() == 0,
        !m.busy() && m.filter.len() == 0 && m.panel != PanelMode::Closed ==> pressed(
            m,
            Key::Esc,
            false,
        ).0.panel == PanelMode::Closed,
        !m.busy() && m.filter.len() == 0 && m.panel == PanelMode::Closed ==> pressed(
            m,
            Key::Esc,
            false,
        ).0 == (AppModel { view: screen::View::List, ..m }),
{
}

/// In the log of a build the arrows scroll, by one line and as far as there are lines; the selection
/// stays.
pub proof fn law_arrows_scroll_build_log(m: AppModel)
    requires
        !m.quit_confirm,
        m.cancel_confirm is None,
        m.preflight.len() == 0,
        !m.filter_active,
        m.panel == PanelMode::BuildLog,
        m.build_log_scroll < usize::MAX,
    ensures
        m.build_log_scroll > 0 ==> pressed(m, Key::Char('j'), false).0.build_log_scroll
            == m.build_log_scroll - 1,
        m.build_log_scroll == 0 ==> pressed(m, Key::Char('j'), false).0 == m,
        m.build_log_scroll + 1 < m.build_queue.current_output.len() ==> pressed(
            m,
            Key::Char('k'),
            false,
        ).0.build_log_scroll == m.build_log_scroll + 1,
        pressed(m, Key::Down, false) == pressed(m, Key::Char('j'), false),
        pressed(m, Key::Up, false) == pressed(m, Key::Char('k'), false),
        pressed(m, Key::Char('j'), false).0.selected == m.selected,
        pressed(m, Key::Char('k'), false).0.selected == m.selected,
{
}

/// What is typed is the filter: characters go behind it, and it is given up by `Esc` and kept by
/// `Enter`.
pub proof fn law_typing_filters(m: AppModel, c: char)
    requires
        !m.quit_confirm,
        m.cancel_confirm is None,
        m.preflight.len() == 0,
        m.filter_active,
    ensures
        pressed(m, Key::Char(c), false).0 == (AppModel {
            filter: m.filter.push(c),
            selected: 0,
            ..m
        }),
        pressed(m, Key::Char(c), false).1 == EffectModel::Nothing,
        m.filter.len() > 0 ==> pressed(m, Key::Backspace, false).0.filter == m.filter.drop_last(),
        !pressed(m, Key::Enter, false).0.filter_active,
        pressed(m, Key::Enter, false).0.filter == m.filter,
        !pressed(m, Key::Esc, false).0.filter_active,
        pressed(m, Key::Esc, false).0.filter.len() == 0,
{
}

/// A question is answered: `y` has it done, `n` and `Esc` drop it; before a build `b` builds what
/// was to be built, and `c` cleans up first where that helps.
pub proof fn law_questions_are_answered(m: AppModel)
    ensures
        m.quit_confirm ==> pressed(m, Key::Char('y'), false).0.should_quit && pressed(
            m,
            Key::Char('y'),
            false,
        ).1 == EffectModel::Stop(stopping_all(m).1) && !pressed(
            m,
            Key::Char('n'),
            false,
        ).0.quit_confirm && !pressed(m, Key::Esc, false).0.quit_confirm && pressed(
            m,
            Key::Char('n'),
            false,
        ).0.should_quit == m.should_quit,
        !m.quit_confirm && m.cancel_confirm is Some ==> pressed(m, Key::Char('y'), false) == (
            cancelling(m).0,
            EffectModel::Stop(cancelling(m).1),
        ) && pressed(m, Key::Char('n'), false) == (
            AppModel { cancel_confirm: None, ..m },
            EffectModel::Nothing,
        ),
        !m.quit_confirm && m.cancel_confirm is None && m.preflight.len() > 0 ==> pressed(
            m,
            Key::Char('b'),
            false,
        ) == (build_started(m), EffectModel::Build(m.pending_build)) && (can_clean(m.preflight)
            ==> pressed(m, Key::Char('c'), false) == (m, EffectModel::CleanAndBuild)),
{
}

/// With control, `c` quits from everywhere.
pub proof fn law_control_c_quits(m: AppModel)
    ensures
        pressed(m, Key::Char('c'), true) == (
            AppModel { should_quit: true, ..m },
            EffectModel::Nothing,
        ),
{
}

} // verus!

//! Loading the packages into the state of the program.

use vstd::prelude::*;

use crate::app::{lemma_visible_in, state_names, visible_in, App, AppModel};
use crate::building::{BuildHistory, BuildQueue, QueueModel};
use crate::dep_graph::DepGraph;
use crate::gcc::GccInfo;
use crate::git::{git_status_opt, GitStatus};
use crate::package::{
    models, state_models, status_of, Package, PackageState, StateModel, Status,
};
use crate::repo::{build_package_states, new_state};
use crate::screen;
use crate::screen::PanelMode;
use crate::shlibs::{check_soname_mismatches, mismatches, shlib_models, ShlibEntry};
use crate::table::TextMap;
use crate::text::{same_text, text_opt, texts};

verus! {

broadcast use vstd::seq_lib::group_seq_properties;

/// What was found of the packages: their templates, what is installed and built of each, which
/// are not committed, the register of shared libraries, and the libraries installed of each.
#[derive(Debug)]
pub struct Loaded {
    pub packages: Vec<Package>,
    pub installed: Vec<Option<String>>,
    pub built: Vec<Option<String>>,
    pub uncommitted: Vec<String>,
    pub shlib_map: TextMap<Vec<ShlibEntry>>,
    pub sonames: Vec<Vec<String>>,
}

impl Loaded {
    /// There is something for each package.
    pub open spec fn wf(&self) -> bool {
        &&& self.installed@.len() == self.packages@.len()
        &&& self.built@.len() == self.packages@.len()
        &&& self.sonames@.len() == self.packages@.len()
    }

    /// What is known of the package at `i`.
    pub open spec fn state(&self, i: int) -> StateModel {
        let name = self.packages@[i].name@;
        let s = new_state(
            self.packages@[i]@,
            text_opt(self.installed@[i]),
            text_opt(self.built@[i]),
            texts(self.uncommitted@).contains(name),
        );
        if self.shlib_map@.contains_key(name) {
            let entries = shlib_models(self.shlib_map@[name]@);
            StateModel {
                shlibs: entries,
                soname_mismatches: mismatches(entries, texts(self.sonames@[i]@)),
                ..s
            }
        } else {
            s
        }
    }

    /// What is known of the packages.
    pub open spec fn states(&self) -> Seq<StateModel> {
        Seq::new(self.packages@.len(), |i: int| self.state(i))
    }
}

/// The entries of `v`, copied.
fn copy_entries(v: &Vec<ShlibEntry>) -> (r: Vec<ShlibEntry>)
    ensures
        shlib_models(r@) == shlib_models(v@),
{
    let mut out: Vec<ShlibEntry> = Vec::new();
    let mut i: usize = 0;
    while i < v.len()
        invariant
            i <= v@.len(),
            shlib_models(out@) == shlib_models(v@).take(i as int),
        decreases v@.len() - i,
    {
        let ghost before = out@;
        let e = ShlibEntry { soname: v[i].soname.clone(), pkg_ver: v[i].pkg_ver.clone() };
        out.push(e);
        i += 1;
        assert(shlib_models(out@) =~= shlib_models(before).push(e@));
        assert(shlib_models(v@).take(i as int) =~= shlib_models(v@).take(i - 1).push(e@));
    }
    assert(shlib_models(v@).take(i as int) =~= shlib_models(v@));
    out
}

/// What is known of the packages.
fn load_states(l: &Loaded) -> (r: Vec<PackageState>)
    requires
        l.wf(),
    ensures
        state_models(r@) == l.states(),
{
    let mut states = build_package_states(&l.packages, &l.installed, &l.built, &l.uncommitted);
    let mut i: usize = 0;
    while i < states.len()
        invariant
            l.wf(),
            states@.len() == l.packages@.len(),
            i <= states@.len(),
            forall|j: int| 0 <= j < i ==> (#[trigger] states@[j])@ == l.state(j),
            forall|j: int|
                i <= j < states@.len() ==> (#[trigger] states@[j])@ == new_state(
                    l.packages@[j]@,
                    text_opt(l.installed@[j]),
                    text_opt(l.built@[j]),
                    texts(l.uncommitted@).contains(l.packages@[j].name@),
                ),
        decreases states@.len() - i,
    {
        let ghost before = states@;
        assert(states@[i as int]@.package.name == l.packages@[i as int].name@);
        match l.shlib_map.get(states[i].package.name.as_str()) {
            Some(entries) => {
                let shlibs = copy_entries(entries);
                let found = check_soname_mismatches(entries, &l.sonames[i]);
                states[i].shlibs = shlibs;
                states[i].soname_mismatches = found;
            },
            None => {},
        }
        assert(states@[i as int]@ == l.state(i as int));
        i += 1;
    }
    assert(state_models(states@) =~= l.states());
    states
}

/// The state of the program when it starts.
pub open spec fn initial(
    dep_graph: DepGraph,
    void_pkgs: Seq<char>,
    loaded: Loaded,
    git_status: Option<GitStatus>,
    gcc_info: GccInfo,
    history: BuildHistory,
    last_checked: Option<u64>,
) -> AppModel {
    AppModel {
        packages: loaded.states(),
        selected: 0,
        view: screen::View::List,
        dep_graph,
        void_pkgs,
        panel: PanelMode::Closed,
        checking_versions: false,
        status_msg: None,
        should_quit: false,
        build_queue: QueueModel {
            jobs: Seq::empty(),
            current_output: Seq::empty(),
            active: false,
            cancelled: false,
        },
        build_history: history@,
        git_status: git_status_opt(git_status),
        git_output: Seq::empty(),
        git_op_active: false,
        git_cancelled: false,
        git_current_op: None,
        filter: Seq::empty(),
        filter_active: false,
        shlib_map: loaded.shlib_map,
        gcc_info,
        shlib_updates: Seq::empty(),
        build_log_scroll: 0,
        pkg_last_checked: last_checked,
        template_bumping: false,
        bump_cancelled: false,
        bump_had_failure: false,
        bump_log_path: None,
        bump_log_scroll: 0,
        cancel_confirm: None,
        quit_confirm: false,
        pending_build: Seq::empty(),
        preflight: Seq::empty(),
    }
}

/// The upstream version of the package `name` that was known: that of the last one of this name.
pub open spec fn known_latest(ps: Seq<StateModel>, name: Seq<char>) -> Option<Seq<char>>
    decreases ps.len(),
{
    if ps.len() == 0 {
        None
    } else if ps.last().package.name == name && ps.last().latest is Some {
        ps.last().latest
    } else {
        known_latest(ps.drop_last(), name)
    }
}

/// Whether the last build of the package `name` failed.
pub open spec fn had_failed(ps: Seq<StateModel>, name: Seq<char>) -> bool {
    exists|i: int|
        0 <= i < ps.len() && (#[trigger] ps[i]).package.name == name && ps[i].status
            == Status::BuildFailed
}

/// A package that is loaded again: the upstream version that was known stays, and so does the
/// knowledge that its build failed.
#[verifier::opaque]
pub open spec fn reloaded(olds: Seq<StateModel>, s: StateModel) -> StateModel {
    let known = match known_latest(olds, s.package.name) {
        Some(v) => StateModel {
            latest: Some(v),
            status: status_of(s.package, s.installed, s.built, Some(v)),
            ..s
        },
        None => s,
    };
    if had_failed(olds, s.package.name) {
        StateModel { status: Status::BuildFailed, ..known }
    } else {
        known
    }
}

/// The packages that are loaded again.
pub open spec fn reloaded_states(olds: Seq<StateModel>, l: Loaded) -> Seq<StateModel> {
    Seq::new(l.packages@.len(), |i: int| reloaded(olds, l.state(i)))
}

/// A selection that stays on a visible package.
pub open spec fn clamped(selected: usize, visible: nat) -> usize {
    if selected < visible {
        selected
    } else if visible > 0 {
        (visible - 1) as usize
    } else {
        0
    }
}

/// The state of the program after the packages were loaded again.
pub open spec fn refreshed(m: AppModel, l: Loaded, dep_graph: DepGraph) -> AppModel {
    let packages = reloaded_states(m.packages, l);
    AppModel {
        packages,
        dep_graph,
        shlib_map: l.shlib_map,
        selected: clamped(m.selected, visible_in(state_names(packages), m.filter).len()),
        status_msg: Some("Refreshed"@),
        ..m
    }
}

/// The upstream version of the package `name` that was known.
fn find_latest(ps: &Vec<PackageState>, name: &str) -> (r: Option<String>)
    ensures
        text_opt(r) == known_latest(state_models(ps@), name@),
{
    let ghost all = state_models(ps@);
    let mut i: usize = ps.len();
    assert(all.take(i as int) =~= all);
    while i > 0
        invariant
            i <= ps@.len(),
            all == state_models(ps@),
            known_latest(all, name@) == known_latest(all.take(i as int), name@),
        decreases i,
    {
        i -= 1;
        proof {
            assert(all.take(i + 1).drop_last() =~= all.take(i as int));
            assert(all.take(i + 1).last() == all[i as int]);
        }
        if same_text(ps[i].package.name.as_str(), name) {
            if let Some(v) = &ps[i].latest {
                return Some(v.clone());
            }
        }
    }
    None
}

/// Whether the last build of the package `name` failed.
fn find_failed(ps: &Vec<PackageState>, name: &str) -> (r: bool)
    ensures
        r == had_failed(state_models(ps@), name@),
{
    let ghost all = state_models(ps@);
    let mut i: usize = 0;
    while i < ps.len()
        invariant
            i <= ps@.len(),
            all == state_models(ps@),
            forall|j: int|
                0 <= j < i ==> (#[trigger] all[j]).package.name != name@ || all[j].status
                    != Status::BuildFailed,
        decreases ps@.len() - i,
    {
        assert(all[i as int] == ps@[i as int]@);
        if ps[i].status == Status::BuildFailed && same_text(ps[i].package.name.as_str(), name) {
            return true;
        }
        i += 1;
    }
    false
}

/// A package that is loaded again.
fn reload(olds: &Vec<PackageState>, s: &mut PackageState)
    ensures
        final(s)@ == reloaded(state_models(olds@), old(s)@),
{
    reveal(reloaded);
    let latest = find_latest(olds, s.package.name.as_str());
    if latest.is_some() {
        s.latest = latest;
        s.status = PackageState::compute_status(&s.package, &s.installed, &s.built, &s.latest);
    }
    if find_failed(olds, s.package.name.as_str()) {
        s.status = Status::BuildFailed;
    }
}

impl App {
    /// The state of the program when it starts.
    pub fn new(
        void_pkgs: String,
        loaded: Loaded,
        git_status: Option<GitStatus>,
        gcc_info: GccInfo,
        history: BuildHistory,
        last_checked: Option<u64>,
    ) -> (r: Self)
        requires
            loaded.wf(),
        ensures
            r@ == initial(
                r.dep_graph,
                void_pkgs@,
                loaded,
                git_status,
                gcc_info,
                history,
                last_checked,
            ),
            r.dep_graph.is_graph_of(models(loaded.packages@)),
    {
        let packages = load_states(&loaded);
        let dep_graph = DepGraph::build(&loaded.packages);
        let r = App {
            packages,
            selected: 0,
            view: screen::View::List,
            dep_graph,
            void_pkgs,
            panel: PanelMode::Closed,
            checking_versions: false,
            status_msg: None,
            should_quit: false,
            build_queue: BuildQueue::new(),
            build_history: history,
            git_status,
            git_output: Vec::new(),
            git_op_active: false,
            git_cancelled: false,
            git_current_op: None,
            filter: String::new(),
            filter_active: false,
            shlib_map: loaded.shlib_map,
            gcc_info,
            shlib_updates: Vec::new(),
            build_log_scroll: 0,
            pkg_last_checked: last_checked,
            template_bumping: false,
            bump_cancelled: false,
            bump_had_failure: false,
            bump_log_path: None,
            bump_log_scroll: 0,
            cancel_confirm: None,
            quit_confirm: false,
            pending_build: Vec::new(),
            preflight: Vec::new(),
        };
        proof {
            assert(r@.git_output =~= Seq::empty());
            assert(r@.filter =~= Seq::empty());
            assert(r@.shlib_updates =~= Seq::empty());
            assert(r@.pending_build =~= Seq::empty());
            assert(r@.preflight =~= Seq::empty());
        }
        r
    }

    /// Takes in the packages that were loaded again. Where they could not be, nothing changes.
    pub fn refresh(&mut self, loaded: Option<Loaded>)
        requires
            loaded is Some ==> loaded->0.wf(),
        ensures
            match loaded {
                Some(l) => {
                    &&& final(self)@ == refreshed(old(self)@, l, final(self).dep_graph)
                    &&& final(self).dep_graph.is_graph_of(models(l.packages@))
                },
                None => *final(self) == *old(self),
            },
    {
        match loaded {
            None => {},
            Some(l) => {
                let ghost before = self@;
                let dep_graph = DepGraph::build(&l.packages);
                let mut states = load_states(&l);
                proof {
                    assert(state_models(states@).len() == l.states().len());
                    assert forall|j: int| 0 <= j < states@.len() implies (#[trigger] states@[j])@
                        == l.state(j) by {
                        assert(state_models(states@)[j] == l.states()[j]);
                    }
                }
                let mut i: usize = 0;
                while i < states.len()
                    invariant
                        *self == *old(self),
                        before == self@,
                        states@.len() == l.packages@.len(),
                        i <= states@.len(),
                        forall|j: int|
                            0 <= j < i ==> (#[trigger] states@[j])@ == reloaded(
                                before.packages,
                                l.state(j),
                            ),
                        forall|j: int|
                            i <= j < states@.len() ==> (#[trigger] states@[j])@ == l.state(j),
                    decreases states@.len() - i,
                {
                    let s = &mut states[i];
                    reload(&self.packages, s);
                    i += 1;
                }
                self.packages = states;
                self.dep_graph = dep_graph;
                self.shlib_map = l.shlib_map;
                let n: usize = self.visible_packages().len();
                proof {
                    assert(self@.packages =~= reloaded_states(before.packages, l));
                }
                if self.selected >= n {
                    self.selected = if n > 0 {
                        n - 1
                    } else {
                        0
                    };
                }
                self.status_msg = Some("Refreshed".to_owned());
            },
        }
    }

    /// Takes in the packages that were loaded again, and shows a message then. Where they could
    /// not be loaded, only the message changes.
    pub fn refresh_then(&mut self, loaded: Option<Loaded>, msg: Option<String>)
        requires
            loaded is Some ==> loaded->0.wf(),
        ensures
            match loaded {
                Some(l) => {
                    &&& final(self)@ == (AppModel {
                        status_msg: text_opt(msg),
                        ..refreshed(old(self)@, l, final(self).dep_graph)
                    })
                    &&& final(self).dep_graph.is_graph_of(models(l.packages@))
                },
                None => final(self)@ == (AppModel { status_msg: text_opt(msg), ..old(self)@ }),
            },
    {
        self.refresh(loaded);
        self.status_msg = msg;
    }
}

/// When the program starts and when the packages are loaded again, the selection is on a visible
/// package wherever there is one.
pub proof fn law_refresh_keeps_selection_visible(m: AppModel, l: Loaded, dep_graph: DepGraph)
    requires
        dep_graph.wf(),
    ensures
        refreshed(m, l, dep_graph).wf(),
{
    lemma_visible_in(state_names(reloaded_states(m.packages, l)), m.filter);
}

/// The upstream version that is known of a package, where all packages of its name agree on it.
proof fn lemma_agreed(ps: Seq<StateModel>, name: Seq<char>, latest: Option<Seq<char>>)
    requires
        forall|j: int|
            0 <= j < ps.len() && (#[trigger] ps[j]).package.name == name ==> ps[j].latest == latest,
    ensures
        known_latest(ps, name) == latest || known_latest(ps, name) is None,
        (exists|j: int| 0 <= j < ps.len() && (#[trigger] ps[j]).package.name == name)
            ==> known_latest(ps, name) == latest,
    decreases ps.len(),
{
    if ps.len() > 0 {
        let front = ps.drop_last();
        let last = ps.len() - 1;
        assert forall|j: int|
            0 <= j < front.len() && (#[trigger] front[j]).package.name == name implies front[j].latest
            == latest by {
            assert(front[j] == ps[j]);
        }
        lemma_agreed(front, name, latest);
        assert(ps[last] == ps.last());
        if exists|j: int| 0 <= j < ps.len() && (#[trigger] ps[j]).package.name == name {
            let j = choose|j: int| 0 <= j < ps.len() && (#[trigger] ps[j]).package.name == name;
            if ps[last].package.name != name {
                assert(front[j] == ps[j]);
            }
        }
    }
}

/// A package that is loaded again is the one that it was; it has the upstream version that was
/// known, and its build has failed where it had.
proof fn lemma_reloaded(olds: Seq<StateModel>, s: StateModel)
    requires
        s.latest is None,
        s.status != Status::BuildFailed,
    ensures
        reloaded(olds, s).package == s.package,
        reloaded(olds, s).latest == known_latest(olds, s.package.name),
        (reloaded(olds, s).status == Status::BuildFailed) == had_failed(olds, s.package.name),
{
    reveal(reloaded);
}

/// Only what is known of the packages of its name decides how a package is loaded again.
proof fn lemma_reload_by_name(olds: Seq<StateModel>, news: Seq<StateModel>, s: StateModel)
    requires
        known_latest(news, s.package.name) == known_latest(olds, s.package.name),
        had_failed(news, s.package.name) == had_failed(olds, s.package.name),
    ensures
        reloaded(news, s) == reloaded(olds, s),
{
    reveal(reloaded);
}

/// A package that is loaded has no known upstream version, and no build of it has failed.
proof fn lemma_loaded_state(l: Loaded, i: int)
    ensures
        l.state(i).package == l.packages@[i]@,
        l.state(i).latest is None,
        l.state(i).status != Status::BuildFailed,
{
}

/// Loading again what was just loaded changes no package.
pub proof fn law_refresh_is_idempotent(olds: Seq<StateModel>, l: Loaded)
    ensures
        reloaded_states(reloaded_states(olds, l), l) == reloaded_states(olds, l),
{
    let news = reloaded_states(olds, l);
    assert forall|i: int| 0 <= i < news.len() implies reloaded(news, l.state(i))
        == #[trigger] news[i] by {
        let s = l.state(i);
        let name = s.package.name;
        assert forall|j: int| 0 <= j < news.len() implies (#[trigger] news[j]).package == l.state(
            j,
        ).package && news[j].latest == known_latest(olds, news[j].package.name) && (
        news[j].status == Status::BuildFailed) == had_failed(olds, news[j].package.name) by {
            lemma_loaded_state(l, j);
            lemma_reloaded(olds, l.state(j));
        }
        assert(news[i].package.name == name);
        lemma_agreed(news, name, known_latest(olds, name));
        assert(had_failed(news, name) == had_failed(olds, name)) by {
            if had_failed(news, name) {
                let k = choose|k: int|
                    0 <= k < news.len() && (#[trigger] news[k]).package.name == name
                        && news[k].status == Status::BuildFailed;
                assert(had_failed(olds, news[k].package.name));
            }
        }
        lemma_reload_by_name(olds, news, s);
    }
    assert(reloaded_states(news, l) =~= news);
}

/// What was known of a package is kept when the packages are loaded again: its upstream version,
/// and that its build failed. The packages that were known have names of their own.
pub proof fn law_refresh_keeps_what_is_known(olds: Seq<StateModel>, l: Loaded, i: int, j: int)
    requires
        state_names(olds).no_duplicates(),
        0 <= i < l.packages@.len(),
        0 <= j < olds.len(),
        olds[j].package.name == l.packages@[i].name@,
    ensures
        reloaded_states(olds, l)[i].latest == olds[j].latest,
        (reloaded_states(olds, l)[i].status == Status::BuildFailed) == (olds[j].status
            == Status::BuildFailed),
{
    let name = olds[j].package.name;
    lemma_loaded_state(l, i);
    lemma_reloaded(olds, l.state(i));
    assert forall|k: int| 0 <= k < olds.len() && (#[trigger] olds[k]).package.name == name implies k
        == j by {
        assert(state_names(olds)[k] == state_names(olds)[j]);
    }
    lemma_agreed(olds, name, olds[j].latest);
}

/// What is known of a package after it was loaded again is what was loaded of it; its upstream
/// version is the one that was known before; and its status follows from these, unless its build had
/// failed.
pub proof fn law_reloaded_package(olds: Seq<StateModel>, l: Loaded, i: int)
    requires
        0 <= i < l.packages@.len(),
    ensures
        ({
            let s = reloaded_states(olds, l)[i];
            let name = l.packages@[i].name@;
            &&& s.package == l.packages@[i]@
            &&& s.installed == text_opt(l.installed@[i])
            &&& s.built == text_opt(l.built@[i])
            &&& s.uncommitted == texts(l.uncommitted@).contains(name)
            &&& s.latest == known_latest(olds, name)
            &&& had_failed(olds, name) ==> s.status == Status::BuildFailed
            &&& !had_failed(olds, name) ==> s.status == status_of(
                s.package,
                s.installed,
                s.built,
                s.latest,
            )
            &&& l.shlib_map@.contains_key(name) ==> s.shlibs == shlib_models(
                l.shlib_map@[name]@,
            ) && s.soname_mismatches == mismatches(s.shlibs, texts(l.sonames@[i]@))
            &&& !l.shlib_map@.contains_key(name) ==> s.soname_mismatches.len() == 0
        }),
{
    reveal(reloaded);
}

/// The upstream version of a package that was known is that of the last package of its name that
/// has one.
pub proof fn law_known_version(ps: Seq<StateModel>, s: StateModel, name: Seq<char>)
    ensures
        s.package.name == name && s.latest is Some ==> known_latest(ps.push(s), name) == s.latest,
        s.package.name != name || s.latest is None ==> known_latest(ps.push(s), name)
            == known_latest(ps, name),
        known_latest(Seq::<StateModel>::empty(), name) is None,
        had_failed(ps.push(s), name) <==> had_failed(ps, name) || (s.package.name == name
            && s.status == Status::BuildFailed),
{
    let all = ps.push(s);
    assert(all.drop_last() =~= ps);
    assert(all[ps.len() as int] == s);
    if had_failed(ps, name) {
        let i = choose|i: int|
            0 <= i < ps.len() && (#[trigger] ps[i]).package.name == name && ps[i].status
                == Status::BuildFailed;
        assert(all[i] == ps[i]);
    }
    if had_failed(all, name) {
        let i = choose|i: int|
            0 <= i < all.len() && (#[trigger] all[i]).package.name == name && all[i].status
                == Status::BuildFailed;
        if i < ps.len() {
            assert(ps[i] == all[i]);
        }
    }
}

/// Loading the packages again keeps what runs, what is asked and what is filtered.
pub proof fn law_refresh_keeps_the_rest(m: AppModel, l: Loaded, dep_graph: DepGraph)
    ensures
        ({
            let after = refreshed(m, l, dep_graph);
            &&& after.dep_graph == dep_graph
            &&& after.filter == m.filter
            &&& after.build_queue == m.build_queue
            &&& after.build_history == m.build_history
            &&& after.shlib_updates == m.shlib_updates
            &&& after.gcc_info == m.gcc_info
            &&& after.checking_versions == m.checking_versions
            &&& after.template_bumping == m.template_bumping
            &&& after.git_op_active == m.git_op_active
            &&& after.pkg_last_checked == m.pkg_last_checked
            &&& after.panel == m.panel
            &&& m.selected < after.visible().len() ==> after.selected == m.selected
        }),
{
}

/// When the program starts, it shows the packages that were loaded, with nothing running, asked,
/// filtered or to be done.
pub proof fn law_program_starts_idle(
    dep_graph: DepGraph,
    void_pkgs: Seq<char>,
    loaded: Loaded,
    git_status: Option<GitStatus>,
    gcc_info: GccInfo,
    history: BuildHistory,
    last_checked: Option<u64>,
    i: int,
)
    requires
        0 <= i < loaded.packages@.len(),
    ensures
        ({
            let m = initial(
                dep_graph,
                void_pkgs,
                loaded,
                git_status,
                gcc_info,
                history,
                last_checked,
            );
            &&& m.packages.len() == loaded.packages@.len()
            &&& m.packages[i].package == loaded.packages@[i]@
            &&& m.packages[i].installed == text_opt(loaded.installed@[i])
            &&& m.packages[i].built == text_opt(loaded.built@[i])
            &&& m.packages[i].latest is None
            &&& m.packages[i].status == status_of(
                loaded.packages@[i]@,
                text_opt(loaded.installed@[i]),
                text_opt(loaded.built@[i]),
                None,
            )
            &&& m.dep_graph == dep_graph
            &&& m.void_pkgs == void_pkgs
            &&& m.git_status == git_status_opt(git_status)
            &&& m.gcc_info == gcc_info
            &&& m.build_history == history@
            &&& m.pkg_last_checked == last_checked
            &&& !m.busy()
            &&& !m.checking_versions
            &&& !m.should_quit
            &&& m.filter.len() == 0
            &&& m.pending_build.len() == 0
            &&& m.shlib_updates.len() == 0
            &&& !m.quit_confirm
            &&& m.cancel_confirm is None
            &&& m.preflight.len() == 0
        }),
{
}

} // verus!

//! What the user can have done: checks, bumps, builds and operations on the branches.

use vstd::prelude::*;

use crate::app::{
    lemma_visible_in, pending_models, state_names, App, AppModel, Operation, PendingModel,
};
use crate::building::{
    clean_failure, clean_masterdir, job_names, pending_jobs, started, warning_models,
    BuildJobStatus, CleanOutcome, PreflightWarning, QueueModel, WarningModel,
};
use crate::cli::pairs;
use crate::dep_graph::{
    lemma_filter_deps_first, lemma_filter_distinct, lemma_filter_members,
};
use crate::gcc::GccInfo;
use crate::git::{git_status_opt, GitOp, GitStatus};
use crate::package::{
    models, state_models, Package, PackageModel, PackageState, StateModel, Status,
};
use crate::poll::{Followup, FollowupModel};
use crate::repo;
use crate::screen::PanelMode;
use crate::shlibs::{updates_of, UpdateModel};
use crate::text::{
    cat, cat3, copy_opt, decimal, lemma_texts_push, number, same_text, text_opt, texts,
};

verus! {

// ---------------------------------------------------------------------------------------------
// Upstream versions
// ---------------------------------------------------------------------------------------------

/// The state with a message.
pub open spec fn saying(m: AppModel, text: Seq<char>) -> AppModel {
    AppModel { status_msg: Some(text), ..m }
}

pub open spec fn package_opt(o: Option<Package>) -> Option<PackageModel> {
    match o {
        Some(p) => Some(p@),
        None => None,
    }
}

pub open spec fn packages_opt(o: Option<Vec<Package>>) -> Option<Seq<PackageModel>> {
    match o {
        Some(v) => Some(models(v@)),
        None => None,
    }
}

/// The packages of the states.
pub open spec fn state_packages(ps: Seq<StateModel>) -> Seq<PackageModel> {
    Seq::new(ps.len(), |i: int| ps[i].package)
}

/// What asking for the upstream version of the selected package does, and the package to ask for.
pub open spec fn checking_selected(m: AppModel) -> (AppModel, Option<PackageModel>) {
    if m.checking_versions {
        (saying(m, "Version check already in progress"@), None)
    } else {
        match m.chosen() {
            Some(s) => (
                AppModel {
                    checking_versions: true,
                    status_msg: Some("Checking upstream for "@ + s.package.name + "..."@),
                    ..m
                },
                Some(s.package),
            ),
            None => (m, None),
        }
    }
}

/// What asking for all upstream versions does, and the packages to ask for.
pub open spec fn checking_all(m: AppModel) -> (AppModel, Option<Seq<PackageModel>>) {
    if m.checking_versions {
        (m, None)
    } else {
        (
            AppModel {
                checking_versions: true,
                status_msg: Some("Checking upstream versions..."@),
                ..m
            },
            Some(state_packages(m.packages)),
        )
    }
}

impl App {
    /// Notes that upstream versions are asked for.
    fn begin_check(&mut self, msg: String)
        ensures
            final(self)@ == (AppModel {
                checking_versions: true,
                status_msg: Some(msg@),
                ..old(self)@
            }),
    {
        self.checking_versions = true;
        self.status_msg = Some(msg);
    }

    /// Asks for the upstream version of the selected package, whatever the cache has: the package
    /// to ask for.
    pub fn check_version_selected(&mut self) -> (r: Option<Package>)
        ensures
            (final(self)@, package_opt(r)) == checking_selected(old(self)@),
    {
        if self.checking_versions {
            self.say("Version check already in progress".to_owned());
            return None;
        }
        let package = match self.selected_package() {
            Some(s) => s.package.clone(),
            None => {
                return None;
            },
        };
        let msg = cat3("Checking upstream for ", package.name.as_str(), "...");
        self.begin_check(msg);
        Some(package)
    }

    /// Asks for the upstream versions of all packages, where the cache has none: the packages to
    /// ask for.
    pub fn check_versions(&mut self) -> (r: Option<Vec<Package>>)
        ensures
            (final(self)@, packages_opt(r)) == checking_all(old(self)@),
    {
        if self.checking_versions {
            return None;
        }
        let ghost all = state_packages(self@.packages);
        let mut out: Vec<Package> = Vec::new();
        let mut i: usize = 0;
        assert(models(out@) =~= all.take(0));
        while i < self.packages.len()
            invariant
                *self == *old(self),
                i <= self.packages@.len(),
                all == state_packages(self@.packages),
                models(out@) == all.take(i as int),
            decreases self.packages@.len() - i,
        {
            let ghost before = out@;
            let p = self.packages[i].package.clone();
            out.push(p);
            i += 1;
            assert(models(out@) =~= models(before).push(p@));
            assert(all.take(i as int) =~= all.take(i - 1).push(all[i - 1]));
        }
        assert(all.take(i as int) =~= all);
        self.begin_check("Checking upstream versions...".to_owned());
        Some(out)
    }
}

// ---------------------------------------------------------------------------------------------
// Bumps
// ---------------------------------------------------------------------------------------------

/// The state while templates are bumped.
pub open spec fn bumping(m: AppModel, text: Seq<char>) -> AppModel {
    AppModel {
        template_bumping: true,
        bump_cancelled: false,
        status_msg: Some(text),
        panel: PanelMode::BumpLog,
        ..m
    }
}

pub open spec fn pair_of(o: Option<(String, String)>) -> Option<(Seq<char>, Seq<char>)> {
    match o {
        Some((a, b)) => Some((a@, b@)),
        None => None,
    }
}

/// What bumping the selected template does, and the package and the version to bump it to: where
/// upstream is ahead of it.
pub open spec fn bumping_selected(m: AppModel) -> (AppModel, Option<(Seq<char>, Seq<char>)>) {
    if m.template_bumping {
        (saying(m, "Template bump already in progress"@), None)
    } else {
        match m.chosen() {
            None => (m, None),
            Some(s) => if s.status != Status::UpstreamAhead {
                (saying(m, s.package.name + " \u{2014} not upstream ahead"@), None)
            } else {
                match s.latest {
                    None => (
                        saying(m, "No upstream version known \u{2014} run u first"@),
                        None,
                    ),
                    Some(v) => (
                        bumping(m, "Bumping "@ + s.package.name + " to v"@ + v + "..."@),
                        Some((s.package.name, v)),
                    ),
                }
            },
        }
    }
}

/// The packages that upstream is ahead of, and the versions that it is at.
pub open spec fn bump_targets(ps: Seq<StateModel>) -> Seq<(Seq<char>, Seq<char>)>
    decreases ps.len(),
{
    if ps.len() == 0 {
        Seq::empty()
    } else {
        let before = bump_targets(ps.drop_last());
        let s = ps.last();
        if s.status == Status::UpstreamAhead && s.latest is Some {
            before.push((s.package.name, s.latest->0))
        } else {
            before
        }
    }
}

/// What bumping all templates does, and the packages and the versions to bump them to.
pub open spec fn bumping_all(m: AppModel) -> (AppModel, Seq<(Seq<char>, Seq<char>)>) {
    let targets = bump_targets(m.packages);
    if m.template_bumping {
        (saying(m, "Template bump already in progress"@), Seq::empty())
    } else if targets.len() == 0 {
        (saying(m, "No packages with upstream updates"@), Seq::empty())
    } else {
        (bumping(m, "Bumping "@ + decimal(targets.len()) + " packages..."@), targets)
    }
}

impl App {
    /// Notes that templates are bumped.
    fn begin_bump(&mut self, msg: String)
        ensures
            final(self)@ == bumping(old(self)@, msg@),
    {
        self.template_bumping = true;
        self.bump_cancelled = false;
        self.status_msg = Some(msg);
        self.panel = PanelMode::BumpLog;
    }

    /// Bumps the selected template, without building it: the package and the version.
    pub fn bump_template_selected(&mut self) -> (r: Option<(String, String)>)
        ensures
            (final(self)@, pair_of(r)) == bumping_selected(old(self)@),
    {
        if self.template_bumping {
            self.say("Template bump already in progress".to_owned());
            return None;
        }
        let (name, status, latest) = match self.selected_package() {
            Some(s) => (s.package.name.clone(), s.status, copy_opt(&s.latest)),
            None => {
                return None;
            },
        };
        if status != Status::UpstreamAhead {
            self.say(cat(name.as_str(), " \u{2014} not upstream ahead"));
            return None;
        }
        match latest {
            None => {
                self.say("No upstream version known \u{2014} run u first".to_owned());
                None
            },
            Some(v) => {
                let front = cat3("Bumping ", name.as_str(), " to v");
                self.begin_bump(cat3(front.as_str(), v.as_str(), "..."));
                Some((name, v))
            },
        }
    }

    /// The packages that upstream is ahead of, and the versions that it is at.
    fn find_bump_targets(&self) -> (r: Vec<(String, String)>)
        ensures
            pairs(r@) == bump_targets(self@.packages),
    {
        let ghost all = state_models(self.packages@);
        let mut out: Vec<(String, String)> = Vec::new();
        let mut i: usize = 0;
        assert(pairs(out@) =~= bump_targets(all.take(0)));
        while i < self.packages.len()
            invariant
                i <= self.packages@.len(),
                all == state_models(self.packages@),
                pairs(out@) == bump_targets(all.take(i as int)),
            decreases self.packages@.len() - i,
        {
            proof {
                assert(all.take(i + 1).drop_last() =~= all.take(i as int));
                assert(all.take(i + 1).last() == all[i as int]);
            }
            let s = &self.packages[i];
            if s.status == Status::UpstreamAhead {
                if let Some(v) = &s.latest {
                    let ghost before = out@;
                    let target = (s.package.name.clone(), v.clone());
                    out.push(target);
                    assert(pairs(out@) =~= pairs(before).push((target.0@, target.1@)));
                }
            }
            i += 1;
        }
        assert(all.take(i as int) =~= all);
        out
    }

    /// Bumps all templates that upstream is ahead of, without building them: the packages and the
    /// versions.
    pub fn bump_template_all(&mut self) -> (r: Vec<(String, String)>)
        ensures
            (final(self)@, pairs(r@)) == bumping_all(old(self)@),
    {
        let none: Vec<(String, String)> = Vec::new();
        assert(pairs(none@) =~= Seq::empty());
        if self.template_bumping {
            self.say("Template bump already in progress".to_owned());
            return none;
        }
        let targets = self.find_bump_targets();
        let n: usize = targets.len();
        assert(n == pairs(targets@).len());
        if n == 0 {
            self.say("No packages with upstream updates".to_owned());
            return none;
        }
        let count = number(n as u64);
        self.begin_bump(cat3("Bumping ", count.as_str(), " packages..."));
        targets
    }
}

/// The next template to bump, unless that is cancelled.
pub fn next_bump(targets: &Vec<(String, String)>, at: &mut usize, cancelled: bool) -> (r: Option<
    (String, String),
>)
    ensures
        if cancelled || *old(at) >= targets@.len() {
            r is None && *final(at) == *old(at)
        } else {
            pair_of(r) == Some(pairs(targets@)[*old(at) as int]) && *final(at) == *old(at) + 1
        },
{
    let n: usize = targets.len();
    if cancelled || *at >= n {
        None
    } else {
        let t = (targets[*at].0.clone(), targets[*at].1.clone());
        *at = *at + 1;
        Some(t)
    }
}

// ---------------------------------------------------------------------------------------------
// Builds
// ---------------------------------------------------------------------------------------------

/// Whether a package of this status can be built.
pub open spec fn is_buildable(s: Status) -> bool {
    s == Status::BuildOutdated || s == Status::BuildFailed
}

/// What is said of a package that the compiler is too old for.
pub open spec fn blocked_text(gcc: GccInfo, name: Seq<char>) -> Seq<char> {
    "Cannot build "@ + name + ": requires GCC "@ + (match gcc.shown_requirement(name) {
        Some(v) => v,
        None => Seq::empty(),
    }) + "+, system has "@ + gcc.shown_version()
}

/// Why the package is not built, if so: there is nothing to build of it, or the compiler is too
/// old for it.
pub open spec fn refusal(m: AppModel, s: StateModel) -> Option<Seq<char>> {
    let name = s.package.name;
    match s.status {
        Status::UpstreamAhead => Some(
            name + " \u{2014} upstream ahead, bump template first (t)"@,
        ),
        Status::ReadyToInstall => Some(name + " \u{2014} already built, run: xi "@ + name),
        Status::UpToDate => Some(name + " \u{2014} nothing to build"@),
        _ => if m.gcc_info.blocks(name) {
            Some(blocked_text(m.gcc_info, name))
        } else {
            None
        },
    }
}

/// What building the selected package does, and whether it is to be built.
pub open spec fn building_selected(m: AppModel) -> (AppModel, bool) {
    if m.build_queue.active {
        (saying(m, "Build already in progress"@), false)
    } else {
        match m.chosen() {
            None => (m, false),
            Some(s) => match refusal(m, s) {
                Some(text) => (saying(m, text), false),
                None => (AppModel { pending_build: seq![s.package.name], ..m }, true),
            },
        }
    }
}

/// Whether a package called `name` can be built, and the compiler is not too old for it.
pub open spec fn can_build(m: AppModel, name: Seq<char>) -> bool {
    !m.gcc_info.blocks(name) && exists|i: int|
        0 <= i < m.packages.len() && (#[trigger] m.packages[i]).package.name == name
            && is_buildable(m.packages[i].status)
}

/// How many packages could be built if the compiler were not too old for them.
pub open spec fn count_blocked(ps: Seq<StateModel>, gcc: GccInfo) -> nat
    decreases ps.len(),
{
    if ps.len() == 0 {
        0
    } else {
        count_blocked(ps.drop_last(), gcc) + if is_buildable(ps.last().status) && gcc.blocks(
            ps.last().package.name,
        ) {
            1nat
        } else {
            0nat
        }
    }
}

/// What is said where nothing can be built.
pub open spec fn none_buildable_text(blocked: nat) -> Seq<char> {
    if blocked > 0 {
        "No buildable packages ("@ + decimal(blocked) + " GCC-blocked)"@
    } else {
        "No packages to build (try 't' to bump templates)"@
    }
}

/// What is said before everything is built.
pub open spec fn building_text(count: nat, blocked: nat) -> Seq<char> {
    if blocked > 0 {
        "Building "@ + decimal(count) + " packages ("@ + decimal(blocked)
            + " GCC-blocked, skipped)..."@
    } else {
        "Building "@ + decimal(count) + " packages..."@
    }
}

/// The state when everything is to be built: what can be built, in the order `order`.
pub open spec fn building_all(m: AppModel, order: Seq<Seq<char>>) -> AppModel {
    let names = order.filter(|n: Seq<char>| can_build(m, n));
    AppModel {
        pending_build: names,
        status_msg: Some(building_text(names.len(), count_blocked(m.packages, m.gcc_info))),
        ..m
    }
}

/// Whether some package can be built.
pub open spec fn some_buildable(m: AppModel) -> bool {
    exists|n: Seq<char>| #[trigger] can_build(m, n)
}

/// Why the package is not built, if so.
fn build_refusal(s: &PackageState, gcc: &GccInfo, m: Ghost<AppModel>) -> (r: Option<String>)
    requires
        m@.gcc_info == *gcc,
    ensures
        text_opt(r) == refusal(m@, s@),
{
    let name = s.package.name.as_str();
    match s.status {
        Status::UpstreamAhead => Some(
            cat(name, " \u{2014} upstream ahead, bump template first (t)"),
        ),
        Status::ReadyToInstall => Some(cat3(name, " \u{2014} already built, run: xi ", name)),
        Status::UpToDate => Some(cat(name, " \u{2014} nothing to build")),
        _ => if gcc.is_blocked(name) {
            let req = match gcc.required_version(name) {
                Some(v) => v,
                None => String::new(),
            };
            let a = cat3("Cannot build ", name, ": requires GCC ");
            let b = cat3(a.as_str(), req.as_str(), "+, system has ");
            let have = gcc.version_string();
            let text = cat(b.as_str(), have.as_str());
            assert(text@ =~= blocked_text(*gcc, s@.package.name));
            Some(text)
        } else {
            None
        },
    }
}

impl App {
    /// Notes the packages that are built if nothing speaks against it.
    fn plan_build(&mut self, names: Vec<String>)
        ensures
            final(self)@ == (AppModel { pending_build: texts(names@), ..old(self)@ }),
    {
        self.pending_build = names;
    }

    /// Builds the selected package, where there is something to build of it: whether it is to be
    /// built.
    pub fn build_selected(&mut self) -> (r: bool)
        ensures
            (final(self)@, r) == building_selected(old(self)@),
    {
        if self.build_queue.active {
            self.say("Build already in progress".to_owned());
            return false;
        }
        let (name, why) = match self.selected_package() {
            Some(s) => (
                s.package.name.clone(),
                build_refusal(s, &self.gcc_info, Ghost(self@)),
            ),
            None => {
                return false;
            },
        };
        match why {
            Some(text) => {
                self.say(text);
                false
            },
            None => {
                let mut names: Vec<String> = Vec::new();
                names.push(name);
                assert(texts(names@) =~= seq![name@]);
                self.plan_build(names);
                true
            },
        }
    }

    /// Whether a package called `name` can be built, and the compiler is not too old for it.
    fn buildable(&self, name: &str) -> (r: bool)
        ensures
            r == can_build(self@, name@),
    {
        if self.gcc_info.is_blocked(name) {
            return false;
        }
        let mut i: usize = 0;
        while i < self.packages.len()
            invariant
                i <= self.packages@.len(),
                !self.gcc_info.blocks(name@),
                forall|j: int|
                    0 <= j < i ==> (#[trigger] self@.packages[j]).package.name != name@
                        || !is_buildable(self@.packages[j].status),
            decreases self.packages@.len() - i,
        {
            assert(self@.packages[i as int] == self.packages@[i as int]@);
            let s = &self.packages[i];
            let right = match s.status {
                Status::BuildOutdated => true,
                Status::BuildFailed => true,
                _ => false,
            };
            if right && same_text(s.package.name.as_str(), name) {
                return true;
            }
            i += 1;
        }
        false
    }

    /// Whether some package can be built.
    fn any_buildable(&self) -> (r: bool)
        ensures
            r == some_buildable(self@),
    {
        let mut i: usize = 0;
        while i < self.packages.len()
            invariant
                i <= self.packages@.len(),
                forall|j: int|
                    0 <= j < i ==> !can_build(
                        self@,
                        (#[trigger] self@.packages[j]).package.name,
                    ),
            decreases self.packages@.len() - i,
        {
            assert(self@.packages[i as int] == self.packages@[i as int]@);
            if self.buildable(self.packages[i].package.name.as_str()) {
                return true;
            }
            i += 1;
        }
        proof {
            assert forall|n: Seq<char>| !#[trigger] can_build(self@, n) by {
                if can_build(self@, n) {
                    let k = choose|k: int|
                        0 <= k < self@.packages.len() && (
                        #[trigger] self@.packages[k]).package.name == n && is_buildable(
                            self@.packages[k].status,
                        );
                    assert(!can_build(self@, self@.packages[k].package.name));
                }
            }
        }
        false
    }

    /// How many packages could be built if the compiler were not too old for them.
    fn blocked_count(&self) -> (r: usize)
        ensures
            r == count_blocked(self@.packages, self@.gcc_info),
    {
        let ghost all = state_models(self.packages@);
        let mut n: usize = 0;
        let mut i: usize = 0;
        while i < self.packages.len()
            invariant
                i <= self.packages@.len(),
                n <= i,
                all == state_models(self.packages@),
                n == count_blocked(all.take(i as int), self.gcc_info),
            decreases self.packages@.len() - i,
        {
            proof {
                assert(all.take(i + 1).drop_last() =~= all.take(i as int));
                assert(all.take(i + 1).last() == all[i as int]);
            }
            let s = &self.packages[i];
            let right = match s.status {
                Status::BuildOutdated => true,
                Status::BuildFailed => true,
                _ => false,
            };
            if right && self.gcc_info.is_blocked(s.package.name.as_str()) {
                n += 1;
            }
            i += 1;
        }
        assert(all.take(i as int) =~= all);
        n
    }

    /// The packages that can be built, in a build order.
    fn buildable_in_order(&self) -> (r: Vec<String>)
        requires
            self.dep_graph.wf(),
        ensures
            exists|order: Seq<Seq<char>>| #[trigger]
                self.dep_graph.is_build_order(order) && texts(r@) == order.filter(
                    |n: Seq<char>| can_build(self@, n),
                ),
    {
        let order = self.dep_graph.topological_sort();
        let ghost all = texts(order@);
        let ghost keep = |n: Seq<char>| can_build(self@, n);
        let mut out: Vec<String> = Vec::new();
        let mut i: usize = 0;
        proof {
            reveal(Seq::filter);
            assert(texts(out@) =~= all.take(0).filter(keep));
        }
        while i < order.len()
            invariant
                i <= order@.len(),
                all == texts(order@),
                keep == |n: Seq<char>| can_build(self@, n),
                texts(out@) == all.take(i as int).filter(keep),
            decreases order@.len() - i,
        {
            proof {
                reveal(Seq::filter);
                assert(all.take(i + 1).drop_last() =~= all.take(i as int));
                assert(all.take(i + 1).last() == all[i as int]);
                lemma_texts_push(out@, order@[i as int]);
            }
            if self.buildable(order[i].as_str()) {
                out.push(order[i].clone());
            }
            i += 1;
        }
        assert(all.take(i as int) =~= all);
        out
    }

    /// Says that nothing can be built.
    fn say_none_buildable(&mut self, blocked: usize)
        ensures
            final(self)@ == saying(old(self)@, none_buildable_text(blocked as nat)),
    {
        let text = if blocked > 0 {
            let shown = number(blocked as u64);
            cat3("No buildable packages (", shown.as_str(), " GCC-blocked)")
        } else {
            "No packages to build (try 't' to bump templates)".to_owned()
        };
        self.say(text);
    }

    /// Notes that these packages are built if nothing speaks against it, and says so.
    fn plan_builds(&mut self, names: Vec<String>, blocked: usize)
        ensures
            final(self)@ == (AppModel {
                pending_build: texts(names@),
                status_msg: Some(building_text(texts(names@).len(), blocked as nat)),
                ..old(self)@
            }),
    {
        let n: usize = names.len();
        assert(n == texts(names@).len());
        let count = number(n as u64);
        let text = if blocked > 0 {
            let shown = number(blocked as u64);
            let a = cat3("Building ", count.as_str(), " packages (");
            cat3(a.as_str(), shown.as_str(), " GCC-blocked, skipped)...")
        } else {
            cat3("Building ", count.as_str(), " packages...")
        };
        self.say(text);
        self.plan_build(names);
    }

    /// Builds all packages that can be, in a build order: whether there is something to build.
    pub fn build_all_buildable(&mut self) -> (r: bool)
        requires
            old(self).dep_graph.wf(),
        ensures
            r == (!old(self)@.build_queue.active && some_buildable(old(self)@)),
            old(self)@.build_queue.active ==> final(self)@ == saying(
                old(self)@,
                "Build already in progress"@,
            ),
            !old(self)@.build_queue.active && !some_buildable(old(self)@) ==> final(self)@
                == saying(
                old(self)@,
                none_buildable_text(count_blocked(old(self)@.packages, old(self)@.gcc_info)),
            ),
            r ==> exists|order: Seq<Seq<char>>| #[trigger]
                old(self).dep_graph.is_build_order(order) && final(self)@ == building_all(
                    old(self)@,
                    order,
                ),
    {
        if self.build_queue.active {
            self.say("Build already in progress".to_owned());
            return false;
        }
        let blocked: usize = self.blocked_count();
        if !self.any_buildable() {
            self.say_none_buildable(blocked);
            return false;
        }
        let names = self.buildable_in_order();
        self.plan_builds(names, blocked);
        true
    }
}

// ---------------------------------------------------------------------------------------------
// Starting a build
// ---------------------------------------------------------------------------------------------

/// The state when the packages that were to be built are built.
pub open spec fn build_started(m: AppModel) -> AppModel {
    AppModel {
        build_queue: started(QueueModel { jobs: pending_jobs(m.pending_build), ..m.build_queue }),
        panel: PanelMode::BuildLog,
        pending_build: Seq::empty(),
        preflight: Seq::empty(),
        ..m
    }
}

/// What the checks before a build do: the build starts where they say nothing, otherwise the user
/// is asked.
pub open spec fn build_checked(m: AppModel, warnings: Seq<WarningModel>) -> (
    AppModel,
    Seq<Seq<char>>,
) {
    if warnings.len() == 0 {
        (build_started(m), m.pending_build)
    } else {
        (AppModel { preflight: warnings, ..m }, Seq::empty())
    }
}

/// Whether cleaning up would help with one of the warnings.
pub open spec fn can_clean(warnings: Seq<WarningModel>) -> bool {
    exists|i: int| 0 <= i < warnings.len() && (#[trigger] warnings[i]).cleanable
}

/// What is said of cleaning up.
pub open spec fn clean_text(outcome: CleanOutcome) -> Seq<char> {
    match outcome {
        CleanOutcome::Cleaned => "Cleaned masterdir build state"@,
        CleanOutcome::Failed(e) => clean_failure(e@),
        CleanOutcome::NotRun(e) => "Clean failed: "@ + e@,
    }
}

impl App {
    /// Builds the packages that were to be built: their names.
    pub fn start_build(&mut self) -> (names: Vec<String>)
        ensures
            final(self)@ == build_started(old(self)@),
            texts(names@) == old(self)@.pending_build,
    {
        self.build_queue.set_jobs(&self.pending_build);
        let names = self.build_queue.start();
        self.panel = PanelMode::BuildLog;
        self.pending_build = Vec::new();
        self.preflight = Vec::new();
        proof {
            assert(job_names(pending_jobs(old(self)@.pending_build)) =~= old(self)@.pending_build);
            assert(self@.pending_build =~= Seq::empty());
            assert(self@.preflight =~= Seq::empty());
        }
        names
    }

    /// Takes in the checks before a build: the packages to build, none where the user is asked.
    pub fn begin_build(&mut self, warnings: Vec<PreflightWarning>) -> (names: Vec<String>)
        ensures
            (final(self)@, texts(names@)) == build_checked(
                old(self)@,
                warning_models(warnings@),
            ),
    {
        assert(warning_models(warnings@).len() == warnings@.len());
        if warnings.len() == 0 {
            return self.start_build();
        }
        self.preflight = warnings;
        let none: Vec<String> = Vec::new();
        assert(texts(none@) =~= Seq::empty());
        none
    }

    /// Whether cleaning up would help with one of the warnings.
    pub fn cleanable(&self) -> (r: bool)
        ensures
            r == can_clean(self@.preflight),
    {
        let mut i: usize = 0;
        while i < self.preflight.len()
            invariant
                i <= self.preflight@.len(),
                forall|j: int| 0 <= j < i ==> !(#[trigger] self@.preflight[j]).cleanable,
            decreases self.preflight@.len() - i,
        {
            assert(self@.preflight[i as int] == self.preflight@[i as int]@);
            if self.preflight[i].cleanable {
                return true;
            }
            i += 1;
        }
        false
    }

    /// Takes in what came of cleaning up, and builds the packages that were to be built: their
    /// names.
    pub fn build_cleaned(&mut self, outcome: &CleanOutcome) -> (names: Vec<String>)
        ensures
            final(self)@ == build_started(saying(old(self)@, clean_text(*outcome))),
            texts(names@) == old(self)@.pending_build,
    {
        self.say(clean_masterdir(outcome));
        self.start_build()
    }

    /// Drops the build that the user was asked about.
    pub fn dismiss_build(&mut self)
        ensures
            final(self)@ == (AppModel {
                pending_build: Seq::empty(),
                preflight: Seq::empty(),
                ..old(self)@
            }),
    {
        self.pending_build = Vec::new();
        self.preflight = Vec::new();
        assert(self@.pending_build =~= Seq::empty());
        assert(self@.preflight =~= Seq::empty());
    }
}

// ---------------------------------------------------------------------------------------------
// The register of shared libraries, and built packages
// ---------------------------------------------------------------------------------------------

/// The changes that can be made, without the packages that they are for.
pub open spec fn changes(us: Seq<PendingModel>) -> Seq<UpdateModel> {
    Seq::new(
        us.len(),
        |i: int|
            UpdateModel {
                old_soname: us[i].old_soname,
                new_soname: us[i].new_soname,
                new_pkg_ver: us[i].new_pkg_ver,
            },
    )
}

/// What comes of writing the register, and what has to be done then.
pub open spec fn register_written(m: AppModel, error: Option<Seq<char>>) -> (
    AppModel,
    FollowupModel,
) {
    match error {
        None => (
            AppModel { shlib_updates: Seq::empty(), ..m },
            FollowupModel::RefreshThen(
                Some("Updated "@ + decimal(m.shlib_updates.len()) + " shlib entries"@),
            ),
        ),
        Some(e) => (
            saying(m, "Failed to write common/shlibs: "@ + e),
            FollowupModel::Nothing,
        ),
    }
}

/// What is said when built packages were removed.
pub open spec fn removed_text(deleted: nat, freed: Seq<char>, all: bool) -> Seq<char> {
    if all {
        if deleted > 0 {
            "Removed "@ + decimal(deleted) + " package(s), freed "@ + freed
        } else {
            "No built packages to remove"@
        }
    } else {
        if deleted > 0 {
            "Cleaned "@ + decimal(deleted) + " old package(s), freed "@ + freed
        } else {
            "Nothing to clean \u{2014} already at one version per package"@
        }
    }
}

/// What is said when built packages were removed.
pub fn removed_message(deleted: usize, freed: &str, all: bool) -> (r: String)
    ensures
        r@ == removed_text(deleted as nat, freed@, all),
{
    let count = number(deleted as u64);
    if all {
        if deleted > 0 {
            let a = cat3("Removed ", count.as_str(), " package(s), freed ");
            cat(a.as_str(), freed)
        } else {
            "No built packages to remove".to_owned()
        }
    } else {
        if deleted > 0 {
            let a = cat3("Cleaned ", count.as_str(), " old package(s), freed ");
            cat(a.as_str(), freed)
        } else {
            "Nothing to clean \u{2014} already at one version per package".to_owned()
        }
    }
}

impl App {
    /// The changes of the register of shared libraries that can be made.
    pub fn apply_shlib_updates(&self) -> (r: Vec<(String, String, String)>)
        ensures
            updates_of(r@) == changes(self@.shlib_updates),
    {
        let ghost goal = changes(pending_models(self.shlib_updates@));
        let mut out: Vec<(String, String, String)> = Vec::new();
        let mut i: usize = 0;
        assert(updates_of(out@) =~= goal.take(0));
        while i < self.shlib_updates.len()
            invariant
                i <= self.shlib_updates@.len(),
                goal == changes(pending_models(self.shlib_updates@)),
                updates_of(out@) == goal.take(i as int),
            decreases self.shlib_updates@.len() - i,
        {
            let ghost before = out@;
            let u = &self.shlib_updates[i];
            out.push((u.1.clone(), u.2.clone(), u.3.clone()));
            i += 1;
            assert(updates_of(out@) =~= updates_of(before).push(goal[i - 1]));
            assert(goal.take(i as int) =~= goal.take(i - 1).push(goal[i - 1]));
        }
        assert(goal.take(i as int) =~= goal);
        out
    }

    /// Takes in whether the register could be written: what has to be done then.
    pub fn shlibs_written(&mut self, error: &Option<String>) -> (r: Followup)
        ensures
            (final(self)@, r@) == register_written(old(self)@, text_opt(*error)),
    {
        match error {
            None => {
                let n: usize = self.shlib_updates.len();
                assert(n == self@.shlib_updates.len());
                let count = number(n as u64);
                self.shlib_updates = Vec::new();
                assert(self@.shlib_updates =~= Seq::empty());
                Followup::RefreshThen(
                    Some(cat3("Updated ", count.as_str(), " shlib entries")),
                )
            },
            Some(e) => {
                self.say(cat("Failed to write common/shlibs: ", e.as_str()));
                Followup::Nothing
            },
        }
    }

    /// The names of the packages.
    pub fn package_names(&self) -> (r: Vec<String>)
        ensures
            texts(r@) == state_names(self@.packages),
    {
        let ghost all = state_names(state_models(self.packages@));
        let mut out: Vec<String> = Vec::new();
        let mut i: usize = 0;
        assert(texts(out@) =~= all.take(0));
        while i < self.packages.len()
            invariant
                i <= self.packages@.len(),
                all == state_names(state_models(self.packages@)),
                texts(out@) == all.take(i as int),
            decreases self.packages@.len() - i,
        {
            proof {
                lemma_texts_push(out@, self.packages@[i as int].package.name);
            }
            out.push(self.packages[i].package.name.clone());
            i += 1;
            assert(all.take(i as int) =~= all.take(i - 1).push(all[i - 1]));
        }
        assert(all.take(i as int) =~= all);
        out
    }

    /// Which of the files are builds of the packages that a later build has replaced.
    pub fn clean_old_packages(&self, files: &Vec<String>) -> (r: Vec<bool>)
        ensures
            r@.len() == files@.len(),
            forall|i: int|
                0 <= i < r@.len() ==> #[trigger] r@[i] == repo::is_stale(
                    texts(files@),
                    texts(files@)[i],
                    state_names(self@.packages),
                ),
    {
        repo::clean_old_packages(files, &self.package_names())
    }

    /// Which of the files are builds of the packages.
    pub fn clean_all_packages(&self, files: &Vec<String>) -> (r: Vec<bool>)
        ensures
            r@.len() == files@.len(),
            forall|i: int|
                0 <= i < r@.len() ==> #[trigger] r@[i] == repo::is_build_of(
                    texts(files@)[i],
                    state_names(self@.packages),
                ),
    {
        repo::clean_all_packages(files, &self.package_names())
    }
}

// ---------------------------------------------------------------------------------------------
// Cancelling and quitting
// ---------------------------------------------------------------------------------------------

/// What runs in the background and has to be stopped, and whether a rebase has to be aborted.
#[derive(Debug, Clone, Copy, PartialEq, Eq, Structural)]
pub struct Stops {
    pub build: bool,
    pub bump: bool,
    pub git: bool,
    pub abort_rebase: bool,
}

/// The state in which the user is asked whether to cancel what runs: a build first, then a bump,
/// then an operation on the branches.
pub open spec fn asking_to_cancel(m: AppModel) -> AppModel {
    if m.build_queue.active {
        AppModel { cancel_confirm: Some(Operation::Build), ..m }
    } else if m.template_bumping {
        AppModel { cancel_confirm: Some(Operation::Bump), ..m }
    } else if m.git_op_active {
        AppModel { cancel_confirm: Some(Operation::Git), ..m }
    } else {
        m
    }
}

/// What cancelling does that the user was asked about, and what has to be stopped.
pub open spec fn cancelling(m: AppModel) -> (AppModel, Stops) {
    let none = Stops { build: false, bump: false, git: false, abort_rebase: false };
    match m.cancel_confirm {
        Some(Operation::Build) => (
            AppModel {
                build_queue: QueueModel { cancelled: true, ..m.build_queue },
                status_msg: Some("Cancelling build..."@),
                cancel_confirm: None,
                ..m
            },
            Stops { build: true, ..none },
        ),
        Some(Operation::Bump) => (
            AppModel {
                bump_cancelled: true,
                status_msg: Some("Cancelling bump..."@),
                cancel_confirm: None,
                ..m
            },
            Stops { bump: true, ..none },
        ),
        Some(Operation::Git) => (
            AppModel {
                git_cancelled: true,
                status_msg: Some("Cancelling git operation..."@),
                cancel_confirm: None,
                ..m
            },
            Stops { git: true, ..none },
        ),
        None => (AppModel { cancel_confirm: None, ..m }, none),
    }
}

/// What stopping everything does, and what has to be stopped. A rebase that runs is aborted.
pub open spec fn stopping_all(m: AppModel) -> (AppModel, Stops) {
    (
        AppModel {
            build_queue: QueueModel {
                cancelled: m.build_queue.cancelled || m.build_queue.active,
                ..m.build_queue
            },
            bump_cancelled: m.bump_cancelled || m.template_bumping,
            git_cancelled: m.git_cancelled || m.git_op_active,
            ..m
        },
        Stops {
            build: m.build_queue.active,
            bump: m.template_bumping,
            git: m.git_op_active,
            abort_rebase: m.git_op_active && m.git_current_op == Some(GitOp::RebaseCustom),
        },
    )
}

impl App {
    /// Asks whether to cancel what runs.
    pub fn request_cancel(&mut self)
        ensures
            final(self)@ == asking_to_cancel(old(self)@),
    {
        if self.build_queue.active {
            self.cancel_confirm = Some(Operation::Build);
        } else if self.template_bumping {
            self.cancel_confirm = Some(Operation::Bump);
        } else if self.git_op_active {
            self.cancel_confirm = Some(Operation::Git);
        }
    }

    /// Notes that the build is cancelled.
    fn cancel_build(&mut self)
        ensures
            final(self)@ == (AppModel {
                build_queue: QueueModel { cancelled: true, ..old(self)@.build_queue },
                status_msg: Some("Cancelling build..."@),
                cancel_confirm: None,
                ..old(self)@
            }),
    {
        self.build_queue.cancelled = true;
        self.status_msg = Some("Cancelling build...".to_owned());
        self.cancel_confirm = None;
    }

    /// Notes that the bump is cancelled.
    fn cancel_bump(&mut self)
        ensures
            final(self)@ == (AppModel {
                bump_cancelled: true,
                status_msg: Some("Cancelling bump..."@),
                cancel_confirm: None,
                ..old(self)@
            }),
    {
        self.bump_cancelled = true;
        self.status_msg = Some("Cancelling bump...".to_owned());
        self.cancel_confirm = None;
    }

    /// Notes that the operation on the branches is cancelled.
    fn cancel_git(&mut self)
        ensures
            final(self)@ == (AppModel {
                git_cancelled: true,
                status_msg: Some("Cancelling git operation..."@),
                cancel_confirm: None,
                ..old(self)@
            }),
    {
        self.git_cancelled = true;
        self.status_msg = Some("Cancelling git operation...".to_owned());
        self.cancel_confirm = None;
    }

    /// Cancels what the user was asked about: what has to be stopped.
    pub fn confirm_cancel(&mut self) -> (r: Stops)
        ensures
            (final(self)@, r) == cancelling(old(self)@),
    {
        match self.cancel_confirm {
            Some(Operation::Build) => {
                self.cancel_build();
                Stops { build: true, bump: false, git: false, abort_rebase: false }
            },
            Some(Operation::Bump) => {
                self.cancel_bump();
                Stops { build: false, bump: true, git: false, abort_rebase: false }
            },
            Some(Operation::Git) => {
                self.cancel_git();
                Stops { build: false, bump: false, git: true, abort_rebase: false }
            },
            None => Stops { build: false, bump: false, git: false, abort_rebase: false },
        }
    }

    pub fn deny_cancel(&mut self)
        ensures
            final(self)@ == (AppModel { cancel_confirm: None, ..old(self)@ }),
    {
        self.cancel_confirm = None;
    }

    /// Quits, or asks whether to where something runs.
    pub fn request_quit(&mut self)
        ensures
            final(self)@ == (if old(self)@.busy() {
                AppModel { quit_confirm: true, ..old(self)@ }
            } else {
                AppModel { should_quit: true, ..old(self)@ }
            }),
    {
        if self.any_op_active() {
            self.quit_confirm = true;
        } else {
            self.should_quit = true;
        }
    }

    /// Stops everything and quits: what has to be stopped.
    pub fn confirm_quit(&mut self) -> (r: Stops)
        ensures
            final(self)@ == (AppModel { should_quit: true, ..stopping_all(old(self)@).0 }),
            r == stopping_all(old(self)@).1,
    {
        let stops = self.kill_all();
        self.should_quit = true;
        stops
    }

    pub fn deny_quit(&mut self)
        ensures
            final(self)@ == (AppModel { quit_confirm: false, ..old(self)@ }),
    {
        self.quit_confirm = false;
    }

    /// Stops everything: what has to be stopped.
    pub fn kill_all(&mut self) -> (r: Stops)
        ensures
            (final(self)@, r) == stopping_all(old(self)@),
    {
        let rebasing = match self.git_current_op {
            Some(GitOp::RebaseCustom) => true,
            _ => false,
        };
        let stops = Stops {
            build: self.build_queue.active,
            bump: self.template_bumping,
            git: self.git_op_active,
            abort_rebase: self.git_op_active && rebasing,
        };
        self.build_queue.cancelled = self.build_queue.cancelled || stops.build;
        self.bump_cancelled = self.bump_cancelled || stops.bump;
        self.git_cancelled = self.git_cancelled || stops.git;
        stops
    }
}

// ---------------------------------------------------------------------------------------------
// Git
// ---------------------------------------------------------------------------------------------

/// What starting an operation on the branches does, and whether it starts.
pub open spec fn git_started(m: AppModel, op: GitOp) -> (AppModel, bool) {
    if m.git_op_active {
        (saying(m, "Git operation already in progress"@), false)
    } else {
        (
            AppModel {
                git_op_active: true,
                git_current_op: Some(op),
                git_cancelled: false,
                git_output: Seq::empty(),
                ..m
            },
            true,
        )
    }
}

impl App {
    /// Takes in where the branches stand.
    pub fn refresh_git_status(&mut self, status: Option<GitStatus>)
        ensures
            final(self)@ == (AppModel { git_status: git_status_opt(status), ..old(self)@ }),
    {
        self.git_status = status;
    }

    /// Opens the panel for operations on the branches, or closes it: whether it has to be looked
    /// up where the branches stand.
    pub fn open_git_menu(&mut self) -> (r: bool)
        ensures
            r == (old(self)@.panel != PanelMode::GitMenu),
            final(self)@ == (AppModel {
                panel: if r {
                    PanelMode::GitMenu
                } else {
                    PanelMode::Closed
                },
                ..old(self)@
            }),
    {
        if self.panel == PanelMode::GitMenu {
            self.panel = PanelMode::Closed;
            false
        } else {
            self.panel = PanelMode::GitMenu;
            true
        }
    }

    /// Starts an operation on the branches: whether it starts.
    fn start_git_op(&mut self, op: GitOp) -> (r: bool)
        ensures
            (final(self)@, r) == git_started(old(self)@, op),
    {
        if self.git_op_active {
            self.say("Git operation already in progress".to_owned());
            return false;
        }
        self.git_op_active = true;
        self.git_current_op = Some(op);
        self.git_cancelled = false;
        self.git_output = Vec::new();
        assert(self@.git_output =~= Seq::empty());
        true
    }

    pub fn git_sync_master(&mut self) -> (r: bool)
        ensures
            (final(self)@, r) == git_started(old(self)@, GitOp::SyncMaster),
    {
        self.start_git_op(GitOp::SyncMaster)
    }

    pub fn git_rebase_custom(&mut self) -> (r: bool)
        ensures
            (final(self)@, r) == git_started(old(self)@, GitOp::RebaseCustom),
    {
        self.start_git_op(GitOp::RebaseCustom)
    }

    pub fn git_push_custom(&mut self) -> (r: bool)
        ensures
            (final(self)@, r) == git_started(old(self)@, GitOp::PushCustom),
    {
        self.start_git_op(GitOp::PushCustom)
    }
}

// ---------------------------------------------------------------------------------------------
// What is built
// ---------------------------------------------------------------------------------------------

/// When everything is built, only packages are that can be, and that the compiler is not too old
/// for; each is built once, and after those that it depends on.
pub proof fn law_builds_dependencies_first(m: AppModel, order: Seq<Seq<char>>)
    requires
        m.dep_graph.is_build_order(order),
    ensures
        forall|k: int|
            0 <= k < building_all(m, order).pending_build.len() ==> can_build(
                m,
                #[trigger] building_all(m, order).pending_build[k],
            ),
        building_all(m, order).pending_build.no_duplicates(),
        forall|k: int, b: Seq<char>|
            0 <= k < building_all(m, order).pending_build.len() && #[trigger] m.dep_graph.depends_on(
                building_all(m, order).pending_build[k],
                b,
            ) && can_build(m, b) ==> building_all(m, order).pending_build.take(k).contains(b),
{
    broadcast use vstd::seq_lib::group_seq_properties;

    let keep = |n: Seq<char>| can_build(m, n);
    let kept = order.filter(keep);
    lemma_filter_deps_first(m.dep_graph, order, keep);
    lemma_filter_distinct(order, keep);
    assert forall|k: int| 0 <= k < kept.len() implies can_build(m, #[trigger] kept[k]) by {
        order.lemma_filter_pred(keep, k);
    }
}

/// A package is not built that the compiler is too old for, or that needs no build: neither when it
/// is selected nor when everything is built.
pub proof fn law_blocked_is_not_built(m: AppModel, order: Seq<Seq<char>>, name: Seq<char>)
    requires
        !can_build(m, name),
    ensures
        building_selected(m).1 ==> !building_selected(m).0.pending_build.contains(name),
        !building_all(m, order).pending_build.contains(name),
{
    let keep = |n: Seq<char>| can_build(m, n);
    let kept = order.filter(keep);
    if kept.contains(name) {
        let k = choose|k: int| 0 <= k < kept.len() && kept[k] == name;
        order.lemma_filter_pred(keep, k);
    }
    match m.chosen() {
        Some(s) => {
            if building_selected(m).1 {
                lemma_visible_in(state_names(m.packages), m.filter);
                let k = m.visible()[m.selected as int];
                assert(m.packages[k].package.name == s.package.name);
            }
        },
        None => {},
    }
}

/// A build that something speaks against does not start unless the user has it.
pub proof fn law_warned_build_waits(m: AppModel, warnings: Seq<WarningModel>)
    requires
        warnings.len() > 0,
    ensures
        build_checked(m, warnings).1.len() == 0,
        build_checked(m, warnings).0.build_queue == m.build_queue,
        build_checked(m, warnings).0.pending_build == m.pending_build,
{
}

/// What runs is never started a second time.
pub proof fn law_nothing_runs_twice(m: AppModel, op: GitOp)
    ensures
        m.checking_versions ==> checking_selected(m).1 is None && checking_all(m).1 is None,
        m.template_bumping ==> bumping_selected(m).1 is None && bumping_all(m).1.len() == 0,
        m.build_queue.active ==> !building_selected(m).1,
        m.git_op_active ==> !git_started(m, op).1,
{
}

/// When everything is built, a package of the order is built exactly where one of its name needs a
/// build or had one that failed, and the compiler is not too old for it.
pub proof fn law_build_all_takes_all(m: AppModel, order: Seq<Seq<char>>, name: Seq<char>)
    ensures
        building_all(m, order).pending_build.contains(name) <==> order.contains(name)
            && !m.gcc_info.blocks(name) && exists|i: int|
            0 <= i < m.packages.len() && (#[trigger] m.packages[i]).package.name == name && (
            m.packages[i].status == Status::BuildOutdated || m.packages[i].status
                == Status::BuildFailed),
{
    let keep = |n: Seq<char>| can_build(m, n);
    lemma_filter_members(order, keep, name);
    if can_build(m, name) {
        let i = choose|i: int|
            0 <= i < m.packages.len() && (#[trigger] m.packages[i]).package.name == name
                && is_buildable(m.packages[i].status);
        assert(m.packages[i].package.name == name);
    }
}

/// The selected package is built exactly where nothing is built already, it needs a build or had one
/// that failed, and the compiler is not too old for it; then it alone is.
pub proof fn law_build_selected(m: AppModel)
    ensures
        ({
            let (after, builds) = building_selected(m);
            &&& builds <==> !m.build_queue.active && m.chosen() is Some && (m.chosen()->0.status
                == Status::BuildOutdated || m.chosen()->0.status == Status::BuildFailed)
                && !m.gcc_info.blocks(m.chosen()->0.package.name)
            &&& builds ==> after == (AppModel {
                pending_build: seq![m.chosen()->0.package.name],
                ..m
            })
            &&& !builds ==> after == (AppModel { status_msg: after.status_msg, ..m })
        }),
{
}

/// A build that starts has a job for each package that was to be built, in order, and none of them
/// has begun.
pub proof fn law_started_build_has_jobs(m: AppModel, i: int)
    requires
        0 <= i < m.pending_build.len(),
    ensures
        build_started(m).build_queue.active,
        !build_started(m).build_queue.cancelled,
        build_started(m).build_queue.jobs.len() == m.pending_build.len(),
        build_started(m).build_queue.jobs[i].name == m.pending_build[i],
        build_started(m).build_queue.jobs[i].status == BuildJobStatus::Pending,
        build_started(m).build_queue.current_output.len() == 0,
        build_started(m).pending_build.len() == 0,
        build_started(m).preflight.len() == 0,
        build_checked(m, Seq::empty()) == (build_started(m), m.pending_build),
{
}

/// The selected template is bumped exactly where no bump runs and upstream is ahead of it at a known
/// version: to that version.
pub proof fn law_bump_selected(m: AppModel)
    ensures
        ({
            let (after, target) = bumping_selected(m);
            &&& target is Some <==> !m.template_bumping && m.chosen() is Some && m.chosen()->0.status
                == Status::UpstreamAhead && m.chosen()->0.latest is Some
            &&& target is Some ==> target->0 == (
                m.chosen()->0.package.name,
                m.chosen()->0.latest->0,
            ) && after.template_bumping && !after.bump_cancelled
            &&& target is None ==> after == (AppModel { status_msg: after.status_msg, ..m })
        }),
{
}

/// A bump of all templates takes each package that upstream is ahead of, to the version that it is
/// at, in order, and no other.
pub proof fn law_bump_all_targets(ps: Seq<StateModel>, s: StateModel, m: AppModel)
    ensures
        s.status == Status::UpstreamAhead && s.latest is Some ==> bump_targets(ps.push(s))
            == bump_targets(ps).push((s.package.name, s.latest->0)),
        !(s.status == Status::UpstreamAhead && s.latest is Some) ==> bump_targets(ps.push(s))
            == bump_targets(ps),
        bump_targets(Seq::<StateModel>::empty()).len() == 0,
        !m.template_bumping ==> bumping_all(m).1 == bump_targets(m.packages),
        bumping_all(m).0.template_bumping <==> m.template_bumping || bump_targets(m.packages).len()
            > 0,
{
    assert(ps.push(s).drop_last() =~= ps);
    if !m.template_bumping && bump_targets(m.packages).len() == 0 {
        assert(bumping_all(m).1 =~= bump_targets(m.packages));
    }
}

/// A check asks for the package that is selected, or for every package, in order; while one runs, no
/// other begins.
pub proof fn law_check_asks_for_packages(m: AppModel, i: int)
    requires
        0 <= i < m.packages.len(),
        !m.checking_versions,
    ensures
        m.chosen() is Some ==> checking_selected(m).1 == Some(m.chosen()->0.package)
            && checking_selected(m).0.checking_versions,
        m.chosen() is None ==> checking_selected(m) == (m, None::<PackageModel>),
        checking_all(m).1 is Some,
        checking_all(m).0.checking_versions,
        checking_all(m).1->0.len() == m.packages.len(),
        checking_all(m).1->0[i] == m.packages[i].package,
{
}

/// Every change that packages call for is written to the register, in order; once that is done none
/// is left, and where it could not be done all of them are.
pub proof fn law_changes_are_written(m: AppModel, i: int, error: Seq<char>)
    requires
        0 <= i < m.shlib_updates.len(),
    ensures
        changes(m.shlib_updates).len() == m.shlib_updates.len(),
        changes(m.shlib_updates)[i].old_soname == m.shlib_updates[i].old_soname,
        changes(m.shlib_updates)[i].new_soname == m.shlib_updates[i].new_soname,
        changes(m.shlib_updates)[i].new_pkg_ver == m.shlib_updates[i].new_pkg_ver,
        register_written(m, None).0.shlib_updates.len() == 0,
        register_written(m, None).1 is RefreshThen,
        register_written(m, Some(error)).0.shlib_updates == m.shlib_updates,
        register_written(m, Some(error)).1 == FollowupModel::Nothing,
{
}

/// The user is asked about one thing that runs, a build first, then a bump, then an operation on the
/// branches; and once that is confirmed it is stopped, and nothing else.
pub proof fn law_cancelling_stops_one(m: AppModel)
    ensures
        m.build_queue.active ==> asking_to_cancel(m).cancel_confirm == Some(Operation::Build),
        !m.build_queue.active && m.template_bumping ==> asking_to_cancel(m).cancel_confirm == Some(
            Operation::Bump,
        ),
        !m.build_queue.active && !m.template_bumping && m.git_op_active ==> asking_to_cancel(
            m,
        ).cancel_confirm == Some(Operation::Git),
        !m.busy() ==> asking_to_cancel(m) == m,
        cancelling(m).0.cancel_confirm is None,
        cancelling(m).1.build == (m.cancel_confirm == Some(Operation::Build)),
        cancelling(m).1.bump == (m.cancel_confirm == Some(Operation::Bump)),
        cancelling(m).1.git == (m.cancel_confirm == Some(Operation::Git)),
        cancelling(m).1.build ==> cancelling(m).0.build_queue.cancelled,
        cancelling(m).1.bump ==> cancelling(m).0.bump_cancelled,
        cancelling(m).1.git ==> cancelling(m).0.git_cancelled,
{
}

/// Quitting stops everything that runs, and aborts a rebase that does.
pub proof fn law_quitting_stops_all(m: AppModel)
    ensures
        stopping_all(m).1.build == m.build_queue.active,
        stopping_all(m).1.bump == m.template_bumping,
        stopping_all(m).1.git == m.git_op_active,
        stopping_all(m).1.abort_rebase == (m.git_op_active && m.git_current_op == Some(
            GitOp::RebaseCustom,
        )),
        m.build_queue.active ==> stopping_all(m).0.build_queue.cancelled,
        m.template_bumping ==> stopping_all(m).0.bump_cancelled,
        m.git_op_active ==> stopping_all(m).0.git_cancelled,
{
}

/// An operation on the branches that starts is the one that runs, is not cancelled, and shows no
/// output of another.
pub proof fn law_git_op_starts(m: AppModel, op: GitOp)
    requires
        !m.git_op_active,
    ensures
        git_started(m, op).1,
        git_started(m, op).0 == (AppModel {
            git_op_active: true,
            git_current_op: Some(op),
            git_cancelled: false,
            git_output: Seq::empty(),
            ..m
        }),
{
}

} // verus!

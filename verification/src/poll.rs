//! What the messages of background work do to the state of the program.

use vstd::prelude::*;

use crate::app::{
    lemma_wf_kept, pending_models, state_names, App, AppModel, BumpMsgModel, PendingModel,
    TemplateBumpMsg,
};
use crate::building::{
    job_models, push_all, BuildJob, BuildJobStatus, BuildMsg, BuildMsgModel, HistoryModel,
    JobModel, QueueModel,
};
use crate::cli::msg_models;
use crate::git::{git_msgs, GitMsg, GitMsgModel};
use crate::package::{
    state_models, status_of, template_ver_rev, ver_rev, PackageState, StateModel, Status,
};
use crate::text::{
    cat, cat3, copy_opt, decimal, join, joined, lemma_texts_push, number, same_text, text_opt, texts,
};
use crate::version_check::{MsgModel, VersionMsg};

verus! {

/// What has to be done after messages were taken in.
#[derive(Debug)]
pub enum Followup {
    Nothing,
    /// Load the packages again.
    Refresh,
    /// Load the packages again, and show this message then.
    RefreshThen(Option<String>),
}

/// What a `Followup` holds.
pub enum FollowupModel {
    Nothing,
    Refresh,
    RefreshThen(Option<Seq<char>>),
}

impl View for Followup {
    type V = FollowupModel;

    open spec fn view(&self) -> FollowupModel {
        match self {
            Followup::Nothing => FollowupModel::Nothing,
            Followup::Refresh => FollowupModel::Refresh,
            Followup::RefreshThen(m) => FollowupModel::RefreshThen(text_opt(*m)),
        }
    }
}

// ---------------------------------------------------------------------------------------------
// Upstream versions
// ---------------------------------------------------------------------------------------------

/// A package that is found to be at `version` upstream.
#[verifier::opaque]
pub open spec fn with_latest(s: StateModel, name: Seq<char>, version: Seq<char>) -> StateModel {
    if s.package.name == name {
        StateModel {
            latest: Some(version),
            status: status_of(s.package, s.installed, s.built, Some(version)),
            ..s
        }
    } else {
        s
    }
}

pub open spec fn all_with_latest(
    ps: Seq<StateModel>,
    name: Seq<char>,
    version: Seq<char>,
) -> Seq<StateModel> {
    Seq::new(ps.len(), |i: int| with_latest(ps[i], name, version))
}

/// What is said of a package whose upstream version was found.
pub open spec fn checked_text(name: Seq<char>, age: Option<u64>) -> Seq<char> {
    match age {
        Some(a) => "Checked "@ + name + " (cached "@ + decimal((a / 60) as nat) + "m ago)"@,
        None => "Checked "@ + name,
    }
}

/// What is said when all upstream versions were asked for.
pub open spec fn done_text(count: nat, packages: nat, limited: bool) -> Seq<char> {
    if limited {
        "Checked "@ + decimal(count) + "/"@ + decimal(packages)
            + " packages \u{2014} GitHub rate limited (wait ~1hr or set GITHUB_TOKEN)"@
    } else {
        "Checked "@ + decimal(count) + " packages"@
    }
}

/// What a message of a sweep does.
#[verifier::opaque]
pub open spec fn version_step(m: AppModel, msg: MsgModel, now: u64) -> AppModel {
    match msg {
        MsgModel::Found(name, version, age) => AppModel {
            packages: all_with_latest(m.packages, name, version),
            status_msg: Some(checked_text(name, age)),
            ..m
        },
        MsgModel::Done(count, limited) => AppModel {
            checking_versions: false,
            pkg_last_checked: Some(now),
            status_msg: Some(done_text(count, m.packages.len(), limited)),
            ..m
        },
    }
}

/// What the messages of a sweep do, up to its end.
pub open spec fn after_versions(m: AppModel, msgs: Seq<MsgModel>, now: u64) -> AppModel
    decreases msgs.len(),
{
    if msgs.len() == 0 {
        m
    } else if msgs[0] is Done {
        version_step(m, msgs[0], now)
    } else {
        after_versions(version_step(m, msgs[0], now), msgs.drop_first(), now)
    }
}

/// Sets the upstream version of the packages called `name`.
fn set_latest(ps: &mut Vec<PackageState>, name: &str, version: &str)
    ensures
        state_models(final(ps)@) == all_with_latest(state_models(old(ps)@), name@, version@),
{
    let ghost before = state_models(ps@);
    let mut i: usize = 0;
    while i < ps.len()
        invariant
            ps@.len() == before.len(),
            i <= ps@.len(),
            forall|j: int|
                0 <= j < i ==> (#[trigger] ps@[j])@ == with_latest(before[j], name@, version@),
            forall|j: int| i <= j < ps@.len() ==> (#[trigger] ps@[j])@ == before[j],
        decreases ps@.len() - i,
    {
        let s = &mut ps[i];
        update_latest(s, name, version);
        i += 1;
    }
    assert(state_models(ps@) =~= all_with_latest(before, name@, version@));
}

fn update_latest(s: &mut PackageState, name: &str, version: &str)
    ensures
        final(s)@ == with_latest(old(s)@, name@, version@),
{
    reveal(with_latest);
    if same_text(s.package.name.as_str(), name) {
        s.latest = Some(version.to_owned());
        s.status = PackageState::compute_status(&s.package, &s.installed, &s.built, &s.latest);
    }
}

/// What is said of a package whose upstream version was found.
fn checked_message(name: &str, age: Option<u64>) -> (r: String)
    ensures
        r@ == checked_text(name@, age),
{
    match age {
        Some(a) => {
            let front = cat3("Checked ", name, " (cached ");
            let minutes = number(a / 60);
            cat3(front.as_str(), minutes.as_str(), "m ago)")
        },
        None => cat("Checked ", name),
    }
}

/// What is said when all upstream versions were asked for.
fn done_message(count: usize, packages: usize, limited: bool) -> (r: String)
    ensures
        r@ == done_text(count as nat, packages as nat, limited),
{
    let c = number(count as u64);
    if limited {
        let n = number(packages as u64);
        let front = cat3("Checked ", c.as_str(), "/");
        cat3(
            front.as_str(),
            n.as_str(),
            " packages \u{2014} GitHub rate limited (wait ~1hr or set GITHUB_TOKEN)",
        )
    } else {
        cat3("Checked ", c.as_str(), " packages")
    }
}

impl App {
    /// Takes in a message of a sweep: whether it is its end.
    fn take_version(&mut self, msg: &VersionMsg, now: u64) -> (over: bool)
        ensures
            final(self)@ == version_step(old(self)@, msg@, now),
            over == (msg@ is Done),
    {
        reveal(version_step);
        match msg {
            VersionMsg::Found(name, version, age) => {
                set_latest(&mut self.packages, name.as_str(), version.as_str());
                self.status_msg = Some(checked_message(name.as_str(), *age));
                false
            },
            VersionMsg::Done(count, limited) => {
                let n: usize = self.packages.len();
                self.checking_versions = false;
                self.pkg_last_checked = Some(now);
                self.status_msg = Some(done_message(*count, n, *limited));
                true
            },
        }
    }

    /// Takes in the messages of a sweep, up to its end.
    pub fn poll_version_check(&mut self, msgs: &Vec<VersionMsg>, now: u64)
        ensures
            final(self)@ == after_versions(old(self)@, msg_models(msgs@), now),
    {
        let ghost all = msg_models(msgs@);
        let ghost start = self@;
        let mut i: usize = 0;
        assert(all.skip(0) =~= all);
        while i < msgs.len()
            invariant
                i <= msgs@.len(),
                all == msg_models(msgs@),
                start == old(self)@,
                after_versions(start, all, now) == after_versions(self@, all.skip(i as int), now),
            decreases msgs@.len() - i,
        {
            proof {
                assert(all.skip(i as int)[0] == all[i as int]);
                assert(all.skip(i as int).drop_first() =~= all.skip(i + 1));
            }
            if self.take_version(&msgs[i], now) {
                return ;
            }
            i += 1;
        }
    }
}

// ---------------------------------------------------------------------------------------------
// Bumps
// ---------------------------------------------------------------------------------------------

pub open spec fn bump_models(v: Seq<TemplateBumpMsg>) -> Seq<BumpMsgModel> {
    Seq::new(v.len(), |i: int| v[i]@)
}

/// What a message of a bump does, and what has to be done then. At its end the packages are
/// loaded again; where a bump failed, what was said of it stays.
#[verifier::opaque]
pub open spec fn bump_step(m: AppModel, msg: BumpMsgModel) -> (AppModel, FollowupModel) {
    match msg {
        BumpMsgModel::Started(path) => (
            AppModel { bump_log_path: Some(path), bump_log_scroll: 0, ..m },
            FollowupModel::Nothing,
        ),
        BumpMsgModel::Done(name, old_version, new_version) => (
            AppModel {
                status_msg: Some(
                    "Bumped "@ + name + " "@ + old_version + " \u{2192} "@ + new_version,
                ),
                ..m
            },
            FollowupModel::Nothing,
        ),
        BumpMsgModel::Failed(name, error) => (
            AppModel {
                status_msg: Some("Bump failed for "@ + name + ": "@ + error),
                bump_had_failure: true,
                ..m
            },
            FollowupModel::Nothing,
        ),
        BumpMsgModel::AllDone => (
            AppModel { template_bumping: false, bump_had_failure: false, ..m },
            if m.bump_had_failure {
                FollowupModel::RefreshThen(m.status_msg)
            } else {
                FollowupModel::Refresh
            },
        ),
    }
}

/// What the messages of a bump do, up to its end, and what has to be done then.
pub open spec fn after_bumps(m: AppModel, msgs: Seq<BumpMsgModel>) -> (AppModel, FollowupModel)
    decreases msgs.len(),
{
    if msgs.len() == 0 {
        (m, FollowupModel::Nothing)
    } else if msgs[0] is AllDone {
        bump_step(m, msgs[0])
    } else {
        after_bumps(bump_step(m, msgs[0]).0, msgs.drop_first())
    }
}

impl App {
    /// Takes in that a bump starts.
    fn start_bump(&mut self, path: &str)
        ensures
            final(self)@ == bump_step(old(self)@, BumpMsgModel::Started(path@)).0,
    {
        self.bump_log_path = Some(path.to_owned());
        self.bump_log_scroll = 0;
        reveal(bump_step);
    }

    /// Takes in that a template was bumped.
    fn end_bump(&mut self, name: &str, old_version: &str, new_version: &str)
        ensures
            final(self)@ == bump_step(
                old(self)@,
                BumpMsgModel::Done(name@, old_version@, new_version@),
            ).0,
    {
        let front = cat3("Bumped ", name, " ");
        let mid = cat3(front.as_str(), old_version, " \u{2192} ");
        self.say(cat(mid.as_str(), new_version));
        reveal(bump_step);
    }

    /// Takes in that the bump of a template failed.
    fn fail_bump(&mut self, name: &str, error: &str)
        ensures
            final(self)@ == bump_step(old(self)@, BumpMsgModel::Failed(name@, error@)).0,
    {
        let front = cat3("Bump failed for ", name, ": ");
        self.say(cat(front.as_str(), error));
        self.bump_had_failure = true;
        reveal(bump_step);
    }

    /// Takes in that there is nothing more to bump: what has to be done then.
    fn end_bumps(&mut self) -> (r: Followup)
        ensures
            (final(self)@, r@) == bump_step(old(self)@, BumpMsgModel::AllDone),
    {
        let keep = self.bump_had_failure;
        self.template_bumping = false;
        self.bump_had_failure = false;
        reveal(bump_step);
        if keep {
            Followup::RefreshThen(copy_opt(&self.status_msg))
        } else {
            Followup::Refresh
        }
    }

    /// Takes in the messages of a bump, up to its end: what has to be done then.
    pub fn poll_template_bump(&mut self, msgs: &Vec<TemplateBumpMsg>) -> (r: Followup)
        ensures
            (final(self)@, r@) == after_bumps(old(self)@, bump_models(msgs@)),
    {
        let ghost all = bump_models(msgs@);
        let ghost start = self@;
        let mut i: usize = 0;
        assert(all.skip(0) =~= all);
        while i < msgs.len()
            invariant
                i <= msgs@.len(),
                all == bump_models(msgs@),
                start == old(self)@,
                after_bumps(start, all) == after_bumps(self@, all.skip(i as int)),
            decreases msgs@.len() - i,
        {
            proof {
                assert(all.skip(i as int)[0] == all[i as int]);
                assert(all.skip(i as int).drop_first() =~= all.skip(i + 1));
            }
            match &msgs[i] {
                TemplateBumpMsg::Started(path) => {
                    self.start_bump(path.as_str());
                },
                TemplateBumpMsg::Done(name, old_version, new_version) => {
                    self.end_bump(name.as_str(), old_version.as_str(), new_version.as_str());
                },
                TemplateBumpMsg::Failed(name, error) => {
                    self.fail_bump(name.as_str(), error.as_str());
                },
                TemplateBumpMsg::AllDone => {
                    return self.end_bumps();
                },
            }
            i += 1;
        }
        Followup::Nothing
    }
}

// ---------------------------------------------------------------------------------------------
// Git
// ---------------------------------------------------------------------------------------------

/// What a message of an operation on the branches does.
#[verifier::opaque]
pub open spec fn git_msg_step(m: AppModel, msg: GitMsgModel) -> AppModel {
    match msg {
        GitMsgModel::Output(line) => AppModel { git_output: m.git_output.push(line), ..m },
        GitMsgModel::Success(line) => AppModel {
            git_output: m.git_output.push(line),
            status_msg: Some(line),
            ..m
        },
        GitMsgModel::Failed(line) => AppModel {
            git_output: m.git_output.push("ERR: "@ + line),
            status_msg: Some(line),
            ..m
        },
        GitMsgModel::Done => AppModel { git_op_active: false, git_current_op: None, ..m },
    }
}

/// What the messages of an operation on the branches do, up to its end, and whether that was
/// reached.
pub open spec fn after_git(m: AppModel, msgs: Seq<GitMsgModel>) -> (AppModel, bool)
    decreases msgs.len(),
{
    if msgs.len() == 0 {
        (m, false)
    } else if msgs[0] is Done {
        (git_msg_step(m, msgs[0]), true)
    } else {
        after_git(git_msg_step(m, msgs[0]), msgs.drop_first())
    }
}

impl App {
    /// Puts a line behind the output of an operation on the branches.
    fn push_git_output(&mut self, line: String)
        ensures
            final(self)@ == (AppModel {
                git_output: old(self)@.git_output.push(line@),
                ..old(self)@
            }),
    {
        proof {
            lemma_texts_push(self.git_output@, line);
        }
        self.git_output.push(line);
    }

    /// Takes in that an operation on the branches is over.
    fn end_git_op(&mut self)
        ensures
            final(self)@ == (AppModel {
                git_op_active: false,
                git_current_op: None,
                ..old(self)@
            }),
    {
        self.git_op_active = false;
        self.git_current_op = None;
    }

    /// Takes in that an operation on the branches did what it should, or did not.
    fn take_git_result(&mut self, line: &str, ok: bool)
        ensures
            final(self)@ == git_msg_step(
                old(self)@,
                if ok {
                    GitMsgModel::Success(line@)
                } else {
                    GitMsgModel::Failed(line@)
                },
            ),
    {
        if ok {
            self.push_git_output(line.to_owned());
        } else {
            self.push_git_output(cat("ERR: ", line));
        }
        self.say(line.to_owned());
        reveal(git_msg_step);
    }

    /// Takes in a message of an operation on the branches: whether it is its end.
    fn take_git(&mut self, msg: &GitMsg) -> (over: bool)
        ensures
            final(self)@ == git_msg_step(old(self)@, msg@),
            over == (msg@ is Done),
    {
        match msg {
            GitMsg::Output(line) => {
                self.push_git_output(line.clone());
                reveal(git_msg_step);
                false
            },
            GitMsg::Success(line) => {
                self.take_git_result(line.as_str(), true);
                false
            },
            GitMsg::Failed(line) => {
                self.take_git_result(line.as_str(), false);
                false
            },
            GitMsg::Done => {
                self.end_git_op();
                reveal(git_msg_step);
                true
            },
        }
    }

    /// Takes in the messages of an operation on the branches, up to its end: whether that was
    /// reached, so that it has to be looked up where the branches stand.
    pub fn poll_git(&mut self, msgs: &Vec<GitMsg>) -> (over: bool)
        ensures
            (final(self)@, over) == after_git(old(self)@, git_msgs(msgs@)),
    {
        let ghost all = git_msgs(msgs@);
        let ghost start = self@;
        let mut i: usize = 0;
        assert(all.skip(0) =~= all);
        while i < msgs.len()
            invariant
                i <= msgs@.len(),
                all == git_msgs(msgs@),
                start == old(self)@,
                after_git(start, all) == after_git(self@, all.skip(i as int)),
            decreases msgs@.len() - i,
        {
            proof {
                assert(all.skip(i as int)[0] == all[i as int]);
                assert(all.skip(i as int).drop_first() =~= all.skip(i + 1));
            }
            if self.take_git(&msgs[i]) {
                return true;
            }
            i += 1;
        }
        false
    }
}

// ---------------------------------------------------------------------------------------------
// Builds
// ---------------------------------------------------------------------------------------------

pub open spec fn build_msg_models(v: Seq<BuildMsg>) -> Seq<BuildMsgModel> {
    Seq::new(v.len(), |i: int| v[i]@)
}

/// The jobs, those of `name` with a new status.
pub open spec fn with_job_status(
    jobs: Seq<JobModel>,
    name: Seq<char>,
    status: BuildJobStatus,
) -> Seq<JobModel> {
    Seq::new(
        jobs.len(),
        |i: int|
            if jobs[i].name == name {
                JobModel { status, ..jobs[i] }
            } else {
                jobs[i]
            },
    )
}

/// The packages, those of `name` with the log of their build.
pub open spec fn with_log(ps: Seq<StateModel>, name: Seq<char>, log: Seq<char>) -> Seq<StateModel> {
    Seq::new(
        ps.len(),
        |i: int|
            if ps[i].package.name == name {
                StateModel { build_log: Some(log), ..ps[i] }
            } else {
                ps[i]
            },
    )
}

/// The packages, those of `name` with the log of their build that failed.
pub open spec fn with_failure(
    ps: Seq<StateModel>,
    name: Seq<char>,
    log: Seq<char>,
) -> Seq<StateModel> {
    Seq::new(
        ps.len(),
        |i: int|
            if ps[i].package.name == name {
                StateModel { status: Status::BuildFailed, build_log: Some(log), ..ps[i] }
            } else {
                ps[i]
            },
    )
}

/// The changes without those for the package `name`.
pub open spec fn without_package(us: Seq<PendingModel>, name: Seq<char>) -> Seq<PendingModel>
    decreases us.len(),
{
    if us.len() == 0 {
        us
    } else if us.last().package == name {
        without_package(us.drop_last(), name)
    } else {
        without_package(us.drop_last(), name).push(us.last())
    }
}

/// The changes of the register that a package calls for: the library that is installed in place
/// of each one that is registered and not installed.
pub open spec fn changes_for(s: StateModel) -> Seq<PendingModel> {
    Seq::new(
        s.soname_mismatches.len(),
        |i: int|
            PendingModel {
                package: s.package.name,
                old_soname: s.soname_mismatches[i].registered,
                new_soname: s.soname_mismatches[i].installed,
                new_pkg_ver: s.package.name + "-"@ + template_ver_rev(s.package),
            },
    )
}

/// The changes of the register that the packages called `name` call for.
pub open spec fn changes_for_all(ps: Seq<StateModel>, name: Seq<char>) -> Seq<PendingModel>
    decreases ps.len(),
{
    if ps.len() == 0 {
        Seq::empty()
    } else if ps.last().package.name == name {
        changes_for_all(ps.drop_last(), name) + changes_for(ps.last())
    } else {
        changes_for_all(ps.drop_last(), name)
    }
}

/// The lines with the mark of errors in front.
pub open spec fn marked_errors(lines: Seq<Seq<char>>) -> Seq<Seq<char>> {
    Seq::new(lines.len(), |i: int| "ERR: "@ + lines[i])
}

/// The names of the packages that were built.
pub open spec fn built_names(jobs: Seq<JobModel>) -> Seq<Seq<char>>
    decreases jobs.len(),
{
    if jobs.len() == 0 {
        Seq::empty()
    } else if jobs.last().status == BuildJobStatus::Success {
        built_names(jobs.drop_last()).push(jobs.last().name)
    } else {
        built_names(jobs.drop_last())
    }
}

/// What is said when a queue is over: how to install what was built.
pub open spec fn queue_text(jobs: Seq<JobModel>) -> Seq<char> {
    let names = built_names(jobs);
    if names.len() > 0 {
        "Run: xi "@ + join(names, " "@)
    } else {
        "Build queue finished (no successful builds)"@
    }
}

/// What a message of a build does.
#[verifier::opaque]
pub open spec fn build_step(m: AppModel, msg: BuildMsgModel, now: u64) -> AppModel {
    let q = m.build_queue;
    match msg {
        BuildMsgModel::Started(name) => AppModel {
            build_queue: QueueModel {
                jobs: with_job_status(q.jobs, name, BuildJobStatus::Building),
                current_output: Seq::empty(),
                ..q
            },
            build_log_scroll: 0,
            status_msg: Some("Building "@ + name + "..."@),
            ..m
        },
        BuildMsgModel::Output(_, line) => AppModel {
            build_queue: QueueModel { current_output: q.current_output.push(line), ..q },
            ..m
        },
        BuildMsgModel::Finished(name, log) => AppModel {
            build_queue: QueueModel {
                jobs: with_job_status(q.jobs, name, BuildJobStatus::Success),
                ..q
            },
            packages: with_log(m.packages, name, log),
            shlib_updates: without_package(m.shlib_updates, name) + changes_for_all(
                m.packages,
                name,
            ),
            build_history: m.build_history.push(
                HistoryModel { name, success: true, timestamp: now },
            ),
            ..m
        },
        BuildMsgModel::Failed(name, errors, log) => AppModel {
            build_queue: QueueModel {
                jobs: with_job_status(q.jobs, name, BuildJobStatus::Failed),
                current_output: q.current_output + marked_errors(errors),
                ..q
            },
            packages: with_failure(m.packages, name, log),
            build_history: m.build_history.push(
                HistoryModel { name, success: false, timestamp: now },
            ),
            ..m
        },
        BuildMsgModel::QueueComplete => AppModel {
            build_queue: QueueModel { active: false, ..q },
            ..m
        },
    }
}

/// What the messages of a build do, and what has to be done then: when the queue is over the
/// packages are loaded again.
pub open spec fn after_builds(m: AppModel, msgs: Seq<BuildMsgModel>, now: u64) -> (
    AppModel,
    FollowupModel,
)
    decreases msgs.len(),
{
    if msgs.len() == 0 {
        (m, FollowupModel::Nothing)
    } else {
        let (before, next) = after_builds(m, msgs.drop_last(), now);
        (
            build_step(before, msgs.last(), now),
            if msgs.last() is QueueComplete {
                FollowupModel::RefreshThen(Some(queue_text(before.build_queue.jobs)))
            } else {
                next
            },
        )
    }
}

/// The last two hundred lines.
pub open spec fn last_lines(lines: Seq<Seq<char>>) -> Seq<Seq<char>> {
    if lines.len() > 200 {
        lines.skip(lines.len() - 200)
    } else {
        lines
    }
}

/// The state with no more of the output of a build than is kept.
pub open spec fn output_trimmed(m: AppModel) -> AppModel {
    AppModel {
        build_queue: QueueModel {
            current_output: last_lines(m.build_queue.current_output),
            ..m.build_queue
        },
        ..m
    }
}

/// What the messages of a build do, where one runs.
pub open spec fn build_polled(m: AppModel, msgs: Seq<BuildMsgModel>, now: u64) -> (
    AppModel,
    FollowupModel,
) {
    if m.build_queue.active {
        let (after, next) = after_builds(m, msgs, now);
        (output_trimmed(after), next)
    } else {
        (m, FollowupModel::Nothing)
    }
}

/// Sets the status of the jobs of `name`.
fn set_job_status(jobs: &mut Vec<BuildJob>, name: &str, status: BuildJobStatus)
    ensures
        job_models(final(jobs)@) == with_job_status(job_models(old(jobs)@), name@, status),
{
    let ghost before = job_models(jobs@);
    let ghost goal = with_job_status(before, name@, status);
    let mut i: usize = 0;
    while i < jobs.len()
        invariant
            jobs@.len() == before.len(),
            goal == with_job_status(before, name@, status),
            i <= jobs@.len(),
            forall|j: int| 0 <= j < i ==> (#[trigger] jobs@[j])@ == goal[j],
            forall|j: int| i <= j < jobs@.len() ==> (#[trigger] jobs@[j])@ == before[j],
        decreases jobs@.len() - i,
    {
        assert(jobs@[i as int]@ == before[i as int]);
        if same_text(jobs[i].name.as_str(), name) {
            jobs[i].status = status;
        }
        i += 1;
    }
    assert(job_models(jobs@) =~= goal);
}

/// Sets the log of the packages called `name`, and that their build failed where `failed`.
fn set_log(ps: &mut Vec<PackageState>, name: &str, log: &str, failed: bool)
    ensures
        state_models(final(ps)@) == (if failed {
            with_failure(state_models(old(ps)@), name@, log@)
        } else {
            with_log(state_models(old(ps)@), name@, log@)
        }),
{
    let ghost before = state_models(ps@);
    let ghost goal = if failed {
        with_failure(before, name@, log@)
    } else {
        with_log(before, name@, log@)
    };
    let mut i: usize = 0;
    while i < ps.len()
        invariant
            ps@.len() == before.len(),
            goal == (if failed {
                with_failure(before, name@, log@)
            } else {
                with_log(before, name@, log@)
            }),
            i <= ps@.len(),
            forall|j: int| 0 <= j < i ==> (#[trigger] ps@[j])@ == goal[j],
            forall|j: int| i <= j < ps@.len() ==> (#[trigger] ps@[j])@ == before[j],
        decreases ps@.len() - i,
    {
        assert(ps@[i as int]@ == before[i as int]);
        if same_text(ps[i].package.name.as_str(), name) {
            if failed {
                ps[i].status = Status::BuildFailed;
            }
            ps[i].build_log = Some(log.to_owned());
        }
        i += 1;
    }
    assert(state_models(ps@) =~= goal);
}

/// The changes without those for the package `name`.
fn drop_package(us: &Vec<(String, String, String, String)>, name: &str) -> (r: Vec<
    (String, String, String, String),
>)
    ensures
        pending_models(r@) == without_package(pending_models(us@), name@),
{
    let ghost all = pending_models(us@);
    let mut out: Vec<(String, String, String, String)> = Vec::new();
    let mut i: usize = 0;
    assert(pending_models(out@) =~= without_package(all.take(0), name@));
    while i < us.len()
        invariant
            i <= us@.len(),
            all == pending_models(us@),
            pending_models(out@) == without_package(all.take(i as int), name@),
        decreases us@.len() - i,
    {
        proof {
            assert(all.take(i + 1).drop_last() =~= all.take(i as int));
            assert(all.take(i + 1).last() == all[i as int]);
        }
        if !same_text(us[i].0.as_str(), name) {
            let ghost before = out@;
            let u = (us[i].0.clone(), us[i].1.clone(), us[i].2.clone(), us[i].3.clone());
            out.push(u);
            assert(pending_models(out@) =~= pending_models(before).push(all[i as int]));
        }
        i += 1;
    }
    assert(all.take(i as int) =~= all);
    out
}

/// Adds the changes of the register that a package calls for.
fn add_changes(us: &mut Vec<(String, String, String, String)>, s: &PackageState)
    ensures
        pending_models(final(us)@) == pending_models(old(us)@) + changes_for(s@),
{
    let ghost start = pending_models(us@);
    let ghost goal = changes_for(s@);
    let version = ver_rev(&s.package);
    let mut i: usize = 0;
    assert(pending_models(us@) =~= start + goal.take(0));
    while i < s.soname_mismatches.len()
        invariant
            i <= s.soname_mismatches@.len(),
            goal == changes_for(s@),
            version@ == template_ver_rev(s@.package),
            pending_models(us@) == start + goal.take(i as int),
        decreases s.soname_mismatches@.len() - i,
    {
        let m = &s.soname_mismatches[i];
        let pkg_ver = cat3(s.package.name.as_str(), "-", version.as_str());
        let ghost before = us@;
        us.push((s.package.name.clone(), m.registered.clone(), m.installed.clone(), pkg_ver));
        proof {
            assert(s@.soname_mismatches[i as int] == m@);
            assert(pending_models(us@) =~= pending_models(before).push(goal[i as int]));
            assert(goal.take(i + 1) =~= goal.take(i as int).push(goal[i as int]));
            assert(start + goal.take(i + 1) =~= (start + goal.take(i as int)).push(
                goal[i as int],
            ));
        }
        i += 1;
    }
    assert(goal.take(i as int) =~= goal);
}

/// Adds the changes of the register that the packages called `name` call for.
fn add_all_changes(
    us: &mut Vec<(String, String, String, String)>,
    ps: &Vec<PackageState>,
    name: &str,
)
    ensures
        pending_models(final(us)@) == pending_models(old(us)@) + changes_for_all(
            state_models(ps@),
            name@,
        ),
{
    let ghost start = pending_models(us@);
    let ghost all = state_models(ps@);
    let mut i: usize = 0;
    assert(pending_models(us@) =~= start + changes_for_all(all.take(0), name@));
    while i < ps.len()
        invariant
            i <= ps@.len(),
            all == state_models(ps@),
            pending_models(us@) == start + changes_for_all(all.take(i as int), name@),
        decreases ps@.len() - i,
    {
        proof {
            assert(all.take(i + 1).drop_last() =~= all.take(i as int));
            assert(all.take(i + 1).last() == all[i as int]);
        }
        if same_text(ps[i].package.name.as_str(), name) {
            let ghost before = pending_models(us@);
            add_changes(us, &ps[i]);
            assert(pending_models(us@) =~= start + changes_for_all(all.take(i + 1), name@));
        }
        i += 1;
    }
    assert(all.take(i as int) =~= all);
}

/// The lines with the mark of errors in front.
fn mark_errors(lines: &Vec<String>) -> (r: Vec<String>)
    ensures
        texts(r@) == marked_errors(texts(lines@)),
{
    let ghost goal = marked_errors(texts(lines@));
    let mut out: Vec<String> = Vec::new();
    let mut i: usize = 0;
    assert(texts(out@) =~= goal.take(0));
    while i < lines.len()
        invariant
            i <= lines@.len(),
            goal == marked_errors(texts(lines@)),
            texts(out@) == goal.take(i as int),
        decreases lines@.len() - i,
    {
        let line = cat("ERR: ", lines[i].as_str());
        proof {
            lemma_texts_push(out@, line);
        }
        out.push(line);
        i += 1;
        assert(goal.take(i as int) =~= goal.take(i - 1).push(goal[i - 1]));
    }
    assert(goal.take(i as int) =~= goal);
    out
}

/// The names of the packages that were built.
fn find_built(jobs: &Vec<BuildJob>) -> (r: Vec<String>)
    ensures
        texts(r@) == built_names(job_models(jobs@)),
{
    let ghost all = job_models(jobs@);
    let mut out: Vec<String> = Vec::new();
    let mut i: usize = 0;
    assert(texts(out@) =~= built_names(all.take(0)));
    while i < jobs.len()
        invariant
            i <= jobs@.len(),
            all == job_models(jobs@),
            texts(out@) == built_names(all.take(i as int)),
        decreases jobs@.len() - i,
    {
        proof {
            assert(all.take(i + 1).drop_last() =~= all.take(i as int));
            assert(all.take(i + 1).last() == all[i as int]);
            lemma_texts_push(out@, jobs@[i as int].name);
        }
        if jobs[i].status == BuildJobStatus::Success {
            out.push(jobs[i].name.clone());
        }
        i += 1;
    }
    assert(all.take(i as int) =~= all);
    out
}

/// What is said when a queue is over.
fn queue_message(jobs: &Vec<BuildJob>) -> (r: String)
    ensures
        r@ == queue_text(job_models(jobs@)),
{
    let names = find_built(jobs);
    if names.len() > 0 {
        cat("Run: xi ", joined(&names, " ").as_str())
    } else {
        "Build queue finished (no successful builds)".to_owned()
    }
}

/// The last two hundred lines.
fn keep_last(lines: &Vec<String>) -> (r: Vec<String>)
    ensures
        texts(r@) == last_lines(texts(lines@)),
{
    let n: usize = lines.len();
    let start: usize = if n > 200 {
        n - 200
    } else {
        0
    };
    let ghost all = texts(lines@);
    let mut out: Vec<String> = Vec::new();
    let mut i: usize = start;
    assert(texts(out@) =~= all.subrange(start as int, start as int));
    while i < n
        invariant
            start <= i <= n,
            n == lines@.len(),
            all == texts(lines@),
            texts(out@) == all.subrange(start as int, i as int),
        decreases n - i,
    {
        proof {
            lemma_texts_push(out@, lines@[i as int]);
        }
        out.push(lines[i].clone());
        i += 1;
        assert(all.subrange(start as int, i as int) =~= all.subrange(start as int, i - 1).push(
            all[i - 1],
        ));
    }
    assert(texts(out@) =~= last_lines(all));
    out
}

impl App {
    /// Takes in that a package is built now.
    fn take_started(&mut self, name: &str, now: u64)
        ensures
            final(self)@ == build_step(old(self)@, BuildMsgModel::Started(name@), now),
    {
        reveal(build_step);
        set_job_status(&mut self.build_queue.jobs, name, BuildJobStatus::Building);
        self.build_queue.current_output = Vec::new();
        self.build_log_scroll = 0;
        self.status_msg = Some(cat3("Building ", name, "..."));
        assert(self@.build_queue.current_output =~= Seq::empty());
    }

    /// Takes in that a package was built.
    fn take_finished(&mut self, name: &str, log: &str, now: u64)
        ensures
            final(self)@ == build_step(old(self)@, BuildMsgModel::Finished(name@, log@), now),
    {
        reveal(build_step);
        set_job_status(&mut self.build_queue.jobs, name, BuildJobStatus::Success);
        let mut updates = drop_package(&self.shlib_updates, name);
        add_all_changes(&mut updates, &self.packages, name);
        self.shlib_updates = updates;
        set_log(&mut self.packages, name, log, false);
        self.build_history.record(name, true, now);
    }

    /// Takes in that the build of a package failed.
    fn take_failed(&mut self, name: &str, errors: &Vec<String>, log: &str, now: u64)
        ensures
            final(self)@ == build_step(
                old(self)@,
                BuildMsgModel::Failed(name@, texts(errors@), log@),
                now,
            ),
    {
        reveal(build_step);
        set_job_status(&mut self.build_queue.jobs, name, BuildJobStatus::Failed);
        set_log(&mut self.packages, name, log, true);
        let marked = mark_errors(errors);
        push_all(&mut self.build_queue.current_output, &marked);
        self.build_history.record(name, false, now);
    }

    /// Takes in a line that a build printed.
    fn take_output(&mut self, line: String)
        ensures
            final(self)@ == (AppModel {
                build_queue: QueueModel {
                    current_output: old(self)@.build_queue.current_output.push(line@),
                    ..old(self)@.build_queue
                },
                ..old(self)@
            }),
    {
        proof {
            lemma_texts_push(self.build_queue.current_output@, line);
        }
        self.build_queue.current_output.push(line);
    }

    /// Takes in that the queue is over.
    fn end_queue(&mut self)
        ensures
            final(self)@ == (AppModel {
                build_queue: QueueModel { active: false, ..old(self)@.build_queue },
                ..old(self)@
            }),
    {
        self.build_queue.active = false;
    }

    /// Takes in a message of a build.
    fn take_build(&mut self, msg: &BuildMsg, now: u64)
        ensures
            final(self)@ == build_step(old(self)@, msg@, now),
    {
        match msg {
            BuildMsg::Started(name) => {
                self.take_started(name.as_str(), now);
            },
            BuildMsg::Output(_, line) => {
                self.take_output(line.clone());
                reveal(build_step);
            },
            BuildMsg::Finished(name, log) => {
                self.take_finished(name.as_str(), log.as_str(), now);
            },
            BuildMsg::Failed(name, errors, log) => {
                self.take_failed(name.as_str(), errors, log.as_str(), now);
            },
            BuildMsg::QueueComplete => {
                self.end_queue();
                reveal(build_step);
            },
        }
    }

    /// Takes in the messages of a build, where one runs: what has to be done then.
    pub fn poll_build(&mut self, msgs: &Vec<BuildMsg>, now: u64) -> (r: Followup)
        ensures
            (final(self)@, r@) == build_polled(old(self)@, build_msg_models(msgs@), now),
    {
        if !self.build_queue.active {
            return Followup::Nothing;
        }
        let ghost all = build_msg_models(msgs@);
        let ghost start = self@;
        let mut next = Followup::Nothing;
        let mut i: usize = 0;
        while i < msgs.len()
            invariant
                i <= msgs@.len(),
                all == build_msg_models(msgs@),
                start == old(self)@,
                (self@, next@) == after_builds(start, all.take(i as int), now),
            decreases msgs@.len() - i,
        {
            proof {
                assert(all.take(i + 1).drop_last() =~= all.take(i as int));
                assert(all.take(i + 1).last() == all[i as int]);
            }
            let over = match &msgs[i] {
                BuildMsg::QueueComplete => true,
                _ => false,
            };
            if over {
                next = Followup::RefreshThen(Some(queue_message(&self.build_queue.jobs)));
            }
            self.take_build(&msgs[i], now);
            i += 1;
        }
        assert(all.take(i as int) =~= all);
        let kept = keep_last(&self.build_queue.current_output);
        self.build_queue.current_output = kept;
        next
    }
}

// ---------------------------------------------------------------------------------------------
// What messages keep
// ---------------------------------------------------------------------------------------------

proof fn lemma_latest_names(ps: Seq<StateModel>, name: Seq<char>, version: Seq<char>)
    ensures
        state_names(all_with_latest(ps, name, version)) == state_names(ps),
{
    reveal(with_latest);
    assert(state_names(all_with_latest(ps, name, version)) =~= state_names(ps));
}

proof fn lemma_log_names(ps: Seq<StateModel>, name: Seq<char>, log: Seq<char>)
    ensures
        state_names(with_log(ps, name, log)) == state_names(ps),
        state_names(with_failure(ps, name, log)) == state_names(ps),
{
    assert(state_names(with_log(ps, name, log)) =~= state_names(ps));
    assert(state_names(with_failure(ps, name, log)) =~= state_names(ps));
}

/// No message moves the selection, or takes it off a visible package.
pub proof fn law_messages_keep_selection(
    m: AppModel,
    version: MsgModel,
    bump: BumpMsgModel,
    git: GitMsgModel,
    build: BuildMsgModel,
    now: u64,
)
    requires
        m.wf(),
    ensures
        version_step(m, version, now).wf(),
        bump_step(m, bump).0.wf(),
        git_msg_step(m, git).wf(),
        build_step(m, build, now).wf(),
        output_trimmed(m).wf(),
{
    lemma_version_keeps(m, version, now);
    lemma_wf_kept(m, version_step(m, version, now));
    lemma_bump_keeps(m, bump);
    lemma_wf_kept(m, bump_step(m, bump).0);
    lemma_git_keeps(m, git);
    lemma_wf_kept(m, git_msg_step(m, git));
    lemma_build_keeps(m, build, now);
    lemma_wf_kept(m, build_step(m, build, now));
    lemma_wf_kept(m, output_trimmed(m));
}

proof fn lemma_version_keeps(m: AppModel, msg: MsgModel, now: u64)
    ensures
        state_names(version_step(m, msg, now).packages) == state_names(m.packages),
        version_step(m, msg, now).filter == m.filter,
        version_step(m, msg, now).dep_graph == m.dep_graph,
        version_step(m, msg, now).selected == m.selected,
{
    reveal(version_step);
    if let MsgModel::Found(name, version, _) = msg {
        lemma_latest_names(m.packages, name, version);
    }
}

proof fn lemma_bump_keeps(m: AppModel, msg: BumpMsgModel)
    ensures
        bump_step(m, msg).0.packages == m.packages,
        bump_step(m, msg).0.filter == m.filter,
        bump_step(m, msg).0.dep_graph == m.dep_graph,
        bump_step(m, msg).0.selected == m.selected,
{
    reveal(bump_step);
}

proof fn lemma_git_keeps(m: AppModel, msg: GitMsgModel)
    ensures
        git_msg_step(m, msg).packages == m.packages,
        git_msg_step(m, msg).filter == m.filter,
        git_msg_step(m, msg).dep_graph == m.dep_graph,
        git_msg_step(m, msg).selected == m.selected,
{
    reveal(git_msg_step);
}

proof fn lemma_build_keeps(m: AppModel, msg: BuildMsgModel, now: u64)
    ensures
        state_names(build_step(m, msg, now).packages) == state_names(m.packages),
        build_step(m, msg, now).filter == m.filter,
        build_step(m, msg, now).dep_graph == m.dep_graph,
        build_step(m, msg, now).selected == m.selected,
{
    reveal(build_step);
    match msg {
        BuildMsgModel::Finished(name, log) => {
            lemma_log_names(m.packages, name, log);
        },
        BuildMsgModel::Failed(name, _, log) => {
            lemma_log_names(m.packages, name, log);
        },
        _ => {},
    }
}

/// Of the output of a build at most two hundred lines are kept, the last ones.
pub proof fn law_output_is_bounded(m: AppModel, msgs: Seq<BuildMsgModel>, now: u64)
    requires
        m.build_queue.active,
    ensures
        build_polled(m, msgs, now).0.build_queue.current_output.len() <= 200,
{
}

proof fn lemma_without_concat(a: Seq<PendingModel>, b: Seq<PendingModel>, name: Seq<char>)
    ensures
        without_package(a + b, name) == without_package(a, name) + without_package(b, name),
    decreases b.len(),
{
    if b.len() == 0 {
        assert(a + b =~= a);
        assert(without_package(a, name) + without_package(b, name) =~= without_package(a, name));
    } else {
        lemma_without_concat(a, b.drop_last(), name);
        assert((a + b).drop_last() =~= a + b.drop_last());
        assert((a + b).last() == b.last());
        let x = without_package(a, name);
        let y = without_package(b.drop_last(), name);
        assert((x + y).push(b.last()) =~= x + y.push(b.last()));
    }
}

proof fn lemma_without_own(b: Seq<PendingModel>, name: Seq<char>)
    requires
        forall|i: int| 0 <= i < b.len() ==> (#[trigger] b[i]).package == name,
    ensures
        without_package(b, name).len() == 0,
    decreases b.len(),
{
    if b.len() > 0 {
        assert(b[b.len() - 1].package == name);
        lemma_without_own(b.drop_last(), name);
    }
}

proof fn lemma_without_twice(a: Seq<PendingModel>, name: Seq<char>)
    ensures
        without_package(without_package(a, name), name) == without_package(a, name),
    decreases a.len(),
{
    if a.len() > 0 {
        let before = without_package(a.drop_last(), name);
        lemma_without_twice(a.drop_last(), name);
        if a.last().package != name {
            assert(before.push(a.last()).drop_last() =~= before);
        }
    }
}

proof fn lemma_changes_own(ps: Seq<StateModel>, name: Seq<char>)
    ensures
        forall|i: int|
            0 <= i < changes_for_all(ps, name).len() ==> (#[trigger] changes_for_all(
                ps,
                name,
            )[i]).package == name,
    decreases ps.len(),
{
    if ps.len() > 0 {
        lemma_changes_own(ps.drop_last(), name);
        let before = changes_for_all(ps.drop_last(), name);
        let all = changes_for_all(ps, name);
        assert forall|i: int| 0 <= i < all.len() implies (#[trigger] all[i]).package == name by {
            if i < before.len() {
                assert(all[i] == before[i]);
            }
        }
    }
}

proof fn lemma_changes_logged(ps: Seq<StateModel>, name: Seq<char>, log: Seq<char>)
    ensures
        changes_for_all(with_log(ps, name, log), name) == changes_for_all(ps, name),
    decreases ps.len(),
{
    if ps.len() > 0 {
        lemma_changes_logged(ps.drop_last(), name, log);
        assert(with_log(ps, name, log).drop_last() =~= with_log(ps.drop_last(), name, log));
        let s = ps.last();
        let t = with_log(ps, name, log).last();
        assert(changes_for(t) =~= changes_for(s));
    }
}

/// A package that is built twice calls for its changes of the register once.
pub proof fn law_changes_do_not_pile_up(
    us: Seq<PendingModel>,
    ps: Seq<StateModel>,
    name: Seq<char>,
    log: Seq<char>,
)
    ensures
        ({
            let once = without_package(us, name) + changes_for_all(ps, name);
            without_package(once, name) + changes_for_all(with_log(ps, name, log), name) == once
        }),
{
    let kept = without_package(us, name);
    let new = changes_for_all(ps, name);
    lemma_without_concat(kept, new, name);
    lemma_without_twice(us, name);
    lemma_changes_own(ps, name);
    lemma_without_own(new, name);
    lemma_changes_logged(ps, name, log);
    assert(without_package(kept + new, name) =~= kept);
}

/// A version that was found is taken in by every package of its name, and by no other: it is the
/// upstream version of the package, and its status follows from that.
pub proof fn law_found_version_is_taken_in(
    m: AppModel,
    name: Seq<char>,
    version: Seq<char>,
    age: Option<u64>,
    now: u64,
    i: int,
)
    requires
        0 <= i < m.packages.len(),
    ensures
        ({
            let after = version_step(m, MsgModel::Found(name, version, age), now);
            let s = after.packages[i];
            let was = m.packages[i];
            &&& after.packages.len() == m.packages.len()
            &&& was.package.name == name ==> s == (StateModel {
                latest: Some(version),
                status: status_of(was.package, was.installed, was.built, Some(version)),
                ..was
            })
            &&& was.package.name != name ==> s == was
            &&& after.checking_versions == m.checking_versions
        }),
{
    reveal(version_step);
    reveal(with_latest);
}

/// When a sweep is done, the check is over and its time is kept; the packages stay as they are.
pub proof fn law_check_ends(m: AppModel, count: nat, limited: bool, now: u64)
    ensures
        ({
            let after = version_step(m, MsgModel::Done(count, limited), now);
            &&& !after.checking_versions
            &&& after.pkg_last_checked == Some(now)
            &&& after.packages == m.packages
        }),
{
    reveal(version_step);
}

/// What the messages of a build do to a job: the one of the package that is named is in the state
/// that the message says, and every other one stays.
pub proof fn law_build_moves_its_job(
    m: AppModel,
    name: Seq<char>,
    errors: Seq<Seq<char>>,
    log: Seq<char>,
    now: u64,
    i: int,
)
    requires
        0 <= i < m.build_queue.jobs.len(),
    ensures
        ({
            let was = m.build_queue.jobs[i];
            let began = build_step(m, BuildMsgModel::Started(name), now).build_queue.jobs[i];
            let ended = build_step(m, BuildMsgModel::Finished(name, log), now).build_queue.jobs[i];
            let failed = build_step(
                m,
                BuildMsgModel::Failed(name, errors, log),
                now,
            ).build_queue.jobs[i];
            &&& began.name == was.name && ended.name == was.name && failed.name == was.name
            &&& was.name == name ==> began.status == BuildJobStatus::Building && ended.status
                == BuildJobStatus::Success && failed.status == BuildJobStatus::Failed
            &&& was.name != name ==> began == was && ended == was && failed == was
        }),
{
    reveal(build_step);
}

/// A build that is over leaves its log with its package, and its outcome in the history; one that
/// failed also leaves that with its package. No other package is touched.
pub proof fn law_build_is_remembered(
    m: AppModel,
    name: Seq<char>,
    errors: Seq<Seq<char>>,
    log: Seq<char>,
    now: u64,
    i: int,
)
    requires
        0 <= i < m.packages.len(),
    ensures
        ({
            let was = m.packages[i];
            let ended = build_step(m, BuildMsgModel::Finished(name, log), now);
            let failed = build_step(m, BuildMsgModel::Failed(name, errors, log), now);
            &&& was.package.name == name ==> ended.packages[i] == (StateModel {
                build_log: Some(log),
                ..was
            })
            &&& was.package.name == name ==> failed.packages[i] == (StateModel {
                build_log: Some(log),
                status: Status::BuildFailed,
                ..was
            })
            &&& was.package.name != name ==> ended.packages[i] == was && failed.packages[i] == was
            &&& ended.build_history == m.build_history.push(
                HistoryModel { name, success: true, timestamp: now },
            )
            &&& failed.build_history == m.build_history.push(
                HistoryModel { name, success: false, timestamp: now },
            )
            &&& failed.shlib_updates == m.shlib_updates
        }),
{
    reveal(build_step);
}

/// What a build prints is shown behind what it printed before, errors with a mark; a build that
/// starts begins anew; and a queue that is over is no longer active.
pub proof fn law_build_output_is_shown(
    m: AppModel,
    name: Seq<char>,
    line: Seq<char>,
    errors: Seq<Seq<char>>,
    log: Seq<char>,
    now: u64,
    i: int,
)
    requires
        0 <= i < errors.len(),
    ensures
        ({
            let out = m.build_queue.current_output;
            let printed = build_step(m, BuildMsgModel::Output(name, line), now);
            let failed = build_step(m, BuildMsgModel::Failed(name, errors, log), now);
            &&& printed.build_queue.current_output == out.push(line)
            &&& printed.build_queue.jobs == m.build_queue.jobs
            &&& failed.build_queue.current_output.len() == out.len() + errors.len()
            &&& failed.build_queue.current_output[out.len() + i] == "ERR: "@ + errors[i]
            &&& build_step(
                m,
                BuildMsgModel::Started(name),
                now,
            ).build_queue.current_output.len() == 0
            &&& !build_step(m, BuildMsgModel::QueueComplete, now).build_queue.active
            &&& build_step(m, BuildMsgModel::QueueComplete, now).build_queue.jobs
                == m.build_queue.jobs
        }),
{
    reveal(build_step);
}

/// What is kept of the output of a build is its end, in order: all of it up to two hundred lines.
pub proof fn law_output_keeps_its_end(lines: Seq<Seq<char>>, i: int)
    requires
        0 <= i < last_lines(lines).len(),
    ensures
        last_lines(lines).len() == (if lines.len() < 200 {
            lines.len()
        } else {
            200
        }),
        last_lines(lines)[i] == lines[lines.len() - last_lines(lines).len() + i],
{
}

/// The hint how to install names the packages that were built, in the order of the queue, and no
/// other.
pub proof fn law_hint_names_what_was_built(jobs: Seq<JobModel>, job: JobModel)
    ensures
        job.status == BuildJobStatus::Success ==> built_names(jobs.push(job)) == built_names(
            jobs,
        ).push(job.name),
        job.status != BuildJobStatus::Success ==> built_names(jobs.push(job)) == built_names(jobs),
        built_names(Seq::<JobModel>::empty()).len() == 0,
        built_names(jobs).len() > 0 ==> queue_text(jobs) == "Run: xi "@ + join(
            built_names(jobs),
            " "@,
        ),
{
    assert(jobs.push(job).drop_last() =~= jobs);
}

/// A package that was built calls for a change of the register for each of its libraries that is
/// registered and not installed: the one that is installed in its place, under the version and the
/// revision of the template. Changes that other packages call for stay.
pub proof fn law_built_package_calls_for_changes(
    m: AppModel,
    log: Seq<char>,
    now: u64,
    i: int,
    j: int,
    other: PendingModel,
)
    requires
        0 <= i < m.packages.len(),
        0 <= j < m.packages[i].soname_mismatches.len(),
    ensures
        ({
            let p = m.packages[i].package;
            let after = build_step(m, BuildMsgModel::Finished(p.name, log), now).shlib_updates;
            &&& after.contains(
                PendingModel {
                    package: p.name,
                    old_soname: m.packages[i].soname_mismatches[j].registered,
                    new_soname: m.packages[i].soname_mismatches[j].installed,
                    new_pkg_ver: p.name + "-"@ + (p.version + "_"@ + decimal(p.revision as nat)),
                },
            )
            &&& other.package != p.name ==> (after.contains(other) <==> m.shlib_updates.contains(
                other,
            ))
        }),
{
    reveal(build_step);
    let p = m.packages[i].package;
    let kept = without_package(m.shlib_updates, p.name);
    let new = changes_for_all(m.packages, p.name);
    let after = build_step(m, BuildMsgModel::Finished(p.name, log), now).shlib_updates;
    assert(after == kept + new);
    let u = changes_for(m.packages[i])[j];
    lemma_change_is_there(m.packages, i, j);
    let k = choose|k: int| 0 <= k < new.len() && new[k] == u;
    assert(after[kept.len() + k] == u);
    assert(u.new_pkg_ver == p.name + "-"@ + (p.version + "_"@ + decimal(p.revision as nat)));
    if other.package != p.name {
        lemma_without_others(m.shlib_updates, p.name, other);
        if kept.contains(other) {
            let x = choose|x: int| 0 <= x < kept.len() && kept[x] == other;
            assert(after[x] == other);
        }
        if after.contains(other) {
            let x = choose|x: int| 0 <= x < after.len() && after[x] == other;
            if x >= kept.len() {
                lemma_changes_own(m.packages, p.name);
                assert(new[x - kept.len()].package == p.name);
            } else {
                assert(kept[x] == other);
            }
        }
    }
}

/// The changes that a package calls for are among those of its name.
proof fn lemma_change_is_there(ps: Seq<StateModel>, i: int, j: int)
    requires
        0 <= i < ps.len(),
        0 <= j < ps[i].soname_mismatches.len(),
    ensures
        changes_for_all(ps, ps[i].package.name).contains(changes_for(ps[i])[j]),
    decreases ps.len(),
{
    let name = ps[i].package.name;
    let u = changes_for(ps[i])[j];
    let front = ps.drop_last();
    let before = changes_for_all(front, name);
    let all = changes_for_all(ps, name);
    if i < front.len() {
        assert(front[i] == ps[i]);
        lemma_change_is_there(front, i, j);
        let k = choose|k: int| 0 <= k < before.len() && before[k] == u;
        assert(all[k] == u);
    } else {
        assert(ps.last() == ps[i]);
        assert(all[before.len() + j] == u);
    }
}

/// Taking out the changes of a package leaves those of the others.
proof fn lemma_without_others(us: Seq<PendingModel>, name: Seq<char>, u: PendingModel)
    requires
        u.package != name,
    ensures
        without_package(us, name).contains(u) <==> us.contains(u),
    decreases us.len(),
{
    if us.len() > 0 {
        let front = us.drop_last();
        let last = us[us.len() - 1];
        lemma_without_others(front, name, u);
        let kept = without_package(front, name);
        assert(us.contains(u) <==> front.contains(u) || last == u) by {
            if us.contains(u) && last != u {
                let k = choose|k: int| 0 <= k < us.len() && us[k] == u;
                assert(front[k] == u);
            }
            if front.contains(u) {
                let k = choose|k: int| 0 <= k < front.len() && front[k] == u;
                assert(us[k] == u);
            }
        }
        if last.package != name {
            assert(kept.push(last).contains(u) <==> kept.contains(u) || last == u) by {
                if kept.contains(u) {
                    let k = choose|k: int| 0 <= k < kept.len() && kept[k] == u;
                    assert(kept.push(last)[k] == u);
                }
                assert(kept.push(last)[kept.len() as int] == last);
                if kept.push(last).contains(u) && last != u {
                    let k = choose|k: int| 0 <= k < kept.push(last).len() && kept.push(last)[k]
                        == u;
                    assert(kept[k] == u);
                }
            }
        }
    }
}

/// What the messages of a bump do: its log is shown, what came of each template is said, and at its
/// end the packages are loaded again; where one failed, what was said of it stays.
pub proof fn law_bump_messages(
    m: AppModel,
    path: Seq<char>,
    name: Seq<char>,
    was: Seq<char>,
    now: Seq<char>,
    error: Seq<char>,
)
    ensures
        bump_step(m, BumpMsgModel::Started(path)).0.bump_log_path == Some(path),
        bump_step(m, BumpMsgModel::Done(name, was, now)).0 == (AppModel {
            status_msg: Some("Bumped "@ + name + " "@ + was + " \u{2192} "@ + now),
            ..m
        }),
        bump_step(m, BumpMsgModel::Failed(name, error)).0 == (AppModel {
            status_msg: Some("Bump failed for "@ + name + ": "@ + error),
            bump_had_failure: true,
            ..m
        }),
        !bump_step(m, BumpMsgModel::AllDone).0.template_bumping,
        !m.bump_had_failure ==> bump_step(m, BumpMsgModel::AllDone).1 == FollowupModel::Refresh,
        m.bump_had_failure ==> bump_step(m, BumpMsgModel::AllDone).1 == FollowupModel::RefreshThen(
            m.status_msg,
        ),
{
    reveal(bump_step);
}

/// What the messages of an operation on the branches do: each line is shown behind those before, a
/// failure with a mark; the outcome is said; and at its end the operation is over.
pub proof fn law_git_messages(m: AppModel, line: Seq<char>)
    ensures
        git_msg_step(m, GitMsgModel::Output(line)) == (AppModel {
            git_output: m.git_output.push(line),
            ..m
        }),
        git_msg_step(m, GitMsgModel::Success(line)) == (AppModel {
            git_output: m.git_output.push(line),
            status_msg: Some(line),
            ..m
        }),
        git_msg_step(m, GitMsgModel::Failed(line)) == (AppModel {
            git_output: m.git_output.push("ERR: "@ + line),
            status_msg: Some(line),
            ..m
        }),
        git_msg_step(m, GitMsgModel::Done) == (AppModel {
            git_op_active: false,
            git_current_op: None,
            ..m
        }),
{
    reveal(git_msg_step);
}

/// All messages of a sweep are taken in, in order, up to the one that ends it; so are those of a
/// build.
pub proof fn law_messages_are_taken_in_order(
    m: AppModel,
    first: MsgModel,
    rest: Seq<MsgModel>,
    msgs: Seq<BuildMsgModel>,
    last: BuildMsgModel,
    now: u64,
)
    ensures
        first is Found ==> after_versions(m, seq![first] + rest, now) == after_versions(
            version_step(m, first, now),
            rest,
            now,
        ),
        first is Done ==> after_versions(m, seq![first] + rest, now) == version_step(m, first, now),
        after_versions(m, Seq::<MsgModel>::empty(), now) == m,
        after_builds(m, msgs.push(last), now).0 == build_step(
            after_builds(m, msgs, now).0,
            last,
            now,
        ),
        after_builds(m, Seq::<BuildMsgModel>::empty(), now).0 == m,
        last is QueueComplete ==> after_builds(m, msgs.push(last), now).1
            == FollowupModel::RefreshThen(
            Some(queue_text(after_builds(m, msgs, now).0.build_queue.jobs)),
        ),
{
    let all = seq![first] + rest;
    assert(all[0] == first);
    assert(all.drop_first() =~= rest);
    assert(msgs.push(last).drop_last() =~= msgs);
}

/// Messages of a build that does not run are not taken in.
pub proof fn law_idle_build_is_left_alone(m: AppModel, msgs: Seq<BuildMsgModel>, now: u64)
    ensures
        !m.build_queue.active ==> build_polled(m, msgs, now) == (m, FollowupModel::Nothing),
        m.build_queue.active ==> build_polled(m, msgs, now).0.packages == after_builds(
            m,
            msgs,
            now,
        ).0.packages,
        m.build_queue.active ==> build_polled(m, msgs, now).0.build_queue.jobs == after_builds(
            m,
            msgs,
            now,
        ).0.build_queue.jobs,
        m.build_queue.active ==> build_polled(m, msgs, now).0.build_queue.current_output
            == last_lines(after_builds(m, msgs, now).0.build_queue.current_output),
        m.build_queue.active ==> build_polled(m, msgs, now).1 == after_builds(m, msgs, now).1,
{
}

/// All messages of a bump and of an operation on the branches are taken in, in order, up to the one
/// that ends it.
pub proof fn law_other_messages_are_taken_in_order(
    m: AppModel,
    bump: BumpMsgModel,
    bumps: Seq<BumpMsgModel>,
    git: GitMsgModel,
    gits: Seq<GitMsgModel>,
)
    ensures
        bump is AllDone ==> after_bumps(m, seq![bump] + bumps) == bump_step(m, bump),
        !(bump is AllDone) ==> after_bumps(m, seq![bump] + bumps) == after_bumps(
            bump_step(m, bump).0,
            bumps,
        ),
        after_bumps(m, Seq::<BumpMsgModel>::empty()) == (m, FollowupModel::Nothing),
        git is Done ==> after_git(m, seq![git] + gits) == (git_msg_step(m, git), true),
        !(git is Done) ==> after_git(m, seq![git] + gits) == after_git(git_msg_step(m, git), gits),
        after_git(m, Seq::<GitMsgModel>::empty()) == (m, false),
{
    let a = seq![bump] + bumps;
    let b = seq![git] + gits;
    assert(a[0] == bump && b[0] == git);
    assert(a.drop_first() =~= bumps);
    assert(b.drop_first() =~= gits);
}

/// At the end of a check the user is told how many versions were found, and where GitHub refused
/// requests also of how many packages, and what helps.
pub proof fn law_check_says_how_it_went(m: AppModel, count: nat, now: u64)
    ensures
        version_step(m, MsgModel::Done(count, false), now).status_msg == Some(
            "Checked "@ + decimal(count) + " packages"@,
        ),
        version_step(m, MsgModel::Done(count, true), now).status_msg == Some(
            "Checked "@ + decimal(count) + "/"@ + decimal(m.packages.len())
                + " packages \u{2014} GitHub rate limited (wait ~1hr or set GITHUB_TOKEN)"@,
        ),
{
    reveal(version_step);
}

} // verus!

//! The git side: where the branches stand, and the operations on them.

use vstd::prelude::*;

use crate::bump::lemma_trim_push_white;
use crate::line::is_word;
use crate::text::{
    chars_of, decimal, find_char, is_digit, is_white, law_decimal_reads_back, lemma_decimal,
    lemma_find_char, lemma_find_char_is, lemma_texts_push, number_u32, parse_number, runs,
    split_at_char, split_char, text_of, text_opt, texts, trim, trim_start, trimmed,
};

verus! {

broadcast use vstd::seq_lib::group_seq_properties;

/// Where the branches stand.
#[derive(Debug)]
pub struct GitStatus {
    pub branch: String,
    /// How many commits the branch with the packages has that the upstream branch has not.
    pub ahead: u32,
    /// How many commits the upstream branch has that the branch with the packages has not.
    pub behind: u32,
    /// When upstream was last fetched, in seconds since 1970.
    pub last_fetch: Option<u64>,
}

/// What a `GitStatus` holds.
pub struct GitStatusModel {
    pub branch: Seq<char>,
    pub ahead: u32,
    pub behind: u32,
    pub last_fetch: Option<u64>,
}

impl View for GitStatus {
    type V = GitStatusModel;

    open spec fn view(&self) -> GitStatusModel {
        GitStatusModel {
            branch: self.branch@,
            ahead: self.ahead,
            behind: self.behind,
            last_fetch: self.last_fetch,
        }
    }
}

pub open spec fn git_status_opt(o: Option<GitStatus>) -> Option<GitStatusModel> {
    match o {
        Some(s) => Some(s@),
        None => None,
    }
}

/// The number that a text writes, or 0.
pub open spec fn count_in(s: Seq<char>) -> u32 {
    match parse_number(s, u32::MAX as nat) {
        Some(n) => n as u32,
        None => 0,
    }
}

/// The two counts of commits that only one of two branches has: first those of the upstream
/// branch, then, behind a tab, those of the other.
pub open spec fn branch_counts(stdout: Seq<char>) -> (u32, u32) {
    let parts = split_char(trim(stdout), '\t');
    if parts.len() == 2 {
        (count_in(parts[0]), count_in(parts[1]))
    } else {
        (0, 0)
    }
}

/// Where the branches stand, by what git prints. Nothing is known where git cannot be run.
pub open spec fn status_by(
    branch: Option<Seq<char>>,
    counts: Option<Seq<char>>,
    last_fetch: Option<u64>,
) -> Option<GitStatusModel> {
    match (branch, counts) {
        (Some(b), Some(c)) => Some(
            GitStatusModel {
                branch: trim(b),
                behind: branch_counts(c).0,
                ahead: branch_counts(c).1,
                last_fetch,
            },
        ),
        _ => None,
    }
}

/// The number that a text writes, or 0.
fn count_of(s: &[char]) -> (r: u32)
    ensures
        r == count_in(s@),
{
    match number_u32(s) {
        Some(n) => n,
        None => 0,
    }
}

/// Where the branches stand, by what git prints of the branch that is checked out and of the
/// commits that only one of the two branches has.
pub fn get_git_status(
    branch: &Option<String>,
    counts: &Option<String>,
    last_fetch: Option<u64>,
) -> (r: Option<GitStatus>)
    ensures
        git_status_opt(r) == status_by(text_opt(*branch), text_opt(*counts), last_fetch),
{
    match (branch, counts) {
        (Some(b), Some(c)) => {
            let bc = chars_of(b.as_str());
            let cc = chars_of(c.as_str());
            let parts = split_at_char(trimmed(cc.as_slice()), '\t');
            let (behind, ahead): (u32, u32) = if parts.len() == 2 {
                assert(runs(parts@)[0] == parts@[0]@);
                assert(runs(parts@)[1] == parts@[1]@);
                (count_of(parts[0]), count_of(parts[1]))
            } else {
                (0, 0)
            };
            Some(
                GitStatus { branch: text_of(trimmed(bc.as_slice())), ahead, behind, last_fetch },
            )
        },
        _ => None,
    }
}

// ---------------------------------------------------------------------------------------------
// Operations
// ---------------------------------------------------------------------------------------------

/// What an operation reports.
#[derive(Debug)]
pub enum GitMsg {
    Output(String),
    Success(String),
    Failed(String),
    Done,
}

/// What a `GitMsg` holds.
pub enum GitMsgModel {
    Output(Seq<char>),
    Success(Seq<char>),
    Failed(Seq<char>),
    Done,
}

impl View for GitMsg {
    type V = GitMsgModel;

    open spec fn view(&self) -> GitMsgModel {
        match self {
            GitMsg::Output(s) => GitMsgModel::Output(s@),
            GitMsg::Success(s) => GitMsgModel::Success(s@),
            GitMsg::Failed(s) => GitMsgModel::Failed(s@),
            GitMsg::Done => GitMsgModel::Done,
        }
    }
}

pub open spec fn git_msgs(v: Seq<GitMsg>) -> Seq<GitMsgModel> {
    Seq::new(v.len(), |i: int| v[i]@)
}

/// The operations on the branches.
#[derive(Debug, Clone, Copy, PartialEq, Eq, Structural)]
pub enum GitOp {
    SyncMaster,
    RebaseCustom,
    PushCustom,
}

/// Where an operation is.
#[derive(Debug, Clone, Copy, PartialEq, Eq, Structural)]
pub enum GitStage {
    /// Nothing was done yet.
    Start,
    /// Its main command was run.
    Main,
    /// The command that completes or undoes it was run.
    Follow,
    /// It is over.
    Over,
}

/// What an operation wants next: these messages passed on, then git run with these arguments, its
/// output passed on where `streamed`.
#[derive(Debug)]
pub struct GitStep {
    pub messages: Vec<GitMsg>,
    pub command: Option<Vec<String>>,
    pub streamed: bool,
}

/// What a `GitStep` holds.
pub struct GitStepModel {
    pub messages: Seq<GitMsgModel>,
    pub command: Option<Seq<Seq<char>>>,
    pub streamed: bool,
}

impl View for GitStep {
    type V = GitStepModel;

    open spec fn view(&self) -> GitStepModel {
        GitStepModel {
            messages: git_msgs(self.messages@),
            command: match self.command {
                Some(v) => Some(texts(v@)),
                None => None,
            },
            streamed: self.streamed,
        }
    }
}

/// What is said before the main command of an operation.
pub open spec fn opening(op: GitOp) -> Seq<char> {
    match op {
        GitOp::SyncMaster => "Fetching void/master..."@,
        GitOp::RebaseCustom => "Rebasing custom onto master..."@,
        GitOp::PushCustom => "Pushing custom (--force-with-lease)..."@,
    }
}

/// The main command of an operation.
pub open spec fn main_command(op: GitOp) -> Seq<Seq<char>> {
    match op {
        GitOp::SyncMaster => seq!["fetch"@, "void"@, "master"@],
        GitOp::RebaseCustom => seq!["rebase"@, "master"@],
        GitOp::PushCustom => seq!["push"@, "origin"@, "custom"@, "--force-with-lease"@],
    }
}

pub open spec fn closing(m: GitMsgModel) -> GitStepModel {
    GitStepModel { messages: seq![m, GitMsgModel::Done], command: None, streamed: false }
}

/// One step of an operation, given whether the command before did what it should: its main
/// command, then the one that completes it (the fetched commits become the upstream branch) or
/// undoes it (a rebase that failed is aborted), then the end.
pub open spec fn git_step(op: GitOp, stage: GitStage, ok: bool) -> (GitStage, GitStepModel) {
    match stage {
        GitStage::Start => (
            GitStage::Main,
            GitStepModel {
                messages: seq![GitMsgModel::Output(opening(op))],
                command: Some(main_command(op)),
                streamed: true,
            },
        ),
        GitStage::Main => match op {
            GitOp::SyncMaster => if ok {
                (
                    GitStage::Follow,
                    GitStepModel {
                        messages: seq![
                            GitMsgModel::Output("Updating master ref to void/master..."@),
                        ],
                        command: Some(
                            seq![
                                "update-ref"@,
                                "refs/heads/master"@,
                                "refs/remotes/void/master"@,
                            ],
                        ),
                        streamed: false,
                    },
                )
            } else {
                (GitStage::Over, closing(GitMsgModel::Failed("fetch failed"@)))
            },
            GitOp::RebaseCustom => if ok {
                (GitStage::Over, closing(GitMsgModel::Success("Rebase complete"@)))
            } else {
                (
                    GitStage::Follow,
                    GitStepModel {
                        messages: seq![GitMsgModel::Output("Rebase failed, aborting..."@)],
                        command: Some(seq!["rebase"@, "--abort"@]),
                        streamed: false,
                    },
                )
            },
            GitOp::PushCustom => if ok {
                (GitStage::Over, closing(GitMsgModel::Success("Push complete"@)))
            } else {
                (GitStage::Over, closing(GitMsgModel::Failed("Push failed"@)))
            },
        },
        GitStage::Follow => match op {
            GitOp::SyncMaster => if ok {
                (GitStage::Over, closing(GitMsgModel::Success("Master synced to upstream"@)))
            } else {
                (GitStage::Over, closing(GitMsgModel::Failed("update-ref failed"@)))
            },
            _ => (GitStage::Over, closing(GitMsgModel::Failed("Rebase failed (aborted)"@))),
        },
        GitStage::Over => (
            GitStage::Over,
            GitStepModel { messages: Seq::empty(), command: None, streamed: false },
        ),
    }
}

/// The arguments of a command.
fn args2(a: &str, b: &str) -> (r: Vec<String>)
    ensures
        texts(r@) == seq![a@, b@],
{
    let mut v: Vec<String> = Vec::new();
    v.push(a.to_owned());
    v.push(b.to_owned());
    assert(texts(v@) =~= seq![a@, b@]);
    v
}

fn args3(a: &str, b: &str, c: &str) -> (r: Vec<String>)
    ensures
        texts(r@) == seq![a@, b@, c@],
{
    let mut v = args2(a, b);
    let s: String = c.to_owned();
    proof {
        lemma_texts_push(v@, s);
    }
    v.push(s);
    assert(texts(v@) =~= seq![a@, b@, c@]);
    v
}

fn args4(a: &str, b: &str, c: &str, d: &str) -> (r: Vec<String>)
    ensures
        texts(r@) == seq![a@, b@, c@, d@],
{
    let mut v = args3(a, b, c);
    let s: String = d.to_owned();
    proof {
        lemma_texts_push(v@, s);
    }
    v.push(s);
    assert(texts(v@) =~= seq![a@, b@, c@, d@]);
    v
}

/// A step that says something and runs a command.
fn run_step(text: &str, command: Vec<String>, streamed: bool) -> (r: GitStep)
    ensures
        r@ == (GitStepModel {
            messages: seq![GitMsgModel::Output(text@)],
            command: Some(texts(command@)),
            streamed,
        }),
{
    let mut messages: Vec<GitMsg> = Vec::new();
    messages.push(GitMsg::Output(text.to_owned()));
    assert(git_msgs(messages@) =~= seq![GitMsgModel::Output(text@)]);
    GitStep { messages, command: Some(command), streamed }
}

/// The last step of an operation.
fn close_step(msg: GitMsg) -> (r: GitStep)
    ensures
        r@ == closing(msg@),
{
    let mut messages: Vec<GitMsg> = Vec::new();
    messages.push(msg);
    messages.push(GitMsg::Done);
    assert(git_msgs(messages@) =~= seq![msg@, GitMsgModel::Done]);
    GitStep { messages, command: None, streamed: false }
}

/// One step of an operation: what to do next, given whether the command before did what it
/// should.
pub fn run_git_op(op: GitOp, stage: &mut GitStage, ok: bool) -> (r: GitStep)
    ensures
        (*final(stage), r@) == git_step(op, *old(stage), ok),
{
    match *stage {
        GitStage::Start => {
            *stage = GitStage::Main;
            match op {
                GitOp::SyncMaster => run_step(
                    "Fetching void/master...",
                    args3("fetch", "void", "master"),
                    true,
                ),
                GitOp::RebaseCustom => run_step(
                    "Rebasing custom onto master...",
                    args2("rebase", "master"),
                    true,
                ),
                GitOp::PushCustom => run_step(
                    "Pushing custom (--force-with-lease)...",
                    args4("push", "origin", "custom", "--force-with-lease"),
                    true,
                ),
            }
        },
        GitStage::Main => match op {
            GitOp::SyncMaster => if ok {
                *stage = GitStage::Follow;
                run_step(
                    "Updating master ref to void/master...",
                    args3("update-ref", "refs/heads/master", "refs/remotes/void/master"),
                    false,
                )
            } else {
                *stage = GitStage::Over;
                close_step(GitMsg::Failed("fetch failed".to_owned()))
            },
            GitOp::RebaseCustom => if ok {
                *stage = GitStage::Over;
                close_step(GitMsg::Success("Rebase complete".to_owned()))
            } else {
                *stage = GitStage::Follow;
                run_step("Rebase failed, aborting...", args2("rebase", "--abort"), false)
            },
            GitOp::PushCustom => {
                *stage = GitStage::Over;
                if ok {
                    close_step(GitMsg::Success("Push complete".to_owned()))
                } else {
                    close_step(GitMsg::Failed("Push failed".to_owned()))
                }
            },
        },
        GitStage::Follow => {
            *stage = GitStage::Over;
            match op {
                GitOp::SyncMaster => if ok {
                    close_step(GitMsg::Success("Master synced to upstream".to_owned()))
                } else {
                    close_step(GitMsg::Failed("update-ref failed".to_owned()))
                },
                _ => close_step(GitMsg::Failed("Rebase failed (aborted)".to_owned())),
            }
        },
        GitStage::Over => {
            let messages: Vec<GitMsg> = Vec::new();
            assert(git_msgs(messages@) =~= Seq::empty());
            GitStep { messages, command: None, streamed: false }
        },
    }
}

/// An operation says that it is done exactly when it wants nothing more run.
pub proof fn law_done_is_said_last(op: GitOp, stage: GitStage, ok: bool)
    requires
        stage != GitStage::Over,
    ensures
        git_step(op, stage, ok).1.messages.last() == GitMsgModel::Done <==> git_step(
            op,
            stage,
            ok,
        ).1.command is None,
        git_step(op, stage, ok).1.command is None <==> git_step(op, stage, ok).0 == GitStage::Over,
{
}

/// An operation is over after at most three steps.
pub proof fn law_git_op_ends(op: GitOp, first: bool, second: bool, third: bool)
    ensures
        ({
            let a = git_step(op, GitStage::Start, first).0;
            let b = git_step(op, a, second).0;
            git_step(op, b, third).0
        }) == GitStage::Over,
{
}

/// A rebase that fails is aborted, and then reported as failed.
pub proof fn law_failed_rebase_is_aborted(ok: bool)
    ensures
        git_step(GitOp::RebaseCustom, GitStage::Main, false).1.command == Some(
            seq!["rebase"@, "--abort"@],
        ),
        git_step(GitOp::RebaseCustom, GitStage::Follow, ok).1.messages == seq![
            GitMsgModel::Failed("Rebase failed (aborted)"@),
            GitMsgModel::Done,
        ],
{
}

/// Where the branches stand is read from what git prints: the commits that only the upstream branch
/// has, a tab, and those that only the other has.
pub proof fn law_counts_are_read(
    branch: Seq<char>,
    behind: u32,
    ahead: u32,
    last_fetch: Option<u64>,
)
    requires
        is_word(branch),
    ensures
        status_by(
            Some(branch + "\n"@),
            Some(decimal(behind as nat) + "\t"@ + decimal(ahead as nat) + "\n"@),
            last_fetch,
        ) == Some(GitStatusModel { branch, behind, ahead, last_fetch }),
        status_by(None, Some(branch), last_fetch) is None,
        status_by(Some(branch), None, last_fetch) is None,
{
    reveal_strlit("\t");
    reveal_strlit("\n");
    let (a, b) = (decimal(behind as nat), decimal(ahead as nat));
    lemma_decimal(behind as nat);
    lemma_decimal(ahead as nat);
    assert(is_digit(a[0]) && is_digit(b[b.len() - 1]));
    let s = a + "\t"@ + b;
    assert(s[0] == a[0] && s.last() == b[b.len() - 1]);
    lemma_line_trimmed(s);
    assert(branch.last() == branch[branch.len() - 1]);
    lemma_line_trimmed(branch);
    let n = a.len() as int;
    assert(s[n] == '\t');
    assert forall|j: int| 0 <= j < n implies s[j] != '\t' by {
        assert(is_digit(a[j]));
    }
    lemma_find_char_is(s, '\t', n);
    assert(s.take(n) =~= a);
    assert(s.skip(n + 1) =~= b);
    lemma_find_char(b, '\t');
    if let Some(j) = find_char(b, '\t') {
        assert(is_digit(b[j]));
    }
    assert(split_char(b, '\t') =~= seq![b]);
    let parts = split_char(s, '\t');
    assert(parts =~= seq![a, b]);
    assert(parts[0] == a && parts[1] == b);
    law_decimal_reads_back(behind as nat, u32::MAX as nat);
    law_decimal_reads_back(ahead as nat, u32::MAX as nat);
}

/// A line without white space at its ends, trimmed.
proof fn lemma_line_trimmed(s: Seq<char>)
    requires
        s.len() > 0,
        !is_white(s[0]),
        !is_white(s.last()),
    ensures
        trim(s + "\n"@) == s,
{
    reveal_strlit("\n");
    assert(s + "\n"@ =~= s.push('\n'));
    lemma_trim_push_white(s, '\n');
    assert(trim_start(s) == s);
    assert(trim(s) == s);
}

/// What the operations run: a sync fetches the upstream branch and then moves the local one to it, a
/// rebase puts the commits of the checkout on it, and a push overwrites only what was last seen.
pub proof fn law_git_commands(op: GitOp, ok: bool)
    ensures
        git_step(GitOp::SyncMaster, GitStage::Start, ok).1.command == Some(
            seq!["fetch"@, "void"@, "master"@],
        ),
        git_step(GitOp::SyncMaster, GitStage::Main, true).1.command == Some(
            seq!["update-ref"@, "refs/heads/master"@, "refs/remotes/void/master"@],
        ),
        git_step(GitOp::RebaseCustom, GitStage::Start, ok).1.command == Some(
            seq!["rebase"@, "master"@],
        ),
        git_step(GitOp::PushCustom, GitStage::Start, ok).1.command == Some(
            seq!["push"@, "origin"@, "custom"@, "--force-with-lease"@],
        ),
        git_step(op, GitStage::Start, ok).0 == GitStage::Main,
{
}

/// An operation says that it succeeded exactly where every command that belongs to it did: a sync
/// where the fetch and the move did, a rebase and a push where they did themselves.
pub proof fn law_success_needs_every_command(main: bool, follow: bool)
    ensures
        main ==> git_step(GitOp::SyncMaster, GitStage::Main, main).0 == GitStage::Follow,
        !main ==> git_step(GitOp::SyncMaster, GitStage::Main, main).1.messages[0] is Failed
            && git_step(GitOp::SyncMaster, GitStage::Main, main).0 == GitStage::Over,
        follow <==> git_step(GitOp::SyncMaster, GitStage::Follow, follow).1.messages[0] is Success,
        !follow <==> git_step(GitOp::SyncMaster, GitStage::Follow, follow).1.messages[0] is Failed,
        main <==> git_step(GitOp::RebaseCustom, GitStage::Main, main).1.messages[0] is Success,
        !main ==> git_step(GitOp::RebaseCustom, GitStage::Main, main).0 == GitStage::Follow,
        git_step(GitOp::RebaseCustom, GitStage::Follow, follow).1.messages[0] is Failed,
        main <==> git_step(GitOp::PushCustom, GitStage::Main, main).1.messages[0] is Success,
        !main <==> git_step(GitOp::PushCustom, GitStage::Main, main).1.messages[0] is Failed,
{
}

} // verus!

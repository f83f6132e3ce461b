//! Operations on the branches.

use vxpm::git::{get_git_status, run_git_op, GitMsg, GitOp, GitStage};

fn some(s: &str) -> Option<String> {
    Some(s.to_string())
}

/// Runs an operation whose commands go as `oks` says; gives the commands and the messages.
fn run(op: GitOp, oks: &[bool]) -> (Vec<String>, Vec<String>) {
    let mut stage = GitStage::Start;
    let mut commands = Vec::new();
    let mut said = Vec::new();
    let mut ok = true;
    let mut i = 0;
    loop {
        let step = run_git_op(op, &mut stage, ok);
        for m in &step.messages {
            said.push(match m {
                GitMsg::Output(s) => s.clone(),
                GitMsg::Success(s) => format!("success: {}", s),
                GitMsg::Failed(s) => format!("failed: {}", s),
                GitMsg::Done => "done".to_string(),
            });
        }
        match step.command {
            Some(args) => {
                assert_eq!(step.streamed, commands.is_empty());
                commands.push(args.join(" "));
                ok = oks[i];
                i += 1;
            }
            None => break,
        }
    }
    assert_eq!(stage, GitStage::Over);
    (commands, said)
}

#[test]
fn where_the_branches_stand() {
    let status = get_git_status(&some("custom\n"), &some("3\t12\n"), Some(7)).unwrap();
    assert_eq!(status.branch, "custom");
    assert_eq!(status.behind, 3);
    assert_eq!(status.ahead, 12);
    assert_eq!(status.last_fetch, Some(7));
    let odd = get_git_status(&some("x"), &some("3 12"), None).unwrap();
    assert_eq!((odd.ahead, odd.behind), (0, 0));
    let bad = get_git_status(&some("x"), &some("a\t4294967296"), None).unwrap();
    assert_eq!((bad.ahead, bad.behind), (0, 0));
    assert!(get_git_status(&None, &some("1\t1"), None).is_none());
    assert!(get_git_status(&some("x"), &None, None).is_none());
}

#[test]
fn syncing_master() {
    let (commands, said) = run(GitOp::SyncMaster, &[true, true]);
    assert_eq!(
        commands,
        ["fetch void master", "update-ref refs/heads/master refs/remotes/void/master"]
    );
    assert_eq!(
        said,
        [
            "Fetching void/master...",
            "Updating master ref to void/master...",
            "success: Master synced to upstream",
            "done"
        ]
    );
    let (commands, said) = run(GitOp::SyncMaster, &[false]);
    assert_eq!(commands.len(), 1);
    assert_eq!(said, ["Fetching void/master...", "failed: fetch failed", "done"]);
    let (_, said) = run(GitOp::SyncMaster, &[true, false]);
    assert_eq!(said[2..], ["failed: update-ref failed", "done"]);
}

#[test]
fn a_failed_rebase_is_aborted() {
    for abort in [true, false] {
        let (commands, said) = run(GitOp::RebaseCustom, &[false, abort]);
        assert_eq!(commands, ["rebase master", "rebase --abort"]);
        assert_eq!(
            said,
            [
                "Rebasing custom onto master...",
                "Rebase failed, aborting...",
                "failed: Rebase failed (aborted)",
                "done"
            ]
        );
    }
    let (commands, said) = run(GitOp::RebaseCustom, &[true]);
    assert_eq!(commands, ["rebase master"]);
    assert_eq!(said[1..], ["success: Rebase complete", "done"]);
}

#[test]
fn pushing_custom() {
    let (commands, said) = run(GitOp::PushCustom, &[true]);
    assert_eq!(commands, ["push origin custom --force-with-lease"]);
    assert_eq!(said, ["Pushing custom (--force-with-lease)...", "success: Push complete", "done"]);
    let (_, said) = run(GitOp::PushCustom, &[false]);
    assert_eq!(said[1..], ["failed: Push failed", "done"]);
}

#[test]
fn an_operation_that_is_over_does_nothing() {
    let mut stage = GitStage::Over;
    let step = run_git_op(GitOp::PushCustom, &mut stage, true);
    assert!(step.messages.is_empty());
    assert!(step.command.is_none());
    assert_eq!(stage, GitStage::Over);
}

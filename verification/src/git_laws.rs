//! What holds of the synchronization of a working tree, said of the replies as
//! they come in.

use vstd::prelude::*;

use crate::error::ErrorModel;
use crate::git::{Reply, StepModel, SyncAction, SyncResultModel, sync_step};
use crate::model::RecordModel;
use crate::provider::canonical_remote;
use crate::text::{begins, debug_text, lossy_text, trimmed};

verus! {

/// Whether Git ran and succeeded.
pub open spec fn succeeded(reply: Reply) -> bool {
    reply matches Reply::Output(output) && output.success
}

/// Whether Git ran, succeeded and wrote a text, with white space around it or
/// not.
pub open spec fn wrote(reply: Reply, text: Seq<char>) -> bool {
    reply matches Reply::Output(output) && output.success && trimmed(lossy_text(output.stdout@))
        == text
}

/// Whether Git ran and found nothing, which it says with the exit code one.
pub open spec fn found_nothing(reply: Reply) -> bool {
    reply matches Reply::Output(output) && !output.success && output.code == Some(1i32)
}

/// Whether Git did not run, or failed otherwise than by finding nothing.
pub open spec fn went_wrong(reply: Reply) -> bool {
    match reply {
        Reply::NotRun(_) => true,
        Reply::Output(output) => !output.success && output.code != Some(1i32),
        _ => false,
    }
}

/// Whether the canonical form of a remote is the recorded one. For a remote that
/// is a path of this machine the reply names what the file system makes of it.
pub open spec fn is_recorded(repo: RecordModel, origin: Seq<char>, reply: Reply) -> bool {
    match reply {
        Reply::Resolved(None) => canonical_remote(origin, None) == Ok::<Seq<char>, ErrorModel>(
            repo.canonical_url,
        ),
        Reply::Resolved(Some(path)) => canonical_remote(origin, Some(path@)) == Ok::<
            Seq<char>,
            ErrorModel,
        >(repo.canonical_url),
        _ => false,
    }
}

/// Whether a step is the end with an error.
pub open spec fn is_failure(step: StepModel) -> bool {
    step matches StepModel::Finish(Err(_))
}

/// In an existing working tree nothing is done behind the check of its remote,
/// neither a fetch nor a merge nor a successful end, unless the canonical form
/// of the remote that is stored there is the recorded one.
pub proof fn law_only_the_recorded_remote_is_used(
    repo: RecordModel,
    all: bool,
    replies: Seq<Reply>,
)
    requires
        replies.len() >= 2,
        !is_failure(sync_step(repo, true, true, all, replies)),
    ensures
        exists|origin: Seq<char>| #[trigger]
            wrote(replies[0], origin) && is_recorded(repo, origin, replies[1]),
{
    if let Reply::Output(output) = replies[0] {
        let origin = trimmed(lossy_text(output.stdout@));
        assert(wrote(replies[0], origin));
        if let Reply::Resolved(resolved) = replies[1] {
            assert(is_recorded(repo, origin, replies[1]));
        }
    }
}

/// A working tree with another remote than the recorded one is refused with a
/// message that names both, whatever comes behind.
pub proof fn law_other_remotes_are_refused(
    repo: RecordModel,
    all: bool,
    replies: Seq<Reply>,
    origin: Seq<char>,
    resolved: Option<String>,
    canonical: Seq<char>,
)
    requires
        replies.len() >= 2,
        wrote(replies[0], origin),
        replies[1] == Reply::Resolved(resolved),
        canonical_remote(
            origin,
            match resolved {
                Some(path) => Some(path@),
                None => None,
            },
        ) == Ok::<Seq<char>, ErrorModel>(canonical),
        canonical != repo.canonical_url,
    ensures
        sync_step(repo, true, true, all, replies) == StepModel::Finish(
            Err::<SyncResultModel, ErrorModel>(
                ErrorModel::Git(
                    repo.local_path + " has origin "@ + debug_text(origin) + ", expected "@
                        + debug_text(repo.clone_url),
                ),
            ),
        ),
{
}

/// Whether the replies show that a working tree has the recorded remote and was
/// fetched from it.
pub open spec fn was_fetched(repo: RecordModel, replies: Seq<Reply>, origin: Seq<char>) -> bool {
    &&& replies.len() >= 3
    &&& wrote(replies[0], origin)
    &&& is_recorded(repo, origin, replies[1])
    &&& succeeded(replies[2])
}

/// Whether the default branch is known to be the given one: it is recorded, or
/// the remote, which was asked next, names it behind its own name.
pub open spec fn branch_known(
    repo: RecordModel,
    replies: Seq<Reply>,
    i: int,
    branch: Seq<char>,
) -> bool {
    match repo.default_branch {
        Some(recorded) => branch == recorded,
        None => replies.len() > i && wrote(replies[i], "origin/"@ + branch),
    }
}

/// Whether the default branch is neither recorded nor named by the remote.
pub open spec fn branch_unknown(repo: RecordModel, replies: Seq<Reply>, i: int) -> bool {
    &&& repo.default_branch is None
    &&& replies.len() > i
    &&& found_nothing(replies[i]) || exists|text: Seq<char>| #[trigger]
        wrote(replies[i], text) && !begins(text, "origin/"@)
}

/// The number of replies before that about the changes of the working tree: the
/// remote is asked for its default branch only where none is recorded.
pub open spec fn replies_before_changes(repo: RecordModel) -> int {
    if repo.default_branch is Some {
        3
    } else {
        4
    }
}

/// A text behind a prefix is what is left of both without it.
proof fn lemma_behind_prefix(prefix: Seq<char>, text: Seq<char>)
    ensures
        crate::text::after_prefix(prefix + text, prefix) == Some(text),
{
    let whole = prefix + text;
    assert(whole.subrange(0, prefix.len() as int) =~= prefix);
    assert(whole.subrange(prefix.len() as int, whole.len() as int) =~= text);
}

/// What is asked of an existing working tree: first for the remote that is
/// stored there and what the file system makes of it. Once that is the recorded
/// one, it is fetched: all branches where that was asked for, else the recorded
/// branch alone, else what the remote offers. Then, if no default branch is
/// recorded, that of the remote is asked for.
pub proof fn law_existing_working_trees_are_fetched_as_asked(
    repo: RecordModel,
    all: bool,
    replies: Seq<Reply>,
    origin: Seq<char>,
)
    ensures
        replies.len() == 0 ==> sync_step(repo, true, true, all, replies) == StepModel::Run(
            seq!["config"@, "--get"@, "remote.origin.url"@],
        ),
        replies.len() == 1 && wrote(replies[0], origin) ==> sync_step(repo, true, true, all, replies)
            == StepModel::Resolve(origin),
        replies.len() == 2 && wrote(replies[0], origin) && is_recorded(repo, origin, replies[1])
            ==> {
            &&& sync_step(repo, true, true, all, replies) matches StepModel::Run(args)
            &&& args.len() >= 4
            &&& args.take(4) == seq!["fetch"@, "--quiet"@, "--prune"@, "origin"@]
            &&& all ==> args.len() == 5 && args[4] == "+refs/heads/*:refs/remotes/origin/*"@
            &&& !all ==> match repo.default_branch {
                Some(branch) => args.len() == 5 && args[4] == "+refs/heads/"@ + branch
                    + ":refs/remotes/origin/"@ + branch,
                None => args.len() == 4,
            }
        },
        replies.len() == 3 && was_fetched(repo, replies, origin) && repo.default_branch is None
            ==> sync_step(repo, true, true, all, replies) == StepModel::Run(
            seq!["symbolic-ref"@, "--quiet"@, "--short"@, "refs/remotes/origin/HEAD"@],
        ),
{
    let args = crate::git::fetch_args(repo.default_branch, all);
    assert(args.take(4) =~= seq!["fetch"@, "--quiet"@, "--prune"@, "origin"@]);
}

/// Then, if there is no default branch, the working tree is left as it is once
/// its state was asked for.
pub proof fn law_unknown_branches_are_left(
    repo: RecordModel,
    all: bool,
    replies: Seq<Reply>,
    origin: Seq<char>,
)
    requires
        was_fetched(repo, replies, origin),
        branch_unknown(repo, replies, 3),
        replies.len() >= 6,
        succeeded(replies[4]),
        succeeded(replies[5]) || found_nothing(replies[5]),
    ensures
        sync_step(repo, true, true, all, replies) == StepModel::Finish(
            Ok::<SyncResultModel, ErrorModel>(
                SyncResultModel {
                    action: SyncAction::Fetched,
                    detail: Some(
                        "default branch is unknown; fetched without updating the worktree"@,
                    ),
                    detected_default_branch: None,
                },
            ),
        ),
{
}

/// The outcome of leaving a working tree as it is.
pub open spec fn left(detail: Seq<char>, branch: Seq<char>) -> StepModel {
    StepModel::Finish(
        Ok(
            SyncResultModel {
                action: SyncAction::Fetched,
                detail: Some(detail),
                detected_default_branch: Some(branch),
            },
        ),
    )
}

/// Once a working tree with a known default branch was fetched, its changes and
/// the branch that is checked out are asked for. If no branch or another one is
/// checked out, or there are changes, it is left as it is, and the outcome says
/// why.
pub proof fn law_local_work_is_left_alone(
    repo: RecordModel,
    all: bool,
    replies: Seq<Reply>,
    origin: Seq<char>,
    branch: Seq<char>,
    changes: Seq<char>,
    other: Seq<char>,
)
    requires
        was_fetched(repo, replies, origin),
        branch_known(repo, replies, 3, branch),
    ensures
        ({
            let p = replies_before_changes(repo);
            let step = sync_step(repo, true, true, all, replies);
            &&& replies.len() == p ==> step == StepModel::Run(
                seq!["status"@, "--porcelain=v1"@, "--untracked-files=normal"@],
            )
            &&& replies.len() == p + 1 && wrote(replies[p], changes) ==> step == StepModel::Run(
                seq!["symbolic-ref"@, "--quiet"@, "--short"@, "HEAD"@],
            )
            &&& replies.len() >= p + 2 && wrote(replies[p], changes) ==> {
                &&& found_nothing(replies[p + 1]) ==> step == left(
                    "detached HEAD; fetched without updating the worktree"@,
                    branch,
                )
                &&& wrote(replies[p + 1], other) && other != branch ==> step == left(
                    "on branch "@ + debug_text(other) + "; fetched without switching to "@
                        + debug_text(branch),
                    branch,
                )
                &&& wrote(replies[p + 1], branch) && changes.len() > 0 ==> step == left(
                    "working tree has local changes; fetched without updating it"@,
                    branch,
                )
            }
        }),
{
    lemma_behind_prefix("origin/"@, branch);
}

/// Whether the replies show a clean working tree on its default branch, the
/// commit that is checked out and that of the remote.
pub open spec fn is_clean_at(
    repo: RecordModel,
    replies: Seq<Reply>,
    branch: Seq<char>,
    head: Seq<char>,
    remote_head: Seq<char>,
) -> bool {
    let p = replies_before_changes(repo);
    &&& replies.len() >= p + 4
    &&& wrote(replies[p], Seq::empty())
    &&& wrote(replies[p + 1], branch)
    &&& wrote(replies[p + 2], head)
    &&& wrote(replies[p + 3], remote_head)
}

/// Of a clean working tree on its default branch the commit and that of the
/// remote are asked for, and whether the first is behind the second unless they
/// are the same.
pub proof fn law_clean_working_trees_are_compared(
    repo: RecordModel,
    all: bool,
    replies: Seq<Reply>,
    origin: Seq<char>,
    branch: Seq<char>,
    head: Seq<char>,
    remote_head: Seq<char>,
)
    requires
        was_fetched(repo, replies, origin),
        branch_known(repo, replies, 3, branch),
        replies.len() >= replies_before_changes(repo) + 2,
        wrote(replies[replies_before_changes(repo)], Seq::empty()),
        wrote(replies[replies_before_changes(repo) + 1], branch),
    ensures
        ({
            let p = replies_before_changes(repo);
            let step = sync_step(repo, true, true, all, replies);
            &&& replies.len() == p + 2 ==> step == StepModel::Run(seq!["rev-parse"@, "HEAD"@])
            &&& replies.len() == p + 3 && wrote(replies[p + 2], head) ==> step == StepModel::Run(
                seq!["rev-parse"@, "origin/"@ + branch],
            )
            &&& replies.len() == p + 4 && is_clean_at(repo, replies, branch, head, remote_head)
                && head != remote_head ==> step == StepModel::Run(
                seq!["merge-base"@, "--is-ancestor"@, "HEAD"@, "origin/"@ + branch],
            )
        }),
{
    lemma_behind_prefix("origin/"@, branch);
}

/// A clean working tree on its default branch stays unchanged where it is at the
/// commit of the remote; it is moved forward where it is behind; and it is left
/// as it is where it is not.
pub proof fn law_clean_working_trees_follow_their_remote(
    repo: RecordModel,
    all: bool,
    replies: Seq<Reply>,
    origin: Seq<char>,
    branch: Seq<char>,
    head: Seq<char>,
    remote_head: Seq<char>,
)
    requires
        was_fetched(repo, replies, origin),
        branch_known(repo, replies, 3, branch),
        is_clean_at(repo, replies, branch, head, remote_head),
    ensures
        ({
            let p = replies_before_changes(repo);
            let step = sync_step(repo, true, true, all, replies);
            if head == remote_head {
                step == StepModel::Finish(
                    Ok::<SyncResultModel, ErrorModel>(
                        SyncResultModel {
                            action: SyncAction::Unchanged,
                            detail: None,
                            detected_default_branch: Some(branch),
                        },
                    ),
                )
            } else {
                &&& replies.len() >= p + 5 && found_nothing(replies[p + 4]) ==> step == left(
                    "local default branch has diverged; fetched without updating it"@,
                    branch,
                )
                &&& replies.len() == p + 5 && succeeded(replies[p + 4]) ==> step == StepModel::Run(
                    seq!["merge"@, "--quiet"@, "--ff-only"@, "origin/"@ + branch],
                )
                &&& replies.len() >= p + 6 && succeeded(replies[p + 4]) && succeeded(replies[p + 5])
                    ==> step == StepModel::Finish(
                    Ok::<SyncResultModel, ErrorModel>(
                        SyncResultModel {
                            action: SyncAction::FastForwarded,
                            detail: None,
                            detected_default_branch: Some(branch),
                        },
                    ),
                )
            }
        }),
{
    lemma_behind_prefix("origin/"@, branch);
}

/// The message about a reply that shows that something went wrong with Git in a
/// directory.
pub open spec fn git_message(path: Seq<char>, reply: Reply) -> Seq<char> {
    match reply {
        Reply::NotRun(message) => "could not run git in "@ + path + ": "@ + message@,
        Reply::Output(output) => "git in "@ + path + " exited with "@ + output.status@ + ": "@
            + trimmed(lossy_text(output.stderr@)),
        _ => Seq::empty(),
    }
}

/// Where Git is run and something goes wrong, the synchronization ends with an
/// error that says what Git complained about.
pub proof fn law_failures_of_git_are_reported(
    repo: RecordModel,
    exists: bool,
    has_git_dir: bool,
    all: bool,
    replies: Seq<Reply>,
    reply: Reply,
)
    requires
        sync_step(repo, exists, has_git_dir, all, replies) is Run || sync_step(
            repo,
            exists,
            has_git_dir,
            all,
            replies,
        ) is Clone,
        went_wrong(reply),
    ensures
        sync_step(repo, exists, has_git_dir, all, replies.push(reply)) == StepModel::Finish(
            Err::<SyncResultModel, ErrorModel>(
                ErrorModel::Git(
                    git_message(
                        if !exists && replies.len() == 1 {
                            replies[0]->Directory_0@
                        } else {
                            repo.local_path
                        },
                        reply,
                    ),
                ),
            ),
        ),
{
    let after = replies.push(reply);
    assert(forall|i: int| 0 <= i < replies.len() ==> after[i] == replies[i]);
    assert(after[replies.len() as int] == reply);
}

/// A repository without a working tree is cloned from its remote into a
/// temporary directory: its recorded branch where there is one, and no other
/// branch unless all were asked for. The complete clone takes the place of the
/// working tree, and the outcome names the default branch.
pub proof fn law_missing_working_trees_are_cloned(
    repo: RecordModel,
    has_git_dir: bool,
    all: bool,
    replies: Seq<Reply>,
    branch: Seq<char>,
)
    ensures
        ({
            let step = sync_step(repo, false, has_git_dir, all, replies);
            &&& replies.len() == 0 ==> step is MakeTemporary
            &&& replies.len() == 1 && replies[0] is Directory ==> {
                &&& step matches StepModel::Clone(args)
                &&& match (all, repo.default_branch) {
                    (true, None) => args == seq!["clone"@, "--quiet"@, repo.clone_url],
                    (true, Some(known)) => args == seq![
                        "clone"@,
                        "--quiet"@,
                        "--branch"@,
                        known,
                        repo.clone_url,
                    ],
                    (false, None) => args == seq![
                        "clone"@,
                        "--quiet"@,
                        "--single-branch"@,
                        repo.clone_url,
                    ],
                    (false, Some(known)) => args == seq![
                        "clone"@,
                        "--quiet"@,
                        "--single-branch"@,
                        "--branch"@,
                        known,
                        repo.clone_url,
                    ],
                }
            }
            &&& replies.len() == 2 && replies[0] is Directory && succeeded(replies[1])
                ==> step is Install
            &&& replies.len() >= 3 && replies[0] is Directory && succeeded(replies[1])
                && replies[2] is Done ==> {
                &&& replies.len() == 3 && repo.default_branch is None ==> step == StepModel::Run(
                    seq!["symbolic-ref"@, "--quiet"@, "--short"@, "refs/remotes/origin/HEAD"@],
                )
                &&& branch_known(repo, replies, 3, branch) ==> step == StepModel::Finish(
                    Ok::<SyncResultModel, ErrorModel>(
                        SyncResultModel {
                            action: SyncAction::Cloned,
                            detail: None,
                            detected_default_branch: Some(branch),
                        },
                    ),
                )
                &&& branch_unknown(repo, replies, 3) ==> step == StepModel::Finish(
                    Ok::<SyncResultModel, ErrorModel>(
                        SyncResultModel {
                            action: SyncAction::Cloned,
                            detail: None,
                            detected_default_branch: None,
                        },
                    ),
                )
            }
        }),
{
    lemma_behind_prefix("origin/"@, branch);
    let args = crate::git::clone_args(repo, all);
    match (all, repo.default_branch) {
        (true, None) => {
            assert(args =~= seq!["clone"@, "--quiet"@, repo.clone_url]);
        },
        (true, Some(known)) => {
            assert(args =~= seq!["clone"@, "--quiet"@, "--branch"@, known, repo.clone_url]);
        },
        (false, None) => {
            assert(args =~= seq!["clone"@, "--quiet"@, "--single-branch"@, repo.clone_url]);
        },
        (false, Some(known)) => {
            assert(args =~= seq![
                "clone"@,
                "--quiet"@,
                "--single-branch"@,
                "--branch"@,
                known,
                repo.clone_url,
            ]);
        },
    }
}

/// What is at the place of a working tree and is none is never touched.
pub proof fn law_other_directories_are_refused(repo: RecordModel, all: bool, replies: Seq<Reply>)
    ensures
        sync_step(repo, true, false, all, replies) == StepModel::Finish(
            Err::<SyncResultModel, ErrorModel>(
                ErrorModel::Git(repo.local_path + " exists but is not a Git working tree"@),
            ),
        ),
{
}

}

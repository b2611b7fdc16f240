//! What holds of pruning, said of the replies as they come in.

use vstd::prelude::*;

use crate::error::ErrorModel;
use crate::git::{PathKind, Reply};
use crate::git_laws::{found_nothing, git_message, succeeded, went_wrong, wrote};
use crate::model::RecordModel;
use crate::path::{components, within};
use crate::prune::{
    Folder, PruneAction, PruneModel, RepoPruneReport, inactive, prune_step, removals, removals_of,
    reports, retained, worktree_count,
};
use crate::text::{begins, opt_text, split};

verus! {

/// The end with something done.
pub open spec fn ends_with(step: PruneModel, action: PruneAction) -> bool {
    step matches PruneModel::Finish(Ok(done)) && done == action
}

/// Whether a step is the end with an error.
pub open spec fn refuses(step: PruneModel) -> bool {
    step matches PruneModel::Finish(Err(_))
}

/// A dry run tells what a real run does. With the same replies it says that the
/// working tree would be deleted exactly where the real run deletes it, and that
/// the record would be removed exactly where the real run removes it; in all
/// else, in what it asks, what it keeps and what it refuses, it is the same.
pub proof fn law_dry_runs_foretell_real_runs(
    repos_dir: Seq<char>,
    repos_dir_is_symlink: bool,
    repo: RecordModel,
    replies: Seq<Reply>,
)
    ensures
        ({
            let dry = prune_step(repos_dir, repos_dir_is_symlink, repo, true, replies);
            let actual = prune_step(repos_dir, repos_dir_is_symlink, repo, false, replies);
            &&& actual is RemoveTree ==> ends_with(dry, PruneAction::WouldDelete)
            &&& actual is Forget ==> ends_with(dry, PruneAction::WouldDelete) || ends_with(
                dry,
                PruneAction::WouldRemoveMissing,
            )
            &&& ends_with(actual, PruneAction::Deleted) ==> ends_with(dry, PruneAction::WouldDelete)
            &&& ends_with(actual, PruneAction::RemovedMissing) ==> ends_with(
                dry,
                PruneAction::WouldRemoveMissing,
            )
            &&& if ends_with(dry, PruneAction::WouldDelete) {
                ||| actual is RemoveTree
                ||| replies.last() is Done && actual is Forget
                ||| ends_with(actual, PruneAction::Deleted)
                ||| refuses(actual) && exists|i: int|
                    9 <= i < replies.len() && !(#[trigger] replies[i] is Done)
            } else if ends_with(dry, PruneAction::WouldRemoveMissing) {
                ||| replies.len() == 1 && actual is Forget
                ||| replies.len() > 1 && replies[1] is Done && ends_with(
                    actual,
                    PruneAction::RemovedMissing,
                )
                ||| replies.len() > 1 && !(replies[1] is Done) && refuses(actual)
            } else {
                actual == dry
            }
            &&& !ends_with(dry, PruneAction::Deleted) && !ends_with(
                dry,
                PruneAction::RemovedMissing,
            )
            &&& !(dry is RemoveTree) && !(dry is Forget)
        }),
{
}

/// Whether a text has two lines that begin with a word.
pub open spec fn two_lines_begin(text: Seq<char>, word: Seq<char>) -> bool {
    exists|i: int, j: int|
        0 <= i < j < split(text, '\n').len() && begins(#[trigger] split(text, '\n')[i], word)
            && begins(#[trigger] split(text, '\n')[j], word)
}

/// If a filter keeps nothing, nothing meets its condition.
proof fn lemma_none_kept<T>(list: Seq<T>, keep: spec_fn(T) -> bool)
    ensures
        list.filter(keep).len() == 0 <==> forall|i: int|
            0 <= i < list.len() ==> !keep(#[trigger] list[i]),
    decreases list.len(),
{
    reveal(Seq::filter);
    if list.len() > 0 {
        let rest = list.drop_last();
        lemma_none_kept(rest, keep);
        assert(list.last() == list[list.len() - 1]);
        if list.filter(keep).len() == 0 {
            assert forall|i: int| 0 <= i < list.len() implies !keep(#[trigger] list[i]) by {
                if i < rest.len() {
                    assert(rest[i] == list[i]);
                }
            }
        }
        if forall|i: int| 0 <= i < list.len() ==> !keep(#[trigger] list[i]) {
            assert forall|i: int| 0 <= i < rest.len() implies !keep(#[trigger] rest[i]) by {
                assert(rest[i] == list[i]);
            }
        }
    }
}

/// A filter keeps more than one if and only if two meet its condition.
proof fn lemma_two_kept<T>(list: Seq<T>, keep: spec_fn(T) -> bool)
    ensures
        list.filter(keep).len() > 1 <==> exists|i: int, j: int|
            0 <= i < j < list.len() && keep(#[trigger] list[i]) && keep(#[trigger] list[j]),
    decreases list.len(),
{
    reveal(Seq::filter);
    if list.len() > 0 {
        let rest = list.drop_last();
        let n = list.len() - 1;
        lemma_two_kept(rest, keep);
        lemma_none_kept(rest, keep);
        assert(list.last() == list[n]);
        if list.filter(keep).len() > 1 {
            if rest.filter(keep).len() > 1 {
                let (i, j) = choose|i: int, j: int|
                    0 <= i < j < rest.len() && keep(#[trigger] rest[i]) && keep(
                        #[trigger] rest[j],
                    );
                assert(keep(list[i]) && keep(list[j]));
            } else {
                let i = choose|i: int| 0 <= i < rest.len() && keep(#[trigger] rest[i]);
                assert(keep(list[i]) && keep(list[n]));
            }
        }
        if exists|i: int, j: int|
            0 <= i < j < list.len() && keep(#[trigger] list[i]) && keep(#[trigger] list[j]) {
            let (i, j) = choose|i: int, j: int|
                0 <= i < j < list.len() && keep(#[trigger] list[i]) && keep(#[trigger] list[j]);
            assert(keep(rest[i]));
            if j < n {
                assert(keep(rest[j]));
            }
        }
    }
}

/// Another working tree is linked where the list of them has a second line that
/// names one.
proof fn lemma_linked_trees(text: Seq<char>)
    ensures
        worktree_count(text) > 1 <==> two_lines_begin(text, "worktree "@),
{
    lemma_two_kept(split(text, '\n'), |line: Seq<char>| begins(line, "worktree "@));
}

/// Whether the first replies show that the place of the working tree is a
/// directory below that of all working trees, and that it is a working tree.
pub open spec fn is_managed(
    repos_dir: Seq<char>,
    repo: RecordModel,
    replies: Seq<Reply>,
    path: Seq<char>,
) -> bool {
    &&& within(repo.local_path, repos_dir)
    &&& replies.len() >= 4
    &&& replies[0] == Reply::Kind(PathKind::Directory)
    &&& replies[1] matches Reply::Directory(root) && within(path, root@) && components(path)
        != components(root@)
    &&& replies[2] matches Reply::Directory(tree) && tree@ == path
    &&& replies[3] == Reply::Found(true)
}

/// Whether the replies from a place on show how many working trees there are:
/// whether another one is linked.
pub open spec fn shows_trees(reply: Reply, linked: bool) -> bool {
    exists|text: Seq<char>| #[trigger]
        wrote(reply, text) && linked == two_lines_begin(text, "worktree "@)
}

/// Whether the replies show what a clean working tree holds that exists nowhere
/// else, and how many of them tell so: a stash, commits of branches or of a
/// detached HEAD that no remote has, or linked working trees.
pub open spec fn shows_local_state(replies: Seq<Reply>, count: int, local: bool) -> bool {
    ||| {
        &&& count == 6 && replies.len() >= 6 && local
        &&& exists|text: Seq<char>| #[trigger] wrote(replies[5], text) && text.len() > 0
    }
    ||| {
        &&& count == 7 && replies.len() >= 7 && local
        &&& wrote(replies[5], Seq::empty())
        &&& exists|text: Seq<char>| #[trigger] wrote(replies[6], text) && text != "0"@
    }
    ||| {
        &&& count == 9 && replies.len() >= 9
        &&& wrote(replies[5], Seq::empty()) && wrote(replies[6], "0"@)
        &&& succeeded(replies[7])
        &&& shows_trees(replies[8], local)
    }
    ||| {
        &&& count == 9 && replies.len() >= 9 && local
        &&& wrote(replies[5], Seq::empty()) && wrote(replies[6], "0"@)
        &&& found_nothing(replies[7])
        &&& exists|text: Seq<char>| #[trigger] wrote(replies[8], text) && text != "0"@
    }
    ||| {
        &&& count == 10 && replies.len() >= 10
        &&& wrote(replies[5], Seq::empty()) && wrote(replies[6], "0"@)
        &&& found_nothing(replies[7]) && wrote(replies[8], "0"@)
        &&& shows_trees(replies[9], local)
    }
}

/// A working tree with changes is kept; one that holds something that exists
/// nowhere else is kept; and every other is deleted, by its real path, and then
/// its record removed. A dry run says that it would be.
pub proof fn law_working_trees_are_kept_or_deleted(
    repos_dir: Seq<char>,
    repo: RecordModel,
    dry_run: bool,
    replies: Seq<Reply>,
    path: Seq<char>,
    changes: Seq<char>,
    count: int,
    local: bool,
)
    requires
        is_managed(repos_dir, repo, replies, path),
        replies.len() >= 5,
        wrote(replies[4], changes),
    ensures
        ({
            let step = prune_step(repos_dir, false, repo, dry_run, replies);
            &&& changes.len() > 0 ==> ends_with(step, PruneAction::SkippedDirty)
            &&& changes.len() == 0 && shows_local_state(replies, count, local) ==> {
                &&& local ==> ends_with(step, PruneAction::SkippedLocalState)
                &&& !local && dry_run ==> ends_with(step, PruneAction::WouldDelete)
                &&& !local && !dry_run ==> {
                    &&& replies.len() == count ==> step == PruneModel::RemoveTree(path)
                    &&& replies.len() == count + 1 && replies[count] is Done ==> step is Forget
                    &&& replies.len() > count + 1 && replies[count] is Done && replies[count
                        + 1] is Done ==> ends_with(step, PruneAction::Deleted)
                    &&& replies.len() > count && replies[count] is Failed ==> step
                        == PruneModel::Finish(
                        Err::<PruneAction, ErrorModel>(replies[count]->Failed_0@),
                    )
                }
            }
        }),
{
    assert forall|text: Seq<char>| worktree_count(text) > 1 <==> two_lines_begin(
        text,
        "worktree "@,
    ) by {
        lemma_linked_trees(text);
    }
}

/// What is asked of a working tree before it is deleted: for changes, for
/// stashes, for commits of branches that no remote has, whether a branch is
/// checked out, and if none is for commits of HEAD that no remote has, and for
/// linked working trees.
pub proof fn law_working_trees_are_examined(
    repos_dir: Seq<char>,
    repo: RecordModel,
    dry_run: bool,
    replies: Seq<Reply>,
    path: Seq<char>,
)
    requires
        is_managed(repos_dir, repo, replies, path),
    ensures
        ({
            let step = prune_step(repos_dir, false, repo, dry_run, replies);
            let clean = replies.len() >= 5 && wrote(replies[4], Seq::empty());
            let unstashed = clean && replies.len() >= 6 && wrote(replies[5], Seq::empty());
            let pushed = unstashed && replies.len() >= 7 && wrote(replies[6], "0"@);
            let trees = PruneModel::Run(path, seq!["worktree"@, "list"@, "--porcelain"@]);
            &&& replies.len() == 4 ==> step == PruneModel::Run(
                path,
                seq!["status"@, "--porcelain=v1"@, "--untracked-files=normal"@],
            )
            &&& replies.len() == 5 && clean ==> step == PruneModel::Run(
                path,
                seq!["stash"@, "list"@, "--format=%gd"@],
            )
            &&& replies.len() == 6 && unstashed ==> step == PruneModel::Run(
                path,
                seq!["rev-list"@, "--count"@, "--branches"@, "--not"@, "--remotes"@],
            )
            &&& replies.len() == 7 && pushed ==> step == PruneModel::Run(
                path,
                seq!["symbolic-ref"@, "--quiet"@, "HEAD"@],
            )
            &&& replies.len() == 8 && pushed && succeeded(replies[7]) ==> step == trees
            &&& replies.len() == 8 && pushed && found_nothing(replies[7]) ==> step
                == PruneModel::Run(
                path,
                seq!["rev-list"@, "--count"@, "HEAD"@, "--not"@, "--remotes"@],
            )
            &&& replies.len() == 9 && pushed && found_nothing(replies[7]) && wrote(
                replies[8],
                "0"@,
            ) ==> step == trees
        }),
{
}

/// Before that it is made sure what is at the place of the working tree and
/// where it really is: a repository without a working tree is only forgotten,
/// and what is no directory, lies elsewhere or is no working tree is refused.
pub proof fn law_other_places_are_not_pruned(
    repos_dir: Seq<char>,
    repos_dir_is_symlink: bool,
    repo: RecordModel,
    dry_run: bool,
    replies: Seq<Reply>,
    root: String,
    tree: String,
)
    ensures
        ({
            let step = prune_step(repos_dir, repos_dir_is_symlink, repo, dry_run, replies);
            let inside = !repos_dir_is_symlink && within(repo.local_path, repos_dir);
            let present = inside && replies.len() >= 1 && replies[0] == Reply::Kind(
                PathKind::Directory,
            );
            &&& !inside ==> step == PruneModel::Finish(
                Err::<PruneAction, ErrorModel>(
                    ErrorModel::Config(
                        "refusing to prune "@ + repo.local_path
                            + " outside managed repository directory "@ + repos_dir,
                    ),
                ),
            )
            &&& inside && replies.len() == 0 ==> step is Inspect
            &&& inside && replies.len() >= 1 && replies[0] == Reply::Kind(PathKind::Missing) ==> if dry_run {
                ends_with(step, PruneAction::WouldRemoveMissing)
            } else {
                &&& replies.len() == 1 ==> step is Forget
                &&& replies.len() > 1 && replies[1] is Done ==> ends_with(
                    step,
                    PruneAction::RemovedMissing,
                )
                &&& replies.len() > 1 && replies[1] is Failed ==> step == PruneModel::Finish(
                    Err::<PruneAction, ErrorModel>(replies[1]->Failed_0@),
                )
            }
            &&& inside && replies.len() >= 1 && replies[0] == Reply::Kind(PathKind::Other) ==> step
                == PruneModel::Finish(
                Err::<PruneAction, ErrorModel>(
                    ErrorModel::Config(
                        "refusing to prune "@ + repo.local_path
                            + " because it is not a directory"@,
                    ),
                ),
            )
            &&& present && replies.len() == 1 ==> step is ResolveRoot
            &&& present && replies.len() == 2 && replies[1] == Reply::Directory(root)
                ==> step is ResolveTree
            &&& present && replies.len() >= 3 && replies[1] == Reply::Directory(root)
                && replies[2] == Reply::Directory(tree) ==> {
                &&& !within(tree@, root@) || components(tree@) == components(root@) ==> step
                    == PruneModel::Finish(
                    Err::<PruneAction, ErrorModel>(
                        ErrorModel::Config(
                            "refusing to prune "@ + repo.local_path
                                + " because it resolves outside the managed repository directory or to its root"@,
                        ),
                    ),
                )
                &&& within(tree@, root@) && components(tree@) != components(root@) ==> {
                    &&& replies.len() == 3 ==> step == PruneModel::FindGitDir(tree@)
                    &&& replies.len() > 3 && replies[3] == Reply::Found(false) ==> step
                        == PruneModel::Finish(
                        Err::<PruneAction, ErrorModel>(
                            ErrorModel::Git(tree@ + " is not a Git working tree"@),
                        ),
                    )
                }
            }
        }),
{
}

/// Where Git is run and something goes wrong, nothing is deleted: pruning ends
/// with an error that says what Git complained about.
pub proof fn law_unverifiable_working_trees_are_kept(
    repos_dir: Seq<char>,
    repos_dir_is_symlink: bool,
    repo: RecordModel,
    dry_run: bool,
    replies: Seq<Reply>,
    reply: Reply,
    path: Seq<char>,
    args: Seq<Seq<char>>,
)
    requires
        prune_step(repos_dir, repos_dir_is_symlink, repo, dry_run, replies) == PruneModel::Run(
            path,
            args,
        ),
        went_wrong(reply),
    ensures
        prune_step(repos_dir, repos_dir_is_symlink, repo, dry_run, replies.push(reply))
            == PruneModel::Finish(
            Err::<PruneAction, ErrorModel>(ErrorModel::Git(git_message(path, reply))),
        ),
{
    let after = replies.push(reply);
    assert(forall|i: int| 0 <= i < replies.len() ==> after[i] == replies[i]);
    assert(after[replies.len() as int] == reply);
}

/// Exactly the repositories that no source lists any more are pruned.
pub proof fn law_inactive_repositories_are_pruned(list: Seq<RecordModel>, repo: RecordModel)
    ensures
        inactive(list).contains(repo) <==> list.contains(repo) && !repo.active,
        inactive(list).len() <= list.len(),
{
    let keep = |repo: RecordModel| !repo.active;
    if inactive(list).contains(repo) {
        list.lemma_filter_contains_rev(keep, repo);
        let i = choose|i: int| 0 <= i < inactive(list).len() && inactive(list)[i] == repo;
        list.lemma_filter_pred(keep, i);
    }
    if list.contains(repo) && !repo.active {
        let i = choose|i: int| 0 <= i < list.len() && list[i] == repo;
        list.lemma_filter_contains(keep, i);
    }
    list.lemma_filter_len(keep);
}

/// A report names its repository and tells either what was done or what went
/// wrong.
pub proof fn law_prune_reports_tell_the_outcome(
    report: RepoPruneReport,
    repo: RecordModel,
    outcome: crate::error::Result<PruneAction>,
)
    requires
        reports(report, repo, outcome),
    ensures
        report.id@ == repo.id,
        report.path@ == repo.local_path,
        outcome is Ok <==> report.error is None,
        outcome matches Ok(action) ==> report.action == Some(action),
        outcome matches Err(error) ==> report.action is None && opt_text(report.error) == Some(
            error@.message(),
        ),
{
}

/// Cleaning up spares symbolic links, working trees and their places with all
/// that is in them; every other directory is removed if it is empty, behind what
/// is removed of those in it.
pub proof fn law_cleaning_up_reaches_other_directories(
    folder: Folder,
    trees: Seq<String>,
    i: int,
    path: Seq<char>,
)
    ensures
        folder.is_symlink || folder.has_git_dir || retained(folder.path@, trees) ==> removals(
            folder,
            trees,
        ).len() == 0,
        !folder.is_symlink && !folder.has_git_dir && !retained(folder.path@, trees) ==> {
            &&& removals(folder, trees).len() > 0
            &&& removals(folder, trees).last() == folder.path@
            &&& 0 <= i < folder.folders@.len() && removals(folder.folders@[i], trees).contains(path)
                ==> removals(folder, trees).drop_last().contains(path)
        },
{
    if !folder.is_symlink && !folder.has_git_dir && !retained(folder.path@, trees) {
        let count = folder.folders@.len() as int;
        let inner = removals_of(folder.folders@, count, trees);
        assert(removals(folder, trees).drop_last() =~= inner);
        if 0 <= i < count && removals(folder.folders@[i], trees).contains(path) {
            lemma_removals_reach(folder.folders@, count, trees, i, path);
        }
    }
}

/// What is removed of one of the first directories is removed of all of them.
proof fn lemma_removals_reach(
    folders: Seq<Folder>,
    count: int,
    trees: Seq<String>,
    i: int,
    path: Seq<char>,
)
    requires
        0 <= i < count <= folders.len(),
        removals(folders[i], trees).contains(path),
    ensures
        removals_of(folders, count, trees).contains(path),
    decreases count,
{
    let earlier = removals_of(folders, count - 1, trees);
    let last = removals(folders[count - 1], trees);
    assert(removals_of(folders, count, trees) == earlier + last);
    if i == count - 1 {
        let k = choose|k: int| 0 <= k < last.len() && last[k] == path;
        assert((earlier + last)[earlier.len() + k] == path);
    } else {
        lemma_removals_reach(folders, count - 1, trees, i, path);
        let k = choose|k: int| 0 <= k < earlier.len() && earlier[k] == path;
        assert((earlier + last)[k] == path);
    }
}

/// A directory counts as the place of a working tree if and only if it has the
/// same names on its path.
pub proof fn law_places_of_working_trees_are_retained(path: Seq<char>, trees: Seq<String>, i: int)
    ensures
        0 <= i < trees.len() && trees[i]@ == path ==> retained(path, trees),
        retained(path, trees) ==> exists|k: int|
            0 <= k < trees.len() && components(#[trigger] trees[k]@) == components(path),
{
    if 0 <= i < trees.len() && trees[i]@ == path {
        assert(components(trees[i]@) == components(path));
    }
}

}

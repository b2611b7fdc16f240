//! How repositories that no source lists any more are deleted.

use vstd::prelude::*;

use crate::error::{Error, ErrorModel, Result};
use crate::git::{
    PathKind, Reply, args3, args5, asked, git_optional_stdout, git_stdout, reply_error,
    reply_problem, status_args, written, written_if_any,
};
use crate::model::{RecordModel, RepoRecord, records};
use crate::path::{components, path_within, same_path, within};
use crate::text::{
    begins, cat2, cat3, cat4, opt_text, split, split_text, starts_with, text_eq, texts,
};

verus! {

/// How to prune.
#[derive(Clone, Copy, Debug)]
pub struct PruneOptions {
    /// Whether only to say what would be done.
    pub dry_run: bool,
}

impl PruneOptions {
    /// Whether empty directories are removed once the repositories were pruned:
    /// a dry run leaves them.
    pub fn cleans_up(&self) -> (cleans: bool)
        ensures
            cleans == !self.dry_run,
    {
        !self.dry_run
    }
}

impl Default for PruneOptions {
    fn default() -> (options: PruneOptions)
        ensures
            !options.dry_run,
    {
        PruneOptions { dry_run: false }
    }
}

/// What was done to an inactive repository.
#[derive(Clone, Copy, Debug, PartialEq, Eq, Structural)]
pub enum PruneAction {
    /// Its working tree was deleted.
    Deleted,
    /// Its working tree would be deleted.
    WouldDelete,
    /// It had no working tree and was forgotten.
    RemovedMissing,
    /// It has no working tree and would be forgotten.
    WouldRemoveMissing,
    /// Its working tree has changes.
    SkippedDirty,
    /// Its working tree holds commits, stashes or linked working trees that
    /// exist nowhere else.
    SkippedLocalState,
}

/// What was done to an inactive repository, or why it could not be done.
#[derive(Debug, PartialEq, Eq)]
pub struct RepoPruneReport {
    pub id: String,
    pub path: String,
    pub action: Option<PruneAction>,
    pub error: Option<String>,
}

/// What was done to the inactive repositories.
#[derive(Debug, PartialEq, Eq)]
pub struct PruneReport {
    pub repos: Vec<RepoPruneReport>,
}

impl Default for PruneReport {
    fn default() -> (report: PruneReport)
        ensures
            report.repos@.len() == 0,
    {
        PruneReport { repos: Vec::new() }
    }
}

impl PruneReport {
    /// Whether something could not be done.
    #[must_use]
    pub fn failed(&self) -> (failed: bool)
        ensures
            failed == exists|i: int|
                0 <= i < self.repos@.len() && (#[trigger] self.repos@[i]).error is Some,
    {
        let mut i: usize = 0;
        while i < self.repos.len()
            invariant
                i <= self.repos@.len(),
                forall|j: int| 0 <= j < i ==> (#[trigger] self.repos@[j]).error is None,
            decreases self.repos@.len() - i,
        {
            if self.repos[i].error.is_some() {
                return true;
            }
            i += 1;
        }
        false
    }
}

/// What is to be done next with an inactive repository.
#[derive(Debug, PartialEq, Eq)]
pub enum PruneStep {
    /// Look what is at the place of the working tree.
    Inspect,
    /// Find the directory of all working trees, with symbolic links followed.
    ResolveRoot,
    /// Find the working tree, with symbolic links followed.
    ResolveTree,
    /// Look whether a directory is a working tree.
    FindGitDir(String),
    /// Run Git with these arguments in a directory.
    Run(String, Vec<String>),
    /// Delete a directory and all that is in it.
    RemoveTree(String),
    /// Take the repository out of the inventory.
    Forget,
    /// Nothing: it ended like this.
    Finish(Result<PruneAction>),
}

/// What is to be done next, with its texts as characters.
pub enum PruneModel {
    Inspect,
    ResolveRoot,
    ResolveTree,
    FindGitDir(Seq<char>),
    Run(Seq<char>, Seq<Seq<char>>),
    RemoveTree(Seq<char>),
    Forget,
    Finish(std::result::Result<PruneAction, ErrorModel>),
}

impl View for PruneStep {
    type V = PruneModel;

    open spec fn view(&self) -> PruneModel {
        match self {
            PruneStep::Inspect => PruneModel::Inspect,
            PruneStep::ResolveRoot => PruneModel::ResolveRoot,
            PruneStep::ResolveTree => PruneModel::ResolveTree,
            PruneStep::FindGitDir(path) => PruneModel::FindGitDir(path@),
            PruneStep::Run(path, args) => PruneModel::Run(path@, texts(args@)),
            PruneStep::RemoveTree(path) => PruneModel::RemoveTree(path@),
            PruneStep::Forget => PruneModel::Forget,
            PruneStep::Finish(result) => PruneModel::Finish(
                match result {
                    Ok(action) => Ok(*action),
                    Err(error) => Err(error@),
                },
            ),
        }
    }
}

/// The end with an error.
pub open spec fn stopped(problem: ErrorModel) -> PruneModel {
    PruneModel::Finish(Err(problem))
}

/// The end with something done.
pub open spec fn finished(action: PruneAction) -> PruneModel {
    PruneModel::Finish(Ok(action))
}

/// A run of Git in a directory; what it writes decides what follows.
pub open spec fn run_in(
    replies: Seq<Reply>,
    i: int,
    path: Seq<char>,
    args: Seq<Seq<char>>,
    rest: spec_fn(Seq<char>) -> PruneModel,
) -> PruneModel {
    asked(
        replies,
        i,
        PruneModel::Run(path, args),
        |reply: Reply|
            match written(path, reply) {
                Err(problem) => stopped(problem),
                Ok(text) => rest(text),
            },
    )
}

/// The arguments that ask for the stashes.
pub open spec fn stash_args() -> Seq<Seq<char>> {
    seq!["stash"@, "list"@, "--format=%gd"@]
}

/// The arguments that count the commits of branches that no remote has.
pub open spec fn branch_commits_args() -> Seq<Seq<char>> {
    seq!["rev-list"@, "--count"@, "--branches"@, "--not"@, "--remotes"@]
}

/// The arguments that ask which branch is checked out; none is if HEAD is
/// detached.
pub open spec fn attached_args() -> Seq<Seq<char>> {
    seq!["symbolic-ref"@, "--quiet"@, "HEAD"@]
}

/// The arguments that count the commits of a detached HEAD that no remote has.
pub open spec fn head_commits_args() -> Seq<Seq<char>> {
    seq!["rev-list"@, "--count"@, "HEAD"@, "--not"@, "--remotes"@]
}

/// The arguments that ask for the working trees of a repository.
pub open spec fn worktree_args() -> Seq<Seq<char>> {
    seq!["worktree"@, "list"@, "--porcelain"@]
}

/// The number of lines that begin with a word.
pub open spec fn lines_with(lines: Seq<Seq<char>>, word: Seq<char>) -> nat {
    lines.filter(|line: Seq<char>| begins(line, word)).len()
}

/// The number of working trees that a list of them names.
pub open spec fn worktree_count(text: Seq<char>) -> nat {
    lines_with(split(text, '\n'), "worktree "@)
}

/// Whether a working tree holds something that exists nowhere else: a stash,
/// commits that no remote has, or linked working trees.
pub open spec fn with_local_state(
    replies: Seq<Reply>,
    i: int,
    path: Seq<char>,
    rest: spec_fn(int, bool) -> PruneModel,
) -> PruneModel {
    run_in(
        replies,
        i,
        path,
        stash_args(),
        |stashes: Seq<char>|
            if stashes.len() != 0 {
                rest(i + 1, true)
            } else {
                run_in(
                    replies,
                    i + 1,
                    path,
                    branch_commits_args(),
                    |commits: Seq<char>|
                        if commits != "0"@ {
                            rest(i + 2, true)
                        } else {
                            asked(
                                replies,
                                i + 2,
                                PruneModel::Run(path, attached_args()),
                                |reply: Reply|
                                    match written_if_any(path, reply) {
                                        Err(problem) => stopped(problem),
                                        Ok(Some(_)) => with_worktrees(replies, i + 3, path, rest),
                                        Ok(None) => run_in(
                                            replies,
                                            i + 3,
                                            path,
                                            head_commits_args(),
                                            |own: Seq<char>|
                                                if own != "0"@ {
                                                    rest(i + 4, true)
                                                } else {
                                                    with_worktrees(replies, i + 4, path, rest)
                                                },
                                        ),
                                    },
                            )
                        },
                )
            },
    )
}

/// Whether a working tree has linked working trees.
pub open spec fn with_worktrees(
    replies: Seq<Reply>,
    i: int,
    path: Seq<char>,
    rest: spec_fn(int, bool) -> PruneModel,
) -> PruneModel {
    run_in(
        replies,
        i,
        path,
        worktree_args(),
        |list: Seq<char>| rest(i + 1, worktree_count(list) > 1),
    )
}

/// The last steps: the working tree is deleted, and then the repository
/// forgotten.
pub open spec fn removal(
    replies: Seq<Reply>,
    i: int,
    repo: RecordModel,
    path: Seq<char>,
) -> PruneModel {
    asked(
        replies,
        i,
        PruneModel::RemoveTree(path),
        |reply: Reply|
            match reply {
                Reply::Done => forgetting(replies, i + 1, repo, PruneAction::Deleted),
                _ => stopped(reply_problem(repo.local_path, reply)),
            },
    )
}

/// The last step: the repository is forgotten.
pub open spec fn forgetting(
    replies: Seq<Reply>,
    i: int,
    repo: RecordModel,
    action: PruneAction,
) -> PruneModel {
    asked(
        replies,
        i,
        PruneModel::Forget,
        |reply: Reply|
            match reply {
                Reply::Done => finished(action),
                _ => stopped(reply_problem(repo.local_path, reply)),
            },
    )
}

/// The error about a working tree outside the directory of all working trees.
pub open spec fn outside_problem(path: Seq<char>, repos_dir: Seq<char>) -> ErrorModel {
    ErrorModel::Config(
        "refusing to prune "@ + path + " outside managed repository directory "@ + repos_dir,
    )
}

/// What follows once it is known where the working tree really is.
pub open spec fn tree_step(
    replies: Seq<Reply>,
    repo: RecordModel,
    path: Seq<char>,
    dry_run: bool,
) -> PruneModel {
    asked(
        replies,
        3,
        PruneModel::FindGitDir(path),
        |reply: Reply|
            match reply {
                Reply::Found(true) => run_in(
                    replies,
                    4,
                    path,
                    status_args(),
                    |changes: Seq<char>|
                        if changes.len() != 0 {
                            finished(PruneAction::SkippedDirty)
                        } else {
                            with_local_state(
                                replies,
                                5,
                                path,
                                |next: int, local: bool|
                                    if local {
                                        finished(PruneAction::SkippedLocalState)
                                    } else if dry_run {
                                        finished(PruneAction::WouldDelete)
                                    } else {
                                        removal(replies, next, repo, path)
                                    },
                            )
                        },
                ),
                Reply::Found(false) => stopped(
                    ErrorModel::Git(path + " is not a Git working tree"@),
                ),
                _ => stopped(reply_problem(path, reply)),
            },
    )
}

/// What is to be done next with an inactive repository.
pub open spec fn prune_step(
    repos_dir: Seq<char>,
    repos_dir_is_symlink: bool,
    repo: RecordModel,
    dry_run: bool,
    replies: Seq<Reply>,
) -> PruneModel {
    if repos_dir_is_symlink || !within(repo.local_path, repos_dir) {
        stopped(outside_problem(repo.local_path, repos_dir))
    } else {
        asked(
            replies,
            0,
            PruneModel::Inspect,
            |reply: Reply|
                match reply {
                    Reply::Kind(PathKind::Missing) => if dry_run {
                        finished(PruneAction::WouldRemoveMissing)
                    } else {
                        forgetting(replies, 1, repo, PruneAction::RemovedMissing)
                    },
                    Reply::Kind(PathKind::Other) => stopped(
                        ErrorModel::Config(
                            "refusing to prune "@ + repo.local_path
                                + " because it is not a directory"@,
                        ),
                    ),
                    Reply::Kind(PathKind::Directory) => asked(
                        replies,
                        1,
                        PruneModel::ResolveRoot,
                        |reply: Reply|
                            match reply {
                                Reply::Directory(root) => asked(
                                    replies,
                                    2,
                                    PruneModel::ResolveTree,
                                    |reply: Reply|
                                        match reply {
                                            Reply::Directory(path) => if components(path@)
                                                == components(root@) || !within(path@, root@) {
                                                stopped(
                                                    ErrorModel::Config(
                                                        "refusing to prune "@ + repo.local_path
                                                            + " because it resolves outside the managed repository directory or to its root"@,
                                                    ),
                                                )
                                            } else {
                                                tree_step(replies, repo, path@, dry_run)
                                            },
                                            _ => stopped(reply_problem(repo.local_path, reply)),
                                        },
                                ),
                                _ => stopped(reply_problem(repos_dir, reply)),
                            },
                    ),
                    _ => stopped(reply_problem(repo.local_path, reply)),
                },
        )
    }
}

/// The number of lines of a text that begin with a word.
fn count_lines(text: &str, word: &str) -> (count: usize)
    ensures
        count == lines_with(split(text@, '\n'), word@),
{
    let lines = split_text(text, '\n');
    let ghost all = split(text@, '\n');
    let ghost wanted = |line: Seq<char>| begins(line, word@);
    let mut count: usize = 0;
    let mut i: usize = 0;
    proof {
        reveal(Seq::filter);
        assert(all.take(0).filter(wanted).len() == 0);
    }
    while i < lines.len()
        invariant
            i <= lines@.len(),
            all == texts(lines@),
            wanted == (|line: Seq<char>| begins(line, word@)),
            count <= i,
            count == all.take(i as int).filter(wanted).len(),
        decreases lines@.len() - i,
    {
        proof {
            reveal(Seq::filter);
            let more = all.take(i + 1);
            assert(more.drop_last() =~= all.take(i as int));
            assert(more.last() == lines@[i as int]@);
        }
        if starts_with(lines[i].as_str(), word) {
            count += 1;
        }
        i += 1;
    }
    proof {
        assert(all.take(all.len() as int) =~= all);
    }
    count
}

/// What came of looking for what exists nowhere else: the step to be done
/// next, or the answer and the number of replies that it took.
enum LocalState {
    Ask(PruneStep),
    Known(usize, bool),
}

/// Whether a working tree has linked working trees.
fn has_worktrees(path: &str, replies: &Vec<Reply>, i: usize) -> (state: LocalState)
    requires
        i <= 9,
    ensures
        forall|rest: spec_fn(int, bool) -> PruneModel|
            match state {
                LocalState::Known(next, local) => #[trigger] with_worktrees(
                    replies@,
                    i as int,
                    path@,
                    rest,
                ) == rest(next as int, local) && next <= i + 1,
                LocalState::Ask(step) => with_worktrees(replies@, i as int, path@, rest) == step@,
            },
{
    if replies.len() <= i {
        return LocalState::Ask(
            PruneStep::Run(path.to_owned(), args3("worktree", "list", "--porcelain")),
        );
    }
    match git_stdout(path, &replies[i]) {
        Ok(list) => LocalState::Known(i + 1, count_lines(list.as_str(), "worktree ") > 1),
        Err(error) => LocalState::Ask(PruneStep::Finish(Err(error))),
    }
}

/// Whether a working tree holds something that exists nowhere else.
fn has_local_git_state(path: &str, replies: &Vec<Reply>, i: usize) -> (state: LocalState)
    requires
        i <= 5,
    ensures
        forall|rest: spec_fn(int, bool) -> PruneModel|
            match state {
                LocalState::Known(next, local) => #[trigger] with_local_state(
                    replies@,
                    i as int,
                    path@,
                    rest,
                ) == rest(next as int, local) && next <= i + 5,
                LocalState::Ask(step) => with_local_state(replies@, i as int, path@, rest) == step@,
            },
{
    if replies.len() <= i {
        return LocalState::Ask(
            PruneStep::Run(path.to_owned(), args3("stash", "list", "--format=%gd")),
        );
    }
    match git_stdout(path, &replies[i]) {
        Ok(stashes) => {
            if !stashes.as_str().is_empty() {
                return LocalState::Known(i + 1, true);
            }
        },
        Err(error) => return LocalState::Ask(PruneStep::Finish(Err(error))),
    }
    if replies.len() <= i + 1 {
        return LocalState::Ask(
            PruneStep::Run(
                path.to_owned(),
                args5("rev-list", "--count", "--branches", "--not", "--remotes"),
            ),
        );
    }
    match git_stdout(path, &replies[i + 1]) {
        Ok(commits) => {
            if !text_eq(commits.as_str(), "0") {
                return LocalState::Known(i + 2, true);
            }
        },
        Err(error) => return LocalState::Ask(PruneStep::Finish(Err(error))),
    }
    if replies.len() <= i + 2 {
        return LocalState::Ask(
            PruneStep::Run(path.to_owned(), args3("symbolic-ref", "--quiet", "HEAD")),
        );
    }
    match git_optional_stdout(path, &replies[i + 2]) {
        Ok(Some(_)) => return has_worktrees(path, replies, i + 3),
        Ok(None) => {},
        Err(error) => return LocalState::Ask(PruneStep::Finish(Err(error))),
    }
    if replies.len() <= i + 3 {
        return LocalState::Ask(
            PruneStep::Run(
                path.to_owned(),
                args5("rev-list", "--count", "HEAD", "--not", "--remotes"),
            ),
        );
    }
    match git_stdout(path, &replies[i + 3]) {
        Ok(commits) => {
            if !text_eq(commits.as_str(), "0") {
                return LocalState::Known(i + 4, true);
            }
        },
        Err(error) => return LocalState::Ask(PruneStep::Finish(Err(error))),
    }
    has_worktrees(path, replies, i + 4)
}

/// The last step: the repository is forgotten.
fn forget(repo: &RepoRecord, replies: &Vec<Reply>, i: usize, action: PruneAction) -> (step:
    PruneStep)
    ensures
        step@ == forgetting(replies@, i as int, repo@, action),
{
    if replies.len() <= i {
        return PruneStep::Forget;
    }
    match &replies[i] {
        Reply::Done => PruneStep::Finish(Ok(action)),
        reply => PruneStep::Finish(Err(reply_error(repo.local_path.as_str(), reply))),
    }
}

/// What follows once it is known where the working tree really is.
fn prune_tree(repo: &RepoRecord, path: &str, dry_run: bool, replies: &Vec<Reply>) -> (step:
    PruneStep)
    ensures
        step@ == tree_step(replies@, repo@, path@, dry_run),
{
    if replies.len() <= 3 {
        return PruneStep::FindGitDir(path.to_owned());
    }
    match &replies[3] {
        Reply::Found(true) => {},
        Reply::Found(false) => {
            return PruneStep::Finish(Err(Error::Git(cat2(path, " is not a Git working tree"))));
        },
        reply => return PruneStep::Finish(Err(reply_error(path, reply))),
    }
    if replies.len() <= 4 {
        return PruneStep::Run(
            path.to_owned(),
            args3("status", "--porcelain=v1", "--untracked-files=normal"),
        );
    }
    match git_stdout(path, &replies[4]) {
        Ok(changes) => {
            if !changes.as_str().is_empty() {
                return PruneStep::Finish(Ok(PruneAction::SkippedDirty));
            }
        },
        Err(error) => return PruneStep::Finish(Err(error)),
    }
    let next: usize = match has_local_git_state(path, replies, 5) {
        LocalState::Ask(step) => return step,
        LocalState::Known(next, local) => {
            if local {
                return PruneStep::Finish(Ok(PruneAction::SkippedLocalState));
            }
            next
        },
    };
    if dry_run {
        return PruneStep::Finish(Ok(PruneAction::WouldDelete));
    }
    if replies.len() <= next {
        return PruneStep::RemoveTree(path.to_owned());
    }
    match &replies[next] {
        Reply::Done => forget(repo, replies, next + 1, PruneAction::Deleted),
        reply => PruneStep::Finish(Err(reply_error(repo.local_path.as_str(), reply))),
    }
}

/// What is to be done next with an inactive repository: `replies` are what came
/// of the steps so far.
pub fn prune_working_tree(
    repos_dir: &str,
    repos_dir_is_symlink: bool,
    repo: &RepoRecord,
    options: PruneOptions,
    replies: &Vec<Reply>,
) -> (step: PruneStep)
    ensures
        step@ == prune_step(repos_dir@, repos_dir_is_symlink, repo@, options.dry_run, replies@),
{
    let own = repo.local_path.as_str();
    if repos_dir_is_symlink || !path_within(own, repos_dir) {
        return PruneStep::Finish(
            Err(
                Error::Config(
                    cat4(
                        "refusing to prune ",
                        own,
                        " outside managed repository directory ",
                        repos_dir,
                    ),
                ),
            ),
        );
    }
    if replies.len() == 0 {
        return PruneStep::Inspect;
    }
    match &replies[0] {
        Reply::Kind(PathKind::Missing) => {
            if options.dry_run {
                return PruneStep::Finish(Ok(PruneAction::WouldRemoveMissing));
            }
            return forget(repo, replies, 1, PruneAction::RemovedMissing);
        },
        Reply::Kind(PathKind::Other) => {
            return PruneStep::Finish(
                Err(
                    Error::Config(
                        cat3("refusing to prune ", own, " because it is not a directory"),
                    ),
                ),
            );
        },
        Reply::Kind(PathKind::Directory) => {},
        reply => return PruneStep::Finish(Err(reply_error(own, reply))),
    }
    if replies.len() == 1 {
        return PruneStep::ResolveRoot;
    }
    let root = match &replies[1] {
        Reply::Directory(root) => root,
        reply => return PruneStep::Finish(Err(reply_error(repos_dir, reply))),
    };
    if replies.len() == 2 {
        return PruneStep::ResolveTree;
    }
    let path = match &replies[2] {
        Reply::Directory(path) => path,
        reply => return PruneStep::Finish(Err(reply_error(own, reply))),
    };
    if same_path(path.as_str(), root.as_str()) || !path_within(path.as_str(), root.as_str()) {
        return PruneStep::Finish(
            Err(
                Error::Config(
                    cat3(
                        "refusing to prune ",
                        own,
                        " because it resolves outside the managed repository directory or to its root",
                    ),
                ),
            ),
        );
    }
    prune_tree(repo, path.as_str(), options.dry_run, replies)
}

/// Whether the replies show that a working tree holds nothing that exists
/// nowhere else: no changes, no stash, no commits of a branch or of a detached
/// HEAD that no remote has, and no linked working trees.
pub open spec fn nothing_to_lose(path: Seq<char>, replies: Seq<Reply>) -> bool {
    &&& written(path, replies[4]) == Ok::<Seq<char>, ErrorModel>(Seq::empty())
    &&& written(path, replies[5]) == Ok::<Seq<char>, ErrorModel>(Seq::empty())
    &&& written(path, replies[6]) == Ok::<Seq<char>, ErrorModel>("0"@)
    &&& match written_if_any(path, replies[7]) {
        Err(_) => false,
        Ok(Some(_)) => written(path, replies[8]) matches Ok(list) && worktree_count(list) <= 1,
        Ok(None) => {
            &&& written(path, replies[8]) == Ok::<Seq<char>, ErrorModel>("0"@)
            &&& written(path, replies[9]) matches Ok(list) && worktree_count(list) <= 1
        },
    }
}

/// A directory is deleted only if it is the working tree of a repository below
/// the directory of all working trees, with symbolic links followed, if it
/// holds nothing that exists nowhere else, and if it is not a dry run.
pub proof fn law_only_safe_working_trees_are_deleted(
    repos_dir: Seq<char>,
    repos_dir_is_symlink: bool,
    repo: RecordModel,
    dry_run: bool,
    replies: Seq<Reply>,
    path: Seq<char>,
)
    requires
        prune_step(repos_dir, repos_dir_is_symlink, repo, dry_run, replies)
            == PruneModel::RemoveTree(path),
    ensures
        !dry_run,
        !repos_dir_is_symlink,
        within(repo.local_path, repos_dir),
        replies.len() >= 9,
        replies[0] == Reply::Kind(PathKind::Directory),
        replies[1] matches Reply::Directory(root) && replies[2] matches Reply::Directory(tree)
            && path == tree@ && within(path, root@) && components(path) != components(root@),
        replies[3] == Reply::Found(true),
        nothing_to_lose(path, replies),
{
    if replies.len() > 5 {
        let changes = written(path, replies[4])->Ok_0;
        let stashes = written(path, replies[5])->Ok_0;
        if changes.len() == 0 {
            assert(changes =~= Seq::empty());
        }
        if stashes.len() == 0 {
            assert(stashes =~= Seq::empty());
        }
    }
}

/// A repository is forgotten only if it has no working tree, or after its
/// working tree was deleted; never in a dry run.
pub proof fn law_only_deleted_repositories_are_forgotten(
    repos_dir: Seq<char>,
    repos_dir_is_symlink: bool,
    repo: RecordModel,
    dry_run: bool,
    replies: Seq<Reply>,
)
    requires
        prune_step(repos_dir, repos_dir_is_symlink, repo, dry_run, replies) is Forget,
    ensures
        !dry_run,
        replies.len() > 0,
        replies[0] == Reply::Kind(PathKind::Missing) || {
            &&& replies.last() is Done
            &&& prune_step(
                repos_dir,
                repos_dir_is_symlink,
                repo,
                dry_run,
                replies.drop_last(),
            ) is RemoveTree
        },
{
    if replies[0] != Reply::Kind(PathKind::Missing) {
        let earlier = replies.drop_last();
        assert(forall|i: int| 0 <= i < earlier.len() ==> earlier[i] == replies[i]);
    }
}

/// Pruning a repository ends after at most twelve steps.
pub proof fn law_pruning_ends(
    repos_dir: Seq<char>,
    repos_dir_is_symlink: bool,
    repo: RecordModel,
    dry_run: bool,
    replies: Seq<Reply>,
)
    requires
        replies.len() >= 12,
    ensures
        prune_step(repos_dir, repos_dir_is_symlink, repo, dry_run, replies) is Finish,
{
}

/// The repositories of a listing that no source lists any more.
pub open spec fn inactive(list: Seq<RecordModel>) -> Seq<RecordModel> {
    list.filter(|repo: RecordModel| !repo.active)
}

/// The repositories of a listing that no source lists any more.
pub fn candidates(list: Vec<RepoRecord>) -> (repos: Vec<RepoRecord>)
    ensures
        records(repos@) == inactive(records(list@)),
{
    let ghost all = records(list@);
    let ghost wanted = |repo: RecordModel| !repo.active;
    let mut repos: Vec<RepoRecord> = Vec::new();
    proof {
        reveal(Seq::filter);
        assert(records(repos@) =~= all.take(0).filter(wanted));
    }
    for repo in it: list
        invariant
            it.seq() == list@,
            all == records(list@),
            wanted == (|repo: RecordModel| !repo.active),
            records(repos@) == all.take(it.index() as int).filter(wanted),
    {
        let ghost at = it.index() as int;
        let ghost earlier = repos@;
        proof {
            reveal(Seq::filter);
            assert(all.take(at + 1).drop_last() =~= all.take(at));
            assert(all.take(at + 1).last() == repo@);
        }
        if !repo.active {
            repos.push(repo);
            proof {
                assert(records(repos@) =~= records(earlier).push(repo@));
            }
        }
    }
    proof {
        assert(all.take(all.len() as int) =~= all);
    }
    repos
}

/// Whether a report tells how pruning a repository ended.
pub open spec fn reports(
    report: RepoPruneReport,
    repo: RecordModel,
    outcome: Result<PruneAction>,
) -> bool {
    &&& report.id@ == repo.id
    &&& report.path@ == repo.local_path
    &&& match outcome {
        Ok(action) => report.action == Some(action) && report.error is None,
        Err(error) => report.action is None && opt_text(report.error) == Some(error@.message()),
    }
}

/// The report of how pruning a repository ended.
pub fn prune_repo(repo: &RepoRecord, outcome: Result<PruneAction>) -> (report: RepoPruneReport)
    ensures
        reports(report, repo@, outcome),
{
    let id = repo.id.clone();
    let path = repo.local_path.clone();
    match outcome {
        Ok(action) => RepoPruneReport { id, path, action: Some(action), error: None },
        Err(error) => RepoPruneReport { id, path, action: None, error: Some(error.message()) },
    }
}

/// The report of how pruning some repositories ended, in their order.
pub fn prune(repos: &Vec<RepoRecord>, outcomes: Vec<Result<PruneAction>>) -> (report: PruneReport)
    requires
        repos@.len() == outcomes@.len(),
    ensures
        report.repos@.len() == repos@.len(),
        forall|i: int|
            0 <= i < repos@.len() ==> reports(
                #[trigger] report.repos@[i],
                repos@[i]@,
                outcomes@[i],
            ),
{
    let mut report = PruneReport::default();
    let mut i: usize = 0;
    for outcome in it: outcomes
        invariant
            it.seq() == outcomes@,
            repos@.len() == outcomes@.len(),
            i == it.index(),
            report.repos@.len() == i,
            forall|j: int|
                0 <= j < i ==> reports(#[trigger] report.repos@[j], repos@[j]@, outcomes@[j]),
    {
        assert(i < repos.len());
        report.repos.push(prune_repo(&repos[i], outcome));
        i += 1;
    }
    report
}

/// A directory below the directory of all working trees, with the directories
/// in it.
#[derive(Debug)]
pub struct Folder {
    /// Its path.
    pub path: String,
    /// Whether it is a symbolic link.
    pub is_symlink: bool,
    /// Whether it is a working tree.
    pub has_git_dir: bool,
    /// The directories in it.
    pub folders: Vec<Folder>,
}

/// Whether a path is among those of some working trees.
pub open spec fn retained(path: Seq<char>, trees: Seq<String>) -> bool {
    exists|i: int| 0 <= i < trees.len() && components((#[trigger] trees[i])@) == components(path)
}

/// Whether a directory and all that is in it is left alone: a symbolic link, a
/// working tree, or the place of one.
pub open spec fn spared(
    path: Seq<char>,
    is_symlink: bool,
    has_git_dir: bool,
    trees: Seq<String>,
) -> bool {
    is_symlink || has_git_dir || retained(path, trees)
}

/// Whether a directory and all that is in it is left alone.
pub fn spares(path: &str, is_symlink: bool, has_git_dir: bool, trees: &Vec<String>) -> (spared_it:
    bool)
    ensures
        spared_it == spared(path@, is_symlink, has_git_dir, trees@),
{
    if is_symlink || has_git_dir {
        return true;
    }
    let mut i: usize = 0;
    while i < trees.len()
        invariant
            i <= trees@.len(),
            forall|j: int|
                0 <= j < i ==> components((#[trigger] trees@[j])@) != components(path@),
        decreases trees@.len() - i,
    {
        if same_path(trees[i].as_str(), path) {
            return true;
        }
        i += 1;
    }
    false
}

/// The directories that are removed if they are empty, each behind those in it.
pub open spec fn removals(folder: Folder, trees: Seq<String>) -> Seq<Seq<char>>
    decreases folder,
{
    if spared(folder.path@, folder.is_symlink, folder.has_git_dir, trees) {
        Seq::empty()
    } else {
        removals_of(folder.folders@, folder.folders@.len() as int, trees).push(folder.path@)
    }
}

/// The directories of the first of some directories that are removed if they
/// are empty.
pub open spec fn removals_of(folders: Seq<Folder>, count: int, trees: Seq<String>) -> Seq<Seq<char>>
    decreases folders, count,
{
    if count <= 0 || count > folders.len() {
        Seq::empty()
    } else {
        removals_of(folders, count - 1, trees) + removals(folders[count - 1], trees)
    }
}

/// The directories that are removed if they are empty, each behind those in it.
pub fn remove_empty_managed_directories(folder: &Folder, trees: &Vec<String>) -> (paths: Vec<String>)
    ensures
        texts(paths@) == removals(*folder, trees@),
    decreases folder,
{
    let mut paths: Vec<String> = Vec::new();
    if spares(folder.path.as_str(), folder.is_symlink, folder.has_git_dir, trees) {
        proof {
            assert(texts(paths@) =~= Seq::empty());
        }
        return paths;
    }
    let mut i: usize = 0;
    proof {
        assert(texts(paths@) =~= removals_of(folder.folders@, 0, trees@));
    }
    while i < folder.folders.len()
        invariant
            i <= folder.folders@.len(),
            texts(paths@) == removals_of(folder.folders@, i as int, trees@),
        decreases folder.folders@.len() - i,
    {
        let ghost earlier = texts(paths@);
        assert(decreases_to!(*folder => folder.folders@[i as int]));
        let mut inner = remove_empty_managed_directories(&folder.folders[i], trees);
        let ghost more = texts(inner@);
        paths.append(&mut inner);
        proof {
            assert(texts(paths@) =~= earlier + more);
        }
        i += 1;
    }
    let ghost earlier = texts(paths@);
    paths.push(folder.path.clone());
    proof {
        assert(texts(paths@) =~= earlier.push(folder.path@));
    }
    paths
}

/// Cleaning up some directories removes no place of a working tree.
proof fn lemma_removals_of_spare(folders: Seq<Folder>, count: int, trees: Seq<String>)
    ensures
        forall|i: int|
            0 <= i < removals_of(folders, count, trees).len() ==> !retained(
                #[trigger] removals_of(folders, count, trees)[i],
                trees,
            ),
    decreases folders, count,
{
    if 0 < count <= folders.len() {
        lemma_removals_of_spare(folders, count - 1, trees);
        law_cleaning_up_spares_working_trees(folders[count - 1], trees);
        let earlier = removals_of(folders, count - 1, trees);
        let last = removals(folders[count - 1], trees);
        assert(removals_of(folders, count, trees) == earlier + last);
        assert forall|i: int| 0 <= i < (earlier + last).len() implies !retained(
            #[trigger] (earlier + last)[i],
            trees,
        ) by {
            if i < earlier.len() {
                assert((earlier + last)[i] == earlier[i]);
            } else {
                assert((earlier + last)[i] == last[i - earlier.len()]);
            }
        }
    }
}

/// Cleaning up removes no place of a working tree of the inventory.
pub proof fn law_cleaning_up_spares_working_trees(folder: Folder, trees: Seq<String>)
    ensures
        forall|i: int|
            0 <= i < removals(folder, trees).len() ==> !retained(
                #[trigger] removals(folder, trees)[i],
                trees,
            ),
    decreases folder,
{
    if !spared(folder.path@, folder.is_symlink, folder.has_git_dir, trees) {
        lemma_removals_of_spare(folder.folders@, folder.folders@.len() as int, trees);
        let inner = removals_of(folder.folders@, folder.folders@.len() as int, trees);
        assert(removals(folder, trees) == inner.push(folder.path@));
        assert forall|i: int| 0 <= i < inner.push(folder.path@).len() implies !retained(
            #[trigger] inner.push(folder.path@)[i],
            trees,
        ) by {
            if i < inner.len() {
                assert(inner.push(folder.path@)[i] == inner[i]);
            }
        }
    }
}

}

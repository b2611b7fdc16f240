//! How a working tree is brought up to date.
//!
//! The functions here decide what happens next from what happened so far: they
//! are handed the replies to the steps that they asked for, in order, and ask
//! for the next step or say how it ended.

use vstd::prelude::*;

use crate::error::{Error, ErrorModel, Result};
use crate::model::{RecordModel, RepoRecord};
use crate::provider::{canonical_remote, canonicalize_remote};
use crate::text::{
    after_prefix, cat2, cat4, cat5, debug_quote, debug_text, lossy, lossy_text, opt_str, opt_text,
    strip_prefix, text_eq, texts, trim, trimmed,
};

verus! {

/// What a synchronization did to a working tree.
#[derive(Clone, Copy, Debug, PartialEq, Eq, Structural)]
pub enum SyncAction {
    /// The repository was cloned.
    Cloned,
    /// The default branch was moved forward to its remote.
    FastForwarded,
    /// The remote was fetched and the working tree left as it is.
    Fetched,
    /// There was nothing to do.
    Unchanged,
}

/// The outcome of a synchronization.
#[derive(Clone, Debug, PartialEq, Eq)]
pub struct GitSyncResult {
    /// What was done.
    pub action: SyncAction,
    /// Why the working tree was left as it is.
    pub detail: Option<String>,
    /// The default branch, where it is known.
    pub detected_default_branch: Option<String>,
}

/// The outcome of a synchronization, with its texts as characters.
pub struct SyncResultModel {
    pub action: SyncAction,
    pub detail: Option<Seq<char>>,
    pub detected_default_branch: Option<Seq<char>>,
}

impl View for GitSyncResult {
    type V = SyncResultModel;

    open spec fn view(&self) -> SyncResultModel {
        SyncResultModel {
            action: self.action,
            detail: opt_text(self.detail),
            detected_default_branch: opt_text(self.detected_default_branch),
        }
    }
}

/// What Git left behind when it ended.
#[derive(Debug, PartialEq, Eq)]
pub struct GitOutput {
    /// Whether it succeeded.
    pub success: bool,
    /// Its exit code, where it has one.
    pub code: Option<i32>,
    /// How it ended, in words.
    pub status: String,
    /// What it wrote.
    pub stdout: Vec<u8>,
    /// What it complained about.
    pub stderr: Vec<u8>,
}

/// What is at a path, if symbolic links are not followed.
#[derive(Clone, Copy, Debug, PartialEq, Eq, Structural)]
pub enum PathKind {
    /// Nothing.
    Missing,
    /// A directory.
    Directory,
    /// Something else.
    Other,
}

/// What came of a step.
#[derive(Debug, PartialEq, Eq)]
pub enum Reply {
    /// Git ran.
    Output(GitOutput),
    /// Git could not be run.
    NotRun(String),
    /// The path that the file system makes of a remote, if it is one there.
    Resolved(Option<String>),
    /// The directory that was asked for.
    Directory(String),
    /// Whether something is there.
    Found(bool),
    /// What is at a path.
    Kind(PathKind),
    /// The step was done.
    Done,
    /// The step failed.
    Failed(Error),
}

/// What is to be done next.
#[derive(Debug, PartialEq, Eq)]
pub enum GitStep {
    /// Make a temporary directory; the reply names it.
    MakeTemporary,
    /// Run Git with these arguments and the temporary directory.
    Clone(Vec<String>),
    /// Move the temporary directory to the place of the working tree.
    Install,
    /// Look up what the file system makes of a remote.
    Resolve(String),
    /// Run Git with these arguments in the working tree.
    Run(Vec<String>),
    /// Nothing: it ended like this.
    Finish(Result<GitSyncResult>),
}

/// What is to be done next, with its texts as characters.
pub enum StepModel {
    MakeTemporary,
    Clone(Seq<Seq<char>>),
    Install,
    Resolve(Seq<char>),
    Run(Seq<Seq<char>>),
    Finish(std::result::Result<SyncResultModel, ErrorModel>),
}

impl View for GitStep {
    type V = StepModel;

    open spec fn view(&self) -> StepModel {
        match self {
            GitStep::MakeTemporary => StepModel::MakeTemporary,
            GitStep::Clone(args) => StepModel::Clone(texts(args@)),
            GitStep::Install => StepModel::Install,
            GitStep::Resolve(remote) => StepModel::Resolve(remote@),
            GitStep::Run(args) => StepModel::Run(texts(args@)),
            GitStep::Finish(result) => StepModel::Finish(
                match result {
                    Ok(result) => Ok(result@),
                    Err(error) => Err(error@),
                },
            ),
        }
    }
}

/// The error about a run of Git that failed.
pub open spec fn command_problem(path: Seq<char>, output: GitOutput) -> ErrorModel {
    ErrorModel::Git(
        "git in "@ + path + " exited with "@ + output.status@ + ": "@ + trimmed(lossy_text(output.stderr@)),
    )
}

/// The error about a run of Git that failed.
pub fn command_error(path: &str, output: &GitOutput) -> (error: Error)
    ensures
        error@ == command_problem(path@, *output),
{
    Error::Git(
        cat2(
            cat5("git in ", path, " exited with ", output.status.as_str(), ": ").as_str(),
            trim(lossy(output.stderr.as_slice()).as_str()).as_str(),
        ),
    )
}

/// The error about Git that could not be run.
pub open spec fn spawn_problem(path: Seq<char>, message: Seq<char>) -> ErrorModel {
    ErrorModel::Git("could not run git in "@ + path + ": "@ + message)
}

/// The error about Git that could not be run.
pub fn git_spawn_error(path: &str, message: &str) -> (error: Error)
    ensures
        error@ == spawn_problem(path@, message@),
{
    Error::Git(cat4("could not run git in ", path, ": ", message))
}

/// The error of a reply that does not fit the step.
pub open spec fn reply_problem(path: Seq<char>, reply: Reply) -> ErrorModel {
    match reply {
        Reply::NotRun(message) => spawn_problem(path, message@),
        Reply::Output(output) => command_problem(path, output),
        Reply::Failed(error) => error@,
        _ => ErrorModel::Task("the reply does not fit the step"@),
    }
}

/// The error of a reply that does not fit the step.
pub fn reply_error(path: &str, reply: &Reply) -> (error: Error)
    ensures
        error@ == reply_problem(path@, *reply),
{
    match reply {
        Reply::NotRun(message) => git_spawn_error(path, message.as_str()),
        Reply::Output(output) => command_error(path, output),
        Reply::Failed(error) => error.clone(),
        _ => Error::Task("the reply does not fit the step".to_owned()),
    }
}

/// What a run of Git wrote, if it succeeded.
pub open spec fn written(path: Seq<char>, reply: Reply) -> std::result::Result<
    Seq<char>,
    ErrorModel,
> {
    match reply {
        Reply::Output(output) if output.success => Ok(trimmed(lossy_text(output.stdout@))),
        _ => Err(reply_problem(path, reply)),
    }
}

/// What a run of Git wrote, if it succeeded.
pub fn git_stdout(path: &str, reply: &Reply) -> (text: Result<String>)
    ensures
        match text {
            Ok(text) => written(path@, *reply) == Ok::<Seq<char>, ErrorModel>(text@),
            Err(error) => written(path@, *reply) == Err::<Seq<char>, ErrorModel>(error@),
        },
{
    if let Reply::Output(output) = reply {
        if output.success {
            return Ok(trim(lossy(output.stdout.as_slice()).as_str()));
        }
    }
    Err(reply_error(path, reply))
}

/// What a run of Git wrote, if it succeeded; nothing, if it ended with the exit
/// code one.
pub open spec fn written_if_any(path: Seq<char>, reply: Reply) -> std::result::Result<
    Option<Seq<char>>,
    ErrorModel,
> {
    match reply {
        Reply::Output(output) if output.success => Ok(Some(trimmed(lossy_text(output.stdout@)))),
        Reply::Output(output) if output.code == Some(1i32) => Ok(None),
        _ => Err(reply_problem(path, reply)),
    }
}

/// What a run of Git wrote, if it succeeded; nothing, if it ended with the exit
/// code one.
pub fn git_optional_stdout(path: &str, reply: &Reply) -> (text: Result<Option<String>>)
    ensures
        match text {
            Ok(text) => written_if_any(path@, *reply) == Ok::<Option<Seq<char>>, ErrorModel>(
                opt_text(text),
            ),
            Err(error) => written_if_any(path@, *reply) == Err::<Option<Seq<char>>, ErrorModel>(
                error@,
            ),
        },
{
    if let Reply::Output(output) = reply {
        if output.success {
            return Ok(Some(trim(lossy(output.stdout.as_slice()).as_str())));
        }
        if let Some(code) = output.code {
            if code == 1 {
                return Ok(None);
            }
        }
    }
    Err(reply_error(path, reply))
}

/// A step whose reply decides what follows. While there is no reply, the step
/// itself is what is to be done.
pub open spec fn asked<S>(
    replies: Seq<Reply>,
    i: int,
    step: S,
    rest: spec_fn(Reply) -> S,
) -> S {
    if i < replies.len() {
        rest(replies[i])
    } else {
        step
    }
}

/// The end with an error.
pub open spec fn failed(problem: ErrorModel) -> StepModel {
    StepModel::Finish(Err(problem))
}

/// The end with an outcome.
pub open spec fn ended(
    action: SyncAction,
    detail: Option<Seq<char>>,
    branch: Option<Seq<char>>,
) -> StepModel {
    StepModel::Finish(Ok(SyncResultModel { action, detail, detected_default_branch: branch }))
}

/// A run of Git that has to succeed; what it writes decides what follows.
pub open spec fn run(
    replies: Seq<Reply>,
    i: int,
    path: Seq<char>,
    args: Seq<Seq<char>>,
    rest: spec_fn(Seq<char>) -> StepModel,
) -> StepModel {
    asked(
        replies,
        i,
        StepModel::Run(args),
        |reply: Reply|
            match written(path, reply) {
                Err(problem) => failed(problem),
                Ok(text) => rest(text),
            },
    )
}

/// A run of Git that may find nothing; what it writes decides what follows.
pub open spec fn run_if_any(
    replies: Seq<Reply>,
    i: int,
    path: Seq<char>,
    args: Seq<Seq<char>>,
    rest: spec_fn(Option<Seq<char>>) -> StepModel,
) -> StepModel {
    asked(
        replies,
        i,
        StepModel::Run(args),
        |reply: Reply|
            match written_if_any(path, reply) {
                Err(problem) => failed(problem),
                Ok(text) => rest(text),
            },
    )
}

/// The arguments that ask for the remote of a working tree. They name the one
/// that is stored there, before any rule that rewrites it.
pub open spec fn origin_args() -> Seq<Seq<char>> {
    seq!["config"@, "--get"@, "remote.origin.url"@]
}

/// The arguments that fetch from the remote: every branch, or the default
/// branch where it is known.
pub open spec fn fetch_args(branch: Option<Seq<char>>, all: bool) -> Seq<Seq<char>> {
    let common = seq!["fetch"@, "--quiet"@, "--prune"@, "origin"@];
    if all {
        common.push("+refs/heads/*:refs/remotes/origin/*"@)
    } else {
        match branch {
            Some(branch) => common.push(
                "+refs/heads/"@ + branch + ":refs/remotes/origin/"@ + branch,
            ),
            None => common,
        }
    }
}

/// The arguments that ask for the default branch of the remote.
pub open spec fn remote_head_args() -> Seq<Seq<char>> {
    seq!["symbolic-ref"@, "--quiet"@, "--short"@, "refs/remotes/origin/HEAD"@]
}

/// The arguments that ask for the changes of a working tree.
pub open spec fn status_args() -> Seq<Seq<char>> {
    seq!["status"@, "--porcelain=v1"@, "--untracked-files=normal"@]
}

/// The arguments that ask for the branch that is checked out.
pub open spec fn head_args() -> Seq<Seq<char>> {
    seq!["symbolic-ref"@, "--quiet"@, "--short"@, "HEAD"@]
}

/// The arguments that ask for the commit of a reference.
pub open spec fn commit_args(reference: Seq<char>) -> Seq<Seq<char>> {
    seq!["rev-parse"@, reference]
}

/// The arguments that ask whether what is checked out is behind a reference.
pub open spec fn ancestor_args(upstream: Seq<char>) -> Seq<Seq<char>> {
    seq!["merge-base"@, "--is-ancestor"@, "HEAD"@, upstream]
}

/// The arguments that move what is checked out forward to a reference.
pub open spec fn merge_args(upstream: Seq<char>) -> Seq<Seq<char>> {
    seq!["merge"@, "--quiet"@, "--ff-only"@, upstream]
}

/// The arguments that clone a repository, without the directory.
pub open spec fn clone_args(repo: RecordModel, all: bool) -> Seq<Seq<char>> {
    let start = seq!["clone"@, "--quiet"@];
    let single = if all {
        start
    } else {
        start.push("--single-branch"@)
    };
    let branched = match repo.default_branch {
        Some(branch) => single.push("--branch"@).push(branch),
        None => single,
    };
    branched.push(repo.clone_url)
}

/// The branch that a reference to the default branch of the remote names.
pub open spec fn remote_branch(reference: Option<Seq<char>>) -> Option<Seq<char>> {
    match reference {
        Some(reference) => after_prefix(reference, "origin/"@),
        None => None,
    }
}

/// The default branch of a repository: the one that is recorded, or else the
/// one of the remote, which the reply at a place names.
pub open spec fn with_default_branch(
    repo: RecordModel,
    replies: Seq<Reply>,
    i: int,
    rest: spec_fn(Option<Seq<char>>) -> StepModel,
) -> StepModel {
    match repo.default_branch {
        Some(branch) => rest(Some(branch)),
        None => run_if_any(
            replies,
            i,
            repo.local_path,
            remote_head_args(),
            |reference: Option<Seq<char>>| rest(remote_branch(reference)),
        ),
    }
}

/// How a repository without a working tree is cloned: into a temporary
/// directory, which takes the place of the working tree once it is complete.
pub open spec fn clone_step(repo: RecordModel, all: bool, replies: Seq<Reply>) -> StepModel {
    asked(
        replies,
        0,
        StepModel::MakeTemporary,
        |reply: Reply|
            match reply {
                Reply::Directory(temporary) => asked(
                    replies,
                    1,
                    StepModel::Clone(clone_args(repo, all)),
                    |reply: Reply|
                        match written(temporary@, reply) {
                            Err(problem) => failed(problem),
                            Ok(_) => asked(
                                replies,
                                2,
                                StepModel::Install,
                                |reply: Reply|
                                    match reply {
                                        Reply::Done => with_default_branch(
                                            repo,
                                            replies,
                                            3,
                                            |branch: Option<Seq<char>>|
                                                ended(SyncAction::Cloned, None, branch),
                                        ),
                                        _ => failed(reply_problem(repo.local_path, reply)),
                                    },
                            ),
                        },
                ),
                _ => failed(reply_problem(repo.local_path, reply)),
            },
    )
}

/// The error about a working tree whose remote is not that of the repository.
pub open spec fn remote_problem(
    repo: RecordModel,
    origin: Seq<char>,
    reply: Reply,
) -> Option<ErrorModel> {
    match reply {
        Reply::Resolved(resolved) => match canonical_remote(origin, opt_text(resolved)) {
            Err(problem) => Some(problem),
            Ok(canonical) => if canonical == repo.canonical_url {
                None
            } else {
                Some(
                    ErrorModel::Git(
                        repo.local_path + " has origin "@ + debug_text(origin) + ", expected "@
                            + debug_text(repo.clone_url),
                    ),
                )
            },
        },
        _ => Some(reply_problem(repo.local_path, reply)),
    }
}

/// Why a working tree whose default branch is known is left as it is.
pub open spec fn left_alone(
    branch: Option<Seq<char>>,
    default_branch: Seq<char>,
    dirty: bool,
) -> Option<Seq<char>> {
    match branch {
        None => Some("detached HEAD; fetched without updating the worktree"@),
        Some(branch) => if branch != default_branch {
            Some(
                "on branch "@ + debug_text(branch) + "; fetched without switching to "@
                    + debug_text(default_branch),
            )
        } else if dirty {
            Some("working tree has local changes; fetched without updating it"@)
        } else {
            None
        },
    }
}

/// How a clean working tree on its default branch is moved forward: only if it
/// is behind its remote and has nothing of its own.
pub open spec fn forward_step(
    path: Seq<char>,
    branch: Seq<char>,
    replies: Seq<Reply>,
    i: int,
) -> StepModel {
    let upstream = "origin/"@ + branch;
    run(
        replies,
        i,
        path,
        commit_args("HEAD"@),
        |head: Seq<char>|
            run(
                replies,
                i + 1,
                path,
                commit_args(upstream),
                |remote_head: Seq<char>|
                    if head == remote_head {
                        ended(SyncAction::Unchanged, None, Some(branch))
                    } else {
                        run_if_any(
                            replies,
                            i + 2,
                            path,
                            ancestor_args(upstream),
                            |behind: Option<Seq<char>>|
                                match behind {
                                    None => ended(
                                        SyncAction::Fetched,
                                        Some(
                                            "local default branch has diverged; fetched without updating it"@,
                                        ),
                                        Some(branch),
                                    ),
                                    Some(_) => run(
                                        replies,
                                        i + 3,
                                        path,
                                        merge_args(upstream),
                                        |_text: Seq<char>|
                                            ended(SyncAction::FastForwarded, None, Some(branch)),
                                    ),
                                },
                        )
                    },
            ),
    )
}

/// The number of replies that come before the one about the changes of the
/// working tree.
pub open spec fn status_place(repo: RecordModel) -> int {
    if repo.default_branch is Some {
        3
    } else {
        4
    }
}

/// How an existing working tree is brought up to date: it is fetched, and moved
/// forward if nothing speaks against it.
pub open spec fn update_step(repo: RecordModel, all: bool, replies: Seq<Reply>) -> StepModel {
    let path = repo.local_path;
    let place = status_place(repo);
    run(
        replies,
        0,
        path,
        origin_args(),
        |origin: Seq<char>|
            asked(
                replies,
                1,
                StepModel::Resolve(origin),
                |reply: Reply|
                    match remote_problem(repo, origin, reply) {
                        Some(problem) => failed(problem),
                        None => run(
                            replies,
                            2,
                            path,
                            fetch_args(repo.default_branch, all),
                            |_text: Seq<char>|
                                with_default_branch(
                                    repo,
                                    replies,
                                    3,
                                    |default_branch: Option<Seq<char>>|
                                        run(
                                            replies,
                                            place,
                                            path,
                                            status_args(),
                                            |changes: Seq<char>|
                                                run_if_any(
                                                    replies,
                                                    place + 1,
                                                    path,
                                                    head_args(),
                                                    |branch: Option<Seq<char>>|
                                                        verdict(
                                                            path,
                                                            branch,
                                                            default_branch,
                                                            changes.len() != 0,
                                                            replies,
                                                            place + 2,
                                                        ),
                                                ),
                                        ),
                                ),
                        ),
                    },
            ),
    )
}

/// What follows once the state of a working tree is known.
pub open spec fn verdict(
    path: Seq<char>,
    branch: Option<Seq<char>>,
    default_branch: Option<Seq<char>>,
    dirty: bool,
    replies: Seq<Reply>,
    i: int,
) -> StepModel {
    match default_branch {
        None => ended(
            SyncAction::Fetched,
            Some("default branch is unknown; fetched without updating the worktree"@),
            None,
        ),
        Some(default_branch) => match left_alone(branch, default_branch, dirty) {
            Some(detail) => ended(SyncAction::Fetched, Some(detail), Some(default_branch)),
            None => forward_step(path, default_branch, replies, i),
        },
    }
}

/// What is to be done next to synchronize a repository. `exists` says whether
/// there is something at the place of its working tree, `has_git_dir` whether
/// it is a working tree.
pub open spec fn sync_step(
    repo: RecordModel,
    exists: bool,
    has_git_dir: bool,
    all: bool,
    replies: Seq<Reply>,
) -> StepModel {
    if !exists {
        clone_step(repo, all, replies)
    } else if !has_git_dir {
        failed(ErrorModel::Git(repo.local_path + " exists but is not a Git working tree"@))
    } else {
        update_step(repo, all, replies)
    }
}

/// A list of arguments.
fn args2(a: &str, b: &str) -> (args: Vec<String>)
    ensures
        texts(args@) == seq![a@, b@],
{
    let mut args: Vec<String> = Vec::new();
    args.push(a.to_owned());
    args.push(b.to_owned());
    proof {
        assert(texts(args@) =~= seq![a@, b@]);
    }
    args
}

/// A list of arguments.
pub(crate) fn args3(a: &str, b: &str, c: &str) -> (args: Vec<String>)
    ensures
        texts(args@) == seq![a@, b@, c@],
{
    let mut args = args2(a, b);
    push_arg(&mut args, c);
    proof {
        assert(texts(args@) =~= seq![a@, b@, c@]);
    }
    args
}

/// A list of arguments.
fn args4(a: &str, b: &str, c: &str, d: &str) -> (args: Vec<String>)
    ensures
        texts(args@) == seq![a@, b@, c@, d@],
{
    let mut args = args3(a, b, c);
    push_arg(&mut args, d);
    proof {
        assert(texts(args@) =~= seq![a@, b@, c@, d@]);
    }
    args
}

/// A list of arguments.
pub(crate) fn args5(a: &str, b: &str, c: &str, d: &str, e: &str) -> (args: Vec<String>)
    ensures
        texts(args@) == seq![a@, b@, c@, d@, e@],
{
    let mut args = args4(a, b, c, d);
    push_arg(&mut args, e);
    proof {
        assert(texts(args@) =~= seq![a@, b@, c@, d@, e@]);
    }
    args
}

/// Puts an argument behind others.
fn push_arg(args: &mut Vec<String>, arg: &str)
    ensures
        texts(final(args)@) == texts(old(args)@).push(arg@),
{
    args.push(arg.to_owned());
    proof {
        assert(texts(args@) =~= texts(old(args)@).push(arg@));
    }
}

/// The arguments that fetch from the remote.
fn fetch_arguments(branch: &Option<String>, all: bool) -> (args: Vec<String>)
    ensures
        texts(args@) == fetch_args(opt_text(*branch), all),
{
    let mut args = args4("fetch", "--quiet", "--prune", "origin");
    if all {
        push_arg(&mut args, "+refs/heads/*:refs/remotes/origin/*");
    } else if let Some(branch) = branch {
        push_arg(
            &mut args,
            cat4("+refs/heads/", branch.as_str(), ":refs/remotes/origin/", branch.as_str()).as_str(),
        );
    }
    args
}

/// The arguments that clone a repository, without the directory.
pub fn clone_arguments(repo: &RepoRecord, all: bool) -> (args: Vec<String>)
    ensures
        texts(args@) == clone_args(repo@, all),
{
    let mut args = args2("clone", "--quiet");
    if !all {
        push_arg(&mut args, "--single-branch");
    }
    if let Some(branch) = &repo.default_branch {
        push_arg(&mut args, "--branch");
        push_arg(&mut args, branch.as_str());
    }
    push_arg(&mut args, repo.clone_url.as_str());
    args
}

/// The end with an outcome.
fn result(action: SyncAction, detail: Option<String>, branch: Option<&str>) -> (step: GitStep)
    ensures
        step@ == ended(action, opt_text(detail), opt_str(branch)),
{
    GitStep::Finish(
        Ok(
            GitSyncResult {
                action,
                detail,
                detected_default_branch: match branch {
                    Some(branch) => Some(branch.to_owned()),
                    None => None,
                },
            },
        ),
    )
}

/// What a reply says of the default branch of the remote.
fn remote_default_branch(path: &str, reply: &Reply) -> (branch: Result<Option<String>>)
    ensures
        match branch {
            Ok(branch) => written_if_any(path@, *reply) matches Ok(reference) && opt_text(branch)
                == remote_branch(reference),
            Err(error) => written_if_any(path@, *reply) == Err::<Option<Seq<char>>, ErrorModel>(
                error@,
            ),
        },
{
    match git_optional_stdout(path, reply) {
        Err(error) => Err(error),
        Ok(reference) => Ok(
            match reference {
                Some(reference) => strip_prefix(reference.as_str(), "origin/"),
                None => None,
            },
        ),
    }
}

/// The default branch of a repository, or the step that asks for it.
fn default_branch(repo: &RepoRecord, replies: &Vec<Reply>, i: usize) -> (branch: std::result::Result<
    Option<String>,
    GitStep,
>)
    ensures
        forall|rest: spec_fn(Option<Seq<char>>) -> StepModel|
            match branch {
                Ok(branch) => #[trigger] with_default_branch(repo@, replies@, i as int, rest)
                    == rest(opt_text(branch)),
                Err(step) => with_default_branch(repo@, replies@, i as int, rest) == step@,
            },
        branch matches Ok(branch) ==> repo.default_branch is Some || i < replies@.len(),
        repo.default_branch matches Some(known) ==> branch matches Ok(Some(branch)) && branch@
            == known@,
{
    if let Some(branch) = &repo.default_branch {
        return Ok(Some(branch.clone()));
    }
    if i >= replies.len() {
        return Err(
            GitStep::Run(args4("symbolic-ref", "--quiet", "--short", "refs/remotes/origin/HEAD")),
        );
    }
    match remote_default_branch(repo.local_path.as_str(), &replies[i]) {
        Ok(branch) => Ok(branch),
        Err(error) => Err(GitStep::Finish(Err(error))),
    }
}

/// What is to be done next to clone a repository.
fn clone_repo(repo: &RepoRecord, all: bool, replies: &Vec<Reply>) -> (step: GitStep)
    ensures
        step@ == clone_step(repo@, all, replies@),
{
    let path = repo.local_path.as_str();
    if replies.len() == 0 {
        return GitStep::MakeTemporary;
    }
    let temporary = match &replies[0] {
        Reply::Directory(temporary) => temporary,
        reply => return GitStep::Finish(Err(reply_error(path, reply))),
    };
    if replies.len() == 1 {
        return GitStep::Clone(clone_arguments(repo, all));
    }
    if let Err(error) = git_stdout(temporary.as_str(), &replies[1]) {
        return GitStep::Finish(Err(error));
    }
    if replies.len() == 2 {
        return GitStep::Install;
    }
    match &replies[2] {
        Reply::Done => {},
        reply => return GitStep::Finish(Err(reply_error(path, reply))),
    }
    match default_branch(repo, replies, 3) {
        Ok(branch) => result(
            SyncAction::Cloned,
            None,
            match &branch {
                Some(branch) => Some(branch.as_str()),
                None => None,
            },
        ),
        Err(step) => step,
    }
}

/// The error about a working tree whose remote is not that of the repository.
fn remote_error(repo: &RepoRecord, origin: &str, reply: &Reply) -> (error: Option<Error>)
    ensures
        match error {
            Some(error) => remote_problem(repo@, origin@, *reply) == Some(error@),
            None => remote_problem(repo@, origin@, *reply) is None,
        },
{
    let resolved = match reply {
        Reply::Resolved(resolved) => resolved,
        reply => return Some(reply_error(repo.local_path.as_str(), reply)),
    };
    let resolved = match resolved {
        Some(resolved) => Some(resolved.as_str()),
        None => None,
    };
    match canonicalize_remote(origin, resolved) {
        Err(error) => Some(error),
        Ok(canonical) => {
            if text_eq(canonical.as_str(), repo.canonical_url.as_str()) {
                None
            } else {
                Some(
                    Error::Git(
                        cat5(
                            repo.local_path.as_str(),
                            " has origin ",
                            debug_quote(origin).as_str(),
                            ", expected ",
                            debug_quote(repo.clone_url.as_str()).as_str(),
                        ),
                    ),
                )
            }
        },
    }
}

/// Why a working tree whose default branch is known is left as it is.
fn reason_to_leave(branch: &Option<String>, default_branch: &str, dirty: bool) -> (reason: Option<
    String,
>)
    ensures
        opt_text(reason) == left_alone(opt_text(*branch), default_branch@, dirty),
{
    match branch {
        None => Some("detached HEAD; fetched without updating the worktree".to_owned()),
        Some(branch) => {
            if !text_eq(branch.as_str(), default_branch) {
                Some(
                    cat4(
                        "on branch ",
                        debug_quote(branch.as_str()).as_str(),
                        "; fetched without switching to ",
                        debug_quote(default_branch).as_str(),
                    ),
                )
            } else if dirty {
                Some("working tree has local changes; fetched without updating it".to_owned())
            } else {
                None
            }
        },
    }
}

/// What is to be done next to move a working tree forward.
fn fast_forward(path: &str, branch: &str, replies: &Vec<Reply>, i: usize) -> (step: GitStep)
    requires
        i <= 6,
    ensures
        step@ == forward_step(path@, branch@, replies@, i as int),
{
    let upstream = cat2("origin/", branch);
    if replies.len() <= i {
        return GitStep::Run(args2("rev-parse", "HEAD"));
    }
    let head = match git_stdout(path, &replies[i]) {
        Ok(head) => head,
        Err(error) => return GitStep::Finish(Err(error)),
    };
    if replies.len() <= i + 1 {
        return GitStep::Run(args2("rev-parse", upstream.as_str()));
    }
    let remote_head = match git_stdout(path, &replies[i + 1]) {
        Ok(head) => head,
        Err(error) => return GitStep::Finish(Err(error)),
    };
    if text_eq(head.as_str(), remote_head.as_str()) {
        return result(SyncAction::Unchanged, None, Some(branch));
    }
    if replies.len() <= i + 2 {
        return GitStep::Run(args4("merge-base", "--is-ancestor", "HEAD", upstream.as_str()));
    }
    match git_optional_stdout(path, &replies[i + 2]) {
        Err(error) => return GitStep::Finish(Err(error)),
        Ok(None) => {
            return result(
                SyncAction::Fetched,
                Some("local default branch has diverged; fetched without updating it".to_owned()),
                Some(branch),
            );
        },
        Ok(Some(_)) => {},
    }
    if replies.len() <= i + 3 {
        return GitStep::Run(args4("merge", "--quiet", "--ff-only", upstream.as_str()));
    }
    match git_stdout(path, &replies[i + 3]) {
        Ok(_) => result(SyncAction::FastForwarded, None, Some(branch)),
        Err(error) => GitStep::Finish(Err(error)),
    }
}

/// What is to be done next to synchronize a repository: `replies` are what came
/// of the steps so far, `exists` says whether there is something at the place
/// of its working tree, and `has_git_dir` whether it is a working tree.
pub fn sync_repo(
    repo: &RepoRecord,
    exists: bool,
    has_git_dir: bool,
    fetch_all_branches: bool,
    replies: &Vec<Reply>,
) -> (step: GitStep)
    ensures
        step@ == sync_step(repo@, exists, has_git_dir, fetch_all_branches, replies@),
{
    if !exists {
        return clone_repo(repo, fetch_all_branches, replies);
    }
    let path = repo.local_path.as_str();
    if !has_git_dir {
        return GitStep::Finish(
            Err(Error::Git(cat2(path, " exists but is not a Git working tree"))),
        );
    }
    if replies.len() == 0 {
        return GitStep::Run(args3("config", "--get", "remote.origin.url"));
    }
    let origin = match git_stdout(path, &replies[0]) {
        Ok(origin) => origin,
        Err(error) => return GitStep::Finish(Err(error)),
    };
    if replies.len() == 1 {
        return GitStep::Resolve(origin);
    }
    if let Some(error) = remote_error(repo, origin.as_str(), &replies[1]) {
        return GitStep::Finish(Err(error));
    }
    if replies.len() == 2 {
        return GitStep::Run(fetch_arguments(&repo.default_branch, fetch_all_branches));
    }
    if let Err(error) = git_stdout(path, &replies[2]) {
        return GitStep::Finish(Err(error));
    }
    let detected = match default_branch(repo, replies, 3) {
        Ok(branch) => branch,
        Err(step) => return step,
    };
    let place: usize = if repo.default_branch.is_some() {
        3
    } else {
        4
    };
    if replies.len() <= place {
        return GitStep::Run(args3("status", "--porcelain=v1", "--untracked-files=normal"));
    }
    let changes = match git_stdout(path, &replies[place]) {
        Ok(changes) => changes,
        Err(error) => return GitStep::Finish(Err(error)),
    };
    let dirty = !changes.as_str().is_empty();
    if replies.len() <= place + 1 {
        return GitStep::Run(args4("symbolic-ref", "--quiet", "--short", "HEAD"));
    }
    let branch = match git_optional_stdout(path, &replies[place + 1]) {
        Ok(branch) => branch,
        Err(error) => return GitStep::Finish(Err(error)),
    };
    let default_branch = match detected {
        Some(branch) => branch,
        None => {
            return result(
                SyncAction::Fetched,
                Some(
                    "default branch is unknown; fetched without updating the worktree".to_owned(),
                ),
                None,
            );
        },
    };
    match reason_to_leave(&branch, default_branch.as_str(), dirty) {
        Some(reason) => result(SyncAction::Fetched, Some(reason), Some(default_branch.as_str())),
        None => fast_forward(path, default_branch.as_str(), replies, place + 2),
    }
}

/// The first arguments of the commands differ from one another in their length
/// or their first characters.
proof fn lemma_commands_differ()
    ensures
        "merge"@ != "config"@,
        "merge"@ != "fetch"@,
        "merge"@ != "symbolic-ref"@,
        "merge"@ != "status"@,
        "merge"@ != "rev-parse"@,
        "merge"@ != "merge-base"@,
{
    reveal_strlit("merge");
    reveal_strlit("config");
    reveal_strlit("fetch");
    reveal_strlit("symbolic-ref");
    reveal_strlit("status");
    reveal_strlit("rev-parse");
    reveal_strlit("merge-base");
    assert("merge"@[0] == 'm');
    assert("fetch"@[0] == 'f');
    assert("merge"@.len() == 5);
    assert("merge-base"@.len() == 10);
}

/// A working tree is moved forward only if it is clean, its default branch is
/// checked out, and that branch is behind its remote without being the same:
/// dirty, divergent, detached and other working trees are left as they are.
pub proof fn law_only_safe_working_trees_are_moved(
    repo: RecordModel,
    exists: bool,
    has_git_dir: bool,
    all: bool,
    replies: Seq<Reply>,
    args: Seq<Seq<char>>,
)
    requires
        sync_step(repo, exists, has_git_dir, all, replies) == StepModel::Run(args),
        args.len() > 0,
        args[0] == "merge"@,
    ensures
        ({
            let path = repo.local_path;
            let place = status_place(repo);
            let branch = if repo.default_branch is Some {
                repo.default_branch
            } else {
                remote_branch(written_if_any(path, replies[3])->Ok_0)
            };
            &&& exists && has_git_dir
            &&& replies.len() == place + 5
            &&& branch is Some
            &&& args == merge_args("origin/"@ + branch->Some_0)
            &&& written(path, replies[place]) == Ok::<Seq<char>, ErrorModel>(Seq::empty())
            &&& written_if_any(path, replies[place + 1]) == Ok::<Option<Seq<char>>, ErrorModel>(
                branch,
            )
            &&& written(path, replies[place + 2]) is Ok
            &&& written(path, replies[place + 3]) is Ok
            &&& written(path, replies[place + 2]) != written(path, replies[place + 3])
            &&& written(path, replies[place + 4]) is Ok
        }),
{
    lemma_commands_differ();
    let place = status_place(repo);
    if exists && has_git_dir {
        let changes = written(repo.local_path, replies[place])->Ok_0;
        if changes.len() == 0 {
            assert(changes =~= Seq::empty());
        }
    }
}

/// In an existing working tree only these commands are run; all but the last
/// one leave what is checked out as it is.
pub proof fn law_existing_working_trees_see_only_these_commands(
    repo: RecordModel,
    all: bool,
    replies: Seq<Reply>,
    args: Seq<Seq<char>>,
)
    requires
        sync_step(repo, true, true, all, replies) == StepModel::Run(args),
    ensures
        ({
            ||| args == origin_args()
            ||| args == fetch_args(repo.default_branch, all)
            ||| args == remote_head_args()
            ||| args == status_args()
            ||| args == head_args()
            ||| exists|reference: Seq<char>| args == #[trigger] commit_args(reference)
            ||| exists|upstream: Seq<char>| args == #[trigger] ancestor_args(upstream)
            ||| exists|upstream: Seq<char>| args == #[trigger] merge_args(upstream)
        }),
{
}

/// A synchronization of an existing working tree that succeeds has fetched from
/// its remote, and the remote is that of the repository.
pub proof fn law_existing_working_trees_are_fetched(
    repo: RecordModel,
    all: bool,
    replies: Seq<Reply>,
    result: SyncResultModel,
)
    requires
        sync_step(repo, true, true, all, replies) == StepModel::Finish(
            Ok::<SyncResultModel, ErrorModel>(result),
        ),
    ensures
        replies.len() > 2,
        written(repo.local_path, replies[0]) is Ok,
        remote_problem(repo, written(repo.local_path, replies[0])->Ok_0, replies[1]) is None,
        written(repo.local_path, replies[2]) is Ok,
{
}

/// Only a complete clone takes the place of a working tree, and only where
/// there was none.
pub proof fn law_only_complete_clones_are_installed(
    repo: RecordModel,
    exists: bool,
    has_git_dir: bool,
    all: bool,
    replies: Seq<Reply>,
)
    requires
        sync_step(repo, exists, has_git_dir, all, replies) is Install,
    ensures
        !exists,
        replies.len() == 2,
        replies[0] is Directory,
        written(replies[0]->Directory_0@, replies[1]) is Ok,
{
}

/// A synchronization ends after at most ten steps.
pub proof fn law_synchronizations_end(
    repo: RecordModel,
    exists: bool,
    has_git_dir: bool,
    all: bool,
    replies: Seq<Reply>,
)
    requires
        replies.len() >= 10,
    ensures
        sync_step(repo, exists, has_git_dir, all, replies) is Finish,
{
}

}

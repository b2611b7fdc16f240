use multi_repo::error::Error;
use multi_repo::git::{
    clone_arguments, command_error, git_optional_stdout, git_spawn_error, git_stdout, sync_repo,
    GitOutput, GitStep, GitSyncResult, Reply, SyncAction,
};
use multi_repo::model::{RepoRecord, RepoStatus};
use multi_repo::string_set::StringSet;

fn repo(branch: Option<&str>) -> RepoRecord {
    RepoRecord {
        id: "manual/repo".into(),
        canonical_url: "host/acme/repo".into(),
        clone_url: "https://host/acme/repo.git".into(),
        local_path: "/r/manual/repo".into(),
        default_branch: branch.map(|branch| branch.to_owned()),
        active: true,
        status: RepoStatus::Pending,
        sources: StringSet::new(),
        tags: StringSet::new(),
        last_error: None,
    }
}

fn wrote(text: &str) -> Reply {
    Reply::Output(GitOutput {
        success: true,
        code: Some(0),
        status: "exit status: 0".into(),
        stdout: text.as_bytes().to_vec(),
        stderr: Vec::new(),
    })
}

fn exited(code: i32, message: &str) -> GitOutput {
    GitOutput {
        success: false,
        code: Some(code),
        status: format!("exit status: {code}"),
        stdout: Vec::new(),
        stderr: message.as_bytes().to_vec(),
    }
}

fn failed(code: i32, message: &str) -> Reply {
    Reply::Output(exited(code, message))
}

fn run(args: &[&str]) -> GitStep {
    GitStep::Run(args.iter().map(|arg| (*arg).to_owned()).collect())
}

fn ends(action: SyncAction, detail: Option<&str>, branch: Option<&str>) -> GitStep {
    GitStep::Finish(Ok(GitSyncResult {
        action,
        detail: detail.map(|detail| detail.to_owned()),
        detected_default_branch: branch.map(|branch| branch.to_owned()),
    }))
}

/// Follows the steps of a synchronization of an existing working tree, each of
/// which has to be the expected one.
fn follow(repo: &RepoRecord, all: bool, script: Vec<(GitStep, Reply)>) -> GitStep {
    let mut replies = Vec::new();
    for (step, reply) in script {
        assert_eq!(sync_repo(repo, true, true, all, &replies), step);
        replies.push(reply);
    }
    sync_repo(repo, true, true, all, &replies)
}

fn until_fetched(repo: &RepoRecord) -> Vec<(GitStep, Reply)> {
    let fetch = match &repo.default_branch {
        Some(branch) => run(&[
            "fetch",
            "--quiet",
            "--prune",
            "origin",
            &format!("+refs/heads/{branch}:refs/remotes/origin/{branch}"),
        ]),
        None => run(&["fetch", "--quiet", "--prune", "origin"]),
    };
    vec![
        (run(&["config", "--get", "remote.origin.url"]), wrote("git@host:acme/repo.git\n")),
        (GitStep::Resolve("git@host:acme/repo.git".into()), Reply::Resolved(None)),
        (fetch, wrote("")),
    ]
}

fn status() -> GitStep {
    run(&["status", "--porcelain=v1", "--untracked-files=normal"])
}

fn head() -> GitStep {
    run(&["symbolic-ref", "--quiet", "--short", "HEAD"])
}

#[test]
fn missing_working_trees_are_cloned() {
    let repo = repo(None);
    let mut replies = Vec::new();
    assert_eq!(sync_repo(&repo, false, false, false, &replies), GitStep::MakeTemporary);
    replies.push(Reply::Directory("/tmp/x".into()));
    assert_eq!(
        sync_repo(&repo, false, false, false, &replies),
        GitStep::Clone(clone_arguments(&repo, false))
    );
    replies.push(wrote(""));
    assert_eq!(sync_repo(&repo, false, false, false, &replies), GitStep::Install);
    replies.push(Reply::Done);
    assert_eq!(
        sync_repo(&repo, false, false, false, &replies),
        run(&["symbolic-ref", "--quiet", "--short", "refs/remotes/origin/HEAD"])
    );
    replies.push(wrote("origin/main\n"));
    assert_eq!(
        sync_repo(&repo, false, false, false, &replies),
        ends(SyncAction::Cloned, None, Some("main"))
    );
}

#[test]
fn failed_clones_are_not_installed() {
    let repo = repo(Some("main"));
    let replies = vec![Reply::Directory("/tmp/x".into()), failed(128, "fatal: no\n")];
    assert_eq!(
        sync_repo(&repo, false, false, false, &replies),
        GitStep::Finish(Err(Error::Git(
            "git in /tmp/x exited with exit status: 128: fatal: no".into()
        )))
    );
    let error = Error::Write { path: "/r".into(), source: "full".into() };
    assert_eq!(
        sync_repo(&repo, false, false, false, &vec![Reply::Failed(error.clone())]),
        GitStep::Finish(Err(error))
    );
}

#[test]
fn clones_take_one_branch_or_all() {
    assert_eq!(
        clone_arguments(&repo(Some("main")), false),
        vec![
            "clone",
            "--quiet",
            "--single-branch",
            "--branch",
            "main",
            "https://host/acme/repo.git",
        ]
    );
    assert_eq!(
        clone_arguments(&repo(None), true),
        vec!["clone", "--quiet", "https://host/acme/repo.git"]
    );
}

#[test]
fn dirty_working_trees_are_left_alone() {
    let repo = repo(None);
    let mut script = until_fetched(&repo);
    script.push((
        run(&["symbolic-ref", "--quiet", "--short", "refs/remotes/origin/HEAD"]),
        wrote("origin/main\n"),
    ));
    script.push((status(), wrote("?? local.txt\n")));
    script.push((head(), wrote("main\n")));
    assert_eq!(
        follow(&repo, false, script),
        ends(
            SyncAction::Fetched,
            Some("working tree has local changes; fetched without updating it"),
            Some("main"),
        )
    );
}

fn clean_on(repo: &RepoRecord, branch: Reply) -> Vec<(GitStep, Reply)> {
    let mut script = until_fetched(repo);
    script.push((status(), wrote("")));
    script.push((head(), branch));
    script
}

#[test]
fn clean_default_branches_behind_their_remote_move_forward() {
    let repo = repo(Some("main"));
    let mut script = clean_on(&repo, wrote("main\n"));
    script.push((run(&["rev-parse", "HEAD"]), wrote("1\n")));
    script.push((run(&["rev-parse", "origin/main"]), wrote("2\n")));
    script.push((
        run(&["merge-base", "--is-ancestor", "HEAD", "origin/main"]),
        wrote(""),
    ));
    script.push((run(&["merge", "--quiet", "--ff-only", "origin/main"]), wrote("")));
    assert_eq!(
        follow(&repo, false, script),
        ends(SyncAction::FastForwarded, None, Some("main"))
    );
}

#[test]
fn working_trees_at_their_remote_are_unchanged() {
    let repo = repo(Some("main"));
    let mut script = clean_on(&repo, wrote("main\n"));
    script.push((run(&["rev-parse", "HEAD"]), wrote("1\n")));
    script.push((run(&["rev-parse", "origin/main"]), wrote("1\n")));
    assert_eq!(follow(&repo, false, script), ends(SyncAction::Unchanged, None, Some("main")));
}

#[test]
fn diverged_branches_are_left_alone() {
    let repo = repo(Some("main"));
    let mut script = clean_on(&repo, wrote("main\n"));
    script.push((run(&["rev-parse", "HEAD"]), wrote("1\n")));
    script.push((run(&["rev-parse", "origin/main"]), wrote("2\n")));
    script.push((
        run(&["merge-base", "--is-ancestor", "HEAD", "origin/main"]),
        failed(1, ""),
    ));
    assert_eq!(
        follow(&repo, false, script),
        ends(
            SyncAction::Fetched,
            Some("local default branch has diverged; fetched without updating it"),
            Some("main"),
        )
    );
}

#[test]
fn detached_and_feature_working_trees_are_left_alone() {
    let repo = repo(Some("main"));
    assert_eq!(
        follow(&repo, false, clean_on(&repo, failed(1, ""))),
        ends(
            SyncAction::Fetched,
            Some("detached HEAD; fetched without updating the worktree"),
            Some("main"),
        )
    );
    assert_eq!(
        follow(&repo, false, clean_on(&repo, wrote("topic\n"))),
        ends(
            SyncAction::Fetched,
            Some("on branch \"topic\"; fetched without switching to \"main\""),
            Some("main"),
        )
    );
}

#[test]
fn unknown_default_branches_are_left_alone() {
    let repo = repo(None);
    let mut script = until_fetched(&repo);
    script.push((
        run(&["symbolic-ref", "--quiet", "--short", "refs/remotes/origin/HEAD"]),
        failed(1, ""),
    ));
    script.push((status(), wrote("")));
    script.push((head(), wrote("main\n")));
    assert_eq!(
        follow(&repo, false, script),
        ends(
            SyncAction::Fetched,
            Some("default branch is unknown; fetched without updating the worktree"),
            None,
        )
    );
}

#[test]
fn all_branches_are_fetched_on_demand() {
    let repo = repo(Some("main"));
    let script = vec![
        (run(&["config", "--get", "remote.origin.url"]), wrote("git@host:acme/repo.git\n")),
        (GitStep::Resolve("git@host:acme/repo.git".into()), Reply::Resolved(None)),
    ];
    assert_eq!(
        follow(&repo, true, script),
        run(&["fetch", "--quiet", "--prune", "origin", "+refs/heads/*:refs/remotes/origin/*"])
    );
}

#[test]
fn working_trees_of_other_remotes_are_refused() {
    let repo = repo(Some("main"));
    let script = vec![
        (run(&["config", "--get", "remote.origin.url"]), wrote("/srv/other.git\n")),
        (GitStep::Resolve("/srv/other.git".into()), Reply::Resolved(Some("/srv/other.git".into()))),
    ];
    assert_eq!(
        follow(&repo, false, script),
        GitStep::Finish(Err(Error::Git(
            "/r/manual/repo has origin \"/srv/other.git\", expected \"https://host/acme/repo.git\""
                .into()
        )))
    );
    assert_eq!(
        sync_repo(&repo, true, false, false, &Vec::new()),
        GitStep::Finish(Err(Error::Git(
            "/r/manual/repo exists but is not a Git working tree".into()
        )))
    );
}

#[test]
fn outputs_are_trimmed_and_failures_told_apart() {
    assert_eq!(git_stdout("/r", &wrote(" a b \n")).unwrap(), "a b");
    assert_eq!(
        git_stdout("/r", &failed(2, " no \n")).unwrap_err(),
        Error::Git("git in /r exited with exit status: 2: no".into())
    );
    assert_eq!(git_optional_stdout("/r", &wrote("x\n")).unwrap().as_deref(), Some("x"));
    assert_eq!(git_optional_stdout("/r", &failed(1, "")).unwrap(), None);
    assert!(git_optional_stdout("/r", &failed(128, "fatal")).is_err());
    assert_eq!(
        git_stdout("/r", &Reply::NotRun("not found".into())).unwrap_err(),
        git_spawn_error("/r", "not found")
    );
    assert_eq!(
        command_error("/r", &exited(3, "\u{fffd}bad\n")).message(),
        "git operation failed: git in /r exited with exit status: 3: \u{fffd}bad"
    );
    let mut broken = exited(3, "");
    broken.stderr = vec![0xff, b'x'];
    assert_eq!(
        command_error("/r", &broken).message(),
        "git operation failed: git in /r exited with exit status: 3: \u{fffd}x"
    );
}

#[test]
fn synchronizations_end() {
    let known = repo(Some("main"));
    for reply in [
        wrote("x"),
        failed(1, ""),
        Reply::Done,
        Reply::Resolved(None),
        Reply::Directory("/tmp/x".into()),
    ] {
        let mut replies = Vec::new();
        for _ in 0..10 {
            replies.push(match &reply {
                Reply::Output(output) if output.success => wrote("x"),
                Reply::Output(_) => failed(1, ""),
                Reply::Done => Reply::Done,
                Reply::Directory(path) => Reply::Directory(path.clone()),
                _ => Reply::Resolved(None),
            });
        }
        for exists in [false, true] {
            assert!(matches!(
                sync_repo(&known, exists, exists, false, &replies),
                GitStep::Finish(_)
            ));
            assert!(matches!(
                sync_repo(&repo(None), exists, exists, true, &replies),
                GitStep::Finish(_)
            ));
        }
    }
    assert_eq!(
        sync_repo(&known, false, false, false, &vec![Reply::Done]),
        GitStep::Finish(Err(Error::Task("the reply does not fit the step".into())))
    );
}

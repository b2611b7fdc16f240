use multi_repo::error::Error;
use multi_repo::git::{GitOutput, PathKind, Reply};
use multi_repo::model::{RepoRecord, RepoStatus};
use multi_repo::prune::{
    candidates, prune, prune_working_tree, remove_empty_managed_directories, spares, Folder,
    PruneAction, PruneOptions, PruneStep,
};
use multi_repo::string_set::StringSet;

fn repo(id: &str, path: &str, active: bool) -> RepoRecord {
    RepoRecord {
        id: id.into(),
        canonical_url: format!("host/{id}"),
        clone_url: format!("host/{id}"),
        local_path: path.into(),
        default_branch: None,
        active,
        status: RepoStatus::Ready,
        sources: StringSet::new(),
        tags: StringSet::new(),
        last_error: None,
    }
}

fn wrote(text: &str) -> Reply {
    Reply::Output(GitOutput {
        success: true,
        code: Some(0),
        status: "exit status: 0".into(),
        stdout: text.as_bytes().to_vec(),
        stderr: Vec::new(),
    })
}

fn nothing_found() -> Reply {
    Reply::Output(GitOutput {
        success: false,
        code: Some(1),
        status: "exit status: 1".into(),
        stdout: Vec::new(),
        stderr: Vec::new(),
    })
}

fn run(args: &[&str]) -> PruneStep {
    PruneStep::Run("/real/a".into(), args.iter().map(|arg| (*arg).to_owned()).collect())
}

/// Follows the steps of pruning a repository, each of which has to be the
/// expected one.
fn follow(dry_run: bool, script: Vec<(PruneStep, Reply)>) -> PruneStep {
    let repo = repo("a", "/r/a", false);
    let mut replies = Vec::new();
    for (step, reply) in script {
        assert_eq!(
            prune_working_tree("/r", false, &repo, PruneOptions { dry_run }, &replies),
            step
        );
        replies.push(reply);
    }
    prune_working_tree("/r", false, &repo, PruneOptions { dry_run }, &replies)
}

fn until_status(changes: &str) -> Vec<(PruneStep, Reply)> {
    vec![
        (PruneStep::Inspect, Reply::Kind(PathKind::Directory)),
        (PruneStep::ResolveRoot, Reply::Directory("/real".into())),
        (PruneStep::ResolveTree, Reply::Directory("/real/a".into())),
        (PruneStep::FindGitDir("/real/a".into()), Reply::Found(true)),
        (run(&["status", "--porcelain=v1", "--untracked-files=normal"]), wrote(changes)),
    ]
}

fn until_branches(stashes: &str, commits: &str) -> Vec<(PruneStep, Reply)> {
    let mut script = until_status("");
    script.push((run(&["stash", "list", "--format=%gd"]), wrote(stashes)));
    if stashes.is_empty() {
        script.push((
            run(&["rev-list", "--count", "--branches", "--not", "--remotes"]),
            wrote(commits),
        ));
    }
    script
}

fn done(action: PruneAction) -> PruneStep {
    PruneStep::Finish(Ok(action))
}

fn without_local_state(worktrees: &str) -> Vec<(PruneStep, Reply)> {
    let mut script = until_branches("", "0\n");
    script.push((run(&["symbolic-ref", "--quiet", "HEAD"]), wrote("refs/heads/main\n")));
    script.push((run(&["worktree", "list", "--porcelain"]), wrote(worktrees)));
    script
}

#[test]
fn clean_working_trees_are_deleted_and_forgotten() {
    let mut script = without_local_state("worktree /real/a\nHEAD 1\nbranch refs/heads/main\n");
    script.push((PruneStep::RemoveTree("/real/a".into()), Reply::Done));
    script.push((PruneStep::Forget, Reply::Done));
    assert_eq!(follow(false, script), done(PruneAction::Deleted));
}

#[test]
fn a_dry_run_deletes_nothing() {
    assert_eq!(
        follow(true, without_local_state("worktree /real/a\n")),
        done(PruneAction::WouldDelete)
    );
    assert_eq!(
        follow(true, vec![(PruneStep::Inspect, Reply::Kind(PathKind::Missing))]),
        done(PruneAction::WouldRemoveMissing)
    );
}

#[test]
fn local_changes_are_kept() {
    assert_eq!(follow(false, until_status("?? x\n")), done(PruneAction::SkippedDirty));
}

#[test]
fn local_state_is_kept() {
    assert_eq!(
        follow(false, until_branches("stash@{0}\n", "")),
        done(PruneAction::SkippedLocalState)
    );
    assert_eq!(
        follow(false, until_branches("", "2\n")),
        done(PruneAction::SkippedLocalState)
    );
    assert_eq!(
        follow(false, without_local_state("worktree /real/a\n\nworktree /elsewhere\n")),
        done(PruneAction::SkippedLocalState)
    );
}

#[test]
fn local_commits_of_a_detached_head_are_kept() {
    let mut script = until_branches("", "0\n");
    script.push((run(&["symbolic-ref", "--quiet", "HEAD"]), nothing_found()));
    script.push((run(&["rev-list", "--count", "HEAD", "--not", "--remotes"]), wrote("1\n")));
    assert_eq!(follow(false, script), done(PruneAction::SkippedLocalState));

    let mut script = until_branches("", "0\n");
    script.push((run(&["symbolic-ref", "--quiet", "HEAD"]), nothing_found()));
    script.push((run(&["rev-list", "--count", "HEAD", "--not", "--remotes"]), wrote("0\n")));
    script.push((run(&["worktree", "list", "--porcelain"]), wrote("worktree /real/a\n")));
    assert_eq!(follow(false, script), PruneStep::RemoveTree("/real/a".into()));
}

#[test]
fn missing_working_trees_are_forgotten() {
    assert_eq!(
        follow(
            false,
            vec![
                (PruneStep::Inspect, Reply::Kind(PathKind::Missing)),
                (PruneStep::Forget, Reply::Done),
            ]
        ),
        done(PruneAction::RemovedMissing)
    );
}

#[test]
fn nothing_outside_the_repository_directory_is_pruned() {
    let outside = |path: &str, symlink: bool| {
        prune_working_tree(
            "/r",
            symlink,
            &repo("a", path, false),
            PruneOptions { dry_run: false },
            &Vec::new(),
        )
    };
    assert_eq!(
        outside("/other/a", false),
        PruneStep::Finish(Err(Error::Config(
            "refusing to prune /other/a outside managed repository directory /r".into()
        )))
    );
    assert!(matches!(outside("/r/a", true), PruneStep::Finish(Err(_))));
    let escaped = PruneStep::Finish(Err(Error::Config(
        "refusing to prune /r/a because it resolves outside the managed repository directory or to its root"
            .into(),
    )));
    for place in ["/real", "/real/", "/elsewhere/a", "/realm/a"] {
        assert_eq!(
            follow(
                false,
                vec![
                    (PruneStep::Inspect, Reply::Kind(PathKind::Directory)),
                    (PruneStep::ResolveRoot, Reply::Directory("/real".into())),
                    (PruneStep::ResolveTree, Reply::Directory(place.into())),
                ]
            ),
            escaped
        );
    }
    assert_eq!(
        follow(false, vec![(PruneStep::Inspect, Reply::Kind(PathKind::Other))]),
        PruneStep::Finish(Err(Error::Config(
            "refusing to prune /r/a because it is not a directory".into()
        )))
    );
}

#[test]
fn failed_steps_stop_pruning() {
    let error = Error::Write { path: "/real/a".into(), source: "busy".into() };
    let mut script = without_local_state("worktree /real/a\n");
    script.push((PruneStep::RemoveTree("/real/a".into()), Reply::Failed(error.clone())));
    assert_eq!(follow(false, script), PruneStep::Finish(Err(error)));

    let mut script = until_status("");
    script[3].1 = Reply::Found(false);
    script.truncate(4);
    assert_eq!(
        follow(false, script),
        PruneStep::Finish(Err(Error::Git("/real/a is not a Git working tree".into())))
    );
}

#[test]
fn only_inactive_repositories_are_pruned() {
    let list = vec![
        repo("a", "/r/a", true),
        repo("b", "/r/b", false),
        repo("c", "/r/c", false),
    ];
    let chosen = candidates(list);
    assert_eq!(chosen.len(), 2);
    let report = prune(
        &chosen,
        vec![Ok(PruneAction::Deleted), Err(Error::Task("gone".into()))],
    );
    assert_eq!(report.repos[0].id, "b");
    assert_eq!(report.repos[0].action, Some(PruneAction::Deleted));
    assert_eq!(report.repos[1].path, "/r/c");
    assert_eq!(report.repos[1].error.as_deref(), Some("task failed: gone"));
    assert!(report.failed());
}

fn folder(path: &str, has_git_dir: bool, folders: Vec<Folder>) -> Folder {
    Folder { path: path.into(), is_symlink: false, has_git_dir, folders }
}

#[test]
fn empty_directories_are_cleaned_up_from_below() {
    let mut link = folder("/r/s/link", false, vec![]);
    link.is_symlink = true;
    let tree = folder(
        "/r",
        false,
        vec![
            folder(
                "/r/s",
                false,
                vec![
                    folder("/r/s/org", false, vec![folder("/r/s/org/tree", true, vec![])]),
                    folder("/r/s/kept", false, vec![]),
                    link,
                ],
            ),
            folder("/r/t", false, vec![]),
        ],
    );
    assert_eq!(
        remove_empty_managed_directories(&tree, &vec!["/r/s/kept/".into()]),
        vec!["/r/s/org", "/r/s", "/r/t", "/r"]
    );
    assert!(spares("/r/a", false, false, &vec!["/r/a".into()]));
    assert!(spares("/r/a", true, false, &vec![]));
    assert!(spares("/r/a", false, true, &vec![]));
    assert!(!spares("/r/a", false, false, &vec!["/r/a/b".into()]));
}

#[test]
fn pruning_ends() {
    let repo = repo("a", "/r/a", false);
    for text in ["", "0\n", "x\n"] {
        let mut replies = vec![
            Reply::Kind(PathKind::Directory),
            Reply::Directory("/real".into()),
            Reply::Directory("/real/a".into()),
            Reply::Found(true),
        ];
        for _ in 0..8 {
            replies.push(wrote(text));
        }
        for dry_run in [false, true] {
            assert!(matches!(
                prune_working_tree("/r", false, &repo, PruneOptions { dry_run }, &replies),
                PruneStep::Finish(_)
            ));
        }
    }
}

#[test]
fn dry_runs_leave_empty_directories() {
    assert!(PruneOptions { dry_run: false }.cleans_up());
    assert!(!PruneOptions { dry_run: true }.cleans_up());
}

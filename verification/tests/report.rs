use multi_repo::git::SyncAction;
use multi_repo::model::{RepoRecord, RepoStatus};
use multi_repo::prune::{PruneAction, PruneReport, RepoPruneReport};
use multi_repo::report::{
    exit_status, list_line, preview_lines, progress_line, prune_lines, repo_lines,
    repository_change_line, search_status, source_line, sync_lines, use_color, ColorChoice,
    FilterArgs, GrepArgs, Line,
};
use multi_repo::search::{CaseMode, PatternKind, SearchOutputMode, SearchStats};
use multi_repo::string_set::StringSet;
use multi_repo::sync::{
    RepoSyncReport, RepositoryChange, RepositoryChangeKind, SourceReport, SyncPreview,
    SyncProgress, SyncReport,
};

fn out(text: &str) -> Line {
    Line::Output(text.to_owned())
}

fn complaint(text: &str) -> Line {
    Line::Complaint(text.to_owned())
}

#[test]
fn progress_lines_are_small_and_bounded() {
    assert_eq!(
        progress_line(SyncProgress::Discovering {
            completed: 1,
            total: 2,
        }),
        "discover[######------] 1/2"
    );
    assert_eq!(
        progress_line(SyncProgress::Repositories {
            completed: 80,
            total: 60,
        }),
        "sync    [############] 60/60"
    );
}

#[test]
fn progress_stays_in_its_bounds() {
    assert_eq!(
        progress_line(SyncProgress::Repositories { completed: 0, total: 0 }),
        "sync    [------------] 0/0"
    );
    assert_eq!(
        progress_line(SyncProgress::Repositories { completed: 59, total: 60 }),
        "sync    [###########-] 59/60"
    );
    assert_eq!(
        progress_line(SyncProgress::Discovering { completed: 0, total: usize::MAX }),
        format!("discover[------------] 0/{}", usize::MAX)
    );
    assert_eq!(
        progress_line(SyncProgress::Discovering { completed: usize::MAX, total: usize::MAX }),
        format!("discover[#-----------] {}/{}", usize::MAX, usize::MAX)
    );
}

#[test]
fn repository_changes_use_diff_colors_when_enabled() {
    let added = RepositoryChange {
        id: "github/acme/new".into(),
        kind: RepositoryChangeKind::Activate,
    };
    let removed = RepositoryChange {
        id: "github/acme/old".into(),
        kind: RepositoryChangeKind::Deactivate,
    };

    assert_eq!(
        repository_change_line(&added, true),
        "  \x1b[32m+ github/acme/new\x1b[0m"
    );
    assert_eq!(
        repository_change_line(&removed, true),
        "  \x1b[31m- github/acme/old\x1b[0m"
    );
    assert_eq!(repository_change_line(&added, false), "  + github/acme/new");
}

fn source(error: Option<&str>, discovered: usize) -> SourceReport {
    SourceReport {
        source: "github".into(),
        discovered,
        error: error.map(|error| error.to_owned()),
    }
}

#[test]
fn sources_are_counted() {
    assert_eq!(source_line(&source(None, 0)), out("source github: 0 repositories"));
    assert_eq!(source_line(&source(None, 1)), out("source github: 1 repository"));
    assert_eq!(source_line(&source(None, 2)), out("source github: 2 repositories"));
    assert_eq!(source_line(&source(Some("x"), 2)), complaint("source github: x"));
}

fn repo(action: Option<SyncAction>) -> RepoSyncReport {
    RepoSyncReport {
        id: "a".into(),
        action,
        detail: None,
        warning: None,
        error: None,
    }
}

#[test]
fn repositories_are_reported_by_what_was_done() {
    for (action, text) in [
        (Some(SyncAction::Cloned), "a: cloned"),
        (Some(SyncAction::FastForwarded), "a: fast-forwarded"),
        (Some(SyncAction::Fetched), "a: fetched"),
        (Some(SyncAction::Unchanged), "a: up-to-date"),
        (None, "a: unknown"),
    ] {
        assert_eq!(repo_lines(&repo(action)), vec![out(text)]);
    }
    let mut detailed = repo(Some(SyncAction::Fetched));
    detailed.detail = Some("why".into());
    detailed.warning = Some("hm".into());
    assert_eq!(
        repo_lines(&detailed),
        vec![out("a: fetched (why)"), complaint("a: warning: hm")]
    );
    detailed.error = Some("broken".into());
    assert_eq!(repo_lines(&detailed), vec![complaint("a: broken")]);
}

#[test]
fn previews_list_changes_and_count_the_rest() {
    let none = SyncPreview { changes: vec![], unchanged: 3 };
    assert_eq!(preview_lines(&none, true), vec![out("repository changes: none")]);
    let some = SyncPreview {
        changes: vec![RepositoryChange {
            id: "x".into(),
            kind: RepositoryChangeKind::Deactivate,
        }],
        unchanged: 3,
    };
    assert_eq!(
        preview_lines(&some, false),
        vec![out("repository changes:"), out("  - x"), out("    3 unchanged")]
    );
    let report = SyncReport {
        sources: vec![source(None, 1)],
        repos: vec![repo(Some(SyncAction::Cloned))],
        preview: Some(none),
    };
    assert_eq!(
        sync_lines(&report, false),
        vec![
            out("source github: 1 repository"),
            out("a: cloned"),
            out("repository changes: none"),
        ]
    );
}

#[test]
fn pruned_repositories_are_reported_by_what_was_done() {
    let cases = [
        (Some(PruneAction::Deleted), "deleted"),
        (Some(PruneAction::WouldDelete), "would delete"),
        (Some(PruneAction::RemovedMissing), "removed missing inventory entry"),
        (Some(PruneAction::WouldRemoveMissing), "would remove missing inventory entry"),
        (Some(PruneAction::SkippedDirty), "kept (working tree has local changes)"),
        (
            Some(PruneAction::SkippedLocalState),
            "kept (repository has local commits, stashes, or linked worktrees)",
        ),
        (None, "unknown"),
    ];
    for (action, text) in cases {
        let report = PruneReport {
            repos: vec![RepoPruneReport {
                id: "a".into(),
                path: "/r/a".into(),
                action,
                error: None,
            }],
        };
        assert_eq!(prune_lines(&report), vec![out(&format!("a: {text}"))]);
        assert!(!report.failed());
    }
    let failed = PruneReport {
        repos: vec![RepoPruneReport {
            id: "a".into(),
            path: "/r/a".into(),
            action: None,
            error: Some("broken".into()),
        }],
    };
    assert_eq!(prune_lines(&failed), vec![complaint("a: broken")]);
    assert!(failed.failed());
}

#[test]
fn inactive_repositories_are_marked_in_lists() {
    let mut record = RepoRecord {
        id: "a".into(),
        canonical_url: "host/a".into(),
        clone_url: "host/a".into(),
        local_path: "/r/a".into(),
        default_branch: None,
        active: true,
        status: RepoStatus::Ready,
        sources: StringSet::new(),
        tags: StringSet::new(),
        last_error: None,
    };
    assert_eq!(list_line(&record), "a\t/r/a");
    record.active = false;
    assert_eq!(list_line(&record), "a (inactive)\t/r/a");
}

#[test]
fn exit_statuses_tell_what_happened() {
    assert_eq!(exit_status(false), 0);
    assert_eq!(exit_status(true), 2);
    assert_eq!(search_status(&SearchStats { matches: 1, errors: 0 }), 0);
    assert_eq!(search_status(&SearchStats { matches: 0, errors: 0 }), 1);
    assert_eq!(search_status(&SearchStats { matches: 1, errors: 1 }), 2);
    assert!(use_color(ColorChoice::Always, false));
    assert!(use_color(ColorChoice::default(), true));
    assert!(!use_color(ColorChoice::Auto, false));
    assert!(!use_color(ColorChoice::Never, true));
}

fn grep() -> GrepArgs {
    GrepArgs {
        pattern: "x".into(),
        fixed_strings: false,
        ignore_case: false,
        smart_case: false,
        word: false,
        before_context: 1,
        after_context: 2,
        context: None,
        globs: vec!["*.rs".into()],
        files_with_matches: false,
        repos_with_matches: false,
        count: false,
        threads: 4,
        paths: vec![b"src".to_vec()],
    }
}

#[test]
fn command_lines_become_options() {
    let options = grep().into_options();
    assert_eq!(options.pattern, "x");
    assert_eq!(options.pattern_kind, PatternKind::Regex);
    assert_eq!(options.case, CaseMode::Sensitive);
    assert_eq!((options.before_context, options.after_context), (1, 2));
    assert_eq!(options.globs, vec!["*.rs".to_owned()]);
    assert_eq!(options.path_prefixes, vec![b"src".to_vec()]);
    assert_eq!(options.threads, 4);
    assert_eq!(options.output_mode, SearchOutputMode::Matches);

    let mut args = grep();
    args.fixed_strings = true;
    args.ignore_case = true;
    args.smart_case = true;
    args.context = Some(5);
    args.files_with_matches = true;
    args.count = true;
    let options = args.into_options();
    assert_eq!(options.pattern_kind, PatternKind::Fixed);
    assert_eq!(options.case, CaseMode::Insensitive);
    assert_eq!((options.before_context, options.after_context), (5, 5));
    assert_eq!(options.output_mode, SearchOutputMode::FilesWithMatches);

    let filter = FilterArgs {
        repos: vec!["a/*".into()],
        source: vec!["s".into(), "s".into()],
        tag: vec![],
    }
    .as_filter();
    assert_eq!(filter.repo_globs, vec!["a/*".to_owned()]);
    assert_eq!(filter.sources.to_list(), vec!["s".to_owned()]);
    assert!(filter.tags.is_empty());
}

use multi_repo::config::{
    Config, ManifestConfig, RepositoryConfig, SourceConfig, WORKSPACE_SOURCE_NAME,
};
use multi_repo::error::Error;
use multi_repo::git::{GitSyncResult, SyncAction};
use multi_repo::model::{RepoRecord, RepoSpec, RepoStatus};
use multi_repo::reconcile::{preview_reconciliation, reconcile_repositories};
use multi_repo::rows::{RepoRow, Rows};
use multi_repo::state::State;
use multi_repo::string_set::StringSet;
use multi_repo::sync::{
    collect_discoveries, discovery_total, fetch_all_branches, retired_sources, sort_repo_reports,
    synchronize_repo, with_state_error, Discovery, Listing, RepoSyncReport, RepositoryChange,
    RepositoryChangeKind, Schedule, SourceReport, SyncPreview, SyncProgress, SyncReport,
    DEFAULT_JOBS,
};

fn set(items: &[&str]) -> StringSet {
    let mut set = StringSet::new();
    for item in items {
        set.insert((*item).to_owned());
    }
    set
}

fn record(id: &str, url: &str, active: bool, sources: &[&str]) -> RepoRecord {
    RepoRecord {
        id: id.into(),
        canonical_url: url.into(),
        clone_url: url.into(),
        local_path: format!("repos/{id}"),
        default_branch: Some("main".into()),
        active,
        status: RepoStatus::Ready,
        sources: set(sources),
        tags: StringSet::new(),
        last_error: None,
    }
}

fn spec(id: &str, url: &str) -> RepoSpec {
    RepoSpec {
        id: id.into(),
        canonical_url: url.into(),
        clone_url: url.into(),
        default_branch: Some("main".into()),
        tags: StringSet::new(),
    }
}

fn listing(source: &str, specs: Vec<RepoSpec>) -> Listing {
    Listing { source: source.into(), specs }
}

#[test]
fn preview_reports_activation_deactivation_and_shared_repositories() {
    let current = vec![
        record("github/dormant", "host/dormant", false, &[]),
        record("github/old", "host/old", true, &["github"]),
        record("github/shared", "host/shared", true, &["github", "manifest"]),
    ];
    let discoveries = vec![listing(
        "github",
        vec![
            spec("github/new", "host/new"),
            spec("github/renamed-dormant", "host/dormant"),
        ],
    )];

    let preview = preview_reconciliation(&current, &discoveries).unwrap();

    assert_eq!(
        preview,
        SyncPreview {
            changes: vec![
                RepositoryChange {
                    id: "github/dormant".into(),
                    kind: RepositoryChangeKind::Activate,
                },
                RepositoryChange {
                    id: "github/new".into(),
                    kind: RepositoryChangeKind::Activate,
                },
                RepositoryChange {
                    id: "github/old".into(),
                    kind: RepositoryChangeKind::Deactivate,
                },
            ],
            unchanged: 1,
        }
    );
}

fn manifest(name: &str, all: bool, path: &str) -> SourceConfig {
    SourceConfig::Manifest(ManifestConfig {
        name: name.into(),
        fetch_all_branches: all,
        path: path.into(),
        tags: Vec::new(),
    })
}

#[test]
fn fetches_all_branches_when_any_associated_source_enables_it() {
    let config = Config {
        root: "workspace".into(),
        sources: vec![
            manifest("default-only", false, "default.toml"),
            manifest("all-branches", true, "all.toml"),
        ],
        repositories: Vec::new(),
    };

    assert!(!fetch_all_branches(
        &config,
        &record("default", "host/default", true, &["default-only"]),
    ));
    assert!(fetch_all_branches(
        &config,
        &record("shared", "host/shared", true, &["default-only", "all-branches"]),
    ));
    assert!(!fetch_all_branches(
        &config,
        &record("inline", "host/inline", true, &[WORKSPACE_SOURCE_NAME]),
    ));
}

#[test]
fn previews_refuse_what_reconciliation_refuses() {
    let current = vec![record("s/a", "host/a", true, &["s"])];
    let error = preview_reconciliation(&current, &vec![listing("s", vec![spec("s/a", "host/b")])])
        .unwrap_err();
    assert_eq!(
        error,
        Error::Config("repository id \"s/a\" refers to both \"host/a\" and \"host/b\"".into())
    );
    let error = preview_reconciliation(&current, &vec![listing("s", vec![spec("a//b", "host/b")])])
        .unwrap_err();
    assert_eq!(error, Error::Config("unsafe repository name \"a//b\"".into()));
}

#[test]
fn previews_tell_what_reconciliation_does() {
    let mut state = State::new();
    reconcile_repositories(
        &mut state,
        "/r",
        &vec![
            listing("one", vec![spec("one/a", "host/a"), spec("one/b", "host/b")]),
            listing("two", vec![spec("two/b", "host/b")]),
        ],
    )
    .unwrap();
    let next = vec![
        listing("one", vec![spec("one/c", "host/c")]),
        listing("two", vec![spec("two/b", "host/b")]),
    ];
    let current = state.list(true).unwrap();
    let preview = preview_reconciliation(&current, &next).unwrap();
    let wanted = reconcile_repositories(&mut state, "/r", &next).unwrap();
    let ids: Vec<String> = wanted.into_iter().map(|repo| repo.id).collect();
    assert_eq!(ids, vec!["one/b", "one/c"]);
    let changes: Vec<(String, RepositoryChangeKind)> =
        preview.changes.into_iter().map(|change| (change.id, change.kind)).collect();
    assert_eq!(
        changes,
        vec![
            ("one/a".to_owned(), RepositoryChangeKind::Deactivate),
            ("one/c".to_owned(), RepositoryChangeKind::Activate),
        ]
    );
    assert_eq!(preview.unchanged, 1);

    let again = preview_reconciliation(&state.list(true).unwrap(), &next).unwrap();
    assert!(again.changes.is_empty());
    assert_eq!(again.unchanged, 2);
}

#[test]
fn what_came_before_a_problem_stays_reconciled() {
    let mut state = State::new();
    let error = reconcile_repositories(
        &mut state,
        "/r",
        &vec![
            listing("one", vec![spec("one/a", "host/a")]),
            listing("two", vec![spec("one/a", "host/b")]),
        ],
    )
    .unwrap_err();
    assert!(matches!(error, Error::Config(_)));
    let all = state.list(false).unwrap();
    assert_eq!(all.len(), 1);
    assert_eq!(all[0].id, "one/a");
}

#[test]
fn failed_sources_keep_their_repositories_and_retired_ones_do_not() {
    let mut state = State::new();
    reconcile_repositories(
        &mut state,
        "/r",
        &vec![
            listing("kept", vec![spec("kept/a", "host/a")]),
            listing("retired", vec![spec("retired/b", "host/b")]),
            listing(WORKSPACE_SOURCE_NAME, vec![spec("c", "host/c")]),
        ],
    )
    .unwrap();
    let config = Config {
        root: "workspace".into(),
        sources: vec![manifest("kept", false, "kept.toml")],
        repositories: Vec::new(),
    };
    let gone = retired_sources(&config, &state.sources());
    assert_eq!(gone, set(&["retired"]));
    let (reports, found) = collect_discoveries(
        vec![Discovery {
            source: "kept".into(),
            result: Err(Error::Http("offline".into())),
        }],
        false,
        &gone,
    );
    assert_eq!(
        reports,
        vec![SourceReport {
            source: "kept".into(),
            discovered: 0,
            error: Some("HTTP request failed: offline".into()),
        }]
    );
    let names: Vec<&str> = found.iter().map(|listing| listing.source.as_str()).collect();
    assert_eq!(names, vec!["workspace", "retired"]);
    let wanted = reconcile_repositories(&mut state, "/r", &found).unwrap();
    assert!(wanted.is_empty());
    let active: Vec<String> = state.list(false).unwrap().into_iter().map(|r| r.id).collect();
    assert_eq!(active, vec!["kept/a"]);
}

#[test]
fn source_reports_are_sorted_and_listings_keep_their_order() {
    let (reports, found) = collect_discoveries(
        vec![
            Discovery { source: "b".into(), result: Ok(vec![spec("b/x", "host/x")]) },
            Discovery { source: "a".into(), result: Ok(vec![]) },
        ],
        true,
        &StringSet::new(),
    );
    let names: Vec<&str> = reports.iter().map(|report| report.source.as_str()).collect();
    assert_eq!(names, vec!["a", "b"]);
    assert_eq!(reports[1].discovered, 1);
    let names: Vec<&str> = found.iter().map(|listing| listing.source.as_str()).collect();
    assert_eq!(names, vec!["b", "a"]);
}

#[test]
fn declared_repositories_count_as_a_source() {
    let mut config = Config {
        root: "w".into(),
        sources: vec![manifest("a", false, "a.toml")],
        repositories: Vec::new(),
    };
    assert_eq!(discovery_total(&config), 1);
    config.repositories.push(RepositoryConfig {
        id: "x".into(),
        url: "host:x".into(),
        default_branch: None,
        tags: Vec::new(),
    });
    assert_eq!(discovery_total(&config), 2);
}

#[test]
fn schedules_start_no_more_than_allowed() {
    assert_eq!(DEFAULT_JOBS, 8);
    let mut schedule = Schedule::new(3, 2);
    assert_eq!(schedule.next(), Some(0));
    assert_eq!(schedule.start(), Some(0));
    assert_eq!(schedule.start(), Some(1));
    assert_eq!(schedule.next(), None);
    assert_eq!(schedule.start(), None);
    schedule.finish();
    assert_eq!(
        schedule.progress(),
        SyncProgress::Repositories { completed: 1, total: 3 }
    );
    assert_eq!(schedule.start(), Some(2));
    assert_eq!(schedule.start(), None);
    schedule.finish();
    assert!(!schedule.is_complete());
    schedule.finish();
    assert!(schedule.is_complete());
    assert_eq!(
        schedule.progress(),
        SyncProgress::Repositories { completed: 3, total: 3 }
    );
    assert_eq!(schedule.start(), None);

    let mut one = Schedule::new(2, 0);
    assert_eq!(one.start(), Some(0));
    assert_eq!(one.start(), None);
}

fn ready_state() -> (State, RepoRecord) {
    let mut state = State::new();
    let mut unknown = spec("s/a", "host/a");
    unknown.default_branch = None;
    let list = reconcile_repositories(&mut state, "/r", &vec![listing("s", vec![unknown])]).unwrap();
    let repo = list.into_iter().next().unwrap();
    (state, repo)
}

#[test]
fn outcomes_of_synchronizations_are_recorded_and_reported() {
    let (mut state, repo) = ready_state();
    let report = synchronize_repo(
        &mut state,
        &repo,
        Ok(GitSyncResult {
            action: SyncAction::Cloned,
            detail: None,
            detected_default_branch: Some("main".into()),
        }),
        Some(Ok(set(&["language:rust"]))),
    );
    assert_eq!(
        report,
        RepoSyncReport {
            id: "s/a".into(),
            action: Some(SyncAction::Cloned),
            detail: None,
            warning: None,
            error: None,
        }
    );
    let stored = state.list(true).unwrap().into_iter().next().unwrap();
    assert_eq!(stored.status, RepoStatus::Ready);
    assert_eq!(stored.default_branch.as_deref(), Some("main"));
    assert_eq!(stored.tags, set(&["language:rust"]));

    let report = synchronize_repo(
        &mut state,
        &stored,
        Ok(GitSyncResult {
            action: SyncAction::Fetched,
            detail: Some("detached HEAD; fetched without updating the worktree".into()),
            detected_default_branch: Some("main".into()),
        }),
        Some(Err(Error::Git("no such revision".into()))),
    );
    assert_eq!(
        report.warning.as_deref(),
        Some("language detection failed: git operation failed: no such revision")
    );
    let stored = state.list(true).unwrap().into_iter().next().unwrap();
    assert_eq!(stored.tags, set(&["language:rust"]));

    let report = synchronize_repo(&mut state, &stored, Err(Error::Git("offline".into())), None);
    assert_eq!(report.error.as_deref(), Some("git operation failed: offline"));
    let stored = state.list(true).unwrap().into_iter().next().unwrap();
    assert_eq!(stored.status, RepoStatus::Ready);
    assert_eq!(stored.last_error.as_deref(), Some("git operation failed: offline"));
}

#[test]
fn failures_to_record_outcomes_are_reported() {
    let (mut state, repo) = ready_state();
    let failed = synchronize_repo(&mut state, &repo, Err(Error::Git("offline".into())), None);
    let stored = state.list(true).unwrap().into_iter().next().unwrap();
    assert_eq!(stored.status, RepoStatus::Error);
    let error = Error::Sql("disk full".into());
    assert_eq!(
        with_state_error(failed, &error).error.as_deref(),
        Some("git operation failed: offline; failed to record error: state database error: disk full")
    );
    let done = RepoSyncReport {
        id: "s/a".into(),
        action: Some(SyncAction::Unchanged),
        detail: None,
        warning: None,
        error: None,
    };
    let after = with_state_error(done, &error);
    assert_eq!(after.action, Some(SyncAction::Unchanged));
    assert_eq!(after.error.as_deref(), Some("state database error: disk full"));
}

#[test]
fn reports_fail_if_something_in_them_failed() {
    let mut report = SyncReport::default();
    assert!(!report.failed());
    report.sources.push(SourceReport { source: "a".into(), discovered: 1, error: None });
    assert!(!report.failed());
    report.repos.push(RepoSyncReport {
        id: "b".into(),
        action: None,
        detail: None,
        warning: None,
        error: Some("broken".into()),
    });
    assert!(report.failed());
    report.repos.clear();
    report.sources[0].error = Some("broken".into());
    assert!(report.failed());
}

#[test]
fn repository_reports_are_sorted_by_identifier() {
    let report = |id: &str, detail: &str| RepoSyncReport {
        id: id.into(),
        action: None,
        detail: Some(detail.into()),
        warning: None,
        error: None,
    };
    let sorted = sort_repo_reports(vec![
        report("b", "1"),
        report("a", "2"),
        report("c", "3"),
        report("a", "4"),
        report("b", "5"),
    ]);
    let found: Vec<(String, Option<String>)> =
        sorted.into_iter().map(|report| (report.id, report.detail)).collect();
    let expected: Vec<(String, Option<String>)> =
        [("a", "2"), ("a", "4"), ("b", "1"), ("b", "5"), ("c", "3")]
            .iter()
            .map(|(id, detail)| ((*id).to_owned(), Some((*detail).to_owned())))
            .collect();
    assert_eq!(found, expected);
}

fn stored(id: &str, status: &str, active: bool) -> RepoRow {
    RepoRow {
        id: id.into(),
        canonical_url: format!("host/{id}"),
        clone_url: format!("host:{id}"),
        local_path: format!("/r/{id}"),
        default_branch: None,
        active,
        status: status.into(),
        last_error: None,
    }
}

#[test]
fn reconciling_stops_where_the_inventory_cannot_be_read() {
    let odd = || {
        State::from_rows(Rows {
            repos: vec![stored("odd", "odd", false)],
            sources: vec![],
            tags: vec![],
        })
        .unwrap()
    };
    let mut state = odd();
    let error = reconcile_repositories(
        &mut state,
        "/r",
        &vec![
            listing("none", vec![]),
            listing("one", vec![spec("one/a", "host/a")]),
            listing("two", vec![spec("two/b", "host/b")]),
        ],
    )
    .unwrap_err();
    assert!(error.message().contains("unknown repository status \"odd\""));
    let active: Vec<String> =
        state.list(false).unwrap().into_iter().map(|repo| repo.id).collect();
    assert_eq!(active, vec!["one/a"]);

    // Where no source lists anything, only what is active is read.
    let mut state = odd();
    let wanted = reconcile_repositories(&mut state, "/r", &vec![listing("none", vec![])]).unwrap();
    assert!(wanted.is_empty());
}

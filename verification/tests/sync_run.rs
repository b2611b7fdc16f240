use multi_repo::config::{
    Config, ManifestConfig, RepositoryConfig, SourceConfig, WORKSPACE_SOURCE_NAME,
};
use multi_repo::error::Error;
use multi_repo::model::RepoSpec;
use multi_repo::state::State;
use multi_repo::string_set::StringSet;
use multi_repo::sync::{
    Discovery, RepoSyncReport, RepositoryChangeKind, SyncOptions, SyncProgress,
};
use multi_repo::sync_run::{
    advance, begin, conclude, discovery_progress, progress, progress_news, step, Stage, SyncEvent,
    SyncStep,
};

fn config() -> Config {
    Config {
        root: "/w".into(),
        sources: vec![SourceConfig::Manifest(ManifestConfig {
            name: "catalog".into(),
            fetch_all_branches: false,
            path: "/w/catalog.toml".into(),
            tags: Vec::new(),
        })],
        repositories: Vec::new(),
    }
}

fn spec(id: &str) -> RepoSpec {
    RepoSpec {
        id: format!("catalog/{id}"),
        canonical_url: format!("host/{id}"),
        clone_url: format!("host:{id}"),
        default_branch: None,
        tags: StringSet::new(),
    }
}

fn answers(ids: &[&str]) -> SyncEvent {
    SyncEvent::Answered(Discovery {
        source: "catalog".into(),
        result: Ok(ids.iter().map(|id| spec(id)).collect()),
    })
}

fn done(id: &str) -> SyncEvent {
    SyncEvent::Done(RepoSyncReport {
        id: id.into(),
        action: None,
        detail: None,
        warning: None,
        error: None,
    })
}

#[test]
fn a_dry_run_only_asks_and_reads() {
    let options = SyncOptions { jobs: 1, dry_run: true };
    let stage = begin(options);
    assert_eq!(step(&config(), options, &stage), SyncStep::Discover);
    let stage = advance(&config(), options, stage, answers(&["a"]));
    assert_eq!(step(&config(), options, &stage), SyncStep::ReadExisting);
    let mut state = State::new();
    state.reconcile_source("catalog", &vec![spec("b")], "/w/repos").unwrap();
    state.reconcile_source("retired", &vec![spec("c")], "/w/repos").unwrap();
    let stage = advance(&config(), options, stage, SyncEvent::Existing(Some((1, state))));
    assert_eq!(step(&config(), options, &stage), SyncStep::Finish);
    assert_eq!(progress(&config(), &stage), None);
    let report = conclude(&config(), options, stage).unwrap();
    assert_eq!(report.sources.len(), 1);
    assert!(report.repos.is_empty());
    let preview = report.preview.unwrap();
    let changes: Vec<(String, RepositoryChangeKind)> =
        preview.changes.into_iter().map(|change| (change.id, change.kind)).collect();
    assert_eq!(
        changes,
        vec![
            ("catalog/a".to_owned(), RepositoryChangeKind::Activate),
            ("catalog/b".to_owned(), RepositoryChangeKind::Deactivate),
            ("catalog/c".to_owned(), RepositoryChangeKind::Deactivate),
        ]
    );
    assert_eq!(preview.unchanged, 0);
}

#[test]
fn a_dry_run_works_without_an_inventory() {
    let options = SyncOptions { jobs: 1, dry_run: true };
    let stage = advance(&config(), options, begin(options), answers(&["a"]));
    let stage = advance(&config(), options, stage, SyncEvent::Existing(None));
    let preview = conclude(&config(), options, stage).unwrap().preview.unwrap();
    assert_eq!(preview.changes.len(), 1);

    let stage = advance(&config(), options, begin(options), answers(&["a"]));
    let stage = advance(&config(), options, stage, SyncEvent::Existing(Some((9, State::new()))));
    assert_eq!(
        conclude(&config(), options, stage).unwrap_err(),
        Error::Config("unsupported state schema 9; expected 1".into())
    );
}

#[test]
fn a_synchronization_locks_stores_and_works() {
    let config = config();
    let options = SyncOptions { jobs: 2, dry_run: false };
    let stage = begin(options);
    assert_eq!(step(&config, options, &stage), SyncStep::Lock);
    let stage = advance(&config, options, stage, SyncEvent::Locked);
    assert_eq!(step(&config, options, &stage), SyncStep::Discover);
    let stage = advance(&config, options, stage, answers(&["c", "a", "b"]));
    assert_eq!(step(&config, options, &stage), SyncStep::Open);
    let stage = advance(&config, options, stage, SyncEvent::Opened(State::new()));
    assert_eq!(step(&config, options, &stage), SyncStep::Store);
    match &stage {
        Stage::Unstored(_, state, Ok(desired)) => {
            assert_eq!(state.list(true).unwrap().len(), 3);
            assert_eq!(desired[0].local_path, "/w/repos/catalog/a");
        }
        _ => panic!("another stage"),
    }
    let stage = advance(&config, options, stage, SyncEvent::Stored);
    assert_eq!(
        progress(&config, &stage),
        Some(SyncProgress::Repositories { completed: 0, total: 3 })
    );
    assert_eq!(step(&config, options, &stage), SyncStep::Start(0));
    let stage = advance(&config, options, stage, SyncEvent::Started);
    assert_eq!(step(&config, options, &stage), SyncStep::Start(1));
    let stage = advance(&config, options, stage, SyncEvent::Started);
    assert_eq!(step(&config, options, &stage), SyncStep::Await);
    let stage = advance(&config, options, stage, done("catalog/b"));
    assert_eq!(step(&config, options, &stage), SyncStep::Start(2));
    let stage = advance(&config, options, stage, SyncEvent::Started);
    let stage = advance(&config, options, stage, done("catalog/c"));
    assert_eq!(step(&config, options, &stage), SyncStep::Await);
    let stage = advance(&config, options, stage, done("catalog/a"));
    assert_eq!(step(&config, options, &stage), SyncStep::Finish);
    assert_eq!(
        progress(&config, &stage),
        Some(SyncProgress::Repositories { completed: 3, total: 3 })
    );
    let report = conclude(&config, options, stage).unwrap();
    let ids: Vec<String> = report.repos.into_iter().map(|repo| repo.id).collect();
    assert_eq!(ids, vec!["catalog/a", "catalog/b", "catalog/c"]);
    assert!(report.preview.is_none());
}

#[test]
fn what_was_reconciled_is_stored_before_a_problem_is_reported() {
    let config = config();
    let options = SyncOptions { jobs: 0, dry_run: false };
    let stage = advance(&config, options, begin(options), SyncEvent::Locked);
    let mut twice = spec("a");
    twice.canonical_url = "host/other".into();
    let stage = advance(
        &config,
        options,
        stage,
        SyncEvent::Answered(Discovery {
            source: "catalog".into(),
            result: Ok(vec![spec("a"), twice]),
        }),
    );
    let stage = advance(&config, options, stage, SyncEvent::Opened(State::new()));
    assert_eq!(step(&config, options, &stage), SyncStep::Store);
    let stage = advance(&config, options, stage, SyncEvent::Stored);
    assert_eq!(step(&config, options, &stage), SyncStep::Finish);
    assert_eq!(
        conclude(&config, options, stage).unwrap_err(),
        Error::Config(
            "repository id \"catalog/a\" refers to both \"host/a\" and \"host/other\"".into()
        )
    );
}

#[test]
fn nothing_to_synchronize_ends_at_once() {
    let config = config();
    let options = SyncOptions { jobs: 4, dry_run: false };
    let stage = advance(&config, options, begin(options), SyncEvent::Locked);
    let stage = advance(&config, options, stage, answers(&[]));
    let stage = advance(&config, options, stage, SyncEvent::Opened(State::new()));
    let stage = advance(&config, options, stage, SyncEvent::Stored);
    assert_eq!(step(&config, options, &stage), SyncStep::Finish);
    assert_eq!(
        progress(&config, &stage),
        Some(SyncProgress::Repositories { completed: 0, total: 0 })
    );
    assert!(conclude(&config, options, stage).unwrap().repos.is_empty());
}

fn repository(id: &str) -> RepositoryConfig {
    RepositoryConfig {
        id: id.into(),
        url: format!("host:{id}"),
        default_branch: None,
        tags: Vec::new(),
    }
}

fn tell(
    config: &Config,
    told: &mut Option<SyncProgress>,
    stage: &Stage,
    heard: &mut Vec<SyncProgress>,
) {
    let reached = progress(config, stage);
    if let Some(event) = progress_news(*told, reached) {
        heard.push(event);
    }
    *told = reached;
}

#[test]
fn progress_is_told_one_by_one() {
    let mut config = config();
    config.repositories.push(repository("declared"));
    let options = SyncOptions { jobs: 2, dry_run: false };
    let events = vec![
        SyncEvent::Locked,
        SyncEvent::Answered(Discovery {
            source: WORKSPACE_SOURCE_NAME.into(),
            result: Err(Error::Config("broken".into())),
        }),
        answers(&["a", "b"]),
        SyncEvent::Opened(State::new()),
        SyncEvent::Stored,
        SyncEvent::Started,
        SyncEvent::Started,
        done("catalog/b"),
        done("catalog/a"),
    ];
    let mut stage = begin(options);
    let mut told = None;
    let mut heard = Vec::new();
    tell(&config, &mut told, &stage, &mut heard);
    for event in events {
        stage = advance(&config, options, stage, event);
        tell(&config, &mut told, &stage, &mut heard);
    }
    assert_eq!(step(&config, options, &stage), SyncStep::Finish);
    assert_eq!(
        heard,
        vec![
            SyncProgress::Discovering { completed: 0, total: 2 },
            SyncProgress::Discovering { completed: 1, total: 2 },
            SyncProgress::Discovering { completed: 2, total: 2 },
            SyncProgress::Repositories { completed: 0, total: 2 },
            SyncProgress::Repositories { completed: 1, total: 2 },
            SyncProgress::Repositories { completed: 2, total: 2 },
        ]
    );
    let report = conclude(&config, options, stage).unwrap();
    assert_eq!(report.sources.len(), 2);
    let ids: Vec<String> = report.repos.into_iter().map(|repo| repo.id).collect();
    assert_eq!(ids, vec!["catalog/a", "catalog/b"]);
}

#[test]
fn the_discovery_ends_with_the_last_answer() {
    let mut config = config();
    assert_eq!(
        discovery_progress(&config, 1),
        SyncProgress::Discovering { completed: 1, total: 1 }
    );
    config.repositories.push(repository("declared"));
    assert_eq!(
        discovery_progress(&config, 1),
        SyncProgress::Discovering { completed: 1, total: 2 }
    );
    let options = SyncOptions { jobs: 1, dry_run: true };
    let stage = begin(options);
    assert_eq!(
        progress(&config, &stage),
        Some(SyncProgress::Discovering { completed: 0, total: 2 })
    );
    let stage = advance(&config, options, stage, answers(&["a"]));
    assert_eq!(step(&config, options, &stage), SyncStep::Discover);
    let stage = advance(
        &config,
        options,
        stage,
        SyncEvent::Answered(Discovery {
            source: WORKSPACE_SOURCE_NAME.into(),
            result: Ok(Vec::new()),
        }),
    );
    assert_eq!(step(&config, options, &stage), SyncStep::ReadExisting);

    config.sources.clear();
    config.repositories.clear();
    let stage = begin(options);
    assert_eq!(step(&config, options, &stage), SyncStep::ReadExisting);
    assert_eq!(
        progress(&config, &stage),
        Some(SyncProgress::Discovering { completed: 0, total: 0 })
    );
}

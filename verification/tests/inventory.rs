use multi_repo::error::Error;
use multi_repo::model::{RepoRecord, RepoSpec, RepoStatus};
use multi_repo::rows::{RepoRow, Rows, SourceRow, TagRow};
use multi_repo::state::State;
use multi_repo::string_set::StringSet;

fn set(items: &[&str]) -> StringSet {
    let mut set = StringSet::new();
    for item in items {
        set.insert((*item).to_owned());
    }
    set
}

fn spec(source: &str, id: &str, remote: &str) -> RepoSpec {
    RepoSpec {
        id: format!("{source}/{id}"),
        canonical_url: remote.into(),
        clone_url: remote.into(),
        default_branch: Some("main".into()),
        tags: set(&["rust"]),
    }
}

fn find_record(state: &State, id: &str) -> RepoRecord {
    state
        .list(true)
        .unwrap()
        .into_iter()
        .find(|repo| repo.id == id)
        .unwrap()
}

#[test]
fn reconciliation_is_non_destructive_and_merges_sources() {
    let mut state = State::new();
    let repos = "/workspace/repos";
    state
        .reconcile_source("one", &vec![spec("one", "org/repo", "host/org/repo")], repos)
        .unwrap();
    state.mark_ready("one/org/repo");
    state
        .reconcile_source("two", &vec![spec("two", "org/repo", "host/org/repo")], repos)
        .unwrap();
    let repo = find_record(&state, "one/org/repo");
    assert_eq!(repo.sources, set(&["one", "two"]));

    state.reconcile_source("one", &vec![], repos).unwrap();
    assert!(find_record(&state, "one/org/repo").active);
    state.reconcile_source("two", &vec![], repos).unwrap();
    assert!(!find_record(&state, "one/org/repo").active);
}

#[test]
fn existing_inventory_can_be_read_without_creating_one() {
    assert!(State::list_existing(None).unwrap().is_empty());

    let mut state = State::new();
    state
        .reconcile_source(
            "one",
            &vec![spec("one", "org/repo", "host/org/repo")],
            "/workspace/repos",
        )
        .unwrap();

    let records = State::list_existing(Some((1, &state))).unwrap();
    assert_eq!(records.len(), 1);
    assert_eq!(records[0].id, "one/org/repo");
}

#[test]
fn other_versions_of_the_tables_are_refused() {
    let state = State::new();
    let error = State::list_existing(Some((0, &state))).unwrap_err();
    assert_eq!(
        error,
        Error::Config("unsupported state schema 0; expected 1".into())
    );
    assert!(State::initialize(0).unwrap());
    assert!(!State::initialize(1).unwrap());
    assert_eq!(
        State::initialize(-7).unwrap_err().message(),
        "configuration error: unsupported state schema -7; expected 1"
    );
}

#[test]
fn new_repositories_are_pending_below_the_repository_directory() {
    let mut state = State::new();
    let ids = state
        .reconcile_source(
            "one",
            &vec![spec("one", "org/repo", "host/org/repo")],
            "/workspace/repos",
        )
        .unwrap();
    assert_eq!(ids, set(&["one/org/repo"]));
    let repo = find_record(&state, "one/org/repo");
    assert_eq!(repo.local_path, "/workspace/repos/one/org/repo");
    assert_eq!(repo.status, RepoStatus::Pending);
    assert_eq!(repo.default_branch.as_deref(), Some("main"));
    assert_eq!(repo.tags, set(&["rust"]));
    assert!(repo.active);
    assert_eq!(repo.last_error, None);
}

#[test]
fn repositories_are_listed_in_the_order_of_their_identifiers() {
    let mut state = State::new();
    state
        .reconcile_source(
            "s",
            &vec![
                spec("s", "b", "host/b"),
                spec("s", "a", "host/a"),
                spec("s", "c", "host/c"),
            ],
            "/r",
        )
        .unwrap();
    state
        .reconcile_source("s", &vec![spec("s", "a", "host/a"), spec("s", "c", "host/c")], "/r")
        .unwrap();
    let all: Vec<String> = state.list(true).unwrap().into_iter().map(|r| r.id).collect();
    assert_eq!(all, vec!["s/a", "s/b", "s/c"]);
    let active: Vec<String> = state.list(false).unwrap().into_iter().map(|r| r.id).collect();
    assert_eq!(active, vec!["s/a", "s/c"]);
}

#[test]
fn a_refused_listing_changes_nothing() {
    let mut state = State::new();
    state
        .reconcile_source("s", &vec![spec("s", "a", "host/a")], "/r")
        .unwrap();
    let before = state.list(true).unwrap();
    let error = state
        .reconcile_source("s", &vec![spec("s", "b", "host/b"), spec("s", "a", "host/other")], "/r")
        .unwrap_err();
    assert_eq!(
        error.message(),
        "configuration error: repository id \"s/a\" refers to both \"host/a\" and \"host/other\""
    );
    assert_eq!(state.list(true).unwrap(), before);

    let mut unsafe_spec = spec("s", "x", "host/x");
    unsafe_spec.id = "../x".into();
    let error = state
        .reconcile_source("s", &vec![unsafe_spec], "/r")
        .unwrap_err();
    assert_eq!(error, Error::Config("unsafe repository name \"../x\"".into()));
    assert_eq!(state.list(true).unwrap(), before);
}

#[test]
fn two_working_trees_cannot_take_the_same_place() {
    let mut state = State::new();
    let mut first = spec("s", "a", "host/a");
    first.id = "a/b".into();
    state.reconcile_source("s", &vec![first], "/r").unwrap();
    let mut second = spec("s", "b", "host/b");
    second.id = "b".into();
    let error = state
        .reconcile_source("s", &vec![second], "/r/a")
        .unwrap_err();
    assert_eq!(
        error,
        Error::Sql("UNIQUE constraint failed: repos.local_path".into())
    );
}

#[test]
fn known_remotes_keep_their_identifier_and_take_new_settings() {
    let mut state = State::new();
    state
        .reconcile_source("s", &vec![spec("s", "old", "host/a")], "/r")
        .unwrap();
    let mut renamed = spec("s", "new", "host/a");
    renamed.clone_url = "ssh://host/a".into();
    renamed.default_branch = None;
    renamed.tags = set(&["go"]);
    let ids = state.reconcile_source("s", &vec![renamed], "/elsewhere").unwrap();
    assert_eq!(ids, set(&["s/old"]));
    let repo = find_record(&state, "s/old");
    assert_eq!(repo.clone_url, "ssh://host/a");
    assert_eq!(repo.default_branch.as_deref(), Some("main"));
    assert_eq!(repo.local_path, "/r/s/old");
    assert_eq!(repo.tags, set(&["go"]));
}

#[test]
fn outcomes_are_recorded() {
    let mut state = State::new();
    let mut unknown = spec("s", "a", "host/a");
    unknown.default_branch = None;
    state.reconcile_source("s", &vec![unknown], "/r").unwrap();
    state.mark_error("s/a", "broken", false);
    let repo = find_record(&state, "s/a");
    assert_eq!(repo.status, RepoStatus::Error);
    assert_eq!(repo.last_error.as_deref(), Some("broken"));

    state.mark_ready("s/a");
    let repo = find_record(&state, "s/a");
    assert_eq!(repo.status, RepoStatus::Ready);
    assert_eq!(repo.last_error, None);

    state.mark_error("s/a", "offline", true);
    let repo = find_record(&state, "s/a");
    assert_eq!(repo.status, RepoStatus::Ready);
    assert_eq!(repo.last_error.as_deref(), Some("offline"));

    state.record_default_branch("s/a", "main");
    state.record_default_branch("s/a", "other");
    assert_eq!(find_record(&state, "s/a").default_branch.as_deref(), Some("main"));

    state.replace_detected_tags("s/a", &set(&["language:go"]));
    assert_eq!(find_record(&state, "s/a").tags, set(&["language:go", "rust"]));
    state.replace_detected_tags("s/a", &set(&[]));
    assert_eq!(find_record(&state, "s/a").tags, set(&["rust"]));

    let before = state.list(true).unwrap();
    state.mark_ready("s/unknown");
    assert_eq!(state.list(true).unwrap(), before);
}

#[test]
fn only_inactive_repositories_are_forgotten() {
    let mut state = State::new();
    state
        .reconcile_source("s", &vec![spec("s", "a", "host/a")], "/r")
        .unwrap();
    assert_eq!(
        state.remove_inactive("s/a").unwrap_err(),
        Error::Task("repository \"s/a\" is no longer inactive".into())
    );
    state.reconcile_source("s", &vec![], "/r").unwrap();
    state.remove_inactive("s/a").unwrap();
    assert!(state.list(true).unwrap().is_empty());
    assert!(state.remove_inactive("s/a").is_err());
}

#[test]
fn only_ready_repositories_with_working_trees_are_searched() {
    let mut state = State::new();
    state
        .reconcile_source(
            "s",
            &vec![
                spec("s", "a", "host/a"),
                spec("s", "b", "host/b"),
                spec("s", "c", "host/c"),
            ],
            "/r",
        )
        .unwrap();
    state.mark_ready("s/a");
    state.mark_ready("s/b");
    let found = state.searchable(&set(&["/r/s/a", "/r/s/c"])).unwrap();
    assert_eq!(found.len(), 1);
    assert_eq!(found[0].id, "s/a");
}

#[test]
fn sources_that_list_something_are_known() {
    let mut state = State::new();
    state
        .reconcile_source("one", &vec![spec("one", "a", "host/a")], "/r")
        .unwrap();
    state
        .reconcile_source("two", &vec![spec("two", "b", "host/b")], "/r")
        .unwrap();
    state.reconcile_source("one", &vec![], "/r").unwrap();
    assert_eq!(state.sources(), set(&["two"]));
}

#[test]
fn what_is_stored_is_loaded_again() {
    let mut state = State::new();
    state
        .reconcile_source(
            "one",
            &vec![spec("one", "a", "host/a"), spec("one", "b", "host/b")],
            "/r",
        )
        .unwrap();
    state
        .reconcile_source("two", &vec![spec("two", "a", "host/a")], "/r")
        .unwrap();
    state.reconcile_source("one", &vec![spec("one", "b", "host/b")], "/r").unwrap();
    state.mark_error("one/b", "broken", false);
    state.replace_detected_tags("one/a", &set(&["language:go", "language:rust"]));
    let rows = state.to_rows();
    assert_eq!(rows.repos.len(), 2);
    assert_eq!(rows.sources.len(), 3);
    assert_eq!(rows.tags.len(), 2);
    assert_eq!(rows.sources[0].tags_json, "[\"rust\"]");
    let loaded = State::from_rows(rows).unwrap();
    assert_eq!(loaded.list(true).unwrap(), state.list(true).unwrap());
    assert_eq!(loaded.sources(), state.sources());
}

fn row(id: &str, url: &str, path: &str) -> RepoRow {
    RepoRow {
        id: id.into(),
        canonical_url: url.into(),
        clone_url: url.into(),
        local_path: path.into(),
        default_branch: None,
        active: true,
        status: "ready".into(),
        last_error: None,
    }
}

fn link(id: &str, source: &str, tags: &str) -> SourceRow {
    SourceRow {
        repo_id: id.into(),
        source: source.into(),
        tags_json: tags.into(),
        active: true,
    }
}

#[test]
fn rows_that_break_the_constraints_are_refused() {
    let broken = [
        Rows {
            repos: vec![row("a", "u", "/a"), row("a", "v", "/b")],
            sources: vec![],
            tags: vec![],
        },
        Rows {
            repos: vec![row("a", "u", "/a"), row("b", "u", "/b")],
            sources: vec![],
            tags: vec![],
        },
        Rows {
            repos: vec![row("a", "u", "/a"), row("b", "v", "/a")],
            sources: vec![],
            tags: vec![],
        },
        Rows {
            repos: vec![row("a", "u", "/a")],
            sources: vec![link("a", "s", "[]"), link("a", "s", "[]")],
            tags: vec![],
        },
    ];
    for rows in broken {
        assert_eq!(
            State::from_rows(rows).unwrap_err(),
            Error::Sql("the stored inventory is inconsistent".into())
        );
    }
}

#[test]
fn rows_of_repositories_that_are_not_there_are_left_out() {
    let state = State::from_rows(Rows {
        repos: vec![],
        sources: vec![link("b", "s", "[]")],
        tags: vec![],
    })
    .unwrap();
    assert!(state.list(true).unwrap().is_empty());
    assert_eq!(state.sources(), set(&[]));

    let state = State::from_rows(Rows {
        repos: vec![row("a", "u", "/a")],
        sources: vec![
            link("b", "s", "[1]"),
            link("a", "s", "[\"x\"]"),
            link("b", "s", "[]"),
            link("c", "t", "[]"),
        ],
        tags: vec![
            TagRow { repo_id: "b".into(), tag: "y".into() },
            TagRow { repo_id: "a".into(), tag: "z".into() },
        ],
    })
    .unwrap();
    let records = state.list(true).unwrap();
    assert_eq!(records.len(), 1);
    assert_eq!(records[0].id, "a");
    assert_eq!(records[0].sources, set(&["s"]));
    assert_eq!(records[0].tags, set(&["x", "z"]));
    let rows = state.to_rows();
    assert_eq!(rows.repos.len(), 1);
    assert_eq!(rows.sources.len(), 1);
    assert_eq!(rows.tags.len(), 1);
}

#[test]
fn an_inventory_has_to_be_readable_once_a_source_lists_something() {
    let mut odd = row("odd", "u", "/odd");
    odd.status = "odd".into();
    odd.active = false;
    let rows = || Rows { repos: vec![], sources: vec![], tags: vec![] };
    let mut stored = rows();
    stored.repos.push(odd);
    let mut state = State::from_rows(stored).unwrap();

    assert_eq!(state.reconcile_source("s", &vec![], "/r").unwrap(), set(&[]));
    let message = "state database error: Conversion error from type Text at index: 6, configuration error: unknown repository status \"odd\"";
    let error = state
        .reconcile_source("s", &vec![spec("s", "a", "host/a")], "/r")
        .unwrap_err();
    assert_eq!(error.message(), message);
    // What was taken in stays, and the active repositories can be read.
    let active = state.list(false).unwrap();
    assert_eq!(active.len(), 1);
    assert_eq!(active[0].id, "s/a");

    let mut stored = rows();
    stored.repos.push(row("a", "u", "/a"));
    stored.sources.push(link("a", "t", "[1]"));
    let mut state = State::from_rows(stored).unwrap();
    assert!(matches!(
        state.reconcile_source("s", &vec![spec("s", "b", "host/b")], "/r").unwrap_err(),
        Error::Json(_)
    ));
    // A source that lists nothing any more takes what cannot be read with it.
    state.reconcile_source("t", &vec![], "/r").unwrap();
    assert_eq!(
        state.reconcile_source("s", &vec![spec("s", "b", "host/b")], "/r").unwrap(),
        set(&["s/b"])
    );
}

#[test]
fn stored_data_that_cannot_be_read_is_reported() {
    let mut bad_status = row("a", "u", "/a");
    bad_status.status = "odd".into();
    let state = State::from_rows(Rows {
        repos: vec![bad_status],
        sources: vec![link("a", "s", "[1]")],
        tags: vec![],
    })
    .unwrap();
    assert_eq!(
        state.list(true).unwrap_err().message(),
        "state database error: Conversion error from type Text at index: 6, configuration error: unknown repository status \"odd\""
    );

    let state = State::from_rows(Rows {
        repos: vec![row("a", "u", "/a")],
        sources: vec![link("a", "s", "[1]")],
        tags: vec![],
    })
    .unwrap();
    assert!(matches!(state.list(true).unwrap_err(), Error::Json(_)));

    let mut inactive = link("a", "s", "[1]");
    inactive.active = false;
    let state = State::from_rows(Rows {
        repos: vec![row("a", "u", "/a")],
        sources: vec![inactive, link("a", "t", "[\"x\",\"y\",\"x\"]")],
        tags: vec![],
    })
    .unwrap();
    let records = state.list(true).unwrap();
    assert_eq!(records[0].tags, set(&["x", "y"]));
    assert_eq!(records[0].sources, set(&["t"]));
}

#[test]
fn statuses_have_words() {
    assert_eq!(RepoStatus::Pending.as_str(), "pending");
    assert_eq!(RepoStatus::Ready.as_str(), "ready");
    assert_eq!(RepoStatus::Error.as_str(), "error");
    assert_eq!(RepoStatus::parse("ready").unwrap(), RepoStatus::Ready);
    assert_eq!(
        RepoStatus::parse("Ready").unwrap_err(),
        Error::Config("unknown repository status \"Ready\"".into())
    );
}

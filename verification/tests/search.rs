use multi_repo::error::Error;
use multi_repo::model::{RepoRecord, RepoStatus};
use multi_repo::search::{
    enters_directory, find_repo, search, select_repos, trim_line_ending, CaseMode, Findings, PathFilter,
    PatternKind, RepoFilter, Search, SearchEvent, SearchOptions, SearchOutputMode, SearchStats,
    Submatch,
};
use multi_repo::string_set::StringSet;

fn strings(list: &[&str]) -> Vec<String> {
    list.iter().map(|item| (*item).to_owned()).collect()
}

fn record(id: &str, path: &str, sources: &[&str], tags: &[&str]) -> RepoRecord {
    RepoRecord {
        id: id.into(),
        canonical_url: format!("host/{id}"),
        clone_url: format!("host/{id}"),
        local_path: path.into(),
        default_branch: Some("main".into()),
        active: true,
        status: RepoStatus::Ready,
        sources: StringSet::from_list(&strings(sources)),
        tags: StringSet::from_list(&strings(tags)),
        last_error: None,
    }
}

fn selected(filter: &RepoFilter) -> Vec<String> {
    let repos = vec![
        record("github/acme/a", "/r/a", &["github"], &["rust"]),
        record("github/acme/b", "/r/b", &["github", "catalog"], &[]),
        record("catalog/c", "/r/c", &["catalog"], &["rust", "go"]),
    ];
    select_repos(repos, filter).unwrap().into_iter().map(|repo| repo.id).collect()
}

fn filter(globs: &[&str], sources: &[&str], tags: &[&str]) -> RepoFilter {
    RepoFilter {
        repo_globs: strings(globs),
        sources: StringSet::from_list(&strings(sources)),
        tags: StringSet::from_list(&strings(tags)),
    }
}

#[test]
fn categories_of_a_filter_restrict_each_other() {
    assert_eq!(selected(&filter(&[], &[], &[])).len(), 3);
    assert_eq!(selected(&filter(&["github/*"], &[], &[])), vec!["github/acme/a", "github/acme/b"]);
    assert_eq!(selected(&filter(&[], &["catalog"], &[])), vec!["github/acme/b", "catalog/c"]);
    assert_eq!(selected(&filter(&[], &[], &["rust"])), vec!["github/acme/a", "catalog/c"]);
    assert_eq!(selected(&filter(&[], &["catalog"], &["rust"])), vec!["catalog/c"]);
    assert_eq!(
        selected(&filter(&["github/*", "catalog/c"], &["github", "catalog"], &["rust", "go"])),
        vec!["github/acme/a", "catalog/c"]
    );
    match select_repos(Vec::new(), &filter(&["[z-a]"], &[], &[])) {
        Ok(_) => panic!("accepted"),
        Err(error) => {
            assert!(error.message().starts_with("configuration error: invalid glob \"[z-a]\": "))
        }
    }
}

#[test]
fn files_belong_to_the_nearest_working_tree() {
    let repos = vec![
        record("outer", "/r", &[], &[]),
        record("inner", "/r/a/b", &[], &[]),
        record("same", "/r/a/b/", &[], &[]),
    ];
    assert_eq!(find_repo(b"/r/x", &repos), Some(0));
    assert_eq!(find_repo(b"/r/a/b/c/d", &repos), Some(2));
    assert_eq!(find_repo(b"/r/a/bb", &repos), Some(0));
    assert_eq!(find_repo(b"/other", &repos), None);
}

#[test]
fn paths_are_selected_by_places_and_globs() {
    let filter = PathFilter::new(
        &strings(&["*.rs", "*.toml", "!**/generated.rs"]),
        &vec![b"src".to_vec(), b"tests/".to_vec()],
    )
    .unwrap();
    assert!(filter.matches(b"src/main.rs"));
    assert!(filter.matches(b"tests/a/Cargo.toml"));
    assert!(!filter.matches(b"src/generated.rs"));
    assert!(!filter.matches(b"src/main.go"));
    assert!(!filter.matches(b"srcs/main.rs"));
    assert!(!filter.matches(b"build.rs"));
    let all = PathFilter::new(&Vec::new(), &Vec::new()).unwrap();
    assert!(all.matches(b"any/thing"));
    let without = PathFilter::new(&strings(&["!*.lock"]), &Vec::new()).unwrap();
    assert!(without.matches(b"a.rs"));
    assert!(!without.matches(b"a.lock"));
}

#[test]
fn git_directories_are_not_entered() {
    assert!(!enters_directory(b".git"));
    assert!(enters_directory(b".github"));
    assert!(enters_directory(b"git"));
}

#[test]
fn line_endings_are_cut_off() {
    assert_eq!(trim_line_ending(b"a\n"), b"a");
    assert_eq!(trim_line_ending(b"a\r\n"), b"a");
    assert_eq!(trim_line_ending(b"a"), b"a");
    assert_eq!(trim_line_ending(b"\n"), b"");
    assert_eq!(trim_line_ending(b"a b "), b"a b ");
}

fn options(pattern: &str, mode: SearchOutputMode) -> SearchOptions {
    SearchOptions {
        pattern: pattern.into(),
        output_mode: mode,
        ..SearchOptions::default()
    }
}

/// The spans that a search reports for a line.
fn spans(options: &SearchOptions, line: &[u8]) -> Vec<(usize, usize)> {
    let search = Search::new(options).unwrap();
    let repos = vec![record("r", "/r", &[], &[])];
    let mut findings = Findings::new();
    let mut file = search.file(&repos, &findings, b"/r/f").unwrap();
    match file.matched(&mut findings, &search.matcher, Some(1), line) {
        (Some(SearchEvent::Match(found)), true) => {
            found.submatches.iter().map(|span| (span.start, span.end)).collect()
        }
        _ => panic!("no match"),
    }
}

#[test]
fn patterns_find_their_matches() {
    let mut wanted = options("ne+dle", SearchOutputMode::Matches);
    assert_eq!(spans(&wanted, b"needle and needle\n"), vec![(0, 6), (11, 17)]);
    assert_eq!(spans(&wanted, b"Needle needless\n"), vec![(7, 13)]);
    wanted.case = CaseMode::Insensitive;
    assert_eq!(spans(&wanted, b"Needle\n"), vec![(0, 6)]);
    wanted.word = true;
    assert_eq!(spans(&wanted, b"needless needle\n"), vec![(9, 15)]);

    let mut fixed = options("a.c", SearchOutputMode::Matches);
    assert_eq!(spans(&fixed, b"abc a.c"), vec![(0, 3), (4, 7)]);
    fixed.pattern_kind = PatternKind::Fixed;
    assert_eq!(spans(&fixed, b"abc a.c"), vec![(4, 7)]);

    let mut smart = options("abc", SearchOutputMode::Matches);
    smart.case = CaseMode::Smart;
    assert_eq!(spans(&smart, b"ABC"), vec![(0, 3)]);
    smart.pattern = "Abc".into();
    assert_eq!(spans(&smart, b"abc Abc"), vec![(4, 7)]);
}

#[test]
fn bad_patterns_are_refused() {
    match Search::new(&options("(", SearchOutputMode::Matches)) {
        Ok(_) => panic!("accepted"),
        Err(error) => assert!(matches!(error, Error::Search(_))),
    }
    let bad_pattern = options("(", SearchOutputMode::Matches);
    assert!(search(&vec![record("r", "/r", &[], &[])], &bad_pattern).is_err());
    match search(&Vec::new(), &bad_pattern) {
        Ok(_) => panic!("accepted"),
        Err(error) => assert!(matches!(error, Error::Search(_))),
    }
    let good = options("x", SearchOutputMode::Matches);
    assert!(matches!(search(&vec![record("r", "/r", &[], &[])], &good), Ok(Some(_))));
    assert!(matches!(search(&Vec::new(), &good), Ok(None)));
    let mut bad_glob = options("x", SearchOutputMode::Matches);
    bad_glob.globs = strings(&["!a[z"]);
    assert!(Search::new(&bad_glob).is_err());
    match search(&Vec::new(), &bad_glob) {
        Ok(_) => panic!("accepted"),
        Err(error) => assert!(matches!(error, Error::Config(_))),
    }
}

#[test]
fn matches_are_reported_with_their_place() {
    let search = Search::new(&options("needle", SearchOutputMode::Matches)).unwrap();
    let repos = vec![record("manual/repo", "/tmp/repo", &["manual"], &[])];
    let mut findings = Findings::new();
    let mut file =
        search.file(&repos, &findings, b"/tmp/repo/.github/workflow.yml").unwrap();
    let (event, goes_on) =
        file.matched(&mut findings, &search.matcher, Some(3), b"the needle there\n");
    assert!(goes_on);
    match event {
        Some(SearchEvent::Match(found)) => {
            assert_eq!(found.repo, "manual/repo");
            assert_eq!(found.path, b".github/workflow.yml");
            assert_eq!(found.line, 3);
            assert_eq!(found.column, Some(5));
            assert_eq!(found.text, b"the needle there");
            assert_eq!(found.submatches, vec![Submatch { start: 4, end: 10 }]);
            assert!(!found.context);
        }
        _ => panic!("no match"),
    }
    match file.context(Some(4), b"behind\r\n") {
        Some(SearchEvent::Match(found)) => {
            assert_eq!(found.line, 4);
            assert_eq!(found.column, None);
            assert_eq!(found.text, b"behind");
            assert!(found.submatches.is_empty());
            assert!(found.context);
        }
        _ => panic!("no context"),
    }
    assert_eq!(file.finish(), None);
    assert_eq!(findings.stats, SearchStats { matches: 1, errors: 0 });
    assert!(search.file(&repos, &findings, b"/elsewhere/f").is_none());
}

#[test]
fn repositories_are_reported_once() {
    let search = Search::new(&options("x", SearchOutputMode::ReposWithMatches)).unwrap();
    let repos = vec![record("a", "/r/a", &[], &[]), record("b", "/r/b", &[], &[])];
    let mut findings = Findings::new();
    let mut first = search.file(&repos, &findings, b"/r/a/1").unwrap();
    let mut second = search.file(&repos, &findings, b"/r/a/2").unwrap();
    assert_eq!(
        first.matched(&mut findings, &search.matcher, Some(1), b"x"),
        (Some(SearchEvent::Repo { repo: "a".into() }), false)
    );
    assert_eq!(second.matched(&mut findings, &search.matcher, Some(1), b"x"), (None, false));
    assert!(search.file(&repos, &findings, b"/r/a/3").is_none());
    assert!(search.file(&repos, &findings, b"/r/b/1").is_some());
    assert_eq!(first.context(Some(1), b"y"), None);
}

#[test]
fn files_are_reported_or_counted() {
    let repos = vec![record("a", "/r/a", &[], &[])];
    let mut findings = Findings::new();
    let search = Search::new(&options("x", SearchOutputMode::FilesWithMatches)).unwrap();
    let mut file = search.file(&repos, &findings, b"/r/a/f").unwrap();
    assert_eq!(
        file.matched(&mut findings, &search.matcher, Some(1), b"x"),
        (Some(SearchEvent::File { repo: "a".into(), path: b"f".to_vec() }), false)
    );

    let search = Search::new(&options("x", SearchOutputMode::Count)).unwrap();
    let mut file = search.file(&repos, &findings, b"/r/a/f").unwrap();
    assert_eq!(file.finish(), None);
    for line in 1..3 {
        assert_eq!(
            file.matched(&mut findings, &search.matcher, Some(line), b"x"),
            (None, true)
        );
    }
    assert_eq!(
        file.finish(),
        Some(SearchEvent::Count { repo: "a".into(), path: b"f".to_vec(), count: 2 })
    );
    assert_eq!(findings.stats, SearchStats { matches: 3, errors: 0 });
}

#[test]
fn failures_are_counted() {
    let mut findings = Findings::new();
    assert_eq!(
        findings.failed(Some(b"/r/a".to_vec()), "denied".into()),
        SearchEvent::Error { path: Some(b"/r/a".to_vec()), message: "denied".into() }
    );
    findings.failed(None, "again".into());
    assert_eq!(findings.stats, SearchStats { matches: 0, errors: 2 });
}

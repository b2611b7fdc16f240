use multi_repo::config::{
    base_dir, default_github_api_url, default_true, find_config, home_dir, resolve_path,
    resolve_repository_url, validate_component, validate_repo_name, BitbucketServerConfig, Config,
    ConfigFile, ConfigSearch, FileProbe, GitHubConfig, ManifestConfig, RepositoryConfig,
    SourceConfig, CONFIG_FILE_NAME, CONFIG_VERSION, WORKSPACE_SOURCE_NAME,
};
use multi_repo::error::Error;
use multi_repo::model::CloneProtocol;
use multi_repo::path::{path_components, path_join, path_within, same_path};

const PATH: &str = "/home/me/workspace/.multi-repo.toml";

fn github(name: &str) -> GitHubConfig {
    GitHubConfig {
        name: name.into(),
        fetch_all_branches: false,
        api_url: default_github_api_url(),
        token: None,
        token_env: Some("GITHUB_TOKEN".into()),
        clone_protocol: CloneProtocol::default(),
        includes: Vec::new(),
        excludes: Vec::new(),
        include_forks: false,
        include_archived: false,
        include_private: default_true(),
        tags: Vec::new(),
    }
}

fn bitbucket(name: &str) -> BitbucketServerConfig {
    BitbucketServerConfig {
        name: name.into(),
        fetch_all_branches: true,
        base_url: "https://bitbucket.example.com".into(),
        token: Some("inline".into()),
        token_env: None,
        clone_protocol: CloneProtocol::Https,
        projects: Vec::new(),
        includes: Vec::new(),
        excludes: Vec::new(),
        include_archived: false,
        tags: Vec::new(),
        ca_bundle: Some("certificates/ca.pem".into()),
    }
}

fn repository(id: &str, url: &str) -> RepositoryConfig {
    RepositoryConfig {
        id: id.into(),
        url: url.into(),
        default_branch: None,
        tags: Vec::new(),
    }
}

fn file(sources: Vec<SourceConfig>, repositories: Vec<RepositoryConfig>) -> ConfigFile {
    ConfigFile { version: None, root: None, sources, repositories }
}

fn problem(file: ConfigFile) -> String {
    match Config::load(PATH, Some("/home/me"), file) {
        Ok(_) => panic!("accepted"),
        Err(error) => error.message(),
    }
}

fn loaded(file: ConfigFile) -> Config {
    match Config::load(PATH, Some("/home/me"), file) {
        Ok(config) => config,
        Err(error) => panic!("{}", error.message()),
    }
}

#[test]
fn rejects_unsafe_repo_names() {
    for name in ["", "../escape", "/absolute", "a/../b", "a//b"] {
        assert!(validate_repo_name(name).is_err(), "accepted {name:?}");
    }
    validate_repo_name("org/repo").unwrap();
}

#[test]
fn unsafe_repo_names_are_named_in_the_error() {
    assert_eq!(
        validate_repo_name("").unwrap_err(),
        Error::Config("repository name cannot be empty".into())
    );
    for name in ["a\\b", "a/./b", ".", "a/.", "a/"] {
        assert_eq!(
            validate_repo_name(name).unwrap_err(),
            Error::Config(format!("unsafe repository name {name:?}"))
        );
    }
    assert_eq!(
        validate_repo_name("a/b\0c").unwrap_err(),
        Error::Config("invalid repository path component \"b\\0c\"".into())
    );
    validate_repo_name("a/...").unwrap();
    validate_repo_name("~/a b").unwrap();
}

#[test]
fn components_are_single_names() {
    for value in ["", ".", "..", "a/b", "a\\b", "a\0"] {
        assert_eq!(
            validate_component(value, "source name").unwrap_err(),
            Error::Config(format!("invalid source name {value:?}"))
        );
    }
    validate_component("a.b", "source name").unwrap();
}

/// Follows the search for a configuration file in a tree that holds the given
/// files.
fn search(start: &str, files: &[&str]) -> Result<String, Error> {
    let mut probes = Vec::new();
    loop {
        match find_config(start, &probes) {
            ConfigSearch::Probe(place) => probes.push(if files.contains(&place.as_str()) {
                FileProbe::RegularFile
            } else {
                FileProbe::Missing
            }),
            ConfigSearch::Found(path) => return Ok(path),
            ConfigSearch::Failed(error) => return Err(error),
        }
    }
}

#[test]
fn the_nearest_workspace_is_found() {
    let nested = "/tmp/workspace/repos/source/org/repo";
    let outer = "/tmp/workspace/.multi-repo.toml";
    let inner = "/tmp/workspace/repos/source/.multi-repo.toml";
    assert_eq!(search(nested, &[outer]).unwrap(), outer);
    assert_eq!(search(nested, &[outer, inner]).unwrap(), inner);
    assert_eq!(search("/", &["/.multi-repo.toml"]).unwrap(), "/.multi-repo.toml");
}

#[test]
fn reports_when_no_workspace_exists() {
    let error = search("/tmp/empty", &[]).unwrap_err().message();
    assert!(error.contains(CONFIG_FILE_NAME));
    assert!(error.contains("--config"));
    assert_eq!(
        error,
        "configuration error: no .multi-repo.toml found in /tmp/empty or its parents; use --config PATH to select one explicitly"
    );
}

#[test]
fn the_search_for_a_workspace_ends_at_obstacles() {
    assert_eq!(
        find_config("/a/b", &vec![FileProbe::Missing, FileProbe::OtherKind]),
        ConfigSearch::Failed(Error::Config(
            "workspace configuration /a/.multi-repo.toml is not a regular file".into()
        ))
    );
    assert_eq!(
        find_config("/a/b", &vec![FileProbe::Unreadable("denied".into())]),
        ConfigSearch::Failed(Error::Read {
            path: "/a/b/.multi-repo.toml".into(),
            source: "denied".into(),
        })
    );
    assert_eq!(
        find_config("/a/b", &vec![FileProbe::Missing]),
        ConfigSearch::Probe("/a/.multi-repo.toml".into())
    );
}

#[test]
fn the_root_is_the_directory_of_the_file_unless_it_is_set() {
    let config = loaded(file(Vec::new(), Vec::new()));
    assert_eq!(config.root, "/home/me/workspace");
    assert_eq!(config.state_dir(), "/home/me/workspace/.multi-repo");
    assert_eq!(config.repos_dir(), "/home/me/workspace/repos");

    let mut set = file(Vec::new(), Vec::new());
    set.version = Some(CONFIG_VERSION);
    set.root = Some("managed".into());
    assert_eq!(loaded(set).root, "/home/me/workspace/managed");
}

#[test]
fn other_versions_of_the_file_are_refused() {
    let mut old = file(Vec::new(), Vec::new());
    old.version = Some(2);
    assert_eq!(problem(old), "configuration error: unsupported config version 2; expected 1");
}

#[test]
fn inline_repository_paths_are_taken_from_the_directory_of_the_file() {
    let config = loaded(file(
        Vec::new(),
        vec![
            repository("widget", "local/widget.git"),
            repository("other", " git@host:other.git "),
        ],
    ));
    assert_eq!(config.repositories[0].url, "/home/me/workspace/local/widget.git");
    assert_eq!(config.repositories[1].url, "git@host:other.git");
}

#[test]
fn repositories_are_declared_once() {
    assert_eq!(
        problem(file(Vec::new(), vec![repository("a", "x"), repository("a", "y")])),
        "configuration error: duplicate repository id \"a\" in .multi-repo.toml"
    );
    assert_eq!(
        problem(file(Vec::new(), vec![repository("a", "  ")])),
        "configuration error: repository URL cannot be empty"
    );
    assert_eq!(
        problem(file(Vec::new(), vec![repository("../a", "x")])),
        "configuration error: unsafe repository name \"../a\""
    );
}

#[test]
fn source_names_are_unique_components() {
    assert_eq!(
        problem(file(
            vec![SourceConfig::GitHub(github("a")), SourceConfig::BitbucketServer(bitbucket("a"))],
            Vec::new(),
        )),
        "configuration error: duplicate source name \"a\""
    );
    assert_eq!(
        problem(file(vec![SourceConfig::GitHub(github("a/b"))], Vec::new())),
        "configuration error: invalid source name \"a/b\""
    );
    assert_eq!(
        problem(file(vec![SourceConfig::GitHub(github(WORKSPACE_SOURCE_NAME))], Vec::new())),
        "configuration error: source name \"workspace\" is reserved for repositories declared directly in .multi-repo.toml"
    );
}

#[test]
fn paths_of_sources_are_resolved() {
    let config = loaded(file(
        vec![
            SourceConfig::Manifest(ManifestConfig {
                name: "catalog".into(),
                fetch_all_branches: false,
                path: "~/repos.toml".into(),
                tags: vec!["catalog".into()],
            }),
            SourceConfig::BitbucketServer(bitbucket("bitbucket")),
        ],
        Vec::new(),
    ));
    match &config.sources[0] {
        SourceConfig::Manifest(manifest) => {
            assert_eq!(manifest.path, "/home/me/repos.toml");
            assert_eq!(manifest.tags, vec!["catalog".to_owned()]);
        }
        _ => panic!("another kind"),
    }
    match &config.sources[1] {
        SourceConfig::BitbucketServer(bitbucket) => {
            assert_eq!(
                bitbucket.ca_bundle.as_deref(),
                Some("/home/me/workspace/certificates/ca.pem")
            );
        }
        _ => panic!("another kind"),
    }
    assert_eq!(config.sources[1].name(), "bitbucket");
    assert!(config.sources[1].fetch_all_branches());
    assert!(!config.sources[0].fetch_all_branches());
}

#[test]
fn sources_name_exactly_one_token() {
    let mut both = github("a");
    both.token = Some("inline".into());
    let mut neither = bitbucket("b");
    neither.token = None;
    assert_eq!(
        problem(file(vec![SourceConfig::GitHub(both)], Vec::new())),
        "configuration error: source \"a\" must set exactly one of token and token_env"
    );
    assert_eq!(
        problem(file(vec![SourceConfig::BitbucketServer(neither)], Vec::new())),
        "configuration error: source \"b\" must set exactly one of token and token_env"
    );
}

#[test]
fn tokens_come_from_the_file_or_the_environment() {
    assert_eq!(bitbucket("b").access_token(Some("other")).unwrap(), "inline");
    assert_eq!(github("a").access_token(Some("found")).unwrap(), "found");
    assert_eq!(
        github("a").access_token(None).unwrap_err(),
        Error::Config("token environment variable \"GITHUB_TOKEN\" is not set".into())
    );
}

#[test]
fn paths_are_resolved_from_the_home_and_the_base() {
    let home = Some("/home/me");
    assert_eq!(resolve_path("/base", "~", home).unwrap(), "/home/me");
    assert_eq!(resolve_path("/base", "~/x", home).unwrap(), "/home/me/x");
    assert_eq!(resolve_path("/base", "~x", home).unwrap(), "/base/~x");
    assert_eq!(resolve_path("/base", "/x", home).unwrap(), "/x");
    assert_eq!(resolve_path("/base/", "x/y", None).unwrap(), "/base/x/y");
    for path in ["~", "~/x"] {
        assert_eq!(
            resolve_path("/base", path, None).unwrap_err(),
            Error::Config("cannot determine home directory".into())
        );
    }
    assert_eq!(home_dir(Some(String::new())), None);
    assert_eq!(home_dir(Some("/h".into())).as_deref(), Some("/h"));
    assert_eq!(home_dir(None), None);
    assert_eq!(base_dir("/a/b.toml"), "/a");
    assert_eq!(base_dir("b.toml"), "");
    assert_eq!(base_dir("/"), ".");
}

#[test]
fn remotes_are_told_from_paths() {
    let resolve = |value: &str| resolve_repository_url("/base", value, None).unwrap();
    assert_eq!(resolve("https://host/x"), "https://host/x");
    assert_eq!(resolve("git@host:x"), "git@host:x");
    assert_eq!(resolve("/absolute:x"), "/absolute:x");
    assert_eq!(resolve("dir/file:x"), "/base/dir/file:x");
    assert_eq!(resolve("host:"), "/base/host:");
    assert_eq!(resolve("../x.git"), "/base/../x.git");
    assert_eq!(
        resolve_repository_url("/base", "\t", None).unwrap_err(),
        Error::Config("repository URL cannot be empty".into())
    );
}

#[test]
fn working_trees_stay_inside_and_apart() {
    let ids = ["a", "a/b", "b", "a/b/c", "..."];
    for base in ["/w/repos", "/w/repos/", "repos", ""] {
        for id in ids {
            validate_repo_name(id).unwrap();
            let tree = path_join(base, id);
            assert!(path_within(&tree, base));
            assert!(path_components(&tree).len() > path_components(base).len());
            for other in ids {
                assert_eq!(same_path(&tree, &path_join(base, other)), id == other);
            }
        }
    }
}

#[test]
fn configurations_can_be_cloned() {
    let config = loaded(file(
        vec![SourceConfig::GitHub(github("hub"))],
        vec![repository("widget", "https://host.example/widget")],
    ));
    let copy = config.clone();
    assert_eq!(copy.root, config.root);
    assert_eq!(copy.sources[0].name(), "hub");
    assert_eq!(copy.repositories[0].id, "widget");
}

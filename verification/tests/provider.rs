use multi_repo::config::{
    default_github_api_url, BitbucketServerConfig, GitHubConfig, ManifestConfig, RepositoryConfig,
};
use multi_repo::error::Error;
use multi_repo::model::CloneProtocol;
use multi_repo::provider::bitbucket;
use multi_repo::provider::github;
use multi_repo::provider::manifest;
use multi_repo::provider::{
    admitted, authenticated_headers, canonicalize_remote, canonicalize_url, discover_repositories,
    local_remote_path, strip_git_suffix, tags, Filters, UrlParts, USER_AGENT,
};
use multi_repo::string_set::StringSet;

fn strings(list: &[&str]) -> Vec<String> {
    list.iter().map(|item| (*item).to_owned()).collect()
}

fn set(list: &[&str]) -> StringSet {
    StringSet::from_list(&strings(list))
}

#[test]
fn parses_next_link() {
    let value = "<https://api.github.test/repos?page=2>; rel=\"next\", <x>; rel=\"last\"";
    assert_eq!(
        github::next_link(value).as_deref(),
        Some("https://api.github.test/repos?page=2")
    );
}

#[test]
fn links_without_a_next_page_end_the_listing() {
    assert_eq!(github::next_link("<x>; rel=\"last\""), None);
    assert_eq!(github::next_link(""), None);
    assert_eq!(github::next_link("<x>"), None);
    assert_eq!(
        github::next_link("<a>; rel=\"prev\", <b>; title=t; rel=\"next\"").as_deref(),
        Some("b")
    );
}

#[test]
fn canonicalizes_common_remote_forms_without_losing_ports() {
    assert_eq!(
        canonicalize_remote("git@GitHub.com:acme/widget.git", None).unwrap(),
        "github.com/acme/widget"
    );
    assert_eq!(
        canonicalize_remote("https://example.com:8443/acme/widget.git", None).unwrap(),
        "example.com:8443/acme/widget"
    );
}

#[test]
fn transports_of_one_repository_have_one_canonical_form() {
    for remote in [
        "git@host.example:acme/widget.git",
        "git@Host.EXAMPLE:acme/widget.git",
        "ssh://git@host.example/acme/widget.git",
        "ssh://git@host.example/acme/widget",
        "https://HOST.example/acme/widget/",
        "https://HOST.example/acme/widget.git/",
        "  https://host.example/acme/widget  ",
    ] {
        assert_eq!(
            canonicalize_remote(remote, None).unwrap(),
            "host.example/acme/widget",
            "{remote}"
        );
    }
    assert_eq!(
        canonicalize_remote("https://Host.example:8443/acme/widget.git", None).unwrap(),
        "host.example:8443/acme/widget"
    );
}

#[test]
fn local_remotes_are_resolved_by_the_caller() {
    assert_eq!(local_remote_path("/srv/widget.git/").as_deref(), Some("/srv/widget"));
    assert_eq!(local_remote_path("https://host/x"), None);
    assert_eq!(local_remote_path("git@host:x"), None);
    assert_eq!(canonicalize_remote("/srv/widget.git", None).unwrap(), "file//srv/widget");
    assert_eq!(
        canonicalize_remote("/srv/widget.git", Some("/data/widget")).unwrap(),
        "file//data/widget"
    );
}

#[test]
fn remotes_without_a_host_are_refused() {
    assert_eq!(
        canonicalize_remote("file:///srv/widget", None).unwrap_err(),
        Error::Config("clone URL has no host: \"file:///srv/widget\"".into())
    );
    assert!(matches!(
        canonicalize_remote("https://[x/", None).unwrap_err(),
        Error::Url(_)
    ));
    assert_eq!(
        canonicalize_url("x", Err("broken".into())).unwrap_err(),
        Error::Url("broken".into())
    );
    assert_eq!(
        canonicalize_url(
            "x",
            Ok(UrlParts { host: Some("Host".into()), port: Some(22), path: "/a/b.git/".into() })
        )
        .unwrap(),
        "host:22/a/b"
    );
    assert_eq!(strip_git_suffix("a.git"), "a");
    assert_eq!(strip_git_suffix("a.gitx"), "a.gitx");
}

#[test]
fn builds_a_sensitive_authorization_header_without_leaking_invalid_tokens() {
    let headers = authenticated_headers("example-token", "application/json", "test").unwrap();
    let authorization = headers.iter().find(|header| header.name == "authorization").unwrap();
    assert_eq!(authorization.value, "Bearer example-token");
    assert!(authorization.sensitive);

    let error = authenticated_headers("secret\nsensitive-fragment", "application/json", "test")
        .unwrap_err()
        .message();
    assert!(!error.contains("secret"));
    assert!(!error.contains("sensitive-fragment"));
    assert_eq!(error, "configuration error: invalid test token: failed to parse header value");
}

#[test]
fn requests_name_the_program_and_what_they_accept() {
    let headers = authenticated_headers("t", "application/json", "test").unwrap();
    let found: Vec<(&str, &str)> =
        headers.iter().map(|header| (header.name.as_str(), header.value.as_str())).collect();
    assert_eq!(
        found,
        vec![
            ("user-agent", USER_AGENT),
            ("accept", "application/json"),
            ("authorization", "Bearer t"),
        ]
    );
}

#[test]
fn filters_include_and_exclude_names() {
    let all = Filters::new(&Vec::new(), &strings(&["acme/archived-*"])).unwrap();
    assert!(all.matches("acme/widget"));
    assert!(!all.matches("acme/archived-widget"));
    let some = Filters::new(&strings(&["acme/*", "other/x"]), &Vec::new()).unwrap();
    assert!(some.matches("acme/widget"));
    assert!(some.matches("other/x"));
    assert!(!some.matches("other/y"));
    match Filters::new(&strings(&["a[z"]), &Vec::new()) {
        Ok(_) => panic!("accepted"),
        Err(error) => assert!(error
            .message()
            .starts_with("configuration error: invalid glob \"a[z\": ")),
    }
    assert!(admitted(true, false, false));
    assert!(!admitted(true, true, true));
    assert!(!admitted(false, false, false));
    assert!(admitted(false, true, false));
}

#[test]
fn empty_tags_are_left_out() {
    assert_eq!(tags(&strings(&["a", ""]), &strings(&["b", "a"])), set(&["a", "b"]));
}

fn github_config() -> GitHubConfig {
    GitHubConfig {
        name: "github".into(),
        fetch_all_branches: false,
        api_url: default_github_api_url(),
        token: Some("t".into()),
        token_env: None,
        clone_protocol: CloneProtocol::Ssh,
        includes: strings(&["acme/*"]),
        excludes: Vec::new(),
        include_forks: false,
        include_archived: false,
        include_private: true,
        tags: strings(&["github"]),
    }
}

fn github_repo(name: &str) -> github::GitHubRepo {
    github::GitHubRepo {
        full_name: name.into(),
        ssh_url: format!("git@github.com:{name}.git"),
        clone_url: format!("https://github.com/{name}.git"),
        default_branch: "main".into(),
        fork: false,
        archived: false,
        private: true,
    }
}

#[test]
fn github_pages_are_filtered() {
    let config = github_config();
    let filters = Filters::new(&config.includes, &config.excludes).unwrap();
    assert_eq!(
        github::first_page_url(&config),
        "https://api.github.com/user/repos?per_page=100&affiliation=owner,collaborator,organization_member"
    );
    let mut fork = github_repo("acme/fork");
    fork.fork = true;
    let mut archived = github_repo("acme/archived");
    archived.archived = true;
    let mut found = Vec::new();
    let next = github::take_page(
        &config,
        &filters,
        &vec![github_repo("acme/widget"), fork, archived, github_repo("other/widget")],
        Some("<https://api/2>; rel=\"next\""),
        &Vec::new(),
        &mut found,
    )
    .unwrap();
    assert_eq!(next.as_deref(), Some("https://api/2"));
    assert_eq!(found.len(), 1);
    assert_eq!(found[0].id, "github/acme/widget");
    assert_eq!(found[0].canonical_url, "github.com/acme/widget");
    assert_eq!(found[0].clone_url, "git@github.com:acme/widget.git");
    assert_eq!(found[0].default_branch.as_deref(), Some("main"));
    assert_eq!(found[0].tags, set(&["github"]));

    let mut public_only = github_config();
    public_only.include_private = false;
    public_only.clone_protocol = CloneProtocol::Https;
    let mut public = github_repo("acme/public");
    public.private = false;
    let next = github::take_page(
        &public_only,
        &filters,
        &vec![github_repo("acme/hidden"), public],
        None,
        &Vec::new(),
        &mut found,
    )
    .unwrap();
    assert_eq!(next, None);
    assert_eq!(found.len(), 2);
    assert_eq!(found[1].clone_url, "https://github.com/acme/public.git");
}

fn bitbucket_config() -> BitbucketServerConfig {
    BitbucketServerConfig {
        name: "stash".into(),
        fetch_all_branches: false,
        base_url: "https://stash/".into(),
        token: Some("t".into()),
        token_env: None,
        clone_protocol: CloneProtocol::Ssh,
        projects: Vec::new(),
        includes: Vec::new(),
        excludes: Vec::new(),
        include_archived: false,
        tags: Vec::new(),
        ca_bundle: None,
    }
}

fn bitbucket_repo(slug: &str) -> bitbucket::BitbucketRepo {
    bitbucket::BitbucketRepo {
        slug: slug.into(),
        project: bitbucket::Project { key: "PLATFORM".into() },
        archived: false,
        default_branch: Some(bitbucket::Branch { display_id: "main".into() }),
        links: bitbucket::Links {
            clone: vec![
                bitbucket::CloneLink {
                    name: "ssh".into(),
                    href: format!("ssh://git@stash/PLATFORM/{slug}.git"),
                },
                bitbucket::CloneLink {
                    name: "http".into(),
                    href: format!("https://stash/scm/platform/{slug}.git"),
                },
            ],
        },
    }
}

#[test]
fn bitbucket_listings_cover_projects_or_everything() {
    let mut config = bitbucket_config();
    assert_eq!(
        bitbucket::listing_urls(&config),
        strings(&["https://stash/rest/api/1.0/repos?limit=100&permission=REPO_READ"])
    );
    config.projects = strings(&["A", "B"]);
    assert_eq!(
        bitbucket::listing_urls(&config),
        strings(&[
            "https://stash/rest/api/1.0/projects/A/repos?limit=100",
            "https://stash/rest/api/1.0/projects/B/repos?limit=100",
        ])
    );
    assert_eq!(bitbucket::page_url("u?limit=1", Some(100)), "u?limit=1&start=100");
    assert_eq!(bitbucket::page_url("u", Some(7)), "u?start=7");
    assert_eq!(bitbucket::page_url("u", None), "u");
}

#[test]
fn bitbucket_pages_are_followed() {
    let config = bitbucket_config();
    let filters = Filters::new(&config.includes, &config.excludes).unwrap();
    let mut found = Vec::new();
    let mut archived = bitbucket_repo("archived");
    archived.archived = true;
    let page = bitbucket::Page {
        values: vec![bitbucket_repo("widget"), archived],
        last: false,
        next_page_start: Some(100),
    };
    let next =
        bitbucket::take_page(&config, &filters, "u?limit=100", &page, &Vec::new(), &mut found)
            .unwrap();
    assert_eq!(next.as_deref(), Some("u?limit=100&start=100"));
    assert_eq!(found.len(), 1);
    assert_eq!(found[0].id, "stash/PLATFORM/widget");
    assert_eq!(found[0].canonical_url, "stash/PLATFORM/widget");
    assert_eq!(found[0].default_branch.as_deref(), Some("main"));

    let endless = bitbucket::Page { values: vec![], last: false, next_page_start: None };
    assert_eq!(
        bitbucket::take_page(&config, &filters, "u", &endless, &Vec::new(), &mut found)
            .unwrap_err(),
        Error::Config(
            "Bitbucket response is not the last page but has no nextPageStart".into()
        )
    );
    let mut unreachable_repo = bitbucket_repo("odd");
    unreachable_repo.links.clone.clear();
    let odd = bitbucket::Page { values: vec![unreachable_repo], last: true, next_page_start: None };
    assert_eq!(
        bitbucket::take_page(&config, &filters, "u", &odd, &Vec::new(), &mut found).unwrap_err(),
        Error::Config("Bitbucket repository PLATFORM/odd has no ssh clone URL".into())
    );
    let last = bitbucket::Page { values: vec![], last: true, next_page_start: Some(3) };
    assert_eq!(
        bitbucket::take_page(&config, &filters, "u", &last, &Vec::new(), &mut found).unwrap(),
        None
    );
}

fn declared(id: &str, url: &str, tags: &[&str]) -> RepositoryConfig {
    RepositoryConfig {
        id: id.into(),
        url: url.into(),
        default_branch: None,
        tags: strings(tags),
    }
}

#[test]
fn manifests_are_resolved_relative_to_their_file() {
    let config = ManifestConfig {
        name: "generated".into(),
        fetch_all_branches: false,
        path: "/tmp/catalog/repos.toml".into(),
        tags: strings(&["default"]),
    };
    let listed = manifest::resolve_manifest(
        &config,
        vec![declared("acme/widget", "../widget.git", &["specific"])],
        None,
    )
    .unwrap();
    let repositories = manifest::discover(&config, &listed, &vec![None]).unwrap();

    assert_eq!(repositories.len(), 1);
    assert_eq!(repositories[0].id, "generated/acme/widget");
    assert_eq!(repositories[0].clone_url, "/tmp/catalog/../widget.git");
    assert_eq!(repositories[0].tags, set(&["default", "specific"]));
    assert_eq!(repositories[0].canonical_url, "file//tmp/catalog/../widget");

    assert_eq!(
        manifest::discover(
            &config,
            &vec![declared("a", "h:x", &[]), declared("a", "h:y", &[])],
            &Vec::new(),
        )
        .unwrap_err(),
        Error::Config("duplicate repository id \"a\" in /tmp/catalog/repos.toml".into())
    );
}

#[test]
fn declared_repositories_keep_their_identifiers() {
    let specs = discover_repositories(
        &vec![declared("widget", "git@host:acme/widget.git", &["x", ""])],
        &Vec::new(),
    )
    .unwrap();
    assert_eq!(specs[0].id, "widget");
    assert_eq!(specs[0].canonical_url, "host/acme/widget");
    assert_eq!(specs[0].tags, set(&["x"]));
    assert!(discover_repositories(&vec![declared("../w", "h:x", &[])], &Vec::new()).is_err());
}

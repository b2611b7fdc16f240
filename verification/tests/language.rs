use multi_repo::error::Error;
use multi_repo::git::{GitOutput, Reply};
use multi_repo::language::{
    detect, detect_paths, detect_reply, detection_revision, is_dependency_path, listing_arguments,
    parse_listing, GO_TAG, PYTHON_TAG, RUST_TAG,
};
use multi_repo::string_set::StringSet;

fn strings(paths: &[&str]) -> Vec<String> {
    paths.iter().map(|path| (*path).to_owned()).collect()
}

fn tags(list: &[&str]) -> StringSet {
    StringSet::from_list(&strings(list))
}

#[test]
fn detects_supported_languages_from_markers_and_sources() {
    let paths = strings(&[
        "services/api/go.mod",
        "services/api/main.go",
        "tools/pyproject.toml",
        "tools/src/tool.py",
        "Cargo.toml",
        "src/main.rs",
    ]);

    assert_eq!(detect_paths(&paths), tags(&[GO_TAG, PYTHON_TAG, RUST_TAG]));
}

#[test]
fn requires_both_a_project_marker_and_source_file() {
    let paths = strings(&["go.mod", "script.py", "Cargo.toml"]);

    assert!(detect_paths(&paths).is_empty());
}

#[test]
fn ignores_dependency_directories() {
    let paths = strings(&[
        "go.mod",
        "vendor/example/dependency.go",
        "pyproject.toml",
        ".venv/lib/dependency.py",
        "Cargo.toml",
        "target/generated.rs",
    ]);

    assert!(detect_paths(&paths).is_empty());
}

#[test]
fn every_python_marker_counts() {
    for marker in ["pyproject.toml", "setup.py", "setup.cfg", "requirements.txt", "Pipfile"] {
        assert_eq!(
            detect_paths(&strings(&[marker, "a/b.py"])),
            tags(&[PYTHON_TAG]),
            "{marker}"
        );
    }
    assert!(detect_paths(&strings(&["pyproject.toml.bak", "b.py"])).is_empty());
}

#[test]
fn dependency_directories_are_whole_components() {
    assert!(is_dependency_path("a/node_modules/b"));
    assert!(is_dependency_path("vendor/x"));
    assert!(!is_dependency_path("vendored/x"));
    assert!(!is_dependency_path("src/main.rs"));
}

#[test]
fn listings_are_read_from_the_fetched_branch() {
    assert_eq!(detection_revision("main"), "refs/remotes/origin/main");
    assert_eq!(
        listing_arguments("main"),
        strings(&["ls-tree", "-r", "-z", "--name-only", "refs/remotes/origin/main"])
    );
    assert_eq!(parse_listing("a\0b c\0"), strings(&["a", "b c"]));
    assert!(parse_listing("").is_empty());
    assert_eq!(detect("Cargo.toml\0src/lib.rs\0"), tags(&[RUST_TAG]));
}

fn output(success: bool, stdout: &str, stderr: &str) -> Reply {
    Reply::Output(GitOutput {
        success,
        code: Some(if success { 0 } else { 128 }),
        status: if success { "exit status: 0" } else { "exit status: 128" }.into(),
        stdout: stdout.as_bytes().to_vec(),
        stderr: stderr.as_bytes().to_vec(),
    })
}

#[test]
fn failed_listings_are_reported() {
    assert_eq!(
        detect_reply("/r", &output(true, "go.mod\0main.go\0", "")).unwrap(),
        tags(&[GO_TAG])
    );
    assert!(matches!(
        detect_reply("/r", &output(false, "", "fatal: Not a valid object name\n")).unwrap_err(),
        Error::Git(_)
    ));
    assert!(detect_reply("/r", &Reply::NotRun("not found".into())).is_err());
}

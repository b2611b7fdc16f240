//! Which programming languages a repository is written in.

use vstd::prelude::*;

use crate::error::Result;
use crate::git::{Reply, args5, reply_error, reply_problem};
use crate::string_set::StringSet;
use crate::text::{
    cat2, ends, ends_with, lemma_split_nonempty, lossy, lossy_text, split, split_text, text_eq,
    texts,
};

verus! {

/// The tag of Go repositories.
pub const GO_TAG: &'static str = "language:go";

/// The tag of Python repositories.
pub const PYTHON_TAG: &'static str = "language:python";

/// The tag of Rust repositories.
pub const RUST_TAG: &'static str = "language:rust";

/// The languages that are recognised.
#[derive(Clone, Copy, Debug, PartialEq, Eq, Structural)]
pub enum Language {
    Go,
    Python,
    Rust,
}

impl Language {
    /// The tag of repositories in a language.
    pub open spec fn tag(self) -> Seq<char> {
        match self {
            Language::Go => GO_TAG@,
            Language::Python => PYTHON_TAG@,
            Language::Rust => RUST_TAG@,
        }
    }

    /// Whether a file of that name marks a project of the language.
    pub open spec fn marked_by(self, name: Seq<char>) -> bool {
        match self {
            Language::Go => name == "go.mod"@,
            Language::Python => {
                ||| name == "pyproject.toml"@
                ||| name == "setup.py"@
                ||| name == "setup.cfg"@
                ||| name == "Pipfile"@
                ||| name == "requirements.txt"@
            },
            Language::Rust => name == "Cargo.toml"@,
        }
    }

    /// The ending of source files in a language.
    pub open spec fn ending(self) -> Seq<char> {
        match self {
            Language::Go => ".go"@,
            Language::Python => ".py"@,
            Language::Rust => ".rs"@,
        }
    }

    /// Whether a file of that name is a source file of the language: something
    /// stands before the ending.
    pub open spec fn written_in(self, name: Seq<char>) -> bool {
        ends(name, self.ending()) && name.len() > self.ending().len()
    }

    /// Whether a file of that name marks a project of the language.
    fn is_marker(self, name: &str) -> (found: bool)
        ensures
            found == self.marked_by(name@),
    {
        match self {
            Language::Go => text_eq(name, "go.mod"),
            Language::Python => text_eq(name, "pyproject.toml") || text_eq(name, "setup.py")
                || text_eq(name, "setup.cfg") || text_eq(name, "Pipfile") || text_eq(
                name,
                "requirements.txt",
            ),
            Language::Rust => text_eq(name, "Cargo.toml"),
        }
    }

    /// Whether a file of that name is a source file of the language.
    fn is_source(self, name: &str) -> (found: bool)
        ensures
            found == self.written_in(name@),
    {
        let ending = match self {
            Language::Go => ".go",
            Language::Python => ".py",
            Language::Rust => ".rs",
        };
        proof {
            if ends(name@, self.ending()) && name@.len() == self.ending().len() {
                assert(name@.subrange(0, name@.len() as int) =~= name@);
            }
        }
        ends_with(name, ending) && !text_eq(name, ending)
    }
}

/// Whether a directory of that name holds code of others.
pub open spec fn is_dependency_name(name: Seq<char>) -> bool {
    ||| name == ".venv"@
    ||| name == "node_modules"@
    ||| name == "target"@
    ||| name == "vendor"@
    ||| name == "venv"@
}

/// Whether a path leads through a directory that holds code of others.
pub open spec fn dependency_path(path: Seq<char>) -> bool {
    exists|i: int|
        0 <= i < split(path, '/').len() && is_dependency_name(#[trigger] split(path, '/')[i])
}

/// The name of the file that a path leads to.
pub open spec fn file_name(path: Seq<char>) -> Seq<char> {
    split(path, '/').last()
}

/// Whether one of the paths leads to a project marker of a language that
/// belongs to the repository itself.
pub open spec fn has_marker(paths: Seq<Seq<char>>, language: Language) -> bool {
    exists|i: int|
        #![trigger paths[i]]
        0 <= i < paths.len() && !dependency_path(paths[i]) && language.marked_by(
            file_name(paths[i]),
        )
}

/// Whether one of the paths leads to a source file of a language that belongs
/// to the repository itself.
pub open spec fn has_source(paths: Seq<Seq<char>>, language: Language) -> bool {
    exists|i: int|
        #![trigger paths[i]]
        0 <= i < paths.len() && !dependency_path(paths[i]) && language.written_in(
            file_name(paths[i]),
        )
}

/// The tags of the languages of which a repository has a project marker and a
/// source file.
pub open spec fn language_tags(paths: Seq<Seq<char>>) -> Set<Seq<char>> {
    Set::new(
        |tag: Seq<char>|
            exists|language: Language|
                #[trigger] language.tag() == tag && has_marker(paths, language) && has_source(
                    paths,
                    language,
                ),
    )
}

/// Whether a path leads through a directory that holds code of others.
pub fn is_dependency_path(path: &str) -> (found: bool)
    ensures
        found == dependency_path(path@),
{
    let pieces = split_text(path, '/');
    let ghost all = split(path@, '/');
    let mut i: usize = 0;
    while i < pieces.len()
        invariant
            i <= pieces@.len(),
            texts(pieces@) == all,
            all == split(path@, '/'),
            forall|j: int| 0 <= j < i ==> !is_dependency_name(#[trigger] all[j]),
        decreases pieces@.len() - i,
    {
        let piece = pieces[i].as_str();
        assert(piece@ == all[i as int]);
        if text_eq(piece, ".venv") || text_eq(piece, "node_modules") || text_eq(piece, "target")
            || text_eq(piece, "vendor") || text_eq(piece, "venv") {
            assert(is_dependency_name(all[i as int]));
            return true;
        }
        i += 1;
    }
    false
}

/// Whether the files of a repository mark and contain a language.
fn detect_language(paths: &Vec<String>, language: Language) -> (found: bool)
    ensures
        found == (has_marker(texts(paths@), language) && has_source(texts(paths@), language)),
{
    let ghost all = texts(paths@);
    let mut marker = false;
    let mut source = false;
    let mut i: usize = 0;
    while i < paths.len()
        invariant
            i <= paths@.len(),
            all == texts(paths@),
            marker == exists|j: int|
                #![trigger all[j]]
                0 <= j < i && !dependency_path(all[j]) && language.marked_by(file_name(all[j])),
            source == exists|j: int|
                #![trigger all[j]]
                0 <= j < i && !dependency_path(all[j]) && language.written_in(file_name(all[j])),
        decreases paths@.len() - i,
    {
        let path = paths[i].as_str();
        assert(path@ == all[i as int]);
        if !is_dependency_path(path) {
            let pieces = split_text(path, '/');
            proof {
                lemma_split_nonempty(path@, '/');
                assert(texts(pieces@).len() == pieces@.len());
                assert(texts(pieces@).last() == pieces@.last()@);
            }
            let name = pieces[pieces.len() - 1].as_str();
            assert(name@ == file_name(all[i as int]));
            if language.is_marker(name) {
                marker = true;
            }
            if language.is_source(name) {
                source = true;
            }
        }
        i += 1;
    }
    marker && source
}

/// The tags of the languages that the files of a repository show.
pub fn detect_paths(paths: &Vec<String>) -> (tags: StringSet)
    ensures
        tags@ == language_tags(texts(paths@)),
{
    let mut tags = StringSet::new();
    let go = detect_language(paths, Language::Go);
    let python = detect_language(paths, Language::Python);
    let rust = detect_language(paths, Language::Rust);
    if go {
        tags.insert(GO_TAG.to_owned());
    }
    if python {
        tags.insert(PYTHON_TAG.to_owned());
    }
    if rust {
        tags.insert(RUST_TAG.to_owned());
    }
    proof {
        assert forall|tag: Seq<char>| tags@.contains(tag) implies language_tags(
            texts(paths@),
        ).contains(tag) by {
            if go && tag == GO_TAG@ {
                assert(Language::Go.tag() == tag);
            } else if python && tag == PYTHON_TAG@ {
                assert(Language::Python.tag() == tag);
            } else {
                assert(Language::Rust.tag() == tag);
            }
        }
        assert(tags@ =~= language_tags(texts(paths@)));
    }
    tags
}

/// The revision whose files show the languages of a repository: what was last
/// fetched of its default branch.
pub fn detection_revision(default_branch: &str) -> (revision: String)
    ensures
        revision@ == "refs/remotes/origin/"@ + default_branch@,
{
    cat2("refs/remotes/origin/", default_branch)
}

/// The paths of a listing in which a zero character ends each path.
pub open spec fn listed_paths(listing: Seq<char>) -> Seq<Seq<char>> {
    split(listing, '\0').filter(|path: Seq<char>| path.len() > 0)
}

/// The paths of a listing in which a zero character ends each path.
pub fn parse_listing(listing: &str) -> (paths: Vec<String>)
    ensures
        texts(paths@) == listed_paths(listing@),
{
    let pieces = split_text(listing, '\0');
    let ghost all = split(listing@, '\0');
    let ghost keep = |path: Seq<char>| path.len() > 0;
    let mut paths: Vec<String> = Vec::new();
    let mut i: usize = 0;
    proof {
        reveal(Seq::filter);
        assert(all.take(0) =~= Seq::empty());
        assert(texts(paths@) =~= all.take(0).filter(keep));
    }
    while i < pieces.len()
        invariant
            i <= pieces@.len(),
            all == texts(pieces@),
            keep == (|path: Seq<char>| path.len() > 0),
            texts(paths@) == all.take(i as int).filter(keep),
        decreases pieces@.len() - i,
    {
        let ghost earlier = texts(paths@);
        proof {
            reveal(Seq::filter);
            assert(all.take(i + 1).drop_last() =~= all.take(i as int));
            assert(all.take(i + 1).last() == all[i as int]);
        }
        if !pieces[i].as_str().is_empty() {
            paths.push(pieces[i].clone());
            proof {
                assert(texts(paths@) =~= earlier.push(all[i as int]));
            }
        }
        i += 1;
    }
    proof {
        assert(all.take(pieces@.len() as int) =~= all);
    }
    paths
}

/// The tags of the languages that a listing of the files of a repository
/// shows.
pub fn detect(listing: &str) -> (tags: StringSet)
    ensures
        tags@ == language_tags(listed_paths(listing@)),
{
    detect_paths(&parse_listing(listing))
}

/// The arguments with which Git lists the files of a revision.
pub open spec fn listing_args(default_branch: Seq<char>) -> Seq<Seq<char>> {
    seq![
        "ls-tree"@,
        "-r"@,
        "-z"@,
        "--name-only"@,
        "refs/remotes/origin/"@ + default_branch,
    ]
}

/// The arguments with which Git lists the files that show the languages of a
/// repository.
pub fn listing_arguments(default_branch: &str) -> (args: Vec<String>)
    ensures
        texts(args@) == listing_args(default_branch@),
{
    args5("ls-tree", "-r", "-z", "--name-only", detection_revision(default_branch).as_str())
}

/// The tags of the languages of a repository, given what came of listing its
/// files.
pub fn detect_reply(path: &str, reply: &Reply) -> (tags: Result<StringSet>)
    ensures
        match *reply {
            Reply::Output(output) if output.success => tags matches Ok(tags) && tags@
                == language_tags(listed_paths(lossy_text(output.stdout@))),
            _ => tags matches Err(error) && error@ == reply_problem(path@, *reply),
        },
{
    if let Reply::Output(output) = reply {
        if output.success {
            return Ok(detect(lossy(output.stdout.as_slice()).as_str()));
        }
    }
    Err(reply_error(path, reply))
}

/// Files below a dependency directory never change which languages are
/// detected.
pub proof fn law_dependencies_do_not_count(paths: Seq<Seq<char>>, path: Seq<char>)
    requires
        dependency_path(path),
    ensures
        language_tags(paths.push(path)) == language_tags(paths),
{
    let more = paths.push(path);
    assert forall|language: Language| has_marker(more, language) == has_marker(paths, language)
        && has_source(more, language) == has_source(paths, language) by {
        assert forall|i: int| 0 <= i < paths.len() implies more[i] == paths[i] by {}
        if has_marker(paths, language) {
            let i = choose|i: int|
                #![trigger paths[i]]
                0 <= i < paths.len() && !dependency_path(paths[i]) && language.marked_by(
                    file_name(paths[i]),
                );
            assert(more[i] == paths[i]);
        }
        if has_source(paths, language) {
            let i = choose|i: int|
                #![trigger paths[i]]
                0 <= i < paths.len() && !dependency_path(paths[i]) && language.written_in(
                    file_name(paths[i]),
                );
            assert(more[i] == paths[i]);
        }
    }
    assert(language_tags(more) =~= language_tags(paths)) by {
        assert forall|tag: Seq<char>| language_tags(more).contains(tag) == language_tags(
            paths,
        ).contains(tag) by {}
    }
}

}

//! The configuration of a workspace: sources, repositories, and the rules that
//! a configuration file has to keep.

use vstd::prelude::*;

use crate::error::{Error, ErrorModel, Result, failure};
use crate::model::CloneProtocol;
use crate::path::{
    absolute, behind_first, components, is_absolute, joined, lemma_joined_components, parent_of,
    path_behind_first, path_components, path_join, path_parent, within,
};
use crate::text::{
    cat2, cat3, cat4, contains_char, contains_text, debug_quote, debug_text, decimal, decimal_text,
    has_part, law_join_undoes_split, opt_str, part_first, parted_first, split, split_text, text_eq,
    texts, trim, trimmed,
};

verus! {

/// The version of the configuration format.
pub const CONFIG_VERSION: u32 = 1;

/// The name of a configuration file.
pub const CONFIG_FILE_NAME: &'static str = ".multi-repo.toml";

/// The source to which repositories belong that the configuration declares
/// directly.
pub const WORKSPACE_SOURCE_NAME: &'static str = "workspace";

/// A configuration that was loaded: it keeps every rule, and its paths no
/// longer depend on the place of the configuration file.
#[derive(Clone)]
pub struct Config {
    /// The directory that holds the repositories and the state.
    pub root: String,
    /// Where repositories are discovered.
    pub sources: Vec<SourceConfig>,
    /// The repositories that are declared directly.
    pub repositories: Vec<RepositoryConfig>,
}

/// The contents of a configuration file, as they stand in it.
pub struct ConfigFile {
    /// The version of the format; the current one if it is left out.
    pub version: Option<u32>,
    /// The workspace root; the directory of the file if it is left out.
    pub root: Option<String>,
    /// The declared sources.
    pub sources: Vec<SourceConfig>,
    /// The declared repositories.
    pub repositories: Vec<RepositoryConfig>,
}

/// A place where repositories are discovered.
#[derive(Clone)]
pub enum SourceConfig {
    /// GitHub or GitHub Enterprise.
    GitHub(GitHubConfig),
    /// Bitbucket Server or Data Center.
    BitbucketServer(BitbucketServerConfig),
    /// A list of repositories in a file.
    Manifest(ManifestConfig),
}

/// A GitHub source. A token can stand in it, so it has no printable form.
#[derive(Clone)]
pub struct GitHubConfig {
    pub name: String,
    pub fetch_all_branches: bool,
    pub api_url: String,
    pub token: Option<String>,
    pub token_env: Option<String>,
    pub clone_protocol: CloneProtocol,
    pub includes: Vec<String>,
    pub excludes: Vec<String>,
    pub include_forks: bool,
    pub include_archived: bool,
    pub include_private: bool,
    pub tags: Vec<String>,
}

/// A Bitbucket Server source. A token can stand in it, so it has no printable
/// form.
#[derive(Clone)]
pub struct BitbucketServerConfig {
    pub name: String,
    pub fetch_all_branches: bool,
    pub base_url: String,
    pub token: Option<String>,
    pub token_env: Option<String>,
    pub clone_protocol: CloneProtocol,
    pub projects: Vec<String>,
    pub includes: Vec<String>,
    pub excludes: Vec<String>,
    pub include_archived: bool,
    pub tags: Vec<String>,
    pub ca_bundle: Option<String>,
}

/// A manifest source.
#[derive(Clone, Debug)]
pub struct ManifestConfig {
    pub name: String,
    pub fetch_all_branches: bool,
    pub path: String,
    pub tags: Vec<String>,
}

/// A repository that is declared by hand.
#[derive(Clone, Debug)]
pub struct RepositoryConfig {
    pub id: String,
    pub url: String,
    pub default_branch: Option<String>,
    pub tags: Vec<String>,
}

/// The API of GitHub itself, for a source that names none.
pub fn default_github_api_url() -> (url: String)
    ensures
        url@ == "https://api.github.com"@,
{
    "https://api.github.com".to_owned()
}

/// Whether private repositories are included where a source does not say.
pub fn default_true() -> (value: bool)
    ensures
        value,
{
    true
}

impl SourceConfig {
    /// The name of a source.
    pub open spec fn title(self) -> Seq<char> {
        match self {
            SourceConfig::GitHub(config) => config.name@,
            SourceConfig::BitbucketServer(config) => config.name@,
            SourceConfig::Manifest(config) => config.name@,
        }
    }

    /// Whether a source asks for every branch.
    pub open spec fn wants_all_branches(self) -> bool {
        match self {
            SourceConfig::GitHub(config) => config.fetch_all_branches,
            SourceConfig::BitbucketServer(config) => config.fetch_all_branches,
            SourceConfig::Manifest(config) => config.fetch_all_branches,
        }
    }

    /// The name of a source.
    pub fn name(&self) -> (name: &str)
        ensures
            name@ == self.title(),
    {
        match self {
            SourceConfig::GitHub(config) => config.name.as_str(),
            SourceConfig::BitbucketServer(config) => config.name.as_str(),
            SourceConfig::Manifest(config) => config.name.as_str(),
        }
    }

    /// Whether a source asks for every branch.
    pub fn fetch_all_branches(&self) -> (all: bool)
        ensures
            all == self.wants_all_branches(),
    {
        match self {
            SourceConfig::GitHub(config) => config.fetch_all_branches,
            SourceConfig::BitbucketServer(config) => config.fetch_all_branches,
            SourceConfig::Manifest(config) => config.fetch_all_branches,
        }
    }
}

/// Whether a text can be a single component of a path.
pub open spec fn valid_component(value: Seq<char>) -> bool {
    &&& value.len() > 0
    &&& value != "."@
    &&& value != ".."@
    &&& !value.contains('/')
    &&& !value.contains('\\')
    &&& !value.contains('\0')
}

/// Refuses a text that cannot be a single component of a path.
pub fn validate_component(value: &str, kind: &str) -> (checked: Result<()>)
    ensures
        checked is Ok <==> valid_component(value@),
        checked matches Err(error) ==> error@ == ErrorModel::Config(
            "invalid "@ + kind@ + " "@ + debug_text(value@),
        ),
{
    if value.is_empty() || text_eq(value, ".") || text_eq(value, "..") || contains_char(value, '/')
        || contains_char(value, '\\') || contains_char(value, '\0') {
        return Err(Error::Config(cat4("invalid ", kind, " ", debug_quote(value).as_str())));
    }
    Ok(())
}

/// Whether a piece of a repository name is empty or stands for the current or
/// the parent directory.
pub open spec fn is_hollow(piece: Seq<char>) -> bool {
    piece.len() == 0 || piece == "."@ || piece == ".."@
}

/// The first of some pieces that holds a zero character.
pub open spec fn first_with_zero(pieces: Seq<Seq<char>>) -> Option<Seq<char>>
    decreases pieces.len(),
{
    if pieces.len() == 0 {
        None
    } else {
        match first_with_zero(pieces.drop_last()) {
            Some(piece) => Some(piece),
            None => if pieces.last().contains('\0') {
                Some(pieces.last())
            } else {
                None
            },
        }
    }
}

/// Whether a name can be the identifier of a repository: a relative path whose
/// components are all plain names.
pub open spec fn valid_repo_name(name: Seq<char>) -> bool {
    forall|i: int|
        0 <= i < split(name, '/').len() ==> valid_component(#[trigger] split(name, '/')[i])
}

/// Why a name cannot be the identifier of a repository.
pub open spec fn repo_name_problem(name: Seq<char>) -> Seq<char> {
    let pieces = split(name, '/');
    if name.len() == 0 {
        "repository name cannot be empty"@
    } else if name.contains('\\') || exists|i: int|
        0 <= i < pieces.len() && is_hollow(#[trigger] pieces[i]) {
        "unsafe repository name "@ + debug_text(name)
    } else {
        match first_with_zero(pieces) {
            Some(piece) => "invalid "@ + "repository path component"@ + " "@ + debug_text(piece),
            None => Seq::empty(),
        }
    }
}

/// A text holds every character of its pieces.
pub proof fn lemma_piece_chars(s: Seq<char>, separator: char, c: char)
    requires
        c != separator,
    ensures
        s.contains(c) <==> exists|i: int|
            0 <= i < split(s, separator).len() && (#[trigger] split(s, separator)[i]).contains(c),
    decreases s.len(),
{
    let pieces = split(s, separator);
    crate::text::lemma_split_nonempty(s, separator);
    if s.len() == 0 {
        assert(pieces[0] =~= Seq::empty());
    } else {
        let rest = s.drop_last();
        let earlier = split(rest, separator);
        lemma_piece_chars(rest, separator, c);
        crate::text::lemma_split_nonempty(rest, separator);
        assert(s.contains(c) <==> rest.contains(c) || s.last() == c) by {
            if s.contains(c) {
                let k = choose|k: int| 0 <= k < s.len() && s[k] == c;
                if k < s.len() - 1 {
                    assert(rest[k] == c);
                }
            }
            if rest.contains(c) {
                let k = choose|k: int| 0 <= k < rest.len() && rest[k] == c;
                assert(s[k] == c);
            }
        }
        if s.last() == separator {
            assert forall|i: int| 0 <= i < earlier.len() implies pieces[i] == earlier[i] by {}
            if rest.contains(c) {
                let i = choose|i: int|
                    0 <= i < earlier.len() && (#[trigger] earlier[i]).contains(c);
                assert(pieces[i].contains(c));
            }
            if exists|i: int| 0 <= i < pieces.len() && (#[trigger] pieces[i]).contains(c) {
                let i = choose|i: int| 0 <= i < pieces.len() && (#[trigger] pieces[i]).contains(c);
                assert(i < earlier.len());
                assert(earlier[i].contains(c));
            }
        } else {
            let last = earlier.len() - 1;
            assert(pieces[last] == earlier[last].push(s.last()));
            assert(pieces[last].contains(c) <==> earlier[last].contains(c) || s.last() == c) by {
                let p = pieces[last];
                let e = earlier[last];
                if p.contains(c) {
                    let k = choose|k: int| 0 <= k < p.len() && p[k] == c;
                    if k < e.len() {
                        assert(e[k] == c);
                    }
                }
                if e.contains(c) {
                    let k = choose|k: int| 0 <= k < e.len() && e[k] == c;
                    assert(p[k] == c);
                }
                if s.last() == c {
                    assert(p[p.len() - 1] == c);
                }
            }
            if rest.contains(c) {
                let i = choose|i: int|
                    0 <= i < earlier.len() && (#[trigger] earlier[i]).contains(c);
                if i < last {
                    assert(pieces[i] == earlier[i]);
                }
                assert(pieces[i].contains(c));
            }
            if exists|i: int| 0 <= i < pieces.len() && (#[trigger] pieces[i]).contains(c) {
                let i = choose|i: int| 0 <= i < pieces.len() && (#[trigger] pieces[i]).contains(c);
                if i < last {
                    assert(pieces[i] == earlier[i]);
                    assert(earlier[i].contains(c));
                }
            }
        }
    }
}

/// No piece holds the separator.
pub proof fn lemma_pieces_without_separator<T>(s: Seq<T>, separator: T)
    ensures
        forall|i: int|
            0 <= i < split(s, separator).len() ==> !(#[trigger] split(s, separator)[i]).contains(
                separator,
            ),
    decreases s.len(),
{
    let pieces = split(s, separator);
    if s.len() > 0 {
        let rest = s.drop_last();
        let earlier = split(rest, separator);
        lemma_pieces_without_separator(rest, separator);
        crate::text::lemma_split_nonempty(rest, separator);
        assert forall|i: int| 0 <= i < pieces.len() implies !(#[trigger] pieces[i]).contains(
            separator,
        ) by {
            if s.last() == separator {
                if i < earlier.len() {
                    assert(pieces[i] == earlier[i]);
                }
            } else if i < earlier.len() - 1 {
                assert(pieces[i] == earlier[i]);
            } else {
                let e = earlier[i];
                assert(pieces[i] == e.push(s.last()));
                if pieces[i].contains(separator) {
                    let k = choose|k: int|
                        0 <= k < pieces[i].len() && pieces[i][k] == separator;
                    assert(k < e.len());
                    assert(e[k] == separator);
                    assert(e.contains(separator));
                }
            }
        }
    }
}

/// The first piece with a zero character is one of the pieces, and there is
/// none exactly if no piece holds that character.
proof fn lemma_first_with_zero(pieces: Seq<Seq<char>>)
    ensures
        first_with_zero(pieces) is None <==> forall|i: int|
            0 <= i < pieces.len() ==> !(#[trigger] pieces[i]).contains('\0'),
    decreases pieces.len(),
{
    if pieces.len() > 0 {
        let rest = pieces.drop_last();
        lemma_first_with_zero(rest);
        if first_with_zero(rest) is None {
            assert forall|i: int| 0 <= i < pieces.len() - 1 implies !(
            #[trigger] pieces[i]).contains('\0') by {
                assert(rest[i] == pieces[i]);
            }
        } else {
            let i = choose|i: int|
                0 <= i < rest.len() && (#[trigger] rest[i]).contains('\0');
            assert(pieces[i].contains('\0'));
        }
    }
}

/// Refuses a name that cannot be the identifier of a repository.
pub fn validate_repo_name(name: &str) -> (checked: Result<()>)
    ensures
        checked is Ok <==> valid_repo_name(name@),
        checked matches Err(error) ==> error@ == ErrorModel::Config(repo_name_problem(name@)),
{
    if name.is_empty() {
        proof {
            assert(split(name@, '/')[0].len() == 0);
            assert(!valid_component(split(name@, '/')[0]));
        }
        return Err(Error::Config("repository name cannot be empty".to_owned()));
    }
    let pieces = split_text(name, '/');
    let ghost all = split(name@, '/');
    let back = contains_char(name, '\\');
    proof {
        lemma_piece_chars(name@, '/', '\\');
        lemma_pieces_without_separator(name@, '/');
        lemma_first_with_zero(all);
    }
    let mut unsafe_piece = back;
    let mut i: usize = 0;
    while i < pieces.len()
        invariant
            i <= pieces@.len(),
            texts(pieces@) == all,
            unsafe_piece == (back || exists|j: int| 0 <= j < i && is_hollow(#[trigger] all[j])),
        decreases pieces@.len() - i,
    {
        let piece = pieces[i].as_str();
        assert(piece@ == all[i as int]);
        if piece.is_empty() || text_eq(piece, ".") || text_eq(piece, "..") {
            unsafe_piece = true;
            assert(is_hollow(all[i as int]));
        }
        i += 1;
    }
    if unsafe_piece {
        proof {
            if back {
                let k = choose|k: int|
                    0 <= k < all.len() && (#[trigger] all[k]).contains('\\');
                assert(!valid_component(all[k]));
            } else {
                let k = choose|k: int| 0 <= k < all.len() && is_hollow(#[trigger] all[k]);
                assert(!valid_component(all[k]));
            }
        }
        return Err(Error::Config(cat2("unsafe repository name ", debug_quote(name).as_str())));
    }
    let mut k: usize = 0;
    proof {
        assert(all.take(0) =~= Seq::empty());
    }
    while k < pieces.len()
        invariant
            k <= pieces@.len(),
            texts(pieces@) == all,
            all == split(name@, '/'),
            name@.len() > 0,
            !back,
            back == name@.contains('\\'),
            forall|j: int| 0 <= j < all.len() ==> !is_hollow(#[trigger] all[j]),
            forall|j: int| 0 <= j < all.len() ==> !(#[trigger] all[j]).contains('/'),
            forall|j: int| 0 <= j < all.len() ==> !(#[trigger] all[j]).contains('\\'),
            first_with_zero(all.take(k as int)) is None,
            first_with_zero(all) is None <==> forall|j: int|
                0 <= j < all.len() ==> !(#[trigger] all[j]).contains('\0'),
        decreases pieces@.len() - k,
    {
        proof {
            assert(all.take(k + 1).drop_last() =~= all.take(k as int));
            assert(all.take(k + 1).last() == all[k as int]);
        }
        let piece = pieces[k].as_str();
        assert(piece@ == all[k as int]);
        match validate_component(piece, "repository path component") {
            Ok(()) => {},
            Err(error) => {
                proof {
                    assert(!valid_component(all[k as int]));
                    lemma_first_with_zero_prefix(all, k + 1);
                    assert(repo_name_problem(name@) == "invalid "@ + "repository path component"@
                        + " "@ + debug_text(all[k as int]));
                }
                return Err(error);
            },
        }
        k += 1;
    }
    proof {
        assert(all.take(all.len() as int) =~= all);
        lemma_piece_chars(name@, '/', '\\');
    }
    Ok(())
}

/// A piece with a zero character that is found among the first pieces is the
/// first of all.
proof fn lemma_first_with_zero_prefix(pieces: Seq<Seq<char>>, count: int)
    requires
        0 <= count <= pieces.len(),
        first_with_zero(pieces.take(count)) is Some,
    ensures
        first_with_zero(pieces) == first_with_zero(pieces.take(count)),
    decreases pieces.len(),
{
    if count < pieces.len() {
        let rest = pieces.drop_last();
        assert(rest.take(count) =~= pieces.take(count));
        lemma_first_with_zero_prefix(rest, count);
    } else {
        assert(pieces.take(count) =~= pieces);
    }
}

/// A path of the configuration as a place in the file system. A path that
/// begins with `~` is taken from the home directory, any other relative path
/// from the base.
pub open spec fn resolved_path(
    base: Seq<char>,
    path: Seq<char>,
    home: Option<Seq<char>>,
) -> std::result::Result<Seq<char>, ErrorModel> {
    let parts = components(path);
    if parts.len() > 0 && parts[0] == "~"@ {
        match home {
            Some(home) => if parts.len() == 1 {
                Ok(joined(base, home))
            } else {
                Ok(joined(base, joined(home, behind_first(path))))
            },
            None => Err(ErrorModel::Config("cannot determine home directory"@)),
        }
    } else {
        Ok(joined(base, path))
    }
}

/// Whether a result of the library is the one that a contract describes.
pub open spec fn text_result(
    result: Result<String>,
    expected: std::result::Result<Seq<char>, ErrorModel>,
) -> bool {
    match result {
        Ok(text) => expected == Ok::<Seq<char>, ErrorModel>(text@),
        Err(error) => expected == Err::<Seq<char>, ErrorModel>(error@),
    }
}

/// A path of the configuration as a place in the file system.
pub fn resolve_path(base: &str, path: &str, home: Option<&str>) -> (full: Result<String>)
    ensures
        text_result(full, resolved_path(base@, path@, opt_str(home))),
{
    let parts = path_components(path);
    proof {
        assert(parts@.len() == components(path@).len());
        assert(parts@.len() > 0 ==> parts@[0]@ == components(path@)[0]);
    }
    if parts.len() > 0 && text_eq(parts[0].as_str(), "~") {
        match home {
            Some(home) => {
                if parts.len() == 1 {
                    Ok(path_join(base, home))
                } else {
                    let rest = path_behind_first(path);
                    let expanded = path_join(home, rest.as_str());
                    Ok(path_join(base, expanded.as_str()))
                }
            },
            None => Err(Error::Config("cannot determine home directory".to_owned())),
        }
    } else {
        Ok(path_join(base, path))
    }
}

/// The home directory, where the environment gives one that is not empty.
pub fn home_dir(value: Option<String>) -> (home: Option<String>)
    ensures
        match value {
            Some(text) => if text@.len() == 0 {
                home is None
            } else {
                home == value
            },
            None => home is None,
        },
{
    match value {
        Some(text) => if text.as_str().is_empty() {
            None
        } else {
            Some(text)
        },
        None => None,
    }
}

/// Whether a text has the form `host:path` of an SSH remote.
pub open spec fn is_scp_remote(value: Seq<char>) -> bool {
    match parted_first(value, ':') {
        Some(parts) => !parts.0.contains('/') && !parts.0.contains('\\') && parts.1.len() > 0,
        None => false,
    }
}

/// The remote of a declared repository. Remotes of other hosts stay as they
/// are; anything else is a path.
pub open spec fn resolved_repository_url(
    base: Seq<char>,
    value: Seq<char>,
    home: Option<Seq<char>>,
) -> std::result::Result<Seq<char>, ErrorModel> {
    let value = trimmed(value);
    if value.len() == 0 {
        Err(ErrorModel::Config("repository URL cannot be empty"@))
    } else if has_part(value, "://"@) || (!absolute(value) && is_scp_remote(value)) {
        Ok(value)
    } else {
        resolved_path(base, value, home)
    }
}

/// The remote of a declared repository.
pub fn resolve_repository_url(base: &str, value: &str, home: Option<&str>) -> (url: Result<String>)
    ensures
        text_result(url, resolved_repository_url(base@, value@, opt_str(home))),
{
    let value = trim(value);
    if value.as_str().is_empty() {
        return Err(Error::Config("repository URL cannot be empty".to_owned()));
    }
    let scp = match part_first(value.as_str(), ':') {
        Some(parts) => !contains_char(parts.0.as_str(), '/') && !contains_char(
            parts.0.as_str(),
            '\\',
        ) && !parts.1.as_str().is_empty(),
        None => false,
    };
    if contains_text(value.as_str(), "://") || (!is_absolute(value.as_str()) && scp) {
        return Ok(value);
    }
    resolve_path(base, value.as_str(), home)
}

/// Why the credentials of a source are not acceptable: exactly one of the two
/// settings has to be there.
pub open spec fn token_problem(
    name: Seq<char>,
    token: Option<String>,
    token_env: Option<String>,
) -> Option<ErrorModel> {
    if token is Some == token_env is Some {
        Some(
            ErrorModel::Config(
                "source "@ + debug_text(name) + " must set exactly one of token and token_env"@,
            ),
        )
    } else {
        None
    }
}

/// Refuses credentials that name no token or two.
fn validate_token(name: &str, token: &Option<String>, token_env: &Option<String>) -> (checked:
    Result<()>)
    ensures
        failure(checked) == token_problem(name@, *token, *token_env),
{
    if token.is_some() == token_env.is_some() {
        return Err(
            Error::Config(
                cat3(
                    "source ",
                    debug_quote(name).as_str(),
                    " must set exactly one of token and token_env",
                ),
            ),
        );
    }
    Ok(())
}

/// The token of a source, given what the environment holds under the name that
/// the source gives.
pub open spec fn token_of(
    token: Option<String>,
    token_env: Option<String>,
    environment: Option<Seq<char>>,
) -> std::result::Result<Seq<char>, ErrorModel> {
    match token {
        Some(token) => Ok(token@),
        None => match environment {
            Some(value) => Ok(value),
            None => Err(
                ErrorModel::Config(
                    "token environment variable "@ + debug_text(
                        match token_env {
                            Some(name) => name@,
                            None => Seq::empty(),
                        },
                    ) + " is not set"@,
                ),
            ),
        },
    }
}

/// The token of a source.
fn choose_token(
    token: &Option<String>,
    token_env: &Option<String>,
    environment: Option<&str>,
) -> (chosen: Result<String>)
    ensures
        text_result(chosen, token_of(*token, *token_env, opt_str(environment))),
{
    match token {
        Some(token) => Ok(token.clone()),
        None => match environment {
            Some(value) => Ok(value.to_owned()),
            None => {
                let name = match token_env {
                    Some(name) => name.clone(),
                    None => String::new(),
                };
                proof {
                    assert(name@ =~= match *token_env {
                        Some(name) => name@,
                        None => Seq::empty(),
                    });
                }
                Err(
                    Error::Config(
                        cat3(
                            "token environment variable ",
                            debug_quote(name.as_str()).as_str(),
                            " is not set",
                        ),
                    ),
                )
            },
        },
    }
}

impl GitHubConfig {
    /// The token for requests, given what the environment holds under the name
    /// in `token_env`.
    pub fn access_token(&self, environment: Option<&str>) -> (token: Result<String>)
        ensures
            text_result(token, token_of(self.token, self.token_env, opt_str(environment))),
    {
        choose_token(&self.token, &self.token_env, environment)
    }
}

impl BitbucketServerConfig {
    /// The token for requests, given what the environment holds under the name
    /// in `token_env`.
    pub fn access_token(&self, environment: Option<&str>) -> (token: Result<String>)
        ensures
            text_result(token, token_of(self.token, self.token_env, opt_str(environment))),
    {
        choose_token(&self.token, &self.token_env, environment)
    }
}

/// What keeps a single source out of a configuration, leaving its name aside.
pub open spec fn settings_problem(
    source: SourceConfig,
    base: Seq<char>,
    home: Option<Seq<char>>,
) -> Option<ErrorModel> {
    match source {
        SourceConfig::GitHub(config) => token_problem(
            config.name@,
            config.token,
            config.token_env,
        ),
        SourceConfig::BitbucketServer(config) => match token_problem(
            config.name@,
            config.token,
            config.token_env,
        ) {
            Some(problem) => Some(problem),
            None => match config.ca_bundle {
                Some(bundle) => match resolved_path(base, bundle@, home) {
                    Ok(_) => None,
                    Err(error) => Some(error),
                },
                None => None,
            },
        },
        SourceConfig::Manifest(config) => match resolved_path(base, config.path@, home) {
            Ok(_) => None,
            Err(error) => Some(error),
        },
    }
}

/// Whether `after` is the source `before` with its paths resolved and nothing
/// else changed.
pub open spec fn source_resolved(
    before: SourceConfig,
    after: SourceConfig,
    base: Seq<char>,
    home: Option<Seq<char>>,
) -> bool {
    match before {
        SourceConfig::GitHub(_) => after == before,
        SourceConfig::BitbucketServer(old) => match after {
            SourceConfig::BitbucketServer(new) => {
                &&& new == (BitbucketServerConfig { ca_bundle: new.ca_bundle, ..old })
                &&& match old.ca_bundle {
                    Some(bundle) => new.ca_bundle is Some && resolved_path(base, bundle@, home)
                        == Ok::<Seq<char>, ErrorModel>(new.ca_bundle->0@),
                    None => new.ca_bundle is None,
                }
            },
            _ => false,
        },
        SourceConfig::Manifest(old) => match after {
            SourceConfig::Manifest(new) => {
                &&& new == (ManifestConfig { path: new.path, ..old })
                &&& resolved_path(base, old.path@, home) == Ok::<Seq<char>, ErrorModel>(new.path@)
            },
            _ => false,
        },
    }
}

/// Checks the settings of a source and resolves its paths.
fn resolve_source(source: SourceConfig, base: &str, home: Option<&str>) -> (resolved: Result<
    SourceConfig,
>)
    ensures
        failure(resolved) == settings_problem(source, base@, opt_str(home)),
        resolved matches Ok(after) ==> source_resolved(source, after, base@, opt_str(home)),
{
    match source {
        SourceConfig::GitHub(config) => {
            match validate_token(config.name.as_str(), &config.token, &config.token_env) {
                Ok(()) => Ok(SourceConfig::GitHub(config)),
                Err(error) => Err(error),
            }
        },
        SourceConfig::BitbucketServer(config) => {
            match validate_token(config.name.as_str(), &config.token, &config.token_env) {
                Ok(()) => {},
                Err(error) => return Err(error),
            }
            let mut config = config;
            let ca_bundle = match &config.ca_bundle {
                Some(bundle) => match resolve_path(base, bundle.as_str(), home) {
                    Ok(path) => Some(path),
                    Err(error) => return Err(error),
                },
                None => None,
            };
            config.ca_bundle = ca_bundle;
            Ok(SourceConfig::BitbucketServer(config))
        },
        SourceConfig::Manifest(config) => {
            let mut config = config;
            match resolve_path(base, config.path.as_str(), home) {
                Ok(path) => {
                    config.path = path;
                    Ok(SourceConfig::Manifest(config))
                },
                Err(error) => Err(error),
            }
        },
    }
}

/// What keeps a source out of a configuration: its name, a name that an
/// earlier source has too, or its settings.
pub open spec fn source_problem(
    sources: Seq<SourceConfig>,
    i: int,
    base: Seq<char>,
    home: Option<Seq<char>>,
) -> Option<ErrorModel> {
    let name = sources[i].title();
    if !valid_component(name) {
        Some(ErrorModel::Config("invalid "@ + "source name"@ + " "@ + debug_text(name)))
    } else if name == WORKSPACE_SOURCE_NAME@ {
        Some(
            ErrorModel::Config(
                "source name "@ + debug_text(name)
                    + " is reserved for repositories declared directly in "@ + CONFIG_FILE_NAME@,
            ),
        )
    } else if exists|j: int| 0 <= j < i && #[trigger] sources[j].title() == name {
        Some(ErrorModel::Config("duplicate source name "@ + debug_text(name)))
    } else {
        settings_problem(sources[i], base, home)
    }
}

/// What keeps a declared repository out of a configuration: its identifier, an
/// identifier that an earlier repository has too, or its remote.
pub open spec fn repository_problem(
    repositories: Seq<RepositoryConfig>,
    i: int,
    base: Seq<char>,
    home: Option<Seq<char>>,
) -> Option<ErrorModel> {
    let id = repositories[i].id@;
    if !valid_repo_name(id) {
        Some(ErrorModel::Config(repo_name_problem(id)))
    } else if exists|j: int| 0 <= j < i && #[trigger] repositories[j].id@ == id {
        Some(
            ErrorModel::Config(
                "duplicate repository id "@ + debug_text(id) + " in "@ + CONFIG_FILE_NAME@,
            ),
        )
    } else {
        match resolved_repository_url(base, repositories[i].url@, home) {
            Ok(_) => None,
            Err(error) => Some(error),
        }
    }
}

/// The first problem among the first sources.
pub open spec fn sources_problem(
    sources: Seq<SourceConfig>,
    count: int,
    base: Seq<char>,
    home: Option<Seq<char>>,
) -> Option<ErrorModel>
    decreases count,
{
    if count <= 0 {
        None
    } else {
        match sources_problem(sources, count - 1, base, home) {
            Some(problem) => Some(problem),
            None => source_problem(sources, count - 1, base, home),
        }
    }
}

/// The first problem among the first declared repositories.
pub open spec fn repositories_problem(
    repositories: Seq<RepositoryConfig>,
    count: int,
    base: Seq<char>,
    home: Option<Seq<char>>,
) -> Option<ErrorModel>
    decreases count,
{
    if count <= 0 {
        None
    } else {
        match repositories_problem(repositories, count - 1, base, home) {
            Some(problem) => Some(problem),
            None => repository_problem(repositories, count - 1, base, home),
        }
    }
}

/// The directory from which the relative paths of a file are taken.
pub open spec fn base_of(path: Seq<char>) -> Seq<char> {
    match parent_of(path) {
        Some(parent) => parent,
        None => "."@,
    }
}

/// The directory from which the relative paths of a file are taken.
pub fn base_dir(path: &str) -> (base: String)
    ensures
        base@ == base_of(path@),
{
    match path_parent(path) {
        Some(parent) => parent,
        None => ".".to_owned(),
    }
}

/// Whether a declared repository is taken over with its remote resolved and
/// nothing else changed.
pub open spec fn repository_resolved(
    before: RepositoryConfig,
    after: RepositoryConfig,
    base: Seq<char>,
    home: Option<Seq<char>>,
) -> bool {
    &&& after == (RepositoryConfig { url: after.url, ..before })
    &&& resolved_repository_url(base, before.url@, home) == Ok::<Seq<char>, ErrorModel>(after.url@)
}

/// The workspace root that a configuration file stands for.
pub open spec fn root_of(
    file: ConfigFile,
    base: Seq<char>,
    home: Option<Seq<char>>,
) -> std::result::Result<Seq<char>, ErrorModel> {
    match file.root {
        Some(root) => resolved_path(base, root@, home),
        None => Ok(base),
    }
}

/// The first rule that a configuration file breaks.
pub open spec fn file_problem(
    file: ConfigFile,
    base: Seq<char>,
    home: Option<Seq<char>>,
) -> Option<ErrorModel> {
    if file.version is Some && file.version->0 != CONFIG_VERSION {
        Some(
            ErrorModel::Config(
                "unsupported config version "@ + decimal(file.version->0 as nat) + "; expected "@
                    + decimal(CONFIG_VERSION as nat),
            ),
        )
    } else {
        match root_of(file, base, home) {
            Err(error) => Some(error),
            Ok(_) => match sources_problem(
                file.sources@,
                file.sources@.len() as int,
                base,
                home,
            ) {
                Some(problem) => Some(problem),
                None => repositories_problem(
                    file.repositories@,
                    file.repositories@.len() as int,
                    base,
                    home,
                ),
            },
        }
    }
}

/// A problem among the first sources stays the first problem of all.
proof fn lemma_sources_problem(
    sources: Seq<SourceConfig>,
    count: int,
    base: Seq<char>,
    home: Option<Seq<char>>,
)
    requires
        0 <= count <= sources.len(),
        sources_problem(sources, count, base, home) is Some,
    ensures
        sources_problem(sources, sources.len() as int, base, home) == sources_problem(
            sources,
            count,
            base,
            home,
        ),
    decreases sources.len() - count,
{
    if count < sources.len() {
        lemma_sources_problem(sources, count + 1, base, home);
    }
}

/// A problem among the first repositories stays the first problem of all.
proof fn lemma_repositories_problem(
    repositories: Seq<RepositoryConfig>,
    count: int,
    base: Seq<char>,
    home: Option<Seq<char>>,
)
    requires
        0 <= count <= repositories.len(),
        repositories_problem(repositories, count, base, home) is Some,
    ensures
        repositories_problem(repositories, repositories.len() as int, base, home)
            == repositories_problem(repositories, count, base, home),
    decreases repositories.len() - count,
{
    if count < repositories.len() {
        lemma_repositories_problem(repositories, count + 1, base, home);
    }
}

/// If there is no problem among the first sources, there is none with any of
/// them.
proof fn lemma_no_sources_problem(
    sources: Seq<SourceConfig>,
    count: int,
    base: Seq<char>,
    home: Option<Seq<char>>,
    i: int,
)
    requires
        sources_problem(sources, count, base, home) is None,
        0 <= i < count,
    ensures
        source_problem(sources, i, base, home) is None,
    decreases count,
{
    if i < count - 1 {
        lemma_no_sources_problem(sources, count - 1, base, home, i);
    }
}

/// If there is no problem among the first repositories, there is none with any
/// of them.
proof fn lemma_no_repositories_problem(
    repositories: Seq<RepositoryConfig>,
    count: int,
    base: Seq<char>,
    home: Option<Seq<char>>,
    i: int,
)
    requires
        repositories_problem(repositories, count, base, home) is None,
        0 <= i < count,
    ensures
        repository_problem(repositories, i, base, home) is None,
    decreases count,
{
    if i < count - 1 {
        lemma_no_repositories_problem(repositories, count - 1, base, home, i);
    }
}

/// Checks the sources of a file in order and resolves their paths.
fn load_sources(sources: Vec<SourceConfig>, base: &str, home: Option<&str>) -> (loaded: Result<
    Vec<SourceConfig>,
>)
    ensures
        failure(loaded) == sources_problem(
            sources@,
            sources@.len() as int,
            base@,
            opt_str(home),
        ),
        loaded matches Ok(after) ==> {
            &&& after@.len() == sources@.len()
            &&& forall|i: int|
                0 <= i < after@.len() ==> source_resolved(
                    sources@[i],
                    #[trigger] after@[i],
                    base@,
                    opt_str(home),
                )
        },
{
    let ghost all = sources@;
    let ghost h = opt_str(home);
    let mut loaded: Vec<SourceConfig> = Vec::new();
    let mut seen: Vec<String> = Vec::new();
    for source in it: sources
        invariant
            it.seq() == all,
            h == opt_str(home),
            loaded@.len() == it.index(),
            seen@.len() == it.index(),
            forall|j: int| 0 <= j < it.index() ==> texts(seen@)[j] == #[trigger] all[j].title(),
            sources_problem(all, it.index() as int, base@, h) is None,
            forall|i: int|
                0 <= i < loaded@.len() ==> source_resolved(all[i], #[trigger] loaded@[i], base@, h),
    {
        let ghost k = it.index() as int;
        let name = source.name().to_owned();
        proof {
            assert(source == all[k]);
            assert(sources_problem(all, k + 1, base@, h) == source_problem(all, k, base@, h));
            assert(texts(seen@).contains(name@) <==> exists|j: int|
                0 <= j < k && #[trigger] all[j].title() == name@) by {
                if texts(seen@).contains(name@) {
                    let j = choose|j: int| 0 <= j < seen@.len() && texts(seen@)[j] == name@;
                    assert(all[j].title() == name@);
                }
                if exists|j: int| 0 <= j < k && #[trigger] all[j].title() == name@ {
                    let j = choose|j: int| 0 <= j < k && #[trigger] all[j].title() == name@;
                    assert(texts(seen@)[j] == name@);
                }
            }
        }
        match validate_component(name.as_str(), "source name") {
            Ok(()) => {},
            Err(error) => {
                proof {
                    lemma_sources_problem(all, k + 1, base@, h);
                }
                return Err(error);
            },
        }
        if text_eq(name.as_str(), WORKSPACE_SOURCE_NAME) {
            proof {
                lemma_sources_problem(all, k + 1, base@, h);
            }
            return Err(
                Error::Config(
                    cat4(
                        "source name ",
                        debug_quote(name.as_str()).as_str(),
                        " is reserved for repositories declared directly in ",
                        CONFIG_FILE_NAME,
                    ),
                ),
            );
        }
        if crate::text::list_contains(&seen, name.as_str()) {
            proof {
                lemma_sources_problem(all, k + 1, base@, h);
            }
            return Err(
                Error::Config(cat2("duplicate source name ", debug_quote(name.as_str()).as_str())),
            );
        }
        match resolve_source(source, base, home) {
            Ok(source) => {
                loaded.push(source);
                seen.push(name);
            },
            Err(error) => {
                proof {
                    lemma_sources_problem(all, k + 1, base@, h);
                }
                return Err(error);
            },
        }
    }
    Ok(loaded)
}

/// Checks the declared repositories of a file in order and resolves their
/// remotes.
fn load_repositories(
    repositories: Vec<RepositoryConfig>,
    base: &str,
    home: Option<&str>,
) -> (loaded: Result<Vec<RepositoryConfig>>)
    ensures
        failure(loaded) == repositories_problem(
            repositories@,
            repositories@.len() as int,
            base@,
            opt_str(home),
        ),
        loaded matches Ok(after) ==> {
            &&& after@.len() == repositories@.len()
            &&& forall|i: int|
                0 <= i < after@.len() ==> repository_resolved(
                    repositories@[i],
                    #[trigger] after@[i],
                    base@,
                    opt_str(home),
                )
        },
{
    let ghost all = repositories@;
    let ghost h = opt_str(home);
    let mut loaded: Vec<RepositoryConfig> = Vec::new();
    let mut seen: Vec<String> = Vec::new();
    for repository in it: repositories
        invariant
            it.seq() == all,
            h == opt_str(home),
            loaded@.len() == it.index(),
            seen@.len() == it.index(),
            forall|j: int| 0 <= j < it.index() ==> texts(seen@)[j] == #[trigger] all[j].id@,
            repositories_problem(all, it.index() as int, base@, h) is None,
            forall|i: int|
                0 <= i < loaded@.len() ==> repository_resolved(
                    all[i],
                    #[trigger] loaded@[i],
                    base@,
                    h,
                ),
    {
        let ghost k = it.index() as int;
        let id = repository.id.clone();
        proof {
            assert(repository == all[k]);
            assert(repositories_problem(all, k + 1, base@, h) == repository_problem(
                all,
                k,
                base@,
                h,
            ));
            assert(texts(seen@).contains(id@) <==> exists|j: int|
                0 <= j < k && #[trigger] all[j].id@ == id@) by {
                if texts(seen@).contains(id@) {
                    let j = choose|j: int| 0 <= j < seen@.len() && texts(seen@)[j] == id@;
                    assert(all[j].id@ == id@);
                }
                if exists|j: int| 0 <= j < k && #[trigger] all[j].id@ == id@ {
                    let j = choose|j: int| 0 <= j < k && #[trigger] all[j].id@ == id@;
                    assert(texts(seen@)[j] == id@);
                }
            }
        }
        match validate_repo_name(id.as_str()) {
            Ok(()) => {},
            Err(error) => {
                proof {
                    lemma_repositories_problem(all, k + 1, base@, h);
                }
                return Err(error);
            },
        }
        if crate::text::list_contains(&seen, id.as_str()) {
            proof {
                lemma_repositories_problem(all, k + 1, base@, h);
            }
            return Err(
                Error::Config(
                    cat4(
                        "duplicate repository id ",
                        debug_quote(id.as_str()).as_str(),
                        " in ",
                        CONFIG_FILE_NAME,
                    ),
                ),
            );
        }
        let mut repository = repository;
        match resolve_repository_url(base, repository.url.as_str(), home) {
            Ok(url) => {
                repository.url = url;
                loaded.push(repository);
                seen.push(id);
            },
            Err(error) => {
                proof {
                    lemma_repositories_problem(all, k + 1, base@, h);
                }
                return Err(error);
            },
        }
    }
    Ok(loaded)
}

/// Whether a source that needs a token says where it comes from, in one way.
pub open spec fn names_one_token(source: SourceConfig) -> bool {
    match source {
        SourceConfig::GitHub(config) => config.token is Some != config.token_env is Some,
        SourceConfig::BitbucketServer(config) => config.token is Some != config.token_env is Some,
        SourceConfig::Manifest(_) => true,
    }
}

/// What a file without problems stands for is valid.
proof fn lemma_loaded_is_valid(
    file: ConfigFile,
    config: Config,
    base: Seq<char>,
    home: Option<Seq<char>>,
)
    requires
        file_problem(file, base, home) is None,
        config.sources@.len() == file.sources@.len(),
        forall|i: int|
            0 <= i < config.sources@.len() ==> source_resolved(
                file.sources@[i],
                #[trigger] config.sources@[i],
                base,
                home,
            ),
        config.repositories@.len() == file.repositories@.len(),
        forall|i: int|
            0 <= i < config.repositories@.len() ==> repository_resolved(
                file.repositories@[i],
                #[trigger] config.repositories@[i],
                base,
                home,
            ),
    ensures
        config.valid(),
{
    let sources = file.sources@;
    let repositories = file.repositories@;
    assert forall|i: int| 0 <= i < sources.len() implies {
        &&& source_problem(sources, i, base, home) is None
        &&& (#[trigger] config.sources@[i]).title() == sources[i].title()
        &&& names_one_token(config.sources@[i])
    } by {
        lemma_no_sources_problem(sources, sources.len() as int, base, home, i);
    }
    assert forall|i: int, j: int| 0 <= i < j < sources.len() implies (
    #[trigger] config.sources@[i]).title() != (#[trigger] config.sources@[j]).title() by {
        assert(config.sources@[i].title() == sources[i].title());
        assert(config.sources@[j].title() == sources[j].title());
    }
    assert forall|i: int| 0 <= i < repositories.len() implies {
        &&& repository_problem(repositories, i, base, home) is None
        &&& (#[trigger] config.repositories@[i]).id == repositories[i].id
    } by {
        lemma_no_repositories_problem(repositories, repositories.len() as int, base, home, i);
    }
    assert forall|i: int, j: int| 0 <= i < j < repositories.len() implies (
    #[trigger] config.repositories@[i]).id@ != (#[trigger] config.repositories@[j]).id@ by {
        assert(config.repositories@[i].id == repositories[i].id);
        assert(config.repositories@[j].id == repositories[j].id);
    }
}

impl Config {
    /// Whether a configuration keeps the rules: its sources have different
    /// names, each a single component of a path that is not reserved, and name
    /// one token where they need one; the repositories that it declares have
    /// different identifiers that are safe relative paths.
    pub open spec fn valid(self) -> bool {
        &&& forall|i: int|
            0 <= i < self.sources@.len() ==> {
                &&& valid_component((#[trigger] self.sources@[i]).title())
                &&& self.sources@[i].title() != WORKSPACE_SOURCE_NAME@
                &&& names_one_token(self.sources@[i])
            }
        &&& forall|i: int, j: int|
            0 <= i < j < self.sources@.len() ==> (#[trigger] self.sources@[i]).title() != (
            #[trigger] self.sources@[j]).title()
        &&& forall|i: int|
            0 <= i < self.repositories@.len() ==> valid_repo_name(
                (#[trigger] self.repositories@[i]).id@,
            )
        &&& forall|i: int, j: int|
            0 <= i < j < self.repositories@.len() ==> (#[trigger] self.repositories@[i]).id@ != (
            #[trigger] self.repositories@[j]).id@
    }

    /// The configuration that a file stands for: `path` is the place of the
    /// file, from whose directory relative paths are taken, and `home` the
    /// home directory of the user.
    pub fn load(path: &str, home: Option<&str>, file: ConfigFile) -> (config: Result<Config>)
        ensures
            failure(config) == file_problem(file, base_of(path@), opt_str(home)),
            config matches Ok(config) ==> {
                let base = base_of(path@);
                let home = opt_str(home);
                &&& config.valid()
                &&& root_of(file, base, home) == Ok::<Seq<char>, ErrorModel>(config.root@)
                &&& config.sources@.len() == file.sources@.len()
                &&& forall|i: int|
                    0 <= i < config.sources@.len() ==> source_resolved(
                        file.sources@[i],
                        #[trigger] config.sources@[i],
                        base,
                        home,
                    )
                &&& config.repositories@.len() == file.repositories@.len()
                &&& forall|i: int|
                    0 <= i < config.repositories@.len() ==> repository_resolved(
                        file.repositories@[i],
                        #[trigger] config.repositories@[i],
                        base,
                        home,
                    )
            },
    {
        match file.version {
            Some(version) => {
                if version != CONFIG_VERSION {
                    return Err(
                        Error::Config(
                            cat4(
                                "unsupported config version ",
                                decimal_text(version as u64).as_str(),
                                "; expected ",
                                decimal_text(CONFIG_VERSION as u64).as_str(),
                            ),
                        ),
                    );
                }
            },
            None => {},
        }
        let base = base_dir(path);
        let root = match &file.root {
            Some(root) => match resolve_path(base.as_str(), root.as_str(), home) {
                Ok(root) => root,
                Err(error) => return Err(error),
            },
            None => base.clone(),
        };
        let sources = match load_sources(file.sources, base.as_str(), home) {
            Ok(sources) => sources,
            Err(error) => return Err(error),
        };
        let repositories = match load_repositories(file.repositories, base.as_str(), home) {
            Ok(repositories) => repositories,
            Err(error) => return Err(error),
        };
        let config = Config { root, sources, repositories };
        proof {
            lemma_loaded_is_valid(file, config, base@, opt_str(home));
        }
        Ok(config)
    }

    /// The directory of the state database, the lock and temporary clones.
    pub fn state_dir(&self) -> (path: String)
        ensures
            path@ == joined(self.root@, ".multi-repo"@),
    {
        path_join(self.root.as_str(), ".multi-repo")
    }

    /// The directory of the working trees.
    pub fn repos_dir(&self) -> (path: String)
        ensures
            path@ == joined(self.root@, "repos"@),
    {
        path_join(self.root.as_str(), "repos")
    }
}

/// What is found at a place where a configuration file may be.
#[derive(Debug, PartialEq, Eq)]
pub enum FileProbe {
    /// A regular file.
    RegularFile,
    /// Something else.
    OtherKind,
    /// Nothing.
    Missing,
    /// The place could not be looked at, for the given reason.
    Unreadable(String),
}

/// The next step of the search for a configuration file.
#[derive(Debug, PartialEq, Eq)]
pub enum ConfigSearch {
    /// Look at this place.
    Probe(String),
    /// This is the configuration file.
    Found(String),
    /// There is none, or the search cannot go on.
    Failed(Error),
}

/// A directory some levels above another, if there is one.
pub open spec fn ancestor(start: Seq<char>, level: nat) -> Option<Seq<char>>
    decreases level,
{
    if level == 0 {
        Some(start)
    } else {
        match ancestor(start, (level - 1) as nat) {
            Some(below) => parent_of(below),
            None => None,
        }
    }
}

/// The place of a configuration file some levels above a directory.
pub open spec fn candidate(start: Seq<char>, level: nat) -> Option<Seq<char>> {
    match ancestor(start, level) {
        Some(directory) => Some(joined(directory, CONFIG_FILE_NAME@)),
        None => None,
    }
}

/// Whether a search that knows what is at the first places from `level` on
/// gives the described step.
pub open spec fn search_from(
    start: Seq<char>,
    probes: Seq<FileProbe>,
    level: nat,
    step: ConfigSearch,
) -> bool
    decreases probes.len() - level,
{
    match candidate(start, level) {
        None => step matches ConfigSearch::Failed(error) && error@ == ErrorModel::Config(
            "no "@ + CONFIG_FILE_NAME@ + " found in "@ + start
                + " or its parents; use --config PATH to select one explicitly"@,
        ),
        Some(place) => if level >= probes.len() {
            step matches ConfigSearch::Probe(next) && next@ == place
        } else {
            match probes[level as int] {
                FileProbe::RegularFile => step matches ConfigSearch::Found(path) && path@ == place,
                FileProbe::OtherKind => step matches ConfigSearch::Failed(error) && error@
                    == ErrorModel::Config(
                    "workspace configuration "@ + place + " is not a regular file"@,
                ),
                FileProbe::Missing => search_from(start, probes, level + 1, step),
                FileProbe::Unreadable(reason) => step matches ConfigSearch::Failed(error) && error@
                    == ErrorModel::Read { path: place, source: reason@ },
            }
        },
    }
}

/// Looks for the configuration file in a directory and its parents. `probes`
/// holds what was found at the places that were looked at so far, from the
/// directory upwards.
pub fn find_config(start: &str, probes: &Vec<FileProbe>) -> (step: ConfigSearch)
    ensures
        search_from(start@, probes@, 0, step),
{
    let mut directory = start.to_owned();
    let mut level: usize = 0;
    loop
        invariant
            level <= probes@.len(),
            ancestor(start@, level as nat) == Some(directory@),
            forall|step: ConfigSearch|
                #[trigger] search_from(start@, probes@, level as nat, step) ==> search_from(
                    start@,
                    probes@,
                    0,
                    step,
                ),
        decreases probes@.len() - level,
    {
        let place = path_join(directory.as_str(), CONFIG_FILE_NAME);
        proof {
            assert(candidate(start@, level as nat) == Some(place@));
        }
        if level >= probes.len() {
            let step = ConfigSearch::Probe(place);
            assert(search_from(start@, probes@, level as nat, step));
            return step;
        }
        match &probes[level] {
            FileProbe::RegularFile => {
                let step = ConfigSearch::Found(place);
                assert(search_from(start@, probes@, level as nat, step));
                return step;
            },
            FileProbe::OtherKind => {
                let step = ConfigSearch::Failed(
                    Error::Config(
                        cat3("workspace configuration ", place.as_str(), " is not a regular file"),
                    ),
                );
                assert(search_from(start@, probes@, level as nat, step));
                return step;
            },
            FileProbe::Missing => {},
            FileProbe::Unreadable(reason) => {
                let step = ConfigSearch::Failed(
                    Error::Read { path: place, source: reason.clone() },
                );
                assert(search_from(start@, probes@, level as nat, step));
                return step;
            },
        }
        match path_parent(directory.as_str()) {
            Some(parent) => {
                proof {
                    assert(ancestor(start@, (level + 1) as nat) == parent_of(directory@));
                    assert forall|step: ConfigSearch| #[trigger]
                        search_from(start@, probes@, (level + 1) as nat, step) implies search_from(
                        start@,
                        probes@,
                        0,
                        step,
                    ) by {
                        assert(search_from(start@, probes@, level as nat, step));
                    }
                }
                directory = parent;
            },
            None => {
                let step = ConfigSearch::Failed(
                    Error::Config(
                        crate::text::cat5(
                            "no ",
                            CONFIG_FILE_NAME,
                            " found in ",
                            start,
                            " or its parents; use --config PATH to select one explicitly",
                        ),
                    ),
                );
                proof {
                    assert(ancestor(start@, (level + 1) as nat) is None);
                    assert(search_from(start@, probes@, (level + 1) as nat, step));
                    assert(search_from(start@, probes@, level as nat, step));
                }
                return step;
            },
        }
        level += 1;
    }
}

/// The configuration file that is found is the nearest one: there is none in
/// any directory below its own.
pub proof fn law_the_nearest_configuration_is_found(
    start: Seq<char>,
    probes: Seq<FileProbe>,
    step: ConfigSearch,
)
    requires
        search_from(start, probes, 0, step),
        step is Found,
    ensures
        exists|level: int|
            {
                &&& 0 <= level < probes.len()
                &&& #[trigger] probes[level] is RegularFile
                &&& candidate(start, level as nat) == Some(step->Found_0@)
                &&& forall|below: int| 0 <= below < level ==> #[trigger] probes[below] is Missing
            },
{
    lemma_nearest_from(start, probes, 0, step);
}

/// The configuration file that is found from a level on is the nearest one.
proof fn lemma_nearest_from(
    start: Seq<char>,
    probes: Seq<FileProbe>,
    from: nat,
    step: ConfigSearch,
)
    requires
        search_from(start, probes, from, step),
        step is Found,
        forall|below: int| 0 <= below < from ==> #[trigger] probes[below] is Missing,
    ensures
        exists|level: int|
            {
                &&& 0 <= level < probes.len()
                &&& #[trigger] probes[level] is RegularFile
                &&& candidate(start, level as nat) == Some(step->Found_0@)
                &&& forall|below: int| 0 <= below < level ==> #[trigger] probes[below] is Missing
            },
    decreases probes.len() - from,
{
    if probes[from as int] is Missing {
        lemma_nearest_from(start, probes, from + 1, step);
    } else {
        assert(probes[from as int] is RegularFile);
    }
}

/// The working tree of a repository with a valid identifier lies below the
/// directory of the working trees: it adds the pieces of the identifier to the
/// components of that directory and nothing else.
pub proof fn law_valid_names_stay_inside(repos_dir: Seq<char>, id: Seq<char>)
    requires
        valid_repo_name(id),
    ensures
        components(joined(repos_dir, id)) == components(repos_dir) + split(id, '/'),
        within(joined(repos_dir, id), repos_dir),
        components(joined(repos_dir, id)).len() > components(repos_dir).len(),
{
    reveal_strlit(".");
    assert("."@ =~= seq!['.']);
    crate::text::lemma_split_nonempty(id, '/');
    lemma_joined_components(repos_dir, id);
    let whole = components(repos_dir) + split(id, '/');
    assert(whole.subrange(0, components(repos_dir).len() as int) =~= components(repos_dir));
}

/// Different valid identifiers have different working trees.
pub proof fn law_working_trees_differ(repos_dir: Seq<char>, left: Seq<char>, right: Seq<char>)
    requires
        valid_repo_name(left),
        valid_repo_name(right),
        components(joined(repos_dir, left)) == components(joined(repos_dir, right)),
    ensures
        left == right,
{
    law_valid_names_stay_inside(repos_dir, left);
    law_valid_names_stay_inside(repos_dir, right);
    let base = components(repos_dir);
    let l = split(left, '/');
    let r = split(right, '/');
    assert((base + l).len() == (base + r).len());
    assert forall|i: int| 0 <= i < l.len() implies l[i] == r[i] by {
        assert((base + l)[base.len() + i] == l[i]);
        assert((base + r)[base.len() + i] == r[i]);
    }
    assert(l =~= r);
    law_join_undoes_split(left, '/');
    law_join_undoes_split(right, '/');
}

}

//! What holds of configurations, of paths and of remotes.

use vstd::prelude::*;

use crate::config::{
    Config, ConfigFile, ConfigSearch, FileProbe, RepositoryConfig, SourceConfig, candidate,
    file_problem, repositories_problem, repository_problem, repository_resolved, resolved_path,
    resolved_repository_url, root_of, search_from, source_problem, source_resolved, sources_problem,
    token_of, token_problem, valid_component, valid_repo_name,
};
use crate::error::{ErrorModel, Result};
use crate::path::{
    absolute, behind_first, components, is_name, joined, last_name, next_name, parent_of, within,
};
use crate::text::{
    debug_text, decimal, has_part, law_join_undoes_split, lemma_split_concat, lemma_split_nonempty,
    parted_first, split, trimmed,
};

verus! {

/// A name that can be the identifier of a repository is a relative path that
/// leads neither up nor nowhere: it is not empty, has no backslash and no zero
/// character, and no piece between its slashes is empty, `.` or `..`; and every
/// such name can be one.
pub proof fn law_safe_names(name: Seq<char>)
    ensures
        valid_repo_name(name) <==> {
            &&& !name.contains('\\')
            &&& !name.contains('\0')
            &&& forall|i: int|
                0 <= i < split(name, '/').len() ==> (#[trigger] split(name, '/')[i]).len() > 0
                    && split(name, '/')[i] != "."@ && split(name, '/')[i] != ".."@
        },
        valid_repo_name(name) ==> name.len() > 0,
{
    crate::config::lemma_piece_chars(name, '/', '\\');
    crate::config::lemma_piece_chars(name, '/', '\0');
    crate::config::lemma_pieces_without_separator(name, '/');
    lemma_split_nonempty(name, '/');
    let pieces = split(name, '/');
    if valid_repo_name(name) {
        assert(valid_component(pieces[0]));
        assert forall|i: int| 0 <= i < pieces.len() implies (#[trigger] pieces[i]).len() > 0
            && pieces[i] != "."@ && pieces[i] != ".."@ by {
            assert(valid_component(pieces[i]));
        }
        assert forall|i: int| 0 <= i < pieces.len() implies !(#[trigger] pieces[i]).contains('\\')
            && !pieces[i].contains('\0') by {
            assert(valid_component(pieces[i]));
        }
        if name.len() == 0 {
            assert(pieces[0] =~= Seq::empty());
        }
    }
}

/// A name can be that of a source if and only if it is a single name.
pub proof fn law_single_names(value: Seq<char>)
    ensures
        valid_component(value) <==> value.len() > 0 && value != "."@ && value != ".."@
            && !value.contains('/') && !value.contains('\\') && !value.contains('\0'),
{
}

/// Pieces that all name something are joined to a path with those names.
pub open spec fn is_plain(path: Seq<char>) -> bool {
    forall|i: int|
        0 <= i < split(path, '/').len() ==> (#[trigger] split(path, '/')[i]).len() > 0 && split(
            path,
            '/',
        )[i] != seq!['.']
}

/// The components of a plain path are its pieces; below a directory they come
/// behind those of the directory, so that it lies within it.
pub proof fn law_plain_paths_add_their_names(base: Seq<char>, path: Seq<char>)
    requires
        is_plain(path),
    ensures
        components(path) == split(path, '/'),
        components(joined(base, path)) == components(base) + split(path, '/'),
        within(joined(base, path), base),
        within(base, base),
        !within(base, joined(base, path)),
        components(seq!['/'] + path) == seq![seq!['/']] + split(path, '/'),
{
    crate::path::lemma_joined_components(base, path);
    crate::path::lemma_joined_components(Seq::empty(), path);
    crate::path::lemma_joined_components(seq!['/'], path);
    lemma_split_nonempty(path, '/');
    let nothing = Seq::<char>::empty();
    assert(split(nothing, '/') =~= seq![nothing]);
    assert(split(nothing, '/').drop_last() =~= Seq::empty());
    assert(!is_name(split(nothing, '/'), 0, '.'));
    assert(crate::path::names(split(nothing, '/').drop_last(), '.') =~= Seq::empty());
    assert(crate::path::names(split(nothing, '/'), '.') =~= Seq::empty());
    assert(components(nothing) =~= Seq::empty());
    lemma_not_absolute(path);
    assert(joined(nothing, path) =~= path);
    assert(components(nothing) + split(path, '/') =~= split(path, '/'));
    let root = seq!['/'];
    assert(root.drop_last() =~= nothing);
    assert(split(root, '/') =~= seq![nothing, nothing]);
    assert(split(root, '/').drop_last() =~= seq![nothing]);
    assert(crate::path::names(split(root, '/'), '.') =~= Seq::empty());
    assert(components(root) =~= seq![seq!['/']]);
    assert(joined(root, path) =~= root + path);
    let whole = components(base) + split(path, '/');
    assert(whole.subrange(0, components(base).len() as int) =~= components(base));
    assert(components(base).subrange(0, components(base).len() as int) =~= components(base));
}

/// A plain path is a relative one.
proof fn lemma_not_absolute(path: Seq<char>)
    requires
        is_plain(path),
    ensures
        !absolute(path),
        path.len() > 0,
{
    lemma_split_nonempty(path, '/');
    let nothing = Seq::<char>::empty();
    if path.len() == 0 {
        assert(split(path, '/')[0] =~= nothing);
    }
    if absolute(path) {
        let rest = path.subrange(1, path.len() as int);
        lemma_split_concat(nothing, rest, '/');
        assert(nothing.push('/') + rest =~= path);
        assert(split(nothing, '/')[0] =~= nothing);
        assert(split(path, '/')[0].len() == 0);
    }
}

/// An absolute path stays as it is; a relative one is taken from the base.
pub proof fn law_relative_paths_are_taken_from_the_base(base: Seq<char>, path: Seq<char>)
    ensures
        absolute(path) ==> joined(base, path) == path,
        !absolute(path) && base.len() > 0 && base.last() != '/' ==> joined(base, path) == base
            + "/"@ + path,
        !absolute(path) && base.len() > 0 && base.last() == '/' ==> joined(base, path) == base
            + path,
        !absolute(path) && base.len() == 0 ==> joined(base, path) == path,
{
    reveal_strlit("/");
    assert(base.push('/') + path =~= base + "/"@ + path);
    if base.len() == 0 {
        assert(base + path =~= path);
    }
}

/// Whether every piece of a path names something.
proof fn lemma_all_names(pieces: Seq<Seq<char>>, count: int)
    requires
        0 < count <= pieces.len(),
        forall|i: int|
            0 <= i < pieces.len() ==> (#[trigger] pieces[i]).len() > 0 && pieces[i] != seq!['.'],
    ensures
        last_name(pieces, count, '.') == count - 1,
        next_name(pieces, count - 1, '.') == count - 1,
{
    assert(is_name(pieces, count - 1, '.'));
}

/// The names of a plain path in which each is itself.
proof fn lemma_behind_first(first: Seq<char>, rest: Seq<char>)
    requires
        is_plain(rest),
        first.len() > 0,
        first != seq!['.'],
        !first.contains('/'),
    ensures
        behind_first(first + "/"@ + rest) == rest,
        split(first + "/"@ + rest, '/') == seq![first] + split(rest, '/'),
{
    reveal_strlit("/");
    let path = first + "/"@ + rest;
    assert(path =~= first.push('/') + rest);
    lemma_split_concat(first, rest, '/');
    crate::provider::lemma_one_piece(first, '/');
    let pieces = split(path, '/');
    assert(pieces =~= seq![first] + split(rest, '/'));
    lemma_split_nonempty(rest, '/');
    assert forall|i: int| 0 <= i < pieces.len() implies (#[trigger] pieces[i]).len() > 0
        && pieces[i] != seq!['.'] by {
        if i > 0 {
            assert(pieces[i] == split(rest, '/')[i - 1]);
        }
    }
    lemma_all_names(pieces, pieces.len() as int);
    lemma_all_names(pieces, 2);
    assert(pieces.subrange(1, pieces.len() as int) =~= split(rest, '/'));
    law_join_undoes_split(rest, '/');
}

/// The paths of a configuration: an absolute one stays; `~` is the home
/// directory and what stands behind `~/` lies below it; and any other relative
/// one is taken from the base.
pub proof fn law_paths_are_resolved(base: Seq<char>, path: Seq<char>, home: Seq<char>)
    requires
        absolute(home),
        home.last() != '/',
    ensures
        absolute(path) ==> resolved_path(base, path, Some(home)) == Ok::<Seq<char>, ErrorModel>(
            path,
        ) && resolved_path(base, path, None) == Ok::<Seq<char>, ErrorModel>(path),
        resolved_path(base, "~"@, Some(home)) == Ok::<Seq<char>, ErrorModel>(home),
        resolved_path(base, "~"@, None) == Err::<Seq<char>, ErrorModel>(
            ErrorModel::Config("cannot determine home directory"@),
        ),
        is_plain(path) ==> resolved_path(base, "~"@ + "/"@ + path, Some(home)) == Ok::<
            Seq<char>,
            ErrorModel,
        >(home + "/"@ + path) && resolved_path(base, "~"@ + "/"@ + path, None) == Err::<
            Seq<char>,
            ErrorModel,
        >(ErrorModel::Config("cannot determine home directory"@)),
        is_plain(path) && split(path, '/')[0] != "~"@ ==> resolved_path(base, path, Some(home))
            == Ok::<Seq<char>, ErrorModel>(joined(base, path)) && resolved_path(base, path, None)
            == Ok::<Seq<char>, ErrorModel>(joined(base, path)),
{
    reveal_strlit("~");
    reveal_strlit("/");
    let tilde = "~"@;
    assert(tilde =~= seq!['~']);
    if absolute(path) {
        assert(components(path)[0] == seq!['/']);
        assert(seq!['/'][0] != tilde[0]);
    }
    assert(!tilde.contains('/'));
    crate::provider::lemma_one_piece(tilde, '/');
    assert(split(tilde, '/') == seq![tilde]);
    assert(is_plain(tilde)) by {
        assert(tilde != seq!['.']) by {
            assert(tilde[0] != seq!['.'][0]);
        }
    }
    law_plain_paths_add_their_names(base, tilde);
    if is_plain(path) {
        law_plain_paths_add_their_names(base, path);
        lemma_split_nonempty(path, '/');
        lemma_behind_first(tilde, path);
        let whole = tilde + "/"@ + path;
        assert forall|i: int| 0 <= i < split(whole, '/').len() implies (
        #[trigger] split(whole, '/')[i]).len() > 0 && split(whole, '/')[i] != seq!['.'] by {
            if i > 0 {
                assert(split(whole, '/')[i] == split(path, '/')[i - 1]);
            } else {
                assert(tilde[0] != seq!['.'][0]);
            }
        }
        law_plain_paths_add_their_names(base, whole);
        assert(components(whole)[0] == tilde);
        assert(components(whole).len() > 1);
        lemma_not_absolute(path);
        law_relative_paths_are_taken_from_the_base(home, path);
        assert(absolute(joined(home, path))) by {
            assert(joined(home, path)[0] == home[0]);
        }
    }
}

/// The remote of a declared repository: a URL and the remote of another host
/// stay as they are, without white space around them; anything else is a path;
/// and there has to be one.
pub proof fn law_declared_remotes_are_resolved(
    base: Seq<char>,
    value: Seq<char>,
    home: Option<Seq<char>>,
)
    ensures
        trimmed(value).len() == 0 ==> resolved_repository_url(base, value, home) == Err::<
            Seq<char>,
            ErrorModel,
        >(ErrorModel::Config("repository URL cannot be empty"@)),
        trimmed(value).len() > 0 && has_part(trimmed(value), "://"@) ==> resolved_repository_url(
            base,
            value,
            home,
        ) == Ok::<Seq<char>, ErrorModel>(trimmed(value)),
        trimmed(value).len() > 0 && !absolute(trimmed(value)) && (parted_first(
            trimmed(value),
            ':',
        ) matches Some((host, path)) && !host.contains('/') && !host.contains('\\') && path.len()
            > 0) ==> resolved_repository_url(base, value, home) == Ok::<Seq<char>, ErrorModel>(
            trimmed(value),
        ),
        trimmed(value).len() > 0 && !has_part(trimmed(value), "://"@) && (absolute(trimmed(value))
            || parted_first(trimmed(value), ':') is None) ==> resolved_repository_url(
            base,
            value,
            home,
        ) == resolved_path(base, trimmed(value), home),
{
}

/// A source names exactly one of a token and the environment variable that holds
/// it; the token itself is used where it is named, else what the environment
/// holds, which has to be there.
pub proof fn law_tokens_are_named_once(
    name: Seq<char>,
    token: Option<String>,
    token_env: Option<String>,
    environment: Option<Seq<char>>,
)
    ensures
        token_problem(name, token, token_env) is None <==> (token is Some && token_env is None)
            || (token is None && token_env is Some),
        token_problem(name, token, token_env) matches Some(problem) ==> problem
            == ErrorModel::Config(
            "source "@ + debug_text(name) + " must set exactly one of token and token_env"@,
        ),
        token matches Some(own) ==> token_of(token, token_env, environment) == Ok::<
            Seq<char>,
            ErrorModel,
        >(own@),
        token is None ==> (environment matches Some(value) ==> token_of(
            token,
            token_env,
            environment,
        ) == Ok::<Seq<char>, ErrorModel>(value)),
        token is None && environment is None ==> (token_env matches Some(variable) ==> token_of(
            token,
            token_env,
            environment,
        ) == Err::<Seq<char>, ErrorModel>(
            ErrorModel::Config(
                "token environment variable "@ + debug_text(variable@) + " is not set"@,
            ),
        )),
{
}

/// The first problem of the sources.
proof fn lemma_sources(
    sources: Seq<SourceConfig>,
    count: int,
    base: Seq<char>,
    home: Option<Seq<char>>,
)
    requires
        0 <= count <= sources.len(),
    ensures
        sources_problem(sources, count, base, home) is None <==> forall|i: int|
            #![trigger sources[i]]
            0 <= i < count ==> source_problem(sources, i, base, home) is None,
    decreases count,
{
    if count > 0 {
        lemma_sources(sources, count - 1, base, home);
        let last = sources[count - 1];
    }
}

/// The first problem of the declared repositories.
proof fn lemma_repositories(
    repositories: Seq<RepositoryConfig>,
    count: int,
    base: Seq<char>,
    home: Option<Seq<char>>,
)
    requires
        0 <= count <= repositories.len(),
    ensures
        repositories_problem(repositories, count, base, home) is None <==> forall|i: int|
            #![trigger repositories[i]]
            0 <= i < count ==> repository_problem(repositories, i, base, home) is None,
    decreases count,
{
    if count > 0 {
        lemma_repositories(repositories, count - 1, base, home);
        let last = repositories[count - 1];
    }
}

/// The name of a source.
pub open spec fn name_of(source: SourceConfig) -> Seq<char> {
    match source {
        SourceConfig::GitHub(config) => config.name@,
        SourceConfig::BitbucketServer(config) => config.name@,
        SourceConfig::Manifest(config) => config.name@,
    }
}

/// Whether the settings of a source are in order: it names one token where it
/// needs one, and its paths can be resolved.
pub open spec fn is_in_order(
    source: SourceConfig,
    base: Seq<char>,
    home: Option<Seq<char>>,
) -> bool {
    match source {
        SourceConfig::GitHub(config) => config.token is Some <==> config.token_env is None,
        SourceConfig::BitbucketServer(config) => {
            &&& config.token is Some <==> config.token_env is None
            &&& config.ca_bundle matches Some(bundle) ==> resolved_path(base, bundle@, home) is Ok
        },
        SourceConfig::Manifest(config) => resolved_path(base, config.path@, home) is Ok,
    }
}

/// A configuration file is accepted if and only if it is of the known version or
/// names none, its root can be resolved, its sources have different single names
/// that are not reserved and are in order, and its repositories have different
/// safe names and remotes that can be resolved.
pub proof fn law_good_files_are_accepted(
    file: ConfigFile,
    base: Seq<char>,
    home: Option<Seq<char>>,
)
    ensures
        file_problem(file, base, home) is None <==> {
            &&& file.version matches Some(version) ==> version == 1
            &&& file.root matches Some(root) ==> resolved_path(base, root@, home) is Ok
            &&& forall|i: int|
                0 <= i < file.sources@.len() ==> {
                    &&& valid_component(name_of(#[trigger] file.sources@[i]))
                    &&& name_of(file.sources@[i]) != "workspace"@
                    &&& is_in_order(file.sources@[i], base, home)
                }
            &&& forall|i: int, j: int|
                0 <= i < j < file.sources@.len() ==> name_of(#[trigger] file.sources@[i])
                    != name_of(#[trigger] file.sources@[j])
            &&& forall|i: int|
                0 <= i < file.repositories@.len() ==> {
                    &&& valid_repo_name((#[trigger] file.repositories@[i]).id@)
                    &&& resolved_repository_url(base, file.repositories@[i].url@, home) is Ok
                }
            &&& forall|i: int, j: int|
                0 <= i < j < file.repositories@.len() ==> (#[trigger] file.repositories@[i]).id@
                    != (#[trigger] file.repositories@[j]).id@
        },
{
    let sources = file.sources@;
    let repositories = file.repositories@;
    lemma_sources(sources, sources.len() as int, base, home);
    lemma_repositories(repositories, repositories.len() as int, base, home);
    assert forall|i: int| #![trigger sources[i]] 0 <= i < sources.len() implies (
    source_problem(sources, i, base, home) is None <==> {
        &&& valid_component(name_of(sources[i]))
        &&& name_of(sources[i]) != "workspace"@
        &&& forall|j: int| 0 <= j < i ==> name_of(#[trigger] sources[j]) != name_of(sources[i])
        &&& is_in_order(sources[i], base, home)
    }) by {
        assert(sources[i].title() == name_of(sources[i]));
        if source_problem(sources, i, base, home) is None {
            assert forall|j: int| 0 <= j < i implies name_of(#[trigger] sources[j]) != name_of(
                sources[i],
            ) by {
                assert(sources[j].title() == name_of(sources[j]));
            }
        }
    }
    if file_problem(file, base, home) is None {
        assert forall|i: int| 0 <= i < sources.len() implies {
            &&& valid_component(name_of(#[trigger] sources[i]))
            &&& name_of(sources[i]) != "workspace"@
            &&& is_in_order(sources[i], base, home)
        } by {
            assert(source_problem(sources, i, base, home) is None);
        }
        assert forall|i: int, j: int| 0 <= i < j < sources.len() implies name_of(
            #[trigger] sources[i],
        ) != name_of(#[trigger] sources[j]) by {
            assert(source_problem(sources, j, base, home) is None);
        }
        assert forall|i: int| 0 <= i < repositories.len() implies {
            &&& valid_repo_name((#[trigger] repositories[i]).id@)
            &&& resolved_repository_url(base, repositories[i].url@, home) is Ok
        } by {
            assert(repository_problem(repositories, i, base, home) is None);
        }
        assert forall|i: int, j: int| 0 <= i < j < repositories.len() implies (
        #[trigger] repositories[i]).id@ != (#[trigger] repositories[j]).id@ by {
            assert(repository_problem(repositories, j, base, home) is None);
        }
    }
}

/// What is wrong with a file is said: an unknown version, a name that is no
/// single name or is reserved or was given before, an identifier that was
/// declared before.
pub proof fn law_bad_files_are_told_why(
    file: ConfigFile,
    sources: Seq<SourceConfig>,
    repositories: Seq<RepositoryConfig>,
    base: Seq<char>,
    home: Option<Seq<char>>,
    i: int,
    j: int,
)
    ensures
        (file.version matches Some(version) && version != 1) ==> file_problem(file, base, home)
            == Some(
            ErrorModel::Config(
                "unsupported config version "@ + decimal(file.version->0 as nat) + "; expected "@
                    + decimal(1),
            ),
        ),
        !valid_component(name_of(sources[i])) ==> source_problem(sources, i, base, home) == Some(
            ErrorModel::Config("invalid "@ + "source name"@ + " "@ + debug_text(name_of(sources[i]))),
        ),
        0 <= j < i && valid_component(name_of(sources[i])) && name_of(sources[i]) != "workspace"@
            && name_of(sources[j]) == name_of(sources[i]) ==> source_problem(sources, i, base, home)
            == Some(ErrorModel::Config("duplicate source name "@ + debug_text(name_of(sources[i])))),
        0 <= j < i && valid_repo_name(repositories[i].id@) && repositories[j].id@
            == repositories[i].id@ ==> repository_problem(repositories, i, base, home) == Some(
            ErrorModel::Config(
                "duplicate repository id "@ + debug_text(repositories[i].id@) + " in "@
                    + ".multi-repo.toml"@,
            ),
        ),
{
    assert(sources[i].title() == name_of(sources[i]));
    assert(sources[j].title() == name_of(sources[j]));
    if 0 <= j < i && repositories[j].id@ == repositories[i].id@ {
        assert(exists|k: int| 0 <= k < i && #[trigger] repositories[k].id@ == repositories[i].id@);
    }
}

/// A source that is taken over keeps all but its paths, which are resolved.
pub proof fn law_sources_keep_their_settings(
    before: SourceConfig,
    after: SourceConfig,
    base: Seq<char>,
    home: Option<Seq<char>>,
)
    requires
        source_resolved(before, after, base, home),
    ensures
        name_of(after) == name_of(before),
        before is GitHub ==> after == before,
        before matches SourceConfig::BitbucketServer(old) ==> {
            &&& after matches SourceConfig::BitbucketServer(new)
            &&& new.name == old.name && new.base_url == old.base_url && new.token == old.token
                && new.token_env == old.token_env && new.clone_protocol == old.clone_protocol
                && new.projects == old.projects && new.includes == old.includes && new.excludes
                == old.excludes && new.include_archived == old.include_archived && new.tags
                == old.tags && new.fetch_all_branches == old.fetch_all_branches
            &&& old.ca_bundle is None ==> new.ca_bundle is None
        },
        before matches SourceConfig::Manifest(old) ==> {
            &&& after matches SourceConfig::Manifest(new)
            &&& new.name == old.name && new.tags == old.tags && new.fetch_all_branches
                == old.fetch_all_branches
            &&& resolved_path(base, old.path@, home) == Ok::<Seq<char>, ErrorModel>(new.path@)
        },
{
}

/// A repository that is taken over keeps all but its remote, which is resolved;
/// and the workspace is the directory of the file unless it names another one.
pub proof fn law_repositories_keep_their_settings(
    before: RepositoryConfig,
    after: RepositoryConfig,
    file: ConfigFile,
    base: Seq<char>,
    home: Option<Seq<char>>,
)
    requires
        repository_resolved(before, after, base, home),
    ensures
        after.id == before.id,
        after.default_branch == before.default_branch,
        after.tags == before.tags,
        resolved_repository_url(base, before.url@, home) == Ok::<Seq<char>, ErrorModel>(after.url@),
        file.root is None ==> root_of(file, base, home) == Ok::<Seq<char>, ErrorModel>(base),
        file.root matches Some(root) ==> root_of(file, base, home) == resolved_path(
            base,
            root@,
            home,
        ),
{
}

/// The search for a configuration goes upwards: where the first places have no
/// file and the next one has a regular one, that is found; something else there
/// ends the search with an error; and where nothing is known of it yet, it is
/// looked at next.
pub proof fn law_configurations_are_looked_for_upwards(
    start: Seq<char>,
    probes: Seq<FileProbe>,
    step: ConfigSearch,
    level: nat,
    place: Seq<char>,
)
    requires
        search_from(start, probes, 0, step),
        level <= probes.len(),
        forall|i: int| 0 <= i < level ==> #[trigger] probes[i] is Missing,
        forall|i: nat| i < level ==> #[trigger] candidate(start, i) is Some,
    ensures
        candidate(start, level) == Some(place) ==> {
            &&& level == probes.len() ==> (step matches ConfigSearch::Probe(next) && next@ == place)
            &&& level < probes.len() && probes[level as int] is RegularFile ==> (
            step matches ConfigSearch::Found(path) && path@ == place)
            &&& level < probes.len() && probes[level as int] is OtherKind ==> (
            step matches ConfigSearch::Failed(error) && error@ == ErrorModel::Config(
                "workspace configuration "@ + place + " is not a regular file"@,
            ))
            &&& level < probes.len() && probes[level as int] is Unreadable ==> (
            step matches ConfigSearch::Failed(error) && error@ is Read)
        },
        candidate(start, level) is None ==> (step matches ConfigSearch::Failed(error) && error@
            == ErrorModel::Config(
            "no "@ + ".multi-repo.toml"@ + " found in "@ + start
                + " or its parents; use --config PATH to select one explicitly"@,
        )),
{
    lemma_search_upwards(start, probes, step, 0, level);
}

/// The search from a level on is the search from the next one with a file.
proof fn lemma_search_upwards(
    start: Seq<char>,
    probes: Seq<FileProbe>,
    step: ConfigSearch,
    from: nat,
    level: nat,
)
    requires
        search_from(start, probes, from, step),
        from <= level <= probes.len(),
        forall|i: int| from <= i < level ==> #[trigger] probes[i] is Missing,
        forall|i: nat| i < level ==> #[trigger] candidate(start, i) is Some,
    ensures
        search_from(start, probes, level, step),
    decreases level - from,
{
    if from < level {
        assert(probes[from as int] is Missing);
        assert(candidate(start, from) is Some);
        lemma_search_upwards(start, probes, step, from + 1, level);
    }
}

/// The directory above a plain path is that path without its last name.
pub proof fn law_parents_lose_the_last_name(directory: Seq<char>, name: Seq<char>)
    requires
        is_plain(directory),
        name.len() > 0,
        name != seq!['.'],
        !name.contains('/'),
    ensures
        parent_of(directory + "/"@ + name) == Some(directory),
        parent_of("/"@ + directory + "/"@ + name) == Some("/"@ + directory),
        parent_of("/"@ + name) == Some("/"@),
        parent_of("/"@) is None,
{
    reveal_strlit("/");
    let nothing = Seq::<char>::empty();
    crate::provider::lemma_one_piece(name, '/');
    lemma_split_nonempty(directory, '/');
    let pieces = split(directory, '/');
    let path = directory + "/"@ + name;
    assert(path =~= directory.push('/') + name);
    lemma_split_concat(directory, name, '/');
    let all = split(path, '/');
    assert(all =~= pieces.push(name));
    assert forall|i: int| 0 <= i < all.len() implies (#[trigger] all[i]).len() > 0 && all[i]
        != seq!['.'] by {
        if i < pieces.len() {
            assert(all[i] == pieces[i]);
        }
    }
    lemma_all_names(all, all.len() as int);
    lemma_all_names(all, all.len() - 1);
    assert(all.subrange(0, all.len() - 1) =~= pieces);
    law_join_undoes_split(directory, '/');
    // Below the root.
    let rooted = "/"@ + directory + "/"@ + name;
    assert(rooted =~= nothing.push('/') + path);
    lemma_split_concat(nothing, path, '/');
    assert(split(nothing, '/') =~= seq![nothing]);
    let below = split(rooted, '/');
    assert(below =~= seq![nothing] + all);
    let n = below.len() as int;
    assert(is_name(below, n - 1, '.')) by {
        assert(below[n - 1] == name);
    }
    assert(is_name(below, n - 2, '.')) by {
        assert(below[n - 2] == pieces[pieces.len() - 1]);
    }
    assert(last_name(below, n, '.') == n - 1);
    assert(last_name(below, n - 1, '.') == n - 2);
    let above = below.subrange(0, n - 1);
    let front = "/"@ + directory;
    assert(front =~= nothing.push('/') + directory);
    lemma_split_concat(nothing, directory, '/');
    assert(split(front, '/') =~= above);
    law_join_undoes_split(front, '/');
    // At the root.
    let top = "/"@ + name;
    assert(top =~= nothing.push('/') + name);
    lemma_split_concat(nothing, name, '/');
    assert(split(top, '/') =~= seq![nothing, name]);
    assert(is_name(split(top, '/'), 1, '.'));
    assert(!is_name(split(top, '/'), 0, '.'));
    assert(last_name(split(top, '/'), 2, '.') == 1);
    assert(last_name(split(top, '/'), 0, '.') == -1);
    assert(last_name(split(top, '/'), 1, '.') == -1);
    let root = "/"@;
    assert(root =~= nothing.push('/') + nothing);
    lemma_split_concat(nothing, nothing, '/');
    assert(split(root, '/') =~= seq![nothing, nothing]);
    assert(!is_name(split(root, '/'), 1, '.'));
    assert(!is_name(split(root, '/'), 0, '.'));
    assert(last_name(split(root, '/'), 0, '.') == -1);
    assert(last_name(split(root, '/'), 1, '.') == -1);
    assert(last_name(split(root, '/'), 2, '.') == -1);
}

/// Empty pieces and pieces that stand for the directory itself do not count in a
/// path, but for one that it begins with.
pub proof fn law_needless_pieces(directory: Seq<char>, rest: Seq<char>)
    requires
        is_plain(directory),
        is_plain(rest),
    ensures
        components(directory + "/"@) == components(directory),
        components(directory + "/."@) == components(directory),
        components("./"@ + rest) == seq![seq!['.']] + split(rest, '/'),
{
    reveal_strlit("/");
    reveal_strlit("/.");
    reveal_strlit("./");
    let nothing = Seq::<char>::empty();
    let dot = seq!['.'];
    lemma_not_absolute(directory);
    assert(split(nothing, '/') =~= seq![nothing]);
    crate::provider::lemma_one_piece(dot, '/');
    let pieces = split(directory, '/');
    lemma_split_concat(directory, nothing, '/');
    assert(directory + "/"@ =~= directory.push('/') + nothing);
    let slashed = split(directory + "/"@, '/');
    assert(slashed =~= pieces.push(nothing));
    assert(slashed.drop_last() =~= pieces);
    assert(!is_name(slashed, slashed.len() - 1, '.'));
    lemma_split_nonempty(directory, '/');
    lemma_split_concat(directory, dot, '/');
    assert(directory + "/."@ =~= directory.push('/') + dot);
    let dotted = split(directory + "/."@, '/');
    assert(dotted =~= pieces.push(dot));
    assert(dotted.drop_last() =~= pieces);
    assert(!is_name(dotted, dotted.len() - 1, '.'));
    assert((directory + "/"@)[0] == directory[0]);
    assert((directory + "/."@)[0] == directory[0]);
    crate::path::lemma_joined_components(dot, rest);
    assert(split(dot, '/') == seq![dot]);
    assert(seq![dot].drop_last() =~= Seq::empty());
    assert(is_name(seq![dot], 0, '.'));
    assert(crate::path::names(seq![dot].drop_last(), '.') =~= Seq::empty());
    assert(crate::path::names(seq![dot], '.') =~= seq![dot]);
    assert(components(dot) =~= seq![dot]);
    lemma_not_absolute(rest);
    assert(joined(dot, rest) =~= "./"@ + rest);
}

/// A configuration is looked for in the directory itself first, and then where
/// it would be looked for from the directory above, as long as there is one.
pub proof fn law_places_lead_upwards(start: Seq<char>, above: Seq<char>, level: nat)
    ensures
        candidate(start, 0) == Some(joined(start, ".multi-repo.toml"@)),
        parent_of(start) == Some(above) ==> candidate(start, level + 1) == candidate(above, level),
        parent_of(start) is None ==> candidate(start, level + 1) is None,
    decreases level,
{
    lemma_ancestor(start, above, level);
}

/// The directories above a directory are those above its parent, and the parent.
proof fn lemma_ancestor(start: Seq<char>, above: Seq<char>, level: nat)
    ensures
        crate::config::ancestor(start, 0) == Some(start),
        parent_of(start) == Some(above) ==> crate::config::ancestor(start, level + 1)
            == crate::config::ancestor(above, level),
        parent_of(start) is None ==> crate::config::ancestor(start, level + 1) is None,
    decreases level,
{
    if level > 0 {
        lemma_ancestor(start, above, (level - 1) as nat);
    } else {
        assert(crate::config::ancestor(start, 0) == Some(start));
    }
}

/// The next step of the search for a configuration: where nothing is known yet
/// the directory itself is looked at.
pub proof fn law_the_directory_itself_comes_first(
    start: &str,
    probes: &Vec<FileProbe>,
    step: ConfigSearch,
)
    requires
        call_ensures(crate::config::find_config, (start, probes), step),
    ensures
        probes@.len() == 0 ==> (step matches ConfigSearch::Probe(place) && place@ == joined(
            start@,
            ".multi-repo.toml"@,
        )),
        probes@.len() > 0 && probes@[0] is RegularFile ==> (step matches ConfigSearch::Found(place)
            && place@ == joined(start@, ".multi-repo.toml"@)),
        probes@.len() > 0 && (probes@[0] is OtherKind || probes@[0] is Unreadable) ==> step is Failed,
        probes@.len() > 0 && probes@[0] is Missing && parent_of(start@) is None ==> step is Failed,
        probes@.len() == 1 && probes@[0] is Missing ==> (parent_of(start@) matches Some(above) ==> (
        step matches ConfigSearch::Probe(place) && place@ == joined(above, ".multi-repo.toml"@))),
{
    law_places_lead_upwards(start@, start@, 0);
    if probes@.len() > 0 && probes@[0] is Missing {
        assert(search_from(start@, probes@, 1, step));
        if let Some(above) = parent_of(start@) {
            law_places_lead_upwards(start@, above, 0);
            law_places_lead_upwards(above, above, 0);
        }
    }
}

/// An identifier is accepted exactly if it is a safe relative path, and is else
/// refused with the reason; so is a name of a source.
pub proof fn law_names_are_checked(
    name: &str,
    checked: Result<()>,
    kind: &str,
    single: Result<()>,
    i: int,
)
    requires
        call_ensures(crate::config::validate_repo_name, (name,), checked),
        call_ensures(crate::config::validate_component, (name, kind), single),
    ensures
        checked is Ok ==> name@.len() > 0 && !name@.contains('\\') && !name@.contains('\0'),
        checked is Ok && 0 <= i < split(name@, '/').len() ==> split(name@, '/')[i].len() > 0
            && split(name@, '/')[i] != "."@ && split(name@, '/')[i] != ".."@,
        name@.len() == 0 ==> (checked matches Err(error) && error@ == ErrorModel::Config(
            "repository name cannot be empty"@,
        )),
        name@.contains('\\') ==> (checked matches Err(error) && error@ == ErrorModel::Config(
            "unsafe repository name "@ + debug_text(name@),
        )),
        name@.len() > 0 && 0 <= i < split(name@, '/').len() && (split(name@, '/')[i].len() == 0
            || split(name@, '/')[i] == "."@ || split(name@, '/')[i] == ".."@) ==> (
        checked matches Err(error) && error@ == ErrorModel::Config(
            "unsafe repository name "@ + debug_text(name@),
        )),
        single is Ok <==> name@.len() > 0 && name@ != "."@ && name@ != ".."@ && !name@.contains(
            '/',
        ) && !name@.contains('\\') && !name@.contains('\0'),
        single matches Err(error) ==> error@ == ErrorModel::Config(
            "invalid "@ + kind@ + " "@ + debug_text(name@),
        ),
{
    law_safe_names(name@);
    let pieces = split(name@, '/');
    if name@.len() > 0 && 0 <= i < pieces.len() && (pieces[i].len() == 0 || pieces[i] == "."@
        || pieces[i] == ".."@) {
        assert(crate::config::is_hollow(pieces[i]));
    }
}

/// The repositories of a manifest are resolved in their order, from the directory
/// of the manifest; the first remote that cannot be resolved is its problem.
pub proof fn law_manifests_are_resolved(
    config: &crate::config::ManifestConfig,
    repositories: Vec<RepositoryConfig>,
    home: Option<&str>,
    resolved: Result<Vec<RepositoryConfig>>,
    directory: Seq<char>,
    i: int,
)
    requires
        call_ensures(
            crate::provider::manifest::resolve_manifest,
            (config, repositories, home),
            resolved,
        ),
        parent_of(config.path@) == Some(directory),
        0 <= i < repositories@.len(),
    ensures
        resolved matches Ok(after) ==> {
            &&& after@.len() == repositories@.len()
            &&& after@[i].id == repositories@[i].id
            &&& after@[i].default_branch == repositories@[i].default_branch
            &&& after@[i].tags == repositories@[i].tags
            &&& resolved_repository_url(directory, repositories@[i].url@, crate::text::opt_str(home))
                == Ok::<Seq<char>, ErrorModel>(after@[i].url@)
        },
        resolved_repository_url(
            directory,
            repositories@[i].url@,
            crate::text::opt_str(home),
        ) matches Err(problem) ==> resolved is Err && ((forall|j: int|
            0 <= j < i ==> resolved_repository_url(
                directory,
                (#[trigger] repositories@[j]).url@,
                crate::text::opt_str(home),
            ) is Ok) ==> (resolved matches Err(error) && error@ == problem)),
{
    let h = crate::text::opt_str(home);
    assert(crate::config::base_of(config.path@) == directory);
    if let Err(problem) = resolved_repository_url(directory, repositories@[i].url@, h) {
        lemma_manifest(repositories@, directory, h, repositories@.len() as int, i, problem);
    }
    if let Ok(after) = resolved {
        assert(repository_resolved(repositories@[i], after@[i], directory, h));
    }
}

/// A remote that cannot be resolved is a problem of a manifest.
proof fn lemma_manifest(
    repositories: Seq<RepositoryConfig>,
    base: Seq<char>,
    home: Option<Seq<char>>,
    count: int,
    i: int,
    problem: ErrorModel,
)
    requires
        0 <= i < count <= repositories.len(),
        resolved_repository_url(base, repositories[i].url@, home) == Err::<Seq<char>, ErrorModel>(
            problem,
        ),
    ensures
        crate::provider::manifest::manifest_problem(repositories, base, home, count) is Some,
        (forall|j: int|
            0 <= j < i ==> resolved_repository_url(base, (#[trigger] repositories[j]).url@, home) is Ok)
            ==> crate::provider::manifest::manifest_problem(repositories, base, home, count) == Some(
            problem,
        ),
    decreases count,
{
    if i < count - 1 {
        lemma_manifest(repositories, base, home, count - 1, i, problem);
    } else if forall|j: int|
        0 <= j < i ==> resolved_repository_url(base, (#[trigger] repositories[j]).url@, home) is Ok {
        lemma_good_manifest(repositories, base, home, i);
    }
}

/// Remotes that can be resolved are no problem.
proof fn lemma_good_manifest(
    repositories: Seq<RepositoryConfig>,
    base: Seq<char>,
    home: Option<Seq<char>>,
    count: int,
)
    requires
        0 <= count <= repositories.len(),
        forall|j: int|
            0 <= j < count ==> resolved_repository_url(
                base,
                (#[trigger] repositories[j]).url@,
                home,
            ) is Ok,
    ensures
        crate::provider::manifest::manifest_problem(repositories, base, home, count) is None,
    decreases count,
{
    if count > 0 {
        lemma_good_manifest(repositories, base, home, count - 1);
        let last = repositories[count - 1];
    }
}

/// A configuration file that is loaded keeps its sources and repositories, in
/// their order and with their names; its workspace is where it says, or else the
/// directory of the file; and exactly the good files are loaded.
pub proof fn law_configurations_are_loaded(
    path: &str,
    home: Option<&str>,
    file: ConfigFile,
    config: Result<Config>,
    directory: Seq<char>,
    i: int,
)
    requires
        call_ensures(Config::load, (path, home, file), config),
        parent_of(path@) == Some(directory),
    ensures
        config is Ok <==> file_problem(file, directory, crate::text::opt_str(home)) is None,
        config matches Ok(config) ==> {
            &&& config.sources@.len() == file.sources@.len()
            &&& 0 <= i < file.sources@.len() ==> name_of(config.sources@[i]) == name_of(
                file.sources@[i],
            )
            &&& config.repositories@.len() == file.repositories@.len()
            &&& 0 <= i < file.repositories@.len() ==> config.repositories@[i].id@
                == file.repositories@[i].id@ && config.repositories@[i].tags
                == file.repositories@[i].tags && config.repositories@[i].default_branch
                == file.repositories@[i].default_branch
            &&& file.root is None ==> config.root@ == directory
            &&& file.root matches Some(root) ==> resolved_path(
                directory,
                root@,
                crate::text::opt_str(home),
            ) == Ok::<Seq<char>, ErrorModel>(config.root@)
        },
{
    assert(crate::config::base_of(path@) == directory);
    if let Ok(config) = config {
        if 0 <= i < file.sources@.len() {
            assert(source_resolved(
                file.sources@[i],
                config.sources@[i],
                directory,
                crate::text::opt_str(home),
            ));
        }
        if 0 <= i < file.repositories@.len() {
            assert(repository_resolved(
                file.repositories@[i],
                config.repositories@[i],
                directory,
                crate::text::opt_str(home),
            ));
        }
    }
}

/// The state and the working trees of a workspace lie below its root, apart from
/// each other.
pub proof fn law_directories_of_a_workspace(config: &Config, state: String, repos: String)
    requires
        call_ensures(Config::state_dir, (config,), state),
        call_ensures(Config::repos_dir, (config,), repos),
    ensures
        state@ == joined(config.root@, ".multi-repo"@),
        repos@ == joined(config.root@, "repos"@),
        state@ != repos@,
{
    reveal_strlit(".multi-repo");
    reveal_strlit("repos");
    assert(state@.last() == 'o');
    assert(repos@.last() == 's');
}

}

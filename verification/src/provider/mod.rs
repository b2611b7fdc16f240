//! What sources say of their repositories.

pub mod bitbucket;
pub mod github;
pub mod manifest;

use vstd::prelude::*;
use vstd::utf8::encode_utf8;

use crate::config::{
    CONFIG_FILE_NAME, RepositoryConfig, repo_name_problem, text_result, valid_repo_name,
    validate_repo_name,
};
use crate::error::{Error, ErrorModel, Result, failure};
use crate::glob::{build_globs, globs_problem, set_matches, set_patterns, some_glob_matches};
use crate::model::{RepoSpec, SpecModel, specs};
use crate::string_set::StringSet;
use crate::text::{
    CharClass, before_suffix, cat2, cat3, cat4, contains_text, debug_quote, debug_text, decimal,
    decimal_text, ends, has_part, is_whitespace, last_index, lemma_last_index, lemma_split_concat,
    lowered, opt_clone, opt_str, opt_text, part_last, parted_last, split, split_text, strip_suffix,
    texts, to_lower, trim, trim_back, trim_both, trim_class, trim_end, trim_front, trimmed,
};

verus! {

/// The parts of a URL that tell repositories apart.
#[derive(Debug, PartialEq, Eq)]
pub struct UrlParts {
    /// The host, where the URL has one.
    pub host: Option<String>,
    /// The port, where it is not the usual one of the scheme.
    pub port: Option<u16>,
    /// The path.
    pub path: String,
}

/// The host, the port and the path that `Url::parse` finds in a text, or the
/// message with which it refuses the text.
pub uninterp spec fn url_parts(text: Seq<char>) -> std::result::Result<
    (Option<Seq<char>>, Option<u16>, Seq<char>),
    Seq<char>,
>;

/// `url::Url::parse`: the host, the port and the path of the URL that a text
/// stands for, or the message of the error.
#[verifier::external_body]
fn parse_url(text: &str) -> (parts: std::result::Result<UrlParts, String>)
    ensures
        url_parts(text@) == url_model(parts),
{
    url::Url::parse(text).map(
        |url| UrlParts {
            host: url.host_str().map(|host| host.to_owned()),
            port: url.port(),
            path: url.path().to_owned(),
        },
    ).map_err(|error| error.to_string())
}

/// The parts of a URL with their texts as characters.
pub open spec fn url_model(parts: std::result::Result<UrlParts, String>) -> std::result::Result<
    (Option<Seq<char>>, Option<u16>, Seq<char>),
    Seq<char>,
> {
    match parts {
        Ok(parts) => Ok((opt_text(parts.host), parts.port, parts.path@)),
        Err(message) => Err(message@),
    }
}

/// A path without the suffix that Git hosting adds to repositories.
pub open spec fn without_git_suffix(value: Seq<char>) -> Seq<char> {
    before_suffix(value, ".git"@)
}

/// A path without the suffix that Git hosting adds to repositories.
pub fn strip_git_suffix(value: &str) -> (rest: String)
    ensures
        rest@ == without_git_suffix(value@),
{
    strip_suffix(value, ".git")
}

/// A remote without white space around it and slashes behind it.
pub open spec fn bare_remote(remote: Seq<char>) -> Seq<char> {
    trim_back(trimmed(remote), CharClass::Slash)
}

/// The canonical form of a remote that is a URL, given its parts.
pub open spec fn canonical_url(
    remote: Seq<char>,
    parts: std::result::Result<(Option<Seq<char>>, Option<u16>, Seq<char>), Seq<char>>,
) -> std::result::Result<Seq<char>, ErrorModel> {
    match parts {
        Err(message) => Err(ErrorModel::Url(message)),
        Ok((host, port, path)) => match host {
            None => Err(ErrorModel::Config("clone URL has no host: "@ + debug_text(remote))),
            Some(host) => {
                let authority = match port {
                    Some(port) => lowered(host) + ":"@ + decimal(port as nat),
                    None => lowered(host),
                };
                Ok(authority + "/"@ + without_git_suffix(trim_both(path, CharClass::Slash)))
            },
        },
    }
}

/// The form of a remote in which two remotes of one repository agree whatever
/// the transport: the host in lower case and the path. For a remote that is a
/// path of this machine, `resolved` is that path with symbolic links followed,
/// where it exists.
pub open spec fn canonical_remote(
    remote: Seq<char>,
    resolved: Option<Seq<char>>,
) -> std::result::Result<Seq<char>, ErrorModel> {
    let bare = bare_remote(remote);
    if has_part(bare, "://"@) {
        canonical_url(remote, url_parts(bare))
    } else {
        match parted_last(bare, ':') {
            Some((host, path)) => Ok(
                lowered(split(host, '@').last()) + "/"@ + without_git_suffix(
                    trim_both(path, CharClass::Slash),
                ),
            ),
            None => Ok(
                "file/"@ + match resolved {
                    Some(resolved) => resolved,
                    None => without_git_suffix(bare),
                },
            ),
        }
    }
}

/// The canonical form of a remote that is a URL, given its parts.
pub fn canonicalize_url(remote: &str, parts: std::result::Result<UrlParts, String>) -> (canonical:
    Result<String>)
    ensures
        text_result(canonical, canonical_url(remote@, url_model(parts))),
{
    match parts {
        Err(message) => Err(Error::Url(message)),
        Ok(parts) => {
            match parts.host {
                None => Err(
                    Error::Config(cat2("clone URL has no host: ", debug_quote(remote).as_str())),
                ),
                Some(host) => {
                    let host = to_lower(host.as_str());
                    let authority = match parts.port {
                        Some(port) => cat3(host.as_str(), ":", decimal_text(port as u64).as_str()),
                        None => host,
                    };
                    let path = strip_git_suffix(
                        trim_class(parts.path.as_str(), CharClass::Slash).as_str(),
                    );
                    Ok(cat3(authority.as_str(), "/", path.as_str()))
                },
            }
        },
    }
}

/// The canonical form of a remote. For a remote that is a path of this
/// machine, `resolved` is what the file system makes of the path that
/// [`local_remote_path`] gives.
pub fn canonicalize_remote(remote: &str, resolved: Option<&str>) -> (canonical: Result<String>)
    ensures
        text_result(canonical, canonical_remote(remote@, opt_str(resolved))),
{
    let bare = trim_end(trim(remote).as_str(), CharClass::Slash);
    if contains_text(bare.as_str(), "://") {
        let parts = parse_url(bare.as_str());
        return canonicalize_url(remote, parts);
    }
    match part_last(bare.as_str(), ':') {
        Some(parts) => {
            let pieces = split_text(parts.0.as_str(), '@');
            proof {
                crate::text::lemma_split_nonempty(parts.0@, '@');
                assert(texts(pieces@).len() == pieces@.len());
                assert(texts(pieces@).last() == pieces@.last()@);
            }
            let host = to_lower(pieces[pieces.len() - 1].as_str());
            let path = strip_git_suffix(trim_class(parts.1.as_str(), CharClass::Slash).as_str());
            Ok(cat3(host.as_str(), "/", path.as_str()))
        },
        None => {
            let path = match resolved {
                Some(resolved) => resolved.to_owned(),
                None => strip_git_suffix(bare.as_str()),
            };
            Ok(cat2("file/", path.as_str()))
        },
    }
}

/// The path of this machine that a remote stands for, if it is one.
pub open spec fn local_path_of(remote: Seq<char>) -> Option<Seq<char>> {
    let bare = bare_remote(remote);
    if has_part(bare, "://"@) || parted_last(bare, ':') is Some {
        None
    } else {
        Some(without_git_suffix(bare))
    }
}

/// The path of this machine that a remote stands for, if it is one.
pub fn local_remote_path(remote: &str) -> (path: Option<String>)
    ensures
        opt_text(path) == local_path_of(remote@),
{
    let bare = trim_end(trim(remote).as_str(), CharClass::Slash);
    if contains_text(bare.as_str(), "://") || part_last(bare.as_str(), ':').is_some() {
        None
    } else {
        Some(strip_git_suffix(bare.as_str()))
    }
}

/// Whether a text can be the host of a remote.
pub open spec fn plain_host(host: Seq<char>) -> bool {
    &&& host.len() > 0
    &&& forall|i: int|
        0 <= i < host.len() ==> #[trigger] host[i] != '/' && host[i] != ':' && host[i] != '@'
}

/// Whether a text can be the path of a repository behind a host, without slashes
/// around it and without the suffix that Git hosting adds.
pub open spec fn plain_path(path: Seq<char>) -> bool {
    &&& path.len() > 0
    &&& path[0] != '/'
    &&& path.last() != '/'
    &&& !is_whitespace(path.last())
    &&& !ends(path, ".git"@)
    &&& forall|i: int| 0 <= i < path.len() ==> #[trigger] path[i] != ':'
}

/// Whether the parts of a URL are a host, whatever the case of its letters, a
/// port and a path.
pub open spec fn parts_are(
    parts: std::result::Result<(Option<Seq<char>>, Option<u16>, Seq<char>), Seq<char>>,
    host: Seq<char>,
    port: Option<u16>,
    path: Seq<char>,
) -> bool {
    parts matches Ok((Some(found), at, rest)) && lowered(found) == lowered(host) && at == port
        && rest == "/"@ + path
}

/// A path loses the suffix that Git hosting adds, and no other.
proof fn lemma_git_suffix(path: Seq<char>)
    requires
        plain_path(path),
    ensures
        without_git_suffix(path) == path,
        without_git_suffix(path + ".git"@) == path,
{
    let whole = path + ".git"@;
    assert(whole.subrange(whole.len() - ".git"@.len(), whole.len() as int) =~= ".git"@);
    assert(whole.subrange(0, whole.len() - ".git"@.len()) =~= path);
}

/// A path behind a slash loses that slash.
proof fn lemma_leading_slash(path: Seq<char>)
    requires
        path.len() > 0,
        path[0] != '/',
        path.last() != '/',
    ensures
        trim_both(path, CharClass::Slash) == path,
        trim_both("/"@ + path, CharClass::Slash) == path,
{
    reveal_strlit("/");
    let whole = "/"@ + path;
    assert(whole.subrange(1, whole.len() as int) =~= path);
    assert(trim_front(whole, CharClass::Slash) == trim_front(path, CharClass::Slash));
}

/// A remote that neither begins nor ends with white space and does not end with
/// a slash is bare, and so it is with one slash behind it.
proof fn lemma_bare(remote: Seq<char>)
    requires
        remote.len() > 0,
        !is_whitespace(remote[0]),
        !is_whitespace(remote.last()),
        remote.last() != '/',
    ensures
        bare_remote(remote) == remote,
        bare_remote(remote.push('/')) == remote,
{
    let slashed = remote.push('/');
    assert(slashed[0] == remote[0]);
    assert(slashed.last() == '/');
    assert(!is_whitespace('/'));
    assert(trimmed(slashed) == slashed);
    assert(slashed.drop_last() =~= remote);
    assert(trim_back(slashed, CharClass::Slash) == trim_back(remote, CharClass::Slash));
}

/// A text without a separator is its only piece.
pub proof fn lemma_one_piece(s: Seq<char>, separator: char)
    requires
        !s.contains(separator),
    ensures
        split(s, separator) == seq![s],
    decreases s.len(),
{
    if s.len() == 0 {
        assert(s =~= Seq::empty());
    } else {
        let rest = s.drop_last();
        assert(s.last() == s[s.len() - 1]);
        assert forall|i: int| 0 <= i < rest.len() implies rest[i] != separator by {
            assert(s[i] == rest[i]);
        }
        lemma_one_piece(rest, separator);
        assert(rest.push(s.last()) =~= s);
        assert(split(s, separator) =~= seq![s]);
    }
}

/// The canonical form of the remote of a user, a host and a path.
proof fn lemma_scp_form(host: Seq<char>, path: Seq<char>, resolved: Option<Seq<char>>)
    requires
        plain_host(host),
        plain_path(path),
    ensures
        canonical_remote("git@"@ + host + ":"@ + path + ".git"@, resolved) == Ok::<
            Seq<char>,
            ErrorModel,
        >(lowered(host) + "/"@ + path),
{
    reveal_strlit("git@");
    reveal_strlit(":");
    reveal_strlit("://");
    reveal_strlit(".git");
    let remote = "git@"@ + host + ":"@ + path + ".git"@;
    let at = 4 + host.len() as int;
    lemma_bare(remote);
    assert(remote[at] == ':');
    assert forall|i: int| 0 <= i < remote.len() && i != at implies remote[i] != ':' by {
        if 4 <= i < at {
            assert(remote[i] == host[i - 4]);
        } else if at < i < at + 1 + path.len() {
            assert(remote[i] == path[i - at - 1]);
        }
    }
    if has_part(remote, "://"@) {
        let i = choose|i: int|
            0 <= i <= remote.len() - "://"@.len() && #[trigger] remote.subrange(
                i,
                i + "://"@.len(),
            ) == "://"@;
        let part = remote.subrange(i, i + 3);
        assert(part[0] == remote[i]);
        assert(part[1] == remote[i + 1]);
        assert(remote[at + 1] == path[0]);
    }
    lemma_last_index(remote, ':');
    assert(last_index(remote, ':') == at);
    let user = remote.subrange(0, at);
    let rest = remote.subrange(at + 1, remote.len() as int);
    assert(rest =~= path + ".git"@);
    let name = seq!['g', 'i', 't'];
    assert(user =~= name.push('@') + host);
    lemma_split_concat(name, host, '@');
    assert(!host.contains('@'));
    lemma_one_piece(host, '@');
    assert(split(user, '@').last() == host);
    lemma_leading_slash(path + ".git"@);
    lemma_git_suffix(path);
}

/// The canonical form of a remote that is a URL with known parts.
proof fn lemma_url_form(
    scheme: Seq<char>,
    tail: Seq<char>,
    host: Seq<char>,
    port: Option<u16>,
    path: Seq<char>,
    resolved: Option<Seq<char>>,
)
    requires
        plain_path(path),
        scheme.len() > 0,
        !is_whitespace(scheme[0]),
        ends(tail, path) || ends(tail, path + ".git"@),
        parts_are(url_parts(scheme + "://"@ + tail), host, port, path) || parts_are(
            url_parts(scheme + "://"@ + tail),
            host,
            port,
            path + ".git"@,
        ),
    ensures
        ({
            let place = (match port {
                Some(port) => lowered(host) + ":"@ + decimal(port as nat),
                None => lowered(host),
            }) + "/"@ + path;
            let remote = scheme + "://"@ + tail;
            &&& canonical_remote(remote, resolved) == Ok::<Seq<char>, ErrorModel>(place)
            &&& canonical_remote(remote.push('/'), resolved) == Ok::<Seq<char>, ErrorModel>(place)
        }),
{
    reveal_strlit("://");
    reveal_strlit(".git");
    let remote = scheme + "://"@ + tail;
    let suffixed = path + ".git"@;
    if ends(tail, path) {
        let end = tail.subrange(tail.len() - path.len(), tail.len() as int);
        assert(end.last() == tail.last());
    } else {
        let end = tail.subrange(tail.len() - suffixed.len(), tail.len() as int);
        assert(end.last() == tail.last());
        assert(suffixed.last() == 't');
    }
    assert(remote.last() == tail.last());
    lemma_bare(remote);
    let at = scheme.len() as int;
    assert(remote.subrange(at, at + "://"@.len()) =~= "://"@);
    assert(has_part(remote, "://"@));
    lemma_git_suffix(path);
    lemma_leading_slash(path);
    lemma_leading_slash(suffixed);
}

/// The remotes of one repository agree whatever the transport: with a plain host
/// and a plain path, the form with a user and a colon, an `https` URL and an
/// `ssh` URL have the same canonical form, in which the host is in lower case
/// and the path has neither a suffix nor a slash around it. Of the URLs it is
/// said for the case that they have that host, no port and that path.
pub proof fn law_transports_agree(
    host: Seq<char>,
    path: Seq<char>,
    resolved: Option<Seq<char>>,
)
    requires
        plain_host(host),
        plain_path(path),
    ensures
        canonical_remote("git@"@ + host + ":"@ + path + ".git"@, resolved) == Ok::<
            Seq<char>,
            ErrorModel,
        >(lowered(host) + "/"@ + path),
        parts_are(
            url_parts("https://"@ + host + "/"@ + path + ".git"@),
            host,
            None,
            path + ".git"@,
        ) ==> canonical_remote("https://"@ + host + "/"@ + path + ".git"@, resolved)
            == canonical_remote("git@"@ + host + ":"@ + path + ".git"@, resolved)
            && canonical_remote("https://"@ + host + "/"@ + path + ".git/"@, resolved)
            == canonical_remote("git@"@ + host + ":"@ + path + ".git"@, resolved),
        parts_are(url_parts("ssh://git@"@ + host + "/"@ + path), host, None, path)
            ==> canonical_remote("ssh://git@"@ + host + "/"@ + path, resolved)
            == canonical_remote("git@"@ + host + ":"@ + path + ".git"@, resolved),
{
    reveal_strlit("https://");
    reveal_strlit("ssh://git@");
    reveal_strlit("://");
    reveal_strlit("/");
    reveal_strlit(".git");
    reveal_strlit(".git/");
    lemma_scp_form(host, path, resolved);
    let suffixed = path + ".git"@;
    let web = "https://"@ + host + "/"@ + path + ".git"@;
    if parts_are(url_parts(web), host, None, suffixed) {
        let scheme = seq!['h', 't', 't', 'p', 's'];
        let tail = host + "/"@ + path + ".git"@;
        assert(web =~= scheme + "://"@ + tail);
        assert(tail.subrange(tail.len() - suffixed.len(), tail.len() as int) =~= suffixed);
        lemma_url_form(scheme, tail, host, None, path, resolved);
        assert("https://"@ + host + "/"@ + path + ".git/"@ =~= web.push('/'));
    }
    let shell = "ssh://git@"@ + host + "/"@ + path;
    if parts_are(url_parts(shell), host, None, path) {
        let scheme = seq!['s', 's', 'h'];
        let tail = seq!['g', 'i', 't', '@'] + host + "/"@ + path;
        assert(shell =~= scheme + "://"@ + tail);
        assert(tail.subrange(tail.len() - path.len(), tail.len() as int) =~= path);
        lemma_url_form(scheme, tail, host, None, path, resolved);
    }
}

/// An unusual port tells a host from the same host without it: it stands behind
/// the host in the canonical form of a URL that has it.
pub proof fn law_ports_are_kept(
    host: Seq<char>,
    port: u16,
    path: Seq<char>,
    resolved: Option<Seq<char>>,
)
    requires
        plain_host(host),
        plain_path(path),
    ensures
        parts_are(
            url_parts("https://"@ + host + ":"@ + decimal(port as nat) + "/"@ + path + ".git"@),
            host,
            Some(port),
            path + ".git"@,
        ) ==> canonical_remote(
            "https://"@ + host + ":"@ + decimal(port as nat) + "/"@ + path + ".git"@,
            resolved,
        ) == Ok::<Seq<char>, ErrorModel>(
            lowered(host) + ":"@ + decimal(port as nat) + "/"@ + path,
        ),
{
    reveal_strlit("https://");
    reveal_strlit("://");
    let digits = decimal(port as nat);
    let suffixed = path + ".git"@;
    let web = "https://"@ + host + ":"@ + digits + "/"@ + path + ".git"@;
    if parts_are(url_parts(web), host, Some(port), suffixed) {
        let scheme = seq!['h', 't', 't', 'p', 's'];
        let tail = host + ":"@ + digits + "/"@ + path + ".git"@;
        assert(web =~= scheme + "://"@ + tail);
        assert(tail.subrange(tail.len() - suffixed.len(), tail.len() as int) =~= suffixed);
        lemma_url_form(scheme, tail, host, Some(port), path, resolved);
    }
}

/// The tags of a repository: those of its source and its own, without empty
/// ones.
pub open spec fn combined_tags(defaults: Seq<Seq<char>>, specific: Seq<Seq<char>>) -> Set<
    Seq<char>,
> {
    defaults.to_set().union(specific.to_set()).remove(Seq::<char>::empty())
}

/// The tags of a repository.
pub fn tags(defaults: &Vec<String>, specific: &Vec<String>) -> (set: StringSet)
    ensures
        set@ == combined_tags(texts(defaults@), texts(specific@)),
{
    let mut set = StringSet::from_list(defaults);
    set.extend(&StringSet::from_list(specific));
    let empty = String::new();
    set.remove(empty.as_str());
    set
}

/// What the file system makes of the local path at a place of a list.
pub open spec fn resolved_at(resolved: Seq<Option<String>>, i: int) -> Option<Seq<char>> {
    if 0 <= i < resolved.len() {
        opt_text(resolved[i])
    } else {
        None
    }
}

/// What the file system makes of the local path at a place of a list.
fn resolved_entry(resolved: &Vec<Option<String>>, i: usize) -> (entry: Option<&str>)
    ensures
        opt_str(entry) == resolved_at(resolved@, i as int),
{
    if i < resolved.len() {
        match &resolved[i] {
            Some(path) => Some(path.as_str()),
            None => None,
        }
    } else {
        None
    }
}

/// The identifier of a repository within its source.
pub open spec fn qualified(source: Option<Seq<char>>, id: Seq<char>) -> Seq<char> {
    match source {
        Some(source) => source + "/"@ + id,
        None => id,
    }
}

/// What a list of declared repositories says of one of them.
pub open spec fn repository_spec(
    source: Option<Seq<char>>,
    repositories: Seq<RepositoryConfig>,
    default_tags: Seq<Seq<char>>,
    context: Seq<char>,
    resolved: Seq<Option<String>>,
    i: int,
) -> std::result::Result<SpecModel, ErrorModel> {
    let repository = repositories[i];
    if !valid_repo_name(repository.id@) {
        Err(ErrorModel::Config(repo_name_problem(repository.id@)))
    } else if exists|j: int| 0 <= j < i && #[trigger] repositories[j].id@ == repository.id@ {
        Err(
            ErrorModel::Config(
                "duplicate repository id "@ + debug_text(repository.id@) + " in "@ + context,
            ),
        )
    } else {
        match canonical_remote(repository.url@, resolved_at(resolved, i)) {
            Err(error) => Err(error),
            Ok(canonical_url) => Ok(
                SpecModel {
                    id: qualified(source, repository.id@),
                    canonical_url,
                    clone_url: repository.url@,
                    default_branch: opt_text(repository.default_branch),
                    tags: combined_tags(default_tags, texts(repository.tags@)),
                },
            ),
        }
    }
}

/// What a list of declared repositories says of the first of them; the first
/// problem ends it.
pub open spec fn declared_specs(
    source: Option<Seq<char>>,
    repositories: Seq<RepositoryConfig>,
    default_tags: Seq<Seq<char>>,
    context: Seq<char>,
    resolved: Seq<Option<String>>,
    count: int,
) -> std::result::Result<Seq<SpecModel>, ErrorModel>
    decreases count,
{
    if count <= 0 {
        Ok(Seq::empty())
    } else {
        match declared_specs(source, repositories, default_tags, context, resolved, count - 1) {
            Err(error) => Err(error),
            Ok(earlier) => match repository_spec(
                source,
                repositories,
                default_tags,
                context,
                resolved,
                count - 1,
            ) {
                Err(error) => Err(error),
                Ok(spec) => Ok(earlier.push(spec)),
            },
        }
    }
}

/// Whether a list of descriptions is the one that a contract describes.
pub open spec fn specs_result(
    result: Result<Vec<RepoSpec>>,
    expected: std::result::Result<Seq<SpecModel>, ErrorModel>,
) -> bool {
    match result {
        Ok(list) => expected == Ok::<Seq<SpecModel>, ErrorModel>(specs(list@)),
        Err(error) => expected == Err::<Seq<SpecModel>, ErrorModel>(error@),
    }
}

/// A problem among the first repositories stays the outcome.
proof fn lemma_declared_specs_error(
    source: Option<Seq<char>>,
    repositories: Seq<RepositoryConfig>,
    default_tags: Seq<Seq<char>>,
    context: Seq<char>,
    resolved: Seq<Option<String>>,
    count: int,
    total: int,
)
    requires
        0 <= count <= total,
        declared_specs(source, repositories, default_tags, context, resolved, count) is Err,
    ensures
        declared_specs(source, repositories, default_tags, context, resolved, total)
            == declared_specs(source, repositories, default_tags, context, resolved, count),
    decreases total - count,
{
    if count < total {
        lemma_declared_specs_error(
            source,
            repositories,
            default_tags,
            context,
            resolved,
            count,
            total - 1,
        );
    }
}

/// What a list of declared repositories says of them. `resolved` holds, at the
/// place of each repository whose remote is a path of this machine, what the
/// file system makes of that path; `context` names the list in messages.
pub fn repository_specs(
    source: Option<&str>,
    repositories: &Vec<RepositoryConfig>,
    default_tags: &Vec<String>,
    context: &str,
    resolved: &Vec<Option<String>>,
) -> (list: Result<Vec<RepoSpec>>)
    ensures
        specs_result(
            list,
            declared_specs(
                opt_str(source),
                repositories@,
                texts(default_tags@),
                context@,
                resolved@,
                repositories@.len() as int,
            ),
        ),
{
    let ghost all = repositories@;
    let ghost src = opt_str(source);
    let ghost defaults = texts(default_tags@);
    let ghost total = all.len() as int;
    let mut ids: Vec<String> = Vec::new();
    let mut list: Vec<RepoSpec> = Vec::new();
    let mut i: usize = 0;
    proof {
        assert(specs(list@) =~= Seq::empty());
    }
    while i < repositories.len()
        invariant
            i <= repositories@.len(),
            all == repositories@,
            total == all.len(),
            src == opt_str(source),
            defaults == texts(default_tags@),
            ids@.len() == i,
            forall|j: int| 0 <= j < i ==> texts(ids@)[j] == #[trigger] all[j].id@,
            declared_specs(src, all, defaults, context@, resolved@, i as int) == Ok::<
                Seq<SpecModel>,
                ErrorModel,
            >(specs(list@)),
        decreases repositories@.len() - i,
    {
        let repository = &repositories[i];
        let id = repository.id.clone();
        let ghost k = i as int;
        let ghost outcome = repository_spec(src, all, defaults, context@, resolved@, k);
        let ghost earlier = specs(list@);
        proof {
            assert(texts(ids@).contains(id@) <==> exists|j: int|
                0 <= j < k && #[trigger] all[j].id@ == id@) by {
                if texts(ids@).contains(id@) {
                    let j = choose|j: int| 0 <= j < ids@.len() && texts(ids@)[j] == id@;
                    assert(all[j].id@ == id@);
                }
                if exists|j: int| 0 <= j < k && #[trigger] all[j].id@ == id@ {
                    let j = choose|j: int| 0 <= j < k && #[trigger] all[j].id@ == id@;
                    assert(texts(ids@)[j] == id@);
                }
            }
            assert(outcome is Err ==> declared_specs(
                src,
                all,
                defaults,
                context@,
                resolved@,
                k + 1,
            ) == Err::<Seq<SpecModel>, ErrorModel>(outcome->Err_0));
            if outcome is Err {
                lemma_declared_specs_error(
                    src,
                    all,
                    defaults,
                    context@,
                    resolved@,
                    k + 1,
                    total,
                );
            }
        }
        match validate_repo_name(id.as_str()) {
            Ok(()) => {},
            Err(error) => return Err(error),
        }
        if crate::text::list_contains(&ids, id.as_str()) {
            return Err(
                Error::Config(
                    cat4(
                        "duplicate repository id ",
                        debug_quote(id.as_str()).as_str(),
                        " in ",
                        context,
                    ),
                ),
            );
        }
        let canonical_url = match canonicalize_remote(
            repository.url.as_str(),
            resolved_entry(resolved, i),
        ) {
            Ok(canonical_url) => canonical_url,
            Err(error) => return Err(error),
        };
        let spec_id = match source {
            Some(source) => cat3(source, "/", id.as_str()),
            None => id.clone(),
        };
        list.push(
            RepoSpec {
                id: spec_id,
                canonical_url,
                clone_url: repository.url.clone(),
                default_branch: opt_clone(&repository.default_branch),
                tags: tags(default_tags, &repository.tags),
            },
        );
        ids.push(id);
        proof {
            assert(list@.last()@ == outcome->Ok_0);
            assert(specs(list@) =~= earlier.push(outcome->Ok_0));
        }
        i += 1;
    }
    Ok(list)
}

/// What the configuration says of the repositories that it declares directly.
pub fn discover_repositories(
    repositories: &Vec<RepositoryConfig>,
    resolved: &Vec<Option<String>>,
) -> (list: Result<Vec<RepoSpec>>)
    ensures
        specs_result(
            list,
            declared_specs(
                None,
                repositories@,
                Seq::empty(),
                CONFIG_FILE_NAME@,
                resolved@,
                repositories@.len() as int,
            ),
        ),
{
    let none: Vec<String> = Vec::new();
    proof {
        assert(texts(none@) =~= Seq::empty());
    }
    repository_specs(None, repositories, &none, CONFIG_FILE_NAME, resolved)
}

/// The globs by which a source selects repositories.
pub struct Filters {
    /// A repository has to match one of these, unless there is none.
    pub includes: globset::GlobSet,
    /// A repository must match none of these.
    pub excludes: globset::GlobSet,
    /// Whether every repository that is not excluded is selected.
    pub include_all: bool,
}

/// Whether globs select a name: it matches one of the first, where there are
/// any, and none of the second.
pub open spec fn selects(
    includes: Seq<Seq<char>>,
    excludes: Seq<Seq<char>>,
    name: Seq<char>,
) -> bool {
    let path = encode_utf8(name);
    (includes.len() == 0 || some_glob_matches(includes, path)) && !some_glob_matches(excludes, path)
}

/// What keeps the globs of a source from being used.
pub open spec fn filters_problem(
    includes: Seq<Seq<char>>,
    excludes: Seq<Seq<char>>,
) -> Option<ErrorModel> {
    match globs_problem(includes) {
        Some(problem) => Some(problem),
        None => globs_problem(excludes),
    }
}

/// Whether filters stand for the given globs.
pub open spec fn filters_hold(
    filters: Filters,
    includes: Seq<Seq<char>>,
    excludes: Seq<Seq<char>>,
) -> bool {
    &&& set_patterns(filters.includes) == includes
    &&& set_patterns(filters.excludes) == excludes
    &&& filters.include_all == (includes.len() == 0)
}

/// The verdict on a name, given which globs it matches.
pub fn admitted(include_all: bool, in_includes: bool, in_excludes: bool) -> (chosen: bool)
    ensures
        chosen == ((include_all || in_includes) && !in_excludes),
{
    (include_all || in_includes) && !in_excludes
}

impl Filters {
    /// The filters of some globs.
    pub fn new(includes: &Vec<String>, excludes: &Vec<String>) -> (filters: Result<Filters>)
        ensures
            failure(filters) == filters_problem(texts(includes@), texts(excludes@)),
            filters matches Ok(filters) ==> filters_hold(
                filters,
                texts(includes@),
                texts(excludes@),
            ),
    {
        let include_all = includes.len() == 0;
        let includes = match build_globs(includes) {
            Ok(set) => set,
            Err(error) => return Err(error),
        };
        match build_globs(excludes) {
            Ok(excludes) => Ok(Filters { includes, excludes, include_all }),
            Err(error) => Err(error),
        }
    }

    /// Whether the filters select a name.
    pub fn matches(&self, value: &str) -> (chosen: bool)
        ensures
            chosen == ((self.include_all || some_glob_matches(
                set_patterns(self.includes),
                encode_utf8(value@),
            )) && !some_glob_matches(set_patterns(self.excludes), encode_utf8(value@))),
    {
        let path = value.as_bytes();
        admitted(
            self.include_all,
            set_matches(&self.includes, path),
            set_matches(&self.excludes, path),
        )
    }
}

/// A header of a request.
#[derive(Debug, PartialEq, Eq)]
pub struct Header {
    /// The name of the header, in lower case.
    pub name: String,
    /// The value of the header.
    pub value: String,
    /// Whether the value has to be kept out of logs.
    pub sensitive: bool,
}

/// How this program names itself to servers.
pub const USER_AGENT: &'static str = "multi-repo/0.1.0";

/// Whether a text can be the value of a header: no control characters but the
/// tab.
pub open spec fn valid_header_value(text: Seq<char>) -> bool {
    forall|i: int|
        0 <= i < encode_utf8(text).len() ==> {
            let b = #[trigger] encode_utf8(text)[i];
            b == 9 || (b >= 32 && b != 127)
        }
}

/// `reqwest::header::HeaderValue::from_str`: whether a text can be the value
/// of a header, and the message if it cannot. The message does not repeat the
/// text.
#[verifier::external_body]
fn check_header_value(text: &str) -> (checked: std::result::Result<(), String>)
    ensures
        checked is Ok <==> valid_header_value(text@),
        checked matches Err(message) ==> message@ == "failed to parse header value"@,
{
    reqwest::header::HeaderValue::from_str(text).map(|_| ()).map_err(|error| error.to_string())
}

/// The headers of requests to a provider. A token that cannot stand in a
/// header is refused with a message that does not repeat it.
pub fn authenticated_headers(token: &str, accept: &str, provider: &str) -> (headers: Result<
    Vec<Header>,
>)
    ensures
        headers is Ok <==> valid_header_value("Bearer "@ + token@),
        headers matches Err(error) ==> error@ == ErrorModel::Config(
            "invalid "@ + provider@ + " token: "@ + "failed to parse header value"@,
        ),
        headers matches Ok(list) ==> {
            &&& list@.len() == 3
            &&& list@[0].name@ == "user-agent"@ && list@[0].value@ == USER_AGENT@
                && !list@[0].sensitive
            &&& list@[1].name@ == "accept"@ && list@[1].value@ == accept@ && !list@[1].sensitive
            &&& list@[2].name@ == "authorization"@ && list@[2].value@ == "Bearer "@ + token@
                && list@[2].sensitive
        },
{
    let authorization = cat2("Bearer ", token);
    match check_header_value(authorization.as_str()) {
        Ok(()) => {},
        Err(message) => return Err(
            Error::Config(cat4("invalid ", provider, " token: ", message.as_str())),
        ),
    }
    let mut list: Vec<Header> = Vec::new();
    list.push(
        Header {
            name: "user-agent".to_owned(),
            value: USER_AGENT.to_owned(),
            sensitive: false,
        },
    );
    list.push(Header { name: "accept".to_owned(), value: accept.to_owned(), sensitive: false });
    list.push(
        Header { name: "authorization".to_owned(), value: authorization, sensitive: true },
    );
    Ok(list)
}

}

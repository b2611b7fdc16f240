//! What holds of what sources find.

use vstd::prelude::*;
use vstd::utf8::encode_utf8;

use crate::config::{BitbucketServerConfig, GitHubConfig, RepositoryConfig, valid_repo_name};
use crate::error::ErrorModel;
use crate::glob::glob_matches;
use crate::model::{CloneProtocol, SpecModel};
use crate::provider::bitbucket::{
    BitbucketRepo, CloneLink, Page, bitbucket_specs, first_href, listings, name_of, page_address,
    page_successor,
};
use crate::provider::github::{
    GitHubRepo, first_target, github_specs, link_target, next_page, page_taken,
};
use crate::provider::{canonical_remote, declared_specs};
use crate::text::{
    CharClass, decimal, debug_text, parted_first, split, trim_back, trim_both, trimmed,
};

verus! {

/// Whether a name matches one of some globs.
pub open spec fn is_among(globs: Seq<String>, name: Seq<char>) -> bool {
    exists|i: int|
        0 <= i < globs.len() && glob_matches((#[trigger] globs[i])@, encode_utf8(name))
}

/// Whether a text is one of some tags.
pub open spec fn is_tag(tags: Seq<String>, tag: Seq<char>) -> bool {
    exists|i: int| 0 <= i < tags.len() && (#[trigger] tags[i])@ == tag
}

/// What the file system makes of the remote at a place, where that is known.
pub open spec fn known_path(resolved: Seq<Option<String>>, i: int) -> Option<Seq<char>> {
    if 0 <= i < resolved.len() && resolved[i] is Some {
        Some(resolved[i]->Some_0@)
    } else {
        None
    }
}

/// The patterns of some globs.
pub proof fn lemma_among(globs: Seq<String>, name: Seq<char>)
    ensures
        crate::glob::some_glob_matches(crate::text::texts(globs), encode_utf8(name)) == is_among(
            globs,
            name,
        ),
{
    let patterns = crate::text::texts(globs);
    if crate::glob::some_glob_matches(patterns, encode_utf8(name)) {
        let i = choose|i: int|
            0 <= i < patterns.len() && glob_matches(#[trigger] patterns[i], encode_utf8(name));
        assert(glob_matches(globs[i]@, encode_utf8(name)));
    }
    if is_among(globs, name) {
        let i = choose|i: int|
            0 <= i < globs.len() && glob_matches((#[trigger] globs[i])@, encode_utf8(name));
        assert(glob_matches(patterns[i], encode_utf8(name)));
    }
}

/// The tags of a list are the set of it.
pub proof fn lemma_tags(tags: Seq<String>, tag: Seq<char>)
    ensures
        crate::string_set::set_of(tags).contains(tag) == is_tag(tags, tag),
        crate::text::texts(tags).to_set().contains(tag) == is_tag(tags, tag),
{
    let all = crate::text::texts(tags);
    if all.to_set().contains(tag) {
        let i = choose|i: int| 0 <= i < all.len() && all[i] == tag;
        assert(tags[i]@ == tag);
    }
    if is_tag(tags, tag) {
        let i = choose|i: int| 0 <= i < tags.len() && (#[trigger] tags[i])@ == tag;
        assert(all[i] == tag);
    }
}

/// Whether a GitHub source wants a repository: for each of forks, archived and
/// private repositories, it is none or the source includes them; it matches a
/// glob of the source, if there is one, and none of those that exclude.
pub open spec fn github_wants(config: GitHubConfig, repo: GitHubRepo) -> bool {
    &&& repo.fork ==> config.include_forks
    &&& repo.archived ==> config.include_archived
    &&& repo.private ==> config.include_private
    &&& config.includes@.len() > 0 ==> is_among(config.includes@, repo.full_name@)
    &&& !is_among(config.excludes@, repo.full_name@)
}

/// A GitHub source finds a repository of a page if and only if it wants it,
/// behind those that it found before: under its name and that of the repository,
/// with the remote of the transport that the source asks for, the default branch
/// and the tags of the source.
pub proof fn law_github_finds_what_it_wants(
    config: GitHubConfig,
    repos: Seq<GitHubRepo>,
    resolved: Seq<Option<String>>,
    count: int,
    earlier: Seq<SpecModel>,
)
    requires
        0 <= count < repos.len(),
        github_specs(config, repos, resolved, count) == Ok::<Seq<SpecModel>, ErrorModel>(earlier),
    ensures
        ({
            let repo = repos[count];
            let remote = if config.clone_protocol == CloneProtocol::Ssh {
                repo.ssh_url@
            } else {
                repo.clone_url@
            };
            let page = github_specs(config, repos, resolved, count + 1);
            if !github_wants(config, repo) {
                page == Ok::<Seq<SpecModel>, ErrorModel>(earlier)
            } else {
                match canonical_remote(remote, known_path(resolved, count)) {
                    Err(problem) => page == Err::<Seq<SpecModel>, ErrorModel>(problem),
                    Ok(canonical) => {
                        &&& page matches Ok(found)
                        &&& found.len() == earlier.len() + 1
                        &&& found.drop_last() == earlier
                        &&& found.last().id == config.name@ + "/"@ + repo.full_name@
                        &&& found.last().canonical_url == canonical
                        &&& found.last().clone_url == remote
                        &&& found.last().default_branch == Some(repo.default_branch@)
                        &&& forall|tag: Seq<char>| #[trigger]
                            found.last().tags.contains(tag) <==> is_tag(config.tags@, tag)
                    },
                }
            }
        }),
{
    lemma_among(config.includes@, repos[count].full_name@);
    lemma_among(config.excludes@, repos[count].full_name@);
    assert forall|tag: Seq<char>| #[trigger]
        crate::string_set::set_of(config.tags@).contains(tag) <==> is_tag(config.tags@, tag) by {
        lemma_tags(config.tags@, tag);
    }
    if let Ok(found) = github_specs(config, repos, resolved, count + 1) {
        if found.len() > earlier.len() {
            assert(found.drop_last() =~= earlier);
        }
    }
}

/// A page without repositories finds none; and the first problem of a page is
/// the outcome of all of it.
pub proof fn law_github_stops_at_the_first_problem(
    config: GitHubConfig,
    repos: Seq<GitHubRepo>,
    resolved: Seq<Option<String>>,
    count: int,
    problem: ErrorModel,
)
    requires
        0 <= count < repos.len(),
    ensures
        github_specs(config, repos, resolved, 0) == Ok::<Seq<SpecModel>, ErrorModel>(Seq::empty()),
        github_specs(config, repos, resolved, count) == Err::<Seq<SpecModel>, ErrorModel>(problem)
            ==> github_specs(config, repos, resolved, count + 1) == Err::<
            Seq<SpecModel>,
            ErrorModel,
        >(problem),
{
}

/// What a page finds stands behind what was found before; a page with a problem
/// adds nothing.
pub proof fn law_pages_add_up(
    before: Seq<SpecModel>,
    page: std::result::Result<Seq<SpecModel>, ErrorModel>,
    after: Seq<SpecModel>,
)
    requires
        page_taken(before, page, after),
    ensures
        page matches Ok(found) ==> {
            &&& after.len() == before.len() + found.len()
            &&& forall|i: int| 0 <= i < before.len() ==> #[trigger] after[i] == before[i]
            &&& forall|i: int|
                0 <= i < found.len() ==> after[before.len() + i] == #[trigger] found[i]
        },
        page is Err ==> after == before,
{
}

/// Whether one of the attributes behind the first semicolon of a link says that
/// it leads to the next page.
pub open spec fn leads_on(link: Seq<char>) -> bool {
    parted_first(trimmed(link), ';') matches Some((url, attributes)) && exists|i: int|
        0 <= i < split(attributes, ';').len() && trimmed(#[trigger] split(attributes, ';')[i])
            == "rel=\"next\""@
}

/// There is a next page if and only if one of the links of the header leads on,
/// and then it is the one that the first of those names between its brackets.
pub proof fn law_the_first_link_that_leads_on_is_followed(value: Seq<char>, at: int)
    ensures
        next_page(value) is None <==> forall|i: int|
            0 <= i < split(value, ',').len() ==> !leads_on(#[trigger] split(value, ',')[i]),
        0 <= at < split(value, ',').len() && leads_on(split(value, ',')[at]) && (forall|i: int|
            0 <= i < at ==> !leads_on(#[trigger] split(value, ',')[i])) ==> next_page(value)
            == Some(
            trim_both(
                trimmed(parted_first(trimmed(split(value, ',')[at]), ';')->Some_0.0),
                CharClass::AngleBracket,
            ),
        ),
{
    lemma_first_target(split(value, ','), at);
}

/// The first link that leads on.
proof fn lemma_first_target(links: Seq<Seq<char>>, at: int)
    ensures
        first_target(links) is None <==> forall|i: int|
            0 <= i < links.len() ==> !leads_on(#[trigger] links[i]),
        0 <= at < links.len() && leads_on(links[at]) && (forall|i: int|
            0 <= i < at ==> !leads_on(#[trigger] links[i])) ==> first_target(links)
            == link_target(links[at]),
    decreases links.len(),
{
    if links.len() > 0 {
        let rest = links.drop_last();
        let last = links.len() - 1;
        lemma_first_target(rest, at);
        assert(forall|i: int| 0 <= i < rest.len() ==> rest[i] == links[i]);
        assert(links.last() == links[last]);
        assert(link_target(links[last]) is Some <==> leads_on(links[last]));
        if first_target(links) is None {
            assert forall|i: int| 0 <= i < links.len() implies !leads_on(#[trigger] links[i]) by {
                if i < last {
                    assert(rest[i] == links[i]);
                }
            }
        }
        if forall|i: int| 0 <= i < links.len() ==> !leads_on(#[trigger] links[i]) {
            assert forall|i: int| 0 <= i < rest.len() implies !leads_on(#[trigger] rest[i]) by {
                assert(rest[i] == links[i]);
            }
        }
        if 0 <= at < links.len() && leads_on(links[at]) && (forall|i: int|
            0 <= i < at ==> !leads_on(#[trigger] links[i])) {
            if at < last {
                assert forall|i: int| 0 <= i < at implies !leads_on(#[trigger] rest[i]) by {
                    assert(rest[i] == links[i]);
                }
                assert(leads_on(rest[at]));
            } else {
                assert forall|i: int| 0 <= i < rest.len() implies !leads_on(
                    #[trigger] rest[i],
                ) by {
                    assert(rest[i] == links[i]);
                }
            }
        }
    }
}

/// Whether a Bitbucket source wants a repository: it is not archived or the
/// source includes those; it matches a glob of the source, if there is one, and
/// none of those that exclude.
pub open spec fn bitbucket_wants(config: BitbucketServerConfig, repo: BitbucketRepo) -> bool {
    let name = repo.project.key@ + "/"@ + repo.slug@;
    &&& repo.archived ==> config.include_archived
    &&& config.includes@.len() > 0 ==> is_among(config.includes@, name)
    &&& !is_among(config.excludes@, name)
}

/// The name under which Bitbucket lists the remotes of a transport.
pub open spec fn transport_name(protocol: CloneProtocol) -> Seq<char> {
    match protocol {
        CloneProtocol::Ssh => "ssh"@,
        CloneProtocol::Https => "http"@,
    }
}

/// The remote of a transport is the first link with its name; there is none only
/// if no link has that name.
pub proof fn law_the_first_link_of_the_transport_is_the_remote(
    links: Seq<CloneLink>,
    name: Seq<char>,
    at: int,
)
    ensures
        first_href(links, name) is None <==> forall|i: int|
            0 <= i < links.len() ==> (#[trigger] links[i]).name@ != name,
        0 <= at < links.len() && links[at].name@ == name && (forall|i: int|
            0 <= i < at ==> (#[trigger] links[i]).name@ != name) ==> first_href(links, name)
            == Some(links[at].href@),
    decreases links.len(),
{
    if links.len() > 0 && links[0].name@ != name {
        let rest = links.subrange(1, links.len() as int);
        law_the_first_link_of_the_transport_is_the_remote(rest, name, at - 1);
        assert(forall|i: int| 0 <= i < rest.len() ==> rest[i] == links[i + 1]);
        if first_href(links, name) is None {
            assert forall|i: int| 0 <= i < links.len() implies (#[trigger] links[i]).name@
                != name by {
                if i > 0 {
                    assert(rest[i - 1] == links[i]);
                }
            }
        }
        if forall|i: int| 0 <= i < links.len() ==> (#[trigger] links[i]).name@ != name {
            assert forall|i: int| 0 <= i < rest.len() implies (#[trigger] rest[i]).name@
                != name by {
                assert(rest[i] == links[i + 1]);
            }
        }
        if 0 <= at < links.len() && links[at].name@ == name && (forall|i: int|
            0 <= i < at ==> (#[trigger] links[i]).name@ != name) {
            assert(at > 0);
            assert(rest[at - 1] == links[at]);
            assert forall|i: int| 0 <= i < at - 1 implies (#[trigger] rest[i]).name@ != name by {
                assert(rest[i] == links[i + 1]);
            }
        }
    }
}

/// A Bitbucket source finds a repository of a page if and only if it wants it,
/// behind those that it found before: under its name, the project and the name
/// of the repository, with the remote of the transport that the source asks for,
/// the default branch where there is one, and the tags of the source. One
/// without such a remote is a problem.
pub proof fn law_bitbucket_finds_what_it_wants(
    config: BitbucketServerConfig,
    repos: Seq<BitbucketRepo>,
    resolved: Seq<Option<String>>,
    count: int,
    earlier: Seq<SpecModel>,
)
    requires
        0 <= count < repos.len(),
        bitbucket_specs(config, repos, resolved, count) == Ok::<Seq<SpecModel>, ErrorModel>(
            earlier,
        ),
    ensures
        ({
            let repo = repos[count];
            let name = repo.project.key@ + "/"@ + repo.slug@;
            let transport = transport_name(config.clone_protocol);
            let page = bitbucket_specs(config, repos, resolved, count + 1);
            if !bitbucket_wants(config, repo) {
                page == Ok::<Seq<SpecModel>, ErrorModel>(earlier)
            } else {
                match first_href(repo.links.clone@, transport) {
                    None => page == Err::<Seq<SpecModel>, ErrorModel>(
                        ErrorModel::Config(
                            "Bitbucket repository "@ + name + " has no "@ + transport
                                + " clone URL"@,
                        ),
                    ),
                    Some(remote) => match canonical_remote(remote, known_path(resolved, count)) {
                        Err(problem) => page == Err::<Seq<SpecModel>, ErrorModel>(problem),
                        Ok(canonical) => {
                            &&& page matches Ok(found)
                            &&& found.len() == earlier.len() + 1
                            &&& found.drop_last() == earlier
                            &&& found.last().id == config.name@ + "/"@ + name
                            &&& found.last().canonical_url == canonical
                            &&& found.last().clone_url == remote
                            &&& match repo.default_branch {
                                Some(branch) => found.last().default_branch == Some(
                                    branch.display_id@,
                                ),
                                None => found.last().default_branch is None,
                            }
                            &&& forall|tag: Seq<char>| #[trigger]
                                found.last().tags.contains(tag) <==> is_tag(config.tags@, tag)
                        },
                    },
                }
            }
        }),
{
    let name = repos[count].project.key@ + "/"@ + repos[count].slug@;
    assert(name_of(repos[count]) == name);
    lemma_among(config.includes@, name);
    lemma_among(config.excludes@, name);
    assert forall|tag: Seq<char>| #[trigger]
        crate::string_set::set_of(config.tags@).contains(tag) <==> is_tag(config.tags@, tag) by {
        lemma_tags(config.tags@, tag);
    }
    if let Ok(found) = bitbucket_specs(config, repos, resolved, count + 1) {
        if found.len() > earlier.len() {
            assert(found.drop_last() =~= earlier);
        }
    }
}

/// A page without repositories finds none; and the first problem of a page is
/// the outcome of all of it.
pub proof fn law_bitbucket_stops_at_the_first_problem(
    config: BitbucketServerConfig,
    repos: Seq<BitbucketRepo>,
    resolved: Seq<Option<String>>,
    count: int,
    problem: ErrorModel,
)
    requires
        0 <= count < repos.len(),
    ensures
        bitbucket_specs(config, repos, resolved, 0) == Ok::<Seq<SpecModel>, ErrorModel>(
            Seq::empty(),
        ),
        bitbucket_specs(config, repos, resolved, count) == Err::<Seq<SpecModel>, ErrorModel>(
            problem,
        ) ==> bitbucket_specs(config, repos, resolved, count + 1) == Err::<
            Seq<SpecModel>,
            ErrorModel,
        >(problem),
{
}

/// Behind a page of a listing comes the one at the start that it names, until
/// the last one; a page that is not the last and names no start is a problem.
pub proof fn law_listings_are_read_to_the_last_page(url: Seq<char>, page: Page)
    ensures
        page.last ==> page_successor(url, page) == Ok::<Option<Seq<char>>, ErrorModel>(None),
        !page.last && page.next_page_start is None ==> page_successor(url, page) == Err::<
            Option<Seq<char>>,
            ErrorModel,
        >(
            ErrorModel::Config(
                "Bitbucket response is not the last page but has no nextPageStart"@,
            ),
        ),
        !page.last ==> (page.next_page_start matches Some(start) ==> {
            &&& url.contains('?') ==> page_successor(url, page) == Ok::<
                Option<Seq<char>>,
                ErrorModel,
            >(Some(url + "&"@ + "start="@ + decimal(start as nat)))
            &&& !url.contains('?') ==> page_successor(url, page) == Ok::<
                Option<Seq<char>>,
                ErrorModel,
            >(Some(url + "?"@ + "start="@ + decimal(start as nat)))
        }),
        page_address(url, None) == url,
{
}

/// A Bitbucket source asks for each of its projects, in their order, and without
/// any for every repository that it can read.
pub proof fn law_projects_are_listed(config: BitbucketServerConfig, i: int)
    ensures
        config.projects@.len() == 0 ==> listings(config).len() == 1 && listings(config)[0]
            == trim_back(config.base_url@, CharClass::Slash)
            + "/rest/api/1.0/repos?limit=100&permission=REPO_READ"@,
        config.projects@.len() > 0 ==> listings(config).len() == config.projects@.len(),
        0 <= i < config.projects@.len() ==> listings(config)[i] == trim_back(
            config.base_url@,
            CharClass::Slash,
        ) + "/rest/api/1.0/projects/"@ + config.projects@[i]@ + "/repos?limit=100"@,
{
}

/// What is declared by hand is found as it is declared: under its identifier,
/// behind the name of the source if there is one, with its own remote, its
/// default branch where it has one, and all tags of the source and its own but
/// the empty one. A name that is not acceptable, an identifier that was declared
/// before, and a remote without a canonical form are problems.
pub proof fn law_declared_repositories_are_found(
    source: Option<Seq<char>>,
    repositories: Seq<RepositoryConfig>,
    default_tags: Seq<String>,
    context: Seq<char>,
    resolved: Seq<Option<String>>,
    count: int,
    earlier: Seq<SpecModel>,
)
    requires
        0 <= count < repositories.len(),
        declared_specs(
            source,
            repositories,
            crate::text::texts(default_tags),
            context,
            resolved,
            count,
        ) == Ok::<Seq<SpecModel>, ErrorModel>(earlier),
    ensures
        ({
            let repository = repositories[count];
            let list = declared_specs(
                source,
                repositories,
                crate::text::texts(default_tags),
                context,
                resolved,
                count + 1,
            );
            let again = exists|j: int|
                0 <= j < count && #[trigger] repositories[j].id@ == repository.id@;
            &&& !valid_repo_name(repository.id@) ==> list is Err
            &&& valid_repo_name(repository.id@) && again ==> list == Err::<
                Seq<SpecModel>,
                ErrorModel,
            >(
                ErrorModel::Config(
                    "duplicate repository id "@ + debug_text(repository.id@) + " in "@ + context,
                ),
            )
            &&& valid_repo_name(repository.id@) && !again ==> match canonical_remote(
                repository.url@,
                known_path(resolved, count),
            ) {
                Err(problem) => list == Err::<Seq<SpecModel>, ErrorModel>(problem),
                Ok(canonical) => {
                    &&& list matches Ok(found)
                    &&& found.len() == earlier.len() + 1
                    &&& found.drop_last() == earlier
                    &&& match source {
                        Some(name) => found.last().id == name + "/"@ + repository.id@,
                        None => found.last().id == repository.id@,
                    }
                    &&& found.last().canonical_url == canonical
                    &&& found.last().clone_url == repository.url@
                    &&& match repository.default_branch {
                        Some(branch) => found.last().default_branch == Some(branch@),
                        None => found.last().default_branch is None,
                    }
                    &&& forall|tag: Seq<char>| #[trigger]
                        found.last().tags.contains(tag) <==> tag.len() > 0 && (is_tag(
                            default_tags,
                            tag,
                        ) || is_tag(repository.tags@, tag))
                },
            }
        }),
{
    let repository = repositories[count];
    let tags = crate::provider::combined_tags(
        crate::text::texts(default_tags),
        crate::text::texts(repository.tags@),
    );
    assert forall|tag: Seq<char>| #[trigger] tags.contains(tag) <==> tag.len() > 0 && (is_tag(
        default_tags,
        tag,
    ) || is_tag(repository.tags@, tag)) by {
        lemma_tags(default_tags, tag);
        lemma_tags(repository.tags@, tag);
        if tag.len() == 0 {
            assert(tag =~= Seq::empty());
        }
    }
    let list = declared_specs(
        source,
        repositories,
        crate::text::texts(default_tags),
        context,
        resolved,
        count + 1,
    );
    if let Ok(found) = list {
        if found.len() > earlier.len() {
            assert(found.drop_last() =~= earlier);
        }
    }
}

/// Nothing declared is nothing found; and the first problem is the outcome of
/// the whole list.
pub proof fn law_declared_lists_stop_at_the_first_problem(
    source: Option<Seq<char>>,
    repositories: Seq<RepositoryConfig>,
    default_tags: Seq<Seq<char>>,
    context: Seq<char>,
    resolved: Seq<Option<String>>,
    count: int,
    problem: ErrorModel,
)
    requires
        0 <= count < repositories.len(),
    ensures
        declared_specs(source, repositories, default_tags, context, resolved, 0) == Ok::<
            Seq<SpecModel>,
            ErrorModel,
        >(Seq::empty()),
        declared_specs(source, repositories, default_tags, context, resolved, count) == Err::<
            Seq<SpecModel>,
            ErrorModel,
        >(problem) ==> declared_specs(
            source,
            repositories,
            default_tags,
            context,
            resolved,
            count + 1,
        ) == Err::<Seq<SpecModel>, ErrorModel>(problem),
{
}

}

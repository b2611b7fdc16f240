//! Repositories that GitHub lists.

use vstd::prelude::*;

use crate::config::GitHubConfig;
use crate::error::{ErrorModel, Result};
use crate::model::{CloneProtocol, RepoSpec, SpecModel, specs};
use crate::provider::{
    Filters, canonical_remote, canonicalize_remote, filters_hold, resolved_at, resolved_entry,
    selects,
};
use crate::string_set::{StringSet, set_of};
use crate::text::{
    CharClass, cat2, cat3, opt_text, part_first, parted_first, split, split_text, text_eq, texts,
    trim, trim_back, trim_both, trim_class, trim_end, trimmed,
};

verus! {

/// A repository as GitHub describes it.
#[derive(Debug)]
pub struct GitHubRepo {
    pub full_name: String,
    pub ssh_url: String,
    pub clone_url: String,
    pub default_branch: String,
    pub fork: bool,
    pub archived: bool,
    pub private: bool,
}

/// The address of the first page of repositories.
pub fn first_page_url(config: &GitHubConfig) -> (url: String)
    ensures
        url@ == trim_back(config.api_url@, CharClass::Slash)
            + "/user/repos?per_page=100&affiliation=owner,collaborator,organization_member"@,
{
    cat2(
        trim_end(config.api_url.as_str(), CharClass::Slash).as_str(),
        "/user/repos?per_page=100&affiliation=owner,collaborator,organization_member",
    )
}

/// Whether one of some attributes of a link says that it leads to the next
/// page.
pub open spec fn says_next(attributes: Seq<char>) -> bool {
    exists|i: int|
        0 <= i < split(attributes, ';').len() && trimmed(#[trigger] split(attributes, ';')[i])
            == "rel=\"next\""@
}

/// The address of the next page in one link of a `Link` header.
pub open spec fn link_target(link: Seq<char>) -> Option<Seq<char>> {
    match parted_first(trimmed(link), ';') {
        Some((url, attributes)) => if says_next(attributes) {
            Some(trim_both(trimmed(url), CharClass::AngleBracket))
        } else {
            None
        },
        None => None,
    }
}

/// The first address of a next page among some links.
pub open spec fn first_target(links: Seq<Seq<char>>) -> Option<Seq<char>>
    decreases links.len(),
{
    if links.len() == 0 {
        None
    } else {
        match first_target(links.drop_last()) {
            Some(target) => Some(target),
            None => link_target(links.last()),
        }
    }
}

/// The address of the next page in a `Link` header.
pub open spec fn next_page(value: Seq<char>) -> Option<Seq<char>> {
    first_target(split(value, ','))
}

/// An address found among the first links stays the first of all.
proof fn lemma_first_target(links: Seq<Seq<char>>, count: int)
    requires
        0 <= count <= links.len(),
        first_target(links.take(count)) is Some,
    ensures
        first_target(links) == first_target(links.take(count)),
    decreases links.len(),
{
    if count < links.len() {
        assert(links.drop_last().take(count) =~= links.take(count));
        lemma_first_target(links.drop_last(), count);
    } else {
        assert(links.take(count) =~= links);
    }
}

/// The address of the next page in one link of a `Link` header.
fn target_of(link: &str) -> (target: Option<String>)
    ensures
        opt_text(target) == link_target(link@),
{
    match part_first(trim(link).as_str(), ';') {
        Some(parts) => {
            let attributes = split_text(parts.1.as_str(), ';');
            let ghost all = split(parts.1@, ';');
            let mut i: usize = 0;
            while i < attributes.len()
                invariant
                    i <= attributes@.len(),
                    all == texts(attributes@),
                    all == split(parts.1@, ';'),
                    parted_first(trimmed(link@), ';') == Some((parts.0@, parts.1@)),
                    forall|j: int| 0 <= j < i ==> trimmed(#[trigger] all[j]) != "rel=\"next\""@,
                decreases attributes@.len() - i,
            {
                assert(attributes@[i as int]@ == all[i as int]);
                if text_eq(trim(attributes[i].as_str()).as_str(), "rel=\"next\"") {
                    return Some(
                        trim_class(trim(parts.0.as_str()).as_str(), CharClass::AngleBracket),
                    );
                }
                i += 1;
            }
            None
        },
        None => None,
    }
}

/// The address of the next page in a `Link` header.
pub fn next_link(value: &str) -> (target: Option<String>)
    ensures
        opt_text(target) == next_page(value@),
{
    let links = split_text(value, ',');
    let ghost all = split(value@, ',');
    let mut i: usize = 0;
    proof {
        assert(all.take(0) =~= Seq::empty());
    }
    while i < links.len()
        invariant
            i <= links@.len(),
            all == texts(links@),
            all == split(value@, ','),
            first_target(all.take(i as int)) is None,
        decreases links@.len() - i,
    {
        proof {
            assert(all.take(i + 1).drop_last() =~= all.take(i as int));
            assert(all.take(i + 1).last() == links@[i as int]@);
        }
        let target = target_of(links[i].as_str());
        if target.is_some() {
            proof {
                lemma_first_target(all, i + 1);
            }
            return target;
        }
        i += 1;
    }
    proof {
        assert(all.take(links@.len() as int) =~= all);
    }
    None
}

/// Whether a source takes a repository.
pub open spec fn takes(config: GitHubConfig, repo: GitHubRepo) -> bool {
    &&& config.include_forks || !repo.fork
    &&& config.include_archived || !repo.archived
    &&& config.include_private || !repo.private
    &&& selects(texts(config.includes@), texts(config.excludes@), repo.full_name@)
}

/// The remote of a repository for the transport of its source.
pub open spec fn remote_of(config: GitHubConfig, repo: GitHubRepo) -> Seq<char> {
    match config.clone_protocol {
        CloneProtocol::Ssh => repo.ssh_url@,
        CloneProtocol::Https => repo.clone_url@,
    }
}

/// The remote of a repository for the transport of its source.
pub fn clone_url<'a>(config: &GitHubConfig, repo: &'a GitHubRepo) -> (url: &'a str)
    ensures
        url@ == remote_of(*config, *repo),
{
    match config.clone_protocol {
        CloneProtocol::Ssh => repo.ssh_url.as_str(),
        CloneProtocol::Https => repo.clone_url.as_str(),
    }
}

/// What a source says of a repository that it takes.
pub open spec fn github_spec(
    config: GitHubConfig,
    repo: GitHubRepo,
    resolved: Option<Seq<char>>,
) -> std::result::Result<SpecModel, ErrorModel> {
    match canonical_remote(remote_of(config, repo), resolved) {
        Err(error) => Err(error),
        Ok(canonical_url) => Ok(
            SpecModel {
                id: config.name@ + "/"@ + repo.full_name@,
                canonical_url,
                clone_url: remote_of(config, repo),
                default_branch: Some(repo.default_branch@),
                tags: set_of(config.tags@),
            },
        ),
    }
}

/// What a source says of the first repositories of a page: those that it does
/// not take are left out, and the first problem ends it.
pub open spec fn github_specs(
    config: GitHubConfig,
    repos: Seq<GitHubRepo>,
    resolved: Seq<Option<String>>,
    count: int,
) -> std::result::Result<Seq<SpecModel>, ErrorModel>
    decreases count,
{
    if count <= 0 {
        Ok(Seq::empty())
    } else {
        match github_specs(config, repos, resolved, count - 1) {
            Err(error) => Err(error),
            Ok(earlier) => if !takes(config, repos[count - 1]) {
                Ok(earlier)
            } else {
                match github_spec(config, repos[count - 1], resolved_at(resolved, count - 1)) {
                    Err(error) => Err(error),
                    Ok(spec) => Ok(earlier.push(spec)),
                }
            },
        }
    }
}

/// A problem among the first repositories stays the outcome.
proof fn lemma_github_specs_error(
    config: GitHubConfig,
    repos: Seq<GitHubRepo>,
    resolved: Seq<Option<String>>,
    count: int,
    total: int,
)
    requires
        0 <= count <= total,
        github_specs(config, repos, resolved, count) is Err,
    ensures
        github_specs(config, repos, resolved, total) == github_specs(
            config,
            repos,
            resolved,
            count,
        ),
    decreases total - count,
{
    if count < total {
        lemma_github_specs_error(config, repos, resolved, count, total - 1);
    }
}

/// Whether a page of repositories leads to the described outcome: the
/// descriptions of the page are added to those found before, and the link, if
/// there is one, leads on; or the first problem is reported and nothing added.
pub open spec fn page_taken(
    before: Seq<SpecModel>,
    page: std::result::Result<Seq<SpecModel>, ErrorModel>,
    after: Seq<SpecModel>,
) -> bool {
    match page {
        Ok(found) => after == before + found,
        Err(_) => after == before,
    }
}

/// Takes a page of repositories into account and says which page comes next.
/// `filters` are those of the source, `link` is the `Link` header of the page,
/// and `resolved` holds what the file system makes of remotes that are paths
/// of this machine.
pub fn take_page(
    config: &GitHubConfig,
    filters: &Filters,
    repos: &Vec<GitHubRepo>,
    link: Option<&str>,
    resolved: &Vec<Option<String>>,
    discovered: &mut Vec<RepoSpec>,
) -> (next: Result<Option<String>>)
    requires
        filters_hold(*filters, texts(config.includes@), texts(config.excludes@)),
    ensures
        page_taken(
            specs(old(discovered)@),
            github_specs(*config, repos@, resolved@, repos@.len() as int),
            specs(final(discovered)@),
        ),
        match next {
            Ok(next) => {
                &&& github_specs(*config, repos@, resolved@, repos@.len() as int) is Ok
                &&& opt_text(next) == match link {
                    Some(link) => next_page(link@),
                    None => None,
                }
            },
            Err(error) => github_specs(*config, repos@, resolved@, repos@.len() as int) == Err::<
                Seq<SpecModel>,
                ErrorModel,
            >(error@),
        },
{
    let ghost all = repos@;
    let ghost before = specs(discovered@);
    let mut found: Vec<RepoSpec> = Vec::new();
    let tags = StringSet::from_list(&config.tags);
    let mut i: usize = 0;
    proof {
        assert(specs(found@) =~= Seq::empty());
    }
    while i < repos.len()
        invariant
            i <= repos@.len(),
            all == repos@,
            filters_hold(*filters, texts(config.includes@), texts(config.excludes@)),
            tags@ == set_of(config.tags@),
            discovered@ == old(discovered)@,
            before == specs(old(discovered)@),
            github_specs(*config, all, resolved@, i as int) == Ok::<Seq<SpecModel>, ErrorModel>(
                specs(found@),
            ),
        decreases repos@.len() - i,
    {
        let repo = &repos[i];
        let ghost earlier = specs(found@);
        if !((!config.include_forks && repo.fork) || (!config.include_archived && repo.archived)
            || (!config.include_private && repo.private) || !filters.matches(
            repo.full_name.as_str(),
        )) {
            let url = clone_url(config, repo);
            match canonicalize_remote(url, resolved_entry(resolved, i)) {
                Ok(canonical_url) => {
                    found.push(
                        RepoSpec {
                            id: cat3(config.name.as_str(), "/", repo.full_name.as_str()),
                            canonical_url,
                            clone_url: url.to_owned(),
                            default_branch: Some(repo.default_branch.clone()),
                            tags: tags.clone(),
                        },
                    );
                    proof {
                        assert(specs(found@) =~= earlier.push(found@.last()@));
                    }
                },
                Err(error) => {
                    proof {
                        lemma_github_specs_error(
                            *config,
                            all,
                            resolved@,
                            i + 1,
                            all.len() as int,
                        );
                    }
                    return Err(error);
                },
            }
        }
        i += 1;
    }
    let ghost page = specs(found@);
    discovered.append(&mut found);
    proof {
        assert(specs(discovered@) =~= before + page);
    }
    match link {
        Some(link) => Ok(next_link(link)),
        None => Ok(None),
    }
}

}

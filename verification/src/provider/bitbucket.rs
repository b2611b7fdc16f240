//! Repositories that Bitbucket Server lists.

use vstd::prelude::*;

use crate::config::BitbucketServerConfig;
use crate::error::{Error, ErrorModel, Result};
use crate::model::{CloneProtocol, RepoSpec, SpecModel, specs};
use crate::provider::{
    Filters, canonical_remote, canonicalize_remote, filters_hold, resolved_at, resolved_entry,
    selects,
};
use crate::provider::github::page_taken;
use crate::string_set::{StringSet, set_of};
use crate::text::{
    CharClass, cat2, cat3, cat4, cat5, contains_char, decimal, decimal_text, opt_text, text_eq,
    texts, trim_back, trim_end,
};

verus! {

/// A page of repositories as Bitbucket Server sends it.
#[derive(Debug)]
pub struct Page {
    pub values: Vec<BitbucketRepo>,
    pub last: bool,
    pub next_page_start: Option<u64>,
}

/// A repository as Bitbucket Server describes it.
#[derive(Debug)]
pub struct BitbucketRepo {
    pub slug: String,
    pub project: Project,
    pub archived: bool,
    pub default_branch: Option<Branch>,
    pub links: Links,
}

/// The project of a repository.
#[derive(Debug)]
pub struct Project {
    pub key: String,
}

/// A branch of a repository.
#[derive(Debug)]
pub struct Branch {
    pub display_id: String,
}

/// The links of a repository.
#[derive(Debug)]
pub struct Links {
    pub clone: Vec<CloneLink>,
}

/// A remote of a repository.
#[derive(Debug)]
pub struct CloneLink {
    pub name: String,
    pub href: String,
}

/// The addresses at which a source lists its repositories: one for each of its
/// projects, or one for all that can be read if it names none.
pub open spec fn listings(config: BitbucketServerConfig) -> Seq<Seq<char>> {
    let base = trim_back(config.base_url@, CharClass::Slash);
    if config.projects@.len() == 0 {
        seq![base + "/rest/api/1.0/repos?limit=100&permission=REPO_READ"@]
    } else {
        Seq::new(
            config.projects@.len(),
            |i: int|
                base + "/rest/api/1.0/projects/"@ + config.projects@[i]@ + "/repos?limit=100"@,
        )
    }
}

/// The addresses at which a source lists its repositories.
pub fn listing_urls(config: &BitbucketServerConfig) -> (urls: Vec<String>)
    ensures
        texts(urls@) == listings(*config),
{
    let base = trim_end(config.base_url.as_str(), CharClass::Slash);
    let mut urls: Vec<String> = Vec::new();
    if config.projects.len() == 0 {
        urls.push(cat2(base.as_str(), "/rest/api/1.0/repos?limit=100&permission=REPO_READ"));
        proof {
            assert(texts(urls@) =~= listings(*config));
        }
        return urls;
    }
    let mut i: usize = 0;
    while i < config.projects.len()
        invariant
            i <= config.projects@.len(),
            config.projects@.len() > 0,
            base@ == trim_back(config.base_url@, CharClass::Slash),
            urls@.len() == i,
            forall|j: int| 0 <= j < i ==> texts(urls@)[j] == #[trigger] listings(*config)[j],
        decreases config.projects@.len() - i,
    {
        let ghost earlier = urls@;
        urls.push(
            cat4(
                base.as_str(),
                "/rest/api/1.0/projects/",
                config.projects[i].as_str(),
                "/repos?limit=100",
            ),
        );
        proof {
            assert forall|j: int| 0 <= j < i + 1 implies texts(urls@)[j] == #[trigger] listings(
                *config,
            )[j] by {
                if j < i {
                    assert(texts(earlier)[j] == listings(*config)[j]);
                }
            }
        }
        i += 1;
    }
    proof {
        assert(texts(urls@) =~= listings(*config));
    }
    urls
}

/// The address of a page of a listing.
pub open spec fn page_address(url: Seq<char>, start: Option<u64>) -> Seq<char> {
    match start {
        None => url,
        Some(start) => url + (if url.contains('?') {
            "&"@
        } else {
            "?"@
        }) + "start="@ + decimal(start as nat),
    }
}

/// The address of a page of a listing.
pub fn page_url(url: &str, start: Option<u64>) -> (address: String)
    ensures
        address@ == page_address(url@, start),
{
    match start {
        None => url.to_owned(),
        Some(start) => {
            let separator = if contains_char(url, '?') {
                "&"
            } else {
                "?"
            };
            cat4(url, separator, "start=", decimal_text(start).as_str())
        },
    }
}

/// The name of a repository within its server.
pub open spec fn name_of(repo: BitbucketRepo) -> Seq<char> {
    repo.project.key@ + "/"@ + repo.slug@
}

/// The name of the transport of a source.
pub open spec fn transport(config: BitbucketServerConfig) -> Seq<char> {
    match config.clone_protocol {
        CloneProtocol::Ssh => "ssh"@,
        CloneProtocol::Https => "http"@,
    }
}

/// The first remote among some links with a name.
pub open spec fn first_href(links: Seq<CloneLink>, name: Seq<char>) -> Option<Seq<char>>
    decreases links.len(),
{
    if links.len() == 0 {
        None
    } else if links[0].name@ == name {
        Some(links[0].href@)
    } else {
        first_href(links.subrange(1, links.len() as int), name)
    }
}

/// The remote of a repository for the transport of its source.
pub fn clone_url<'a>(config: &BitbucketServerConfig, repo: &'a BitbucketRepo) -> (url: Option<
    &'a String,
>)
    ensures
        match url {
            Some(url) => first_href(repo.links.clone@, transport(*config)) == Some(url@),
            None => first_href(repo.links.clone@, transport(*config)) is None,
        },
{
    let requested = match config.clone_protocol {
        CloneProtocol::Ssh => "ssh",
        CloneProtocol::Https => "http",
    };
    let links = &repo.links.clone;
    let ghost all = links@;
    let mut i: usize = 0;
    proof {
        assert(all.subrange(0, all.len() as int) =~= all);
    }
    while i < links.len()
        invariant
            i <= links@.len(),
            all == links@,
            all == repo.links.clone@,
            requested@ == transport(*config),
            first_href(all, requested@) == first_href(
                all.subrange(i as int, all.len() as int),
                requested@,
            ),
        decreases links@.len() - i,
    {
        proof {
            let rest = all.subrange(i as int, all.len() as int);
            assert(rest[0] == all[i as int]);
            assert(rest.subrange(1, rest.len() as int) =~= all.subrange(i + 1, all.len() as int));
        }
        if text_eq(links[i].name.as_str(), requested) {
            return Some(&links[i].href);
        }
        i += 1;
    }
    None
}

/// Whether a source takes a repository.
pub open spec fn takes(config: BitbucketServerConfig, repo: BitbucketRepo) -> bool {
    &&& config.include_archived || !repo.archived
    &&& selects(texts(config.includes@), texts(config.excludes@), name_of(repo))
}

/// What a source says of a repository that it takes.
pub open spec fn bitbucket_spec(
    config: BitbucketServerConfig,
    repo: BitbucketRepo,
    resolved: Option<Seq<char>>,
) -> std::result::Result<SpecModel, ErrorModel> {
    match first_href(repo.links.clone@, transport(config)) {
        None => Err(
            ErrorModel::Config(
                "Bitbucket repository "@ + name_of(repo) + " has no "@ + transport(config)
                    + " clone URL"@,
            ),
        ),
        Some(clone_url) => match canonical_remote(clone_url, resolved) {
            Err(error) => Err(error),
            Ok(canonical_url) => Ok(
                SpecModel {
                    id: config.name@ + "/"@ + name_of(repo),
                    canonical_url,
                    clone_url,
                    default_branch: match repo.default_branch {
                        Some(branch) => Some(branch.display_id@),
                        None => None,
                    },
                    tags: set_of(config.tags@),
                },
            ),
        },
    }
}

/// What a source says of the first repositories of a page: those that it does
/// not take are left out, and the first problem ends it.
pub open spec fn bitbucket_specs(
    config: BitbucketServerConfig,
    repos: Seq<BitbucketRepo>,
    resolved: Seq<Option<String>>,
    count: int,
) -> std::result::Result<Seq<SpecModel>, ErrorModel>
    decreases count,
{
    if count <= 0 {
        Ok(Seq::empty())
    } else {
        match bitbucket_specs(config, repos, resolved, count - 1) {
            Err(error) => Err(error),
            Ok(earlier) => if !takes(config, repos[count - 1]) {
                Ok(earlier)
            } else {
                match bitbucket_spec(config, repos[count - 1], resolved_at(resolved, count - 1)) {
                    Err(error) => Err(error),
                    Ok(spec) => Ok(earlier.push(spec)),
                }
            },
        }
    }
}

/// A problem among the first repositories stays the outcome.
proof fn lemma_bitbucket_specs_error(
    config: BitbucketServerConfig,
    repos: Seq<BitbucketRepo>,
    resolved: Seq<Option<String>>,
    count: int,
    total: int,
)
    requires
        0 <= count <= total,
        bitbucket_specs(config, repos, resolved, count) is Err,
    ensures
        bitbucket_specs(config, repos, resolved, total) == bitbucket_specs(
            config,
            repos,
            resolved,
            count,
        ),
    decreases total - count,
{
    if count < total {
        lemma_bitbucket_specs_error(config, repos, resolved, count, total - 1);
    }
}

/// What comes behind a page: nothing behind the last one, else the page at the
/// start that it names.
pub open spec fn page_successor(url: Seq<char>, page: Page) -> std::result::Result<
    Option<Seq<char>>,
    ErrorModel,
> {
    if page.last {
        Ok(None)
    } else {
        match page.next_page_start {
            Some(start) => Ok(Some(page_address(url, Some(start)))),
            None => Err(
                ErrorModel::Config(
                    "Bitbucket response is not the last page but has no nextPageStart"@,
                ),
            ),
        }
    }
}

/// Takes a page of a listing into account and says which page comes next.
/// `filters` are those of the source, `url` is the address of the listing, and
/// `resolved` holds what the file system makes of remotes that are paths of
/// this machine.
pub fn take_page(
    config: &BitbucketServerConfig,
    filters: &Filters,
    url: &str,
    page: &Page,
    resolved: &Vec<Option<String>>,
    discovered: &mut Vec<RepoSpec>,
) -> (next: Result<Option<String>>)
    requires
        filters_hold(*filters, texts(config.includes@), texts(config.excludes@)),
    ensures
        page_taken(
            specs(old(discovered)@),
            bitbucket_specs(*config, page.values@, resolved@, page.values@.len() as int),
            specs(final(discovered)@),
        ),
        match bitbucket_specs(*config, page.values@, resolved@, page.values@.len() as int) {
            Err(problem) => next matches Err(error) && error@ == problem,
            Ok(_) => match next {
                Ok(next) => page_successor(url@, *page) == Ok::<Option<Seq<char>>, ErrorModel>(
                    opt_text(next),
                ),
                Err(error) => page_successor(url@, *page) == Err::<Option<Seq<char>>, ErrorModel>(
                    error@,
                ),
            },
        },
{
    let repos = &page.values;
    let ghost all = repos@;
    let ghost before = specs(discovered@);
    let mut found: Vec<RepoSpec> = Vec::new();
    let tags = StringSet::from_list(&config.tags);
    let mut i: usize = 0;
    proof {
        assert(specs(found@) =~= Seq::empty());
    }
    while i < repos.len()
        invariant
            i <= repos@.len(),
            all == repos@,
            all == page.values@,
            filters_hold(*filters, texts(config.includes@), texts(config.excludes@)),
            tags@ == set_of(config.tags@),
            discovered@ == old(discovered)@,
            before == specs(old(discovered)@),
            bitbucket_specs(*config, all, resolved@, i as int) == Ok::<Seq<SpecModel>, ErrorModel>(
                specs(found@),
            ),
        decreases repos@.len() - i,
    {
        let repo = &repos[i];
        let ghost earlier = specs(found@);
        let name = cat3(repo.project.key.as_str(), "/", repo.slug.as_str());
        if !((!config.include_archived && repo.archived) || !filters.matches(name.as_str())) {
            proof {
                if bitbucket_spec(*config, *repo, resolved_at(resolved@, i as int)) is Err {
                    lemma_bitbucket_specs_error(
                        *config,
                        all,
                        resolved@,
                        i + 1,
                        all.len() as int,
                    );
                }
            }
            let url = match clone_url(config, repo) {
                Some(url) => url.clone(),
                None => {
                    let requested = match config.clone_protocol {
                        CloneProtocol::Ssh => "ssh",
                        CloneProtocol::Https => "http",
                    };
                    return Err(
                        Error::Config(
                            cat5(
                                "Bitbucket repository ",
                                name.as_str(),
                                " has no ",
                                requested,
                                " clone URL",
                            ),
                        ),
                    );
                },
            };
            let canonical_url = match canonicalize_remote(
                url.as_str(),
                resolved_entry(resolved, i),
            ) {
                Ok(canonical_url) => canonical_url,
                Err(error) => return Err(error),
            };
            let default_branch = match &repo.default_branch {
                Some(branch) => Some(branch.display_id.clone()),
                None => None,
            };
            found.push(
                RepoSpec {
                    id: cat3(config.name.as_str(), "/", name.as_str()),
                    canonical_url,
                    clone_url: url,
                    default_branch,
                    tags: tags.clone(),
                },
            );
            proof {
                assert(specs(found@) =~= earlier.push(found@.last()@));
            }
        }
        i += 1;
    }
    let ghost found_specs = specs(found@);
    discovered.append(&mut found);
    proof {
        assert(specs(discovered@) =~= before + found_specs);
    }
    if page.last {
        return Ok(None);
    }
    match page.next_page_start {
        Some(start) => Ok(Some(page_url(url, Some(start)))),
        None => Err(
            Error::Config(
                "Bitbucket response is not the last page but has no nextPageStart".to_owned(),
            ),
        ),
    }
}

}

//! Repositories that a manifest lists.

use vstd::prelude::*;

use crate::config::{
    ManifestConfig, RepositoryConfig, base_dir, base_of, repository_resolved,
    resolve_repository_url, resolved_repository_url,
};
use crate::error::{ErrorModel, Result, failure};
use crate::model::RepoSpec;
use crate::provider::{declared_specs, repository_specs, specs_result};
use crate::text::{opt_str, texts};

verus! {

/// The first remote of a manifest that cannot be resolved, as an error.
pub open spec fn manifest_problem(
    repositories: Seq<RepositoryConfig>,
    base: Seq<char>,
    home: Option<Seq<char>>,
    count: int,
) -> Option<ErrorModel>
    decreases count,
{
    if count <= 0 {
        None
    } else {
        match manifest_problem(repositories, base, home, count - 1) {
            Some(problem) => Some(problem),
            None => match resolved_repository_url(base, repositories[count - 1].url@, home) {
                Ok(_) => None,
                Err(error) => Some(error),
            },
        }
    }
}

/// A problem among the first repositories stays the first of all.
proof fn lemma_manifest_problem(
    repositories: Seq<RepositoryConfig>,
    base: Seq<char>,
    home: Option<Seq<char>>,
    count: int,
    total: int,
)
    requires
        0 <= count <= total,
        manifest_problem(repositories, base, home, count) is Some,
    ensures
        manifest_problem(repositories, base, home, total) == manifest_problem(
            repositories,
            base,
            home,
            count,
        ),
    decreases total - count,
{
    if count < total {
        lemma_manifest_problem(repositories, base, home, count, total - 1);
    }
}

/// The repositories of a manifest with their remotes resolved: paths are taken
/// from the directory of the manifest.
pub fn resolve_manifest(
    config: &ManifestConfig,
    repositories: Vec<RepositoryConfig>,
    home: Option<&str>,
) -> (resolved: Result<Vec<RepositoryConfig>>)
    ensures
        failure(resolved) == manifest_problem(
            repositories@,
            base_of(config.path@),
            opt_str(home),
            repositories@.len() as int,
        ),
        resolved matches Ok(after) ==> {
            &&& after@.len() == repositories@.len()
            &&& forall|i: int|
                0 <= i < after@.len() ==> repository_resolved(
                    repositories@[i],
                    #[trigger] after@[i],
                    base_of(config.path@),
                    opt_str(home),
                )
        },
{
    let base = base_dir(config.path.as_str());
    let ghost all = repositories@;
    let ghost h = opt_str(home);
    let mut resolved: Vec<RepositoryConfig> = Vec::new();
    for repository in it: repositories
        invariant
            it.seq() == all,
            h == opt_str(home),
            base@ == base_of(config.path@),
            resolved@.len() == it.index(),
            manifest_problem(all, base@, h, it.index() as int) is None,
            forall|i: int|
                0 <= i < resolved@.len() ==> repository_resolved(
                    all[i],
                    #[trigger] resolved@[i],
                    base@,
                    h,
                ),
    {
        let mut repository = repository;
        match resolve_repository_url(base.as_str(), repository.url.as_str(), home) {
            Ok(url) => {
                repository.url = url;
                resolved.push(repository);
            },
            Err(error) => {
                proof {
                    lemma_manifest_problem(all, base@, h, it.index() + 1, all.len() as int);
                }
                return Err(error);
            },
        }
    }
    Ok(resolved)
}

/// What a manifest says of its repositories, once their remotes are resolved.
pub fn discover(
    config: &ManifestConfig,
    repositories: &Vec<RepositoryConfig>,
    resolved: &Vec<Option<String>>,
) -> (list: Result<Vec<RepoSpec>>)
    ensures
        specs_result(
            list,
            declared_specs(
                Some(config.name@),
                repositories@,
                texts(config.tags@),
                config.path@,
                resolved@,
                repositories@.len() as int,
            ),
        ),
{
    repository_specs(
        Some(config.name.as_str()),
        repositories,
        &config.tags,
        config.path.as_str(),
        resolved,
    )
}

}

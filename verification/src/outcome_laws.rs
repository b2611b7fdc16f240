//! What holds of what synchronizations tell and record: of sources, of
//! repositories, of languages and of previews.

use vstd::prelude::*;

use crate::config::{Config, SourceConfig, WORKSPACE_SOURCE_NAME};
use crate::error::{Error, ErrorModel, Result};
use crate::git::{GitSyncResult, SyncResultModel};
use crate::inventory::Inventory;
use crate::language::{Language, dependency_path, language_tags, listed_paths, listing_args};
use crate::model::{RecordModel, RepoStatus, specs};
use crate::reconcile::{active_ids, change_ids, previews};
use crate::sort::{Ranked, peers, ranked, same_rank, sorted_from};
use crate::string_set::StringSet;
use crate::sync::{
    Discovery, RepoSyncReport, RepositoryChangeKind, SourceReport, SyncPreview, all_listings,
    detected_tags, detection_warning, outcome_model, recorded, reports_of, retired, source_report,
    successful, wants_all_branches, with_state_error,
};
use crate::text::{before, ends, opt_text, split};

verus! {

/// The outcome of a synchronization is recorded for its repository alone. One
/// that succeeded makes it ready and clears its error, keeps its default branch
/// or else takes over the one that was found, and replaces its languages where
/// they were looked for. One that failed leaves all that, keeps it ready if it
/// was, and records the message.
pub proof fn law_outcomes_are_recorded(
    repos: Inventory,
    repo: RecordModel,
    outcome: std::result::Result<SyncResultModel, ErrorModel>,
    detected: Option<Set<Seq<char>>>,
    other: Seq<char>,
)
    ensures
        ({
            let after = recorded(repos, repo, outcome, detected);
            let id = repo.id;
            &&& after.dom() == repos.dom()
            &&& repos.contains_key(other) && other != id ==> after[other] == repos[other]
            &&& repos.contains_key(id) ==> {
                &&& after[id].canonical_url == repos[id].canonical_url
                &&& after[id].clone_url == repos[id].clone_url
                &&& after[id].local_path == repos[id].local_path
                &&& after[id].active == repos[id].active
                &&& after[id].links == repos[id].links
                &&& match outcome {
                    Ok(result) => {
                        &&& after[id].status == "ready"@
                        &&& after[id].last_error is None
                        &&& repos[id].default_branch is Some ==> after[id].default_branch
                            == repos[id].default_branch
                        &&& repos[id].default_branch is None ==> after[id].default_branch
                            == result.detected_default_branch
                        &&& detected matches Some(tags) ==> after[id].detected == tags
                        &&& detected is None ==> after[id].detected == repos[id].detected
                    },
                    Err(problem) => {
                        &&& after[id].last_error == Some(problem.message())
                        &&& repo.status == RepoStatus::Ready ==> after[id].status
                            == repos[id].status
                        &&& repo.status != RepoStatus::Ready ==> after[id].status == "error"@
                        &&& after[id].default_branch == repos[id].default_branch
                        &&& after[id].detected == repos[id].detected
                    },
                }
            }
        }),
{
    let after = recorded(repos, repo, outcome, detected);
    assert(after.dom() =~= repos.dom());
}

/// Languages that were found count, and a problem with finding them is only a
/// warning; where they were not looked for there is neither.
pub proof fn law_language_problems_are_warnings(
    tags: StringSet,
    error: Error,
    outcome: Result<GitSyncResult>,
)
    ensures
        detected_tags(Some(Ok(tags))) == Some(tags@),
        detected_tags(Some(Err(error))) is None,
        detected_tags(None) is None,
        detection_warning(Some(Ok(tags))) is None,
        detection_warning(Some(Err(error))) == Some(
            "language detection failed: "@ + error@.message(),
        ),
        detection_warning(None) is None,
        outcome matches Ok(result) ==> outcome_model(outcome) == Ok::<SyncResultModel, ErrorModel>(
            SyncResultModel {
                action: result.action,
                detail: opt_text(result.detail),
                detected_default_branch: opt_text(result.detected_default_branch),
            },
        ),
        outcome matches Err(problem) ==> outcome_model(outcome) == Err::<
            SyncResultModel,
            ErrorModel,
        >(problem@),
{
}

/// An outcome that could not be recorded turns the report into one about an
/// error, which is added to the one that it tells of.
pub proof fn law_unrecorded_outcomes_are_errors(
    report: RepoSyncReport,
    error: &Error,
    after: RepoSyncReport,
)
    requires
        call_ensures(with_state_error, (report, error), after),
    ensures
        after@.id == report@.id,
        after@.action == report@.action,
        after@.detail == report@.detail,
        after@.warning == report@.warning,
        report@.error is None ==> after@.error == Some(error@.message()),
        report@.error matches Some(message) ==> after@.error == Some(
            message + "; failed to record error: "@ + error@.message(),
        ),
{
}

/// Every branch of a repository is fetched if and only if a configured source
/// that lists it asks for that.
pub proof fn law_all_branches_are_fetched_where_asked(config: Config, repo: RecordModel)
    ensures
        wants_all_branches(config, repo) <==> exists|i: int|
            0 <= i < config.sources@.len() && match #[trigger] config.sources@[i] {
                SourceConfig::GitHub(source) => source.fetch_all_branches && repo.sources.contains(
                    source.name@,
                ),
                SourceConfig::BitbucketServer(source) => source.fetch_all_branches
                    && repo.sources.contains(source.name@),
                SourceConfig::Manifest(source) => source.fetch_all_branches
                    && repo.sources.contains(source.name@),
            },
{
    if wants_all_branches(config, repo) {
        let i = choose|i: int|
            0 <= i < config.sources@.len() && (#[trigger] config.sources@[i]).wants_all_branches()
                && repo.sources.contains(config.sources@[i].title());
        assert(config.sources@[i].wants_all_branches());
    }
    if exists|i: int|
        0 <= i < config.sources@.len() && match #[trigger] config.sources@[i] {
            SourceConfig::GitHub(source) => source.fetch_all_branches && repo.sources.contains(
                source.name@,
            ),
            SourceConfig::BitbucketServer(source) => source.fetch_all_branches
                && repo.sources.contains(source.name@),
            SourceConfig::Manifest(source) => source.fetch_all_branches && repo.sources.contains(
                source.name@,
            ),
        } {
        let i = choose|i: int|
            0 <= i < config.sources@.len() && match #[trigger] config.sources@[i] {
                SourceConfig::GitHub(source) => source.fetch_all_branches && repo.sources.contains(
                    source.name@,
                ),
                SourceConfig::BitbucketServer(source) => source.fetch_all_branches
                    && repo.sources.contains(source.name@),
                SourceConfig::Manifest(source) => source.fetch_all_branches
                    && repo.sources.contains(source.name@),
            };
        assert(config.sources@[i].wants_all_branches());
    }
}

/// What the answers of sources list: each that succeeded what it found, in the
/// order of the answers; one that failed nothing, so that its repositories stay.
pub proof fn law_successful_answers_are_listed(discoveries: Seq<Discovery>, count: int)
    requires
        0 <= count < discoveries.len(),
    ensures
        successful(discoveries, 0).len() == 0,
        discoveries[count].result is Err ==> successful(discoveries, count + 1) == successful(
            discoveries,
            count,
        ),
        discoveries[count].result matches Ok(found) ==> {
            &&& successful(discoveries, count + 1).len() == successful(discoveries, count).len() + 1
            &&& successful(discoveries, count + 1).drop_last() == successful(discoveries, count)
            &&& successful(discoveries, count + 1).last() == (
                discoveries[count].source@,
                specs(found@),
            )
        },
{
    if discoveries[count].result is Ok {
        assert(successful(discoveries, count + 1).drop_last() =~= successful(discoveries, count));
    }
}

/// Behind that the configuration lists nothing where it declares nothing, and
/// every source that is gone lists nothing, each once.
pub proof fn law_gone_sources_are_listed_empty(
    discoveries: Seq<Discovery>,
    declares: bool,
    gone: Set<Seq<char>>,
    names: Seq<Seq<char>>,
    i: int,
)
    requires
        crate::string_set::increasing(names),
        names.to_set() == gone,
    ensures
        ({
            let found = successful(discoveries, discoveries.len() as int);
            let all = all_listings(discoveries, declares, gone);
            let own = if declares {
                0int
            } else {
                1int
            };
            &&& all.len() == found.len() + own + names.len()
            &&& all.take(found.len() as int) == found
            &&& !declares ==> all[found.len() as int] == (
                WORKSPACE_SOURCE_NAME@,
                Seq::<crate::model::SpecModel>::empty(),
            )
            &&& 0 <= i < names.len() ==> all[found.len() + own + i] == (
                names[i],
                Seq::<crate::model::SpecModel>::empty(),
            )
        }),
{
    crate::inventory::lemma_in_order(names);
    let found = successful(discoveries, discoveries.len() as int);
    let all = all_listings(discoveries, declares, gone);
    assert(all.take(found.len() as int) =~= found);
}

/// A source is gone if and only if it still lists something, is not configured
/// and is not the configuration itself.
pub proof fn law_unconfigured_sources_are_gone(
    config: Config,
    known: Set<Seq<char>>,
    source: Seq<char>,
)
    ensures
        retired(config, known).contains(source) <==> known.contains(source) && source
            != "workspace"@ && !exists|i: int|
            0 <= i < config.sources@.len() && match #[trigger] config.sources@[i] {
                SourceConfig::GitHub(config) => config.name@ == source,
                SourceConfig::BitbucketServer(config) => config.name@ == source,
                SourceConfig::Manifest(config) => config.name@ == source,
            },
{
    if retired(config, known).contains(source) {
        assert forall|i: int| 0 <= i < config.sources@.len() implies !match #[trigger] config.sources@[i] {
            SourceConfig::GitHub(config) => config.name@ == source,
            SourceConfig::BitbucketServer(config) => config.name@ == source,
            SourceConfig::Manifest(config) => config.name@ == source,
        } by {
            assert(config.sources@[i].title() != source);
        }
    }
}

/// A report about a source tells how many repositories it found, or what went
/// wrong.
pub proof fn law_source_reports_tell_the_answer(report: SourceReport, discovery: Discovery)
    requires
        source_report(report, discovery),
    ensures
        report.source@ == discovery.source@,
        discovery.result matches Ok(found) ==> report.discovered == found@.len()
            && report.error is None,
        discovery.result matches Err(error) ==> report.discovered == 0 && opt_text(report.error)
            == Some(error@.message()),
{
}

/// A sorted list holds the same as the one that was sorted.
pub proof fn law_sorting_loses_nothing<T: Ranked>(list: Seq<T>, sorted: Seq<T>, item: T)
    requires
        sorted_from(list, sorted),
    ensures
        sorted.contains(item) <==> list.contains(item),
        forall|i: int, j: int|
            0 <= i < j < sorted.len() ==> !(#[trigger] sorted[j]).ranks_before(
                #[trigger] sorted[i],
            ),
{
    T::lemma_ranks(item, item, item);
    let keep = |other: T| same_rank(item, other);
    assert(peers(sorted, item) == peers(list, item));
    if sorted.contains(item) {
        let i = choose|i: int| 0 <= i < sorted.len() && sorted[i] == item;
        sorted.lemma_filter_contains(keep, i);
        assert(peers(list, item).contains(item));
        list.lemma_filter_contains_rev(keep, item);
    }
    if list.contains(item) {
        let i = choose|i: int| 0 <= i < list.len() && list[i] == item;
        list.lemma_filter_contains(keep, i);
        assert(peers(sorted, item).contains(item));
        sorted.lemma_filter_contains_rev(keep, item);
    }
}

/// Reports are sorted by the names of their sources, and by the identifiers of
/// their repositories.
pub proof fn law_reports_are_in_order(
    sources: Seq<SourceReport>,
    repos: Seq<RepoSyncReport>,
    i: int,
    j: int,
)
    requires
        ranked(sources),
        ranked(repos),
    ensures
        0 <= i < j < sources.len() ==> !before(sources[j].source@, sources[i].source@),
        0 <= i < j < repos.len() ==> !before(repos[j].id@, repos[i].id@),
{
    if 0 <= i < j < sources.len() {
        assert(!sources[j].ranks_before(sources[i]));
    }
    if 0 <= i < j < repos.len() {
        assert(!repos[j].ranks_before(repos[i]));
    }
}

/// Every source that answered has a report, and every report is about an answer.
pub proof fn law_every_answer_is_reported(
    discoveries: Seq<Discovery>,
    sorted: Seq<SourceReport>,
    i: int,
)
    requires
        reports_of(discoveries, sorted),
    ensures
        0 <= i < discoveries.len() ==> exists|k: int|
            0 <= k < sorted.len() && source_report(#[trigger] sorted[k], discoveries[i]),
        0 <= i < sorted.len() ==> exists|k: int|
            0 <= k < discoveries.len() && source_report(sorted[i], #[trigger] discoveries[k]),
{
    let reports = choose|reports: Seq<SourceReport>|
        {
            &&& reports.len() == discoveries.len()
            &&& forall|i: int|
                0 <= i < reports.len() ==> source_report(#[trigger] reports[i], discoveries[i])
            &&& #[trigger] sorted_from(reports, sorted)
        };
    if 0 <= i < discoveries.len() {
        law_sorting_loses_nothing(reports, sorted, reports[i]);
        assert(reports.contains(reports[i]));
        let k = choose|k: int| 0 <= k < sorted.len() && sorted[k] == reports[i];
        assert(source_report(sorted[k], discoveries[i]));
    }
    if 0 <= i < sorted.len() {
        law_sorting_loses_nothing(reports, sorted, sorted[i]);
        assert(sorted.contains(sorted[i]));
        let k = choose|k: int| 0 <= k < reports.len() && reports[k] == sorted[i];
        assert(source_report(reports[k], discoveries[k]));
    }
}

/// A preview tells exactly which repositories become active and which become
/// inactive, each once and in the order of the identifiers, and how many stay
/// active.
pub proof fn law_previews_tell_every_change(
    preview: SyncPreview,
    current: Set<Seq<char>>,
    desired: Set<Seq<char>>,
    id: Seq<char>,
    i: int,
    j: int,
)
    requires
        previews(preview, current, desired),
    ensures
        desired.contains(id) && !current.contains(id) <==> exists|k: int|
            0 <= k < preview.changes@.len() && (#[trigger] preview.changes@[k]).id@ == id
                && preview.changes@[k].kind == RepositoryChangeKind::Activate,
        current.contains(id) && !desired.contains(id) <==> exists|k: int|
            0 <= k < preview.changes@.len() && (#[trigger] preview.changes@[k]).id@ == id
                && preview.changes@[k].kind == RepositoryChangeKind::Deactivate,
        0 <= i < j < preview.changes@.len() ==> before(
            preview.changes@[i].id@,
            preview.changes@[j].id@,
        ),
        preview.unchanged == Set::new(
            |x: Seq<char>| current.contains(x) && desired.contains(x),
        ).len(),
{
    let ids = change_ids(preview.changes@);
    let all = current.difference(desired).union(desired.difference(current));
    assert(ids.to_set().contains(id) <==> all.contains(id));
    if ids.to_set().contains(id) {
        let k = choose|k: int| 0 <= k < ids.len() && ids[k] == id;
        assert(preview.changes@[k].id@ == id);
    }
    if exists|k: int| 0 <= k < preview.changes@.len() && (#[trigger] preview.changes@[k]).id@ == id {
        let k = choose|k: int|
            0 <= k < preview.changes@.len() && (#[trigger] preview.changes@[k]).id@ == id;
        assert(ids[k] == id);
    }
    if 0 <= i < j < preview.changes@.len() {
        assert(before(ids[i], ids[j]));
    }
    assert(Set::new(|x: Seq<char>| current.contains(x) && desired.contains(x))
        =~= current.intersect(desired));
}

/// The active repositories of a listing.
pub proof fn law_active_records(current: Seq<RecordModel>, id: Seq<char>)
    ensures
        active_ids(current).contains(id) <==> exists|i: int|
            0 <= i < current.len() && (#[trigger] current[i]).id == id && current[i].active,
{
}

/// A language is found in a repository if and only if a file of the repository
/// itself marks a project of the language and another one, or the same, is
/// written in it.
pub proof fn law_languages_need_a_marker_and_a_source(paths: Seq<Seq<char>>)
    ensures
        language_tags(paths).contains("language:go"@) <==> {
            &&& exists|i: int|
                0 <= i < paths.len() && is_own_file(#[trigger] paths[i], "go.mod"@)
            &&& exists|i: int| 0 <= i < paths.len() && is_own_source(#[trigger] paths[i], ".go"@)
        },
        language_tags(paths).contains("language:rust"@) <==> {
            &&& exists|i: int|
                0 <= i < paths.len() && is_own_file(#[trigger] paths[i], "Cargo.toml"@)
            &&& exists|i: int| 0 <= i < paths.len() && is_own_source(#[trigger] paths[i], ".rs"@)
        },
        language_tags(paths).contains("language:python"@) <==> {
            &&& exists|i: int|
                0 <= i < paths.len() && {
                    ||| is_own_file(#[trigger] paths[i], "pyproject.toml"@)
                    ||| is_own_file(paths[i], "setup.py"@)
                    ||| is_own_file(paths[i], "setup.cfg"@)
                    ||| is_own_file(paths[i], "Pipfile"@)
                    ||| is_own_file(paths[i], "requirements.txt"@)
                }
            &&& exists|i: int| 0 <= i < paths.len() && is_own_source(#[trigger] paths[i], ".py"@)
        },
        forall|tag: Seq<char>| #[trigger]
            language_tags(paths).contains(tag) ==> tag == "language:go"@ || tag
                == "language:rust"@ || tag == "language:python"@,
{
    lemma_language(paths, Language::Go);
    lemma_language(paths, Language::Rust);
    lemma_language(paths, Language::Python);
    assert forall|i: int| 0 <= i < paths.len() implies (!dependency_path(#[trigger] paths[i])
        == !leads_through_others(paths[i])) by {
        lemma_dependency(paths[i]);
    }
}

/// Whether a path leads through a directory that holds code of others.
pub open spec fn leads_through_others(path: Seq<char>) -> bool {
    exists|i: int|
        0 <= i < split(path, '/').len() && {
            ||| #[trigger] split(path, '/')[i] == ".venv"@
            ||| split(path, '/')[i] == "node_modules"@
            ||| split(path, '/')[i] == "target"@
            ||| split(path, '/')[i] == "vendor"@
            ||| split(path, '/')[i] == "venv"@
        }
}

/// Whether a path leads to a file of the repository itself with a name.
pub open spec fn is_own_file(path: Seq<char>, name: Seq<char>) -> bool {
    !leads_through_others(path) && split(path, '/').last() == name
}

/// Whether a path leads to a file of the repository itself whose name ends like
/// source files do, with something before.
pub open spec fn is_own_source(path: Seq<char>, ending: Seq<char>) -> bool {
    &&& !leads_through_others(path)
    &&& ends(split(path, '/').last(), ending)
    &&& split(path, '/').last().len() > ending.len()
}

/// The directories that hold code of others.
proof fn lemma_dependency(path: Seq<char>)
    ensures
        dependency_path(path) == leads_through_others(path),
{
    if dependency_path(path) {
        let i = choose|i: int|
            0 <= i < split(path, '/').len() && crate::language::is_dependency_name(
                #[trigger] split(path, '/')[i],
            );
        assert(0 <= i < split(path, '/').len());
    }
    if leads_through_others(path) {
        let i = choose|i: int|
            0 <= i < split(path, '/').len() && {
                ||| #[trigger] split(path, '/')[i] == ".venv"@
                ||| split(path, '/')[i] == "node_modules"@
                ||| split(path, '/')[i] == "target"@
                ||| split(path, '/')[i] == "vendor"@
                ||| split(path, '/')[i] == "venv"@
            };
        assert(crate::language::is_dependency_name(split(path, '/')[i]));
    }
}

/// The tag of a language stands for that language.
proof fn lemma_language(paths: Seq<Seq<char>>, language: Language)
    ensures
        language_tags(paths).contains(language.tag()) <==> crate::language::has_marker(
            paths,
            language,
        ) && crate::language::has_source(paths, language),
{
    reveal_strlit("language:go");
    reveal_strlit("language:python");
    reveal_strlit("language:rust");
    assert("language:go"@.len() == 11);
    assert("language:python"@.len() == 15);
    assert("language:rust"@.len() == 13);
}

/// The files of a repository are listed as they were last fetched of its default
/// branch, and every path of the listing counts that is not empty.
pub proof fn law_fetched_files_are_listed(
    branch: Seq<char>,
    listing: Seq<char>,
    path: Seq<char>,
)
    ensures
        listing_args(branch) == seq![
            "ls-tree"@,
            "-r"@,
            "-z"@,
            "--name-only"@,
            "refs/remotes/origin/"@ + branch,
        ],
        listed_paths(listing).contains(path) <==> path.len() > 0 && split(listing, '\0').contains(
            path,
        ),
{
    let keep = |path: Seq<char>| path.len() > 0;
    let pieces = split(listing, '\0');
    if listed_paths(listing).contains(path) {
        pieces.lemma_filter_contains_rev(keep, path);
        let i = choose|i: int| 0 <= i < listed_paths(listing).len() && listed_paths(listing)[i]
            == path;
        pieces.lemma_filter_pred(keep, i);
    }
    if path.len() > 0 && pieces.contains(path) {
        let i = choose|i: int| 0 <= i < pieces.len() && pieces[i] == path;
        pieces.lemma_filter_contains(keep, i);
    }
}

}

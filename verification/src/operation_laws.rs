//! What holds of the single operations, in terms of what they are given and what
//! they return.

use vstd::prelude::*;
use vstd::utf8::encode_utf8;

use crate::config::GitHubConfig;
use crate::discovery_laws::{
    github_wants, is_among, law_github_finds_what_it_wants, law_github_stops_at_the_first_problem,
    lemma_among,
};
use crate::error::{Error, ErrorModel, Result};
use crate::git::{
    GitStep, Reply, StepModel, SyncResultModel, git_optional_stdout, git_stdout, reply_error,
    sync_repo,
};
use crate::git_laws::{law_other_remotes_are_refused, wrote};
use crate::glob::{build_globs, first_glob_problem, glob_problem, glob_set_problem};
use crate::inventory_laws::{law_named_default_branches_are_taken_over, names_branch_last};
use crate::model::{RepoRecord, RepoSpec, SpecModel, records, specs};
use crate::output::{Output, Printed, PrintedModel, printed};
use crate::path::byte_components;
use crate::provider::github::{GitHubRepo, github_specs, take_page};
use crate::provider::{Filters, Header, authenticated_headers, canonical_remote};
use crate::prune::{PruneAction, PruneOptions, PruneStep, candidates, prune_working_tree};
use crate::prune_laws::{ends_with, law_dry_runs_foretell_real_runs, refuses};
use crate::reconcile::reconcile_repositories;
use crate::search::{
    EventModel, FileSearch, Findings, RepoFilter, Search, SearchEvent, SearchOptions,
    SearchOutputMode, Submatch, allows_path, enters_directory, event_model, find_repo,
    options_problem, root_of, search, select_repos, selected,
};
use crate::search_laws::{FoundLine, law_every_matching_line_is_reported, tells_of};
use crate::state::State;
use crate::sync::Listing;
use crate::text::{begins, byte_lists, debug_text, lossy_text, opt_text, texts, trimmed};

verus! {

/// A working tree whose own remote is another one than the recorded one is left
/// alone: the synchronization ends with an error that names both, whether or not
/// the file system knows the remote as a path.
pub proof fn law_trees_of_other_remotes_are_left(
    repo: &RepoRecord,
    all: bool,
    replies: &Vec<Reply>,
    step: GitStep,
    origin: Seq<char>,
    resolved: Option<String>,
    canonical: Seq<char>,
)
    requires
        call_ensures(sync_repo, (repo, true, true, all, replies), step),
        replies@.len() >= 2,
        wrote(replies@[0], origin),
        replies@[1] == Reply::Resolved(resolved),
        canonical_remote(origin, opt_text(resolved)) == Ok::<Seq<char>, ErrorModel>(canonical),
        canonical != repo.canonical_url@,
    ensures
        step matches GitStep::Finish(Err(error)) && error@ == ErrorModel::Git(
            repo.local_path@ + " has origin "@ + debug_text(origin) + ", expected "@ + debug_text(
                repo.clone_url@,
            ),
        ),
{
    law_other_remotes_are_refused(repo@, all, replies@, origin, resolved, canonical);
    assert(step@ == StepModel::Finish(
        Err::<SyncResultModel, ErrorModel>(
            ErrorModel::Git(
                repo@.local_path + " has origin "@ + debug_text(origin) + ", expected "@
                    + debug_text(repo@.clone_url),
            ),
        ),
    ));
}

/// A dry run of pruning foretells what is done without it: it says that a working
/// tree would be deleted exactly where it is deleted, and gives the same reasons
/// to keep it; and it deletes and forgets nothing itself.
pub proof fn law_dry_runs_say_what_is_done(
    repos_dir: &str,
    repos_dir_is_symlink: bool,
    repo: &RepoRecord,
    rehearsal: PruneOptions,
    options: PruneOptions,
    replies: &Vec<Reply>,
    dry: PruneStep,
    actual: PruneStep,
)
    requires
        rehearsal.dry_run,
        !options.dry_run,
        call_ensures(
            prune_working_tree,
            (repos_dir, repos_dir_is_symlink, repo, rehearsal, replies),
            dry,
        ),
        call_ensures(
            prune_working_tree,
            (repos_dir, repos_dir_is_symlink, repo, options, replies),
            actual,
        ),
    ensures
        actual is RemoveTree ==> ends_with(dry@, PruneAction::WouldDelete),
        ends_with(actual@, PruneAction::Deleted) ==> ends_with(dry@, PruneAction::WouldDelete),
        ends_with(actual@, PruneAction::RemovedMissing) ==> ends_with(
            dry@,
            PruneAction::WouldRemoveMissing,
        ),
        ends_with(actual@, PruneAction::SkippedDirty) <==> ends_with(
            dry@,
            PruneAction::SkippedDirty,
        ),
        ends_with(actual@, PruneAction::SkippedLocalState) <==> ends_with(
            dry@,
            PruneAction::SkippedLocalState,
        ),
        refuses(dry@) ==> refuses(actual@),
        !(dry is RemoveTree) && !(dry is Forget),
        !ends_with(dry@, PruneAction::Deleted) && !ends_with(dry@, PruneAction::RemovedMissing),
{
    law_dry_runs_foretell_real_runs(repos_dir@, repos_dir_is_symlink, repo@, replies@);
}

/// A matching line of a file counts for the file and for the search. In the mode
/// that reports lines it is reported, whatever was found before it, and the
/// search of the file goes on; and a repository is noted as reported where only
/// repositories are.
pub proof fn law_matching_lines_are_noted(
    file: &mut FileSearch,
    findings: &mut Findings,
    line: Option<u64>,
    bytes: &[u8],
    submatches: Vec<Submatch>,
    report: (Option<SearchEvent>, bool),
)
    requires
        call_ensures(FileSearch::report_match, (file, findings, line, bytes, submatches), report),
    ensures
        old(file).count < u64::MAX ==> final(file).count == old(file).count + 1,
        final(file).repo == old(file).repo && final(file).path == old(file).path && final(file).mode
            == old(file).mode,
        old(findings).stats.matches < u64::MAX ==> final(findings).stats.matches == old(
            findings,
        ).stats.matches + 1,
        final(findings).stats.errors == old(findings).stats.errors,
        old(file).mode == SearchOutputMode::Matches ==> {
            &&& report.1
            &&& report.0 matches Some(event)
            &&& tells_of(
                event@,
                *old(file),
                (FoundLine { number: line, bytes: bytes@, matches: submatches@ }),
            )
        },
        old(file).mode == SearchOutputMode::FilesWithMatches ==> {
            &&& !report.1
            &&& report.0 matches Some(event)
            &&& event@ == (EventModel::File { repo: old(file).repo@, path: old(file).path@ })
        },
        old(file).mode == SearchOutputMode::ReposWithMatches ==> {
            &&& !report.1
            &&& report.0 is Some <==> !old(findings).reported@.contains(old(file).repo@)
            &&& final(findings).reported@ == old(findings).reported@.insert(old(file).repo@)
        },
        old(file).mode != SearchOutputMode::ReposWithMatches ==> final(findings).reported@ == old(
            findings,
        ).reported@,
        old(file).mode == SearchOutputMode::Count ==> report.0 is None && report.1,
{
    law_every_matching_line_is_reported(
        FileSearch { mode: SearchOutputMode::Matches, ..*old(file) },
        old(findings).reported@,
        FoundLine { number: line, bytes: bytes@, matches: submatches@ },
    );
    assert(event_model(report.0) matches Some(model) ==> report.0 is Some);
}

/// Whether a description is that of a repository of a GitHub source.
pub open spec fn describes(spec: SpecModel, config: GitHubConfig, repo: GitHubRepo) -> bool {
    &&& spec.id == config.name@ + "/"@ + repo.full_name@
    &&& spec.default_branch == Some(repo.default_branch@)
    &&& spec.clone_url == repo.ssh_url@ || spec.clone_url == repo.clone_url@
}

/// The first repositories of a page: every one that is wanted is found, and only
/// those are.
proof fn lemma_github_page(
    config: GitHubConfig,
    repos: Seq<GitHubRepo>,
    resolved: Seq<Option<String>>,
    count: int,
)
    requires
        0 <= count <= repos.len(),
    ensures
        github_specs(config, repos, resolved, count) matches Ok(found) ==> {
            &&& forall|i: int|
                #![trigger repos[i]]
                0 <= i < count && github_wants(config, repos[i]) ==> exists|j: int|
                    0 <= j < found.len() && describes(#[trigger] found[j], config, repos[i])
            &&& forall|j: int|
                #![trigger found[j]]
                0 <= j < found.len() ==> exists|i: int|
                    0 <= i < count && github_wants(config, #[trigger] repos[i]) && describes(
                        found[j],
                        config,
                        repos[i],
                    )
        },
    decreases count,
{
    if count > 0 {
        lemma_github_page(config, repos, resolved, count - 1);
        if let Ok(found) = github_specs(config, repos, resolved, count) {
            if let Ok(earlier) = github_specs(config, repos, resolved, count - 1) {
                law_github_finds_what_it_wants(config, repos, resolved, count - 1, earlier);
                assert forall|i: int|
                    #![trigger repos[i]]
                    0 <= i < count && github_wants(config, repos[i]) implies exists|j: int|
                    0 <= j < found.len() && describes(#[trigger] found[j], config, repos[i]) by {
                    if i == count - 1 {
                        assert(describes(found[found.len() - 1], config, repos[i]));
                    } else {
                        let j = choose|j: int|
                            0 <= j < earlier.len() && describes(
                                #[trigger] earlier[j],
                                config,
                                repos[i],
                            );
                        assert(found[j] == earlier[j]);
                    }
                }
                assert forall|j: int|
                    #![trigger found[j]]
                    0 <= j < found.len() implies exists|i: int|
                    0 <= i < count && github_wants(config, #[trigger] repos[i]) && describes(
                        found[j],
                        config,
                        repos[i],
                    ) by {
                    if j < earlier.len() {
                        assert(found[j] == earlier[j]);
                    } else {
                        assert(describes(found[j], config, repos[count - 1]));
                        assert(github_wants(config, repos[count - 1]));
                    }
                }
            } else {
                law_github_stops_at_the_first_problem(
                    config,
                    repos,
                    resolved,
                    count - 1,
                    github_specs(config, repos, resolved, count - 1)->Err_0,
                );
            }
        }
    }
}

/// Of a page of a GitHub source exactly the repositories that the source wants
/// are added to those found before, forks and archived and private ones among
/// them where the source includes them; and after a problem nothing is added.
pub proof fn law_wanted_repositories_are_added(
    config: &GitHubConfig,
    filters: &Filters,
    repos: &Vec<GitHubRepo>,
    link: Option<&str>,
    resolved: &Vec<Option<String>>,
    discovered: &mut Vec<RepoSpec>,
    next: Result<Option<String>>,
    i: int,
)
    requires
        call_ensures(take_page, (config, filters, repos, link, resolved, discovered), next),
    ensures
        next is Err ==> specs(final(discovered)@) == specs(old(discovered)@),
        next is Ok ==> final(discovered)@.len() >= old(discovered)@.len(),
        next is Ok && 0 <= i < old(discovered)@.len() ==> final(discovered)@[i]@ == old(
            discovered,
        )@[i]@,
        next is Ok && 0 <= i < repos@.len() && github_wants(*config, repos@[i]) ==> exists|j: int|
            old(discovered)@.len() <= j < final(discovered)@.len() && describes(
                (#[trigger] final(discovered)@[j])@,
                *config,
                repos@[i],
            ),
        next is Ok && old(discovered)@.len() <= i < final(discovered)@.len() ==> exists|k: int|
            0 <= k < repos@.len() && github_wants(*config, #[trigger] repos@[k]) && describes(
                final(discovered)@[i]@,
                *config,
                repos@[k],
            ),
{
    let before = specs(old(discovered)@);
    let after = specs(final(discovered)@);
    let count = repos@.len() as int;
    lemma_github_page(*config, repos@, resolved@, count);
    if let Ok(found) = github_specs(*config, repos@, resolved@, count) {
        assert(after == before + found);
        assert(after.len() == final(discovered)@.len());
        assert(before.len() == old(discovered)@.len());
        if 0 <= i < before.len() {
            assert(after[i] == before[i]);
        }
        if 0 <= i < count && github_wants(*config, repos@[i]) {
            let j = choose|j: int|
                0 <= j < found.len() && describes(#[trigger] found[j], *config, repos@[i]);
            let k = before.len() + j;
            assert(after[k] == found[j]);
            assert(after[k] == final(discovered)@[k]@);
        }
        if before.len() <= i < after.len() {
            assert(after[i] == found[i - before.len()]);
            assert(after[i] == final(discovered)@[i]@);
        }
    }
}

/// A default branch that a source names is the one that the inventory has
/// afterwards, also where it had another one before.
pub proof fn law_renamed_default_branches_are_taken_over(
    state: &mut State,
    source: &str,
    found: &Vec<RepoSpec>,
    repos_dir: &str,
    ids: Result<crate::string_set::StringSet>,
    id: Seq<char>,
    k: int,
)
    requires
        call_ensures(State::reconcile_source, (state, source, found, repos_dir), ids),
        ids is Ok,
        final(state)@.contains_key(id),
        names_branch_last(
            specs(found@),
            found@.len() as int,
            final(state)@[id].canonical_url,
            k,
        ),
    ensures
        final(state)@[id].default_branch == specs(found@)[k].default_branch,
{
    assert(specs(found@).len() == found@.len());
    law_named_default_branches_are_taken_over(
        old(state)@,
        source@,
        specs(found@),
        repos_dir@,
        id,
        k,
    );
}

/// The repositories that are synchronized are the active ones that a source
/// lists, and no others: each has the remote of a listing.
pub proof fn law_active_listed_repositories_are_synchronized(
    state: &mut State,
    repos_dir: &str,
    found: &Vec<Listing>,
    list: Result<Vec<RepoRecord>>,
    id: Seq<char>,
)
    requires
        call_ensures(reconcile_repositories, (state, repos_dir, found), list),
    ensures
        list matches Ok(list) ==> {
            (exists|n: int| 0 <= n < list@.len() && (#[trigger] list@[n]).id@ == id) <==> {
                &&& final(state)@.contains_key(id)
                &&& final(state)@[id].active
                &&& exists|i: int, k: int|
                    0 <= i < found@.len() && 0 <= k < found@[i].specs@.len()
                        && (#[trigger] found@[i].specs@[k]).canonical_url@
                        == final(state)@[id].canonical_url
            }
        },
{
    if let Ok(list) = list {
        let after = final(state)@;
        let all = crate::sync::listings(found@);
        let recorded = records(list@);
        let ids = crate::inventory::record_ids(recorded);
        let wanted = crate::reconcile::wanted_ids(after, all).intersect(
            crate::inventory::listed_ids(after, false),
        );
        assert(ids.to_set() == wanted);
        if exists|n: int| 0 <= n < list@.len() && (#[trigger] list@[n]).id@ == id {
            let n = choose|n: int| 0 <= n < list@.len() && (#[trigger] list@[n]).id@ == id;
            assert(recorded[n] == list@[n]@);
            assert(ids[n] == id);
            assert(ids.to_set().contains(id));
            let i = choose|i: int|
                0 <= i < all.len() && crate::inventory::found_ids(
                    after,
                    (#[trigger] all[i]).1,
                ).contains(id);
            let own = all[i].1;
            let k = choose|k: int|
                0 <= k < own.len() && #[trigger] own[k].canonical_url == after[id].canonical_url;
            assert(all[i] == found@[i]@);
            assert(own[k] == found@[i].specs@[k]@);
            assert(found@[i].specs@[k].canonical_url@ == after[id].canonical_url);
        }
        if after.contains_key(id) && after[id].active && exists|i: int, k: int|
            0 <= i < found@.len() && 0 <= k < found@[i].specs@.len() && (
            #[trigger] found@[i].specs@[k]).canonical_url@ == after[id].canonical_url {
            let (i, k) = choose|i: int, k: int|
                0 <= i < found@.len() && 0 <= k < found@[i].specs@.len() && (
                #[trigger] found@[i].specs@[k]).canonical_url@ == after[id].canonical_url;
            let own = all[i].1;
            assert(all[i] == found@[i]@);
            assert(own[k] == found@[i].specs@[k]@);
            assert(own[k].canonical_url == after[id].canonical_url);
            assert(crate::inventory::found_ids(after, all[i].1).contains(id));
            assert(wanted.contains(id));
            assert(ids.to_set().contains(id));
            let n = choose|n: int| 0 <= n < ids.len() && ids[n] == id;
            assert(recorded[n] == list@[n]@);
            assert(list@[n].id@ == id);
        }
    }
}

/// The first pattern that is no glob is reported with its message; where all are
/// globs and can be matched together, there is no problem.
pub proof fn law_bad_globs_are_reported(
    values: &Vec<String>,
    set: Result<globset::GlobSet>,
    message: Seq<char>,
    k: int,
)
    requires
        call_ensures(build_globs, (values,), set),
    ensures
        0 <= k < values@.len() && glob_problem(values@[k]@) == Some(message) && (forall|j: int|
            0 <= j < k ==> glob_problem((#[trigger] values@[j])@) is None) ==> (
        set matches Err(error) && error@ == ErrorModel::Config(
            "invalid glob "@ + debug_text(values@[k]@) + ": "@ + message,
        )),
        (forall|j: int| 0 <= j < values@.len() ==> glob_problem((#[trigger] values@[j])@) is None)
            && glob_set_problem(texts(values@)) is None ==> set is Ok,
        values@.len() == 0 ==> set is Ok,
{
    let all = texts(values@);
    if 0 <= k < values@.len() && glob_problem(values@[k]@) == Some(message) && (forall|j: int|
        0 <= j < k ==> glob_problem((#[trigger] values@[j])@) is None) {
        lemma_first_bad_glob(all, all.len() as int, k, message);
        assert(all.take(all.len() as int) =~= all);
    }
    if forall|j: int| 0 <= j < values@.len() ==> glob_problem((#[trigger] values@[j])@) is None {
        lemma_good_globs(all);
    }
}

/// The first pattern that is no glob is the problem of all.
proof fn lemma_first_bad_glob(patterns: Seq<Seq<char>>, count: int, k: int, message: Seq<char>)
    requires
        0 <= k < count <= patterns.len(),
        glob_problem(patterns[k]) == Some(message),
        forall|j: int| 0 <= j < k ==> glob_problem(#[trigger] patterns[j]) is None,
    ensures
        first_glob_problem(patterns.take(count)) == Some(
            ErrorModel::Config("invalid glob "@ + debug_text(patterns[k]) + ": "@ + message),
        ),
    decreases count,
{
    assert(patterns.take(count).drop_last() =~= patterns.take(count - 1));
    if k == count - 1 {
        lemma_good_globs(patterns.take(count - 1));
    } else {
        lemma_first_bad_glob(patterns, count - 1, k, message);
    }
}

/// Where all patterns are globs, none of them is a problem.
proof fn lemma_good_globs(patterns: Seq<Seq<char>>)
    requires
        forall|j: int| 0 <= j < patterns.len() ==> glob_problem(#[trigger] patterns[j]) is None,
    ensures
        first_glob_problem(patterns) is None,
    decreases patterns.len(),
{
    if patterns.len() > 0 {
        let fewer = patterns.drop_last();
        assert forall|j: int| 0 <= j < fewer.len() implies glob_problem(
            #[trigger] fewer[j],
        ) is None by {
            assert(fewer[j] == patterns[j]);
        }
        lemma_good_globs(fewer);
        assert(patterns.last() == patterns[patterns.len() - 1]);
    }
}

/// The filters of a source let a name through exactly if it matches one of the
/// globs that include, where there are any, and none of those that exclude; and
/// there are none with a bad glob among either.
pub proof fn law_filters_of_sources(
    includes: &Vec<String>,
    excludes: &Vec<String>,
    filters: Result<Filters>,
    value: &str,
    chosen: bool,
    k: int,
)
    requires
        call_ensures(Filters::new, (includes, excludes), filters),
        filters matches Ok(good) ==> call_ensures(Filters::matches, (&good, value), chosen),
    ensures
        filters is Ok ==> (chosen <==> (includes@.len() == 0 || is_among(includes@, value@))
            && !is_among(excludes@, value@)),
        0 <= k < includes@.len() && glob_problem(includes@[k]@) is Some ==> filters is Err,
        0 <= k < excludes@.len() && glob_problem(excludes@[k]@) is Some ==> filters is Err,
{
    lemma_among(includes@, value@);
    lemma_among(excludes@, value@);
    assert(texts(includes@).len() == includes@.len());
    if 0 <= k < includes@.len() && glob_problem(includes@[k]@) is Some {
        lemma_some_bad_glob(texts(includes@), k);
    }
    if 0 <= k < excludes@.len() && glob_problem(excludes@[k]@) is Some {
        lemma_some_bad_glob(texts(excludes@), k);
    }
}

/// A pattern that is no glob is a problem.
proof fn lemma_some_bad_glob(patterns: Seq<Seq<char>>, k: int)
    requires
        0 <= k < patterns.len(),
        glob_problem(patterns[k]) is Some,
    ensures
        first_glob_problem(patterns) is Some,
    decreases patterns.len(),
{
    if k < patterns.len() - 1 {
        assert(patterns.drop_last()[k] == patterns[k]);
        lemma_some_bad_glob(patterns.drop_last(), k);
    }
}

/// The headers of a request name this program, what is accepted and the token,
/// which alone is kept out of logs; a token that cannot stand in a header is
/// refused, and the message does not hold it.
pub proof fn law_requests_carry_the_token(
    token: &str,
    accept: &str,
    provider: &str,
    headers: Result<Vec<Header>>,
    i: int,
)
    requires
        call_ensures(authenticated_headers, (token, accept, provider), headers),
    ensures
        headers matches Ok(list) ==> {
            &&& list@.len() == 3
            &&& list@[0].name@ == "user-agent"@ && list@[0].value@ == "multi-repo/0.1.0"@
            &&& list@[1].name@ == "accept"@ && list@[1].value@ == accept@
            &&& list@[2].name@ == "authorization"@ && list@[2].value@ == "Bearer "@ + token@
            &&& 0 <= i < 3 ==> (list@[i].sensitive <==> i == 2)
        },
        headers matches Err(error) ==> error@ == ErrorModel::Config(
            "invalid "@ + provider@ + " token: "@ + "failed to parse header value"@,
        ),
        headers is Ok <==> forall|k: int|
            0 <= k < encode_utf8("Bearer "@ + token@).len() ==> {
                let b = #[trigger] encode_utf8("Bearer "@ + token@)[k];
                b == 9 || 32 <= b < 127 || b >= 128
            },
{
    let bytes = encode_utf8("Bearer "@ + token@);
    if headers is Ok {
        assert forall|k: int| 0 <= k < bytes.len() implies {
            let b = #[trigger] bytes[k];
            b == 9 || 32 <= b < 127 || b >= 128
        } by {
            let b = bytes[k];
            assert(b == 9 || (b >= 32 && b != 127));
        }
    }
}

/// Every error says what went wrong and of what it is.
pub proof fn law_errors_are_told(error: &Error, text: String)
    requires
        call_ensures(Error::message, (error,), text),
    ensures
        error matches Error::Config(said) ==> text@ == "configuration error: "@ + said@,
        error matches Error::CurrentDir(said) ==> text@
            == "failed to determine the current directory: "@ + said@,
        error matches Error::Read { path, source } ==> text@ == "failed to read "@ + path@ + ": "@
            + source@,
        error matches Error::Write { path, source } ==> text@ == "failed to write "@ + path@ + ": "@
            + source@,
        error matches Error::Http(said) ==> text@ == "HTTP request failed: "@ + said@,
        error matches Error::Url(said) ==> text@ == "invalid URL: "@ + said@,
        error matches Error::Json(said) ==> text@ == "invalid JSON: "@ + said@,
        error matches Error::Sql(said) ==> text@ == "state database error: "@ + said@,
        error matches Error::Git(said) ==> text@ == "git operation failed: "@ + said@,
        error matches Error::Search(said) ==> text@ == "search error: "@ + said@,
        error is WorkspaceLocked ==> text@ == "workspace is already being modified"@,
        error matches Error::Task(said) ==> text@ == "task failed: "@ + said@,
{
}

/// A run of Git that failed is told with its place, its status and what it
/// complained about; one that did not start with the reason; and a step that
/// failed keeps its own error.
pub proof fn law_failed_steps_are_told(path: &str, reply: &Reply, error: Error)
    requires
        call_ensures(reply_error, (path, reply), error),
    ensures
        reply matches Reply::Output(output) ==> error@ == ErrorModel::Git(
            "git in "@ + path@ + " exited with "@ + output.status@ + ": "@ + trimmed(
                lossy_text(output.stderr@),
            ),
        ),
        reply matches Reply::NotRun(message) ==> error@ == ErrorModel::Git(
            "could not run git in "@ + path@ + ": "@ + message@,
        ),
        reply matches Reply::Failed(own) ==> error@ == own@,
        reply is Resolved || reply is Directory || reply is Found || reply is Kind || reply is Done
            ==> error@ is Task,
{
}

/// What a successful run of Git wrote is taken without the white space around it;
/// a failed one gives an error, but for one that says by its exit code that there
/// is nothing, where that is an answer.
pub proof fn law_what_git_wrote_is_taken(
    path: &str,
    reply: &Reply,
    text: Result<String>,
    optional: Result<Option<String>>,
)
    requires
        call_ensures(git_stdout, (path, reply), text),
        call_ensures(git_optional_stdout, (path, reply), optional),
    ensures
        reply matches Reply::Output(output) ==> {
            &&& output.success ==> (text matches Ok(written) && written@ == trimmed(
                lossy_text(output.stdout@),
            ))
            &&& output.success ==> (optional matches Ok(Some(written)) && written@ == trimmed(
                lossy_text(output.stdout@),
            ))
            &&& !output.success ==> text is Err
            &&& !output.success && output.code == Some(1i32) ==> (optional matches Ok(None))
            &&& !output.success && output.code != Some(1i32) ==> optional is Err
        },
        !(reply is Output) ==> text is Err && optional is Err,
{
}

/// Of some repositories exactly those are chosen that the filter lets through,
/// each as often as it is there; and of the globs of the filter a bad one is
/// reported.
pub proof fn law_filtered_repositories(
    repos: Vec<RepoRecord>,
    filter: &RepoFilter,
    list: Result<Vec<RepoRecord>>,
    k: int,
)
    requires
        call_ensures(select_repos, (repos, filter), list),
    ensures
        list matches Ok(chosen) ==> {
            &&& chosen@.len() <= repos@.len()
            &&& 0 <= k < repos@.len() && selected(*filter, repos@[k]@) ==> exists|j: int|
                0 <= j < chosen@.len() && (#[trigger] chosen@[j])@ == repos@[k]@
            &&& 0 <= k < chosen@.len() ==> selected(*filter, chosen@[k]@) && exists|j: int|
                0 <= j < repos@.len() && (#[trigger] repos@[j])@ == chosen@[k]@
        },
        0 <= k < filter.repo_globs@.len() && glob_problem(filter.repo_globs@[k]@) is Some
            ==> list is Err,
        filter.repo_globs@.len() == 0 ==> list is Ok,
{
    let all = records(repos@);
    let keep = |repo: crate::model::RecordModel| selected(*filter, repo);
    if let Ok(chosen) = list {
        lemma_filtered(all, keep, records(chosen@), repos, chosen, k);
    }
    if 0 <= k < filter.repo_globs@.len() && glob_problem(filter.repo_globs@[k]@) is Some {
        lemma_some_bad_glob(texts(filter.repo_globs@), k);
    }
}

/// What is filtered holds exactly what is to be kept.
proof fn lemma_filtered(
    all: Seq<crate::model::RecordModel>,
    keep: spec_fn(crate::model::RecordModel) -> bool,
    kept: Seq<crate::model::RecordModel>,
    repos: Vec<RepoRecord>,
    chosen: Vec<RepoRecord>,
    k: int,
)
    requires
        all == records(repos@),
        kept == records(chosen@),
        kept == all.filter(keep),
    ensures
        kept.len() <= all.len(),
        0 <= k < repos@.len() && keep(repos@[k]@) ==> exists|j: int|
            0 <= j < chosen@.len() && (#[trigger] chosen@[j])@ == repos@[k]@,
        0 <= k < chosen@.len() ==> keep(chosen@[k]@) && exists|j: int|
            0 <= j < repos@.len() && (#[trigger] repos@[j])@ == chosen@[k]@,
{
    all.lemma_filter_len(keep);
    if 0 <= k < repos@.len() && keep(repos@[k]@) {
        assert(all[k] == repos@[k]@);
        all.lemma_filter_contains(keep, k);
        let j = choose|j: int| 0 <= j < kept.len() && kept[j] == all[k];
        assert(kept[j] == chosen@[j]@);
    }
    if 0 <= k < chosen@.len() {
        all.lemma_filter_pred(keep, k);
        assert(kept[k] == chosen@[k]@);
        assert(kept.contains(kept[k]));
        all.lemma_filter_contains_rev(keep, kept[k]);
        let j = choose|j: int| 0 <= j < all.len() && all[j] == kept[k];
        assert(all[j] == repos@[j]@);
    }
}

/// Exactly the inactive repositories of a listing are candidates for pruning.
pub proof fn law_inactive_repositories_are_candidates(
    list: Vec<RepoRecord>,
    repos: Vec<RepoRecord>,
    k: int,
)
    requires
        call_ensures(candidates, (list,), repos),
    ensures
        0 <= k < list@.len() && !list@[k].active ==> exists|j: int|
            0 <= j < repos@.len() && (#[trigger] repos@[j])@ == list@[k]@,
        0 <= k < repos@.len() ==> !repos@[k].active && exists|j: int|
            0 <= j < list@.len() && (#[trigger] list@[j])@ == repos@[k]@,
{
    let all = records(list@);
    let keep = |repo: crate::model::RecordModel| !repo.active;
    assert(records(repos@) == all.filter(keep));
    lemma_filtered(all, keep, records(repos@), list, repos, k);
    if 0 <= k < list@.len() {
        assert(list@[k]@.active == list@[k].active);
    }
    if 0 <= k < repos@.len() {
        assert(repos@[k]@.active == repos@[k].active);
    }
}

/// The repository that a file is found in has a working tree above the file, and
/// no other working tree above it is nearer.
pub proof fn law_files_are_found_in_their_repository(
    path: &[u8],
    repos: &Vec<RepoRecord>,
    i: usize,
    j: int,
)
    requires
        call_ensures(find_repo, (path, repos), Some(i)),
    ensures
        i < repos@.len(),
        begins(
            byte_components(path@),
            byte_components(encode_utf8(repos@[i as int].local_path@)),
        ),
        0 <= j < repos@.len() && begins(
            byte_components(path@),
            byte_components(encode_utf8(repos@[j].local_path@)),
        ) && byte_components(encode_utf8(repos@[j].local_path@)).len() > 0 ==> byte_components(
            encode_utf8(repos@[j].local_path@),
        ).len() <= byte_components(encode_utf8(repos@[i as int].local_path@)).len(),
{
    let all = records(repos@);
    assert(all[i as int] == repos@[i as int]@);
    if 0 <= j < repos@.len() {
        assert(all[j] == repos@[j]@);
        let root = root_of(all[j]);
        assert(root == encode_utf8(repos@[j].local_path@));
        if begins(byte_components(path@), byte_components(root)) && byte_components(root).len()
            > 0 {
            assert(crate::search::is_above(root_of(all[j]), path@));
            assert(root_of(all[i as int]) == encode_utf8(repos@[i as int].local_path@));
            assert(byte_components(root_of(all[j])).len() <= byte_components(
                root_of(all[i as int]),
            ).len());
        }
    }
}

/// The files of Git itself are not searched, and every other directory is
/// entered.
pub proof fn law_directories_are_entered(name: &[u8], entered: bool)
    requires
        call_ensures(enters_directory, (name,), entered),
    ensures
        entered <==> name@ != seq![46u8, 103u8, 105u8, 116u8],
{
    reveal_strlit(".git");
    vstd::utf8::is_ascii_chars_encode_utf8(".git"@);
    assert(encode_utf8(".git"@) =~= seq![46u8, 103u8, 105u8, 116u8]);
}

/// A file is let through exactly if it lies below one of the paths that were
/// asked for, if any were, matches a glob that includes, if there is one, and
/// none that excludes.
pub proof fn law_paths_are_let_through(
    prefixes: &Vec<Vec<u8>>,
    has_includes: bool,
    included: bool,
    excluded: bool,
    path: &[u8],
    allowed: bool,
)
    requires
        call_ensures(allows_path, (prefixes, has_includes, included, excluded, path), allowed),
    ensures
        allowed <==> {
            &&& prefixes@.len() == 0 || exists|i: int|
                0 <= i < prefixes@.len() && begins(
                    byte_components(path@),
                    byte_components((#[trigger] prefixes@[i])@),
                )
            &&& has_includes ==> included
            &&& !excluded
        },
{
    let all = byte_lists(prefixes@);
    if crate::search::below_some(path@, all) {
        let i = choose|i: int|
            0 <= i < all.len() && begins(
                byte_components(path@),
                byte_components(#[trigger] all[i]),
            );
        assert(all[i] == prefixes@[i]@);
    }
    if exists|i: int|
        0 <= i < prefixes@.len() && begins(
            byte_components(path@),
            byte_components((#[trigger] prefixes@[i])@),
        ) {
        let i = choose|i: int|
            0 <= i < prefixes@.len() && begins(
                byte_components(path@),
                byte_components((#[trigger] prefixes@[i])@),
            );
        assert(all[i] == prefixes@[i]@);
    }
}

/// A search begins with nothing found; something that cannot be searched counts
/// as an error and is reported; and a search is made exactly if its options are
/// good and there are repositories.
pub proof fn law_searches_begin(
    fresh: Findings,
    findings: &mut Findings,
    path: Option<Vec<u8>>,
    message: String,
    event: SearchEvent,
    repos: &Vec<RepoRecord>,
    options: &SearchOptions,
    started: Result<Option<Search>>,
)
    requires
        call_ensures(Findings::new, (), fresh),
        call_ensures(Findings::failed, (findings, path, message), event),
        call_ensures(search, (repos, options), started),
    ensures
        fresh.stats.matches == 0 && fresh.stats.errors == 0,
        forall|repo: Seq<char>| !#[trigger] fresh.reported@.contains(repo),
        old(findings).stats.errors < u64::MAX ==> final(findings).stats.errors == old(
            findings,
        ).stats.errors + 1,
        final(findings).stats.matches == old(findings).stats.matches,
        final(findings).reported@ == old(findings).reported@,
        event == (SearchEvent::Error { path, message }),
        started is Err <==> options_problem(*options) is Some,
        started matches Ok(found) ==> (found is Some <==> repos@.len() > 0),
        started matches Ok(Some(found)) ==> found.mode == options.output_mode,
{
}

/// An output that sorts holds every event back; any other prints it at once; and
/// errors are complained about at once with their place, but for JSON.
pub proof fn law_events_are_printed(
    json: bool,
    color: bool,
    sort: bool,
    fresh: Output,
    output: &mut Output,
    event: SearchEvent,
    line: Option<Printed>,
)
    requires
        call_ensures(Output::new, (json, color, sort), fresh),
        call_ensures(Output::handle, (output, event), line),
    ensures
        fresh.as_json() == json && fresh.in_color() == color && fresh.sorts() == sort,
        fresh.held_back().len() == 0 && fresh.failure() is None,
        final(output).as_json() == old(output).as_json(),
        final(output).in_color() == old(output).in_color(),
        final(output).sorts() == old(output).sorts(),
        final(output).failure() == old(output).failure(),
        !old(output).as_json() ==> (event@ matches EventModel::Error { path, message } ==> {
            &&& final(output).held_back() == old(output).held_back()
            &&& line matches Some(line)
            &&& path is None ==> line@ == PrintedModel::Complaint(message)
            &&& path matches Some(path) ==> line@ == PrintedModel::Complaint(
                lossy_text(path) + ": "@ + message,
            )
        }),
        (old(output).as_json() || !(event@ is Error)) && old(output).sorts() ==> line is None
            && final(output).held_back() == old(output).held_back().push(event),
        (old(output).as_json() || !(event@ is Error)) && !old(output).sorts() ==> {
            &&& final(output).held_back() == old(output).held_back()
            &&& line matches Some(line)
            &&& line@ == printed(event@, old(output).as_json(), old(output).in_color())
        },
{
}

/// At the end all that was held back is printed, in order, and nothing is held
/// back any more; of failures to print the first one is the outcome.
pub proof fn law_outputs_are_finished(
    output: &mut Output,
    list: Vec<Printed>,
    failing: &mut Output,
    message: String,
    closing: &Output,
    result: Result<()>,
)
    requires
        call_ensures(Output::finish, (output,), list),
        call_ensures(Output::record_error, (failing, message), ()),
        call_ensures(Output::result, (closing,), result),
    ensures
        final(output).held_back().len() == 0,
        exists|events: Seq<SearchEvent>|
            #![trigger crate::sort::ranked(events)]
            {
                &&& crate::sort::ranked(events)
                &&& list@.len() == events.len()
                &&& forall|item: SearchEvent|
                    #![trigger events.contains(item)]
                    events.contains(item) <==> old(output).held_back().contains(item)
                &&& forall|i: int|
                    0 <= i < events.len() ==> (#[trigger] list@[i])@ == printed(
                        events[i]@,
                        old(output).as_json(),
                        old(output).in_color(),
                    )
            },
        old(failing).failure() is None ==> final(failing).failure() == Some(message@),
        old(failing).failure() is Some ==> final(failing).failure() == old(failing).failure(),
        final(failing).held_back() == old(failing).held_back(),
        closing.failure() is None <==> result is Ok,
        result matches Err(error) ==> (closing.failure() matches Some(first) && error@ == (
        ErrorModel::Write { path: "<stdout>"@, source: first })),
{
    let events = choose|events: Seq<SearchEvent>|
        {
            &&& #[trigger] crate::sort::sorted_from(old(output).held_back(), events)
            &&& list@.len() == events.len()
            &&& forall|i: int|
                0 <= i < events.len() ==> (#[trigger] list@[i])@ == printed(
                    events[i]@,
                    old(output).as_json(),
                    old(output).in_color(),
                )
        };
    assert(crate::sort::ranked(events));
    assert forall|item: SearchEvent|
        #![trigger events.contains(item)]
        events.contains(item) <==> old(output).held_back().contains(item) by {
        crate::outcome_laws::law_sorting_loses_nothing(old(output).held_back(), events, item);
    }
}

}

//! What holds of the operations on the inventory and of the course of a
//! synchronization.

use vstd::prelude::*;

use crate::config::Config;
use crate::error::{Error, ErrorModel, Result};
use crate::git::GitSyncResult;
use crate::inventory::Inventory;
use crate::model::RepoRecord;
use crate::prune::PruneReport;
use crate::sort::{peers, ranked};
use crate::state::State;
use crate::string_set::StringSet;
use crate::sync::{
    RepoSyncReport, Schedule, SyncOptions, SyncProgress, SyncReport, discovery_total,
    synchronize_repo,
};
use crate::sync_run::{
    Stage, SyncEvent, SyncStep, advance, begin, conclude, discovery_progress, progress,
    progress_news, step,
};
use crate::text::{debug_text, opt_text};

verus! {

/// Whether nothing but the outcome, the default branch and the languages of a
/// single repository changes in an inventory.
pub open spec fn changes_only(before: Inventory, after: Inventory, id: Seq<char>) -> bool {
    &&& forall|other: Seq<char>| #[trigger] after.contains_key(other) <==> before.contains_key(other)
    &&& forall|other: Seq<char>|
        before.contains_key(other) && other != id ==> #[trigger] after[other] == before[other]
    &&& before.contains_key(id) ==> {
        &&& after[id].canonical_url == before[id].canonical_url
        &&& after[id].clone_url == before[id].clone_url
        &&& after[id].local_path == before[id].local_path
        &&& after[id].active == before[id].active
        &&& after[id].links == before[id].links
    }
}

/// A new inventory has no repositories, and so nothing is listed of a workspace
/// that has none.
pub proof fn law_inventories_begin_empty(state: State, list: Result<Vec<RepoRecord>>, id: Seq<char>)
    requires
        call_ensures(State::new, (), state),
        call_ensures(State::list_existing, (None::<(i64, &State)>,), list),
    ensures
        !state@.contains_key(id),
        list matches Ok(list) && list@.len() == 0,
{
}

/// Marking a repository as synchronized makes it ready and clears its error, and
/// nothing else.
pub proof fn law_ready_repositories_are_marked(state: &mut State, id: &str)
    requires
        call_ensures(State::mark_ready, (state, id), ()),
    ensures
        changes_only(old(state)@, final(state)@, id@),
        old(state)@.contains_key(id@) ==> {
            &&& final(state)@[id@].status == "ready"@
            &&& final(state)@[id@].last_error is None
            &&& final(state)@[id@].default_branch == old(state)@[id@].default_branch
            &&& final(state)@[id@].detected == old(state)@[id@].detected
        },
{
}

/// Recording a failure keeps its message; the repository is marked with it, but
/// for one that is to stay as it is marked.
pub proof fn law_failures_are_marked(
    state: &mut State,
    id: &str,
    message: &str,
    preserve_ready: bool,
)
    requires
        call_ensures(State::mark_error, (state, id, message, preserve_ready), ()),
    ensures
        changes_only(old(state)@, final(state)@, id@),
        old(state)@.contains_key(id@) ==> {
            &&& final(state)@[id@].last_error == Some(message@)
            &&& preserve_ready ==> final(state)@[id@].status == old(state)@[id@].status
            &&& !preserve_ready ==> final(state)@[id@].status == "error"@
            &&& final(state)@[id@].default_branch == old(state)@[id@].default_branch
            &&& final(state)@[id@].detected == old(state)@[id@].detected
        },
{
}

/// A default branch that was found is taken over where none was known, and one
/// that was known stays.
pub proof fn law_found_branches_are_recorded(state: &mut State, id: &str, branch: &str)
    requires
        call_ensures(State::record_default_branch, (state, id, branch), ()),
    ensures
        changes_only(old(state)@, final(state)@, id@),
        old(state)@.contains_key(id@) ==> {
            &&& old(state)@[id@].default_branch is None ==> final(state)@[id@].default_branch
                == Some(branch@)
            &&& old(state)@[id@].default_branch is Some ==> final(state)@[id@].default_branch
                == old(state)@[id@].default_branch
            &&& final(state)@[id@].status == old(state)@[id@].status
            &&& final(state)@[id@].last_error == old(state)@[id@].last_error
            &&& final(state)@[id@].detected == old(state)@[id@].detected
        },
{
}

/// The languages that were found in a repository replace those that were found
/// before, and nothing else.
pub proof fn law_languages_are_replaced(state: &mut State, id: &str, tags: &StringSet)
    requires
        call_ensures(State::replace_detected_tags, (state, id, tags), ()),
    ensures
        changes_only(old(state)@, final(state)@, id@),
        old(state)@.contains_key(id@) ==> {
            &&& final(state)@[id@].detected == tags@
            &&& final(state)@[id@].status == old(state)@[id@].status
            &&& final(state)@[id@].last_error == old(state)@[id@].last_error
            &&& final(state)@[id@].default_branch == old(state)@[id@].default_branch
        },
{
}

/// Exactly the repositories that are known and inactive can be forgotten, each by
/// itself; any other is refused, and the inventory stays as it was.
pub proof fn law_only_inactive_repositories_are_forgotten(
    state: &mut State,
    id: &str,
    removed: Result<()>,
    other: Seq<char>,
)
    requires
        call_ensures(State::remove_inactive, (state, id), removed),
    ensures
        removed is Ok <==> old(state)@.contains_key(id@) && !old(state)@[id@].active,
        removed is Ok ==> !final(state)@.contains_key(id@),
        other != id@ ==> (final(state)@.contains_key(other) <==> old(state)@.contains_key(other)),
        other != id@ && old(state)@.contains_key(other) ==> final(state)@[other]
            == old(state)@[other],
        removed matches Err(error) ==> final(state)@ == old(state)@ && error@ == ErrorModel::Task(
            "repository "@ + debug_text(id@) + " is no longer inactive"@,
        ),
{
}

/// The outcome of a synchronization is told as it is recorded: what was done,
/// with its detail and a warning about languages, or the message of the error
/// and nothing else; and a repository that failed keeps its mark exactly if it
/// was ready.
pub proof fn law_outcomes_are_told(
    state: &mut State,
    repo: &RepoRecord,
    outcome: Result<GitSyncResult>,
    detected: Option<Result<StringSet>>,
    report: RepoSyncReport,
)
    requires
        call_ensures(synchronize_repo, (state, repo, outcome, detected), report),
    ensures
        report.id@ == repo.id@,
        changes_only(old(state)@, final(state)@, repo.id@),
        outcome matches Ok(result) ==> {
            &&& report.action == Some(result.action)
            &&& opt_text(report.detail) == opt_text(result.detail)
            &&& report.error is None
            &&& detected matches Some(Err(problem)) ==> opt_text(report.warning) == Some(
                "language detection failed: "@ + problem@.message(),
            )
            &&& !(detected matches Some(Err(problem))) ==> report.warning is None
            &&& old(state)@.contains_key(repo.id@) ==> {
                &&& final(state)@[repo.id@].status == "ready"@
                &&& final(state)@[repo.id@].last_error is None
                &&& detected matches Some(Ok(tags)) ==> final(state)@[repo.id@].detected == tags@
                &&& !(detected matches Some(Ok(tags))) ==> final(state)@[repo.id@].detected
                    == old(state)@[repo.id@].detected
                &&& old(state)@[repo.id@].default_branch is None
                    ==> final(state)@[repo.id@].default_branch == opt_text(
                    result.detected_default_branch,
                )
                &&& old(state)@[repo.id@].default_branch is Some
                    ==> final(state)@[repo.id@].default_branch
                    == old(state)@[repo.id@].default_branch
            }
        },
        outcome matches Err(error) ==> {
            &&& report.action is None
            &&& report.detail is None
            &&& report.warning is None
            &&& opt_text(report.error) == Some(error@.message())
            &&& old(state)@.contains_key(repo.id@) ==> {
                &&& final(state)@[repo.id@].last_error == Some(error@.message())
                &&& repo.status is Ready ==> final(state)@[repo.id@].status
                    == old(state)@[repo.id@].status
                &&& !(repo.status is Ready) ==> final(state)@[repo.id@].status == "error"@
                &&& final(state)@[repo.id@].default_branch == old(state)@[repo.id@].default_branch
                &&& final(state)@[repo.id@].detected == old(state)@[repo.id@].detected
            }
        },
{
    let told = report@;
    assert(told.id == repo@.id);
}

/// Tables that were just created are given the current version, those of the
/// current version are taken as they are, and all others are refused.
pub proof fn law_versions_of_the_tables(version: i64, created: Result<bool>)
    requires
        call_ensures(State::initialize, (version,), created),
    ensures
        created == Ok::<bool, Error>(true) <==> version == 0,
        created == Ok::<bool, Error>(false) <==> version == crate::state::SCHEMA_VERSION,
        created is Err <==> version != 0 && version != crate::state::SCHEMA_VERSION,
{
}

/// A schedule begins with nothing started, starts the repositories one by one in
/// their order, never more than allowed at a time but always as many, and at
/// least one.
pub proof fn law_repositories_are_started_in_order(
    total: usize,
    jobs: usize,
    fresh: Schedule,
    schedule: &mut Schedule,
    next: Option<usize>,
)
    requires
        call_ensures(Schedule::new, (total, jobs), fresh),
        call_ensures(Schedule::start, (schedule,), next),
    ensures
        fresh.begun() == 0 && fresh.done() == 0,
        fresh.repositories() == total,
        jobs >= 1 ==> fresh.at_once() == jobs,
        jobs == 0 ==> fresh.at_once() == 1,
        next is Some <==> old(schedule).begun() < old(schedule).repositories() && old(
            schedule,
        ).begun() - old(schedule).done() < old(schedule).at_once(),
        next matches Some(place) ==> place == old(schedule).begun() && final(schedule).begun()
            == place + 1,
        next is None ==> final(schedule).begun() == old(schedule).begun(),
        final(schedule).done() == old(schedule).done(),
        final(schedule).repositories() == old(schedule).repositories(),
        final(schedule).at_once() == old(schedule).at_once(),
{
}

/// A repository that is done counts as one more, and nothing else changes.
pub proof fn law_done_repositories_are_counted(
    schedule: &mut Schedule,
    complete: bool,
    place: Option<usize>,
    told: SyncProgress,
)
    requires
        call_ensures(Schedule::finish, (schedule,), ()),
        call_ensures(Schedule::is_complete, (old(schedule),), complete),
        call_ensures(Schedule::next, (old(schedule),), place),
        call_ensures(Schedule::progress, (old(schedule),), told),
    ensures
        final(schedule).done() == old(schedule).done() + 1,
        final(schedule).begun() == old(schedule).begun(),
        final(schedule).repositories() == old(schedule).repositories(),
        final(schedule).at_once() == old(schedule).at_once(),
        complete <==> old(schedule).done() == old(schedule).repositories(),
        place is Some <==> old(schedule).begun() < old(schedule).repositories() && old(
            schedule,
        ).begun() - old(schedule).done() < old(schedule).at_once(),
        place matches Some(place) ==> place == old(schedule).begun(),
        told == (SyncProgress::Repositories {
            completed: old(schedule).done() as usize,
            total: old(schedule).repositories() as usize,
        }),
{
}

/// A synchronization begins by locking the workspace, and a dry run by asking the
/// sources. All sources are asked, and the configuration itself if it declares
/// repositories; then a dry run reads what is stored, and any other opens it.
pub proof fn law_sources_are_asked_first(
    config: &Config,
    options: SyncOptions,
    first: Stage,
    stage: &Stage,
    next: SyncStep,
)
    requires
        call_ensures(begin, (options,), first),
        call_ensures(step, (config, options, stage), next),
    ensures
        options.dry_run ==> (first matches Stage::Asking(answers) && answers@.len() == 0),
        !options.dry_run ==> first is Unlocked,
        *stage is Unlocked ==> next is Lock,
        *stage matches Stage::Asking(answers) ==> {
            let asked = config.sources@.len() + (if config.repositories@.len() > 0 {
                1int
            } else {
                0int
            });
            &&& answers@.len() < asked ==> next is Discover
            &&& answers@.len() >= asked && options.dry_run ==> next is ReadExisting
            &&& answers@.len() >= asked && !options.dry_run ==> next is Open
        },
        *stage is Unstored ==> next is Store,
        *stage is Ended ==> next is Finish,
{
}

/// While repositories are synchronized, as many are started as may be under way
/// at once; then one of them is waited for; and once all are done, it ends.
pub proof fn law_repositories_are_worked_off(
    config: &Config,
    options: SyncOptions,
    stage: &Stage,
    next: SyncStep,
)
    requires
        call_ensures(step, (config, options, stage), next),
    ensures
        *stage matches Stage::Working(work) ==> {
            let schedule = work.schedule;
            let may_start = schedule.begun() < schedule.repositories() && schedule.begun()
                - schedule.done() < schedule.at_once();
            &&& may_start ==> next == SyncStep::Start(schedule.begun() as usize)
            &&& !may_start && schedule.done() == schedule.repositories() ==> next is Finish
            &&& !may_start && schedule.done() != schedule.repositories() ==> next is Await
        },
{
}

/// Every answer of a source is kept, in the order in which they come; once the
/// inventory is stored, all its repositories are worked off, with what was asked
/// for at once; every report about one is kept; and what could not be brought up
/// to date ends the synchronization with its error.
pub proof fn law_answers_and_reports_are_kept(
    config: &Config,
    options: SyncOptions,
    before: Stage,
    event: SyncEvent,
    after: Stage,
)
    requires
        call_ensures(advance, (config, options, before, event), after),
    ensures
        event is Locked ==> (after matches Stage::Asking(answers) && answers@.len() == 0),
        event matches SyncEvent::Answered(answer) ==> (before matches Stage::Asking(old) && (
        after matches Stage::Asking(new) && new@ == old@.push(answer))),
        event is Existing ==> after is Ended,
        event is Opened ==> after is Unstored,
        event is Stored ==> (before matches Stage::Unstored(sources, state, Ok(repos)) ==> (
        after matches Stage::Working(work) && {
            &&& work.sources@ == sources@
            &&& work.repos@ == repos@
            &&& work.reports@.len() == 0
            &&& work.schedule.repositories() == repos@.len()
            &&& work.schedule.begun() == 0
            &&& work.schedule.done() == 0
            &&& options.jobs >= 1 ==> work.schedule.at_once() == options.jobs
            &&& options.jobs == 0 ==> work.schedule.at_once() == 1
        })),
        event is Stored ==> (before matches Stage::Unstored(sources, state, Err(error)) ==> (
        after matches Stage::Ended(Err(problem)) && problem == error)),
        event is Started ==> (before matches Stage::Working(old) && (after matches Stage::Working(
            new,
        ) && {
            &&& new.sources@ == old.sources@
            &&& new.repos@ == old.repos@
            &&& new.reports@ == old.reports@
            &&& new.schedule.repositories() == old.schedule.repositories()
            &&& new.schedule.at_once() == old.schedule.at_once()
            &&& new.schedule.begun() == old.schedule.begun() + 1
            &&& new.schedule.done() == old.schedule.done()
        })),
        event matches SyncEvent::Done(report) ==> (before matches Stage::Working(old) && (
        after matches Stage::Working(new) && {
            &&& new.sources@ == old.sources@
            &&& new.repos@ == old.repos@
            &&& new.reports@ == old.reports@.push(report)
            &&& new.schedule.repositories() == old.schedule.repositories()
            &&& new.schedule.at_once() == old.schedule.at_once()
            &&& new.schedule.begun() == old.schedule.begun()
            &&& new.schedule.done() == old.schedule.done() + 1
        })),
{
}

/// The report of a synchronization that was worked off has all that was reported,
/// each as often as it was, sorted, and no preview; and one that ended before
/// keeps its own.
pub proof fn law_reports_are_concluded(
    config: &Config,
    options: SyncOptions,
    stage: Stage,
    report: Result<SyncReport>,
)
    requires
        call_ensures(conclude, (config, options, stage), report),
    ensures
        stage matches Stage::Working(work) ==> (report matches Ok(report) && {
            &&& report.sources@ == work.sources@
            &&& report.preview is None
            &&& ranked(report.repos@)
            &&& forall|item: RepoSyncReport| #[trigger]
                peers(report.repos@, item) == peers(work.reports@, item)
            &&& forall|item: RepoSyncReport|
                #![trigger report.repos@.contains(item)]
                report.repos@.contains(item) <==> work.reports@.contains(item)
        }),
        stage matches Stage::Ended(result) ==> report == result,
{
    if let Stage::Working(work) = stage {
        if let Ok(done) = report {
            assert forall|item: RepoSyncReport|
                #![trigger done.repos@.contains(item)]
                done.repos@.contains(item) <==> work.reports@.contains(item) by {
                crate::outcome_laws::law_sorting_loses_nothing(work.reports@, done.repos@, item);
            }
        }
    }
}

/// The progress counts the sources that have answered and then the repositories
/// that are done, and it is told exactly where it changes.
pub proof fn law_progress_is_told(
    config: &Config,
    answered: usize,
    stage: &Stage,
    total: usize,
    asking: SyncProgress,
    told: Option<SyncProgress>,
    before: Option<SyncProgress>,
    after: Option<SyncProgress>,
    news: Option<SyncProgress>,
)
    requires
        config.sources@.len() < usize::MAX,
        call_ensures(discovery_total, (config,), total),
        call_ensures(discovery_progress, (config, answered), asking),
        call_ensures(progress, (config, stage), told),
        call_ensures(progress_news, (before, after), news),
    ensures
        config.repositories@.len() == 0 ==> total == config.sources@.len(),
        config.repositories@.len() > 0 ==> total == config.sources@.len() + 1,
        asking == (SyncProgress::Discovering { completed: answered, total }),
        *stage matches Stage::Asking(answers) ==> (answers@.len() <= total ==> told == Some(
            SyncProgress::Discovering { completed: answers@.len() as usize, total },
        )),
        *stage matches Stage::Working(work) ==> told == Some(
            SyncProgress::Repositories {
                completed: work.schedule.done() as usize,
                total: work.schedule.repositories() as usize,
            },
        ),
        *stage is Unlocked || *stage is Unstored || *stage is Ended ==> told is None,
        before == after ==> news is None,
        before != after ==> news == after,
{
}

/// A synchronization failed exactly if a source or a repository did, and pruning
/// exactly if a repository did.
pub proof fn law_failures_are_noticed(
    report: &SyncReport,
    failed: bool,
    pruned: &PruneReport,
    unpruned: bool,
)
    requires
        call_ensures(SyncReport::failed, (report,), failed),
        call_ensures(PruneReport::failed, (pruned,), unpruned),
    ensures
        failed <==> (exists|i: int|
            0 <= i < report.sources@.len() && (#[trigger] report.sources@[i]).error is Some) || (
        exists|i: int|
            0 <= i < report.repos@.len() && (#[trigger] report.repos@[i]).error is Some),
        unpruned <==> exists|i: int|
            0 <= i < pruned.repos@.len() && (#[trigger] pruned.repos@[i]).error is Some,
{
}

}

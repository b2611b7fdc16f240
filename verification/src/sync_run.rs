//! The course of a synchronization: what is done next, and what becomes of what
//! came of it.

use vstd::prelude::*;

use crate::config::{Config, WORKSPACE_SOURCE_NAME};
use crate::error::{ErrorModel, Result};
use crate::inventory::{known_sources, listing_problem, lists, readable};
use crate::model::{RecordModel, RepoRecord, records};
use crate::path::joined;
use crate::reconcile::{
    Plan, active_ids, plan_all, plan_of, planned_active, preview_reconciliation, previews,
    reconcile_repositories, reconciliation,
};
use crate::sort::sorted_from;
use crate::state::{SCHEMA_VERSION, State, schema_problem};
use crate::string_set::StringSet;
use crate::sync::{
    Discovery, Listing, ListingModel, RepoSyncReport, Schedule, SourceReport, SyncOptions,
    SyncProgress, SyncReport, all_listings, asked_total, collect_discoveries, discovery_total, listings,
    reports_of, retired, retired_sources, sort_repo_reports,
};

verus! {

/// What the sources list, given what they answered and which sources list
/// something of the inventory.
pub open spec fn found_listings(
    config: Config,
    discoveries: Seq<Discovery>,
    known: Set<Seq<char>>,
) -> Seq<ListingModel> {
    all_listings(discoveries, config.repositories@.len() > 0, retired(config, known))
}

/// The reports about what the sources answered, and what they list.
fn collect(config: &Config, discoveries: Vec<Discovery>, known: &StringSet) -> (collected: (
    Vec<SourceReport>,
    Vec<Listing>,
))
    ensures
        reports_of(discoveries@, collected.0@),
        listings(collected.1@) == found_listings(*config, discoveries@, known@),
{
    let gone = retired_sources(config, known);
    collect_discoveries(discoveries, config.repositories.len() > 0, &gone)
}

/// The sources that list something of a stored inventory.
pub open spec fn stored_sources(stored: Option<(i64, State)>) -> Set<Seq<char>> {
    match stored {
        Some((_, state)) => known_sources(state@),
        None => Set::empty(),
    }
}

/// Whether records are the listing of a stored inventory.
pub open spec fn stored_records(stored: Option<(i64, State)>, current: Seq<RecordModel>) -> bool {
    match stored {
        Some((_, state)) => readable(state@, true) && lists(state@, state@.dom(), current),
        None => current.len() == 0,
    }
}

/// Whether a report tells what a synchronization would change of a stored
/// inventory, or why that cannot be told.
pub open spec fn previewed(
    config: Config,
    discoveries: Seq<Discovery>,
    stored: Option<(i64, State)>,
    report: Result<SyncReport>,
) -> bool {
    let found = found_listings(config, discoveries, stored_sources(stored));
    match report {
        Ok(report) => {
            &&& stored matches Some((version, _)) ==> version == SCHEMA_VERSION
            &&& reports_of(discoveries, report.sources@)
            &&& report.repos@.len() == 0
            &&& exists|current: Seq<RecordModel>|
                {
                    &&& #[trigger] stored_records(stored, current)
                    &&& plan_all(
                        plan_of(current, current.len() as int),
                        found,
                        found.len() as int,
                    ) matches Ok(plan)
                    &&& report.preview matches Some(preview)
                    &&& previews(preview, active_ids(current), planned_active(plan))
                }
        },
        Err(error) => {
            ||| stored matches Some((version, _)) && version != SCHEMA_VERSION && error@
                == schema_problem(version)
            ||| stored matches Some((version, state)) && version == SCHEMA_VERSION
                && listing_problem(state@, true, error@)
            ||| {
                &&& stored matches Some((version, _)) ==> version == SCHEMA_VERSION
                &&& exists|current: Seq<RecordModel>|
                    {
                        &&& #[trigger] stored_records(stored, current)
                        &&& plan_all(
                            plan_of(current, current.len() as int),
                            found,
                            found.len() as int,
                        ) == Err::<Plan, ErrorModel>(error@)
                    }
            }
        },
    }
}

/// What a synchronization would change. `stored` is the stored inventory, if
/// there is one, with the version of its tables.
fn preview(config: &Config, discoveries: Vec<Discovery>, stored: &Option<(i64, State)>) -> (report:
    Result<SyncReport>)
    ensures
        previewed(*config, discoveries@, *stored, report),
{
    let (known, borrowed) = match stored {
        Some((version, state)) => (state.sources(), Some((*version, state))),
        None => (StringSet::new(), None),
    };
    proof {
        assert(known@ =~= stored_sources(*stored));
    }
    let (sources, found) = collect(config, discoveries, &known);
    let current = match State::list_existing(borrowed) {
        Ok(current) => current,
        Err(error) => return Err(error),
    };
    proof {
        assert(stored_records(*stored, records(current@)));
    }
    match preview_reconciliation(&current, &found) {
        Ok(preview) => Ok(SyncReport { sources, repos: Vec::new(), preview: Some(preview) }),
        Err(error) => Err(error),
    }
}

/// Repositories that are being synchronized.
#[derive(Debug)]
pub struct Work {
    /// The reports about the sources.
    pub sources: Vec<SourceReport>,
    /// The repositories.
    pub repos: Vec<RepoRecord>,
    /// Which of them were started, and which are done.
    pub schedule: Schedule,
    /// The reports about those that are done.
    pub reports: Vec<RepoSyncReport>,
}

/// How far a synchronization is.
#[derive(Debug)]
pub enum Stage {
    /// The workspace is not locked yet.
    Unlocked,
    /// The sources are being asked; these have answered.
    Asking(Vec<Discovery>),
    /// What the sources list was taken into the inventory, which is not stored
    /// yet; then the repositories in the list are synchronized.
    Unstored(Vec<SourceReport>, State, Result<Vec<RepoRecord>>),
    /// Repositories are being synchronized.
    Working(Work),
    /// It ended.
    Ended(Result<SyncReport>),
}

/// What is done next.
#[derive(Clone, Copy, Debug, PartialEq, Eq, Structural)]
pub enum SyncStep {
    /// Lock the workspace.
    Lock,
    /// Wait until one of the sources, which are asked at the same time, answers.
    Discover,
    /// Read the stored inventory, without creating one.
    ReadExisting,
    /// Open the stored inventory, or create one.
    Open,
    /// Store the inventory.
    Store,
    /// Start the synchronization of the repository at a place.
    Start(usize),
    /// Wait until a repository under way is done.
    Await,
    /// Nothing: it ended.
    Finish,
}

/// What came of a step.
#[derive(Debug)]
pub enum SyncEvent {
    /// The workspace is locked.
    Locked,
    /// A source has answered.
    Answered(Discovery),
    /// The stored inventory was read, if there is one, with the version of its
    /// tables.
    Existing(Option<(i64, State)>),
    /// The stored inventory was opened.
    Opened(State),
    /// The inventory was stored.
    Stored,
    /// The repository that was to be started is under way.
    Started,
    /// A repository under way is done.
    Done(RepoSyncReport),
}

/// Whether a synchronization begins with a stage.
pub open spec fn is_first(options: SyncOptions, stage: Stage) -> bool {
    if options.dry_run {
        stage matches Stage::Asking(answers) && answers@.len() == 0
    } else {
        stage is Unlocked
    }
}

/// The beginning of a synchronization. A dry run does not lock the workspace.
pub fn begin(options: SyncOptions) -> (stage: Stage)
    ensures
        is_first(options, stage),
{
    if options.dry_run {
        Stage::Asking(Vec::new())
    } else {
        Stage::Unlocked
    }
}

/// What is done next.
pub open spec fn next_step(config: Config, options: SyncOptions, stage: Stage) -> SyncStep {
    match stage {
        Stage::Unlocked => SyncStep::Lock,
        Stage::Asking(answers) => if answers@.len() < asked_total(config) {
            SyncStep::Discover
        } else if options.dry_run {
            SyncStep::ReadExisting
        } else {
            SyncStep::Open
        },
        Stage::Unstored(_, _, _) => SyncStep::Store,
        Stage::Working(work) => match work.schedule.startable() {
            Some(place) => SyncStep::Start(place as usize),
            None => if work.schedule.done() == work.schedule.repositories() {
                SyncStep::Finish
            } else {
                SyncStep::Await
            },
        },
        Stage::Ended(_) => SyncStep::Finish,
    }
}

/// What is done next.
pub fn step(config: &Config, options: SyncOptions, stage: &Stage) -> (step: SyncStep)
    ensures
        step == next_step(*config, options, *stage),
{
    match stage {
        Stage::Unlocked => SyncStep::Lock,
        Stage::Asking(answers) => if answers.len() < config.sources.len() || (answers.len()
            == config.sources.len() && config.repositories.len() > 0) {
            SyncStep::Discover
        } else if options.dry_run {
            SyncStep::ReadExisting
        } else {
            SyncStep::Open
        },
        Stage::Unstored(_, _, _) => SyncStep::Store,
        Stage::Working(work) => match work.schedule.next() {
            Some(place) => SyncStep::Start(place),
            None => if work.schedule.is_complete() {
                SyncStep::Finish
            } else {
                SyncStep::Await
            },
        },
        Stage::Ended(_) => SyncStep::Finish,
    }
}

/// Whether a source is asked for its repositories.
pub open spec fn is_asked(config: Config, source: Seq<char>) -> bool {
    ||| exists|i: int|
        0 <= i < config.sources@.len() && #[trigger] config.sources@[i].title() == source
    ||| config.repositories@.len() > 0 && source == WORKSPACE_SOURCE_NAME@
}

/// Whether a source is among those that have answered.
pub open spec fn has_answered(answers: Seq<Discovery>, source: Seq<char>) -> bool {
    exists|i: int| 0 <= i < answers.len() && #[trigger] answers[i].source@ == source
}

/// Whether the repository with an identifier was started.
pub open spec fn was_started(work: Work, id: Seq<char>) -> bool {
    exists|i: int|
        0 <= i < work.schedule.begun() && i < work.repos@.len() && #[trigger] work.repos@[i].id@
            == id
}

/// Whether there is a report about the repository with an identifier.
pub open spec fn was_reported(work: Work, id: Seq<char>) -> bool {
    exists|i: int| 0 <= i < work.reports@.len() && #[trigger] work.reports@[i].id@ == id
}

/// Whether an event is what can come of the next step. Every source that is
/// asked answers once. While repositories are under way, one of them may be done
/// at any time.
pub open spec fn expects(
    config: Config,
    options: SyncOptions,
    stage: Stage,
    event: SyncEvent,
) -> bool {
    match event {
        SyncEvent::Locked => next_step(config, options, stage) is Lock,
        SyncEvent::Answered(discovery) => {
            &&& next_step(config, options, stage) is Discover
            &&& is_asked(config, discovery.source@)
            &&& stage matches Stage::Asking(answers)
            &&& !has_answered(answers@, discovery.source@)
        },
        SyncEvent::Existing(_) => next_step(config, options, stage) is ReadExisting,
        SyncEvent::Opened(_) => next_step(config, options, stage) is Open,
        SyncEvent::Stored => next_step(config, options, stage) is Store,
        SyncEvent::Started => next_step(config, options, stage) is Start,
        SyncEvent::Done(report) => {
            &&& stage matches Stage::Working(work)
            &&& work.schedule.done() < work.schedule.begun()
            &&& was_started(work, report.id@)
            &&& !was_reported(work, report.id@)
        },
    }
}

/// What becomes of a synchronization once it is known what came of a step.
pub open spec fn follows(
    config: Config,
    options: SyncOptions,
    before: Stage,
    event: SyncEvent,
    after: Stage,
) -> bool {
    match event {
        SyncEvent::Locked => after matches Stage::Asking(answers) && answers@.len() == 0,
        SyncEvent::Answered(discovery) => before matches Stage::Asking(old) && (
        after matches Stage::Asking(new) && new@ == old@.push(discovery)),
        SyncEvent::Existing(stored) => before matches Stage::Asking(discoveries) && (
        after matches Stage::Ended(report) && previewed(config, discoveries@, stored, report)),
        SyncEvent::Opened(state) => before matches Stage::Asking(discoveries) && (
        after matches Stage::Unstored(sources, changed, desired) && reports_of(
            discoveries@,
            sources@,
        ) && reconciliation(
            state@,
            found_listings(config, discoveries@, known_sources(state@)),
            joined(config.root@, "repos"@),
            changed@,
            desired,
        )),
        SyncEvent::Stored => before matches Stage::Unstored(sources, _, desired) && match desired {
            Ok(repos) => {
                &&& after matches Stage::Working(work)
                &&& work.sources == sources
                &&& work.repos == repos
                &&& work.schedule.repositories() == repos@.len()
                &&& work.schedule.at_once() == (if options.jobs < 1 {
                    1
                } else {
                    options.jobs as nat
                })
                &&& work.schedule.begun() == 0
                &&& work.schedule.done() == 0
                &&& work.reports@.len() == 0
            },
            Err(error) => after == Stage::Ended(Err(error)),
        },
        SyncEvent::Started => before matches Stage::Working(old) && (
        after matches Stage::Working(new) && same_work(old, new) && new.schedule.begun()
            == old.schedule.begun() + 1 && new.schedule.done() == old.schedule.done()
            && new.reports@ == old.reports@),
        SyncEvent::Done(report) => before matches Stage::Working(old) && (
        after matches Stage::Working(new) && same_work(old, new) && new.schedule.begun()
            == old.schedule.begun() && new.schedule.done() == old.schedule.done() + 1
            && new.reports@ == old.reports@.push(report)),
    }
}

/// Whether the same repositories are being synchronized.
pub open spec fn same_work(before: Work, after: Work) -> bool {
    &&& after.sources == before.sources
    &&& after.repos == before.repos
    &&& after.schedule.repositories() == before.schedule.repositories()
    &&& after.schedule.at_once() == before.schedule.at_once()
}

/// What becomes of a synchronization once it is known what came of a step.
pub fn advance(config: &Config, options: SyncOptions, stage: Stage, event: SyncEvent) -> (after:
    Stage)
    requires
        expects(*config, options, stage, event),
    ensures
        follows(*config, options, stage, event, after),
{
    match (stage, event) {
        (Stage::Unlocked, SyncEvent::Locked) => Stage::Asking(Vec::new()),
        (Stage::Asking(answers), SyncEvent::Answered(discovery)) => {
            let mut answers = answers;
            answers.push(discovery);
            Stage::Asking(answers)
        },
        (Stage::Asking(discoveries), SyncEvent::Existing(stored)) => Stage::Ended(
            preview(config, discoveries, &stored),
        ),
        (Stage::Asking(discoveries), SyncEvent::Opened(state)) => {
            let mut state = state;
            let (sources, found) = collect(config, discoveries, &state.sources());
            let desired = reconcile_repositories(&mut state, config.repos_dir().as_str(), &found);
            Stage::Unstored(sources, state, desired)
        },
        (Stage::Unstored(sources, _, desired), SyncEvent::Stored) => match desired {
            Ok(repos) => {
                let schedule = Schedule::new(repos.len(), options.jobs);
                Stage::Working(Work { sources, repos, schedule, reports: Vec::new() })
            },
            Err(error) => Stage::Ended(Err(error)),
        },
        (Stage::Working(work), SyncEvent::Started) => {
            let mut work = work;
            work.schedule.start();
            Stage::Working(work)
        },
        (Stage::Working(work), SyncEvent::Done(report)) => {
            let mut work = work;
            work.schedule.finish();
            work.reports.push(report);
            Stage::Working(work)
        },
        (stage, _) => stage,
    }
}

/// How far the discovery is once some of the sources have answered.
pub fn discovery_progress(config: &Config, answered: usize) -> (progress: SyncProgress)
    requires
        config.sources@.len() < usize::MAX,
        answered <= asked_total(*config),
    ensures
        progress == (SyncProgress::Discovering {
            completed: answered,
            total: asked_total(*config) as usize,
        }),
{
    SyncProgress::Discovering { completed: answered, total: discovery_total(config) }
}

/// How far a synchronization is: how many sources have answered, then how many
/// repositories are done.
pub open spec fn progress_of(config: Config, stage: Stage) -> Option<SyncProgress> {
    match stage {
        Stage::Asking(answers) => Some(
            SyncProgress::Discovering {
                completed: answers@.len() as usize,
                total: asked_total(config) as usize,
            },
        ),
        Stage::Working(work) => Some(
            SyncProgress::Repositories {
                completed: work.schedule.done() as usize,
                total: work.schedule.repositories() as usize,
            },
        ),
        _ => None,
    }
}

/// How far a synchronization is.
pub fn progress(config: &Config, stage: &Stage) -> (progress: Option<SyncProgress>)
    requires
        config.sources@.len() < usize::MAX,
        *stage matches Stage::Asking(answers) ==> answers@.len() <= asked_total(*config),
    ensures
        progress == progress_of(*config, *stage),
{
    match stage {
        Stage::Asking(answers) => Some(discovery_progress(config, answers.len())),
        Stage::Working(work) => Some(work.schedule.progress()),
        _ => None,
    }
}

/// What is to be told of how far a synchronization is: nothing while it stays
/// as it was.
pub open spec fn news(
    before: Option<SyncProgress>,
    after: Option<SyncProgress>,
) -> Option<SyncProgress> {
    if after == before {
        None
    } else {
        after
    }
}

/// What is to be told of how far a synchronization is.
pub fn progress_news(before: Option<SyncProgress>, after: Option<SyncProgress>) -> (told: Option<
    SyncProgress,
>)
    ensures
        told == news(before, after),
{
    match (before, after) {
        (Some(old), Some(new)) => if old == new {
            None
        } else {
            Some(new)
        },
        (_, after) => after,
    }
}

/// The report of a synchronization that ended.
pub fn conclude(config: &Config, options: SyncOptions, stage: Stage) -> (report: Result<SyncReport>)
    requires
        next_step(*config, options, stage) is Finish,
    ensures
        match stage {
            Stage::Working(work) => {
                &&& report matches Ok(report)
                &&& report.sources == work.sources
                &&& sorted_from(work.reports@, report.repos@)
                &&& report.preview is None
            },
            Stage::Ended(result) => report == result,
            _ => false,
        },
{
    match stage {
        Stage::Working(work) => Ok(
            SyncReport {
                sources: work.sources,
                repos: sort_repo_reports(work.reports),
                preview: None,
            },
        ),
        Stage::Ended(report) => report,
        _ => Ok(SyncReport::default()),
    }
}

/// Whether a stage belongs to a dry run.
pub open spec fn harmless(stage: Stage) -> bool {
    stage is Asking || stage is Ended
}

/// A dry run changes nothing: it begins and goes on with stages in which the
/// sources are asked and the stored inventory is read, and it neither locks the
/// workspace nor creates or stores an inventory nor synchronizes repositories.
pub proof fn law_dry_runs_change_nothing(
    config: Config,
    options: SyncOptions,
    before: Stage,
    event: SyncEvent,
    after: Stage,
)
    requires
        options.dry_run,
    ensures
        is_first(options, before) ==> harmless(before),
        harmless(before) && expects(config, options, before, event) && follows(
            config,
            options,
            before,
            event,
            after,
        ) ==> harmless(after),
        harmless(before) ==> next_step(config, options, before) is Discover || next_step(
            config,
            options,
            before,
        ) is ReadExisting || next_step(config, options, before) is Finish,
{
}

/// Whether the workspace is locked in a stage of a synchronization that is no
/// dry run.
pub open spec fn past_lock(stage: Stage) -> bool {
    !(stage is Unlocked)
}

/// Unless it is a dry run, a synchronization first locks the workspace: nothing
/// else comes before it. And no repository is started before the inventory that
/// lists it was stored.
pub proof fn law_workspaces_are_locked_first(
    config: Config,
    options: SyncOptions,
    before: Stage,
    event: SyncEvent,
    after: Stage,
)
    requires
        !options.dry_run,
        expects(config, options, before, event),
        follows(config, options, before, event, after),
    ensures
        is_first(options, before) ==> next_step(config, options, before) is Lock,
        past_lock(after),
        !past_lock(before) ==> event is Locked,
        after is Working && !(before is Working) ==> before is Unstored && event is Stored,
        next_step(config, options, after) is Start ==> after is Working,
{
}

/// Whether no more repositories are under way than may be, and every one that
/// is done has one report.
pub open spec fn in_bounds(work: Work) -> bool {
    &&& work.schedule.repositories() == work.repos@.len()
    &&& work.schedule.done() <= work.schedule.begun() <= work.schedule.repositories()
    &&& work.schedule.begun() <= work.schedule.done() + work.schedule.at_once()
    &&& work.reports@.len() == work.schedule.done()
    &&& forall|i: int|
        0 <= i < work.reports@.len() ==> was_started(work, #[trigger] work.reports@[i].id@)
    &&& forall|i: int, j: int|
        0 <= i < j < work.reports@.len() ==> (#[trigger] work.reports@[i]).id@ != (
        #[trigger] work.reports@[j]).id@
}

/// No more repositories are under way at once than were asked for, and the
/// reports are those of the repositories that are done, one of each: it holds
/// when the work begins and after every step of it.
pub proof fn law_work_stays_in_bounds(
    config: Config,
    options: SyncOptions,
    before: Stage,
    event: SyncEvent,
    after: Stage,
)
    requires
        expects(config, options, before, event),
        follows(config, options, before, event, after),
        before matches Stage::Working(work) ==> in_bounds(work),
    ensures
        after matches Stage::Working(work) ==> in_bounds(work),
{
    if let (Stage::Working(old), Stage::Working(new)) = (before, after) {
        assert forall|i: int| 0 <= i < new.reports@.len() implies was_started(
            new,
            #[trigger] new.reports@[i].id@,
        ) by {
            let id = new.reports@[i].id@;
            if i < old.reports@.len() {
                assert(old.reports@[i] == new.reports@[i]);
            }
            assert(was_started(old, id));
            let at = choose|at: int|
                0 <= at < old.schedule.begun() && at < old.repos@.len()
                    && #[trigger] old.repos@[at].id@ == id;
            assert(new.repos@[at].id@ == id);
        }
        assert forall|i: int, j: int| 0 <= i < j < new.reports@.len() implies (
        #[trigger] new.reports@[i]).id@ != (#[trigger] new.reports@[j]).id@ by {
            assert(old.reports@[i] == new.reports@[i]);
            if j < old.reports@.len() {
                assert(old.reports@[j] == new.reports@[j]);
            } else {
                assert(!was_reported(old, new.reports@[j].id@));
            }
        }
    }
}

/// The identifiers of the repositories of some work.
pub open spec fn repo_ids(work: Work) -> Seq<Seq<char>> {
    Seq::new(work.repos@.len(), |i: int| work.repos@[i].id@)
}

/// The identifiers of the repositories with a report.
pub open spec fn report_ids(work: Work) -> Seq<Seq<char>> {
    Seq::new(work.reports@.len(), |i: int| work.reports@[i].id@)
}

/// Once all repositories are done, there is exactly one report about each of
/// them, and none about another.
pub proof fn law_every_repository_is_reported_once(work: Work)
    requires
        in_bounds(work),
        work.schedule.done() == work.schedule.repositories(),
    ensures
        report_ids(work).no_duplicates(),
        report_ids(work).to_set() == repo_ids(work).to_set(),
{
    let reported = report_ids(work);
    let all = repo_ids(work);
    assert forall|i: int, j: int|
        0 <= i < reported.len() && 0 <= j < reported.len() && i != j implies reported[i]
        != reported[j] by {
        if i < j {
            assert(work.reports@[i].id@ != work.reports@[j].id@);
        } else {
            assert(work.reports@[j].id@ != work.reports@[i].id@);
        }
    }
    assert forall|id: Seq<char>| reported.to_set().contains(id) implies all.to_set().contains(
        id,
    ) by {
        let i = choose|i: int| 0 <= i < reported.len() && reported[i] == id;
        assert(was_started(work, work.reports@[i].id@));
        let at = choose|at: int|
            0 <= at < work.schedule.begun() && at < work.repos@.len()
                && #[trigger] work.repos@[at].id@ == id;
        assert(all[at] == id);
    }
    reported.unique_seq_to_set();
    all.lemma_cardinality_of_set();
    vstd::seq_lib::seq_to_set_is_finite(reported);
    vstd::seq_lib::seq_to_set_is_finite(all);
    vstd::set_lib::lemma_len_subset(reported.to_set(), all.to_set());
    vstd::set_lib::lemma_subset_equality(reported.to_set(), all.to_set());
}

/// Whether a synchronization went through some stages, because of what came of
/// its steps.
pub open spec fn is_course(
    config: Config,
    options: SyncOptions,
    stages: Seq<Stage>,
    events: Seq<SyncEvent>,
) -> bool {
    &&& stages.len() == events.len() + 1
    &&& is_first(options, stages[0])
    &&& forall|i: int|
        0 <= i < events.len() ==> expects(config, options, stages[i], #[trigger] events[i])
            && follows(config, options, stages[i], events[i], stages[i + 1])
}

/// What was told of how far a synchronization is while it went through some
/// stages.
pub open spec fn told(config: Config, stages: Seq<Stage>) -> Seq<SyncProgress>
    decreases stages.len(),
{
    if stages.len() == 0 {
        Seq::empty()
    } else {
        let earlier = stages.drop_last();
        let before = if earlier.len() == 0 {
            None
        } else {
            progress_of(config, earlier.last())
        };
        match news(before, progress_of(config, stages.last())) {
            Some(progress) => told(config, earlier).push(progress),
            None => told(config, earlier),
        }
    }
}

/// The count of the first answers, from none on.
pub open spec fn counted_answers(config: Config, answered: nat) -> Seq<SyncProgress> {
    Seq::new(
        answered + 1,
        |k: int|
            SyncProgress::Discovering { completed: k as usize, total: asked_total(config) as usize },
    )
}

/// The count of the first repositories that are done, from none on.
pub open spec fn counted_repositories(done: nat, total: nat) -> Seq<SyncProgress> {
    Seq::new(
        done + 1,
        |k: int| SyncProgress::Repositories { completed: k as usize, total: total as usize },
    )
}

/// The count that leads to a stage.
pub open spec fn counted(config: Config, stage: Stage) -> Seq<SyncProgress> {
    match stage {
        Stage::Unlocked => Seq::empty(),
        Stage::Asking(answers) => counted_answers(config, answers@.len()),
        Stage::Working(work) => counted_answers(config, asked_total(config))
            + counted_repositories(work.schedule.done(), work.schedule.repositories()),
        _ => counted_answers(config, asked_total(config)),
    }
}

/// What holds of every stage of a synchronization.
pub open spec fn is_sound(config: Config, options: SyncOptions, stage: Stage) -> bool {
    match stage {
        Stage::Asking(answers) => answers@.len() <= asked_total(config),
        Stage::Working(work) => !options.dry_run && in_bounds(work),
        Stage::Ended(report) => options.dry_run || report is Err,
        _ => !options.dry_run,
    }
}

/// The count that leads to a stage is continued by what is told of the next one.
proof fn lemma_counted_on(
    config: Config,
    options: SyncOptions,
    before: Stage,
    event: SyncEvent,
    after: Stage,
)
    requires
        config.sources@.len() < usize::MAX,
        is_sound(config, options, before),
        expects(config, options, before, event),
        follows(config, options, before, event, after),
    ensures
        is_sound(config, options, after),
        counted(config, after) == match news(
            progress_of(config, before),
            progress_of(config, after),
        ) {
            Some(progress) => counted(config, before).push(progress),
            None => counted(config, before),
        },
{
    law_work_stays_in_bounds(config, options, before, event, after);
    let all = counted_answers(config, asked_total(config));
    match after {
        Stage::Asking(new) => {
            if let Stage::Asking(old) = before {
                assert(counted(config, after) =~= counted(config, before).push(
                    progress_of(config, after)->0,
                ));
            } else {
                assert(counted(config, after) =~= Seq::empty().push(
                    progress_of(config, after)->0,
                ));
            }
        },
        Stage::Working(new) => {
            assert(new.repos.len() == new.repos@.len());
            if let Stage::Working(old) = before {
                if event is Done {
                    assert(counted(config, after) =~= counted(config, before).push(
                        progress_of(config, after)->0,
                    ));
                }
            } else {
                assert(counted(config, after) =~= all.push(progress_of(config, after)->0));
            }
        },
        _ => {},
    }
}

/// The progress of a synchronization is told one by one: how many sources have
/// answered, from none to all of them, and then, unless it is a dry run or the
/// inventory could not be brought up to date, how many repositories are done,
/// from none to all of them.
pub proof fn law_progress_is_counted(
    config: Config,
    options: SyncOptions,
    stages: Seq<Stage>,
    events: Seq<SyncEvent>,
)
    requires
        config.sources@.len() < usize::MAX,
        is_course(config, options, stages, events),
    ensures
        is_sound(config, options, stages.last()),
        told(config, stages) == counted(config, stages.last()),
        next_step(config, options, stages.last()) is Finish ==> match stages.last() {
            Stage::Working(work) => !options.dry_run && told(config, stages) == counted_answers(
                config,
                asked_total(config),
            ) + counted_repositories(work.repos@.len(), work.repos@.len()),
            Stage::Ended(report) => (options.dry_run || report is Err) && told(config, stages)
                == counted_answers(config, asked_total(config)),
            _ => false,
        },
    decreases stages.len(),
{
    let earlier = stages.drop_last();
    if events.len() == 0 {
        assert(told(config, earlier) =~= Seq::empty());
        assert(told(config, stages) =~= counted(config, stages.last()));
    } else {
        let count = events.len() as int;
        let first = events.drop_last();
        assert forall|i: int| 0 <= i < first.len() implies expects(
            config,
            options,
            earlier[i],
            #[trigger] first[i],
        ) && follows(config, options, earlier[i], first[i], earlier[i + 1]) by {
            assert(first[i] == events[i]);
        }
        law_progress_is_counted(config, options, earlier, first);
        assert(stages[count - 1] == earlier.last());
        lemma_counted_on(config, options, earlier.last(), events[count - 1], stages.last());
    }
}

}

//! How a workspace is synchronized with its sources.

use vstd::prelude::*;

use crate::config::{Config, WORKSPACE_SOURCE_NAME};
use crate::error::{Error, ErrorModel, Result};
use crate::git::{GitSyncResult, SyncAction, SyncResultModel};
use crate::inventory::{Inventory, RepoModel, changed, first_known, in_order, lemma_in_order};
use crate::model::{RecordModel, RepoRecord, RepoSpec, RepoStatus, SpecModel, specs};
use crate::sort::{Ranked, sort, sorted_from};
use crate::state::State;
use crate::string_set::StringSet;
use crate::text::{
    before, cat2, cat3, comes_before, lemma_before_total, lemma_before_trans, opt_text, texts,
};

verus! {

/// How many repositories are synchronized at the same time if nothing else is
/// asked for.
pub const DEFAULT_JOBS: usize = 8;

/// How to synchronize.
#[derive(Clone, Copy, Debug)]
pub struct SyncOptions {
    /// How many repositories may be synchronized at the same time.
    pub jobs: usize,
    /// Whether only to say what would change.
    pub dry_run: bool,
}

/// What a synchronization did.
#[derive(Debug)]
pub struct SyncReport {
    pub sources: Vec<SourceReport>,
    pub repos: Vec<RepoSyncReport>,
    pub preview: Option<SyncPreview>,
}

/// How far a synchronization is.
#[derive(Clone, Copy, Debug, PartialEq, Eq, Structural)]
pub enum SyncProgress {
    /// Sources were asked for their repositories.
    Discovering { completed: usize, total: usize },
    /// Repositories were synchronized.
    Repositories { completed: usize, total: usize },
}

/// How the inventory changes.
#[derive(Clone, Copy, Debug, PartialEq, Eq, Structural)]
pub enum RepositoryChangeKind {
    /// A repository becomes active.
    Activate,
    /// A repository becomes inactive.
    Deactivate,
}

/// A change of the inventory.
#[derive(Debug, PartialEq, Eq)]
pub struct RepositoryChange {
    pub id: String,
    pub kind: RepositoryChangeKind,
}

/// The changes of the inventory that a synchronization would make.
#[derive(Debug, PartialEq, Eq)]
pub struct SyncPreview {
    pub changes: Vec<RepositoryChange>,
    /// The number of repositories that stay active.
    pub unchanged: usize,
}

/// What came of asking a source for its repositories.
#[derive(Debug, PartialEq, Eq)]
pub struct SourceReport {
    pub source: String,
    pub discovered: usize,
    pub error: Option<String>,
}

/// What came of synchronizing a repository.
#[derive(Debug, PartialEq, Eq)]
pub struct RepoSyncReport {
    pub id: String,
    pub action: Option<SyncAction>,
    pub detail: Option<String>,
    pub warning: Option<String>,
    pub error: Option<String>,
}

impl Default for SyncReport {
    fn default() -> (report: SyncReport)
        ensures
            report.sources@.len() == 0,
            report.repos@.len() == 0,
            report.preview is None,
    {
        SyncReport { sources: Vec::new(), repos: Vec::new(), preview: None }
    }
}

impl Default for SyncPreview {
    fn default() -> (preview: SyncPreview)
        ensures
            preview.changes@.len() == 0,
            preview.unchanged == 0,
    {
        SyncPreview { changes: Vec::new(), unchanged: 0 }
    }
}

impl SyncReport {
    /// Whether a source or a repository failed.
    #[must_use]
    pub fn failed(&self) -> (failed: bool)
        ensures
            failed == ({
                ||| exists|i: int|
                    0 <= i < self.sources@.len() && (#[trigger] self.sources@[i]).error is Some
                ||| exists|i: int|
                    0 <= i < self.repos@.len() && (#[trigger] self.repos@[i]).error is Some
            }),
    {
        let mut i: usize = 0;
        while i < self.sources.len()
            invariant
                i <= self.sources@.len(),
                forall|j: int| 0 <= j < i ==> (#[trigger] self.sources@[j]).error is None,
            decreases self.sources@.len() - i,
        {
            if self.sources[i].error.is_some() {
                return true;
            }
            i += 1;
        }
        let mut k: usize = 0;
        while k < self.repos.len()
            invariant
                k <= self.repos@.len(),
                forall|j: int| 0 <= j < self.sources@.len() ==> (
                #[trigger] self.sources@[j]).error is None,
                forall|j: int| 0 <= j < k ==> (#[trigger] self.repos@[j]).error is None,
            decreases self.repos@.len() - k,
        {
            if self.repos[k].error.is_some() {
                return true;
            }
            k += 1;
        }
        false
    }
}

impl Ranked for SourceReport {
    open spec fn ranks_before(self, other: SourceReport) -> bool {
        before(self.source@, other.source@)
    }

    proof fn lemma_ranks(a: SourceReport, b: SourceReport, c: SourceReport) {
        lemma_before_total(a.source@, b.source@);
        lemma_before_total(a.source@, c.source@);
        lemma_before_total(c.source@, b.source@);
        if before(c.source@, a.source@) && before(a.source@, b.source@) {
            lemma_before_trans(c.source@, a.source@, b.source@);
        }
    }

    fn is_before(&self, other: &SourceReport) -> (found: bool) {
        comes_before(self.source.as_str(), other.source.as_str())
    }
}

impl Ranked for RepoSyncReport {
    open spec fn ranks_before(self, other: RepoSyncReport) -> bool {
        before(self.id@, other.id@)
    }

    proof fn lemma_ranks(a: RepoSyncReport, b: RepoSyncReport, c: RepoSyncReport) {
        lemma_before_total(a.id@, b.id@);
        lemma_before_total(a.id@, c.id@);
        lemma_before_total(c.id@, b.id@);
        if before(c.id@, a.id@) && before(a.id@, b.id@) {
            lemma_before_trans(c.id@, a.id@, b.id@);
        }
    }

    fn is_before(&self, other: &RepoSyncReport) -> (found: bool) {
        comes_before(self.id.as_str(), other.id.as_str())
    }
}

/// The reports of repositories in the order of their identifiers.
pub fn sort_repo_reports(reports: Vec<RepoSyncReport>) -> (sorted: Vec<RepoSyncReport>)
    ensures
        sorted_from(reports@, sorted@),
{
    sort(reports)
}

/// What a source answered when it was asked for its repositories.
#[derive(Debug)]
pub struct Discovery {
    pub source: String,
    pub result: Result<Vec<RepoSpec>>,
}

/// The repositories that a source lists.
#[derive(Debug)]
pub struct Listing {
    pub source: String,
    pub specs: Vec<RepoSpec>,
}

/// The repositories that a source lists, with its name.
pub type ListingModel = (Seq<char>, Seq<SpecModel>);

impl View for Listing {
    type V = ListingModel;

    open spec fn view(&self) -> ListingModel {
        (self.source@, specs(self.specs@))
    }
}

/// The listings of a list.
pub open spec fn listings(list: Seq<Listing>) -> Seq<ListingModel> {
    Seq::new(list.len(), |i: int| list[i]@)
}

/// The number of sources that are asked: the configured ones, and the
/// configuration itself if it declares repositories.
pub open spec fn asked_total(config: Config) -> nat {
    config.sources@.len() + (if config.repositories@.len() == 0 {
        0nat
    } else {
        1nat
    })
}

/// The number of sources that are asked.
pub fn discovery_total(config: &Config) -> (total: usize)
    requires
        config.sources@.len() < usize::MAX,
    ensures
        total == asked_total(*config),
{
    if config.repositories.len() == 0 {
        config.sources.len()
    } else {
        config.sources.len() + 1
    }
}

/// The report about what a source answered.
pub open spec fn source_report(report: SourceReport, discovery: Discovery) -> bool {
    &&& report.source@ == discovery.source@
    &&& match discovery.result {
        Ok(found) => report.discovered == found@.len() && report.error is None,
        Err(error) => report.discovered == 0 && opt_text(report.error) == Some(error@.message()),
    }
}

/// What the first of some answers list: those that failed are left out.
pub open spec fn successful(discoveries: Seq<Discovery>, count: int) -> Seq<ListingModel>
    decreases count,
{
    if count <= 0 {
        Seq::empty()
    } else {
        let earlier = successful(discoveries, count - 1);
        match discoveries[count - 1].result {
            Ok(found) => earlier.push((discoveries[count - 1].source@, specs(found@))),
            Err(_) => earlier,
        }
    }
}

/// The sources of an inventory that are not configured any more.
pub open spec fn retired(config: Config, known: Set<Seq<char>>) -> Set<Seq<char>> {
    Set::new(
        |source: Seq<char>|
            known.contains(source) && source != WORKSPACE_SOURCE_NAME@ && forall|i: int|
                0 <= i < config.sources@.len() ==> (#[trigger] config.sources@[i]).title()
                    != source,
    )
}

/// The sources of an inventory that are not configured any more. `known` are
/// those that list one of its repositories.
pub fn retired_sources(config: &Config, known: &StringSet) -> (names: StringSet)
    ensures
        names@ == retired(*config, known@),
{
    let mut names = known.clone();
    names.remove(WORKSPACE_SOURCE_NAME);
    let mut i: usize = 0;
    while i < config.sources.len()
        invariant
            i <= config.sources@.len(),
            forall|source: Seq<char>| #[trigger]
                names@.contains(source) <==> known@.contains(source) && source
                    != WORKSPACE_SOURCE_NAME@ && forall|j: int|
                    0 <= j < i ==> (#[trigger] config.sources@[j]).title() != source,
        decreases config.sources@.len() - i,
    {
        names.remove(config.sources[i].name());
        i += 1;
    }
    proof {
        assert(names@ =~= retired(*config, known@));
    }
    names
}

/// Listings of nothing by some sources.
pub open spec fn empty_listings(names: Seq<Seq<char>>) -> Seq<ListingModel> {
    Seq::new(names.len(), |i: int| (names[i], Seq::empty()))
}

/// What the answers of the sources list. A configuration that declares no
/// repositories lists none, and neither do the sources that are not configured
/// any more.
pub open spec fn all_listings(
    discoveries: Seq<Discovery>,
    declares: bool,
    gone: Set<Seq<char>>,
) -> Seq<ListingModel> {
    let found = successful(discoveries, discoveries.len() as int);
    let declared = if declares {
        found
    } else {
        found.push((WORKSPACE_SOURCE_NAME@, Seq::empty()))
    };
    declared + empty_listings(in_order(gone))
}

/// Whether a list holds the reports about what the sources answered, in the
/// order of their names.
pub open spec fn reports_of(discoveries: Seq<Discovery>, sorted: Seq<SourceReport>) -> bool {
    exists|reports: Seq<SourceReport>|
        {
            &&& reports.len() == discoveries.len()
            &&& forall|i: int|
                0 <= i < reports.len() ==> source_report(#[trigger] reports[i], discoveries[i])
            &&& #[trigger] sorted_from(reports, sorted)
        }
}

/// The reports about what the sources answered, in the order of their names,
/// and what they list. `declares` says whether the configuration declares
/// repositories itself, and `gone` are the sources that are not configured any
/// more.
pub fn collect_discoveries(
    discoveries: Vec<Discovery>,
    declares: bool,
    gone: &StringSet,
) -> (collected: (Vec<SourceReport>, Vec<Listing>))
    ensures
        reports_of(discoveries@, collected.0@),
        listings(collected.1@) == all_listings(discoveries@, declares, gone@),
{
    let ghost all = discoveries@;
    let mut reports: Vec<SourceReport> = Vec::new();
    let mut found: Vec<Listing> = Vec::new();
    proof {
        assert(listings(found@) =~= successful(all, 0));
    }
    for discovery in it: discoveries
        invariant
            it.seq() == all,
            reports@.len() == it.index(),
            forall|i: int| 0 <= i < reports@.len() ==> source_report(#[trigger] reports@[i], all[i]),
            listings(found@) == successful(all, it.index() as int),
    {
        let ghost earlier = found@;
        let ghost whole = discovery;
        let source = discovery.source;
        match discovery.result {
            Ok(specs) => {
                reports.push(
                    SourceReport { source: source.clone(), discovered: specs.len(), error: None },
                );
                found.push(Listing { source, specs });
                proof {
                    assert(listings(found@) =~= listings(earlier).push(found@.last()@));
                }
            },
            Err(error) => {
                reports.push(
                    SourceReport { source, discovered: 0, error: Some(error.message()) },
                );
            },
        }
        assert(source_report(reports@.last(), whole));
    }
    let ghost unsorted = reports@;
    let reports = sort(reports);
    let ghost earlier = found@;
    if !declares {
        found.push(Listing { source: WORKSPACE_SOURCE_NAME.to_owned(), specs: Vec::new() });
        proof {
            assert(specs(found@.last().specs@) =~= Seq::empty());
            assert(listings(found@) =~= listings(earlier).push(found@.last()@));
        }
    }
    let ghost declared = listings(found@);
    let names = gone.to_list();
    let mut i: usize = 0;
    proof {
        lemma_in_order(texts(names@));
        assert(listings(found@) =~= declared + empty_listings(texts(names@).take(0)));
    }
    while i < names.len()
        invariant
            i <= names@.len(),
            listings(found@) == declared + empty_listings(texts(names@).take(i as int)),
        decreases names@.len() - i,
    {
        let ghost earlier = found@;
        found.push(Listing { source: names[i].clone(), specs: Vec::new() });
        proof {
            assert(specs(found@.last().specs@) =~= Seq::empty());
            assert(listings(found@) =~= listings(earlier).push(found@.last()@));
            assert(empty_listings(texts(names@).take(i + 1)) =~= empty_listings(
                texts(names@).take(i as int),
            ).push(found@.last()@));
        }
        i += 1;
    }
    proof {
        assert(texts(names@).take(names@.len() as int) =~= texts(names@));
    }
    let collected = (reports, found);
    proof {
        assert(unsorted.len() == discoveries@.len());
        assert(forall|i: int|
            0 <= i < unsorted.len() ==> source_report(#[trigger] unsorted[i], discoveries@[i]));
        assert(sorted_from(unsorted, collected.0@));
    }
    collected
}

/// Whether every branch of a repository is fetched: if some source that lists
/// it asks for that.
pub open spec fn wants_all_branches(config: Config, repo: RecordModel) -> bool {
    exists|i: int|
        0 <= i < config.sources@.len() && (#[trigger] config.sources@[i]).wants_all_branches()
            && repo.sources.contains(config.sources@[i].title())
}

/// Of a repository that only the configuration itself declares, only the
/// default branch is fetched.
pub proof fn law_declared_repositories_fetch_one_branch(config: Config, repo: RecordModel)
    requires
        config.valid(),
        forall|source: Seq<char>| #[trigger]
            repo.sources.contains(source) ==> source == WORKSPACE_SOURCE_NAME@,
    ensures
        !wants_all_branches(config, repo),
{
}

/// Whether every branch of a repository is fetched.
pub fn fetch_all_branches(config: &Config, repo: &RepoRecord) -> (all: bool)
    ensures
        all == wants_all_branches(*config, repo@),
{
    let mut i: usize = 0;
    while i < config.sources.len()
        invariant
            i <= config.sources@.len(),
            forall|j: int|
                0 <= j < i ==> !((#[trigger] config.sources@[j]).wants_all_branches()
                    && repo@.sources.contains(config.sources@[j].title())),
        decreases config.sources@.len() - i,
    {
        let source = &config.sources[i];
        if source.fetch_all_branches() && repo.sources.contains(source.name()) {
            return true;
        }
        i += 1;
    }
    false
}

/// The order in which repositories are synchronized, with at most a given
/// number of them at the same time.
#[derive(Debug)]
pub struct Schedule {
    total: usize,
    limit: usize,
    started: usize,
    completed: usize,
}

impl Schedule {
    #[verifier::type_invariant]
    spec fn in_bounds(self) -> bool {
        &&& self.limit >= 1
        &&& self.completed <= self.started <= self.total
        &&& self.started - self.completed <= self.limit
    }

    /// The number of repositories.
    pub closed spec fn repositories(self) -> nat {
        self.total as nat
    }

    /// How many repositories may be synchronized at the same time.
    pub closed spec fn at_once(self) -> nat {
        self.limit as nat
    }

    /// How many were started.
    pub closed spec fn begun(self) -> nat {
        self.started as nat
    }

    /// How many are done.
    pub closed spec fn done(self) -> nat {
        self.completed as nat
    }

    /// A schedule for some repositories. Less than one at the same time means
    /// one.
    pub fn new(total: usize, jobs: usize) -> (schedule: Schedule)
        ensures
            schedule.repositories() == total,
            schedule.at_once() == (if jobs < 1 {
                1
            } else {
                jobs as nat
            }),
            schedule.begun() == 0,
            schedule.done() == 0,
    {
        let limit: usize = if jobs < 1 {
            1
        } else {
            jobs
        };
        Schedule { total, limit, started: 0, completed: 0 }
    }

    /// The repository that can be started. None can if all were started, or if
    /// as many as allowed are under way.
    pub open spec fn startable(self) -> Option<nat> {
        if self.begun() < self.repositories() && self.begun() < self.done() + self.at_once() {
            Some(self.begun())
        } else {
            None
        }
    }

    /// The repository that can be started.
    pub fn next(&self) -> (next: Option<usize>)
        ensures
            self.done() <= self.begun() <= self.repositories(),
            match next {
                Some(next) => self.startable() == Some(next as nat),
                None => self.startable() is None,
            },
    {
        proof {
            use_type_invariant(self);
        }
        if self.started == self.total || self.started - self.completed == self.limit {
            None
        } else {
            Some(self.started)
        }
    }

    /// How far it is.
    pub fn progress(&self) -> (progress: SyncProgress)
        ensures
            progress == (SyncProgress::Repositories {
                completed: self.done() as usize,
                total: self.repositories() as usize,
            }),
    {
        SyncProgress::Repositories { completed: self.completed, total: self.total }
    }

    /// Whether all repositories are done.
    pub fn is_complete(&self) -> (complete: bool)
        ensures
            complete == (self.done() == self.repositories()),
    {
        self.completed == self.total
    }

    /// The repository that is started now, if one can be.
    pub fn start(&mut self) -> (next: Option<usize>)
        ensures
            final(self).repositories() == old(self).repositories(),
            final(self).at_once() == old(self).at_once(),
            final(self).done() == old(self).done(),
            final(self).begun() <= final(self).repositories(),
            final(self).begun() <= final(self).done() + final(self).at_once(),
            match next {
                Some(next) => {
                    &&& old(self).startable() == Some(next as nat)
                    &&& final(self).begun() == old(self).begun() + 1
                },
                None => old(self).startable() is None && final(self).begun() == old(self).begun(),
            },
    {
        proof {
            use_type_invariant(&*self);
        }
        match self.next() {
            Some(next) => {
                self.started = next + 1;
                Some(next)
            },
            None => None,
        }
    }

    /// Notes that a repository under way is done.
    pub fn finish(&mut self)
        requires
            old(self).done() < old(self).begun(),
        ensures
            final(self).repositories() == old(self).repositories(),
            final(self).at_once() == old(self).at_once(),
            final(self).begun() == old(self).begun(),
            final(self).done() == old(self).done() + 1,
    {
        proof {
            use_type_invariant(&*self);
        }
        self.completed = self.completed + 1;
    }
}

/// What an outcome of a synchronization makes of the inventory.
pub open spec fn recorded(
    repos: Inventory,
    repo: RecordModel,
    outcome: std::result::Result<SyncResultModel, ErrorModel>,
    detected: Option<Set<Seq<char>>>,
) -> Inventory {
    match outcome {
        Ok(result) => changed(
            repos,
            repo.id,
            RepoModel {
                default_branch: first_known(
                    repos[repo.id].default_branch,
                    result.detected_default_branch,
                ),
                detected: match detected {
                    Some(tags) => tags,
                    None => repos[repo.id].detected,
                },
                status: RepoStatus::Ready.word(),
                last_error: None,
                ..repos[repo.id]
            },
        ),
        Err(problem) => changed(
            repos,
            repo.id,
            RepoModel {
                status: if repo.status == RepoStatus::Ready {
                    repos[repo.id].status
                } else {
                    RepoStatus::Error.word()
                },
                last_error: Some(problem.message()),
                ..repos[repo.id]
            },
        ),
    }
}

/// A repository that was synchronized once stays marked as such, whatever comes
/// of later synchronizations, so it can still be searched; and no other
/// repository is touched.
pub proof fn law_synchronized_repositories_stay_ready(
    repos: Inventory,
    repo: RecordModel,
    outcome: std::result::Result<SyncResultModel, ErrorModel>,
    detected: Option<Set<Seq<char>>>,
    other: Seq<char>,
)
    requires
        repos.contains_key(repo.id),
        repos[repo.id].status == RepoStatus::Ready.word(),
        repo.status == RepoStatus::Ready,
        other != repo.id,
    ensures
        recorded(repos, repo, outcome, detected)[repo.id].status == RepoStatus::Ready.word(),
        recorded(repos, repo, outcome, detected)[repo.id].active == repos[repo.id].active,
        recorded(repos, repo, outcome, detected).contains_key(other) == repos.contains_key(other),
        recorded(repos, repo, outcome, detected)[other] == repos[other],
{
}

/// The report about a synchronization, with its texts as characters.
pub struct SyncReportModel {
    pub id: Seq<char>,
    pub action: Option<SyncAction>,
    pub detail: Option<Seq<char>>,
    pub warning: Option<Seq<char>>,
    pub error: Option<Seq<char>>,
}

impl View for RepoSyncReport {
    type V = SyncReportModel;

    open spec fn view(&self) -> SyncReportModel {
        SyncReportModel {
            id: self.id@,
            action: self.action,
            detail: opt_text(self.detail),
            warning: opt_text(self.warning),
            error: opt_text(self.error),
        }
    }
}

/// The warning about languages that could not be detected.
pub open spec fn detection_warning(detected: Option<Result<StringSet>>) -> Option<Seq<char>> {
    match detected {
        Some(Err(error)) => Some("language detection failed: "@ + error@.message()),
        _ => None,
    }
}

/// The tags that were detected.
pub open spec fn detected_tags(detected: Option<Result<StringSet>>) -> Option<Set<Seq<char>>> {
    match detected {
        Some(Ok(tags)) => Some(tags@),
        _ => None,
    }
}

/// An outcome with its texts as characters.
pub open spec fn outcome_model(outcome: Result<GitSyncResult>) -> std::result::Result<
    SyncResultModel,
    ErrorModel,
> {
    match outcome {
        Ok(result) => Ok(result@),
        Err(error) => Err(error@),
    }
}

/// Takes the outcome of a synchronization into the inventory and reports it.
/// `detected` is what came of looking for the languages of the repository,
/// which is done where its default branch is known.
pub fn synchronize_repo(
    state: &mut State,
    repo: &RepoRecord,
    outcome: Result<GitSyncResult>,
    detected: Option<Result<StringSet>>,
) -> (report: RepoSyncReport)
    ensures
        final(state)@ == recorded(
            old(state)@,
            repo@,
            outcome_model(outcome),
            detected_tags(detected),
        ),
        report@ == (match outcome {
            Ok(result) => SyncReportModel {
                id: repo@.id,
                action: Some(result.action),
                detail: opt_text(result.detail),
                warning: detection_warning(detected),
                error: None,
            },
            Err(error) => SyncReportModel {
                id: repo@.id,
                action: None,
                detail: None,
                warning: None,
                error: Some(error@.message()),
            },
        }),
{
    let id = repo.id.clone();
    match outcome {
        Ok(result) => {
            let ghost start = state@;
            if let Some(branch) = &result.detected_default_branch {
                state.record_default_branch(id.as_str(), branch.as_str());
            }
            let warning = match detected {
                Some(Ok(tags)) => {
                    state.replace_detected_tags(id.as_str(), &tags);
                    None
                },
                Some(Err(error)) => Some(
                    cat2("language detection failed: ", error.message().as_str()),
                ),
                None => None,
            };
            state.mark_ready(id.as_str());
            proof {
                assert(state@ =~= recorded(
                    start,
                    repo@,
                    Ok(result@),
                    detected_tags(detected),
                ));
            }
            RepoSyncReport {
                id,
                action: Some(result.action),
                detail: result.detail,
                warning,
                error: None,
            }
        },
        Err(error) => {
            let message = error.message();
            let preserve_ready = repo.status == RepoStatus::Ready;
            state.mark_error(id.as_str(), message.as_str(), preserve_ready);
            RepoSyncReport {
                id,
                action: None,
                detail: None,
                warning: None,
                error: Some(message),
            }
        },
    }
}

/// The report about a synchronization whose outcome could not be recorded.
pub fn with_state_error(report: RepoSyncReport, error: &Error) -> (after: RepoSyncReport)
    ensures
        after@ == (SyncReportModel {
            error: Some(
                match report@.error {
                    None => error@.message(),
                    Some(message) => message + "; failed to record error: "@ + error@.message(),
                },
            ),
            ..report@
        }),
{
    let message = match &report.error {
        None => error.message(),
        Some(message) => cat3(
            message.as_str(),
            "; failed to record error: ",
            error.message().as_str(),
        ),
    };
    RepoSyncReport {
        id: report.id,
        action: report.action,
        detail: report.detail,
        warning: report.warning,
        error: Some(message),
    }
}

}

//! What the command line asks for, and what it prints about repositories.

use vstd::prelude::*;

use crate::git::SyncAction;
use crate::model::RepoRecord;
use crate::output::Output;
use crate::prune::{PruneAction, PruneReport, RepoPruneReport};
use crate::search::{
    CaseMode, PatternKind, RepoFilter, SearchOptions, SearchOutputMode, SearchStats,
};
use crate::string_set::{StringSet, set_of};
use crate::sync::{
    RepoSyncReport, RepositoryChange, RepositoryChangeKind, SourceReport, SyncPreview, SyncProgress,
    SyncReport,
};
use crate::text::{cat3, cat4, cat5, clone_list, decimal, decimal_text};

verus! {

/// The line about a change of the inventory.
pub open spec fn change_text(change: RepositoryChange, color: bool) -> Seq<char> {
    let marker = match change.kind {
        RepositoryChangeKind::Activate => "+ "@,
        RepositoryChangeKind::Deactivate => "- "@,
    };
    let paint = match change.kind {
        RepositoryChangeKind::Activate => "\x1b[32m"@,
        RepositoryChangeKind::Deactivate => "\x1b[31m"@,
    };
    if color {
        "  "@ + paint + marker + change.id@ + "\x1b[0m"@
    } else {
        "  "@ + marker + change.id@
    }
}

/// The line about a change of the inventory.
pub fn repository_change_line(change: &RepositoryChange, color: bool) -> (line: String)
    ensures
        line@ == change_text(*change, color),
{
    let (marker, paint) = match change.kind {
        RepositoryChangeKind::Activate => ("+ ", "\x1b[32m"),
        RepositoryChangeKind::Deactivate => ("- ", "\x1b[31m"),
    };
    if color {
        cat5("  ", paint, marker, change.id.as_str(), "\x1b[0m")
    } else {
        cat3("  ", marker, change.id.as_str())
    }
}

/// The number of characters of a progress bar.
pub const PROGRESS_WIDTH: usize = 12;

/// How many characters of a progress bar are filled.
pub open spec fn filled(completed: usize, total: usize) -> int {
    if total == 0 {
        0
    } else if completed * PROGRESS_WIDTH > usize::MAX {
        usize::MAX as int / total as int
    } else {
        completed * PROGRESS_WIDTH / total as int
    }
}

/// A progress bar behind a label, and the numbers behind it. No more is
/// completed than there is in total.
pub open spec fn progress_text(label: Seq<char>, completed: usize, total: usize) -> Seq<char> {
    let done = if completed < total {
        completed
    } else {
        total
    };
    let full = filled(done, total);
    label + "["@ + Seq::new(full as nat, |i: int| '#') + Seq::new(
        (PROGRESS_WIDTH - full) as nat,
        |i: int| '-',
    ) + "] "@ + decimal(done as nat) + "/"@ + decimal(total as nat)
}

/// A filled bar is never longer than the bar.
pub proof fn lemma_filled(completed: usize, total: usize)
    requires
        completed <= total,
    ensures
        0 <= filled(completed, total) <= PROGRESS_WIDTH,
{
    if total > 0 {
        let whole = completed * PROGRESS_WIDTH;
        assert(0 <= whole <= total * PROGRESS_WIDTH);
        let top: int = if whole > usize::MAX {
            usize::MAX as int
        } else {
            whole
        };
        assert(0 <= top / (total as int) <= PROGRESS_WIDTH) by (nonlinear_arith)
            requires
                0 <= top <= total * PROGRESS_WIDTH,
                total > 0,
        ;
    }
}

/// A progress bar is always as wide, and shows no more completed than there is:
/// a line has the length of its label, the bar and the two numbers.
pub proof fn law_progress_bars_are_bounded(label: Seq<char>, completed: usize, total: usize)
    ensures
        ({
            let done = if completed < total {
                completed
            } else {
                total
            };
            &&& done <= total
            &&& progress_text(label, completed, total).len() == label.len() + "["@.len()
                + PROGRESS_WIDTH + "] "@.len() + decimal(done as nat).len() + "/"@.len() + decimal(
                total as nat,
            ).len()
        }),
{
    let done = if completed < total {
        completed
    } else {
        total
    };
    lemma_filled(done, total);
}

/// A character, some number of times.
fn repeated(c: char, count: usize) -> (text: String)
    ensures
        text@ == Seq::new(count as nat, |i: int| c),
{
    let mut text = String::new();
    let mut i: usize = 0;
    proof {
        assert(text@ =~= Seq::new(0, |i: int| c));
    }
    while i < count
        invariant
            i <= count,
            text@ == Seq::new(i as nat, |j: int| c),
        decreases count - i,
    {
        text.push(c);
        proof {
            assert(text@ =~= Seq::new((i + 1) as nat, |j: int| c));
        }
        i += 1;
    }
    text
}

/// The line that shows how far a synchronization is.
pub fn progress_line(progress: SyncProgress) -> (line: String)
    ensures
        line@ == (match progress {
            SyncProgress::Discovering { completed, total } => progress_text(
                "discover"@,
                completed,
                total,
            ),
            SyncProgress::Repositories { completed, total } => progress_text(
                "sync    "@,
                completed,
                total,
            ),
        }),
{
    let (label, completed, total) = match progress {
        SyncProgress::Discovering { completed, total } => ("discover", completed, total),
        SyncProgress::Repositories { completed, total } => ("sync    ", completed, total),
    };
    let done: usize = if completed < total {
        completed
    } else {
        total
    };
    let product: usize = match done.checked_mul(PROGRESS_WIDTH) {
        Some(product) => product,
        None => usize::MAX,
    };
    let full: usize = if total == 0 {
        0
    } else {
        product / total
    };
    proof {
        lemma_filled(done, total);
        assert(full == filled(done, total));
    }
    let bar = cat4(
        label,
        "[",
        repeated('#', full).as_str(),
        repeated('-', PROGRESS_WIDTH - full).as_str(),
    );
    cat5(
        bar.as_str(),
        "] ",
        decimal_text(done as u64).as_str(),
        "/",
        decimal_text(total as u64).as_str(),
    )
}

/// A line that is printed.
#[derive(Debug, PartialEq, Eq)]
pub enum Line {
    /// To the standard output.
    Output(String),
    /// To the standard error.
    Complaint(String),
}

/// A line that is printed, with its text as characters.
pub enum LineModel {
    Output(Seq<char>),
    Complaint(Seq<char>),
}

impl View for Line {
    type V = LineModel;

    open spec fn view(&self) -> LineModel {
        match self {
            Line::Output(text) => LineModel::Output(text@),
            Line::Complaint(text) => LineModel::Complaint(text@),
        }
    }
}

/// The lines of a list.
pub open spec fn lines(list: Seq<Line>) -> Seq<LineModel> {
    Seq::new(list.len(), |i: int| list[i]@)
}

/// Puts a line behind others.
fn push_line(list: &mut Vec<Line>, line: Line)
    ensures
        lines(final(list)@) == lines(old(list)@).push(line@),
{
    list.push(line);
    proof {
        assert(lines(list@) =~= lines(old(list)@).push(line@));
    }
}

/// The line about a source.
pub open spec fn source_text(report: SourceReport) -> LineModel {
    match report.error {
        Some(error) => LineModel::Complaint("source "@ + report.source@ + ": "@ + error@),
        None => LineModel::Output(
            "source "@ + report.source@ + ": "@ + decimal(report.discovered as nat) + (
            if report.discovered == 1 {
                " repository"@
            } else {
                " repositories"@
            }),
        ),
    }
}

/// The line about a source.
pub fn source_line(report: &SourceReport) -> (line: Line)
    ensures
        line@ == source_text(*report),
{
    match &report.error {
        Some(error) => Line::Complaint(cat4("source ", report.source.as_str(), ": ", error.as_str())),
        None => Line::Output(
            cat5(
                "source ",
                report.source.as_str(),
                ": ",
                decimal_text(report.discovered as u64).as_str(),
                if report.discovered == 1 {
                    " repository"
                } else {
                    " repositories"
                },
            ),
        ),
    }
}

/// The word for what a synchronization did.
pub open spec fn action_text(action: Option<SyncAction>) -> Seq<char> {
    match action {
        Some(SyncAction::Cloned) => "cloned"@,
        Some(SyncAction::FastForwarded) => "fast-forwarded"@,
        Some(SyncAction::Fetched) => "fetched"@,
        Some(SyncAction::Unchanged) => "up-to-date"@,
        None => "unknown"@,
    }
}

/// The word for what a synchronization did.
fn action_word(action: Option<SyncAction>) -> (word: &'static str)
    ensures
        word@ == action_text(action),
{
    match action {
        Some(SyncAction::Cloned) => "cloned",
        Some(SyncAction::FastForwarded) => "fast-forwarded",
        Some(SyncAction::Fetched) => "fetched",
        Some(SyncAction::Unchanged) => "up-to-date",
        None => "unknown",
    }
}

/// The lines about a repository: an error, or what was done and a warning.
pub open spec fn repo_text(report: RepoSyncReport) -> Seq<LineModel> {
    match report.error {
        Some(error) => seq![LineModel::Complaint(report.id@ + ": "@ + error@)],
        None => {
            let done = report.id@ + ": "@ + action_text(report.action) + match report.detail {
                Some(detail) => " ("@ + detail@ + ")"@,
                None => Seq::empty(),
            };
            match report.warning {
                Some(warning) => seq![
                    LineModel::Output(done),
                    LineModel::Complaint(report.id@ + ": warning: "@ + warning@),
                ],
                None => seq![LineModel::Output(done)],
            }
        },
    }
}

/// The lines about a repository.
pub fn repo_lines(report: &RepoSyncReport) -> (list: Vec<Line>)
    ensures
        lines(list@) == repo_text(*report),
{
    let mut list: Vec<Line> = Vec::new();
    if let Some(error) = &report.error {
        list.push(Line::Complaint(cat3(report.id.as_str(), ": ", error.as_str())));
        proof {
            assert(lines(list@) =~= repo_text(*report));
        }
        return list;
    }
    let mut done = cat3(report.id.as_str(), ": ", action_word(report.action));
    let ghost short = done@;
    if let Some(detail) = &report.detail {
        done = cat4(done.as_str(), " (", detail.as_str(), ")");
        proof {
            assert(done@ =~= short + (" ("@ + detail@ + ")"@));
        }
    } else {
        proof {
            assert(done@ =~= short + Seq::empty());
        }
    }
    list.push(Line::Output(done));
    if let Some(warning) = &report.warning {
        list.push(Line::Complaint(cat3(report.id.as_str(), ": warning: ", warning.as_str())));
    }
    proof {
        assert(lines(list@) =~= repo_text(*report));
    }
    list
}

/// The lines about the first of some changes.
pub open spec fn change_texts(
    changes: Seq<RepositoryChange>,
    color: bool,
    count: int,
) -> Seq<LineModel> {
    Seq::new(count as nat, |i: int| LineModel::Output(change_text(changes[i], color)))
}

/// The lines about the changes that a synchronization would make.
pub open spec fn preview_text(preview: SyncPreview, color: bool) -> Seq<LineModel> {
    let changes = preview.changes@;
    if changes.len() == 0 {
        seq![LineModel::Output("repository changes: none"@)]
    } else {
        let shown = seq![LineModel::Output("repository changes:"@)] + change_texts(
            changes,
            color,
            changes.len() as int,
        );
        if preview.unchanged > 0 {
            shown.push(
                LineModel::Output("    "@ + decimal(preview.unchanged as nat) + " unchanged"@),
            )
        } else {
            shown
        }
    }
}

/// The lines about the changes that a synchronization would make.
pub fn preview_lines(preview: &SyncPreview, color: bool) -> (list: Vec<Line>)
    ensures
        lines(list@) == preview_text(*preview, color),
{
    let mut list: Vec<Line> = Vec::new();
    let ghost changes = preview.changes@;
    if preview.changes.len() == 0 {
        list.push(Line::Output("repository changes: none".to_owned()));
        proof {
            assert(lines(list@) =~= preview_text(*preview, color));
        }
        return list;
    }
    list.push(Line::Output("repository changes:".to_owned()));
    let ghost head = seq![LineModel::Output("repository changes:"@)];
    proof {
        assert(lines(list@) =~= head + change_texts(changes, color, 0));
    }
    let mut i: usize = 0;
    while i < preview.changes.len()
        invariant
            i <= preview.changes@.len(),
            changes == preview.changes@,
            lines(list@) == head + change_texts(changes, color, i as int),
        decreases preview.changes@.len() - i,
    {
        push_line(&mut list, Line::Output(repository_change_line(&preview.changes[i], color)));
        proof {
            assert(lines(list@) =~= head + change_texts(changes, color, i + 1));
        }
        i += 1;
    }
    if preview.unchanged > 0 {
        push_line(
            &mut list,
            Line::Output(
                cat3("    ", decimal_text(preview.unchanged as u64).as_str(), " unchanged"),
            ),
        );
    }
    list
}

/// The lines about the first of some sources.
pub open spec fn source_texts(reports: Seq<SourceReport>, count: int) -> Seq<LineModel> {
    Seq::new(count as nat, |i: int| source_text(reports[i]))
}

/// The lines about the first of some repositories.
pub open spec fn repo_texts(reports: Seq<RepoSyncReport>, count: int) -> Seq<LineModel>
    decreases count,
{
    if count <= 0 {
        Seq::empty()
    } else {
        repo_texts(reports, count - 1) + repo_text(reports[count - 1])
    }
}

/// The lines about a synchronization: those about the sources, the repositories
/// and the changes that it would make.
pub open spec fn sync_text(report: SyncReport, color: bool) -> Seq<LineModel> {
    let done = source_texts(report.sources@, report.sources@.len() as int) + repo_texts(
        report.repos@,
        report.repos@.len() as int,
    );
    match report.preview {
        Some(preview) => done + preview_text(preview, color),
        None => done,
    }
}

/// The lines about a synchronization.
pub fn sync_lines(report: &SyncReport, color: bool) -> (list: Vec<Line>)
    ensures
        lines(list@) == sync_text(*report, color),
{
    let mut list: Vec<Line> = Vec::new();
    let ghost sources = report.sources@;
    let ghost repos = report.repos@;
    let mut i: usize = 0;
    proof {
        assert(lines(list@) =~= source_texts(sources, 0));
    }
    while i < report.sources.len()
        invariant
            i <= report.sources@.len(),
            sources == report.sources@,
            lines(list@) == source_texts(sources, i as int),
        decreases report.sources@.len() - i,
    {
        push_line(&mut list, source_line(&report.sources[i]));
        proof {
            assert(lines(list@) =~= source_texts(sources, i + 1));
        }
        i += 1;
    }
    let ghost head = lines(list@);
    let mut k: usize = 0;
    proof {
        assert(lines(list@) =~= head + repo_texts(repos, 0));
    }
    while k < report.repos.len()
        invariant
            k <= report.repos@.len(),
            repos == report.repos@,
            lines(list@) == head + repo_texts(repos, k as int),
        decreases report.repos@.len() - k,
    {
        let ghost earlier = lines(list@);
        let mut more = repo_lines(&report.repos[k]);
        let ghost added = lines(more@);
        list.append(&mut more);
        proof {
            assert(lines(list@) =~= earlier + added);
            assert(lines(list@) =~= head + repo_texts(repos, k + 1));
        }
        k += 1;
    }
    if let Some(preview) = &report.preview {
        let ghost earlier = lines(list@);
        let mut more = preview_lines(preview, color);
        let ghost added = lines(more@);
        list.append(&mut more);
        proof {
            assert(lines(list@) =~= earlier + added);
        }
    }
    list
}

/// The words for what pruning did.
pub open spec fn prune_text(action: Option<PruneAction>) -> Seq<char> {
    match action {
        Some(PruneAction::Deleted) => "deleted"@,
        Some(PruneAction::WouldDelete) => "would delete"@,
        Some(PruneAction::RemovedMissing) => "removed missing inventory entry"@,
        Some(PruneAction::WouldRemoveMissing) => "would remove missing inventory entry"@,
        Some(PruneAction::SkippedDirty) => "kept (working tree has local changes)"@,
        Some(
            PruneAction::SkippedLocalState,
        ) => "kept (repository has local commits, stashes, or linked worktrees)"@,
        None => "unknown"@,
    }
}

/// The line about a repository that was pruned.
pub open spec fn prune_line_text(report: RepoPruneReport) -> LineModel {
    match report.error {
        Some(error) => LineModel::Complaint(report.id@ + ": "@ + error@),
        None => LineModel::Output(report.id@ + ": "@ + prune_text(report.action)),
    }
}

/// The line about a repository that was pruned.
pub fn prune_line(report: &RepoPruneReport) -> (line: Line)
    ensures
        line@ == prune_line_text(*report),
{
    let id = report.id.as_str();
    if let Some(error) = &report.error {
        return Line::Complaint(cat3(id, ": ", error.as_str()));
    }
    let words = match report.action {
        Some(PruneAction::Deleted) => "deleted",
        Some(PruneAction::WouldDelete) => "would delete",
        Some(PruneAction::RemovedMissing) => "removed missing inventory entry",
        Some(PruneAction::WouldRemoveMissing) => "would remove missing inventory entry",
        Some(PruneAction::SkippedDirty) => "kept (working tree has local changes)",
        Some(
            PruneAction::SkippedLocalState,
        ) => "kept (repository has local commits, stashes, or linked worktrees)",
        None => "unknown",
    };
    Line::Output(cat3(id, ": ", words))
}

/// The lines about the repositories that were pruned.
pub fn prune_lines(report: &PruneReport) -> (list: Vec<Line>)
    ensures
        lines(list@) == Seq::new(
            report.repos@.len(),
            |i: int| prune_line_text(report.repos@[i]),
        ),
{
    let mut list: Vec<Line> = Vec::new();
    let mut i: usize = 0;
    while i < report.repos.len()
        invariant
            i <= report.repos@.len(),
            list@.len() == i,
            forall|j: int| 0 <= j < i ==> (#[trigger] list@[j])@ == prune_line_text(report.repos@[j]),
        decreases report.repos@.len() - i,
    {
        list.push(prune_line(&report.repos[i]));
        i += 1;
    }
    proof {
        assert(lines(list@) =~= Seq::new(
            report.repos@.len(),
            |i: int| prune_line_text(report.repos@[i]),
        ));
    }
    list
}

/// The line about a repository of the inventory.
pub fn list_line(repo: &RepoRecord) -> (line: String)
    ensures
        line@ == repo@.id + (if repo@.active {
            ""@
        } else {
            " (inactive)"@
        }) + "\t"@ + repo@.local_path,
{
    cat4(
        repo.id.as_str(),
        if repo.active {
            ""
        } else {
            " (inactive)"
        },
        "\t",
        repo.local_path.as_str(),
    )
}

/// The exit status of a command: two if something failed, else zero.
pub fn exit_status(failed: bool) -> (status: u8)
    ensures
        status == (if failed {
            2u8
        } else {
            0u8
        }),
{
    if failed {
        2
    } else {
        0
    }
}

/// The exit status of a search: two if something could not be searched, else
/// zero if something was found and one if not.
pub fn search_status(stats: &SearchStats) -> (status: u8)
    ensures
        status == (if stats.errors > 0 {
            2u8
        } else if stats.matches > 0 {
            0u8
        } else {
            1u8
        }),
{
    if stats.errors > 0 {
        2
    } else if stats.matches > 0 {
        0
    } else {
        1
    }
}

/// Whether to print in color.
#[derive(Clone, Copy, Debug, PartialEq, Eq, Structural)]
pub enum ColorChoice {
    /// If the output is a terminal.
    Auto,
    Always,
    Never,
}

impl Default for ColorChoice {
    fn default() -> (choice: ColorChoice)
        ensures
            choice == ColorChoice::Auto,
    {
        ColorChoice::Auto
    }
}

/// Whether to print in color, given whether the output is a terminal.
pub fn use_color(choice: ColorChoice, terminal: bool) -> (color: bool)
    ensures
        color == (choice == ColorChoice::Always || choice == ColorChoice::Auto && terminal),
{
    match choice {
        ColorChoice::Auto => terminal,
        ColorChoice::Always => true,
        ColorChoice::Never => false,
    }
}

/// Which repositories a command line asks for.
#[derive(Debug)]
pub struct FilterArgs {
    pub repos: Vec<String>,
    pub source: Vec<String>,
    pub tag: Vec<String>,
}

impl FilterArgs {
    /// The filter for these repositories.
    pub fn as_filter(&self) -> (filter: RepoFilter)
        ensures
            filter.repo_globs@ == self.repos@,
            filter.sources@ == set_of(self.source@),
            filter.tags@ == set_of(self.tag@),
    {
        RepoFilter {
            repo_globs: clone_list(&self.repos),
            sources: StringSet::from_list(&self.source),
            tags: StringSet::from_list(&self.tag),
        }
    }
}

/// What a command line asks to search for. Paths are given by their bytes.
#[derive(Debug)]
pub struct GrepArgs {
    pub pattern: String,
    pub fixed_strings: bool,
    pub ignore_case: bool,
    pub smart_case: bool,
    pub word: bool,
    pub before_context: usize,
    pub after_context: usize,
    pub context: Option<usize>,
    pub globs: Vec<String>,
    pub files_with_matches: bool,
    pub repos_with_matches: bool,
    pub count: bool,
    pub threads: usize,
    pub paths: Vec<Vec<u8>>,
}

impl GrepArgs {
    /// The options of the search. A context around matches replaces those
    /// before and after them.
    pub fn into_options(self) -> (options: SearchOptions)
        ensures
            options == (SearchOptions {
                pattern: self.pattern,
                pattern_kind: if self.fixed_strings {
                    PatternKind::Fixed
                } else {
                    PatternKind::Regex
                },
                case: if self.ignore_case {
                    CaseMode::Insensitive
                } else if self.smart_case {
                    CaseMode::Smart
                } else {
                    CaseMode::Sensitive
                },
                word: self.word,
                before_context: match self.context {
                    Some(context) => context,
                    None => self.before_context,
                },
                after_context: match self.context {
                    Some(context) => context,
                    None => self.after_context,
                },
                globs: self.globs,
                path_prefixes: self.paths,
                threads: self.threads,
                output_mode: if self.files_with_matches {
                    SearchOutputMode::FilesWithMatches
                } else if self.repos_with_matches {
                    SearchOutputMode::ReposWithMatches
                } else if self.count {
                    SearchOutputMode::Count
                } else {
                    SearchOutputMode::Matches
                },
            }),
    {
        let pattern_kind = if self.fixed_strings {
            PatternKind::Fixed
        } else {
            PatternKind::Regex
        };
        let case = if self.ignore_case {
            CaseMode::Insensitive
        } else if self.smart_case {
            CaseMode::Smart
        } else {
            CaseMode::Sensitive
        };
        let (before_context, after_context) = match self.context {
            Some(context) => (context, context),
            None => (self.before_context, self.after_context),
        };
        let output_mode = if self.files_with_matches {
            SearchOutputMode::FilesWithMatches
        } else if self.repos_with_matches {
            SearchOutputMode::ReposWithMatches
        } else if self.count {
            SearchOutputMode::Count
        } else {
            SearchOutputMode::Matches
        };
        SearchOptions {
            pattern: self.pattern,
            pattern_kind,
            case,
            word: self.word,
            before_context,
            after_context,
            globs: self.globs,
            path_prefixes: self.paths,
            threads: self.threads,
            output_mode,
        }
    }
}

}

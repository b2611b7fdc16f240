//! What holds of the lines about repositories, and of what a command line asks
//! for.

use vstd::prelude::*;

use crate::git::SyncAction;
use crate::model::RepoRecord;
use crate::prune::{PruneAction, PruneReport};
use crate::report::{
    ColorChoice, FilterArgs, GrepArgs, Line, LineModel, PROGRESS_WIDTH, change_text, exit_status,
    filled, lines, list_line, preview_text, progress_line, progress_text, prune_lines, repo_text,
    repo_texts, search_status, source_text, sync_text, use_color,
};
use crate::search::{RepoFilter, SearchOptions, SearchStats};
use crate::sync::{
    RepoSyncReport, RepositoryChange, SourceReport, SyncPreview, SyncProgress, SyncReport,
};
use crate::text::decimal;

verus! {

/// A repository that a synchronization would take up stands behind a plus sign
/// and one that it would drop behind a minus sign; in color the line is green or
/// red, up to its end.
pub proof fn law_changes_are_marked(change: RepositoryChange)
    ensures
        change.kind is Activate ==> change_text(change, false) == "  "@ + "+ "@ + change.id@
            && change_text(change, true) == "  "@ + "\x1b[32m"@ + "+ "@ + change.id@ + "\x1b[0m"@,
        change.kind is Deactivate ==> change_text(change, false) == "  "@ + "- "@ + change.id@
            && change_text(change, true) == "  "@ + "\x1b[31m"@ + "- "@ + change.id@ + "\x1b[0m"@,
{
}

/// A progress bar is empty at the beginning, full at the end and in between never
/// gets shorter; it has twelve characters, of which as large a part is filled as
/// is completed.
pub proof fn law_progress_bars_fill(completed: usize, later: usize, total: usize)
    requires
        0 < total,
        completed <= later <= total,
        total * 12 <= usize::MAX,
    ensures
        filled(0, total) == 0,
        filled(total, total) == 12,
        filled(completed, total) <= filled(later, total) <= 12,
        filled(completed, total) * total <= completed * 12 < (filled(completed, total) + 1) * total,
        filled(0, 0) == 0,
{
    assert(total * 12 / (total as int) == 12) by (nonlinear_arith)
        requires
            total > 0,
    ;
    let t = total as int;
    let a = completed * 12;
    let b = later * 12;
    assert(0int / t == 0) by (nonlinear_arith)
        requires
            t > 0,
    ;
    assert(a / t <= b / t <= 12 && a / t * t <= a < (a / t + 1) * t) by (nonlinear_arith)
        requires
            t > 0,
            0 <= a <= b <= t * 12,
    ;
    assert(completed * PROGRESS_WIDTH == a);
    assert(later * PROGRESS_WIDTH == b);
}

/// A line about the progress shows its label, the bar and how much of how much is
/// completed; more than there is in total is never shown.
pub proof fn law_progress_is_shown(progress: SyncProgress, line: String)
    requires
        call_ensures(progress_line, (progress,), line),
    ensures
        progress matches SyncProgress::Discovering { completed, total } ==> line@ == progress_text(
            "discover"@,
            completed,
            total,
        ),
        progress matches SyncProgress::Repositories { completed, total } ==> line@ == progress_text(
            "sync    "@,
            completed,
            total,
        ),
{
}

/// The bar of a line about the progress stands between brackets, with its filled
/// part in front.
pub proof fn law_progress_lines(label: Seq<char>, completed: usize, total: usize)
    requires
        completed <= total,
    ensures
        ({
            let full = filled(completed, total) as nat;
            progress_text(label, completed, total) == label + "["@ + Seq::new(
                full,
                |i: int| '#',
            ) + Seq::new((12 - full) as nat, |i: int| '-') + "] "@ + decimal(completed as nat)
                + "/"@ + decimal(total as nat)
        }),
        forall|more: usize|
            more >= total ==> #[trigger] progress_text(label, more, total) == progress_text(
                label,
                total,
                total,
            ),
{
    crate::report::lemma_filled(completed, total);
    assert((12 - filled(completed, total)) as nat == (PROGRESS_WIDTH - filled(
        completed,
        total,
    )) as nat);
}

/// A source with a problem is complained about with that problem; of every other
/// one it is said how many repositories it has.
pub proof fn law_sources_are_told(report: SourceReport)
    ensures
        report.error matches Some(error) ==> source_text(report) == LineModel::Complaint(
            "source "@ + report.source@ + ": "@ + error@,
        ),
        report.error is None && report.discovered == 1 ==> source_text(report)
            == LineModel::Output("source "@ + report.source@ + ": "@ + decimal(1) + " repository"@),
        report.error is None && report.discovered != 1 ==> source_text(report)
            == LineModel::Output(
            "source "@ + report.source@ + ": "@ + decimal(report.discovered as nat)
                + " repositories"@,
        ),
{
}

/// A repository with a problem is complained about with that problem and with
/// nothing else; of every other one it is said what was done, in a word that
/// stands for nothing else, with the detail if there is one; and a warning
/// follows as a complaint.
pub proof fn law_repositories_are_told(report: RepoSyncReport)
    ensures
        report.error matches Some(error) ==> repo_text(report) == seq![
            LineModel::Complaint(report.id@ + ": "@ + error@),
        ],
        report.error is None ==> {
            let told = repo_text(report);
            let word = match report.action {
                Some(SyncAction::Cloned) => "cloned"@,
                Some(SyncAction::FastForwarded) => "fast-forwarded"@,
                Some(SyncAction::Fetched) => "fetched"@,
                Some(SyncAction::Unchanged) => "up-to-date"@,
                None => "unknown"@,
            };
            &&& report.detail is None ==> told[0] == LineModel::Output(report.id@ + ": "@ + word)
            &&& report.detail matches Some(detail) ==> told[0] == LineModel::Output(
                report.id@ + ": "@ + word + (" ("@ + detail@ + ")"@),
            )
            &&& report.warning is None ==> told.len() == 1
            &&& report.warning matches Some(warning) ==> told.len() == 2 && told[1]
                == LineModel::Complaint(report.id@ + ": warning: "@ + warning@)
        },
{
    let line = report.id@ + ": "@ + crate::report::action_text(report.action);
    assert(line + Seq::empty() =~= line);
}

/// Every change of a preview has a line of its own, in their order, and how many
/// repositories do not change is said behind them; where nothing changes, that is
/// said.
pub proof fn law_previews_are_told(preview: SyncPreview, color: bool)
    ensures
        ({
            let told = preview_text(preview, color);
            let changes = preview.changes@;
            &&& changes.len() == 0 ==> told == seq![
                LineModel::Output("repository changes: none"@),
            ]
            &&& changes.len() > 0 ==> told[0] == LineModel::Output("repository changes:"@)
            &&& forall|i: int|
                0 <= i < changes.len() ==> told[i + 1] == LineModel::Output(
                    change_text(#[trigger] changes[i], color),
                )
            &&& changes.len() > 0 && preview.unchanged == 0 ==> told.len() == changes.len() + 1
            &&& changes.len() > 0 && preview.unchanged > 0 ==> told.len() == changes.len() + 2
                && told.last() == LineModel::Output(
                "    "@ + decimal(preview.unchanged as nat) + " unchanged"@,
            )
        }),
{
}

/// Where the lines about a repository begin.
pub open spec fn lines_before(reports: Seq<RepoSyncReport>, i: int) -> nat
    decreases i,
{
    if i <= 0 {
        0
    } else {
        lines_before(reports, i - 1) + repo_text(reports[i - 1]).len()
    }
}

/// The lines about some repositories.
proof fn lemma_repo_lines(reports: Seq<RepoSyncReport>, count: int, i: int)
    requires
        0 <= count <= reports.len(),
    ensures
        repo_texts(reports, count).len() == lines_before(reports, count),
        0 <= i < count ==> lines_before(reports, i) + repo_text(reports[i]).len() <= lines_before(
            reports,
            count,
        ) && repo_texts(reports, count).subrange(
            lines_before(reports, i) as int,
            (lines_before(reports, i) + repo_text(reports[i]).len()) as int,
        ) == repo_text(reports[i]),
    decreases count,
{
    if count > 0 {
        lemma_repo_lines(reports, count - 1, i);
        let earlier = repo_texts(reports, count - 1);
        let whole = repo_texts(reports, count);
        if 0 <= i < count {
            let from = lines_before(reports, i) as int;
            let to = from + repo_text(reports[i]).len();
            if i < count - 1 {
                assert(whole.subrange(from, to) =~= earlier.subrange(from, to));
            } else {
                assert(whole.subrange(from, to) =~= repo_text(reports[i]));
            }
        }
    }
}

/// What is said of a synchronization: a line about every source, then the lines
/// about every repository, all in the order of the report, and then the preview,
/// if there is one, and nothing else.
pub proof fn law_synchronizations_are_told(report: SyncReport, color: bool, i: int)
    ensures
        ({
            let told = sync_text(report, color);
            let n = report.sources@.len();
            let reports = report.repos@;
            let all = lines_before(reports, reports.len() as int);
            &&& 0 <= i < n ==> told[i] == source_text(report.sources@[i])
            &&& 0 <= i < reports.len() ==> told.subrange(
                (n + lines_before(reports, i)) as int,
                (n + lines_before(reports, i) + repo_text(reports[i]).len()) as int,
            ) == repo_text(reports[i])
            &&& report.preview is None ==> told.len() == n + all
            &&& report.preview matches Some(preview) ==> told.len() == n + all + preview_text(
                preview,
                color,
            ).len() && told.skip((n + all) as int) == preview_text(preview, color)
        }),
{
    let told = sync_text(report, color);
    let n = report.sources@.len();
    let reports = report.repos@;
    let all = lines_before(reports, reports.len() as int);
    lemma_repo_lines(reports, reports.len() as int, i);
    if 0 <= i < reports.len() {
        let from = lines_before(reports, i) as int;
        let to = from + repo_text(reports[i]).len();
        assert(told.subrange(n + from, n + to) =~= repo_texts(
            reports,
            reports.len() as int,
        ).subrange(from, to));
    }
    if let Some(preview) = report.preview {
        assert(told.skip((n + all) as int) =~= preview_text(preview, color));
    }
}

/// Every repository that was to be pruned has a line of its own, in their order:
/// a complaint with its problem, or what was done, where what a dry run would do
/// is told from what was done.
pub proof fn law_pruning_is_told(report: PruneReport, list: Vec<Line>, i: int)
    requires
        call_ensures(prune_lines, (&report,), list),
        0 <= i < report.repos@.len(),
    ensures
        list@.len() == report.repos@.len(),
        ({
            let pruned = report.repos@[i];
            let line = list@[i]@;
            let said = pruned.id@ + ": "@;
            &&& pruned.error matches Some(error) ==> line == LineModel::Complaint(said + error@)
            &&& pruned.error is None ==> {
                &&& pruned.action == Some(PruneAction::Deleted) ==> line == LineModel::Output(
                    said + "deleted"@,
                )
                &&& pruned.action == Some(PruneAction::WouldDelete) ==> line == LineModel::Output(
                    said + "would delete"@,
                )
                &&& pruned.action == Some(PruneAction::RemovedMissing) ==> line
                    == LineModel::Output(said + "removed missing inventory entry"@)
                &&& pruned.action == Some(PruneAction::WouldRemoveMissing) ==> line
                    == LineModel::Output(said + "would remove missing inventory entry"@)
                &&& pruned.action == Some(PruneAction::SkippedDirty) ==> line
                    == LineModel::Output(said + "kept (working tree has local changes)"@)
                &&& pruned.action == Some(PruneAction::SkippedLocalState) ==> line
                    == LineModel::Output(
                    said + "kept (repository has local commits, stashes, or linked worktrees)"@,
                )
                &&& pruned.action is None ==> line == LineModel::Output(said + "unknown"@)
            }
        }),
{
    assert(lines(list@).len() == list@.len());
    assert(lines(list@)[i] == list@[i]@);
}

/// A repository of the inventory is listed with its identifier and the place of
/// its working tree, and one that is not active is marked as such.
pub proof fn law_repositories_are_listed(repo: RepoRecord, line: String)
    requires
        call_ensures(list_line, (&repo,), line),
    ensures
        repo.active ==> line@ == repo.id@ + "\t"@ + repo.local_path@,
        !repo.active ==> line@ == repo.id@ + " (inactive)"@ + "\t"@ + repo.local_path@,
{
    reveal_strlit("");
    assert(repo.id@ + ""@ =~= repo.id@);
}

/// A command ends with zero exactly if nothing failed, and else with two.
pub proof fn law_commands_end(failed: bool, status: u8)
    requires
        call_ensures(exit_status, (failed,), status),
    ensures
        status == 0 <==> !failed,
        status == 2 <==> failed,
{
}

/// A search ends with two if something could not be searched, whatever was found;
/// else with zero if something was found and with one if nothing was.
pub proof fn law_searches_end(stats: SearchStats, status: u8)
    requires
        call_ensures(search_status, (&stats,), status),
    ensures
        status == 2 <==> stats.errors > 0,
        status == 0 <==> stats.errors == 0 && stats.matches > 0,
        status == 1 <==> stats.errors == 0 && stats.matches == 0,
{
}

/// Color is used where it is asked for, and where nothing is asked for on a
/// terminal.
pub proof fn law_color_is_used_on_terminals(choice: ColorChoice, terminal: bool, color: bool)
    requires
        call_ensures(use_color, (choice, terminal), color),
    ensures
        choice is Always ==> color,
        choice is Never ==> !color,
        choice is Auto ==> color == terminal,
{
}

/// The filter that a command line asks for has its patterns in their order, and
/// its sources and tags, and no others.
pub proof fn law_filters_are_as_asked(args: FilterArgs, filter: RepoFilter, i: int, name: Seq<char>)
    requires
        call_ensures(FilterArgs::as_filter, (&args,), filter),
    ensures
        filter.repo_globs@.len() == args.repos@.len(),
        0 <= i < args.repos@.len() ==> filter.repo_globs@[i]@ == args.repos@[i]@,
        filter.sources@.contains(name) <==> exists|k: int|
            0 <= k < args.source@.len() && (#[trigger] args.source@[k])@ == name,
        filter.tags@.contains(name) <==> exists|k: int|
            0 <= k < args.tag@.len() && (#[trigger] args.tag@[k])@ == name,
{
    crate::discovery_laws::lemma_tags(args.source@, name);
    crate::discovery_laws::lemma_tags(args.tag@, name);
}

/// The options of a search are those that the command line asks for: without
/// case if that is asked for, else by the case of the pattern if that is; with
/// the same context on both sides if one is asked for; and of the kinds of
/// reports the one that says least.
pub proof fn law_options_are_as_asked(args: GrepArgs, options: SearchOptions)
    requires
        call_ensures(GrepArgs::into_options, (args,), options),
    ensures
        options.pattern@ == args.pattern@,
        options.globs@ == args.globs@,
        options.path_prefixes@ == args.paths@,
        options.threads == args.threads,
        options.word == args.word,
        options.pattern_kind is Fixed <==> args.fixed_strings,
        options.case is Insensitive <==> args.ignore_case,
        options.case is Smart <==> args.smart_case && !args.ignore_case,
        args.context matches Some(context) ==> options.before_context == context
            && options.after_context == context,
        args.context is None ==> options.before_context == args.before_context
            && options.after_context == args.after_context,
        options.output_mode is FilesWithMatches <==> args.files_with_matches,
        options.output_mode is ReposWithMatches <==> args.repos_with_matches
            && !args.files_with_matches,
        options.output_mode is Count <==> args.count && !args.repos_with_matches
            && !args.files_with_matches,
        options.output_mode is Matches <==> !args.count && !args.repos_with_matches
            && !args.files_with_matches,
{
}

}

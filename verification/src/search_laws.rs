//! What holds of a search: what is reported of a file, which files are searched,
//! and which repositories are meant.

use vstd::prelude::*;
use vstd::utf8::encode_utf8;

use crate::discovery_laws::is_among;
use crate::error::ErrorModel;
use crate::glob::glob_matches;
use crate::model::RecordModel;
use crate::path::{byte_components, is_name, last_name, name_place, names, next_name};
use crate::search::{
    CaseMode, EventModel, FileSearch, PatternKind, RepoFilter, Search, SearchEvent, SearchOptions,
    SearchOutputMode, Submatch, event_model, excluding, including, is_above, line_text,
    match_report, one_more, options_problem, owns, pattern_of, pattern_problem, relative_path,
    root_of, selected,
};
use crate::text::{
    begins, byte_lists, law_join_undoes_split, lemma_split_concat, lemma_split_nonempty, split,
    texts,
};

verus! {

/// A matching line of a file: its number where it is known, its bytes, and the
/// matches in it.
pub struct FoundLine {
    pub number: Option<u64>,
    pub bytes: Seq<u8>,
    pub matches: Seq<Submatch>,
}

/// Whether an event tells of a matching line of a file: which one it is, what
/// stands in it, and where the matches are.
pub open spec fn tells_of(event: EventModel, file: FileSearch, line: FoundLine) -> bool {
    &&& event matches EventModel::Match(found)
    &&& found.repo == file.repo@
    &&& found.path == file.path@
    &&& line.number matches Some(number) ==> found.line == number
    &&& line.number is None ==> found.line == 0
    &&& found.text == line_text(line.bytes)
    &&& found.submatches == line.matches
    &&& line.matches.len() == 0 ==> found.column is None
    &&& line.matches.len() > 0 && line.matches[0].start < usize::MAX ==> found.column == Some(
        (line.matches[0].start + 1) as usize,
    )
    &&& !found.context
}

/// In the mode that reports lines every matching line of a file is reported with
/// its number, its text and its matches, and the search of the file goes on,
/// whatever was found before.
pub proof fn law_every_matching_line_is_reported(
    file: FileSearch,
    reported: Set<Seq<char>>,
    line: FoundLine,
)
    requires
        file.mode == SearchOutputMode::Matches,
    ensures
        ({
            let report = match_report(file, reported, line.number, line.bytes, line.matches);
            &&& report.1
            &&& report.0 matches Some(event)
            &&& tells_of(event, file, line)
        }),
{
}

/// In the other modes: a file with a match is reported by its path, once, as its
/// search ends with the first match; a repository with a match is reported
/// unless it was before, and the search of the file ends; and if lines are
/// counted, none is reported and the search goes on.
pub proof fn law_files_and_repositories_are_reported_by_their_first_match(
    file: FileSearch,
    reported: Set<Seq<char>>,
    line: FoundLine,
)
    ensures
        ({
            let report = match_report(file, reported, line.number, line.bytes, line.matches);
            &&& file.mode == SearchOutputMode::FilesWithMatches ==> report == (
                Some(EventModel::File { repo: file.repo@, path: file.path@ }),
                false,
            )
            &&& file.mode == SearchOutputMode::ReposWithMatches && !reported.contains(file.repo@)
                ==> report == (Some(EventModel::Repo { repo: file.repo@ }), false)
            &&& file.mode == SearchOutputMode::ReposWithMatches && reported.contains(file.repo@)
                ==> report == (None::<EventModel>, false)
            &&& file.mode == SearchOutputMode::Count ==> report == (None::<EventModel>, true)
        }),
{
}

/// What is reported of the first matching lines of a file, one after the other,
/// until its search ends.
pub open spec fn events_of(
    file: FileSearch,
    reported: Set<Seq<char>>,
    lines: Seq<FoundLine>,
) -> Seq<EventModel>
    decreases lines.len(),
{
    if lines.len() == 0 {
        Seq::empty()
    } else {
        let line = lines[0];
        let (event, goes_on) = match_report(file, reported, line.number, line.bytes, line.matches);
        let first = match event {
            Some(event) => seq![event],
            None => Seq::empty(),
        };
        let next = FileSearch { count: one_more(file.count), ..file };
        if goes_on {
            first + events_of(next, reported, lines.subrange(1, lines.len() as int))
        } else {
            first
        }
    }
}

/// As many lines as match are reported, in their order; of files and
/// repositories at most one event comes; and of counted lines none.
pub proof fn law_matching_lines_and_events_agree(
    file: FileSearch,
    reported: Set<Seq<char>>,
    lines: Seq<FoundLine>,
)
    ensures
        file.mode == SearchOutputMode::Matches ==> {
            &&& events_of(file, reported, lines).len() == lines.len()
            &&& forall|i: int|
                0 <= i < lines.len() ==> tells_of(
                    #[trigger] events_of(file, reported, lines)[i],
                    file,
                    lines[i],
                )
        },
        file.mode == SearchOutputMode::FilesWithMatches ==> events_of(file, reported, lines).len()
            == (if lines.len() == 0 {
            0int
        } else {
            1int
        }),
        file.mode == SearchOutputMode::ReposWithMatches ==> events_of(file, reported, lines).len()
            == (if lines.len() == 0 || reported.contains(file.repo@) {
            0int
        } else {
            1int
        }),
        file.mode == SearchOutputMode::Count ==> events_of(file, reported, lines).len() == 0,
    decreases lines.len(),
{
    if lines.len() > 0 {
        let next = FileSearch { count: one_more(file.count), ..file };
        let rest = lines.subrange(1, lines.len() as int);
        law_matching_lines_and_events_agree(next, reported, rest);
        if file.mode == SearchOutputMode::Matches {
            let all = events_of(file, reported, lines);
            let later = events_of(next, reported, rest);
            assert forall|i: int| 0 <= i < lines.len() implies tells_of(
                #[trigger] all[i],
                file,
                lines[i],
            ) by {
                if i > 0 {
                    assert(all[i] == later[i - 1]);
                    assert(tells_of(later[i - 1], next, rest[i - 1]));
                    assert(rest[i - 1] == lines[i]);
                }
            }
        }
    }
}

/// Every matching line counts, up to the largest number there is.
pub proof fn law_every_matching_line_counts(count: u64)
    ensures
        count < u64::MAX ==> one_more(count) == count + 1,
        count == u64::MAX ==> one_more(count) == u64::MAX,
{
}

/// The number of matching lines of a file is reported at its end if lines are
/// counted and there was one.
pub proof fn law_counts_are_reported(file: FileSearch, event: Option<SearchEvent>)
    requires
        call_ensures(FileSearch::finish, (&file,), event),
    ensures
        event is Some <==> file.mode == SearchOutputMode::Count && file.count > 0,
        event_model(event) matches Some(event) ==> event == (EventModel::Count {
            repo: file.repo@,
            path: file.path@,
            count: file.count,
        }),
{
}

/// A line around a match is reported as one where lines are reported, and else
/// not.
pub proof fn law_lines_around_matches_are_reported(
    file: FileSearch,
    line: Option<u64>,
    bytes: &[u8],
    event: Option<SearchEvent>,
)
    requires
        call_ensures(FileSearch::context, (&file, line, bytes), event),
    ensures
        event is Some <==> file.mode == SearchOutputMode::Matches,
        event_model(event) matches Some(event) ==> {
            &&& event matches EventModel::Match(found)
            &&& found.repo == file.repo@
            &&& found.path == file.path@
            &&& line matches Some(number) ==> found.line == number
            &&& line is None ==> found.line == 0
            &&& found.column is None
            &&& found.text == line_text(bytes@)
            &&& found.submatches.len() == 0
            &&& found.context
        },
{
}

/// Only the end of a line is taken off: a line feed, and a carriage return before
/// it.
pub proof fn law_only_line_ends_are_taken_off(line: Seq<u8>)
    requires
        line.len() > 0 ==> line.last() != 10u8 && line.last() != 13u8,
    ensures
        line_text(line) == line,
        line_text(line.push(10u8)) == line,
        line_text(line.push(13u8).push(10u8)) == line,
        line_text(line.push(13u8)) == line,
        line_text(line.push(10u8).push(10u8)) == line.push(10u8),
{
    assert(line.push(10u8).drop_last() =~= line);
    assert(line.push(13u8).drop_last() =~= line);
    assert(line.push(13u8).push(10u8).drop_last() =~= line.push(13u8));
    assert(line.push(10u8).push(10u8).drop_last() =~= line.push(10u8));
}

/// The globs that include and those that exclude, by what they match.
proof fn lemma_globs(globs: Seq<Seq<char>>, path: Seq<u8>)
    ensures
        including(globs).len() == 0 <==> forall|i: int|
            0 <= i < globs.len() ==> begins(#[trigger] globs[i], "!"@),
        crate::glob::some_glob_matches(including(globs), path) <==> exists|i: int|
            0 <= i < globs.len() && !begins(#[trigger] globs[i], "!"@) && glob_matches(
                globs[i],
                path,
            ),
        crate::glob::some_glob_matches(excluding(globs), path) <==> exists|i: int|
            0 <= i < globs.len() && begins(#[trigger] globs[i], "!"@) && glob_matches(
                globs[i].subrange(1, globs[i].len() as int),
                path,
            ),
    decreases globs.len(),
{
    reveal_strlit("!");
    if globs.len() > 0 {
        let rest = globs.drop_last();
        let n = globs.len() - 1;
        lemma_globs(rest, path);
        assert(globs.last() == globs[n]);
        assert(forall|i: int| 0 <= i < n ==> rest[i] == globs[i]);
        let wanted = including(globs);
        let earlier_wanted = including(rest);
        let unwanted = excluding(globs);
        let earlier_unwanted = excluding(rest);
        if forall|i: int| 0 <= i < globs.len() ==> begins(#[trigger] globs[i], "!"@) {
            assert(begins(globs[n], "!"@));
            assert forall|i: int| 0 <= i < rest.len() implies begins(#[trigger] rest[i], "!"@) by {
                assert(rest[i] == globs[i]);
            }
        }
        if wanted.len() == 0 {
            assert forall|i: int| 0 <= i < globs.len() implies begins(
                #[trigger] globs[i],
                "!"@,
            ) by {
                if i < n {
                    assert(rest[i] == globs[i]);
                }
            }
        }
        if crate::glob::some_glob_matches(wanted, path) {
            let k = choose|k: int|
                0 <= k < wanted.len() && glob_matches(#[trigger] wanted[k], path);
            if k < earlier_wanted.len() {
                assert(earlier_wanted[k] == wanted[k]);
                let i = choose|i: int|
                    0 <= i < rest.len() && !begins(#[trigger] rest[i], "!"@) && glob_matches(
                        rest[i],
                        path,
                    );
                assert(!begins(globs[i], "!"@));
            } else {
                assert(!begins(globs[n], "!"@));
            }
        }
        if exists|i: int|
            0 <= i < globs.len() && !begins(#[trigger] globs[i], "!"@) && glob_matches(
                globs[i],
                path,
            ) {
            let i = choose|i: int|
                0 <= i < globs.len() && !begins(#[trigger] globs[i], "!"@) && glob_matches(
                    globs[i],
                    path,
                );
            if i < n {
                assert(!begins(rest[i], "!"@));
                let k = choose|k: int|
                    0 <= k < earlier_wanted.len() && glob_matches(
                        #[trigger] earlier_wanted[k],
                        path,
                    );
                assert(wanted[k] == earlier_wanted[k]);
            } else {
                assert(wanted[earlier_wanted.len() as int] == globs[n]);
            }
        }
        if crate::glob::some_glob_matches(unwanted, path) {
            let k = choose|k: int|
                0 <= k < unwanted.len() && glob_matches(#[trigger] unwanted[k], path);
            if k < earlier_unwanted.len() {
                assert(earlier_unwanted[k] == unwanted[k]);
                let i = choose|i: int|
                    0 <= i < rest.len() && begins(#[trigger] rest[i], "!"@) && glob_matches(
                        rest[i].subrange(1, rest[i].len() as int),
                        path,
                    );
                assert(begins(globs[i], "!"@));
            } else {
                assert(begins(globs[n], "!"@));
            }
        }
        if exists|i: int|
            0 <= i < globs.len() && begins(#[trigger] globs[i], "!"@) && glob_matches(
                globs[i].subrange(1, globs[i].len() as int),
                path,
            ) {
            let i = choose|i: int|
                0 <= i < globs.len() && begins(#[trigger] globs[i], "!"@) && glob_matches(
                    globs[i].subrange(1, globs[i].len() as int),
                    path,
                );
            if i < n {
                assert(begins(rest[i], "!"@));
                let k = choose|k: int|
                    0 <= k < earlier_unwanted.len() && glob_matches(
                        #[trigger] earlier_unwanted[k],
                        path,
                    );
                assert(unwanted[k] == earlier_unwanted[k]);
            } else {
                assert(unwanted[earlier_unwanted.len() as int] == globs[n].subrange(
                    1,
                    globs[n].len() as int,
                ));
            }
        }
    }
}

/// A file of a repository is searched if and only if: where only repositories
/// are reported, its own was not yet; it lies at or below one of the paths that
/// were given, if any; it matches one of the globs without an exclamation mark,
/// if any; and it matches none of those behind one.
pub proof fn law_selected_files_are_searched(
    search: Search,
    options: SearchOptions,
    reported: Set<Seq<char>>,
    repo: RecordModel,
    path: Seq<u8>,
)
    requires
        search.is_for(options),
    ensures
        ({
            let own = relative_path(path, root_of(repo));
            let globs = texts(options.globs@);
            search.searches(reported, repo, path) <==> {
                &&& options.output_mode == SearchOutputMode::ReposWithMatches ==> !reported.contains(
                    repo.id,
                )
                &&& options.path_prefixes@.len() == 0 || exists|i: int|
                    0 <= i < options.path_prefixes@.len() && begins(
                        byte_components(own),
                        byte_components((#[trigger] options.path_prefixes@[i])@),
                    )
                &&& (forall|i: int| 0 <= i < globs.len() ==> begins(#[trigger] globs[i], "!"@))
                    || exists|i: int|
                    0 <= i < globs.len() && !begins(#[trigger] globs[i], "!"@) && glob_matches(
                        globs[i],
                        own,
                    )
                &&& !exists|i: int|
                    0 <= i < globs.len() && begins(#[trigger] globs[i], "!"@) && glob_matches(
                        globs[i].subrange(1, globs[i].len() as int),
                        own,
                    )
            }
        }),
{
    let own = relative_path(path, root_of(repo));
    let prefixes = options.path_prefixes@;
    let places = byte_lists(prefixes);
    lemma_globs(texts(options.globs@), own);
    assert(crate::search::below_some(own, places) <==> exists|i: int|
        0 <= i < prefixes.len() && begins(
            byte_components(own),
            byte_components((#[trigger] prefixes[i])@),
        )) by {
        if crate::search::below_some(own, places) {
            let i = choose|i: int|
                0 <= i < places.len() && begins(
                    byte_components(own),
                    byte_components(#[trigger] places[i]),
                );
            assert(begins(byte_components(own), byte_components(prefixes[i]@)));
        }
        if exists|i: int|
            0 <= i < prefixes.len() && begins(
                byte_components(own),
                byte_components((#[trigger] prefixes[i])@),
            ) {
            let i = choose|i: int|
                0 <= i < prefixes.len() && begins(
                    byte_components(own),
                    byte_components((#[trigger] prefixes[i])@),
                );
            assert(places[i] == prefixes[i]@);
        }
    }
}

/// A search is what its options ask for: a text for itself if that was asked
/// for, else a regular expression; with the case minded unless it is not to be,
/// or only by the case of the pattern; and of whole words if that was asked for.
pub proof fn law_patterns_are_meant_as_asked(options: SearchOptions)
    ensures
        pattern_of(options).text == options.pattern@,
        pattern_of(options).fixed <==> options.pattern_kind == PatternKind::Fixed,
        pattern_of(options).insensitive <==> options.case == CaseMode::Insensitive,
        pattern_of(options).smart <==> options.case == CaseMode::Smart,
        pattern_of(options).word <==> options.word,
{
}

/// A pattern that cannot be compiled is reported before a glob that is none; and
/// options without globs have no other problem.
pub proof fn law_bad_patterns_are_reported_first(options: SearchOptions, message: Seq<char>)
    ensures
        pattern_problem(pattern_of(options)) == Some(message) ==> options_problem(options) == Some(
            ErrorModel::Search(message),
        ),
        pattern_problem(pattern_of(options)) is None && options_problem(options) is None
            ==> crate::glob::globs_problem(including(texts(options.globs@))) is None
            && crate::glob::globs_problem(excluding(texts(options.globs@))) is None,
{
}

/// A file belongs to the repository with the nearest working tree above it: no
/// other one above it has a longer path; and two repositories never both own it.
pub proof fn law_files_belong_to_the_nearest_working_tree(
    repos: Seq<RecordModel>,
    path: Seq<u8>,
    i: int,
    j: int,
)
    requires
        owns(repos, path, i),
        0 <= j < repos.len(),
        begins(byte_components(path), byte_components(root_of(repos[j]))),
        byte_components(root_of(repos[j])).len() > 0,
    ensures
        0 <= i < repos.len(),
        begins(byte_components(path), byte_components(encode_utf8(repos[i].local_path))),
        byte_components(root_of(repos[j])).len() <= byte_components(root_of(repos[i])).len(),
        owns(repos, path, j) ==> j == i,
{
    assert(is_above(root_of(repos[j]), path));
}

/// A filter selects a repository if and only if each of its categories without
/// values or with a value that fits does: a glob that matches the identifier, a
/// source that lists it, a tag that it has.
pub proof fn law_filters_select(filter: RepoFilter, repo: RecordModel)
    ensures
        selected(filter, repo) <==> {
            &&& filter.repo_globs@.len() == 0 || is_among(filter.repo_globs@, repo.id)
            &&& (forall|source: Seq<char>| !#[trigger] filter.sources@.contains(source))
                || exists|source: Seq<char>| #[trigger]
                filter.sources@.contains(source) && repo.sources.contains(source)
            &&& (forall|tag: Seq<char>| !#[trigger] filter.tags@.contains(tag)) || exists|
                tag: Seq<char>,
            | #[trigger] filter.tags@.contains(tag) && repo.tags.contains(tag)
        },
{
    crate::discovery_laws::lemma_among(filter.repo_globs@, repo.id);
    lemma_category(filter.sources@, repo.sources);
    lemma_category(filter.tags@, repo.tags);
}

/// A category lets through what has one of its values.
proof fn lemma_category(wanted: Set<Seq<char>>, values: Set<Seq<char>>)
    ensures
        crate::search::category_allows(wanted, values) <==> (forall|value: Seq<char>| !#[trigger]
            wanted.contains(value)) || exists|value: Seq<char>| #[trigger]
            wanted.contains(value) && values.contains(value),
{
    if forall|value: Seq<char>| !#[trigger] wanted.contains(value) {
        assert(wanted =~= Set::empty());
    }
    if exists|value: Seq<char>| #[trigger] wanted.contains(value) && values.contains(value) {
        let value = choose|value: Seq<char>| #[trigger]
            wanted.contains(value) && values.contains(value);
        assert(!values.disjoint(wanted));
    }
    if crate::search::category_allows(wanted, values) && wanted != Set::<Seq<char>>::empty() {
        assert(!values.disjoint(wanted));
        let value = choose|value: Seq<char>| values.contains(value) && wanted.contains(value);
        assert(wanted.contains(value) && values.contains(value));
    }
}

/// Whether every piece of a path, given by its bytes, names something.
pub open spec fn names_only(path: Seq<u8>) -> bool {
    forall|i: int|
        0 <= i < split(path, 47u8).len() ==> (#[trigger] split(path, 47u8)[i]).len() > 0 && split(
            path,
            47u8,
        )[i] != seq![46u8]
}

/// The names of pieces that all name something, behind an empty one.
proof fn lemma_names_behind_root(pieces: Seq<Seq<u8>>, count: int)
    requires
        1 <= count <= pieces.len(),
        pieces[0].len() == 0,
        forall|i: int|
            1 <= i < pieces.len() ==> (#[trigger] pieces[i]).len() > 0 && pieces[i] != seq![46u8],
    ensures
        names(pieces.take(count), 46u8) == pieces.subrange(1, count),
    decreases count,
{
    let some = pieces.take(count);
    assert(some.drop_last() =~= pieces.take(count - 1));
    if count == 1 {
        assert(!is_name(some, 0, 46u8));
        assert(names(some.drop_last(), 46u8) =~= Seq::empty());
        assert(names(some, 46u8) =~= pieces.subrange(1, 1));
    } else {
        lemma_names_behind_root(pieces, count - 1);
        assert(some[count - 1] == pieces[count - 1]);
        assert(is_name(some, count - 1, 46u8));
        assert(names(some, 46u8) =~= pieces.subrange(1, count));
    }
}

/// The place of a name behind the first names of a rooted path.
proof fn lemma_place_behind_root(pieces: Seq<Seq<u8>>, count: int)
    requires
        0 <= count < pieces.len() - 1,
        pieces[0].len() == 0,
        forall|i: int|
            1 <= i < pieces.len() ==> (#[trigger] pieces[i]).len() > 0 && pieces[i] != seq![46u8],
    ensures
        name_place(pieces, count, 46u8) == count + 1,
    decreases count,
{
    assert(!is_name(pieces, 0, 46u8));
    assert(is_name(pieces, count + 1, 46u8));
    if count > 0 {
        lemma_place_behind_root(pieces, count - 1);
    } else {
        assert(next_name(pieces, 1, 46u8) == 1);
        assert(next_name(pieces, 0, 46u8) == 1);
    }
}

/// The path of a file in its repository is what stands behind the working tree:
/// below a working tree at a plain place it is the rest of the path.
pub proof fn law_paths_are_relative_to_the_working_tree(place: Seq<u8>, rest: Seq<u8>)
    requires
        names_only(place),
        names_only(rest),
    ensures
        relative_path(
            seq![47u8] + place + seq![47u8] + rest,
            seq![47u8] + place,
        ) == rest,
        is_above(seq![47u8] + place, seq![47u8] + place + seq![47u8] + rest),
{
    let slash = 47u8;
    let none = Seq::<u8>::empty();
    let root = seq![slash] + place;
    let path = seq![slash] + place + seq![slash] + rest;
    lemma_split_nonempty(place, slash);
    lemma_split_nonempty(rest, slash);
    assert(split(none, slash) =~= seq![none]);
    lemma_split_concat(none, place, slash);
    assert(none.push(slash) + place =~= root);
    let upper = split(root, slash);
    assert(upper =~= seq![none] + split(place, slash));
    lemma_split_concat(root, rest, slash);
    assert(root.push(slash) + rest =~= path);
    let pieces = split(path, slash);
    assert(pieces =~= upper + split(rest, slash));
    let n = upper.len() as int;
    assert forall|i: int| 1 <= i < pieces.len() implies (#[trigger] pieces[i]).len() > 0
        && pieces[i] != seq![46u8] by {
        if i < n {
            assert(pieces[i] == split(place, slash)[i - 1]);
        } else {
            assert(pieces[i] == split(rest, slash)[i - n]);
        }
    }
    assert forall|i: int| 1 <= i < upper.len() implies (#[trigger] upper[i]).len() > 0 && upper[i]
        != seq![46u8] by {
        assert(upper[i] == split(place, slash)[i - 1]);
    }
    lemma_names_behind_root(upper, n);
    lemma_names_behind_root(pieces, pieces.len() as int);
    assert(upper.take(n) =~= upper);
    assert(pieces.take(pieces.len() as int) =~= pieces);
    assert(byte_components(root) =~= seq![seq![slash]] + upper.subrange(1, n));
    assert(byte_components(path) =~= seq![seq![slash]] + pieces.subrange(1, pieces.len() as int));
    assert(byte_components(path).subrange(0, byte_components(root).len() as int)
        =~= byte_components(root));
    assert(byte_components(root).len() == n);
    lemma_place_behind_root(pieces, n - 1);
    assert(is_name(pieces, pieces.len() - 1, 46u8));
    assert(last_name(pieces, pieces.len() as int, 46u8) == pieces.len() - 1);
    assert(pieces.subrange(n, pieces.len() as int) =~= split(rest, slash));
    law_join_undoes_split(rest, slash);
}

/// A file below a working tree belongs to a repository; of repositories with
/// working trees as near to it that is the last one.
pub proof fn law_files_below_working_trees_belong_to_one(
    repos: Seq<RecordModel>,
    path: Seq<u8>,
    j: int,
)
    requires
        0 <= j < repos.len(),
        is_above(root_of(repos[j]), path),
    ensures
        exists|i: int| #[trigger] owns(repos, path, i),
        forall|i: int| #[trigger]
            owns(repos, path, i) ==> byte_components(root_of(repos[j])).len() < byte_components(
                root_of(repos[i]),
            ).len() || (byte_components(root_of(repos[j])).len() == byte_components(
                root_of(repos[i]),
            ).len() && j <= i),
    decreases repos.len(),
{
    if j < repos.len() - 1 {
        let fewer = repos.drop_last();
        assert(fewer[j] == repos[j]);
        law_files_below_working_trees_belong_to_one(fewer, path, j);
        let best = choose|i: int| #[trigger] owns(fewer, path, i);
        let last = repos.len() - 1;
        assert(fewer[best] == repos[best]);
        assert forall|n: int| 0 <= n < fewer.len() implies fewer[n] == #[trigger] repos[n] by {}
        let nearer = is_above(root_of(repos[last]), path) && byte_components(
            root_of(repos[best]),
        ).len() <= byte_components(root_of(repos[last])).len();
        if nearer {
            assert(owns(repos, path, last)) by {
                assert forall|n: int|
                    0 <= n < repos.len() && is_above(root_of(#[trigger] repos[n]), path) implies {
                    let own = byte_components(root_of(repos[last])).len();
                    let other = byte_components(root_of(repos[n])).len();
                    other < own || other == own && n <= last
                } by {
                    if n < last {
                        assert(is_above(root_of(fewer[n]), path));
                    }
                }
            }
        } else {
            assert(owns(repos, path, best)) by {
                assert forall|n: int|
                    0 <= n < repos.len() && is_above(root_of(#[trigger] repos[n]), path) implies {
                    let own = byte_components(root_of(repos[best])).len();
                    let other = byte_components(root_of(repos[n])).len();
                    other < own || other == own && n <= best
                } by {
                    if n < last {
                        assert(is_above(root_of(fewer[n]), path));
                    }
                }
            }
        }
    } else if exists|n: int|
        0 <= n < j && is_above(root_of(#[trigger] repos[n]), path) && byte_components(
            root_of(repos[n]),
        ).len() > byte_components(root_of(repos[j])).len() {
        let n = choose|n: int|
            0 <= n < j && is_above(root_of(#[trigger] repos[n]), path) && byte_components(
                root_of(repos[n]),
            ).len() > byte_components(root_of(repos[j])).len();
        let fewer = repos.drop_last();
        assert(fewer[n] == repos[n]);
        law_files_below_working_trees_belong_to_one(fewer, path, n);
        let best = choose|i: int| #[trigger] owns(fewer, path, i);
        assert(fewer[best] == repos[best]);
        assert(owns(repos, path, best)) by {
            assert forall|k: int|
                0 <= k < repos.len() && is_above(root_of(#[trigger] repos[k]), path) implies {
                let own = byte_components(root_of(repos[best])).len();
                let other = byte_components(root_of(repos[k])).len();
                other < own || other == own && k <= best
            } by {
                if k < j {
                    assert(fewer[k] == repos[k]);
                    assert(is_above(root_of(fewer[k]), path));
                }
            }
        }
    } else {
        assert(owns(repos, path, j));
    }
}

}

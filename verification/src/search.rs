//! Which files of which repositories are searched, and what is reported of
//! them.

use vstd::prelude::*;
use vstd::utf8::encode_utf8;

use crate::error::{Error, ErrorModel, Result, failure};
use crate::glob::{build_globs, globs_problem, set_matches, set_patterns, some_glob_matches};
use crate::model::{RecordModel, RepoRecord, records};
use crate::path::{
    behind_names, byte_components, bytes_begin, clone_bytes, path_behind_names,
    path_byte_components,
};
use crate::string_set::StringSet;
use crate::text::{after_prefix, begins, byte_lists, strip_prefix, texts};

verus! {

/// What a search reports.
#[derive(Clone, Copy, Debug, PartialEq, Eq, Structural)]
pub enum SearchOutputMode {
    /// Every matching line.
    Matches,
    /// Every file with a match.
    FilesWithMatches,
    /// Every repository with a match.
    ReposWithMatches,
    /// The number of matching lines of every file with a match.
    Count,
}

impl Default for SearchOutputMode {
    fn default() -> (mode: SearchOutputMode)
        ensures
            mode == SearchOutputMode::Matches,
    {
        SearchOutputMode::Matches
    }
}

/// What a pattern is.
#[derive(Clone, Copy, Debug, PartialEq, Eq, Structural)]
pub enum PatternKind {
    /// A regular expression.
    Regex,
    /// A text that stands for itself.
    Fixed,
}

impl Default for PatternKind {
    fn default() -> (kind: PatternKind)
        ensures
            kind == PatternKind::Regex,
    {
        PatternKind::Regex
    }
}

/// How a search treats upper and lower case.
#[derive(Clone, Copy, Debug, PartialEq, Eq, Structural)]
pub enum CaseMode {
    /// They differ.
    Sensitive,
    /// They do not.
    Insensitive,
    /// They differ if the pattern has upper case.
    Smart,
}

impl Default for CaseMode {
    fn default() -> (case: CaseMode)
        ensures
            case == CaseMode::Sensitive,
    {
        CaseMode::Sensitive
    }
}

/// What to search for, where, and how. Paths are given by their bytes.
#[derive(Clone, Debug)]
pub struct SearchOptions {
    pub pattern: String,
    pub pattern_kind: PatternKind,
    pub case: CaseMode,
    pub word: bool,
    pub before_context: usize,
    pub after_context: usize,
    pub globs: Vec<String>,
    pub path_prefixes: Vec<Vec<u8>>,
    pub threads: usize,
    pub output_mode: SearchOutputMode,
}

impl Default for SearchOptions {
    fn default() -> (options: SearchOptions)
        ensures
            options.pattern@ == Seq::<char>::empty(),
            options.pattern_kind == PatternKind::Regex,
            options.case == CaseMode::Sensitive,
            !options.word,
            options.before_context == 0,
            options.after_context == 0,
            options.globs@.len() == 0,
            options.path_prefixes@.len() == 0,
            options.threads == 0,
            options.output_mode == SearchOutputMode::Matches,
    {
        SearchOptions {
            pattern: String::new(),
            pattern_kind: PatternKind::Regex,
            case: CaseMode::Sensitive,
            word: false,
            before_context: 0,
            after_context: 0,
            globs: Vec::new(),
            path_prefixes: Vec::new(),
            threads: 0,
            output_mode: SearchOutputMode::Matches,
        }
    }
}

/// Something that a search reports.
#[derive(Clone, Debug, PartialEq, Eq)]
#[allow(inconsistent_fields)]
pub enum SearchEvent {
    /// A line that matches, or one around it.
    Match(MatchEvent),
    /// A file with a match.
    File { repo: String, path: Vec<u8> },
    /// A repository with a match.
    Repo { repo: String },
    /// The number of matching lines of a file.
    Count { repo: String, path: Vec<u8>, count: u64 },
    /// Something that could not be searched.
    Error { path: Option<Vec<u8>>, message: String },
}

/// A line that matches, or one around it.
#[derive(Clone, Debug, PartialEq, Eq)]
pub struct MatchEvent {
    pub repo: String,
    /// The path of the file in the repository.
    pub path: Vec<u8>,
    pub line: u64,
    /// The place of the first match in the line, counted from one.
    pub column: Option<usize>,
    /// The line without its end.
    pub text: Vec<u8>,
    pub submatches: Vec<Submatch>,
    /// Whether the line is one around a match.
    pub context: bool,
}

/// A match in a line, by the places of its bytes.
#[derive(Clone, Copy, Debug, PartialEq, Eq, Structural)]
pub struct Submatch {
    pub start: usize,
    pub end: usize,
}

/// How much a search found.
#[derive(Clone, Copy, Debug, PartialEq, Eq, Structural)]
pub struct SearchStats {
    /// The number of matching lines.
    pub matches: u64,
    /// The number of errors.
    pub errors: u64,
}

impl Default for SearchStats {
    fn default() -> (stats: SearchStats)
        ensures
            stats.matches == 0,
            stats.errors == 0,
    {
        SearchStats { matches: 0, errors: 0 }
    }
}

/// Which repositories are meant. A category without values does not restrict
/// them.
#[derive(Clone, Debug)]
pub struct RepoFilter {
    pub repo_globs: Vec<String>,
    pub sources: StringSet,
    pub tags: StringSet,
}

impl Default for RepoFilter {
    fn default() -> (filter: RepoFilter)
        ensures
            filter.repo_globs@.len() == 0,
            filter.sources@ == Set::<Seq<char>>::empty(),
            filter.tags@ == Set::<Seq<char>>::empty(),
    {
        RepoFilter { repo_globs: Vec::new(), sources: StringSet::new(), tags: StringSet::new() }
    }
}

/// Whether a category of a filter lets a repository with some values through.
pub open spec fn category_allows(wanted: Set<Seq<char>>, values: Set<Seq<char>>) -> bool {
    wanted == Set::<Seq<char>>::empty() || !values.disjoint(wanted)
}

/// Whether a filter lets a repository through, given whether one of its globs
/// matches the identifier: every category has to, and each does so by any one
/// of its values.
pub open spec fn filter_allows(filter: RepoFilter, glob_found: bool, repo: RecordModel) -> bool {
    &&& filter.repo_globs@.len() == 0 || glob_found
    &&& category_allows(filter.sources@, repo.sources)
    &&& category_allows(filter.tags@, repo.tags)
}

/// Whether a filter lets a repository through.
pub open spec fn selected(filter: RepoFilter, repo: RecordModel) -> bool {
    filter_allows(
        filter,
        some_glob_matches(texts(filter.repo_globs@), encode_utf8(repo.id)),
        repo,
    )
}

/// Whether a filter lets a repository through, given whether one of its globs
/// matches the identifier.
pub fn filter_lets_through(filter: &RepoFilter, glob_found: bool, repo: &RepoRecord) -> (through:
    bool)
    ensures
        through == filter_allows(*filter, glob_found, repo@),
{
    (filter.repo_globs.len() == 0 || glob_found) && (filter.sources.is_empty()
        || repo.sources.meets(&filter.sources)) && (filter.tags.is_empty() || repo.tags.meets(
        &filter.tags,
    ))
}

/// The repositories that a filter lets through, in their order.
pub fn select_repos(repos: Vec<RepoRecord>, filter: &RepoFilter) -> (list: Result<Vec<RepoRecord>>)
    ensures
        failure(list) == globs_problem(texts(filter.repo_globs@)),
        filter.repo_globs@.len() == 0 ==> list is Ok,
        list matches Ok(list) ==> records(list@) == records(repos@).filter(
            |repo: RecordModel| selected(*filter, repo),
        ),
{
    let globs = match build_globs(&filter.repo_globs) {
        Ok(globs) => globs,
        Err(error) => return Err(error),
    };
    let ghost all = records(repos@);
    let ghost keep = |repo: RecordModel| selected(*filter, repo);
    let mut list: Vec<RepoRecord> = Vec::new();
    proof {
        reveal(Seq::filter);
        assert(records(list@) =~= all.take(0).filter(keep));
    }
    for repo in it: repos
        invariant
            it.seq() == repos@,
            all == records(repos@),
            set_patterns(globs) == texts(filter.repo_globs@),
            keep == (|repo: RecordModel| selected(*filter, repo)),
            records(list@) == all.take(it.index() as int).filter(keep),
    {
        let ghost at = it.index() as int;
        let ghost earlier = list@;
        proof {
            reveal(Seq::filter);
            assert(all.take(at + 1).drop_last() =~= all.take(at));
            assert(all.take(at + 1).last() == repo@);
        }
        let glob_found = set_matches(&globs, repo.id.as_str().as_bytes());
        if filter_lets_through(filter, glob_found, &repo) {
            list.push(repo);
            proof {
                assert(records(list@) =~= records(earlier).push(repo@));
            }
        }
    }
    proof {
        assert(all.take(all.len() as int) =~= all);
    }
    Ok(list)
}

/// A compiled pattern of `grep-regex`.
#[verifier::external_type_specification]
#[verifier::external_body]
pub struct ExRegexMatcher(grep_regex::RegexMatcher);

/// A pattern and how it is meant.
pub struct PatternModel {
    pub text: Seq<char>,
    pub fixed: bool,
    pub insensitive: bool,
    pub smart: bool,
    pub word: bool,
}

/// The pattern of which a compiled pattern was made.
pub uninterp spec fn matcher_pattern(matcher: grep_regex::RegexMatcher) -> PatternModel;

/// The message with which `RegexMatcherBuilder::build` refuses a pattern; none
/// if it can be compiled.
pub uninterp spec fn pattern_problem(pattern: PatternModel) -> Option<Seq<char>>;

/// The places of the matches of a pattern in a line, one behind the other.
pub uninterp spec fn line_matches(pattern: PatternModel, line: Seq<u8>) -> Seq<Submatch>;

/// `grep_regex::RegexMatcherBuilder::build`: compiles a pattern, or gives the
/// message of the error. `fixed_strings`, `case_insensitive`, `case_smart` and
/// `word` say how the pattern is meant; all else is left at its default.
#[verifier::external_body]
fn compile(
    pattern: &str,
    fixed: bool,
    insensitive: bool,
    smart: bool,
    word: bool,
) -> (matcher: std::result::Result<grep_regex::RegexMatcher, String>)
    ensures
        match matcher {
            Ok(matcher) => {
                let model = PatternModel { text: pattern@, fixed, insensitive, smart, word };
                pattern_problem(model) is None && matcher_pattern(matcher) == model
            },
            Err(message) => pattern_problem(
                PatternModel { text: pattern@, fixed, insensitive, smart, word },
            ) == Some(message@),
        },
{
    let mut builder = grep_regex::RegexMatcherBuilder::new();
    builder.fixed_strings(fixed).case_insensitive(insensitive).case_smart(smart).word(word);
    builder.build(pattern).map_err(|error| error.to_string())
}

/// Whether matches lie in a line, one behind the other.
pub open spec fn in_line(matches: Seq<Submatch>, line: Seq<u8>) -> bool {
    &&& forall|i: int|
        0 <= i < matches.len() ==> (#[trigger] matches[i]).start <= matches[i].end <= line.len()
    &&& forall|i: int, j: int| 0 <= i < j < matches.len() ==> matches[i].end <= matches[j].start
}

/// Whether the matches of a fixed pattern are occurrences of its text.
pub open spec fn literal_matches(
    pattern: PatternModel,
    matches: Seq<Submatch>,
    line: Seq<u8>,
) -> bool {
    pattern.fixed && !pattern.insensitive && !pattern.smart ==> forall|i: int|
        0 <= i < matches.len() ==> line.subrange(
            (#[trigger] matches[i]).start as int,
            matches[i].end as int,
        ) == encode_utf8(pattern.text)
}

/// `find_iter` of `grep_matcher::Matcher` for a compiled pattern: the places of
/// its successive non-overlapping matches in a line. Those of a fixed pattern
/// that minds the case are occurrences of its text.
#[verifier::external_body]
fn find_matches(matcher: &grep_regex::RegexMatcher, line: &[u8]) -> (matches: Vec<Submatch>)
    ensures
        matches@ == line_matches(matcher_pattern(*matcher), line@),
        in_line(matches@, line@),
        literal_matches(matcher_pattern(*matcher), matches@, line@),
{
    let mut matches = Vec::new();
    let _ = grep_matcher::Matcher::find_iter(
        matcher,
        line,
        |found| {
            matches.push(Submatch { start: found.start(), end: found.end() });
            true
        },
    );
    matches
}

/// The pattern of some options.
pub open spec fn pattern_of(options: SearchOptions) -> PatternModel {
    PatternModel {
        text: options.pattern@,
        fixed: options.pattern_kind == PatternKind::Fixed,
        insensitive: options.case == CaseMode::Insensitive,
        smart: options.case == CaseMode::Smart,
        word: options.word,
    }
}

/// Compiles the pattern of some options.
pub fn build_matcher(options: &SearchOptions) -> (matcher: Result<grep_regex::RegexMatcher>)
    ensures
        match matcher {
            Ok(matcher) => {
                &&& pattern_problem(pattern_of(*options)) is None
                &&& matcher_pattern(matcher) == pattern_of(*options)
            },
            Err(error) => pattern_problem(pattern_of(*options)) matches Some(message) && error@
                == ErrorModel::Search(message),
        },
{
    let fixed = match options.pattern_kind {
        PatternKind::Regex => false,
        PatternKind::Fixed => true,
    };
    let (insensitive, smart) = match options.case {
        CaseMode::Sensitive => (false, false),
        CaseMode::Insensitive => (true, false),
        CaseMode::Smart => (false, true),
    };
    match compile(options.pattern.as_str(), fixed, insensitive, smart, options.word) {
        Ok(matcher) => Ok(matcher),
        Err(message) => Err(Error::Search(message)),
    }
}

/// The globs that a path has to match.
pub open spec fn including(globs: Seq<Seq<char>>) -> Seq<Seq<char>>
    decreases globs.len(),
{
    if globs.len() == 0 {
        Seq::empty()
    } else {
        let earlier = including(globs.drop_last());
        if begins(globs.last(), "!"@) {
            earlier
        } else {
            earlier.push(globs.last())
        }
    }
}

/// The globs that a path must not match: those behind an exclamation mark.
pub open spec fn excluding(globs: Seq<Seq<char>>) -> Seq<Seq<char>>
    decreases globs.len(),
{
    if globs.len() == 0 {
        Seq::empty()
    } else {
        let earlier = excluding(globs.drop_last());
        match after_prefix(globs.last(), "!"@) {
            Some(glob) => earlier.push(glob),
            None => earlier,
        }
    }
}

/// Which files of a repository are searched.
pub struct PathFilter {
    includes: globset::GlobSet,
    excludes: globset::GlobSet,
    has_includes: bool,
    prefixes: Vec<Vec<u8>>,
}

/// Whether a path is one of some paths or lies below one.
pub open spec fn below_some(path: Seq<u8>, prefixes: Seq<Seq<u8>>) -> bool {
    exists|i: int|
        0 <= i < prefixes.len() && begins(
            byte_components(path),
            byte_components(#[trigger] prefixes[i]),
        )
}

/// Whether a file is searched, given whether it matches a glob that includes
/// and one that excludes.
pub open spec fn path_allowed(
    has_prefixes: bool,
    below_prefix: bool,
    has_includes: bool,
    included: bool,
    excluded: bool,
) -> bool {
    (!has_prefixes || below_prefix) && (!has_includes || included) && !excluded
}

/// Whether a file is searched, given whether it matches a glob that includes
/// and one that excludes.
pub fn allows_path(
    prefixes: &Vec<Vec<u8>>,
    has_includes: bool,
    included: bool,
    excluded: bool,
    path: &[u8],
) -> (allowed: bool)
    ensures
        allowed == path_allowed(
            prefixes@.len() > 0,
            below_some(path@, byte_lists(prefixes@)),
            has_includes,
            included,
            excluded,
        ),
{
    let names = path_byte_components(path);
    let mut below = false;
    let mut i: usize = 0;
    while i < prefixes.len() && !below
        invariant
            i <= prefixes@.len(),
            byte_lists(names@) == byte_components(path@),
            below ==> below_some(path@, byte_lists(prefixes@)),
            !below ==> forall|j: int|
                0 <= j < i ==> !begins(
                    byte_components(path@),
                    byte_components(#[trigger] byte_lists(prefixes@)[j]),
                ),
        decreases prefixes@.len() - i,
    {
        let prefix = path_byte_components(prefixes[i].as_slice());
        proof {
            assert(byte_lists(prefixes@)[i as int] == prefixes@[i as int]@);
        }
        below = bytes_begin(&names, &prefix);
        i += 1;
    }
    (prefixes.len() == 0 || below) && (!has_includes || included) && !excluded
}

impl PathFilter {
    /// The globs that a path has to match.
    pub closed spec fn include_patterns(self) -> Seq<Seq<char>> {
        set_patterns(self.includes)
    }

    /// The globs that a path must not match.
    pub closed spec fn exclude_patterns(self) -> Seq<Seq<char>> {
        set_patterns(self.excludes)
    }

    /// Where the files have to lie.
    pub closed spec fn places(self) -> Seq<Seq<u8>> {
        byte_lists(self.prefixes@)
    }

    #[verifier::type_invariant]
    spec fn counts_includes(self) -> bool {
        self.has_includes == (set_patterns(self.includes).len() > 0)
    }

    /// Which files some globs and paths select. A glob behind an exclamation
    /// mark excludes files.
    pub fn new(globs: &Vec<String>, prefixes: &Vec<Vec<u8>>) -> (filter: Result<PathFilter>)
        ensures
            match filter {
                Ok(filter) => {
                    &&& globs_problem(including(texts(globs@))) is None
                    &&& globs_problem(excluding(texts(globs@))) is None
                    &&& filter.include_patterns() == including(texts(globs@))
                    &&& filter.exclude_patterns() == excluding(texts(globs@))
                    &&& filter.places() == byte_lists(prefixes@)
                },
                Err(error) => match globs_problem(including(texts(globs@))) {
                    Some(problem) => error@ == problem,
                    None => globs_problem(excluding(texts(globs@))) == Some(error@),
                },
            },
            globs@.len() == 0 ==> filter is Ok,
    {
        let ghost all = texts(globs@);
        let mut wanted: Vec<String> = Vec::new();
        let mut unwanted: Vec<String> = Vec::new();
        let mut i: usize = 0;
        proof {
            assert(all.take(0) =~= Seq::empty());
            assert(texts(wanted@) =~= including(all.take(0)));
            assert(texts(unwanted@) =~= excluding(all.take(0)));
        }
        while i < globs.len()
            invariant
                i <= globs@.len(),
                all == texts(globs@),
                texts(wanted@) == including(all.take(i as int)),
                texts(unwanted@) == excluding(all.take(i as int)),
                wanted@.len() + unwanted@.len() <= i,
            decreases globs@.len() - i,
        {
            let glob = globs[i].as_str();
            let ghost earlier_wanted = wanted@;
            let ghost earlier_unwanted = unwanted@;
            proof {
                assert(all.take(i + 1).drop_last() =~= all.take(i as int));
                assert(all.take(i + 1).last() == glob@);
            }
            match strip_prefix(glob, "!") {
                Some(rest) => {
                    unwanted.push(rest);
                    proof {
                        assert(texts(unwanted@) =~= texts(earlier_unwanted).push(rest@));
                    }
                },
                None => {
                    wanted.push(glob.to_owned());
                    proof {
                        assert(texts(wanted@) =~= texts(earlier_wanted).push(glob@));
                    }
                },
            }
            i += 1;
        }
        proof {
            assert(all.take(all.len() as int) =~= all);
        }
        let includes = match build_globs(&wanted) {
            Ok(set) => set,
            Err(error) => return Err(error),
        };
        let excludes = match build_globs(&unwanted) {
            Ok(set) => set,
            Err(error) => return Err(error),
        };
        let mut copies: Vec<Vec<u8>> = Vec::new();
        let mut k: usize = 0;
        while k < prefixes.len()
            invariant
                k <= prefixes@.len(),
                copies@.len() == k,
                forall|j: int| 0 <= j < k ==> (#[trigger] copies@[j])@ == prefixes@[j]@,
            decreases prefixes@.len() - k,
        {
            copies.push(clone_bytes(&prefixes[k]));
            k += 1;
        }
        proof {
            assert(byte_lists(copies@) =~= byte_lists(prefixes@));
        }
        Ok(PathFilter { includes, excludes, has_includes: wanted.len() > 0, prefixes: copies })
    }

    /// Whether a file is searched. The path is that of the file in its
    /// repository.
    pub fn matches(&self, path: &[u8]) -> (found: bool)
        ensures
            found == path_allowed(
                self.places().len() > 0,
                below_some(path@, self.places()),
                self.include_patterns().len() > 0,
                some_glob_matches(self.include_patterns(), path@),
                some_glob_matches(self.exclude_patterns(), path@),
            ),
    {
        proof {
            use_type_invariant(self);
        }
        let included = set_matches(&self.includes, path);
        let excluded = set_matches(&self.excludes, path);
        allows_path(&self.prefixes, self.has_includes, included, excluded, path)
    }
}

/// Whether a directory is a file's own path or one of the directories above it.
pub open spec fn is_above(root: Seq<u8>, path: Seq<u8>) -> bool {
    &&& begins(byte_components(path), byte_components(root))
    &&& path.len() > 0 && path[0] == 47u8 ==> byte_components(root).len() > 0
}

/// The bytes of the working tree of a repository.
pub open spec fn root_of(repo: RecordModel) -> Seq<u8> {
    encode_utf8(repo.local_path)
}

/// Whether a repository is the one that a file belongs to: its working tree is
/// the nearest directory above the file that is one. Of repositories with the
/// same working tree the last one counts.
pub open spec fn owns(repos: Seq<RecordModel>, path: Seq<u8>, i: int) -> bool {
    &&& 0 <= i < repos.len()
    &&& is_above(root_of(repos[i]), path)
    &&& forall|j: int|
        0 <= j < repos.len() && is_above(root_of(#[trigger] repos[j]), path) ==> {
            let own = byte_components(root_of(repos[i])).len();
            let other = byte_components(root_of(repos[j])).len();
            other < own || other == own && j <= i
        }
}

/// The repository that a file belongs to, if there is one, by its place in the
/// list.
pub fn find_repo(path: &[u8], repos: &Vec<RepoRecord>) -> (place: Option<usize>)
    ensures
        match place {
            Some(i) => owns(records(repos@), path@, i as int),
            None => forall|j: int|
                0 <= j < repos@.len() ==> !is_above(
                    root_of(#[trigger] records(repos@)[j]),
                    path@,
                ),
        },
{
    let ghost all = records(repos@);
    let names = path_byte_components(path);
    let rooted = path.len() > 0 && path[0] == 47;
    let mut best: Option<usize> = None;
    let mut length: usize = 0;
    let mut i: usize = 0;
    while i < repos.len()
        invariant
            i <= repos@.len(),
            all == records(repos@),
            byte_lists(names@) == byte_components(path@),
            rooted == (path@.len() > 0 && path@[0] == 47u8),
            match best {
                Some(b) => {
                    &&& b < i
                    &&& is_above(root_of(all[b as int]), path@)
                    &&& length == byte_components(root_of(all[b as int])).len()
                    &&& forall|j: int|
                        0 <= j < i && is_above(root_of(#[trigger] all[j]), path@) ==> {
                            let other = byte_components(root_of(all[j])).len();
                            other < length || other == length && j <= b
                        }
                },
                None => forall|j: int|
                    0 <= j < i ==> !is_above(root_of(#[trigger] all[j]), path@),
            },
        decreases repos@.len() - i,
    {
        proof {
            assert(all[i as int] == repos@[i as int]@);
        }
        let root = path_byte_components(repos[i].local_path.as_str().as_bytes());
        proof {
            assert(byte_lists(root@).len() == root@.len());
        }
        if bytes_begin(&names, &root) && (!rooted || root.len() > 0) {
            let nearer = match best {
                Some(_) => root.len() >= length,
                None => true,
            };
            if nearer {
                best = Some(i);
                length = root.len();
            }
        }
        i += 1;
    }
    best
}

/// What is left of a path below a directory above it.
pub open spec fn relative_path(path: Seq<u8>, root: Seq<u8>) -> Seq<u8> {
    let count = byte_components(root).len();
    behind_names(
        path,
        if path.len() > 0 && path[0] == 47u8 {
            count - 1
        } else {
            count as int
        },
    )
}

/// Whether a directory is entered: every one but that of Git's own files.
pub fn enters_directory(name: &[u8]) -> (entered: bool)
    ensures
        entered == (name@ != encode_utf8(".git"@)),
{
    let own = ".git".as_bytes();
    if name.len() != own.len() {
        return true;
    }
    let mut i: usize = 0;
    while i < name.len()
        invariant
            i <= name@.len(),
            own@ == encode_utf8(".git"@),
            name@.len() == own@.len(),
            forall|j: int| 0 <= j < i ==> name@[j] == own@[j],
        decreases name@.len() - i,
    {
        if name[i] != own[i] {
            return true;
        }
        i += 1;
    }
    proof {
        assert(name@ =~= own@);
    }
    false
}

/// A line without its end: a line feed, and a carriage return before it.
pub open spec fn line_text(line: Seq<u8>) -> Seq<u8> {
    let first = if line.len() > 0 && line.last() == 10u8 {
        line.drop_last()
    } else {
        line
    };
    if first.len() > 0 && first.last() == 13u8 {
        first.drop_last()
    } else {
        first
    }
}

/// A line without its end.
pub fn trim_line_ending(bytes: &[u8]) -> (text: Vec<u8>)
    ensures
        text@ == line_text(bytes@),
{
    let mut end: usize = bytes.len();
    if end > 0 && bytes[end - 1] == 10 {
        end -= 1;
    }
    if end > 0 && bytes[end - 1] == 13 {
        end -= 1;
    }
    let mut text: Vec<u8> = Vec::new();
    let mut i: usize = 0;
    while i < end
        invariant
            i <= end <= bytes@.len(),
            text@ =~= bytes@.take(i as int),
        decreases end - i,
    {
        text.push(bytes[i]);
        i += 1;
    }
    proof {
        assert(text@ =~= line_text(bytes@));
    }
    text
}

/// What a search has found so far, over all files.
#[derive(Debug)]
pub struct Findings {
    /// The repositories that were reported.
    pub reported: StringSet,
    pub stats: SearchStats,
}

impl Findings {
    /// Nothing.
    pub fn new() -> (findings: Findings)
        ensures
            findings.reported@ == Set::<Seq<char>>::empty(),
            findings.stats == (SearchStats { matches: 0, errors: 0 }),
    {
        Findings { reported: StringSet::new(), stats: SearchStats { matches: 0, errors: 0 } }
    }

    /// Notes that something could not be searched.
    pub fn failed(&mut self, path: Option<Vec<u8>>, message: String) -> (event: SearchEvent)
        ensures
            final(self).reported@ == old(self).reported@,
            final(self).stats == (SearchStats {
                errors: if old(self).stats.errors < u64::MAX {
                    (old(self).stats.errors + 1) as u64
                } else {
                    u64::MAX
                },
                ..old(self).stats
            }),
            event == (SearchEvent::Error { path, message }),
    {
        self.stats = SearchStats {
            matches: self.stats.matches,
            errors: self.stats.errors.saturating_add(1),
        };
        SearchEvent::Error { path, message }
    }
}

/// A file that is searched.
#[derive(Debug)]
pub struct FileSearch {
    /// The repository of the file.
    pub repo: String,
    /// The path of the file in its repository.
    pub path: Vec<u8>,
    /// What is reported.
    pub mode: SearchOutputMode,
    /// The number of matching lines so far.
    pub count: u64,
}

/// Something that a search reports, with its texts as characters and bytes.
#[allow(inconsistent_fields)]
pub enum EventModel {
    Match(MatchModel),
    File { repo: Seq<char>, path: Seq<u8> },
    Repo { repo: Seq<char> },
    Count { repo: Seq<char>, path: Seq<u8>, count: u64 },
    Error { path: Option<Seq<u8>>, message: Seq<char> },
}

/// A line that is reported, with its texts as characters and bytes.
pub struct MatchModel {
    pub repo: Seq<char>,
    pub path: Seq<u8>,
    pub line: u64,
    pub column: Option<usize>,
    pub text: Seq<u8>,
    pub submatches: Seq<Submatch>,
    pub context: bool,
}

impl View for MatchEvent {
    type V = MatchModel;

    open spec fn view(&self) -> MatchModel {
        MatchModel {
            repo: self.repo@,
            path: self.path@,
            line: self.line,
            column: self.column,
            text: self.text@,
            submatches: self.submatches@,
            context: self.context,
        }
    }
}

impl View for SearchEvent {
    type V = EventModel;

    open spec fn view(&self) -> EventModel {
        match self {
            SearchEvent::Match(found) => EventModel::Match(found@),
            SearchEvent::File { repo, path } => EventModel::File { repo: repo@, path: path@ },
            SearchEvent::Repo { repo } => EventModel::Repo { repo: repo@ },
            SearchEvent::Count { repo, path, count } => EventModel::Count {
                repo: repo@,
                path: path@,
                count: *count,
            },
            SearchEvent::Error { path, message } => EventModel::Error {
                path: match path {
                    Some(path) => Some(path@),
                    None => None,
                },
                message: message@,
            },
        }
    }
}

/// An event that there may be.
pub open spec fn event_model(event: Option<SearchEvent>) -> Option<EventModel> {
    match event {
        Some(event) => Some(event@),
        None => None,
    }
}

/// The number of a line; zero where it is not known.
pub open spec fn line_number(line: Option<u64>) -> u64 {
    match line {
        Some(line) => line,
        None => 0,
    }
}

/// The line that is reported for a match.
pub open spec fn matched_line(
    file: FileSearch,
    line: Option<u64>,
    bytes: Seq<u8>,
    submatches: Seq<Submatch>,
) -> MatchModel {
    MatchModel {
        repo: file.repo@,
        path: file.path@,
        line: line_number(line),
        column: if submatches.len() > 0 {
            Some((submatches[0].start + 1) as usize)
        } else {
            None
        },
        text: line_text(bytes),
        submatches,
        context: false,
    }
}

/// What is reported for a matching line, and whether the search of the file
/// goes on: a file or repository is reported at its first match only.
pub open spec fn match_report(
    file: FileSearch,
    reported: Set<Seq<char>>,
    line: Option<u64>,
    bytes: Seq<u8>,
    submatches: Seq<Submatch>,
) -> (Option<EventModel>, bool) {
    match file.mode {
        SearchOutputMode::Matches => (
            Some(EventModel::Match(matched_line(file, line, bytes, submatches))),
            true,
        ),
        SearchOutputMode::FilesWithMatches => (
            Some(EventModel::File { repo: file.repo@, path: file.path@ }),
            false,
        ),
        SearchOutputMode::ReposWithMatches => (
            if reported.contains(file.repo@) {
                None
            } else {
                Some(EventModel::Repo { repo: file.repo@ })
            },
            false,
        ),
        SearchOutputMode::Count => (None, true),
    }
}

/// The number of lines once there is one more.
pub open spec fn one_more(count: u64) -> u64 {
    if count < u64::MAX {
        (count + 1) as u64
    } else {
        u64::MAX
    }
}

impl FileSearch {
    /// Notes a matching line of the file whose matches are given, and says what
    /// is reported and whether the search of the file goes on.
    pub fn report_match(
        &mut self,
        findings: &mut Findings,
        line: Option<u64>,
        bytes: &[u8],
        submatches: Vec<Submatch>,
    ) -> (report: (Option<SearchEvent>, bool))
        requires
            submatches@.len() > 0 ==> submatches@[0].start < usize::MAX,
        ensures
            *final(self) == (FileSearch { count: one_more(old(self).count), ..*old(self) }),
            final(findings).stats == (SearchStats {
                matches: one_more(old(findings).stats.matches),
                ..old(findings).stats
            }),
            final(findings).reported@ == (if old(self).mode == SearchOutputMode::ReposWithMatches {
                old(findings).reported@.insert(old(self).repo@)
            } else {
                old(findings).reported@
            }),
            (event_model(report.0), report.1) == match_report(
                *old(self),
                old(findings).reported@,
                line,
                bytes@,
                submatches@,
            ),
    {
        self.count = self.count.saturating_add(1);
        findings.stats = SearchStats {
            matches: findings.stats.matches.saturating_add(1),
            errors: findings.stats.errors,
        };
        match self.mode {
            SearchOutputMode::Matches => {
                let column = if submatches.len() > 0 {
                    Some(submatches[0].start + 1)
                } else {
                    None
                };
                let event = MatchEvent {
                    repo: self.repo.clone(),
                    path: clone_bytes(&self.path),
                    line: match line {
                        Some(line) => line,
                        None => 0,
                    },
                    column,
                    text: trim_line_ending(bytes),
                    submatches,
                    context: false,
                };
                (Some(SearchEvent::Match(event)), true)
            },
            SearchOutputMode::FilesWithMatches => (
                Some(
                    SearchEvent::File { repo: self.repo.clone(), path: clone_bytes(&self.path) },
                ),
                false,
            ),
            SearchOutputMode::ReposWithMatches => {
                let first = findings.reported.insert(self.repo.clone());
                let event = if first {
                    Some(SearchEvent::Repo { repo: self.repo.clone() })
                } else {
                    None
                };
                (event, false)
            },
            SearchOutputMode::Count => (None, true),
        }
    }

    /// Notes a matching line of the file, and says what is reported and whether
    /// the search of the file goes on.
    pub fn matched(
        &mut self,
        findings: &mut Findings,
        matcher: &grep_regex::RegexMatcher,
        line: Option<u64>,
        bytes: &[u8],
    ) -> (report: (Option<SearchEvent>, bool))
        requires
            bytes@.len() < usize::MAX,
        ensures
            *final(self) == (FileSearch { count: one_more(old(self).count), ..*old(self) }),
            final(findings).stats == (SearchStats {
                matches: one_more(old(findings).stats.matches),
                ..old(findings).stats
            }),
            final(findings).reported@ == (if old(self).mode == SearchOutputMode::ReposWithMatches {
                old(findings).reported@.insert(old(self).repo@)
            } else {
                old(findings).reported@
            }),
            (event_model(report.0), report.1) == match_report(
                *old(self),
                old(findings).reported@,
                line,
                bytes@,
                line_matches(matcher_pattern(*matcher), line_text(bytes@)),
            ),
    {
        let submatches = match self.mode {
            SearchOutputMode::Matches => find_matches(matcher, trim_line_ending(bytes).as_slice()),
            _ => Vec::new(),
        };
        self.report_match(findings, line, bytes, submatches)
    }

    /// What is reported for a line around a match.
    pub fn context(&self, line: Option<u64>, bytes: &[u8]) -> (event: Option<SearchEvent>)
        ensures
            event_model(event) == (if self.mode == SearchOutputMode::Matches {
                Some(
                    EventModel::Match(
                        MatchModel {
                            repo: self.repo@,
                            path: self.path@,
                            line: line_number(line),
                            column: None,
                            text: line_text(bytes@),
                            submatches: Seq::empty(),
                            context: true,
                        },
                    ),
                )
            } else {
                None
            }),
    {
        if self.mode != SearchOutputMode::Matches {
            return None;
        }
        let event = MatchEvent {
            repo: self.repo.clone(),
            path: clone_bytes(&self.path),
            line: match line {
                Some(line) => line,
                None => 0,
            },
            column: None,
            text: trim_line_ending(bytes),
            submatches: Vec::new(),
            context: true,
        };
        proof {
            assert(event.submatches@ =~= Seq::empty());
        }
        Some(SearchEvent::Match(event))
    }

    /// What is reported at the end of the file.
    pub fn finish(&self) -> (event: Option<SearchEvent>)
        ensures
            event_model(event) == (if self.mode == SearchOutputMode::Count && self.count > 0 {
                Some(
                    EventModel::Count { repo: self.repo@, path: self.path@, count: self.count },
                )
            } else {
                None
            }),
    {
        if self.mode == SearchOutputMode::Count && self.count > 0 {
            Some(
                SearchEvent::Count {
                    repo: self.repo.clone(),
                    path: clone_bytes(&self.path),
                    count: self.count,
                },
            )
        } else {
            None
        }
    }
}

/// What keeps a search from being run: its pattern, or a glob for the files
/// that are searched or left out.
pub open spec fn options_problem(options: SearchOptions) -> Option<ErrorModel> {
    match pattern_problem(pattern_of(options)) {
        Some(message) => Some(ErrorModel::Search(message)),
        None => match globs_problem(including(texts(options.globs@))) {
            Some(problem) => Some(problem),
            None => globs_problem(excluding(texts(options.globs@))),
        },
    }
}

/// A search that can be run: its options are acceptable.
pub struct Search {
    /// The compiled pattern.
    pub matcher: grep_regex::RegexMatcher,
    /// Which files are searched.
    pub filter: PathFilter,
    /// What is reported.
    pub mode: SearchOutputMode,
}

impl Search {
    /// Whether this is the search of some options.
    pub open spec fn is_for(self, options: SearchOptions) -> bool {
        &&& matcher_pattern(self.matcher) == pattern_of(options)
        &&& self.filter.include_patterns() == including(texts(options.globs@))
        &&& self.filter.exclude_patterns() == excluding(texts(options.globs@))
        &&& self.filter.places() == byte_lists(options.path_prefixes@)
        &&& self.mode == options.output_mode
    }

    /// The search of some options.
    pub fn new(options: &SearchOptions) -> (search: Result<Search>)
        ensures
            match search {
                Ok(search) => options_problem(*options) is None && search.is_for(*options),
                Err(error) => options_problem(*options) == Some(error@),
            },
    {
        let matcher = match build_matcher(options) {
            Ok(matcher) => matcher,
            Err(error) => return Err(error),
        };
        let filter = match PathFilter::new(&options.globs, &options.path_prefixes) {
            Ok(filter) => filter,
            Err(error) => return Err(error),
        };
        Ok(Search { matcher, filter, mode: options.output_mode })
    }

    /// How a file is searched, if it is: it has to belong to one of the
    /// repositories and be selected, and if only repositories are reported,
    /// its repository must not have been reported before.
    pub fn file(&self, repos: &Vec<RepoRecord>, findings: &Findings, path: &[u8]) -> (file: Option<
        FileSearch,
    >)
        ensures
            match file {
                Some(file) => exists|i: int|
                    {
                        &&& #[trigger] owns(records(repos@), path@, i)
                        &&& self.searches(findings.reported@, records(repos@)[i], path@)
                        &&& file.repo@ == records(repos@)[i].id
                        &&& file.path@ == relative_path(path@, root_of(records(repos@)[i]))
                        &&& file.mode == self.mode
                        &&& file.count == 0
                    },
                None => forall|i: int| #[trigger]
                    owns(records(repos@), path@, i) ==> !self.searches(
                        findings.reported@,
                        records(repos@)[i],
                        path@,
                    ),
            },
    {
        let ghost all = records(repos@);
        let i = match find_repo(path, repos) {
            Some(i) => i,
            None => return None,
        };
        let repo = &repos[i];
        proof {
            assert(all[i as int] == repo@);
            assert forall|j: int| #[trigger] owns(all, path@, j) implies j == i by {
                assert(owns(all, path@, i as int));
                assert(is_above(root_of(all[j]), path@));
                assert(is_above(root_of(all[i as int]), path@));
            }
        }
        if self.mode == SearchOutputMode::ReposWithMatches && findings.reported.contains(
            repo.id.as_str(),
        ) {
            return None;
        }
        let root = path_byte_components(repo.local_path.as_str().as_bytes());
        proof {
            assert(byte_lists(root@).len() == root@.len());
        }
        let rooted = path.len() > 0 && path[0] == 47;
        let count: usize = if rooted {
            root.len() - 1
        } else {
            root.len()
        };
        let relative = path_behind_names(path, count);
        if !self.filter.matches(relative.as_slice()) {
            return None;
        }
        Some(FileSearch { repo: repo.id.clone(), path: relative, mode: self.mode, count: 0 })
    }

    /// Whether a file of a repository is searched.
    pub open spec fn searches(
        self,
        reported: Set<Seq<char>>,
        repo: RecordModel,
        path: Seq<u8>,
    ) -> bool {
        let relative = relative_path(path, root_of(repo));
        &&& !(self.mode == SearchOutputMode::ReposWithMatches && reported.contains(repo.id))
        &&& path_allowed(
            self.filter.places().len() > 0,
            below_some(relative, self.filter.places()),
            self.filter.include_patterns().len() > 0,
            some_glob_matches(self.filter.include_patterns(), relative),
            some_glob_matches(self.filter.exclude_patterns(), relative),
        )
    }
}

/// The search of some repositories. Without repositories there is none to make,
/// but the options have to be good all the same.
pub fn search(repos: &Vec<RepoRecord>, options: &SearchOptions) -> (started: Result<Option<Search>>)
    ensures
        match started {
            Ok(None) => repos@.len() == 0 && options_problem(*options) is None,
            Ok(Some(search)) => {
                &&& repos@.len() > 0
                &&& options_problem(*options) is None
                &&& search.is_for(*options)
            },
            Err(error) => options_problem(*options) == Some(error@),
        },
{
    match Search::new(options) {
        Ok(search) => {
            if repos.len() == 0 {
                Ok(None)
            } else {
                Ok(Some(search))
            }
        },
        Err(error) => Err(error),
    }
}

/// A repository is reported once: after one of its files was reported, no match
/// in any of its files reports it again, and no other of its files is searched.
pub proof fn law_repositories_are_reported_once(
    search: Search,
    file: FileSearch,
    reported: Set<Seq<char>>,
    line: Option<u64>,
    bytes: Seq<u8>,
    submatches: Seq<Submatch>,
    repo: RecordModel,
    path: Seq<u8>,
)
    requires
        search.mode == SearchOutputMode::ReposWithMatches,
        file.mode == search.mode,
        repo.id == file.repo@,
    ensures
        match_report(file, reported.insert(file.repo@), line, bytes, submatches).0 is None,
        !search.searches(reported.insert(file.repo@), repo, path),
{
}

/// What a filter without values lets through is everything, and a category that
/// is added only takes repositories away.
pub proof fn law_filter_categories_restrict(
    filter: RepoFilter,
    wider: RepoFilter,
    glob_found: bool,
    repo: RecordModel,
)
    requires
        wider.repo_globs@.len() == 0 || wider.repo_globs@ == filter.repo_globs@,
        wider.sources@ == Set::<Seq<char>>::empty() || wider.sources@ == filter.sources@,
        wider.tags@ == Set::<Seq<char>>::empty() || wider.tags@ == filter.tags@,
    ensures
        filter_allows(filter, glob_found, repo) ==> filter_allows(wider, glob_found, repo),
        filter.repo_globs@.len() == 0 && filter.sources@ == Set::<Seq<char>>::empty()
            && filter.tags@ == Set::<Seq<char>>::empty() ==> filter_allows(
            filter,
            glob_found,
            repo,
        ),
{
}

}

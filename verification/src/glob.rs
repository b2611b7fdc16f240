//! Glob patterns, as the `globset` crate understands them.

use vstd::prelude::*;

use crate::error::{Error, ErrorModel, Result, failure};
use crate::text::{cat2, cat4, debug_quote, debug_text, texts};

verus! {

/// A single glob of `globset`.
#[verifier::external_type_specification]
#[verifier::external_body]
pub struct ExGlob(globset::Glob);

/// A set of globs of `globset` under construction.
#[verifier::external_type_specification]
#[verifier::external_body]
pub struct ExGlobSetBuilder(globset::GlobSetBuilder);

/// A set of globs of `globset` that can be matched against paths.
#[verifier::external_type_specification]
#[verifier::external_body]
pub struct ExGlobSet(globset::GlobSet);

/// The pattern of which a glob was made.
pub uninterp spec fn glob_pattern(glob: globset::Glob) -> Seq<char>;

/// The patterns that were put into a set under construction, in order.
pub uninterp spec fn builder_patterns(builder: globset::GlobSetBuilder) -> Seq<Seq<char>>;

/// The patterns that a set of globs holds, in order.
pub uninterp spec fn set_patterns(set: globset::GlobSet) -> Seq<Seq<char>>;

/// The message with which `Glob::new` refuses a pattern; none if it is a glob.
pub uninterp spec fn glob_problem(pattern: Seq<char>) -> Option<Seq<char>>;

/// The message with which `GlobSetBuilder::build` refuses some globs; none if
/// they can be put together.
pub uninterp spec fn glob_set_problem(patterns: Seq<Seq<char>>) -> Option<Seq<char>>;

/// Whether the glob of a pattern matches a path.
pub uninterp spec fn glob_matches(pattern: Seq<char>, path: Seq<u8>) -> bool;

/// `globset::Glob::new`: the glob of a pattern, or the message of the error.
#[verifier::external_body]
fn parse_glob(pattern: &str) -> (glob: std::result::Result<globset::Glob, String>)
    ensures
        match glob {
            Ok(glob) => glob_problem(pattern@) is None && glob_pattern(glob) == pattern@,
            Err(message) => glob_problem(pattern@) == Some(message@),
        },
{
    globset::Glob::new(pattern).map_err(|error| error.to_string())
}

/// `globset::GlobSetBuilder::new`: a set under construction that holds nothing.
#[verifier::external_body]
fn new_builder() -> (builder: globset::GlobSetBuilder)
    ensures
        builder_patterns(builder) == Seq::<Seq<char>>::empty(),
{
    globset::GlobSetBuilder::new()
}

/// `globset::GlobSetBuilder::add`: puts a glob behind those that are there.
#[verifier::external_body]
fn add_glob(builder: &mut globset::GlobSetBuilder, glob: globset::Glob)
    ensures
        builder_patterns(*final(builder)) == builder_patterns(*old(builder)).push(
            glob_pattern(glob),
        ),
{
    builder.add(glob);
}

/// `globset::GlobSetBuilder::build`: the set of the globs put in so far, or
/// the message of the error. No globs at all can always be put together.
#[verifier::external_body]
fn build_set(builder: &globset::GlobSetBuilder) -> (set: std::result::Result<
    globset::GlobSet,
    String,
>)
    ensures
        match set {
            Ok(set) => {
                &&& glob_set_problem(builder_patterns(*builder)) is None
                &&& set_patterns(set) == builder_patterns(*builder)
            },
            Err(message) => glob_set_problem(builder_patterns(*builder)) == Some(message@),
        },
        set is Ok || builder_patterns(*builder).len() > 0,
{
    builder.build().map_err(|error| error.to_string())
}

/// `globset::GlobSet::is_match_candidate`: whether one of the globs of a set
/// matches a path that is given by its bytes.
#[verifier::external_body]
fn set_is_match(set: &globset::GlobSet, path: &[u8]) -> (found: bool)
    ensures
        found == (exists|i: int|
            0 <= i < set_patterns(*set).len() && glob_matches(
                #[trigger] set_patterns(*set)[i],
                path@,
            )),
{
    set.is_match_candidate(&globset::Candidate::from_bytes(path))
}

/// Whether one of the globs of a set matches a path.
pub fn set_matches(set: &globset::GlobSet, path: &[u8]) -> (found: bool)
    ensures
        found == some_glob_matches(set_patterns(*set), path@),
{
    set_is_match(set, path)
}

/// Whether one of some globs matches a path.
pub open spec fn some_glob_matches(patterns: Seq<Seq<char>>, path: Seq<u8>) -> bool {
    exists|i: int| 0 <= i < patterns.len() && glob_matches(#[trigger] patterns[i], path)
}

/// The first of some patterns that is not a glob, as an error.
pub open spec fn first_glob_problem(patterns: Seq<Seq<char>>) -> Option<ErrorModel>
    decreases patterns.len(),
{
    if patterns.len() == 0 {
        None
    } else {
        match first_glob_problem(patterns.drop_last()) {
            Some(problem) => Some(problem),
            None => match glob_problem(patterns.last()) {
                Some(message) => Some(
                    ErrorModel::Config(
                        "invalid glob "@ + debug_text(patterns.last()) + ": "@ + message,
                    ),
                ),
                None => None,
            },
        }
    }
}

/// What keeps some patterns from being matched together.
pub open spec fn globs_problem(patterns: Seq<Seq<char>>) -> Option<ErrorModel> {
    match first_glob_problem(patterns) {
        Some(problem) => Some(problem),
        None => match glob_set_problem(patterns) {
            Some(message) => Some(ErrorModel::Config("invalid glob set: "@ + message)),
            None => None,
        },
    }
}

/// A problem among the first patterns stays the first problem of all.
proof fn lemma_first_glob_problem(patterns: Seq<Seq<char>>, count: int)
    requires
        0 <= count <= patterns.len(),
        first_glob_problem(patterns.take(count)) is Some,
    ensures
        first_glob_problem(patterns) == first_glob_problem(patterns.take(count)),
    decreases patterns.len(),
{
    if count < patterns.len() {
        assert(patterns.drop_last().take(count) =~= patterns.take(count));
        lemma_first_glob_problem(patterns.drop_last(), count);
    } else {
        assert(patterns.take(count) =~= patterns);
    }
}

/// The set of some globs.
pub fn build_globs(values: &Vec<String>) -> (set: Result<globset::GlobSet>)
    ensures
        failure(set) == globs_problem(texts(values@)),
        set matches Ok(set) ==> set_patterns(set) == texts(values@),
        values@.len() == 0 ==> set is Ok,
{
    let ghost all = texts(values@);
    let mut builder = new_builder();
    let mut i: usize = 0;
    proof {
        assert(all.take(0) =~= Seq::empty());
    }
    while i < values.len()
        invariant
            i <= values@.len(),
            all == texts(values@),
            builder_patterns(builder) == all.take(i as int),
            first_glob_problem(all.take(i as int)) is None,
        decreases values@.len() - i,
    {
        let value = values[i].as_str();
        proof {
            assert(all.take(i + 1).drop_last() =~= all.take(i as int));
            assert(all.take(i + 1).last() == value@);
            assert(all.take(i as int).push(value@) =~= all.take(i + 1));
        }
        match parse_glob(value) {
            Ok(glob) => add_glob(&mut builder, glob),
            Err(message) => {
                proof {
                    lemma_first_glob_problem(all, i + 1);
                }
                return Err(
                    Error::Config(
                        cat4("invalid glob ", debug_quote(value).as_str(), ": ", message.as_str()),
                    ),
                );
            },
        }
        i += 1;
    }
    proof {
        assert(all.take(values@.len() as int) =~= all);
    }
    match build_set(&builder) {
        Ok(set) => Ok(set),
        Err(message) => Err(Error::Config(cat2("invalid glob set: ", message.as_str()))),
    }
}

}

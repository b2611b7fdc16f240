//! What holds of texts and of the canonical form of remotes.

use vstd::prelude::*;

use crate::config::lemma_pieces_without_separator;
use crate::error::ErrorModel;
use crate::provider::{canonical_remote, lemma_one_piece, local_path_of, url_parts};
use crate::text::{
    CharClass, after_prefix, before, before_suffix, begins, debug_text, decimal, ends, has_part,
    integer, join, last_index, law_join_undoes_split, lemma_before_total, lemma_first_index,
    lemma_last_index, lemma_split_concat, lowered, parted_first, parted_last, split, trim_back,
    trim_both, trim_front,
};

verus! {

/// Whether all characters of a text are white space.
pub open spec fn is_blank(s: Seq<char>) -> bool {
    forall|i: int| 0 <= i < s.len() ==> CharClass::Whitespace.has(#[trigger] s[i])
}

/// A text loses the characters of a class at an end until another one stands
/// there, and nothing else.
pub proof fn law_ends_are_taken_off(s: Seq<char>, class: CharClass)
    ensures
        exists|n: int|
            #![trigger s.subrange(n, s.len() as int)]
            0 <= n <= s.len() && trim_front(s, class) == s.subrange(n, s.len() as int) && (
            forall|i: int| 0 <= i < n ==> class.has(#[trigger] s[i])) && (n < s.len()
                ==> !class.has(s[n])),
        exists|n: int|
            #![trigger s.subrange(0, n)]
            0 <= n <= s.len() && trim_back(s, class) == s.subrange(0, n) && (forall|i: int|
                n <= i < s.len() ==> class.has(#[trigger] s[i])) && (n > 0 ==> !class.has(
                s[n - 1],
            )),
    decreases s.len(),
{
    assert(s.subrange(0, s.len() as int) =~= s);
    if s.len() > 0 {
        if class.has(s[0]) {
            let rest = s.subrange(1, s.len() as int);
            law_ends_are_taken_off(rest, class);
            let n = choose|n: int|
                #![trigger rest.subrange(n, rest.len() as int)]
                0 <= n <= rest.len() && trim_front(rest, class) == rest.subrange(
                    n,
                    rest.len() as int,
                ) && (forall|i: int| 0 <= i < n ==> class.has(#[trigger] rest[i])) && (n
                    < rest.len() ==> !class.has(rest[n]));
            assert(rest.subrange(n, rest.len() as int) =~= s.subrange(n + 1, s.len() as int));
            assert forall|i: int| 0 <= i < n + 1 implies class.has(#[trigger] s[i]) by {
                if i > 0 {
                    assert(rest[i - 1] == s[i]);
                }
            }
        }
        if class.has(s.last()) {
            let rest = s.drop_last();
            law_ends_are_taken_off(rest, class);
            let n = choose|n: int|
                #![trigger rest.subrange(0, n)]
                0 <= n <= rest.len() && trim_back(rest, class) == rest.subrange(0, n) && (
                forall|i: int| n <= i < rest.len() ==> class.has(#[trigger] rest[i])) && (n > 0
                    ==> !class.has(rest[n - 1]));
            assert(rest.subrange(0, n) =~= s.subrange(0, n));
            assert forall|i: int| n <= i < s.len() implies class.has(#[trigger] s[i]) by {
                if i < s.len() - 1 {
                    assert(rest[i] == s[i]);
                }
            }
        }
    }
}

/// A text between characters of a class that neither begins nor ends with one is
/// what trimming leaves of them.
pub proof fn law_trimming_leaves_the_text(
    front: Seq<char>,
    text: Seq<char>,
    back: Seq<char>,
    class: CharClass,
)
    requires
        forall|i: int| 0 <= i < front.len() ==> class.has(#[trigger] front[i]),
        forall|i: int| 0 <= i < back.len() ==> class.has(#[trigger] back[i]),
        text.len() > 0 ==> !class.has(text[0]) && !class.has(text.last()),
    ensures
        text.len() > 0 ==> trim_both(front + text + back, class) == text,
        text.len() == 0 ==> trim_both(front + text + back, class).len() == 0,
        text.len() > 0 ==> trim_back(text + back, class) == text,
{
    lemma_front(front, text + back, class);
    assert(front + text + back =~= front + (text + back));
    lemma_back(text, back, class);
    if text.len() == 0 {
        assert(text + back =~= back);
        lemma_front(back, Seq::empty(), class);
        assert(back + Seq::<char>::empty() =~= back);
        law_ends_are_taken_off(Seq::empty(), class);
    } else {
        assert((text + back)[0] == text[0]);
    }
}

/// Characters of a class in front of a text are taken off.
proof fn lemma_front(front: Seq<char>, text: Seq<char>, class: CharClass)
    requires
        forall|i: int| 0 <= i < front.len() ==> class.has(#[trigger] front[i]),
    ensures
        trim_front(front + text, class) == trim_front(text, class),
    decreases front.len(),
{
    if front.len() == 0 {
        assert(front + text =~= text);
    } else {
        let rest = front.subrange(1, front.len() as int);
        assert((front + text)[0] == front[0]);
        assert((front + text).subrange(1, (front + text).len() as int) =~= rest + text);
        assert forall|i: int| 0 <= i < rest.len() implies class.has(#[trigger] rest[i]) by {
            assert(rest[i] == front[i + 1]);
        }
        lemma_front(rest, text, class);
    }
}

/// Characters of a class behind a text are taken off.
proof fn lemma_back(text: Seq<char>, back: Seq<char>, class: CharClass)
    requires
        forall|i: int| 0 <= i < back.len() ==> class.has(#[trigger] back[i]),
    ensures
        trim_back(text + back, class) == trim_back(text, class),
    decreases back.len(),
{
    if back.len() == 0 {
        assert(text + back =~= text);
    } else {
        let rest = back.drop_last();
        assert((text + back).last() == back.last());
        assert((text + back).drop_last() =~= text + rest);
        assert forall|i: int| 0 <= i < rest.len() implies class.has(#[trigger] rest[i]) by {
            assert(rest[i] == back[i]);
        }
        lemma_back(text, rest, class);
    }
}

/// The classes: blanks, tabs and line ends are white space and the printable
/// characters of ASCII are not; a slash is a slash; and the brackets are the
/// angle ones.
pub proof fn law_classes_of_characters(c: char)
    ensures
        c == ' ' || c == '\t' || c == '\n' || c == '\r' ==> CharClass::Whitespace.has(c),
        '!' <= c <= '~' ==> !CharClass::Whitespace.has(c),
        CharClass::Slash.has(c) <==> c == '/',
        CharClass::AngleBracket.has(c) <==> c == '<' || c == '>',
{
}

/// The pieces of a text hold no separator, and putting them together again gives
/// the text; and pieces that hold none are the pieces of what they are put
/// together to.
pub proof fn law_split_undoes_join(s: Seq<char>, pieces: Seq<Seq<char>>, separator: char)
    requires
        pieces.len() > 0,
        forall|i: int| 0 <= i < pieces.len() ==> !(#[trigger] pieces[i]).contains(separator),
    ensures
        split(join(pieces, separator), separator) == pieces,
        join(split(s, separator), separator) == s,
        forall|i: int|
            0 <= i < split(s, separator).len() ==> !(#[trigger] split(s, separator)[i]).contains(
                separator,
            ),
    decreases pieces.len(),
{
    law_join_undoes_split(s, separator);
    lemma_pieces_without_separator(s, separator);
    if pieces.len() == 1 {
        lemma_one_piece(pieces[0], separator);
        assert(pieces =~= seq![pieces[0]]);
    } else {
        let earlier = pieces.drop_last();
        assert forall|i: int| 0 <= i < earlier.len() implies !(#[trigger] earlier[i]).contains(
            separator,
        ) by {
            assert(earlier[i] == pieces[i]);
        }
        law_split_undoes_join(s, earlier, separator);
        lemma_split_concat(join(earlier, separator), pieces.last(), separator);
        assert(pieces.last() == pieces[pieces.len() - 1]);
        lemma_one_piece(pieces.last(), separator);
        assert(earlier + seq![pieces.last()] =~= pieces);
    }
}

/// A text is parted at the first or the last place of a character, where it
/// has one.
pub proof fn law_texts_are_parted(front: Seq<char>, back: Seq<char>, c: char)
    ensures
        !front.contains(c) ==> parted_first(front + seq![c] + back, c) == Some((front, back)),
        !back.contains(c) ==> parted_last(front + seq![c] + back, c) == Some((front, back)),
        !front.contains(c) ==> parted_first(front, c) is None && parted_last(front, c) is None,
{
    let whole = front + seq![c] + back;
    let at = front.len() as int;
    assert(whole[at] == c);
    lemma_first_index(whole, c);
    lemma_last_index(whole, c);
    lemma_first_index(front, c);
    lemma_last_index(front, c);
    let first = crate::text::first_index(whole, c);
    let last = last_index(whole, c);
    if !front.contains(c) {
        assert(whole.contains(c));
        if first < at {
            assert(whole[first] == front[first]);
        }
        assert(whole.subrange(0, at) =~= front);
        assert(whole.subrange(at + 1, whole.len() as int) =~= back);
        if last_index(front, c) >= 0 {
            assert(front.contains(c));
        }
    }
    if !back.contains(c) {
        if last > at {
            assert(whole[last] == back[last - at - 1]);
        }
        assert(whole.subrange(0, at) =~= front);
        assert(whole.subrange(at + 1, whole.len() as int) =~= back);
    }
}

/// A prefix and a suffix are found where they stand, and taken off.
pub proof fn law_prefixes_and_suffixes(prefix: Seq<char>, text: Seq<char>, suffix: Seq<char>)
    ensures
        begins(prefix + text, prefix),
        ends(text + suffix, suffix),
        has_part(prefix + text + suffix, text),
        after_prefix(prefix + text, prefix) == Some(text),
        before_suffix(text + suffix, suffix) == text,
        !ends(text, suffix) ==> before_suffix(text, suffix) == text,
        !begins(text, prefix) ==> after_prefix(text, prefix) is None,
        begins(text, prefix) ==> text == prefix + text.subrange(
            prefix.len() as int,
            text.len() as int,
        ),
        ends(text, suffix) ==> text == text.subrange(0, text.len() - suffix.len()) + suffix,
{
    let front = prefix + text;
    let back = text + suffix;
    assert(front.subrange(0, prefix.len() as int) =~= prefix);
    assert(front.subrange(prefix.len() as int, front.len() as int) =~= text);
    assert(back.subrange(back.len() - suffix.len(), back.len() as int) =~= suffix);
    assert(back.subrange(0, back.len() - suffix.len()) =~= text);
    let whole = prefix + text + suffix;
    let at = prefix.len() as int;
    assert(whole.subrange(at, at + text.len()) =~= text);
    if begins(text, prefix) {
        assert(text =~= prefix + text.subrange(prefix.len() as int, text.len() as int));
    }
    if ends(text, suffix) {
        assert(text =~= text.subrange(0, text.len() - suffix.len()) + suffix);
    }
}

/// In lower case a text has the letters of ASCII in lower case and everything
/// else as it was.
pub proof fn law_lower_case(s: Seq<char>, i: int)
    requires
        0 <= i < s.len(),
    ensures
        lowered(s).len() == s.len(),
        'A' <= s[i] <= 'Z' ==> lowered(s)[i] as int == s[i] as int + ('a' as int - 'A' as int),
        !('A' <= s[i] <= 'Z') ==> lowered(s)[i] == s[i],
        !('A' <= lowered(s)[i] <= 'Z'),
        lowered(lowered(s)) == lowered(s),
{
    assert forall|j: int| 0 <= j < s.len() implies lowered(lowered(s))[j] == lowered(s)[j] by {
        assert(!('A' <= lowered(s)[j] <= 'Z'));
    }
    assert(lowered(lowered(s)) =~= lowered(s));
}

/// A text comes before another one if it is where they first differ that it has
/// the smaller character, or if the other one goes on behind it.
pub proof fn law_order_of_texts(
    common: Seq<char>,
    left: char,
    right: char,
    more: Seq<char>,
    rest: Seq<char>,
)
    ensures
        before(common + seq![left] + more, common + seq![right] + rest) <==> left < right || (left
            == right && before(more, rest)),
        before(common, common + seq![right] + rest),
        !before(common, common),
        !before(common + seq![right] + rest, common),
    decreases common.len(),
{
    let one = common + seq![left] + more;
    let other = common + seq![right] + rest;
    if common.len() == 0 {
        assert(one.subrange(1, one.len() as int) =~= more);
        assert(other.subrange(1, other.len() as int) =~= rest);
        assert(one[0] == left && other[0] == right);
    } else {
        let tail = common.subrange(1, common.len() as int);
        law_order_of_texts(tail, left, right, more, rest);
        assert(one.subrange(1, one.len() as int) =~= tail + seq![left] + more);
        assert(other.subrange(1, other.len() as int) =~= tail + seq![right] + rest);
        assert(one[0] == common[0] && other[0] == common[0]);
    }
    lemma_before_total(common, common);
    lemma_before_total(common, other);
}

/// The number that decimal digits stand for.
pub open spec fn value_of(digits: Seq<char>) -> int
    decreases digits.len(),
{
    if digits.len() == 0 {
        0
    } else {
        10 * value_of(digits.drop_last()) + (digits.last() as int - '0' as int)
    }
}

/// A number is written with decimal digits that stand for it, without a zero in
/// front but for zero itself; and a negative one behind a minus sign.
pub proof fn law_numbers_are_written_in_digits(n: nat)
    ensures
        value_of(decimal(n)) == n,
        decimal(n).len() > 0,
        forall|i: int| 0 <= i < decimal(n).len() ==> '0' <= #[trigger] decimal(n)[i] <= '9',
        n > 0 ==> decimal(n)[0] != '0',
        integer(n as int) == decimal(n),
        n > 0 ==> integer(-(n as int)) == "-"@ + decimal(n),
    decreases n,
{
    if n < 10 {
        assert(decimal(n).drop_last() =~= Seq::empty());
        assert(value_of(decimal(n).drop_last()) == 0);
    } else {
        law_numbers_are_written_in_digits(n / 10);
        assert(decimal(n).drop_last() =~= decimal(n / 10));
        assert(decimal(n)[0] == decimal(n / 10)[0]);
    }
}

/// White space around a remote and slashes behind it do not matter.
pub proof fn law_remotes_are_bare(
    remote: Seq<char>,
    front: Seq<char>,
    slashes: Seq<char>,
    back: Seq<char>,
    resolved: Option<Seq<char>>,
)
    requires
        remote.len() > 0,
        !CharClass::Whitespace.has(remote[0]),
        !CharClass::Whitespace.has(remote.last()),
        remote.last() != '/',
        is_blank(front),
        is_blank(back),
        forall|i: int| 0 <= i < slashes.len() ==> #[trigger] slashes[i] == '/',
    ensures
        local_path_of(front + (remote + slashes) + back) == local_path_of(remote),
        (canonical_remote(remote, resolved) matches Ok(canonical) ==> canonical_remote(
            front + (remote + slashes) + back,
            resolved,
        ) == Ok::<Seq<char>, ErrorModel>(canonical)),
{
    let text = remote + slashes;
    if slashes.len() > 0 {
        assert(text.last() == slashes[slashes.len() - 1]);
    } else {
        assert(text =~= remote);
    }
    assert(text[0] == remote[0]);
    let none = Seq::<char>::empty();
    law_trimming_leaves_the_text(front, text, back, CharClass::Whitespace);
    law_trimming_leaves_the_text(none, remote, none, CharClass::Whitespace);
    assert(none + remote + none =~= remote);
    assert(remote + none =~= remote);
    assert forall|i: int| 0 <= i < slashes.len() implies CharClass::Slash.has(
        #[trigger] slashes[i],
    ) by {}
    lemma_back(remote, slashes, CharClass::Slash);
    assert(trim_back(remote, CharClass::Slash) == remote);
}

/// A remote with neither a scheme nor a colon is a path of this machine: it is
/// known by the path that the file system makes of it, or else by itself,
/// without the suffix of Git.
pub proof fn law_local_remotes(path: Seq<char>, resolved: Seq<char>)
    requires
        path.len() > 0,
        !path.contains(':'),
        !CharClass::Whitespace.has(path[0]),
        !CharClass::Whitespace.has(path.last()),
        path.last() != '/',
    ensures
        canonical_remote(path, Some(resolved)) == Ok::<Seq<char>, ErrorModel>(
            "file/"@ + resolved,
        ),
        !ends(path, ".git"@) ==> canonical_remote(path, None) == Ok::<Seq<char>, ErrorModel>(
            "file/"@ + path,
        ) && local_path_of(path) == Some(path),
        canonical_remote(path + ".git"@, None) == Ok::<Seq<char>, ErrorModel>("file/"@ + path),
        local_path_of(path + ".git"@) == Some(path),
{
    reveal_strlit("://");
    reveal_strlit(".git");
    let none = Seq::<char>::empty();
    let suffixed = path + ".git"@;
    lemma_no_colon(path);
    assert forall|i: int| 0 <= i < suffixed.len() implies suffixed[i] != ':' by {
        if i < path.len() {
            assert(suffixed[i] == path[i]);
        }
    }
    lemma_no_colon(suffixed);
    law_trimming_leaves_the_text(none, path, none, CharClass::Whitespace);
    law_trimming_leaves_the_text(none, suffixed, none, CharClass::Whitespace);
    assert(none + path + none =~= path);
    assert(none + suffixed + none =~= suffixed);
    assert(suffixed.last() == 't');
    law_prefixes_and_suffixes(none, path, ".git"@);
}

/// A text without a colon has neither a scheme nor a host.
proof fn lemma_no_colon(text: Seq<char>)
    requires
        !text.contains(':'),
    ensures
        !has_part(text, "://"@),
        parted_last(text, ':') is None,
{
    reveal_strlit("://");
    law_texts_are_parted(text, text, ':');
    if has_part(text, "://"@) {
        let i = choose|i: int|
            0 <= i <= text.len() - "://"@.len() && #[trigger] text.subrange(i, i + "://"@.len())
                == "://"@;
        assert(text.subrange(i, i + 3)[0] == text[i]);
        assert(text.contains(text[i]));
    }
}

/// A URL that cannot be read, and one without a host, are no remotes.
pub proof fn law_bad_remotes_are_refused(
    scheme: Seq<char>,
    tail: Seq<char>,
    resolved: Option<Seq<char>>,
    message: Seq<char>,
)
    requires
        scheme.len() > 0,
        tail.len() > 0,
        !CharClass::Whitespace.has(scheme[0]),
        !CharClass::Whitespace.has(tail.last()),
        tail.last() != '/',
    ensures
        url_parts(scheme + "://"@ + tail) == Err::<
            (Option<Seq<char>>, Option<u16>, Seq<char>),
            Seq<char>,
        >(message) ==> canonical_remote(scheme + "://"@ + tail, resolved) == Err::<
            Seq<char>,
            ErrorModel,
        >(ErrorModel::Url(message)),
        (url_parts(scheme + "://"@ + tail) matches Ok((None, port, path))) ==> canonical_remote(
            scheme + "://"@ + tail,
            resolved,
        ) == Err::<Seq<char>, ErrorModel>(
            ErrorModel::Config(
                "clone URL has no host: "@ + debug_text(scheme + "://"@ + tail),
            ),
        ),
{
    reveal_strlit("://");
    let remote = scheme + "://"@ + tail;
    let none = Seq::<char>::empty();
    law_trimming_leaves_the_text(none, remote, none, CharClass::Whitespace);
    assert(none + remote + none =~= remote);
    assert(remote.last() == tail.last());
    law_prefixes_and_suffixes(scheme, "://"@, tail);
}

}

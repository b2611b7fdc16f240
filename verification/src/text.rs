//! Text as sequences of characters: trimming, splitting, searching, ordering
//! and decimal numbers.

use vstd::prelude::*;
use vstd::string::StringExecFns;
use vstd::utf8::{decode_utf8, valid_utf8};

verus! {

/// `String::push` of std: puts one character behind the text and changes
/// nothing else.
pub assume_specification[ String::push ](text: &mut String, c: char)
    ensures
        final(text)@ == old(text)@.push(c),
;

/// How std writes a text with `{:?}`: between double quotes, with escapes.
pub uninterp spec fn debug_text(text: Seq<char>) -> Seq<char>;

/// The `{:?}` form of a `str`, as std's `Debug` writes it. Which characters
/// are escaped, and how, is left to std.
#[verifier::external_body]
pub(crate) fn debug_quote(text: &str) -> (quoted: String)
    ensures
        quoted@ == debug_text(text@),
{
    format!("{text:?}")
}

/// The text that `String::from_utf8_lossy` makes of some bytes.
pub uninterp spec fn lossy_text(bytes: Seq<u8>) -> Seq<char>;

/// `String::from_utf8_lossy`: the text of some bytes. UTF-8 is decoded as it
/// is; what is none is replaced in a way that is not stated.
#[verifier::external_body]
pub(crate) fn lossy(bytes: &[u8]) -> (text: String)
    ensures
        text@ == lossy_text(bytes@),
        text@ == decode_utf8(bytes@) || !valid_utf8(bytes@),
{
    String::from_utf8_lossy(bytes).into_owned()
}

/// `std::str::from_utf8`: the text of which some bytes are the UTF-8, if they
/// are that of one.
#[verifier::external_body]
pub(crate) fn utf8(bytes: &[u8]) -> (text: Option<String>)
    ensures
        match text {
            Some(text) => valid_utf8(bytes@) && text@ == decode_utf8(bytes@),
            None => !valid_utf8(bytes@),
        },
{
    std::str::from_utf8(bytes).ok().map(|text| text.to_owned())
}

/// The characters of each text of a list.
pub open spec fn texts(list: Seq<String>) -> Seq<Seq<char>> {
    Seq::new(list.len(), |i: int| list[i]@)
}

/// The characters of an optional text.
pub open spec fn opt_text(text: Option<String>) -> Option<Seq<char>> {
    match text {
        Some(text) => Some(text@),
        None => None,
    }
}

/// The characters of an optional borrowed text.
pub open spec fn opt_str(text: Option<&str>) -> Option<Seq<char>> {
    match text {
        Some(text) => Some(text@),
        None => None,
    }
}

/// White space in the sense of Unicode's `White_Space` property.
pub open spec fn is_whitespace(c: char) -> bool {
    let n = c as u32;
    ||| 0x09 <= n <= 0x0d
    ||| n == 0x20
    ||| n == 0x85
    ||| n == 0xa0
    ||| n == 0x1680
    ||| 0x2000 <= n <= 0x200a
    ||| n == 0x2028
    ||| n == 0x2029
    ||| n == 0x202f
    ||| n == 0x205f
    ||| n == 0x3000
}

/// The characters that a trimming operation removes.
#[derive(Clone, Copy, Debug, PartialEq, Eq, Structural)]
pub enum CharClass {
    /// Unicode white space.
    Whitespace,
    /// The path separator `/`.
    Slash,
    /// The angle brackets `<` and `>`.
    AngleBracket,
}

impl CharClass {
    /// Whether a character belongs to the class.
    pub open spec fn has(self, c: char) -> bool {
        match self {
            CharClass::Whitespace => is_whitespace(c),
            CharClass::Slash => c == '/',
            CharClass::AngleBracket => c == '<' || c == '>',
        }
    }

    /// Whether a character belongs to the class.
    pub fn contains(self, c: char) -> (found: bool)
        ensures
            found == self.has(c),
    {
        match self {
            CharClass::Whitespace => {
                let n: u32 = c as u32;
                (0x09 <= n && n <= 0x0d) || n == 0x20 || n == 0x85 || n == 0xa0 || n == 0x1680 || (
                0x2000 <= n && n <= 0x200a) || n == 0x2028 || n == 0x2029 || n == 0x202f || n
                    == 0x205f || n == 0x3000
            },
            CharClass::Slash => c == '/',
            CharClass::AngleBracket => c == '<' || c == '>',
        }
    }
}

/// A text without the leading characters of a class.
pub open spec fn trim_front(s: Seq<char>, class: CharClass) -> Seq<char>
    decreases s.len(),
{
    if s.len() > 0 && class.has(s[0]) {
        trim_front(s.subrange(1, s.len() as int), class)
    } else {
        s
    }
}

/// A text without the trailing characters of a class.
pub open spec fn trim_back(s: Seq<char>, class: CharClass) -> Seq<char>
    decreases s.len(),
{
    if s.len() > 0 && class.has(s.last()) {
        trim_back(s.drop_last(), class)
    } else {
        s
    }
}

/// A text without the leading and trailing characters of a class.
pub open spec fn trim_both(s: Seq<char>, class: CharClass) -> Seq<char> {
    trim_back(trim_front(s, class), class)
}

/// A text without leading and trailing white space.
pub open spec fn trimmed(s: Seq<char>) -> Seq<char> {
    trim_both(s, CharClass::Whitespace)
}

/// The pieces of a sequence between the occurrences of a separator. There is
/// always at least one piece; pieces may be empty.
pub open spec fn split<T>(s: Seq<T>, separator: T) -> Seq<Seq<T>>
    decreases s.len(),
{
    if s.len() == 0 {
        seq![Seq::<T>::empty()]
    } else {
        let before = split(s.drop_last(), separator);
        if s.last() == separator {
            before.push(Seq::<T>::empty())
        } else {
            before.drop_last().push(before.last().push(s.last()))
        }
    }
}

/// The pieces of a sequence put together again with a separator in between.
pub open spec fn join<T>(pieces: Seq<Seq<T>>, separator: T) -> Seq<T>
    decreases pieces.len(),
{
    if pieces.len() == 0 {
        Seq::empty()
    } else if pieces.len() == 1 {
        pieces[0]
    } else {
        join(pieces.drop_last(), separator).push(separator) + pieces.last()
    }
}

/// Whether `part` stands somewhere in `s`.
pub open spec fn has_part(s: Seq<char>, part: Seq<char>) -> bool {
    exists|at: int|
        0 <= at <= s.len() - part.len() && #[trigger] s.subrange(at, at + part.len()) == part
}

/// Whether `s` begins with `prefix`.
pub open spec fn begins<T>(s: Seq<T>, prefix: Seq<T>) -> bool {
    prefix.len() <= s.len() && s.subrange(0, prefix.len() as int) == prefix
}

/// Whether `s` ends with `suffix`.
pub open spec fn ends<T>(s: Seq<T>, suffix: Seq<T>) -> bool {
    suffix.len() <= s.len() && s.subrange(s.len() - suffix.len(), s.len() as int) == suffix
}

/// The place of the first `c` in `s`, or the length of `s`.
pub open spec fn first_index<T>(s: Seq<T>, c: T) -> int
    decreases s.len(),
{
    if s.len() == 0 || s[0] == c {
        0
    } else {
        1 + first_index(s.subrange(1, s.len() as int), c)
    }
}

/// The place of the last `c` in `s`, or `-1`.
pub open spec fn last_index<T>(s: Seq<T>, c: T) -> int
    decreases s.len(),
{
    if s.len() == 0 {
        -1
    } else if s.last() == c {
        s.len() - 1
    } else {
        last_index(s.drop_last(), c)
    }
}

/// An ASCII letter in lower case; every other character as it is.
pub open spec fn lower_char(c: char) -> char {
    if 'A' <= c <= 'Z' {
        ((c as u32 + 32) as u32) as char
    } else {
        c
    }
}

/// A text with its ASCII letters in lower case.
pub open spec fn lowered(s: Seq<char>) -> Seq<char> {
    Seq::new(s.len(), |i: int| lower_char(s[i]))
}

/// Whether `left` comes before `right` in the order of their code points.
pub open spec fn before(left: Seq<char>, right: Seq<char>) -> bool
    decreases left.len(),
{
    if right.len() == 0 {
        false
    } else if left.len() == 0 {
        true
    } else if left[0] != right[0] {
        left[0] < right[0]
    } else {
        before(left.subrange(1, left.len() as int), right.subrange(1, right.len() as int))
    }
}

/// The decimal digits of a number.
pub open spec fn decimal(n: nat) -> Seq<char>
    decreases n,
{
    if n < 10 {
        seq![digit(n)]
    } else {
        decimal(n / 10).push(digit(n % 10))
    }
}

/// The digit of a number below ten.
pub open spec fn digit(n: nat) -> char {
    ((48 + n) as u32) as char
}

/// The characters of a text, one by one.
pub fn chars_of(text: &str) -> (chars: Vec<char>)
    ensures
        chars@ == text@,
{
    let mut chars: Vec<char> = Vec::new();
    for c in it: text.chars()
        invariant
            chars@ == text@.take(it.index()),
            it.seq() == text@,
    {
        proof {
            assert(text@.take(it.index()).push(c) =~= text@.take(it.index() + 1));
        }
        chars.push(c);
    }
    proof {
        assert(text@.take(text@.len() as int) =~= text@);
    }
    chars
}

/// The text made of the characters from one place up to another.
pub fn text_between(chars: &Vec<char>, from: usize, to: usize) -> (text: String)
    requires
        from <= to <= chars@.len(),
    ensures
        text@ == chars@.subrange(from as int, to as int),
{
    let mut text = String::new();
    let mut i: usize = from;
    while i < to
        invariant
            from <= i <= to <= chars@.len(),
            text@ == chars@.subrange(from as int, i as int),
        decreases to - i,
    {
        proof {
            assert(chars@.subrange(from as int, i as int).push(chars@[i as int])
                =~= chars@.subrange(from as int, i + 1));
        }
        text.push(chars[i]);
        i += 1;
    }
    text
}

/// Whether two texts hold the same characters.
pub fn text_eq(left: &str, right: &str) -> (same: bool)
    ensures
        same == (left@ == right@),
{
    left.to_owned() == right.to_owned()
}

/// A copy of an optional text.
pub fn opt_clone(text: &Option<String>) -> (copy: Option<String>)
    ensures
        copy == *text,
{
    match text {
        Some(text) => Some(text.clone()),
        None => None,
    }
}

/// A copy of a list of texts.
pub fn clone_list(list: &Vec<String>) -> (copy: Vec<String>)
    ensures
        copy@ == list@,
{
    let mut copy: Vec<String> = Vec::new();
    let mut i: usize = 0;
    while i < list.len()
        invariant
            i <= list@.len(),
            copy@ == list@.take(i as int),
        decreases list@.len() - i,
    {
        proof {
            assert(list@.take(i as int).push(list@[i as int]) =~= list@.take(i + 1));
        }
        copy.push(list[i].clone());
        i += 1;
    }
    proof {
        assert(list@.take(list@.len() as int) =~= list@);
    }
    copy
}

/// Two texts, one behind the other.
pub fn cat2(a: &str, b: &str) -> (text: String)
    ensures
        text@ == a@ + b@,
{
    let mut text = a.to_owned();
    text.append(b);
    text
}

/// Three texts, one behind the other.
pub fn cat3(a: &str, b: &str, c: &str) -> (text: String)
    ensures
        text@ == a@ + b@ + c@,
{
    let mut text = cat2(a, b);
    text.append(c);
    text
}

/// Four texts, one behind the other.
pub fn cat4(a: &str, b: &str, c: &str, d: &str) -> (text: String)
    ensures
        text@ == a@ + b@ + c@ + d@,
{
    let mut text = cat3(a, b, c);
    text.append(d);
    text
}

/// Five texts, one behind the other.
pub fn cat5(a: &str, b: &str, c: &str, d: &str, e: &str) -> (text: String)
    ensures
        text@ == a@ + b@ + c@ + d@ + e@,
{
    let mut text = cat4(a, b, c, d);
    text.append(e);
    text
}

/// The text without the leading and trailing characters of a class.
pub fn trim_class(text: &str, class: CharClass) -> (inner: String)
    ensures
        inner@ == trim_both(text@, class),
{
    let chars = chars_of(text);
    let mut from: usize = 0;
    proof {
        assert(chars@.subrange(0, chars@.len() as int) =~= text@);
    }
    while from < chars.len() && class.contains(chars[from])
        invariant
            from <= chars@.len(),
            chars@ == text@,
            trim_front(text@, class) == trim_front(
                chars@.subrange(from as int, chars@.len() as int),
                class,
            ),
        decreases chars@.len() - from,
    {
        proof {
            let rest = chars@.subrange(from as int, chars@.len() as int);
            assert(rest.subrange(1, rest.len() as int) =~= chars@.subrange(
                from + 1,
                chars@.len() as int,
            ));
        }
        from += 1;
    }
    let ghost rest = chars@.subrange(from as int, chars@.len() as int);
    assert(rest.len() > 0 ==> rest[0] == chars@[from as int]);
    assert(trim_front(text@, class) == rest);
    let mut to: usize = chars.len();
    while to > from && class.contains(chars[to - 1])
        invariant
            from <= to <= chars@.len(),
            rest == chars@.subrange(from as int, chars@.len() as int),
            trim_back(rest, class) == trim_back(chars@.subrange(from as int, to as int), class),
        decreases to,
    {
        proof {
            let kept = chars@.subrange(from as int, to as int);
            assert(kept.drop_last() =~= chars@.subrange(from as int, to - 1));
        }
        to -= 1;
    }
    let ghost kept = chars@.subrange(from as int, to as int);
    assert(kept.len() > 0 ==> kept.last() == chars@[to - 1]);
    text_between(&chars, from, to)
}

/// The text without the trailing characters of a class.
pub fn trim_end(text: &str, class: CharClass) -> (inner: String)
    ensures
        inner@ == trim_back(text@, class),
{
    let chars = chars_of(text);
    let mut to: usize = chars.len();
    proof {
        assert(chars@.subrange(0, chars@.len() as int) =~= text@);
    }
    while to > 0 && class.contains(chars[to - 1])
        invariant
            to <= chars@.len(),
            trim_back(text@, class) == trim_back(chars@.subrange(0, to as int), class),
        decreases to,
    {
        proof {
            let kept = chars@.subrange(0, to as int);
            assert(kept.drop_last() =~= chars@.subrange(0, to - 1));
        }
        to -= 1;
    }
    let ghost kept = chars@.subrange(0, to as int);
    assert(kept.len() > 0 ==> kept.last() == chars@[to - 1]);
    text_between(&chars, 0, to)
}

/// The text without leading and trailing white space.
pub fn trim(text: &str) -> (inner: String)
    ensures
        inner@ == trimmed(text@),
{
    trim_class(text, CharClass::Whitespace)
}

/// There is always at least one piece.
pub proof fn lemma_split_nonempty<T>(s: Seq<T>, separator: T)
    ensures
        split(s, separator).len() > 0,
    decreases s.len(),
{
    if s.len() > 0 {
        lemma_split_nonempty(s.drop_last(), separator);
    }
}

/// The pieces of a text between the occurrences of a separator.
pub fn split_text(text: &str, separator: char) -> (pieces: Vec<String>)
    ensures
        texts(pieces@) == split(text@, separator),
{
    let chars = chars_of(text);
    let mut pieces: Vec<String> = Vec::new();
    let mut current = String::new();
    let mut i: usize = 0;
    proof {
        assert(chars@.take(0) =~= Seq::<char>::empty());
        assert(texts(pieces@).push(current@) =~= split(chars@.take(0), separator));
    }
    while i < chars.len()
        invariant
            i <= chars@.len(),
            texts(pieces@).push(current@) == split(chars@.take(i as int), separator),
        decreases chars@.len() - i,
    {
        let c = chars[i];
        let ghost before = split(chars@.take(i as int), separator);
        let ghost done = texts(pieces@);
        proof {
            assert(chars@.take(i + 1).drop_last() =~= chars@.take(i as int));
            assert(chars@.take(i + 1).last() == c);
            assert(before.drop_last() =~= done);
            assert(before.last() == current@);
        }
        if c == separator {
            pieces.push(current);
            current = String::new();
            proof {
                assert(texts(pieces@) =~= before);
            }
        } else {
            current.push(c);
        }
        i += 1;
    }
    proof {
        assert(chars@.take(chars@.len() as int) =~= text@);
    }
    pieces.push(current);
    proof {
        assert(texts(pieces@) =~= split(text@, separator));
    }
    pieces
}

/// The pieces of a byte sequence between the occurrences of a separator.
pub fn split_bytes(bytes: &[u8], separator: u8) -> (pieces: Vec<Vec<u8>>)
    ensures
        byte_lists(pieces@) == split(bytes@, separator),
{
    let mut pieces: Vec<Vec<u8>> = Vec::new();
    let mut current: Vec<u8> = Vec::new();
    let mut i: usize = 0;
    proof {
        assert(bytes@.take(0) =~= Seq::<u8>::empty());
        assert(byte_lists(pieces@).push(current@) =~= split(bytes@.take(0), separator));
    }
    while i < bytes.len()
        invariant
            i <= bytes@.len(),
            byte_lists(pieces@).push(current@) == split(bytes@.take(i as int), separator),
        decreases bytes@.len() - i,
    {
        let b = bytes[i];
        let ghost before = split(bytes@.take(i as int), separator);
        let ghost done = byte_lists(pieces@);
        proof {
            assert(bytes@.take(i + 1).drop_last() =~= bytes@.take(i as int));
            assert(bytes@.take(i + 1).last() == b);
            assert(before.drop_last() =~= done);
            assert(before.last() == current@);
        }
        if b == separator {
            pieces.push(current);
            current = Vec::new();
            proof {
                assert(byte_lists(pieces@) =~= before);
            }
        } else {
            current.push(b);
        }
        i += 1;
    }
    proof {
        assert(bytes@.take(bytes@.len() as int) =~= bytes@);
    }
    pieces.push(current);
    proof {
        assert(byte_lists(pieces@) =~= split(bytes@, separator));
    }
    pieces
}

/// The bytes of each element of a list of byte sequences.
pub open spec fn byte_lists(list: Seq<Vec<u8>>) -> Seq<Seq<u8>> {
    Seq::new(list.len(), |i: int| list[i]@)
}

/// Whether the list of characters holds `part` at a place.
fn part_at(chars: &Vec<char>, part: &Vec<char>, at: usize) -> (found: bool)
    requires
        at + part@.len() <= chars@.len(),
    ensures
        found == (chars@.subrange(at as int, at + part@.len()) == part@),
{
    let mut i: usize = 0;
    let count: usize = chars.len();
    let ghost window = chars@.subrange(at as int, at + part@.len());
    while i < part.len()
        invariant
            i <= part@.len(),
            at + part@.len() <= chars@.len(),
            count == chars@.len(),
            window == chars@.subrange(at as int, at + part@.len()),
            forall|j: int| 0 <= j < i ==> window[j] == part@[j],
        decreases part@.len() - i,
    {
        if chars[at + i] != part[i] {
            proof {
                assert(window[i as int] != part@[i as int]);
            }
            return false;
        }
        i += 1;
    }
    proof {
        assert(window =~= part@);
    }
    true
}

/// Whether `part` stands somewhere in a text.
pub fn contains_text(text: &str, part: &str) -> (found: bool)
    ensures
        found == has_part(text@, part@),
{
    let chars = chars_of(text);
    let wanted = chars_of(part);
    if wanted.len() > chars.len() {
        return false;
    }
    let last: usize = chars.len() - wanted.len();
    let mut at: usize = 0;
    loop
        invariant
            last == chars@.len() - wanted@.len(),
            at <= last,
            chars@ == text@,
            wanted@ == part@,
            forall|k: int|
                0 <= k < at ==> #[trigger] chars@.subrange(k, k + wanted@.len()) != wanted@,
        decreases last - at,
    {
        if part_at(&chars, &wanted, at) {
            return true;
        }
        if at == last {
            return false;
        }
        at += 1;
    }
}

/// Whether a character stands in a text.
pub fn contains_char(text: &str, c: char) -> (found: bool)
    ensures
        found == text@.contains(c),
{
    let chars = chars_of(text);
    let mut i: usize = 0;
    while i < chars.len()
        invariant
            i <= chars@.len(),
            chars@ == text@,
            forall|j: int| 0 <= j < i ==> chars@[j] != c,
        decreases chars@.len() - i,
    {
        if chars[i] == c {
            return true;
        }
        i += 1;
    }
    false
}

/// Whether a text begins with a prefix.
pub fn starts_with(text: &str, prefix: &str) -> (found: bool)
    ensures
        found == begins(text@, prefix@),
{
    let chars = chars_of(text);
    let prefix = chars_of(prefix);
    prefix.len() <= chars.len() && part_at(&chars, &prefix, 0)
}

/// Whether a text ends with a suffix.
pub fn ends_with(text: &str, suffix: &str) -> (found: bool)
    ensures
        found == ends(text@, suffix@),
{
    let chars = chars_of(text);
    let suffix = chars_of(suffix);
    suffix.len() <= chars.len() && part_at(&chars, &suffix, chars.len() - suffix.len())
}

/// A text without its first characters.
pub fn without_first(text: &str, count: usize) -> (rest: String)
    requires
        count <= text@.len(),
    ensures
        rest@ == text@.subrange(count as int, text@.len() as int),
{
    let chars = chars_of(text);
    text_between(&chars, count, chars.len())
}

/// What follows a prefix in a text that begins with it.
pub open spec fn after_prefix(s: Seq<char>, prefix: Seq<char>) -> Option<Seq<char>> {
    if begins(s, prefix) {
        Some(s.subrange(prefix.len() as int, s.len() as int))
    } else {
        None
    }
}

/// What follows a prefix in a text that begins with it.
pub fn strip_prefix(text: &str, prefix: &str) -> (rest: Option<String>)
    ensures
        opt_text(rest) == after_prefix(text@, prefix@),
{
    if starts_with(text, prefix) {
        let count: usize = chars_of(prefix).len();
        Some(without_first(text, count))
    } else {
        None
    }
}

/// The text before a suffix, or the whole text if it does not end with it.
pub open spec fn before_suffix(s: Seq<char>, suffix: Seq<char>) -> Seq<char> {
    if ends(s, suffix) {
        s.subrange(0, s.len() - suffix.len())
    } else {
        s
    }
}

/// The text before a suffix, or the whole text if it does not end with it.
pub fn strip_suffix(text: &str, suffix: &str) -> (rest: String)
    ensures
        rest@ == before_suffix(text@, suffix@),
{
    if ends_with(text, suffix) {
        let chars = chars_of(text);
        let count: usize = chars_of(suffix).len();
        text_between(&chars, 0, chars.len() - count)
    } else {
        text.to_owned()
    }
}

/// Before the first place of a character it does not stand, and at that place
/// it does.
pub proof fn lemma_first_index<T>(s: Seq<T>, c: T)
    ensures
        0 <= first_index(s, c) <= s.len(),
        forall|j: int| 0 <= j < first_index(s, c) ==> s[j] != c,
        first_index(s, c) < s.len() ==> s[first_index(s, c)] == c,
        first_index(s, c) < s.len() <==> s.contains(c),
    decreases s.len(),
{
    if s.len() > 0 && s[0] != c {
        let rest = s.subrange(1, s.len() as int);
        lemma_first_index(rest, c);
        assert forall|j: int| 0 <= j < first_index(s, c) implies s[j] != c by {
            if j > 0 {
                assert(rest[j - 1] == s[j]);
            }
        }
        if s.contains(c) {
            let k = choose|k: int| 0 <= k < s.len() && s[k] == c;
            assert(rest[k - 1] == c);
        }
        if rest.contains(c) {
            let k = choose|k: int| 0 <= k < rest.len() && rest[k] == c;
            assert(s[k + 1] == c);
        }
    } else if s.len() > 0 {
        assert(s.contains(s[0]));
    }
}

/// Behind the last place of a character it stands no more.
pub proof fn lemma_last_index<T>(s: Seq<T>, c: T)
    ensures
        -1 <= last_index(s, c) < s.len(),
        forall|j: int| last_index(s, c) < j < s.len() ==> s[j] != c,
        0 <= last_index(s, c) ==> s[last_index(s, c)] == c,
    decreases s.len(),
{
    if s.len() > 0 && s.last() != c {
        lemma_last_index(s.drop_last(), c);
        assert forall|j: int| last_index(s, c) < j < s.len() implies s[j] != c by {
            if j < s.len() - 1 {
                assert(s.drop_last()[j] == s[j]);
            }
        }
    }
}

/// The parts of a text before and behind the first occurrence of a character.
pub open spec fn parted_first(s: Seq<char>, c: char) -> Option<(Seq<char>, Seq<char>)> {
    let at = first_index(s, c);
    if at < s.len() {
        Some((s.subrange(0, at), s.subrange(at + 1, s.len() as int)))
    } else {
        None
    }
}

/// The parts of a text before and behind the last occurrence of a character.
pub open spec fn parted_last(s: Seq<char>, c: char) -> Option<(Seq<char>, Seq<char>)> {
    let at = last_index(s, c);
    if at >= 0 {
        Some((s.subrange(0, at), s.subrange(at + 1, s.len() as int)))
    } else {
        None
    }
}

/// The characters of an optional pair of texts.
pub open spec fn opt_pair(pair: Option<(String, String)>) -> Option<(Seq<char>, Seq<char>)> {
    match pair {
        Some(pair) => Some((pair.0@, pair.1@)),
        None => None,
    }
}

/// The parts of a text before and behind the first occurrence of a character.
pub fn part_first(text: &str, c: char) -> (parts: Option<(String, String)>)
    ensures
        opt_pair(parts) == parted_first(text@, c),
{
    let chars = chars_of(text);
    let mut at: usize = 0;
    proof {
        lemma_first_index(text@, c);
    }
    while at < chars.len() && chars[at] != c
        invariant
            at <= chars@.len(),
            chars@ == text@,
            forall|j: int| 0 <= j < at ==> chars@[j] != c,
        decreases chars@.len() - at,
    {
        at += 1;
    }
    proof {
        let first = first_index(text@, c);
        if at < first {
            assert(text@[at as int] != c);
        }
        if first < at {
            assert(text@[first] != c);
        }
    }
    if at < chars.len() {
        Some((text_between(&chars, 0, at), text_between(&chars, at + 1, chars.len())))
    } else {
        None
    }
}

/// The parts of a text before and behind the last occurrence of a character.
pub fn part_last(text: &str, c: char) -> (parts: Option<(String, String)>)
    ensures
        opt_pair(parts) == parted_last(text@, c),
{
    let chars = chars_of(text);
    let mut end: usize = chars.len();
    proof {
        lemma_last_index(text@, c);
    }
    while end > 0 && chars[end - 1] != c
        invariant
            end <= chars@.len(),
            chars@ == text@,
            forall|j: int| end <= j < chars@.len() ==> chars@[j] != c,
        decreases end,
    {
        end -= 1;
    }
    proof {
        let last = last_index(text@, c);
        if end <= last {
            assert(text@[last] != c);
        }
        if last < end - 1 {
            assert(text@[end - 1] != c);
        }
    }
    if end > 0 {
        Some((text_between(&chars, 0, end - 1), text_between(&chars, end, chars.len())))
    } else {
        None
    }
}

/// The text with its ASCII letters in lower case.
pub fn to_lower(text: &str) -> (lower: String)
    ensures
        lower@ == lowered(text@),
{
    let chars = chars_of(text);
    let mut lower = String::new();
    let mut i: usize = 0;
    while i < chars.len()
        invariant
            i <= chars@.len(),
            chars@ == text@,
            lower@ =~= lowered(text@).take(i as int),
        decreases chars@.len() - i,
    {
        let c = chars[i];
        if 'A' <= c && c <= 'Z' {
            let n: u8 = c as u8;
            lower.push((n + 32) as char);
        } else {
            lower.push(c);
        }
        i += 1;
    }
    lower
}

/// Whether `left` comes before `right` in the order of their code points.
pub fn comes_before(left: &str, right: &str) -> (less: bool)
    ensures
        less == before(left@, right@),
{
    let a = chars_of(left);
    let b = chars_of(right);
    let mut i: usize = 0;
    proof {
        assert(a@.subrange(0, a@.len() as int) =~= left@);
        assert(b@.subrange(0, b@.len() as int) =~= right@);
    }
    loop
        invariant
            i <= a@.len(),
            i <= b@.len(),
            before(left@, right@) == before(
                a@.subrange(i as int, a@.len() as int),
                b@.subrange(i as int, b@.len() as int),
            ),
        decreases a@.len() - i,
    {
        let ghost ra = a@.subrange(i as int, a@.len() as int);
        let ghost rb = b@.subrange(i as int, b@.len() as int);
        if i >= b.len() {
            return false;
        }
        if i >= a.len() {
            return true;
        }
        proof {
            assert(ra[0] == a@[i as int]);
            assert(rb[0] == b@[i as int]);
            assert(ra.subrange(1, ra.len() as int) =~= a@.subrange(i + 1, a@.len() as int));
            assert(rb.subrange(1, rb.len() as int) =~= b@.subrange(i + 1, b@.len() as int));
        }
        if a[i] != b[i] {
            return a[i] < b[i];
        }
        i += 1;
    }
}

/// The order of texts is strict and total: of two texts at most one comes
/// before the other, and if neither does, they are equal.
pub proof fn lemma_before_total(left: Seq<char>, right: Seq<char>)
    ensures
        !(before(left, right) && before(right, left)),
        before(left, right) || before(right, left) || left == right,
        left == right ==> !before(left, right),
    decreases left.len(),
{
    if left.len() > 0 && right.len() > 0 && left[0] == right[0] {
        let l = left.subrange(1, left.len() as int);
        let r = right.subrange(1, right.len() as int);
        lemma_before_total(l, r);
        if l == r {
            assert forall|i: int| 0 <= i < left.len() implies left[i] == right[i] by {
                if i > 0 {
                    assert(left[i] == l[i - 1]);
                    assert(right[i] == r[i - 1]);
                }
            }
            assert(left.len() == l.len() + 1 && right.len() == r.len() + 1);
            assert(left =~= right);
        }
    } else if left.len() == 0 && right.len() == 0 {
        assert(left =~= right);
    }
}

/// The order of texts is transitive.
pub proof fn lemma_before_trans(a: Seq<char>, b: Seq<char>, c: Seq<char>)
    requires
        before(a, b),
        before(b, c),
    ensures
        before(a, c),
    decreases a.len(),
{
    if a.len() > 0 && b.len() > 0 && c.len() > 0 && a[0] == b[0] && b[0] == c[0] {
        lemma_before_trans(
            a.subrange(1, a.len() as int),
            b.subrange(1, b.len() as int),
            c.subrange(1, c.len() as int),
        );
    }
}

/// The decimal digits of a number.
pub fn decimal_text(n: u64) -> (text: String)
    ensures
        text@ == decimal(n as nat),
    decreases n,
{
    let last: u8 = (n % 10) as u8;
    let mut text = if n < 10 {
        String::new()
    } else {
        decimal_text(n / 10)
    };
    text.push((48 + last) as char);
    proof {
        if n < 10 {
            assert(text@ =~= decimal(n as nat));
        }
    }
    text
}

/// The decimal digits of a number, behind a minus sign if it is negative.
pub open spec fn integer(n: int) -> Seq<char> {
    if n < 0 {
        "-"@ + decimal((-n) as nat)
    } else {
        decimal(n as nat)
    }
}

/// The decimal digits of a number, behind a minus sign if it is negative.
pub fn integer_text(n: i64) -> (text: String)
    ensures
        text@ == integer(n as int),
{
    if n < 0 {
        let rest: u64 = (-(n + 1)) as u64;
        cat2("-", decimal_text(rest + 1).as_str())
    } else {
        decimal_text(n as u64)
    }
}

/// Whether a list of texts holds a text.
pub fn list_contains(list: &Vec<String>, text: &str) -> (found: bool)
    ensures
        found == texts(list@).contains(text@),
{
    let mut i: usize = 0;
    while i < list.len()
        invariant
            i <= list@.len(),
            forall|j: int| 0 <= j < i ==> texts(list@)[j] != text@,
        decreases list@.len() - i,
    {
        if text_eq(list[i].as_str(), text) {
            proof {
                assert(texts(list@)[i as int] == text@);
            }
            return true;
        }
        i += 1;
    }
    false
}

/// The pieces of two sequences with a separator in between are the pieces of
/// the first and then those of the second.
pub proof fn lemma_split_concat<T>(left: Seq<T>, right: Seq<T>, separator: T)
    ensures
        split(left.push(separator) + right, separator) == split(left, separator) + split(
            right,
            separator,
        ),
    decreases right.len(),
{
    let whole = left.push(separator) + right;
    lemma_split_nonempty(right, separator);
    if right.len() == 0 {
        assert(whole.drop_last() =~= left);
        assert(whole.last() == separator);
        assert(split(whole, separator) =~= split(left, separator) + split(right, separator));
    } else {
        let shorter = right.drop_last();
        lemma_split_concat(left, shorter, separator);
        lemma_split_nonempty(shorter, separator);
        assert(whole.drop_last() =~= left.push(separator) + shorter);
        assert(whole.last() == right.last());
        let l = split(left, separator);
        let r = split(shorter, separator);
        assert((l + r).drop_last() =~= l + r.drop_last());
        assert((l + r).last() == r.last());
        assert(split(whole, separator) =~= l + split(right, separator));
    }
}

/// Putting the pieces of a sequence together again gives the sequence back.
pub proof fn law_join_undoes_split<T>(s: Seq<T>, separator: T)
    ensures
        join(split(s, separator), separator) == s,
    decreases s.len(),
{
    let pieces = split(s, separator);
    if s.len() == 0 {
        assert(pieces[0] =~= s);
    } else {
        let rest = s.drop_last();
        let earlier = split(rest, separator);
        law_join_undoes_split(rest, separator);
        lemma_split_nonempty(rest, separator);
        if s.last() == separator {
            assert(pieces.drop_last() =~= earlier);
            assert(join(pieces, separator) =~= rest.push(separator));
        } else {
            assert(pieces.drop_last() =~= earlier.drop_last());
            assert(pieces.last() == earlier.last().push(s.last()));
            if earlier.len() == 1 {
                assert(join(pieces, separator) =~= s);
            } else {
                assert(join(pieces, separator) =~= join(earlier, separator).push(s.last()));
            }
        }
        assert(rest.push(s.last()) =~= s);
    }
}

}

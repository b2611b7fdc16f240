//! How the events of a search are printed.

use std::cmp::Ordering;

use vstd::prelude::*;
use vstd::utf8::{decode_utf8, encode_utf8, valid_utf8};

use crate::error::{Error, ErrorModel, Result};
use crate::path::{byte_components, path_byte_components};
use crate::search::{EventModel, MatchEvent, MatchModel, SearchEvent, Submatch};
use crate::sort::{Ranked, lemma_lex_orders, lex, orders, sort, sorted_from};
use crate::text::{
    before, byte_lists, cat3, comes_before, decimal, decimal_text, lemma_before_total,
    lemma_before_trans, lossy, lossy_text, opt_text, utf8,
};

verus! {

/// Puts the bytes of a text behind others.
fn push_text(output: &mut Vec<u8>, text: &str)
    ensures
        final(output)@ == old(output)@ + encode_utf8(text@),
{
    push_bytes(output, text.as_bytes());
}

/// Puts bytes behind others.
fn push_bytes(output: &mut Vec<u8>, bytes: &[u8])
    ensures
        final(output)@ == old(output)@ + bytes@,
{
    let ghost start = output@;
    let mut i: usize = 0;
    proof {
        assert(output@ =~= start + bytes@.take(0));
    }
    while i < bytes.len()
        invariant
            i <= bytes@.len(),
            output@ == start + bytes@.take(i as int),
        decreases bytes@.len() - i,
    {
        output.push(bytes[i]);
        proof {
            assert(output@ =~= start + bytes@.take(i + 1));
        }
        i += 1;
    }
    proof {
        assert(bytes@.take(bytes@.len() as int) =~= bytes@);
    }
}

/// A repository and a path in it.
pub open spec fn prefix_bytes(repo: Seq<char>, path: Seq<u8>, color: bool) -> Seq<u8> {
    if color {
        encode_utf8("\x1b[36m"@) + encode_utf8(repo) + encode_utf8("\x1b[0m:"@) + encode_utf8(
            "\x1b[32m"@,
        ) + path + encode_utf8("\x1b[0m"@)
    } else {
        encode_utf8(repo) + encode_utf8(":"@) + path
    }
}

/// Writes a repository and a path in it.
pub fn write_prefix(output: &mut Vec<u8>, repo: &str, path: &Vec<u8>, color: bool)
    ensures
        final(output)@ == old(output)@ + prefix_bytes(repo@, path@, color),
{
    if color {
        push_text(output, "\x1b[36m");
        push_text(output, repo);
        push_text(output, "\x1b[0m:");
        push_text(output, "\x1b[32m");
        push_bytes(output, path.as_slice());
        push_text(output, "\x1b[0m");
    } else {
        push_text(output, repo);
        push_text(output, ":");
        push_bytes(output, path.as_slice());
    }
    proof {
        assert(output@ =~= old(output)@ + prefix_bytes(repo@, path@, color));
    }
}

/// Whether a match can be highlighted: it comes behind what was written, is not
/// empty and lies in the line.
pub open spec fn can_highlight(found: Submatch, cursor: int, length: int) -> bool {
    cursor <= found.start < found.end <= length
}

/// A line from a place on, with those of its matches from a number on
/// highlighted that can be.
pub open spec fn highlighted(
    text: Seq<u8>,
    submatches: Seq<Submatch>,
    from: int,
    cursor: int,
) -> Seq<u8>
    decreases submatches.len() - from,
{
    if from >= submatches.len() {
        text.subrange(cursor, text.len() as int)
    } else {
        let found = submatches[from];
        if can_highlight(found, cursor, text.len() as int) {
            text.subrange(cursor, found.start as int) + encode_utf8("\x1b[1;31m"@)
                + text.subrange(found.start as int, found.end as int) + encode_utf8("\x1b[0m"@)
                + highlighted(text, submatches, from + 1, found.end as int)
        } else {
            highlighted(text, submatches, from + 1, cursor)
        }
    }
}

/// Puts a part of some bytes behind others.
fn push_part(output: &mut Vec<u8>, bytes: &Vec<u8>, from: usize, to: usize)
    requires
        from <= to <= bytes@.len(),
    ensures
        final(output)@ == old(output)@ + bytes@.subrange(from as int, to as int),
{
    let ghost start = output@;
    let mut i: usize = from;
    proof {
        assert(output@ =~= start + bytes@.subrange(from as int, from as int));
    }
    while i < to
        invariant
            from <= i <= to <= bytes@.len(),
            output@ == start + bytes@.subrange(from as int, i as int),
        decreases to - i,
    {
        output.push(bytes[i]);
        proof {
            assert(output@ =~= start + bytes@.subrange(from as int, i + 1));
        }
        i += 1;
    }
}

/// Writes a line with its matches highlighted.
pub fn write_highlighted_matches(
    output: &mut Vec<u8>,
    text: &Vec<u8>,
    submatches: &Vec<Submatch>,
)
    ensures
        final(output)@ == old(output)@ + highlighted(text@, submatches@, 0, 0),
{
    let ghost start = output@;
    let mut cursor: usize = 0;
    let mut i: usize = 0;
    while i < submatches.len()
        invariant
            i <= submatches@.len(),
            cursor <= text@.len(),
            output@ + highlighted(text@, submatches@, i as int, cursor as int) == start
                + highlighted(text@, submatches@, 0, 0),
        decreases submatches@.len() - i,
    {
        let found = submatches[i];
        let ghost earlier = output@;
        if cursor <= found.start && found.start < found.end && found.end <= text.len() {
            push_part(output, text, cursor, found.start);
            push_text(output, "\x1b[1;31m");
            push_part(output, text, found.start, found.end);
            push_text(output, "\x1b[0m");
            proof {
                assert(output@ + highlighted(text@, submatches@, i + 1, found.end as int)
                    =~= earlier + highlighted(text@, submatches@, i as int, cursor as int));
            }
            cursor = found.end;
        }
        i += 1;
    }
    push_part(output, text, cursor, text.len());
}

/// A line that matches, or one around it.
pub open spec fn match_bytes(found: MatchModel, color: bool) -> Seq<u8> {
    let separator = encode_utf8(
        if found.context {
            "-"@
        } else {
            ":"@
        },
    );
    prefix_bytes(found.repo, found.path, color) + separator + encode_utf8(
        decimal(found.line as nat),
    ) + (match found.column {
        Some(column) => encode_utf8(":"@) + encode_utf8(decimal(column as nat)),
        None => Seq::empty(),
    }) + separator + (if color && !found.context {
        highlighted(found.text, found.submatches, 0, 0)
    } else {
        found.text
    }) + encode_utf8("\n"@)
}

/// Writes a line that matches, or one around it.
pub fn write_match(output: &mut Vec<u8>, found: &MatchEvent, color: bool)
    ensures
        final(output)@ == old(output)@ + match_bytes(found@, color),
{
    let separator = if found.context {
        "-"
    } else {
        ":"
    };
    let mut line: Vec<u8> = Vec::new();
    write_prefix(&mut line, found.repo.as_str(), &found.path, color);
    proof {
        assert(line@ =~= prefix_bytes(found@.repo, found@.path, color));
    }
    push_text(&mut line, separator);
    push_text(&mut line, decimal_text(found.line).as_str());
    let ghost numbered = line@;
    if let Some(column) = found.column {
        push_text(&mut line, ":");
        push_text(&mut line, decimal_text(column as u64).as_str());
        proof {
            assert(line@ =~= numbered + (encode_utf8(":"@) + encode_utf8(decimal(column as nat))));
        }
    } else {
        proof {
            assert(line@ =~= numbered + Seq::empty());
        }
    }
    push_text(&mut line, separator);
    if color && !found.context {
        write_highlighted_matches(&mut line, &found.text, &found.submatches);
    } else {
        push_bytes(&mut line, found.text.as_slice());
    }
    push_text(&mut line, "\n");
    push_bytes(output, line.as_slice());
}

/// What is printed for an event, if not as JSON.
pub open spec fn event_bytes(event: EventModel, color: bool) -> Seq<u8> {
    match event {
        EventModel::Match(found) => match_bytes(found, color),
        EventModel::File { repo, path } => prefix_bytes(repo, path, color) + encode_utf8("\n"@),
        EventModel::Repo { repo } => encode_utf8(repo) + encode_utf8("\n"@),
        EventModel::Count { repo, path, count } => prefix_bytes(repo, path, color) + encode_utf8(
            ":"@,
        ) + encode_utf8(decimal(count as nat)) + encode_utf8("\n"@),
        EventModel::Error { .. } => Seq::empty(),
    }
}

/// Writes an event, not as JSON.
pub fn write_event(output: &mut Vec<u8>, event: &SearchEvent, color: bool)
    ensures
        final(output)@ == old(output)@ + event_bytes(event@, color),
{
    let ghost start = output@;
    match event {
        SearchEvent::Match(found) => write_match(output, found, color),
        SearchEvent::File { repo, path } => {
            write_prefix(output, repo.as_str(), path, color);
            push_text(output, "\n");
        },
        SearchEvent::Repo { repo } => {
            push_text(output, repo.as_str());
            push_text(output, "\n");
        },
        SearchEvent::Count { repo, path, count } => {
            write_prefix(output, repo.as_str(), path, color);
            push_text(output, ":");
            push_text(output, decimal_text(*count).as_str());
            push_text(output, "\n");
        },
        SearchEvent::Error { .. } => {},
    }
    proof {
        assert(output@ =~= start + event_bytes(event@, color));
    }
}

/// A digit of the standard base64 alphabet.
pub open spec fn base64_digit(n: int) -> char {
    if n < 26 {
        ((65 + n) as u32) as char
    } else if n < 52 {
        ((71 + n) as u32) as char
    } else if n < 62 {
        ((n - 4) as u32) as char
    } else if n == 62 {
        '+'
    } else {
        '/'
    }
}

/// The base64 of some bytes, with padding: four digits for three bytes.
pub open spec fn base64(bytes: Seq<u8>) -> Seq<char>
    decreases bytes.len(),
{
    if bytes.len() == 0 {
        Seq::empty()
    } else if bytes.len() == 1 {
        let a = bytes[0] as int;
        seq![base64_digit(a / 4), base64_digit(a % 4 * 16), '=', '=']
    } else if bytes.len() == 2 {
        let (a, b) = (bytes[0] as int, bytes[1] as int);
        seq![
            base64_digit(a / 4),
            base64_digit(a % 4 * 16 + b / 16),
            base64_digit(b % 16 * 4),
            '=',
        ]
    } else {
        let (a, b, c) = (bytes[0] as int, bytes[1] as int, bytes[2] as int);
        seq![
            base64_digit(a / 4),
            base64_digit(a % 4 * 16 + b / 16),
            base64_digit(b % 16 * 4 + c / 64),
            base64_digit(c % 64),
        ] + base64(bytes.skip(3))
    }
}

/// `encode` of `base64::engine::general_purpose::STANDARD`: the base64 of some
/// bytes in the standard alphabet, with padding. It panics only on more bytes
/// than a slice can hold.
#[verifier::external_body]
fn base64_text(bytes: &[u8]) -> (text: String)
    ensures
        text@ == base64(bytes@),
{
    base64::Engine::encode(&base64::engine::general_purpose::STANDARD, bytes)
}

/// Bytes in JSON: as the text whose UTF-8 they are, or else in base64.
#[derive(Debug, PartialEq, Eq)]
pub enum JsonBytes {
    Text(String),
    Base64(String),
}

/// Bytes in JSON, with their text as characters.
pub enum BytesModel {
    Text(Seq<char>),
    Base64(Seq<char>),
}

impl View for JsonBytes {
    type V = BytesModel;

    open spec fn view(&self) -> BytesModel {
        match self {
            JsonBytes::Text(text) => BytesModel::Text(text@),
            JsonBytes::Base64(text) => BytesModel::Base64(text@),
        }
    }
}

/// Bytes in JSON.
pub open spec fn bytes_model(bytes: Seq<u8>) -> BytesModel {
    if valid_utf8(bytes) {
        BytesModel::Text(decode_utf8(bytes))
    } else {
        BytesModel::Base64(base64(bytes))
    }
}

/// Bytes in JSON.
pub fn json_bytes(bytes: &[u8]) -> (json: JsonBytes)
    ensures
        json@ == bytes_model(bytes@),
{
    match utf8(bytes) {
        Some(text) => JsonBytes::Text(text),
        None => JsonBytes::Base64(base64_text(bytes)),
    }
}

/// The value of a field in JSON.
#[derive(Debug, PartialEq, Eq)]
pub enum JsonValue {
    Null,
    Number(u64),
    Text(String),
    Bytes(JsonBytes),
    Spans(Vec<Submatch>),
}

/// A field in JSON.
#[derive(Debug, PartialEq, Eq)]
pub struct JsonField {
    pub name: String,
    pub value: JsonValue,
}

/// The value of a field in JSON, with its texts as characters.
pub enum ValueModel {
    Null,
    Number(u64),
    Text(Seq<char>),
    Bytes(BytesModel),
    Spans(Seq<Submatch>),
}

impl View for JsonValue {
    type V = ValueModel;

    open spec fn view(&self) -> ValueModel {
        match self {
            JsonValue::Null => ValueModel::Null,
            JsonValue::Number(number) => ValueModel::Number(*number),
            JsonValue::Text(text) => ValueModel::Text(text@),
            JsonValue::Bytes(bytes) => ValueModel::Bytes(bytes@),
            JsonValue::Spans(spans) => ValueModel::Spans(spans@),
        }
    }
}

/// The fields of a list, by their names.
pub open spec fn fields(list: Seq<JsonField>) -> Seq<(Seq<char>, ValueModel)> {
    Seq::new(list.len(), |i: int| (list[i].name@, list[i].value@))
}

/// The fields of an event in JSON.
pub open spec fn event_fields(event: EventModel) -> Seq<(Seq<char>, ValueModel)> {
    match event {
        EventModel::Match(found) => seq![
            (
                "type"@,
                ValueModel::Text(
                    if found.context {
                        "context"@
                    } else {
                        "match"@
                    },
                ),
            ),
            ("repo"@, ValueModel::Text(found.repo)),
            ("path"@, ValueModel::Bytes(bytes_model(found.path))),
            ("line"@, ValueModel::Number(found.line)),
            (
                "column"@,
                match found.column {
                    Some(column) => ValueModel::Number(column as u64),
                    None => ValueModel::Null,
                },
            ),
            ("text"@, ValueModel::Bytes(bytes_model(found.text))),
            ("submatches"@, ValueModel::Spans(found.submatches)),
        ],
        EventModel::File { repo, path } => seq![
            ("type"@, ValueModel::Text("file"@)),
            ("repo"@, ValueModel::Text(repo)),
            ("path"@, ValueModel::Bytes(bytes_model(path))),
        ],
        EventModel::Repo { repo } => seq![
            ("type"@, ValueModel::Text("repo"@)),
            ("repo"@, ValueModel::Text(repo)),
        ],
        EventModel::Count { repo, path, count } => seq![
            ("type"@, ValueModel::Text("count"@)),
            ("repo"@, ValueModel::Text(repo)),
            ("path"@, ValueModel::Bytes(bytes_model(path))),
            ("count"@, ValueModel::Number(count)),
        ],
        EventModel::Error { path, message } => seq![
            ("type"@, ValueModel::Text("error"@)),
            (
                "path"@,
                match path {
                    Some(path) => ValueModel::Bytes(bytes_model(path)),
                    None => ValueModel::Null,
                },
            ),
            ("message"@, ValueModel::Text(message)),
        ],
    }
}

/// A copy of some matches.
fn copy_spans(spans: &Vec<Submatch>) -> (copy: Vec<Submatch>)
    ensures
        copy@ == spans@,
{
    let mut copy: Vec<Submatch> = Vec::new();
    let mut i: usize = 0;
    while i < spans.len()
        invariant
            i <= spans@.len(),
            copy@ == spans@.take(i as int),
        decreases spans@.len() - i,
    {
        copy.push(spans[i]);
        proof {
            assert(spans@.take(i + 1) =~= spans@.take(i as int).push(spans@[i as int]));
        }
        i += 1;
    }
    proof {
        assert(spans@.take(spans@.len() as int) =~= spans@);
    }
    copy
}

/// Puts a field behind others.
fn push_field(list: &mut Vec<JsonField>, name: &str, value: JsonValue)
    ensures
        fields(final(list)@) == fields(old(list)@).push((name@, value@)),
{
    list.push(JsonField { name: name.to_owned(), value });
    proof {
        assert(fields(list@) =~= fields(old(list)@).push((name@, value@)));
    }
}

/// The fields of an event in JSON.
pub fn json_event(event: &SearchEvent) -> (list: Vec<JsonField>)
    ensures
        fields(list@) == event_fields(event@),
{
    let mut list: Vec<JsonField> = Vec::new();
    match event {
        SearchEvent::Match(found) => {
            let kind = if found.context {
                "context"
            } else {
                "match"
            };
            push_field(&mut list, "type", JsonValue::Text(kind.to_owned()));
            push_field(&mut list, "repo", JsonValue::Text(found.repo.clone()));
            push_field(&mut list, "path", JsonValue::Bytes(json_bytes(found.path.as_slice())));
            push_field(&mut list, "line", JsonValue::Number(found.line));
            let column = match found.column {
                Some(column) => JsonValue::Number(column as u64),
                None => JsonValue::Null,
            };
            push_field(&mut list, "column", column);
            push_field(&mut list, "text", JsonValue::Bytes(json_bytes(found.text.as_slice())));
            push_field(&mut list, "submatches", JsonValue::Spans(copy_spans(&found.submatches)));
        },
        SearchEvent::File { repo, path } => {
            push_field(&mut list, "type", JsonValue::Text("file".to_owned()));
            push_field(&mut list, "repo", JsonValue::Text(repo.clone()));
            push_field(&mut list, "path", JsonValue::Bytes(json_bytes(path.as_slice())));
        },
        SearchEvent::Repo { repo } => {
            push_field(&mut list, "type", JsonValue::Text("repo".to_owned()));
            push_field(&mut list, "repo", JsonValue::Text(repo.clone()));
        },
        SearchEvent::Count { repo, path, count } => {
            push_field(&mut list, "type", JsonValue::Text("count".to_owned()));
            push_field(&mut list, "repo", JsonValue::Text(repo.clone()));
            push_field(&mut list, "path", JsonValue::Bytes(json_bytes(path.as_slice())));
            push_field(&mut list, "count", JsonValue::Number(*count));
        },
        SearchEvent::Error { path, message } => {
            push_field(&mut list, "type", JsonValue::Text("error".to_owned()));
            let path = match path {
                Some(path) => JsonValue::Bytes(json_bytes(path.as_slice())),
                None => JsonValue::Null,
            };
            push_field(&mut list, "path", path);
            push_field(&mut list, "message", JsonValue::Text(message.clone()));
        },
    }
    proof {
        assert(fields(list@) =~= event_fields(event@));
    }
    list
}

/// What a component of a path is: the root, the directory itself, the one above
/// it, or a name.
pub open spec fn component_kind(component: Seq<u8>) -> int {
    if component == seq![47u8] {
        0
    } else if component == seq![46u8] {
        1
    } else if component == seq![46u8, 46u8] {
        2
    } else {
        3
    }
}

/// Whether one byte is less than another.
pub open spec fn byte_less() -> spec_fn(u8, u8) -> bool {
    |a: u8, b: u8| a < b
}

/// Whether a component of a path comes before another.
pub open spec fn component_less() -> spec_fn(Seq<u8>, Seq<u8>) -> bool {
    |a: Seq<u8>, b: Seq<u8>|
        {
            ||| component_kind(a) < component_kind(b)
            ||| component_kind(a) == 3 && component_kind(b) == 3 && lex(byte_less(), a, b)
        }
}

/// By what events are sorted: the repository, the path, the line and the kind.
#[derive(Debug)]
pub struct SortKey {
    repo: String,
    path: Vec<Vec<u8>>,
    line: u64,
    kind: u8,
}

/// By what events are sorted, with its texts as characters and bytes.
pub struct KeyModel {
    pub repo: Seq<char>,
    pub path: Seq<Seq<u8>>,
    pub line: u64,
    pub kind: u8,
}

impl View for SortKey {
    type V = KeyModel;

    closed spec fn view(&self) -> KeyModel {
        KeyModel {
            repo: self.repo@,
            path: byte_lists(self.path@),
            line: self.line,
            kind: self.kind,
        }
    }
}

/// Whether one key comes before another.
pub open spec fn key_before(a: KeyModel, b: KeyModel) -> bool {
    if before(a.repo, b.repo) {
        true
    } else if before(b.repo, a.repo) {
        false
    } else if lex(component_less(), a.path, b.path) {
        true
    } else if lex(component_less(), b.path, a.path) {
        false
    } else {
        a.line < b.line || a.line == b.line && a.kind < b.kind
    }
}

/// By what an event is sorted.
pub open spec fn event_key(event: EventModel) -> KeyModel {
    match event {
        EventModel::Match(found) => KeyModel {
            repo: found.repo,
            path: byte_components(found.path),
            line: found.line,
            kind: if found.context {
                1
            } else {
                0
            },
        },
        EventModel::File { repo, path } => KeyModel {
            repo,
            path: byte_components(path),
            line: 0,
            kind: 2,
        },
        EventModel::Count { repo, path, .. } => KeyModel {
            repo,
            path: byte_components(path),
            line: 0,
            kind: 2,
        },
        EventModel::Repo { repo } => KeyModel { repo, path: Seq::empty(), line: 0, kind: 3 },
        EventModel::Error { path, .. } => KeyModel {
            repo: Seq::empty(),
            path: match path {
                Some(path) => byte_components(path),
                None => Seq::empty(),
            },
            line: 0,
            kind: 4,
        },
    }
}

/// By what an event is sorted.
pub fn event_sort_key(event: &SearchEvent) -> (key: SortKey)
    ensures
        key@ == event_key(event@),
{
    let key = match event {
        SearchEvent::Match(found) => SortKey {
            repo: found.repo.clone(),
            path: path_byte_components(found.path.as_slice()),
            line: found.line,
            kind: if found.context {
                1
            } else {
                0
            },
        },
        SearchEvent::File { repo, path } => SortKey {
            repo: repo.clone(),
            path: path_byte_components(path.as_slice()),
            line: 0,
            kind: 2,
        },
        SearchEvent::Count { repo, path, .. } => SortKey {
            repo: repo.clone(),
            path: path_byte_components(path.as_slice()),
            line: 0,
            kind: 2,
        },
        SearchEvent::Repo { repo } => SortKey {
            repo: repo.clone(),
            path: Vec::new(),
            line: 0,
            kind: 3,
        },
        SearchEvent::Error { path, .. } => SortKey {
            repo: String::new(),
            path: match path {
                Some(path) => path_byte_components(path.as_slice()),
                None => Vec::new(),
            },
            line: 0,
            kind: 4,
        },
    };
    proof {
        assert(key@.repo =~= event_key(event@).repo);
        assert(key@.path =~= event_key(event@).path);
    }
    key
}

/// Whether some bytes come before others.
fn bytes_before(left: &Vec<u8>, right: &Vec<u8>) -> (found: bool)
    ensures
        found == lex(byte_less(), left@, right@),
{
    let ghost l = left@;
    let ghost r = right@;
    let mut i: usize = 0;
    proof {
        assert(l.subrange(0, l.len() as int) =~= l);
        assert(r.subrange(0, r.len() as int) =~= r);
    }
    while i < left.len() && i < right.len()
        invariant
            l == left@,
            r == right@,
            i <= l.len(),
            i <= r.len(),
            lex(byte_less(), l, r) == lex(
                byte_less(),
                l.subrange(i as int, l.len() as int),
                r.subrange(i as int, r.len() as int),
            ),
        decreases l.len() - i,
    {
        proof {
            let a = l.subrange(i as int, l.len() as int);
            let b = r.subrange(i as int, r.len() as int);
            assert(a[0] == l[i as int] && b[0] == r[i as int]);
            assert(a.subrange(1, a.len() as int) =~= l.subrange(i + 1, l.len() as int));
            assert(b.subrange(1, b.len() as int) =~= r.subrange(i + 1, r.len() as int));
        }
        if left[i] < right[i] {
            return true;
        }
        if right[i] < left[i] {
            return false;
        }
        i += 1;
    }
    i < right.len()
}

/// What a component of a path is.
fn kind_of(component: &Vec<u8>) -> (kind: u8)
    ensures
        kind == component_kind(component@),
{
    proof {
        if component@.len() == 1 {
            assert(component@ =~= seq![component@[0]]);
        }
        if component@.len() == 2 {
            assert(component@ =~= seq![component@[0], component@[1]]);
        }
    }
    if component.len() == 1 && component[0] == 47 {
        0
    } else if component.len() == 1 && component[0] == 46 {
        1
    } else if component.len() == 2 && component[0] == 46 && component[1] == 46 {
        2
    } else {
        3
    }
}

/// Whether a component of a path comes before another.
fn component_before(left: &Vec<u8>, right: &Vec<u8>) -> (found: bool)
    ensures
        found == component_less()(left@, right@),
{
    let l = kind_of(left);
    let r = kind_of(right);
    l < r || (l == 3 && r == 3 && bytes_before(left, right))
}

/// Whether the components of a path come before others.
fn components_before(left: &Vec<Vec<u8>>, right: &Vec<Vec<u8>>) -> (found: bool)
    ensures
        found == lex(component_less(), byte_lists(left@), byte_lists(right@)),
{
    let ghost l = byte_lists(left@);
    let ghost r = byte_lists(right@);
    let mut i: usize = 0;
    proof {
        assert(l.subrange(0, l.len() as int) =~= l);
        assert(r.subrange(0, r.len() as int) =~= r);
    }
    while i < left.len() && i < right.len()
        invariant
            l == byte_lists(left@),
            r == byte_lists(right@),
            i <= l.len(),
            i <= r.len(),
            lex(component_less(), l, r) == lex(
                component_less(),
                l.subrange(i as int, l.len() as int),
                r.subrange(i as int, r.len() as int),
            ),
        decreases l.len() - i,
    {
        proof {
            let a = l.subrange(i as int, l.len() as int);
            let b = r.subrange(i as int, r.len() as int);
            assert(a[0] == left@[i as int]@ && b[0] == right@[i as int]@);
            assert(a.subrange(1, a.len() as int) =~= l.subrange(i + 1, l.len() as int));
            assert(b.subrange(1, b.len() as int) =~= r.subrange(i + 1, r.len() as int));
        }
        if component_before(&left[i], &right[i]) {
            return true;
        }
        if component_before(&right[i], &left[i]) {
            return false;
        }
        i += 1;
    }
    i < right.len()
}

/// Components of paths are ordered by ranks.
proof fn lemma_component_order()
    ensures
        orders(component_less()),
{
    assert(orders(byte_less()));
    assert forall|a: Seq<u8>, b: Seq<u8>| #[trigger] component_less()(a, b) implies !component_less()(
        b,
        a,
    ) by {
        lemma_lex_orders(byte_less(), a, b, a);
    }
    assert forall|a: Seq<u8>, b: Seq<u8>, c: Seq<u8>| #[trigger]
        component_less()(a, b) implies #[trigger] component_less()(a, c) || component_less()(
        c,
        b,
    ) by {
        lemma_lex_orders(byte_less(), a, b, c);
    }
}

impl Ranked for SearchEvent {
    open spec fn ranks_before(self, other: SearchEvent) -> bool {
        key_before(event_key(self@), event_key(other@))
    }

    proof fn lemma_ranks(a: SearchEvent, b: SearchEvent, c: SearchEvent) {
        let (x, y, z) = (event_key(a@), event_key(b@), event_key(c@));
        lemma_before_total(x.repo, y.repo);
        lemma_before_total(x.repo, z.repo);
        lemma_before_total(z.repo, y.repo);
        if before(z.repo, x.repo) && before(x.repo, y.repo) {
            lemma_before_trans(z.repo, x.repo, y.repo);
        }
        lemma_component_order();
        lemma_lex_orders(component_less(), x.path, y.path, z.path);
        lemma_lex_orders(component_less(), y.path, x.path, z.path);
        lemma_lex_orders(component_less(), x.path, z.path, y.path);
        lemma_lex_orders(component_less(), z.path, x.path, y.path);
        lemma_lex_orders(component_less(), y.path, z.path, x.path);
        lemma_lex_orders(component_less(), z.path, y.path, x.path);
    }

    fn is_before(&self, other: &SearchEvent) -> (found: bool) {
        let left = event_sort_key(self);
        let right = event_sort_key(other);
        if comes_before(left.repo.as_str(), right.repo.as_str()) {
            true
        } else if comes_before(right.repo.as_str(), left.repo.as_str()) {
            false
        } else if components_before(&left.path, &right.path) {
            true
        } else if components_before(&right.path, &left.path) {
            false
        } else {
            left.line < right.line || (left.line == right.line && left.kind < right.kind)
        }
    }
}

/// How two events are ordered: by their repositories, paths, lines and kinds.
pub fn compare_events(left: &SearchEvent, right: &SearchEvent) -> (order: Ordering)
    ensures
        order == (if left.ranks_before(*right) {
            Ordering::Less
        } else if right.ranks_before(*left) {
            Ordering::Greater
        } else {
            Ordering::Equal
        }),
{
    if left.is_before(right) {
        Ordering::Less
    } else if right.is_before(left) {
        Ordering::Greater
    } else {
        Ordering::Equal
    }
}

/// Something that is printed.
#[derive(Debug, PartialEq, Eq)]
pub enum Printed {
    /// Bytes to the standard output.
    Bytes(Vec<u8>),
    /// A line of JSON to the standard output.
    Json(Vec<JsonField>),
    /// A line to the standard error.
    Complaint(String),
}

/// Something that is printed, with its texts as characters and bytes.
pub enum PrintedModel {
    Bytes(Seq<u8>),
    Json(Seq<(Seq<char>, ValueModel)>),
    Complaint(Seq<char>),
}

impl View for Printed {
    type V = PrintedModel;

    open spec fn view(&self) -> PrintedModel {
        match self {
            Printed::Bytes(bytes) => PrintedModel::Bytes(bytes@),
            Printed::Json(list) => PrintedModel::Json(fields(list@)),
            Printed::Complaint(text) => PrintedModel::Complaint(text@),
        }
    }
}

/// What is printed for an event.
pub open spec fn printed(event: EventModel, json: bool, color: bool) -> PrintedModel {
    if json {
        PrintedModel::Json(event_fields(event))
    } else {
        PrintedModel::Bytes(event_bytes(event, color))
    }
}

/// The line to the standard error about something that could not be searched.
pub open spec fn complaint(path: Option<Seq<u8>>, message: Seq<char>) -> Seq<char> {
    match path {
        Some(path) => lossy_text(path) + ": "@ + message,
        None => message,
    }
}

/// How the events of a search are printed.
#[derive(Debug)]
pub struct Output {
    json: bool,
    color: bool,
    sort: bool,
    buffered: Vec<SearchEvent>,
    error: Option<String>,
}

impl Output {
    /// Whether events are printed as JSON.
    pub closed spec fn as_json(self) -> bool {
        self.json
    }

    /// Whether events are printed in color.
    pub closed spec fn in_color(self) -> bool {
        self.color
    }

    /// Whether events are held back to be sorted.
    pub closed spec fn sorts(self) -> bool {
        self.sort
    }

    /// The events that are held back.
    pub closed spec fn held_back(self) -> Seq<SearchEvent> {
        self.buffered@
    }

    /// The first failure to print something.
    pub closed spec fn failure(self) -> Option<Seq<char>> {
        opt_text(self.error)
    }

    /// Whether only what is held back may differ between two states.
    pub open spec fn same_settings(self, other: Output) -> bool {
        &&& self.as_json() == other.as_json()
        &&& self.in_color() == other.in_color()
        &&& self.sorts() == other.sorts()
        &&& self.failure() == other.failure()
    }

    /// An output to which nothing was printed.
    pub fn new(json: bool, color: bool, sort: bool) -> (output: Output)
        ensures
            output.as_json() == json,
            output.in_color() == color,
            output.sorts() == sort,
            output.held_back() == Seq::<SearchEvent>::empty(),
            output.failure() is None,
    {
        Output { json, color, sort, buffered: Vec::new(), error: None }
    }

    /// What is printed at once for an event. Events are held back if they are to
    /// be sorted; errors are complained about at once, unless in JSON.
    pub fn handle(&mut self, event: SearchEvent) -> (line: Option<Printed>)
        ensures
            final(self).same_settings(*old(self)),
            match event@ {
                EventModel::Error { path, message } if !old(self).as_json() => {
                    &&& final(self).held_back() == old(self).held_back()
                    &&& line matches Some(line) && line@ == PrintedModel::Complaint(
                        complaint(path, message),
                    )
                },
                _ => if old(self).sorts() {
                    &&& final(self).held_back() == old(self).held_back().push(event)
                    &&& line is None
                } else {
                    &&& final(self).held_back() == old(self).held_back()
                    &&& line matches Some(line) && line@ == printed(
                        event@,
                        old(self).as_json(),
                        old(self).in_color(),
                    )
                },
            },
    {
        if !self.json {
            if let SearchEvent::Error { path, message } = &event {
                let text = match path {
                    Some(path) => cat3(lossy(path.as_slice()).as_str(), ": ", message.as_str()),
                    None => message.clone(),
                };
                return Some(Printed::Complaint(text));
            }
        }
        if self.sort {
            self.buffered.push(event);
            return None;
        }
        Some(print_event(&event, self.json, self.color))
    }

    /// What is printed at the end: the events that were held back, sorted.
    pub fn finish(&mut self) -> (list: Vec<Printed>)
        ensures
            final(self).same_settings(*old(self)),
            final(self).held_back() == Seq::<SearchEvent>::empty(),
            exists|events: Seq<SearchEvent>|
                {
                    &&& #[trigger] sorted_from(old(self).held_back(), events)
                    &&& list@.len() == events.len()
                    &&& forall|i: int|
                        0 <= i < events.len() ==> (#[trigger] list@[i])@ == printed(
                            events[i]@,
                            old(self).as_json(),
                            old(self).in_color(),
                        )
                },
    {
        let mut buffered: Vec<SearchEvent> = Vec::new();
        std::mem::swap(&mut buffered, &mut self.buffered);
        let events = sort(buffered);
        let mut list: Vec<Printed> = Vec::new();
        let mut i: usize = 0;
        while i < events.len()
            invariant
                i <= events@.len(),
                list@.len() == i,
                forall|j: int|
                    0 <= j < i ==> (#[trigger] list@[j])@ == printed(
                        events@[j]@,
                        self.json,
                        self.color,
                    ),
            decreases events@.len() - i,
        {
            list.push(print_event(&events[i], self.json, self.color));
            i += 1;
        }
        proof {
            assert(sorted_from(old(self).held_back(), events@));
        }
        list
    }

    /// Notes that something could not be printed; only the first time counts.
    pub fn record_error(&mut self, message: String)
        ensures
            final(self).as_json() == old(self).as_json(),
            final(self).in_color() == old(self).in_color(),
            final(self).sorts() == old(self).sorts(),
            final(self).held_back() == old(self).held_back(),
            final(self).failure() == (match old(self).failure() {
                Some(first) => Some(first),
                None => Some(message@),
            }),
    {
        if self.error.is_none() {
            self.error = Some(message);
        }
    }

    /// Whether everything could be printed.
    pub fn result(&self) -> (result: Result<()>)
        ensures
            match self.failure() {
                None => result is Ok,
                Some(message) => result matches Err(error) && error@ == (ErrorModel::Write {
                    path: "<stdout>"@,
                    source: message,
                }),
            },
    {
        match &self.error {
            None => Ok(()),
            Some(message) => Err(
                Error::Write { path: "<stdout>".to_owned(), source: message.clone() },
            ),
        }
    }
}

/// What is printed for an event.
fn print_event(event: &SearchEvent, json: bool, color: bool) -> (line: Printed)
    ensures
        line@ == printed(event@, json, color),
{
    if json {
        return Printed::Json(json_event(event));
    }
    let mut bytes: Vec<u8> = Vec::new();
    write_event(&mut bytes, event, color);
    proof {
        assert(bytes@ =~= event_bytes(event@, color));
    }
    Printed::Bytes(bytes)
}

}

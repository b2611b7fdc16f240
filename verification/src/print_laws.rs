//! What holds of what is printed.

use vstd::prelude::*;
use vstd::utf8::{encode_utf8, valid_utf8};

use crate::output::{
    BytesModel, PrintedModel, ValueModel, base64, bytes_model, can_highlight, component_kind,
    component_less, event_key, highlighted, key_before, printed,
};
use crate::path::byte_components;
use crate::search::{EventModel, MatchModel, Submatch};
use crate::sort::lex;
use crate::text::{before, decimal, lemma_before_total};

verus! {

/// Whether some bytes are a code for a terminal that prints nothing.
pub open spec fn is_code(bytes: Seq<u8>) -> bool {
    bytes.len() >= 2 && bytes[0] == 0x1b && bytes.last() == 109
}

/// Whether some bytes are others with codes for a terminal in between.
pub open spec fn painted(colored: Seq<u8>, plain: Seq<u8>) -> bool
    decreases colored.len(),
{
    ||| colored.len() == 0 && plain.len() == 0
    ||| colored.len() > 0 && plain.len() > 0 && colored[0] == plain[0] && painted(
        colored.skip(1),
        plain.skip(1),
    )
    ||| exists|n: int|
        #![trigger colored.take(n)]
        2 <= n <= colored.len() && is_code(colored.take(n)) && painted(colored.skip(n), plain)
}

/// Bytes are painted as themselves.
proof fn lemma_unpainted(bytes: Seq<u8>)
    ensures
        painted(bytes, bytes),
    decreases bytes.len(),
{
    if bytes.len() > 0 {
        lemma_unpainted(bytes.skip(1));
    }
}

/// A code is painted as nothing.
proof fn lemma_code(code: Seq<u8>)
    requires
        is_code(code),
    ensures
        painted(code, Seq::empty()),
{
    assert(code.take(code.len() as int) =~= code);
    assert(code.skip(code.len() as int) =~= Seq::empty());
    assert(painted(code.skip(code.len() as int), Seq::empty()));
}

/// Painted bytes behind painted bytes are painted.
proof fn lemma_painted(colored: Seq<u8>, plain: Seq<u8>, more: Seq<u8>, rest: Seq<u8>)
    requires
        painted(colored, plain),
        painted(more, rest),
    ensures
        painted(colored + more, plain + rest),
    decreases colored.len(),
{
    let whole = colored + more;
    let all = plain + rest;
    if colored.len() == 0 && plain.len() == 0 {
        assert(whole =~= more);
        assert(all =~= rest);
    } else if colored.len() > 0 && plain.len() > 0 && colored[0] == plain[0] && painted(
        colored.skip(1),
        plain.skip(1),
    ) {
        lemma_painted(colored.skip(1), plain.skip(1), more, rest);
        assert(whole.skip(1) =~= colored.skip(1) + more);
        assert(all.skip(1) =~= plain.skip(1) + rest);
        assert(whole[0] == all[0]);
    } else {
        let n = choose|n: int|
            #![trigger colored.take(n)]
            2 <= n <= colored.len() && is_code(colored.take(n)) && painted(colored.skip(n), plain);
        lemma_painted(colored.skip(n), plain, more, rest);
        assert(whole.skip(n) =~= colored.skip(n) + more);
        assert(whole.take(n) =~= colored.take(n));
    }
}

/// The bytes of the codes that are used.
proof fn lemma_codes()
    ensures
        is_code(encode_utf8("\x1b[36m"@)),
        is_code(encode_utf8("\x1b[32m"@)),
        is_code(encode_utf8("\x1b[0m"@)),
        is_code(encode_utf8("\x1b[1;31m"@)),
        painted(encode_utf8("\x1b[0m:"@), encode_utf8(":"@)),
{
    reveal_strlit("\x1b[36m");
    reveal_strlit("\x1b[32m");
    reveal_strlit("\x1b[0m");
    reveal_strlit("\x1b[1;31m");
    reveal_strlit("\x1b[0m:");
    reveal_strlit(":");
    vstd::utf8::is_ascii_chars_encode_utf8("\x1b[36m"@);
    vstd::utf8::is_ascii_chars_encode_utf8("\x1b[32m"@);
    vstd::utf8::is_ascii_chars_encode_utf8("\x1b[0m"@);
    vstd::utf8::is_ascii_chars_encode_utf8("\x1b[1;31m"@);
    vstd::utf8::is_ascii_chars_encode_utf8("\x1b[0m:"@);
    vstd::utf8::is_ascii_chars_encode_utf8(":"@);
    let reset = encode_utf8("\x1b[0m:"@);
    let colon = encode_utf8(":"@);
    lemma_unpainted(colon);
    assert(reset.skip(4) =~= colon);
    assert(is_code(reset.take(4)));
}

/// A line with highlighted matches is the line with codes in between.
proof fn lemma_highlighted(text: Seq<u8>, submatches: Seq<Submatch>, from: int, cursor: int)
    requires
        0 <= from <= submatches.len(),
        0 <= cursor <= text.len(),
    ensures
        painted(
            highlighted(text, submatches, from, cursor),
            text.subrange(cursor, text.len() as int),
        ),
    decreases submatches.len() - from,
{
    if from >= submatches.len() {
        lemma_unpainted(text.subrange(cursor, text.len() as int));
    } else {
        let found = submatches[from];
        if can_highlight(found, cursor, text.len() as int) {
            let (start, end) = (found.start as int, found.end as int);
            let on = encode_utf8("\x1b[1;31m"@);
            let off = encode_utf8("\x1b[0m"@);
            let none = Seq::<u8>::empty();
            lemma_codes();
            lemma_code(on);
            lemma_code(off);
            lemma_unpainted(text.subrange(cursor, start));
            lemma_unpainted(text.subrange(start, end));
            lemma_highlighted(text, submatches, from + 1, end);
            let a = text.subrange(cursor, start);
            let b = text.subrange(start, end);
            lemma_painted(a, a, on, none);
            lemma_painted(a + on, a + none, b, b);
            lemma_painted(a + on + b, a + none + b, off, none);
            lemma_painted(
                a + on + b + off,
                a + none + b + none,
                highlighted(text, submatches, from + 1, end),
                text.subrange(end, text.len() as int),
            );
            assert(a + none + b + none + text.subrange(end, text.len() as int) =~= text.subrange(
                cursor,
                text.len() as int,
            ));
        } else {
            lemma_highlighted(text, submatches, from + 1, cursor);
        }
    }
}

/// Color changes no text: what is printed of an event in color is what is printed
/// of it without, with codes for the terminal in between; and without color a
/// line begins with the repository and the path.
pub proof fn law_color_changes_no_text(event: EventModel)
    ensures
        printed(event, false, true) matches PrintedModel::Bytes(colored) && (printed(
            event,
            false,
            false,
        ) matches PrintedModel::Bytes(plain) && painted(colored, plain)),
{
    lemma_codes();
    let line_end = encode_utf8("\n"@);
    match event {
        EventModel::Match(found) => {
            let separator = encode_utf8(
                if found.context {
                    "-"@
                } else {
                    ":"@
                },
            );
            let number = encode_utf8(decimal(found.line as nat));
            let column = match found.column {
                Some(column) => encode_utf8(":"@) + encode_utf8(decimal(column as nat)),
                None => Seq::empty(),
            };
            let text = if found.context {
                found.text
            } else {
                highlighted(found.text, found.submatches, 0, 0)
            };
            let (colored, plain) = lemma_prefix(found.repo, found.path);
            lemma_unpainted(separator);
            lemma_unpainted(number);
            lemma_unpainted(column);
            lemma_unpainted(found.text);
            lemma_unpainted(line_end);
            lemma_highlighted(found.text, found.submatches, 0, 0);
            assert(found.text.subrange(0, found.text.len() as int) =~= found.text);
            lemma_painted(colored, plain, separator, separator);
            lemma_painted(colored + separator, plain + separator, number, number);
            lemma_painted(
                colored + separator + number,
                plain + separator + number,
                column,
                column,
            );
            lemma_painted(
                colored + separator + number + column,
                plain + separator + number + column,
                separator,
                separator,
            );
            lemma_painted(
                colored + separator + number + column + separator,
                plain + separator + number + column + separator,
                text,
                found.text,
            );
            lemma_painted(
                colored + separator + number + column + separator + text,
                plain + separator + number + column + separator + found.text,
                line_end,
                line_end,
            );
        },
        EventModel::File { repo, path } => {
            let (colored, plain) = lemma_prefix(repo, path);
            lemma_unpainted(line_end);
            lemma_painted(colored, plain, line_end, line_end);
        },
        EventModel::Repo { repo } => {
            lemma_unpainted(encode_utf8(repo) + line_end);
        },
        EventModel::Count { repo, path, count } => {
            let (colored, plain) = lemma_prefix(repo, path);
            let colon = encode_utf8(":"@);
            let number = encode_utf8(decimal(count as nat));
            lemma_unpainted(colon);
            lemma_unpainted(number);
            lemma_unpainted(line_end);
            lemma_painted(colored, plain, colon, colon);
            lemma_painted(colored + colon, plain + colon, number, number);
            lemma_painted(colored + colon + number, plain + colon + number, line_end, line_end);
        },
        EventModel::Error { .. } => {
            lemma_unpainted(Seq::empty());
        },
    }
}

/// A repository and a path in it, in color and without.
proof fn lemma_prefix(repo: Seq<char>, path: Seq<u8>) -> (pair: (Seq<u8>, Seq<u8>))
    ensures
        pair.0 == crate::output::prefix_bytes(repo, path, true),
        pair.1 == crate::output::prefix_bytes(repo, path, false),
        painted(pair.0, pair.1),
{
    let none = Seq::<u8>::empty();
    let cyan = encode_utf8("\x1b[36m"@);
    let green = encode_utf8("\x1b[32m"@);
    let off = encode_utf8("\x1b[0m"@);
    let closed = encode_utf8("\x1b[0m:"@);
    let colon = encode_utf8(":"@);
    let name = encode_utf8(repo);
    lemma_codes();
    lemma_code(cyan);
    lemma_code(green);
    lemma_code(off);
    lemma_unpainted(name);
    lemma_unpainted(path);
    lemma_painted(cyan, none, name, name);
    lemma_painted(cyan + name, none + name, closed, colon);
    lemma_painted(cyan + name + closed, none + name + colon, green, none);
    lemma_painted(cyan + name + closed + green, none + name + colon + none, path, path);
    lemma_painted(
        cyan + name + closed + green + path,
        none + name + colon + none + path,
        off,
        none,
    );
    assert(none + name + colon + none + path + none =~= name + colon + path);
    (
        crate::output::prefix_bytes(repo, path, true),
        crate::output::prefix_bytes(repo, path, false),
    )
}

/// Without color, a line that matches is printed with its repository, its path,
/// its number, the column of its first match and its text, between colons; one
/// around it has dashes about its number; and every event but an error is a line
/// of its own.
pub proof fn law_events_are_lines(found: MatchModel, repo: Seq<char>, path: Seq<u8>, count: u64)
    ensures
        !found.context ==> (found.column matches Some(column) ==> printed(
            EventModel::Match(found),
            false,
            false,
        ) == PrintedModel::Bytes(
            encode_utf8(found.repo) + encode_utf8(":"@) + found.path + encode_utf8(":"@)
                + encode_utf8(decimal(found.line as nat)) + (encode_utf8(":"@) + encode_utf8(
                decimal(column as nat),
            )) + encode_utf8(":"@) + found.text + encode_utf8("\n"@),
        )),
        found.context && found.column is None ==> printed(EventModel::Match(found), false, false)
            == PrintedModel::Bytes(
            encode_utf8(found.repo) + encode_utf8(":"@) + found.path + encode_utf8("-"@)
                + encode_utf8(decimal(found.line as nat)) + encode_utf8("-"@) + found.text
                + encode_utf8("\n"@),
        ),
        printed(EventModel::File { repo, path }, false, false) == PrintedModel::Bytes(
            encode_utf8(repo) + encode_utf8(":"@) + path + encode_utf8("\n"@),
        ),
        printed(EventModel::Repo { repo }, false, false) == PrintedModel::Bytes(
            encode_utf8(repo) + encode_utf8("\n"@),
        ),
        printed(EventModel::Count { repo, path, count }, false, false) == PrintedModel::Bytes(
            encode_utf8(repo) + encode_utf8(":"@) + path + encode_utf8(":"@) + encode_utf8(
                decimal(count as nat),
            ) + encode_utf8("\n"@),
        ),
{
    let prefix = encode_utf8(found.repo) + encode_utf8(":"@) + found.path + encode_utf8("-"@)
        + encode_utf8(decimal(found.line as nat));
    assert(prefix + Seq::empty() =~= prefix);
}

/// Matches that follow each other in a line are all highlighted: what stands
/// before the last one is printed as a line of its own would be, and then the
/// match between codes and what stands behind it.
pub proof fn law_every_match_is_highlighted(
    text: Seq<u8>,
    submatches: Seq<Submatch>,
    from: int,
    cursor: int,
)
    requires
        0 <= from < submatches.len(),
        0 <= cursor,
        forall|i: int|
            from <= i < submatches.len() ==> cursor <= (#[trigger] submatches[i]).start
                < submatches[i].end <= text.len(),
        forall|i: int, j: int|
            from <= i < j < submatches.len() ==> (#[trigger] submatches[i]).end <= (
            #[trigger] submatches[j]).start,
    ensures
        ({
            let last = submatches.last();
            highlighted(text, submatches, from, cursor) == highlighted(
                text.take(last.start as int),
                submatches.drop_last(),
                from,
                cursor,
            ) + encode_utf8("\x1b[1;31m"@) + text.subrange(last.start as int, last.end as int)
                + encode_utf8("\x1b[0m"@) + text.skip(last.end as int)
        }),
    decreases submatches.len() - from,
{
    let last = submatches.last();
    let first = submatches[from];
    let front = text.take(last.start as int);
    let fewer = submatches.drop_last();
    assert(last == submatches[submatches.len() - 1]);
    assert(text.skip(last.end as int) =~= text.subrange(last.end as int, text.len() as int));
    if from == submatches.len() - 1 {
        assert(front.subrange(cursor, front.len() as int) =~= text.subrange(
            cursor,
            last.start as int,
        ));
        assert(highlighted(text, submatches, from + 1, last.end as int) == text.subrange(
            last.end as int,
            text.len() as int,
        ));
    } else {
        assert(fewer[from] == first);
        assert(first.end <= last.start);
        law_every_match_is_highlighted(text, submatches, from + 1, first.end as int);
        assert(front.subrange(cursor, first.start as int) =~= text.subrange(
            cursor,
            first.start as int,
        ));
        assert(front.subrange(first.start as int, first.end as int) =~= text.subrange(
            first.start as int,
            first.end as int,
        ));
        assert(can_highlight(first, cursor, front.len() as int));
        assert(highlighted(text, submatches, from, cursor) =~= highlighted(
            front,
            fewer,
            from,
            cursor,
        ) + encode_utf8("\x1b[1;31m"@) + text.subrange(last.start as int, last.end as int)
            + encode_utf8("\x1b[0m"@) + text.skip(last.end as int));
    }
}

/// Whether an object of JSON has a field with a value.
pub open spec fn has_field(
    line: PrintedModel,
    name: Seq<char>,
    value: ValueModel,
) -> bool {
    match line {
        PrintedModel::Json(fields) => exists|i: int|
            0 <= i < fields.len() && (#[trigger] fields[i]).0 == name && fields[i].1 == value,
        _ => false,
    }
}

/// In JSON everything that is known of an event is told, by the name of what it
/// is, and every kind of event has a name of its own.
pub proof fn law_json_tells_everything(found: MatchModel, event: EventModel, color: bool)
    ensures
        ({
            let json = printed(EventModel::Match(found), true, color);
            &&& !found.context ==> has_field(json, "type"@, ValueModel::Text("match"@))
            &&& found.context ==> has_field(json, "type"@, ValueModel::Text("context"@))
            &&& has_field(json, "repo"@, ValueModel::Text(found.repo))
            &&& has_field(json, "path"@, ValueModel::Bytes(bytes_model(found.path)))
            &&& has_field(json, "line"@, ValueModel::Number(found.line))
            &&& found.column matches Some(column) ==> has_field(
                json,
                "column"@,
                ValueModel::Number(column as u64),
            )
            &&& found.column is None ==> has_field(json, "column"@, ValueModel::Null)
            &&& has_field(json, "text"@, ValueModel::Bytes(bytes_model(found.text)))
            &&& has_field(json, "submatches"@, ValueModel::Spans(found.submatches))
        }),
        event matches EventModel::File { repo, path } ==> {
            let json = printed(event, true, color);
            &&& has_field(json, "type"@, ValueModel::Text("file"@))
            &&& has_field(json, "repo"@, ValueModel::Text(repo))
            &&& has_field(json, "path"@, ValueModel::Bytes(bytes_model(path)))
        },
        event matches EventModel::Repo { repo } ==> {
            let json = printed(event, true, color);
            &&& has_field(json, "type"@, ValueModel::Text("repo"@))
            &&& has_field(json, "repo"@, ValueModel::Text(repo))
        },
        event matches EventModel::Count { repo, path, count } ==> {
            let json = printed(event, true, color);
            &&& has_field(json, "type"@, ValueModel::Text("count"@))
            &&& has_field(json, "repo"@, ValueModel::Text(repo))
            &&& has_field(json, "path"@, ValueModel::Bytes(bytes_model(path)))
            &&& has_field(json, "count"@, ValueModel::Number(count))
        },
        event matches EventModel::Error { path, message } ==> {
            let json = printed(event, true, color);
            &&& has_field(json, "type"@, ValueModel::Text("error"@))
            &&& has_field(json, "message"@, ValueModel::Text(message))
            &&& path is None ==> has_field(json, "path"@, ValueModel::Null)
            &&& path matches Some(path) ==> has_field(
                json,
                "path"@,
                ValueModel::Bytes(bytes_model(path)),
            )
        },
{
    lemma_match_fields(found, color);
    match event {
        EventModel::Match(_) => {},
        EventModel::File { repo, path } => {
            lemma_field(event, 0, "type"@, ValueModel::Text("file"@), color);
            lemma_field(event, 1, "repo"@, ValueModel::Text(repo), color);
            lemma_field(event, 2, "path"@, ValueModel::Bytes(bytes_model(path)), color);
        },
        EventModel::Repo { repo } => {
            lemma_field(event, 0, "type"@, ValueModel::Text("repo"@), color);
            lemma_field(event, 1, "repo"@, ValueModel::Text(repo), color);
        },
        EventModel::Count { repo, path, count } => {
            lemma_field(event, 0, "type"@, ValueModel::Text("count"@), color);
            lemma_field(event, 1, "repo"@, ValueModel::Text(repo), color);
            lemma_field(event, 2, "path"@, ValueModel::Bytes(bytes_model(path)), color);
            lemma_field(event, 3, "count"@, ValueModel::Number(count), color);
        },
        EventModel::Error { path, message } => {
            lemma_field(event, 0, "type"@, ValueModel::Text("error"@), color);
            let place = match path {
                Some(path) => ValueModel::Bytes(bytes_model(path)),
                None => ValueModel::Null,
            };
            lemma_field(event, 1, "path"@, place, color);
            lemma_field(event, 2, "message"@, ValueModel::Text(message), color);
        },
    }
}

/// A field of an event is told.
proof fn lemma_field(
    event: EventModel,
    i: int,
    name: Seq<char>,
    value: ValueModel,
    color: bool,
)
    requires
        0 <= i < crate::output::event_fields(event).len(),
        crate::output::event_fields(event)[i].0 == name,
        crate::output::event_fields(event)[i].1 == value,
    ensures
        has_field(printed(event, true, color), name, value),
{
    let line = printed(event, true, color);
    match line {
        PrintedModel::Json(fields) => {
            assert(fields == crate::output::event_fields(event));
            assert(fields[i].0 == name && fields[i].1 == value);
            assert(has_field(line, name, value));
        },
        _ => {},
    }
}

/// The fields of a line that matches.
proof fn lemma_match_fields(found: MatchModel, color: bool)
    ensures
        ({
            let json = printed(EventModel::Match(found), true, color);
            let kind = if found.context {
                "context"@
            } else {
                "match"@
            };
            let column = match found.column {
                Some(column) => ValueModel::Number(column as u64),
                None => ValueModel::Null,
            };
            &&& has_field(json, "type"@, ValueModel::Text(kind))
            &&& has_field(json, "repo"@, ValueModel::Text(found.repo))
            &&& has_field(json, "path"@, ValueModel::Bytes(bytes_model(found.path)))
            &&& has_field(json, "line"@, ValueModel::Number(found.line))
            &&& has_field(json, "column"@, column)
            &&& has_field(json, "text"@, ValueModel::Bytes(bytes_model(found.text)))
            &&& has_field(json, "submatches"@, ValueModel::Spans(found.submatches))
        }),
{
    let event = EventModel::Match(found);
    let kind = if found.context {
        "context"@
    } else {
        "match"@
    };
    let column = match found.column {
        Some(column) => ValueModel::Number(column as u64),
        None => ValueModel::Null,
    };
    lemma_field(event, 0, "type"@, ValueModel::Text(kind), color);
    lemma_field(event, 1, "repo"@, ValueModel::Text(found.repo), color);
    lemma_field(event, 2, "path"@, ValueModel::Bytes(bytes_model(found.path)), color);
    lemma_field(event, 3, "line"@, ValueModel::Number(found.line), color);
    lemma_field(event, 4, "column"@, column, color);
    lemma_field(event, 5, "text"@, ValueModel::Bytes(bytes_model(found.text)), color);
    lemma_field(event, 6, "submatches"@, ValueModel::Spans(found.submatches), color);
}

/// Bytes that are the UTF-8 of a text are told as that text, whose UTF-8 they
/// are; and others in base64, in which three bytes give four digits.
pub proof fn law_bytes_in_json(bytes: Seq<u8>)
    ensures
        valid_utf8(bytes) ==> (bytes_model(bytes) matches BytesModel::Text(text) && encode_utf8(
            text,
        ) == bytes),
        !valid_utf8(bytes) ==> bytes_model(bytes) == BytesModel::Base64(base64(bytes)),
        base64(bytes).len() == (bytes.len() + 2) / 3 * 4,
    decreases bytes.len(),
{
    if valid_utf8(bytes) {
        vstd::utf8::decode_utf8_encode_utf8(bytes);
    }
    if bytes.len() >= 3 {
        law_bytes_in_json(bytes.skip(3));
    }
}

/// Events are ordered by their repositories, then by their paths, and in a file
/// by their lines; a line that matches comes before one around a match, and what
/// is said of a whole file comes before its lines.
pub proof fn law_events_are_in_order(
    left: MatchModel,
    right: MatchModel,
    repo: Seq<char>,
    path: Seq<u8>,
    count: u64,
)
    ensures
        ({
            let (a, b) = (event_key(EventModel::Match(left)), event_key(EventModel::Match(right)));
            &&& before(left.repo, right.repo) ==> key_before(a, b) && !key_before(b, a)
            &&& left.repo == right.repo && lex(
                component_less(),
                byte_components(left.path),
                byte_components(right.path),
            ) ==> key_before(a, b)
            &&& left.repo == right.repo && left.path == right.path ==> (key_before(a, b)
                <==> left.line < right.line || (left.line == right.line && !left.context
                && right.context))
        }),
        left.repo == repo && left.path == path && left.line > 0 ==> key_before(
            event_key(EventModel::Count { repo, path, count }),
            event_key(EventModel::Match(left)),
        ) && key_before(
            event_key(EventModel::File { repo, path }),
            event_key(EventModel::Match(left)),
        ),
        before(left.repo, repo) ==> key_before(
            event_key(EventModel::Match(left)),
            event_key(EventModel::Repo { repo }),
        ) && key_before(
            event_key(EventModel::Match(left)),
            event_key(EventModel::File { repo, path }),
        ) && key_before(
            event_key(EventModel::Match(left)),
            event_key(EventModel::Count { repo, path, count }),
        ),
        repo.len() > 0 ==> key_before(
            event_key(EventModel::Error { path: None, message: repo }),
            event_key(EventModel::Repo { repo }),
        ),
{
    lemma_before_total(left.repo, right.repo);
    lemma_before_total(left.repo, repo);
    lemma_before_total(left.repo, left.repo);
    lemma_before_total(Seq::empty(), repo);
    let paths = byte_components(left.path);
    lemma_lex_same(paths);
}

/// No path comes before itself.
proof fn lemma_lex_same(path: Seq<Seq<u8>>)
    ensures
        !lex(component_less(), path, path),
    decreases path.len(),
{
    if path.len() > 0 {
        lemma_bytes_same(path[0]);
        lemma_lex_same(path.subrange(1, path.len() as int));
    }
}

/// No bytes come before themselves.
proof fn lemma_bytes_same(bytes: Seq<u8>)
    ensures
        !lex(crate::output::byte_less(), bytes, bytes),
    decreases bytes.len(),
{
    if bytes.len() > 0 {
        lemma_bytes_same(bytes.subrange(1, bytes.len() as int));
    }
}

/// The names in paths are ordered by their bytes, and what follows the same
/// names by what stands there; a path comes before those below it.
pub proof fn law_order_of_paths(
    common: Seq<Seq<u8>>,
    name: Seq<u8>,
    left: u8,
    right: u8,
    more: Seq<u8>,
    rest: Seq<u8>,
    below: Seq<Seq<u8>>,
    deeper: Seq<Seq<u8>>,
)
    requires
        component_kind(name + seq![left] + more) == 3,
        component_kind(name + seq![right] + rest) == 3,
        left < right,
    ensures
        lex(
            component_less(),
            common + seq![name + seq![left] + more] + below,
            common + seq![name + seq![right] + rest] + deeper,
        ),
        lex(component_less(), common, common + seq![name + seq![right] + rest] + deeper),
    decreases common.len(),
{
    let one = name + seq![left] + more;
    let other = name + seq![right] + rest;
    let l = common + seq![one] + below;
    let r = common + seq![other] + deeper;
    if common.len() == 0 {
        lemma_bytes_differ(name, left, right, more, rest);
        assert(l[0] == one && r[0] == other);
    } else {
        let tail = common.subrange(1, common.len() as int);
        law_order_of_paths(tail, name, left, right, more, rest, below, deeper);
        lemma_bytes_same(common[0]);
        assert(l[0] == common[0] && r[0] == common[0]);
        assert(l.subrange(1, l.len() as int) =~= tail + seq![one] + below);
        assert(r.subrange(1, r.len() as int) =~= tail + seq![other] + deeper);
    }
}

/// Bytes are ordered where they first differ.
proof fn lemma_bytes_differ(
    common: Seq<u8>,
    left: u8,
    right: u8,
    more: Seq<u8>,
    rest: Seq<u8>,
)
    requires
        left < right,
    ensures
        lex(
            crate::output::byte_less(),
            common + seq![left] + more,
            common + seq![right] + rest,
        ),
    decreases common.len(),
{
    let l = common + seq![left] + more;
    let r = common + seq![right] + rest;
    if common.len() == 0 {
        assert(l[0] == left && r[0] == right);
    } else {
        let tail = common.subrange(1, common.len() as int);
        lemma_bytes_differ(tail, left, right, more, rest);
        assert(l[0] == common[0] && r[0] == common[0]);
        assert(l.subrange(1, l.len() as int) =~= tail + seq![left] + more);
        assert(r.subrange(1, r.len() as int) =~= tail + seq![right] + rest);
    }
}

/// A match without characters, one that begins before the last one ended and one
/// that does not lie in the line are not highlighted.
pub proof fn law_other_matches_are_passed_over(
    text: Seq<u8>,
    submatches: Seq<Submatch>,
    from: int,
    cursor: int,
)
    requires
        0 <= from < submatches.len(),
        submatches[from].start >= submatches[from].end || submatches[from].start < cursor
            || submatches[from].end > text.len(),
    ensures
        highlighted(text, submatches, from, cursor) == highlighted(
            text,
            submatches,
            from + 1,
            cursor,
        ),
{
}

/// In a path the root comes before the directory itself, that before the one
/// above it, and that before names; and names are ordered among themselves only.
pub proof fn law_order_of_components(name: Seq<u8>, other: Seq<u8>)
    requires
        name != seq![47u8],
        name != seq![46u8],
        name != seq![46u8, 46u8],
        other != seq![47u8],
        other != seq![46u8],
        other != seq![46u8, 46u8],
    ensures
        component_less()(seq![47u8], seq![46u8]),
        component_less()(seq![46u8], seq![46u8, 46u8]),
        component_less()(seq![46u8, 46u8], name),
        component_less()(seq![47u8], name),
        component_less()(seq![46u8], name),
        !component_less()(name, seq![46u8, 46u8]),
        !component_less()(seq![46u8, 46u8], seq![46u8]),
        !component_less()(seq![46u8], seq![47u8]),
        component_less()(name, other) <==> lex(crate::output::byte_less(), name, other),
{
    assert(seq![47u8][0] != seq![46u8][0]);
    assert(seq![46u8].len() != seq![46u8, 46u8].len());
    assert(seq![47u8].len() != seq![46u8, 46u8].len());
}

}

use std::cmp::Ordering;

use multi_repo::error::Error;
use multi_repo::output::{
    compare_events, json_bytes, json_event, write_event, write_match, JsonBytes, JsonField,
    JsonValue, Output, Printed,
};
use multi_repo::search::{MatchEvent, SearchEvent, Submatch};

#[test]
fn match_output_highlights_every_match_when_color_is_enabled() {
    let found = MatchEvent {
        repo: "acme/widget".into(),
        path: b"README.md".to_vec(),
        line: 4,
        column: Some(1),
        text: b"needle and needle".to_vec(),
        submatches: vec![
            Submatch { start: 0, end: 6 },
            Submatch { start: 11, end: 17 },
        ],
        context: false,
    };
    let mut output = Vec::new();

    write_match(&mut output, &found, true);

    assert_eq!(
        output,
        b"\x1b[36macme/widget\x1b[0m:\x1b[32mREADME.md\x1b[0m:4:1:\x1b[1;31mneedle\x1b[0m and \x1b[1;31mneedle\x1b[0m\n"
    );
}

#[test]
fn match_output_remains_plain_when_color_is_disabled() {
    let found = MatchEvent {
        repo: "acme/widget".into(),
        path: b"README.md".to_vec(),
        line: 4,
        column: Some(1),
        text: b"needle".to_vec(),
        submatches: vec![Submatch { start: 0, end: 6 }],
        context: false,
    };
    let mut output = Vec::new();

    write_match(&mut output, &found, false);

    assert_eq!(output, b"acme/widget:README.md:4:1:needle\n");
}

fn line(repo: &str, path: &str, line: u64, context: bool) -> SearchEvent {
    SearchEvent::Match(MatchEvent {
        repo: repo.into(),
        path: path.as_bytes().to_vec(),
        line,
        column: if context { None } else { Some(2) },
        text: b"text".to_vec(),
        submatches: Vec::new(),
        context,
    })
}

fn written(event: &SearchEvent, color: bool) -> String {
    let mut output = Vec::new();
    write_event(&mut output, event, color);
    String::from_utf8(output).unwrap()
}

#[test]
fn every_kind_of_event_is_written() {
    assert_eq!(written(&line("r", "p", 7, true), false), "r:p-7-text\n");
    assert_eq!(
        written(&line("r", "p", 7, true), true),
        "\x1b[36mr\x1b[0m:\x1b[32mp\x1b[0m-7-text\n"
    );
    assert_eq!(
        written(&SearchEvent::File { repo: "r".into(), path: b"p".to_vec() }, false),
        "r:p\n"
    );
    assert_eq!(written(&SearchEvent::Repo { repo: "r".into() }, true), "r\n");
    assert_eq!(
        written(&SearchEvent::Count { repo: "r".into(), path: b"p".to_vec(), count: 3 }, false),
        "r:p:3\n"
    );
    assert_eq!(
        written(&SearchEvent::Error { path: None, message: "x".into() }, false),
        ""
    );
}

#[test]
fn spans_outside_the_line_are_not_highlighted() {
    let found = MatchEvent {
        repo: "r".into(),
        path: b"p".to_vec(),
        line: 1,
        column: Some(1),
        text: b"abc".to_vec(),
        submatches: vec![Submatch { start: 1, end: 9 }, Submatch { start: 2, end: 1 }],
        context: false,
    };
    let mut output = Vec::new();
    write_match(&mut output, &found, true);
    assert_eq!(
        output,
        b"\x1b[36mr\x1b[0m:\x1b[32mp\x1b[0m:1:1:abc\n"
    );
}

#[test]
fn bytes_that_are_not_text_are_encoded() {
    assert_eq!(json_bytes(b"caf\xc3\xa9"), JsonBytes::Text("caf\u{e9}".into()));
    assert_eq!(json_bytes(b"\xff"), JsonBytes::Base64("/w==".into()));
    assert_eq!(json_bytes(b"\xff\xfe"), JsonBytes::Base64("//4=".into()));
    assert_eq!(json_bytes(b"\xff\x00\x10a"), JsonBytes::Base64("/wAQYQ==".into()));
}

fn field(name: &str, value: JsonValue) -> JsonField {
    JsonField { name: name.into(), value }
}

fn text(value: &str) -> JsonValue {
    JsonValue::Text(value.into())
}

fn bytes(value: &str) -> JsonValue {
    JsonValue::Bytes(JsonBytes::Text(value.into()))
}

#[test]
fn events_have_fields_in_json() {
    assert_eq!(
        json_event(&SearchEvent::Match(MatchEvent {
            repo: "r".into(),
            path: b"p".to_vec(),
            line: 4,
            column: Some(2),
            text: b"abc".to_vec(),
            submatches: vec![Submatch { start: 1, end: 2 }],
            context: false,
        })),
        vec![
            field("type", text("match")),
            field("repo", text("r")),
            field("path", bytes("p")),
            field("line", JsonValue::Number(4)),
            field("column", JsonValue::Number(2)),
            field("text", bytes("abc")),
            field("submatches", JsonValue::Spans(vec![Submatch { start: 1, end: 2 }])),
        ]
    );
    let context = json_event(&line("r", "p", 4, true));
    assert_eq!(context[0], field("type", text("context")));
    assert_eq!(context[4], field("column", JsonValue::Null));
    assert_eq!(
        json_event(&SearchEvent::Count { repo: "r".into(), path: b"p".to_vec(), count: 3 }),
        vec![
            field("type", text("count")),
            field("repo", text("r")),
            field("path", bytes("p")),
            field("count", JsonValue::Number(3)),
        ]
    );
    assert_eq!(
        json_event(&SearchEvent::Error { path: None, message: "m".into() }),
        vec![
            field("type", text("error")),
            field("path", JsonValue::Null),
            field("message", text("m")),
        ]
    );
    assert_eq!(
        json_event(&SearchEvent::Repo { repo: "r".into() }),
        vec![field("type", text("repo")), field("repo", text("r"))]
    );
    assert_eq!(
        json_event(&SearchEvent::File { repo: "r".into(), path: b"p".to_vec() })[0],
        field("type", text("file"))
    );
}

#[test]
fn events_are_ordered_by_repository_path_line_and_kind() {
    let order = |left: &SearchEvent, right: &SearchEvent| compare_events(left, right);
    assert_eq!(order(&line("a", "z", 9, false), &line("b", "a", 1, false)), Ordering::Less);
    assert_eq!(order(&line("a", "b", 1, false), &line("a", "a", 9, false)), Ordering::Greater);
    assert_eq!(order(&line("a", "a/z", 1, false), &line("a", "a.b", 1, false)), Ordering::Less);
    assert_eq!(order(&line("a", "a", 1, false), &line("a", "a", 2, false)), Ordering::Less);
    assert_eq!(order(&line("a", "a", 1, true), &line("a", "a", 1, false)), Ordering::Greater);
    assert_eq!(order(&line("a", "a", 1, true), &line("a", "a", 1, true)), Ordering::Equal);
}

fn plain(text: &str) -> Printed {
    Printed::Bytes(text.as_bytes().to_vec())
}

#[test]
fn sorted_output_is_held_back() {
    let mut output = Output::new(false, false, true);
    assert_eq!(output.handle(line("b", "p", 2, false)), None);
    assert_eq!(output.handle(line("a", "q", 1, false)), None);
    assert_eq!(output.handle(line("b", "p", 1, false)), None);
    assert_eq!(
        output.handle(SearchEvent::Error { path: Some(b"x".to_vec()), message: "m".into() }),
        Some(Printed::Complaint("x: m".into()))
    );
    assert_eq!(
        output.finish(),
        vec![plain("a:q:1:2:text\n"), plain("b:p:1:2:text\n"), plain("b:p:2:2:text\n")]
    );
    assert!(output.finish().is_empty());
}

#[test]
fn unsorted_output_is_printed_at_once() {
    let mut output = Output::new(false, false, false);
    assert_eq!(output.handle(line("b", "p", 2, false)), Some(plain("b:p:2:2:text\n")));
    assert_eq!(
        output.handle(SearchEvent::Error { path: Some(b"\xff".to_vec()), message: "m".into() }),
        Some(Printed::Complaint("\u{fffd}: m".into()))
    );
    assert!(output.finish().is_empty());
    let mut json = Output::new(true, false, false);
    assert!(matches!(
        json.handle(SearchEvent::Error { path: None, message: "m".into() }),
        Some(Printed::Json(_))
    ));
}

#[test]
fn the_first_failure_to_print_is_kept() {
    let mut output = Output::new(false, false, false);
    output.result().unwrap();
    output.record_error("full".into());
    output.record_error("later".into());
    assert_eq!(
        output.result().unwrap_err(),
        Error::Write { path: "<stdout>".into(), source: "full".into() }
    );
}

use lodestone_news::extract::{collect_text, DomEvent, NewsText};
use lodestone_news::fields::{encode_fields, parse_fields, Field};
use lodestone_news::text::split_on;

fn text(s: &str) -> Vec<DomEvent> {
    vec![DomEvent::Text(s.to_string()), DomEvent::Close]
}

fn open(name: &str) -> Vec<DomEvent> {
    vec![DomEvent::Element { name: name.to_string(), href: None }]
}

fn anchor(href: &str) -> Vec<DomEvent> {
    vec![DomEvent::Element { name: "a".to_string(), href: Some(href.to_string()) }]
}

fn close() -> Vec<DomEvent> {
    vec![DomEvent::Close]
}

fn br() -> Vec<DomEvent> {
    [open("br"), close()].concat()
}

fn field(name: &str, value: &str) -> (String, String) {
    (name.to_string(), value.to_string())
}

fn pairs(fields: &[Field]) -> Vec<(String, String)> {
    fields.iter().map(|f| (f.name.clone(), f.value.clone())).collect()
}

#[test]
fn field_parser_reads_description_and_fields() {
    let (desc, fields) = parse_fields("desc line\n[Name]\nval1\nval2\n\n[Other]\nval3");
    assert_eq!(desc, Some("desc line".to_string()));
    assert_eq!(pairs(&fields), vec![field("Name", "val1\nval2"), field("Other", "val3")]);
}

#[test]
fn field_parser_drops_field_without_value() {
    let (_, fields) = parse_fields("d\n[Empty]\n[Full]\nx\n[AlsoEmpty]\n\n[Last]");
    assert_eq!(pairs(&fields), vec![field("Full", "x")]);
}

#[test]
fn field_parser_trims_lines_and_description() {
    let (desc, fields) = parse_fields("  spaced desc \t\n  [Name]  \n  a value  \n");
    assert_eq!(desc, Some("spaced desc".to_string()));
    assert_eq!(pairs(&fields), vec![field("Name", "a value")]);
}

#[test]
fn field_parser_ignores_lines_before_any_header_and_empty_brackets() {
    let (desc, fields) = parse_fields("[First]\nloose\n[]\n[N]\n[]\nv");
    assert_eq!(desc, Some("[First]".to_string()));
    assert_eq!(pairs(&fields), vec![field("N", "[]\nv")]);
}

#[test]
fn field_parser_on_empty_text() {
    let (desc, fields) = parse_fields("");
    assert_eq!(desc, Some(String::new()));
    assert!(fields.is_empty());
}

#[test]
fn split_keeps_empty_pieces() {
    assert_eq!(split_on("a//b/", '/'), vec!["a", "", "b", ""]);
    assert_eq!(split_on("", '/'), vec![""]);
}

#[test]
fn description_trim_removes_unicode_white_space() {
    let (desc, _) = parse_fields("\u{3000} x y \u{a0}\n[N]\nv");
    assert_eq!(desc, Some("x y".to_string()));
}

#[test]
fn break_run_gives_one_separator() {
    let mut events = text("a");
    for _ in 0..4 {
        events.extend(br());
    }
    events.extend(text("b"));
    assert_eq!(collect_text(events, "\n"), "a\nb");
}

#[test]
fn separate_break_runs_give_separate_separators() {
    let events = [
        text("a"),
        br(),
        text("b"),
        br(),
        br(),
        open("span"),
        close(),
        br(),
    ]
    .concat();
    assert_eq!(collect_text(events, "|"), "a|b||");
}

#[test]
fn anchor_text_appears_once() {
    let events = [
        open("div"),
        text("see "),
        anchor("/x"),
        text("the "),
        open("b"),
        text("page"),
        close(),
        close(),
        text("!"),
        close(),
    ]
    .concat();
    let mut walk = NewsText::new(events, " ");
    let mut chunks = Vec::new();
    while let Some(c) = walk.next() {
        chunks.push(c);
    }
    assert_eq!(chunks, vec!["see ", "[the page](/x)", "!"]);
    assert_eq!(walk.next(), None);
}

#[test]
fn anchor_without_href_is_plain_text() {
    let events = [open("a"), text("plain"), close(), text(" end")].concat();
    assert_eq!(collect_text(events, " "), "plain end");
}

#[test]
fn encode_fields_escapes_strings() {
    let fields = vec![
        Field { name: "Quote \"q\"".to_string(), value: "line\nnext".to_string() },
        Field { name: "B".to_string(), value: "c".to_string() },
    ];
    assert_eq!(
        encode_fields(&fields),
        Some("[{\"name\":\"Quote \\\"q\\\"\",\"value\":\"line\\nnext\"},{\"name\":\"B\",\"value\":\"c\"}]".to_string())
    );
    assert_eq!(encode_fields(&Vec::new()), Some("[]".to_string()));
    let odd = vec![Field { name: "t\u{1}\\".to_string(), value: "é\u{8}\u{1f}".to_string() }];
    assert_eq!(
        encode_fields(&odd),
        Some("[{\"name\":\"t\\u0001\\\\\",\"value\":\"é\\b\\u001f\"}]".to_string())
    );
}

use spectest::event::{CodeKind, Level, MdEvent, MdTag, MdTagEnd, Token};
use spectest::md::writer::Error;
use spectest::md::MdDocument;
use spectest::md_writer::{md_reader, md_writer};
use spectest::text::decimal;

fn roundtrip(input: &str) -> String {
    let mut out = md_writer();
    for token in md_reader(input) {
        out.write(token.event).unwrap();
    }
    out.into_string()
}

#[test]
fn test_roundtrip() {
    let inputs = [
        "# Title\n\nFirst paragraph\nsecond line.\n\n> quoted\n> more\n",
        "Intro.\n\n1. one\n2. two\n",
        "Intro.\n\n- one\n- two\n",
        "## Styles\n\nSome _emphasis_ and **strong** and ~struck~ text.\n",
        "Use `code` here.\n\n```rust\nlet x = 1;\n```\n\nAfter.\n",
        "Text with <b>html</b>.\n",
        "> quoted with `code`\n",
    ];
    for input in inputs {
        assert_eq!(roundtrip(input), input);
    }
}

#[test]
fn plain_round_trip_of_a_spec() {
    let src = "# Title\n\nGiven `a` as:\n\n```rust\nlet x = 1;\n```\n\nText with <b>html</b>.\n";
    let doc = MdDocument::from_string(src);
    assert_eq!(doc.write_to_string().unwrap(), src);
}

#[test]
fn plain_writer_rejects_lists() {
    let doc = MdDocument::from_string("- a\n- b\n");
    assert_eq!(doc.write_to_string(), Err(Error::UnsupportedTag("List")));
}

#[test]
fn plain_writer_rejects_indented_code() {
    let doc = MdDocument::from_string("Para.\n\n    indented\n");
    assert_eq!(
        doc.write_to_string(),
        Err(Error::UnsupportedTag("CodeBlock(CodeBlockKind::Indented)"))
    );
}

#[test]
fn plain_writer_rejects_links_and_events() {
    let doc = MdDocument::from_string("A [link](http://x).\n");
    assert_eq!(doc.write_to_string(), Err(Error::UnsupportedTag("Link")));
    let tokens = vec![Token { event: MdEvent::InlineMath(String::from("x")), start: 0, end: 1 }];
    assert_eq!(
        MdDocument::from_tokens(tokens).write_to_string(),
        Err(Error::UnsupportedEvent("InlineMath"))
    );
}

#[test]
fn plain_writer_headings_and_breaks() {
    let tokens = vec![
        Token { event: MdEvent::Start(MdTag::Heading(Level::H3)), start: 0, end: 0 },
        Token { event: MdEvent::Text(String::from("T")), start: 0, end: 0 },
        Token { event: MdEvent::End(MdTagEnd::Heading(Level::H3)), start: 0, end: 0 },
        Token { event: MdEvent::Start(MdTag::Paragraph), start: 0, end: 0 },
        Token { event: MdEvent::Code(String::from("k")), start: 0, end: 0 },
        Token { event: MdEvent::HardBreak, start: 0, end: 0 },
        Token { event: MdEvent::Text(String::from("x")), start: 0, end: 0 },
        Token { event: MdEvent::End(MdTagEnd::Paragraph), start: 0, end: 0 },
        Token { event: MdEvent::Start(MdTag::CodeBlock(CodeKind::Fenced(String::new()))), start: 0, end: 0 },
        Token { event: MdEvent::End(MdTagEnd::CodeBlock), start: 0, end: 0 },
    ];
    let out = MdDocument::from_tokens(tokens).write_to_string().unwrap();
    assert_eq!(out, "### T\n\n`k`\n\nx\n\n```\n```\n");
}

#[test]
fn prefix_writer_numbers_and_nests() {
    let mut w = md_writer();
    let events = vec![
        MdEvent::Start(MdTag::List(Some(9))),
        MdEvent::Start(MdTag::Item),
        MdEvent::Text(String::from("nine")),
        MdEvent::End(MdTagEnd::Item),
        MdEvent::Start(MdTag::Item),
        MdEvent::Text(String::from("ten")),
        MdEvent::SoftBreak,
        MdEvent::Text(String::from("more")),
        MdEvent::Start(MdTag::List(None)),
        MdEvent::Start(MdTag::Item),
        MdEvent::Text(String::from("inner")),
        MdEvent::End(MdTagEnd::Item),
        MdEvent::End(MdTagEnd::List(false)),
        MdEvent::End(MdTagEnd::Item),
        MdEvent::End(MdTagEnd::List(true)),
    ];
    for e in events {
        w.write(e).unwrap();
    }
    assert_eq!(w.into_string(), "9. nine\n10. ten\n    more\n  - inner\n\n");
}

#[test]
fn prefix_writer_errors() {
    let mut w = md_writer();
    assert_eq!(
        w.write(MdEvent::Start(MdTag::CodeBlock(CodeKind::Indented))),
        Err(Error::UnsupportedTag("CodeBlock(CodeBlockKind::Indented)"))
    );
    assert_eq!(w.write(MdEvent::FootnoteReference(String::from("f"))), Err(Error::UnsupportedEvent("FootnoteReference")));
    assert_eq!(w.write(MdEvent::Start(MdTag::Item)), Err(Error::Unknown));
    assert_eq!(w.write(MdEvent::End(MdTagEnd::BlockQuote)), Err(Error::Unknown));
    assert_eq!(w.write(MdEvent::Start(MdTag::Table)), Err(Error::UnsupportedTag("Table")));
    assert_eq!(w.into_write(), Vec::<u8>::new());
}

#[test]
fn continuation_lines_align_under_the_printed_number() {
    let mut w = md_writer();
    let events = vec![
        MdEvent::Start(MdTag::List(Some(9))),
        MdEvent::Start(MdTag::Item),
        MdEvent::Text(String::from("nine")),
        MdEvent::SoftBreak,
        MdEvent::Text(String::from("more")),
        MdEvent::End(MdTagEnd::Item),
        MdEvent::End(MdTagEnd::List(true)),
    ];
    for e in events {
        w.write(e).unwrap();
    }
    assert_eq!(w.into_string(), "9. nine\n   more\n");
}

#[test]
fn nested_writer_passes_html_and_code() {
    let mut w = md_writer();
    w.write(MdEvent::Start(MdTag::HtmlBlock)).unwrap();
    w.write(MdEvent::Html(String::from("<div>\n"))).unwrap();
    w.write(MdEvent::End(MdTagEnd::HtmlBlock)).unwrap();
    w.write(MdEvent::Start(MdTag::Paragraph)).unwrap();
    w.write(MdEvent::Code(String::from("k"))).unwrap();
    w.write(MdEvent::End(MdTagEnd::Paragraph)).unwrap();
    assert_eq!(w.into_string(), "<div>\n\n`k`\n");
}

#[test]
fn decimal_digits() {
    assert_eq!(decimal(0), "0");
    assert_eq!(decimal(7), "7");
    assert_eq!(decimal(1203), "1203");
    assert_eq!(decimal(u64::MAX), "18446744073709551615");
}

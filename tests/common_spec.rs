use spectest::md::MdDocument;
use spectest::reader::{sections, Error, Pos};
use spectest::section::Section;

const INPUT_SQL: &str = "SELECT x, y, z FROM s JOIN t USING(y);\n";

const OUTPUT_SQL: &str = "SELECT\n    x, y, z\nFROM\n    s\n    JOIN t USING(y);\n";

fn make_spec(input: &str, output: &str) -> String {
    let mut s = String::new();
    s.push_str("# Feature: SQL formatting\n\n");
    s.push_str("Spec for an opinionated SQL formatter.\n\n");
    s.push_str("## Background\n\n");
    s.push_str("Given `pipeline` as:\n\n");
    s.push_str("```rust\nlet output = display(ast_to_ast(parse(input)));\n```\n\n");
    s.push_str("_Note_: this is just for readability.\n\n");
    s.push_str("And `environment` as:\n\n");
    s.push_str("```sql\nCREATE TABLE s(x int, y int);\nCREATE TABLE t(y int, z int);\n```\n\n");
    s.push_str("## Example: Simple queries\n\n");
    s.push_str("When `input` is:\n\n```sql\n");
    s.push_str(input.trim());
    s.push_str("\n```\n\nThen `output` is:\n\n```sql\n");
    s.push_str(output.trim());
    s.push_str("\n```\n");
    s
}

#[test]
fn test_sections() {
    let md_source = make_spec(INPUT_SQL, OUTPUT_SQL);
    let md_doc = MdDocument::from_string(&md_source);
    let mut iter = sections(&md_doc);
    let mut backgrounds = 0;
    let mut examples = 0;
    while let Some(section) = iter.next(&md_doc) {
        match section {
            Ok(Section::Background(background)) => {
                backgrounds += 1;
                assert_eq!(background.given.len(), 2);
                assert!(background.given.contains_key("pipeline"));
                assert!(background.given.contains_key("environment"));
            }
            Ok(Section::Example(example, slots)) => {
                examples += 1;
                assert_eq!(example.when.len(), 1);
                assert!(example.when.contains_key("input"));
                assert_eq!(example.then_.len(), 1);
                assert!(example.then_.contains_key("output"));
                assert_eq!(slots.len(), 1);
            }
            Ok(Section::Raw(_raw)) => {}
            Err(err) => {
                let err = err.map_span(&md_source);
                panic!("err: {err:?}");
            }
        }
    }
    assert_eq!(backgrounds, 1);
    assert_eq!(examples, 1);
}

#[test]
fn background_values_are_the_code_blocks() {
    let md_source = make_spec(INPUT_SQL, OUTPUT_SQL);
    let md_doc = MdDocument::from_string(&md_source);
    let mut iter = sections(&md_doc);
    let mut seen = false;
    while let Some(section) = iter.next(&md_doc) {
        if let Ok(Section::Background(background)) = section {
            seen = true;
            assert_eq!(
                background.given.get("pipeline").map(|s| s.as_str()),
                Some("let output = display(ast_to_ast(parse(input)));\n")
            );
            assert_eq!(
                background.given.get("environment").map(|s| s.as_str()),
                Some("CREATE TABLE s(x int, y int);\nCREATE TABLE t(y int, z int);\n")
            );
            assert_eq!(background.given.key_at(0).as_str(), "pipeline");
            assert_eq!(background.given.key_at(1).as_str(), "environment");
        }
    }
    assert!(seen);
}

#[test]
fn example_bindings_hold_inputs_and_outputs() {
    let md_source = make_spec(INPUT_SQL, OUTPUT_SQL);
    let md_doc = MdDocument::from_string(&md_source);
    let mut iter = sections(&md_doc);
    let mut seen = false;
    while let Some(section) = iter.next(&md_doc) {
        if let Ok(Section::Example(example, _)) = section {
            seen = true;
            assert_eq!(example.name.as_str(), "Example: Simple queries");
            assert_eq!(example.when.get("input").map(|s| s.as_str()), Some(INPUT_SQL));
            assert_eq!(example.then_.get("output").map(|s| s.as_str()), Some(OUTPUT_SQL));
            assert_eq!(example.level.number(), 2);
        }
    }
    assert!(seen);
}

fn first_error(md_source: &str) -> Error<Pos> {
    let md_doc = MdDocument::from_string(md_source);
    let mut iter = sections(&md_doc);
    let mut found = None;
    while let Some(section) = iter.next(&md_doc) {
        let act_error = section.expect_err("example errors");
        found = Some(act_error.map_span(md_source));
    }
    found.expect("one section")
}

#[test]
fn bad_sections() {
    let cases: Vec<(&str, Error<Pos>)> = vec![
        (
            "## Background (1)\n\nGiven `pipeline` as:\n",
            Error::ExpectedCode { pos: Pos::new(3, 1) },
        ),
        (
            "## Example: (1)\n\nWhen pipeline is:\n",
            Error::ExpectedSpecParagraph {
                pattern: String::from("When `<key>` is:"),
                pos: Pos::new(3, 1),
            },
        ),
        (
            "## Example: (2)\n\nWhen _pipeline_ is:\n",
            Error::ExpectedSpecParagraph {
                pattern: String::from("When `<key>` is:"),
                pos: Pos::new(3, 1),
            },
        ),
        (
            "## Example: (3)\n\nWhen `input` is:\n\n```\n5\n```\n",
            Error::MissingThen { pos: Pos::new(1, 1) },
        ),
    ];
    for (md_source, exp_error) in cases {
        assert_eq!(exp_error, first_error(md_source));
    }
}

#[test]
fn background_without_given_reports_missing_when() {
    let err = first_error("## Background\n\nJust prose.\n");
    assert_eq!(err, Error::MissingWhen { pos: Pos::new(1, 1) });
}

#[test]
fn example_without_when_reports_missing_when() {
    let err = first_error("## Example: none\n\nThen `out` is:\n\n```\n1\n```\n");
    assert_eq!(err, Error::MissingWhen { pos: Pos::new(1, 1) });
}

#[test]
fn second_given_needs_and() {
    let src = "## Background\n\nGiven `a` as:\n\n```\n1\n```\n\nAnd b as:\n";
    let err = first_error(src);
    assert_eq!(
        err,
        Error::ExpectedSpecParagraph { pattern: String::from("And `<key>` as:"), pos: Pos::new(9, 1) }
    );
}

#[test]
fn code_block_with_two_texts_is_rejected() {
    let src = "## Example: x\n\nWhen `a` is:\n\n```\n```\n\nThen `b` is:\n\n```\n1\n```\n";
    let err = first_error(src);
    assert_eq!(err, Error::ExpectedCode { pos: Pos::new(3, 1) });
}

#[test]
fn raw_sections_and_plain_text() {
    let src = "# Title\n\nText.\n\n## Other\n";
    let md_doc = MdDocument::from_string(src);
    let mut iter = sections(&md_doc);
    let mut levels = Vec::new();
    while let Some(section) = iter.next(&md_doc) {
        match section {
            Ok(Section::Raw(raw)) => levels.push(raw.level.number()),
            _ => panic!("only raw sections"),
        }
    }
    assert_eq!(levels, vec![1, 2]);
}

#[test]
fn duplicate_key_keeps_last_value() {
    let src = "## Background\n\nGiven `a` as:\n\n```\n1\n```\n\nAnd `a` as:\n\n```\n2\n```\n";
    let md_doc = MdDocument::from_string(src);
    let mut iter = sections(&md_doc);
    match iter.next(&md_doc) {
        Some(Ok(Section::Background(b))) => {
            assert_eq!(b.given.len(), 1);
            assert_eq!(b.given.get("a").map(|s| s.as_str()), Some("2\n"));
        }
        _ => panic!("expected a background"),
    }
    assert!(iter.next(&md_doc).is_none());
}

#[test]
fn positions_count_lines_and_columns() {
    let src = "ab\ncd\nef";
    assert_eq!(Pos::from(0, src), Pos::new(1, 1));
    assert_eq!(Pos::from(1, src), Pos::new(1, 2));
    assert_eq!(Pos::from(3, src), Pos::new(2, 1));
    assert_eq!(Pos::from(4, src), Pos::new(2, 2));
    assert_eq!(Pos::from(7, src), Pos::new(3, 2));
    assert_eq!(Pos::new(12, 7).describe(), "line 12, column 7");
}

#[test]
fn map_span_keeps_the_pattern() {
    let e: Error<usize> = Error::ExpectedSpecParagraph { pattern: String::from("p"), pos: 4 };
    assert_eq!(
        e.map_span("abc\nde"),
        Error::ExpectedSpecParagraph { pattern: String::from("p"), pos: Pos::new(2, 1) }
    );
    let e: Error<usize> = Error::MissingGiven { pos: 0 };
    assert_eq!(e.map_span(""), Error::MissingGiven { pos: Pos::new(1, 1) });
}

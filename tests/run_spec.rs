use spectest::runner::{check_then, is_ignored, write_back, Action, Driver, Scopes};
use spectest::section::{Background, Bindings, Example};
use spectest::event::Level;
use spectest::md::MdDocument;
use spectest::reader::{Error as ReaderError, Pos};
use spectest::{process, rewrite, Error, Handler};

const INPUT_SQL: &str = "SELECT x, y, z FROM s JOIN t USING(y);\n";

const OUTPUT_SQL: &str = "SELECT\n    x, y, z\nFROM\n    s\n    JOIN t USING(y);\n";

fn make_spec(input: &str, output: &str) -> String {
    let mut s = String::new();
    s.push_str("# Feature: SQL formatting\n\n");
    s.push_str("Spec for an opinionated SQL formatter.\n\n");
    s.push_str("## Background\n\n");
    s.push_str("Given `pipeline` as:\n\n");
    s.push_str("```rust\nlet output = display(ast_to_ast(parse(input)));\n```\n\n");
    s.push_str("_Note_: this is just for readability.\n\n");
    s.push_str("And `environment` as:\n\n");
    s.push_str("```sql\nCREATE TABLE s(x int, y int);\nCREATE TABLE t(y int, z int);\n```\n\n");
    s.push_str("## Example: Simple queries\n\n");
    s.push_str("When `input` is:\n\n```sql\n");
    s.push_str(input.trim());
    s.push_str("\n```\n\nThen `output` is:\n\n```sql\n");
    s.push_str(output.trim());
    s.push_str("\n```\n");
    s
}

/// Sets `output` to a fixed value and records every call.
struct FixedHandler {
    output: String,
    calls: Vec<String>,
}

impl FixedHandler {
    fn new(output: &str) -> Self {
        FixedHandler { output: String::from(output), calls: Vec::new() }
    }
}

impl Handler for FixedHandler {
    type Error = String;

    fn enter(&mut self, background: &Background) -> Result<(), Self::Error> {
        self.calls.push(format!("enter {}", background.level.number()));
        Ok(())
    }

    fn leave(&mut self, background: &Background) -> Result<(), Self::Error> {
        self.calls.push(format!("leave {}", background.level.number()));
        Ok(())
    }

    fn example(&mut self, example: &mut Example) -> Result<(), Self::Error> {
        self.calls.push(format!("example {}", example.name));
        if example.then_.contains_key("output") {
            example.then_.insert("output", self.output.clone());
        }
        Ok(())
    }
}

/// Leaves every example as it is.
struct Unchanged;

impl Handler for Unchanged {
    type Error = String;

    fn example(&mut self, _example: &mut Example) -> Result<(), Self::Error> {
        Ok(())
    }
}

/// Fails on every example.
struct Failing;

impl Handler for Failing {
    type Error = String;

    fn example(&mut self, example: &mut Example) -> Result<(), Self::Error> {
        Err(format!("cannot run {}", example.name))
    }
}

#[test]
fn test_process() {
    let mut handler = FixedHandler::new(OUTPUT_SQL);
    process(&make_spec(INPUT_SQL, OUTPUT_SQL), &mut handler)
        .expect("`process` call completes cleanly");
}

#[test]
fn test_rewrite() {
    let mut handler = FixedHandler::new("<redacted>\n");
    let act = rewrite(&make_spec(INPUT_SQL, OUTPUT_SQL), &mut handler)
        .expect("`rewrite` call completes cleanly");
    let exp = make_spec(INPUT_SQL, "<redacted>");
    assert_eq!(act, exp);
}

#[test]
fn rewrite_with_unchanged_outputs_is_identity() {
    let src = make_spec(INPUT_SQL, OUTPUT_SQL);
    let act = rewrite(&src, &mut Unchanged).expect("rewrite");
    assert_eq!(act, src);
}

#[test]
fn verify_mismatch_reports_failure() {
    let mut handler = FixedHandler::new("SELECT 1;\n");
    match process(&make_spec(INPUT_SQL, OUTPUT_SQL), &mut handler) {
        Err(Error::Failure { key, example, expected, actual }) => {
            assert_eq!(key, "output");
            assert_eq!(example, "Example: Simple queries");
            assert_eq!(expected, OUTPUT_SQL);
            assert_eq!(actual, "SELECT 1;\n");
        }
        other => panic!("expected a failure, got {other:?}"),
    }
}

#[test]
fn ignored_examples_are_skipped() {
    let src = "## Example: slow (ignored)\n\nWhen `input` is:\n\n```\n1\n```\n\nThen `output` is:\n\n```\n2\n```\n";
    let mut handler = FixedHandler::new("3\n");
    process(src, &mut handler).expect("process");
    assert!(handler.calls.is_empty());
    let out = rewrite(src, &mut handler).expect("rewrite");
    assert_eq!(out, src);
    assert!(handler.calls.is_empty());
    assert!(is_ignored("Example: x (ignored)"));
    assert!(!is_ignored("Example: x (ignored) later"));
}

#[test]
fn handler_errors_end_the_run() {
    match process(&make_spec(INPUT_SQL, OUTPUT_SQL), &mut Failing) {
        Err(Error::Handler(msg)) => assert_eq!(msg, "cannot run Example: Simple queries"),
        other => panic!("expected a handler error, got {other:?}"),
    }
}

#[test]
fn reader_errors_carry_positions() {
    let src = "## Example: (3)\n\nWhen `input` is:\n\n```\n5\n```\n";
    match process(src, &mut Unchanged) {
        Err(Error::SpecReader(e)) => assert_eq!(e, ReaderError::MissingThen { pos: Pos::new(1, 1) }),
        other => panic!("expected a reader error, got {other:?}"),
    }
}

#[test]
fn backgrounds_are_left_deepest_first() {
    let src = "# Top\n\n## Background A\n\nGiven `a` as:\n\n```\n1\n```\n\n### Background B\n\nGiven `b` as:\n\n```\n2\n```\n\n## Next\n";
    let mut handler = FixedHandler::new("x");
    process(src, &mut handler).expect("process");
    assert_eq!(handler.calls, vec!["enter 2", "enter 3", "leave 3", "leave 2"]);
}

fn background(level: Level, key: &str) -> Background {
    let mut given = Bindings::new();
    given.insert(key, String::from("v"));
    Background { level, given }
}

#[test]
fn scopes_close_from_a_level() {
    let mut scopes = Scopes::new();
    scopes.open(background(Level::H2, "a"));
    scopes.open(background(Level::H3, "b"));
    scopes.open(background(Level::H3, "c"));
    scopes.open(background(Level::H1, "d"));
    let closed = scopes.close_from(Level::H2);
    let keys: Vec<&str> = closed.iter().map(|b| b.given.key_at(0).as_str()).collect();
    assert_eq!(keys, vec!["c", "b", "a"]);
    let rest = scopes.close_from(Level::H1);
    assert_eq!(rest.len(), 1);
    assert_eq!(rest[0].given.key_at(0).as_str(), "d");
    scopes.open(background(Level::H6, "e"));
    assert_eq!(scopes.close_from(Level::H6).len(), 1);
}

#[test]
fn bindings_replace_in_place() {
    let mut b = Bindings::new();
    assert!(b.is_empty());
    assert_eq!(b.insert("x", String::from("1")), 0);
    assert_eq!(b.insert("y", String::from("2")), 1);
    assert_eq!(b.insert("x", String::from("3")), 0);
    assert_eq!(b.len(), 2);
    assert_eq!(b.get("x").map(|s| s.as_str()), Some("3"));
    assert_eq!(b.value_at(1).as_str(), "2");
    assert!(b.get("z").is_none());
    assert_eq!(b.position("y"), Some(1));
}

#[test]
fn check_then_reports_the_first_difference() {
    let mut expected = Bindings::new();
    expected.insert("a", String::from("1"));
    expected.insert("b", String::from("2"));
    let mut actual = expected.copy();
    assert!(check_then::<String>("ex", &expected, &actual).is_ok());
    actual.insert("b", String::from("3"));
    match check_then::<String>("ex", &expected, &actual) {
        Err(Error::Failure { key, example, expected, actual }) => {
            assert_eq!((key.as_str(), example.as_str()), ("b", "ex"));
            assert_eq!((expected.as_str(), actual.as_str()), ("2", "3"));
        }
        other => panic!("expected a failure, got {other:?}"),
    }
    let empty = Bindings::new();
    assert!(matches!(check_then::<String>("ex", &expected, &empty), Err(Error::Unknown(_))));
}

#[test]
fn write_back_replaces_the_slot_tokens() {
    let src = "## Example: w\n\nWhen `i` is:\n\n```\n1\n```\n\nThen `o` is:\n\n```\n2\n```\n";
    let mut doc = MdDocument::from_string(src);
    let mut iter = spectest::reader::sections(&doc);
    let (example, slots) = match iter.next(&doc) {
        Some(Ok(spectest::section::Section::Example(e, s))) => (e, s),
        _ => panic!("expected an example"),
    };
    let mut actual = example.then_.copy();
    actual.insert("o", String::from("42\n"));
    write_back::<String>(&mut doc, &slots, &example.then_, &actual).expect("write back");
    let out = doc.render().expect("render");
    assert_eq!(out, src.replace("```\n2\n```", "```\n42\n```"));
    let bad = vec![usize::MAX];
    assert!(matches!(
        write_back::<String>(&mut doc, &bad, &example.then_, &actual),
        Err(Error::Unknown(_))
    ));
}

#[test]
fn quiet_documents_succeed_unchanged() {
    let src = "# Title\n\nText.\n\n## Example: skip (ignored)\n\nWhen `a` is:\n\n```\n1\n```\n\nThen `b` is:\n\n```\n2\n```\n";
    assert!(process(src, &mut Failing).is_ok());
    assert_eq!(rewrite(src, &mut Failing).expect("rewrite"), src);
}

#[test]
fn rewrite_rejects_lists() {
    let src = "# Title\n\n- a\n- b\n";
    match rewrite(src, &mut Unchanged) {
        Err(Error::MdWriter(e)) => {
            assert_eq!(e, spectest::md::writer::Error::UnsupportedTag("List"))
        }
        other => panic!("expected a writer error, got {other:?}"),
    }
    assert!(process(src, &mut Unchanged).is_ok());
}

#[test]
fn driver_hands_out_actions_in_document_order() {
    let src = "## Background A\n\nGiven `a` as:\n\n```\n1\n```\n\n## Example: x (ignored)\n\nWhen `i` is:\n\n```\n1\n```\n\nThen `o` is:\n\n```\n2\n```\n\n## Example: y\n\nWhen `i` is:\n\n```\n1\n```\n\nThen `o` is:\n\n```\n2\n```\n\n# End\n";
    let doc = MdDocument::from_string(src);
    let mut driver = Driver::new();
    let mut seen = Vec::new();
    loop {
        match driver.next_action(&doc).expect("no grammar error") {
            Action::Enter(b) => {
                seen.push(format!("enter {}", b.given.key_at(0)));
                driver.entered(b);
            }
            Action::Skip => seen.push(String::from("skip")),
            Action::RunExample(x, slots) => seen.push(format!("run {} {}", x.name, slots.len())),
            Action::Leave(bs) => seen.push(format!("leave {}", bs.len())),
            Action::Done => break,
        }
    }
    assert_eq!(seen, vec!["enter a", "skip", "run Example: y 1", "leave 1"]);
}

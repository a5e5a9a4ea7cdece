//! Markdown tokens: the events of the Markdown tokenizer, held as plain values.

use vstd::prelude::*;

verus! {

/// The level of a heading, from 1 to 6.
#[derive(Clone, Copy, Debug, PartialEq, Eq, Structural)]
pub enum Level {
    H1,
    H2,
    H3,
    H4,
    H5,
    H6,
}

impl Level {
    /// The level as a number from 1 to 6.
    pub open spec fn spec_number(self) -> nat {
        match self {
            Level::H1 => 1,
            Level::H2 => 2,
            Level::H3 => 3,
            Level::H4 => 4,
            Level::H5 => 5,
            Level::H6 => 6,
        }
    }

    pub fn number(self) -> (r: usize)
        ensures
            r == self.spec_number(),
            1 <= r <= 6,
    {
        match self {
            Level::H1 => 1,
            Level::H2 => 2,
            Level::H3 => 3,
            Level::H4 => 4,
            Level::H5 => 5,
            Level::H6 => 6,
        }
    }
}

/// The kind of a code block.
#[derive(Clone, Debug, PartialEq, Eq)]
pub enum CodeKind {
    Indented,
    /// A fenced block with its info string.
    Fenced(String),
}

/// The structural kind of a `Start` event.
#[derive(Clone, Debug, PartialEq, Eq)]
pub enum MdTag {
    Paragraph,
    Heading(Level),
    BlockQuote,
    CodeBlock(CodeKind),
    HtmlBlock,
    /// A list, with the number of its first item when it is ordered.
    List(Option<u64>),
    Item,
    FootnoteDefinition,
    Table,
    TableHead,
    TableRow,
    TableCell,
    Emphasis,
    Strong,
    Strikethrough,
    Link,
    Image,
    MetadataBlock,
}

/// The structural kind of an `End` event.
#[derive(Clone, Copy, Debug, PartialEq, Eq, Structural)]
pub enum MdTagEnd {
    Paragraph,
    Heading(Level),
    BlockQuote,
    CodeBlock,
    HtmlBlock,
    /// The end of a list; `true` when the list is ordered.
    List(bool),
    Item,
    FootnoteDefinition,
    Table,
    TableHead,
    TableRow,
    TableCell,
    Emphasis,
    Strong,
    Strikethrough,
    Link,
    Image,
    MetadataBlock,
}

/// One event of the tokenizer.
#[derive(Clone, Debug, PartialEq, Eq)]
pub enum MdEvent {
    Start(MdTag),
    End(MdTagEnd),
    Text(String),
    Code(String),
    InlineMath(String),
    DisplayMath(String),
    Html(String),
    InlineHtml(String),
    FootnoteReference(String),
    SoftBreak,
    HardBreak,
    Rule,
    TaskListMarker(bool),
}

/// An event with the half-open byte range `start..end` that it occupied in
/// the source text.
#[derive(Clone, Debug, PartialEq, Eq)]
pub struct Token {
    pub event: MdEvent,
    pub start: usize,
    pub end: usize,
}

#[verifier::external_type_specification]
#[verifier::external_body]
pub struct ExCowStr<'a>(pulldown_cmark::CowStr<'a>);

#[verifier::external_type_specification]
pub struct ExHeadingLevel(pulldown_cmark::HeadingLevel);

#[verifier::external_type_specification]
pub struct ExCodeBlockKind<'a>(pulldown_cmark::CodeBlockKind<'a>);

#[verifier::external_type_specification]
pub struct ExBlockQuoteKind(pulldown_cmark::BlockQuoteKind);

#[verifier::external_type_specification]
pub struct ExMetadataBlockKind(pulldown_cmark::MetadataBlockKind);

#[verifier::external_type_specification]
pub struct ExLinkType(pulldown_cmark::LinkType);

#[verifier::external_type_specification]
pub struct ExAlignment(pulldown_cmark::Alignment);

#[verifier::external_type_specification]
pub struct ExTag<'a>(pulldown_cmark::Tag<'a>);

#[verifier::external_type_specification]
pub struct ExTagEnd(pulldown_cmark::TagEnd);

#[verifier::external_type_specification]
pub struct ExEvent<'a>(pulldown_cmark::Event<'a>);

/// Relies on `CowStr::into_string` of pulldown_cmark, which hands out the
/// text that the value holds.
#[verifier::external_body]
fn cow_into_string(s: pulldown_cmark::CowStr<'_>) -> String {
    s.into_string()
}

pub open spec fn level_corresponds(l: pulldown_cmark::HeadingLevel, r: Level) -> bool {
    match (l, r) {
        (pulldown_cmark::HeadingLevel::H1, Level::H1) => true,
        (pulldown_cmark::HeadingLevel::H2, Level::H2) => true,
        (pulldown_cmark::HeadingLevel::H3, Level::H3) => true,
        (pulldown_cmark::HeadingLevel::H4, Level::H4) => true,
        (pulldown_cmark::HeadingLevel::H5, Level::H5) => true,
        (pulldown_cmark::HeadingLevel::H6, Level::H6) => true,
        _ => false,
    }
}

/// Whether `r` is the tag `t` of pulldown_cmark: same kind, same heading
/// level, same first number of a list.
pub open spec fn tag_corresponds<'a>(t: pulldown_cmark::Tag<'a>, r: MdTag) -> bool {
    match (t, r) {
        (pulldown_cmark::Tag::Paragraph, MdTag::Paragraph) => true,
        (pulldown_cmark::Tag::Heading { level, .. }, MdTag::Heading(l)) => level_corresponds(
            level,
            l,
        ),
        (pulldown_cmark::Tag::BlockQuote(_), MdTag::BlockQuote) => true,
        (
            pulldown_cmark::Tag::CodeBlock(pulldown_cmark::CodeBlockKind::Indented),
            MdTag::CodeBlock(CodeKind::Indented),
        ) => true,
        (
            pulldown_cmark::Tag::CodeBlock(pulldown_cmark::CodeBlockKind::Fenced(_)),
            MdTag::CodeBlock(CodeKind::Fenced(_)),
        ) => true,
        (pulldown_cmark::Tag::HtmlBlock, MdTag::HtmlBlock) => true,
        (pulldown_cmark::Tag::List(n), MdTag::List(m)) => n == m,
        (pulldown_cmark::Tag::Item, MdTag::Item) => true,
        (pulldown_cmark::Tag::FootnoteDefinition(_), MdTag::FootnoteDefinition) => true,
        (pulldown_cmark::Tag::Table(_), MdTag::Table) => true,
        (pulldown_cmark::Tag::TableHead, MdTag::TableHead) => true,
        (pulldown_cmark::Tag::TableRow, MdTag::TableRow) => true,
        (pulldown_cmark::Tag::TableCell, MdTag::TableCell) => true,
        (pulldown_cmark::Tag::Emphasis, MdTag::Emphasis) => true,
        (pulldown_cmark::Tag::Strong, MdTag::Strong) => true,
        (pulldown_cmark::Tag::Strikethrough, MdTag::Strikethrough) => true,
        (pulldown_cmark::Tag::Link { .. }, MdTag::Link) => true,
        (pulldown_cmark::Tag::Image { .. }, MdTag::Image) => true,
        (pulldown_cmark::Tag::MetadataBlock(_), MdTag::MetadataBlock) => true,
        _ => false,
    }
}

/// Whether `r` is the end tag `t` of pulldown_cmark.
pub open spec fn tag_end_corresponds(t: pulldown_cmark::TagEnd, r: MdTagEnd) -> bool {
    match (t, r) {
        (pulldown_cmark::TagEnd::Paragraph, MdTagEnd::Paragraph) => true,
        (pulldown_cmark::TagEnd::Heading(level), MdTagEnd::Heading(l)) => level_corresponds(
            level,
            l,
        ),
        (pulldown_cmark::TagEnd::BlockQuote, MdTagEnd::BlockQuote) => true,
        (pulldown_cmark::TagEnd::CodeBlock, MdTagEnd::CodeBlock) => true,
        (pulldown_cmark::TagEnd::HtmlBlock, MdTagEnd::HtmlBlock) => true,
        (pulldown_cmark::TagEnd::List(a), MdTagEnd::List(b)) => a == b,
        (pulldown_cmark::TagEnd::Item, MdTagEnd::Item) => true,
        (pulldown_cmark::TagEnd::FootnoteDefinition, MdTagEnd::FootnoteDefinition) => true,
        (pulldown_cmark::TagEnd::Table, MdTagEnd::Table) => true,
        (pulldown_cmark::TagEnd::TableHead, MdTagEnd::TableHead) => true,
        (pulldown_cmark::TagEnd::TableRow, MdTagEnd::TableRow) => true,
        (pulldown_cmark::TagEnd::TableCell, MdTagEnd::TableCell) => true,
        (pulldown_cmark::TagEnd::Emphasis, MdTagEnd::Emphasis) => true,
        (pulldown_cmark::TagEnd::Strong, MdTagEnd::Strong) => true,
        (pulldown_cmark::TagEnd::Strikethrough, MdTagEnd::Strikethrough) => true,
        (pulldown_cmark::TagEnd::Link, MdTagEnd::Link) => true,
        (pulldown_cmark::TagEnd::Image, MdTagEnd::Image) => true,
        (pulldown_cmark::TagEnd::MetadataBlock(_), MdTagEnd::MetadataBlock) => true,
        _ => false,
    }
}

/// Whether `r` is the event `e` of pulldown_cmark: same kind, with
/// corresponding tags and the same task mark. What a text holds is carried
/// over by pulldown_cmark's `CowStr`.
pub open spec fn event_corresponds<'a>(e: pulldown_cmark::Event<'a>, r: MdEvent) -> bool {
    match (e, r) {
        (pulldown_cmark::Event::Start(t), MdEvent::Start(u)) => tag_corresponds(t, u),
        (pulldown_cmark::Event::End(t), MdEvent::End(u)) => tag_end_corresponds(t, u),
        (pulldown_cmark::Event::Text(_), MdEvent::Text(_)) => true,
        (pulldown_cmark::Event::Code(_), MdEvent::Code(_)) => true,
        (pulldown_cmark::Event::InlineMath(_), MdEvent::InlineMath(_)) => true,
        (pulldown_cmark::Event::DisplayMath(_), MdEvent::DisplayMath(_)) => true,
        (pulldown_cmark::Event::Html(_), MdEvent::Html(_)) => true,
        (pulldown_cmark::Event::InlineHtml(_), MdEvent::InlineHtml(_)) => true,
        (pulldown_cmark::Event::FootnoteReference(_), MdEvent::FootnoteReference(_)) => true,
        (pulldown_cmark::Event::SoftBreak, MdEvent::SoftBreak) => true,
        (pulldown_cmark::Event::HardBreak, MdEvent::HardBreak) => true,
        (pulldown_cmark::Event::Rule, MdEvent::Rule) => true,
        (pulldown_cmark::Event::TaskListMarker(a), MdEvent::TaskListMarker(b)) => a == b,
        _ => false,
    }
}

fn level_from(level: pulldown_cmark::HeadingLevel) -> (r: Level)
    ensures
        level_corresponds(level, r),
{
    match level {
        pulldown_cmark::HeadingLevel::H1 => Level::H1,
        pulldown_cmark::HeadingLevel::H2 => Level::H2,
        pulldown_cmark::HeadingLevel::H3 => Level::H3,
        pulldown_cmark::HeadingLevel::H4 => Level::H4,
        pulldown_cmark::HeadingLevel::H5 => Level::H5,
        pulldown_cmark::HeadingLevel::H6 => Level::H6,
    }
}


fn tag_from<'a>(tag: pulldown_cmark::Tag<'a>) -> (r: MdTag)
    ensures
        tag_corresponds(tag, r),
{
    match tag {
        pulldown_cmark::Tag::Paragraph => MdTag::Paragraph,
        pulldown_cmark::Tag::Heading { level, .. } => MdTag::Heading(level_from(level)),
        pulldown_cmark::Tag::BlockQuote(_) => MdTag::BlockQuote,
        pulldown_cmark::Tag::CodeBlock(pulldown_cmark::CodeBlockKind::Indented) => MdTag::CodeBlock(
            CodeKind::Indented,
        ),
        pulldown_cmark::Tag::CodeBlock(pulldown_cmark::CodeBlockKind::Fenced(info)) => MdTag::CodeBlock(
            CodeKind::Fenced(cow_into_string(info)),
        ),
        pulldown_cmark::Tag::HtmlBlock => MdTag::HtmlBlock,
        pulldown_cmark::Tag::List(first) => MdTag::List(first),
        pulldown_cmark::Tag::Item => MdTag::Item,
        pulldown_cmark::Tag::FootnoteDefinition(_) => MdTag::FootnoteDefinition,
        pulldown_cmark::Tag::Table(_) => MdTag::Table,
        pulldown_cmark::Tag::TableHead => MdTag::TableHead,
        pulldown_cmark::Tag::TableRow => MdTag::TableRow,
        pulldown_cmark::Tag::TableCell => MdTag::TableCell,
        pulldown_cmark::Tag::Emphasis => MdTag::Emphasis,
        pulldown_cmark::Tag::Strong => MdTag::Strong,
        pulldown_cmark::Tag::Strikethrough => MdTag::Strikethrough,
        pulldown_cmark::Tag::Link { .. } => MdTag::Link,
        pulldown_cmark::Tag::Image { .. } => MdTag::Image,
        pulldown_cmark::Tag::MetadataBlock(_) => MdTag::MetadataBlock,
    }
}

fn tag_end_from(tag: pulldown_cmark::TagEnd) -> (r: MdTagEnd)
    ensures
        tag_end_corresponds(tag, r),
{
    match tag {
        pulldown_cmark::TagEnd::Paragraph => MdTagEnd::Paragraph,
        pulldown_cmark::TagEnd::Heading(level) => MdTagEnd::Heading(level_from(level)),
        pulldown_cmark::TagEnd::BlockQuote => MdTagEnd::BlockQuote,
        pulldown_cmark::TagEnd::CodeBlock => MdTagEnd::CodeBlock,
        pulldown_cmark::TagEnd::HtmlBlock => MdTagEnd::HtmlBlock,
        pulldown_cmark::TagEnd::List(ordered) => MdTagEnd::List(ordered),
        pulldown_cmark::TagEnd::Item => MdTagEnd::Item,
        pulldown_cmark::TagEnd::FootnoteDefinition => MdTagEnd::FootnoteDefinition,
        pulldown_cmark::TagEnd::Table => MdTagEnd::Table,
        pulldown_cmark::TagEnd::TableHead => MdTagEnd::TableHead,
        pulldown_cmark::TagEnd::TableRow => MdTagEnd::TableRow,
        pulldown_cmark::TagEnd::TableCell => MdTagEnd::TableCell,
        pulldown_cmark::TagEnd::Emphasis => MdTagEnd::Emphasis,
        pulldown_cmark::TagEnd::Strong => MdTagEnd::Strong,
        pulldown_cmark::TagEnd::Strikethrough => MdTagEnd::Strikethrough,
        pulldown_cmark::TagEnd::Link => MdTagEnd::Link,
        pulldown_cmark::TagEnd::Image => MdTagEnd::Image,
        pulldown_cmark::TagEnd::MetadataBlock(_) => MdTagEnd::MetadataBlock,
    }
}

impl Token {
    /// Builds a token from an event of pulldown_cmark and its byte range.
    pub fn from_cmark<'a>(event: pulldown_cmark::Event<'a>, start: usize, end: usize) -> (r: Token)
        ensures
            event_corresponds(event, r.event),
            r.start == start,
            r.end == end,
    {
        let event = match event {
            pulldown_cmark::Event::Start(tag) => MdEvent::Start(tag_from(tag)),
            pulldown_cmark::Event::End(tag) => MdEvent::End(tag_end_from(tag)),
            pulldown_cmark::Event::Text(s) => MdEvent::Text(cow_into_string(s)),
            pulldown_cmark::Event::Code(s) => MdEvent::Code(cow_into_string(s)),
            pulldown_cmark::Event::InlineMath(s) => MdEvent::InlineMath(cow_into_string(s)),
            pulldown_cmark::Event::DisplayMath(s) => MdEvent::DisplayMath(cow_into_string(s)),
            pulldown_cmark::Event::Html(s) => MdEvent::Html(cow_into_string(s)),
            pulldown_cmark::Event::InlineHtml(s) => MdEvent::InlineHtml(cow_into_string(s)),
            pulldown_cmark::Event::FootnoteReference(s) => MdEvent::FootnoteReference(
                cow_into_string(s),
            ),
            pulldown_cmark::Event::SoftBreak => MdEvent::SoftBreak,
            pulldown_cmark::Event::HardBreak => MdEvent::HardBreak,
            pulldown_cmark::Event::Rule => MdEvent::Rule,
            pulldown_cmark::Event::TaskListMarker(checked) => MdEvent::TaskListMarker(checked),
        };
        Token { event, start, end }
    }
}

/// What the Markdown tokenizer makes of a source text.
pub uninterp spec fn tokens_of(source: Seq<char>) -> Seq<Token>;

/// Relies on pulldown_cmark's `Parser::new_ext` (strikethrough enabled) and
/// its offset iterator: the tokens depend on the source text alone.
#[verifier::external_body]
pub(crate) fn tokenize(source: &str) -> (r: Vec<Token>)
    ensures
        r@ == tokens_of(source@),
{
    let mut options = pulldown_cmark::Options::empty();
    options.insert(pulldown_cmark::Options::ENABLE_STRIKETHROUGH);
    let parser = pulldown_cmark::Parser::new_ext(source, options);
    parser.into_offset_iter().map(|(e, r)| Token::from_cmark(e, r.start, r.end)).collect()
}

} // verus!

//! Extracting `Background`, `Example` and other sections from a document.
//!
//! A section runs from a heading to the next heading. Inside a background,
//! paragraphs of the form ``Given `key` as:`` (later ``And `key` as:``), each
//! followed by a fenced code block, bind keys to values. Inside an example,
//! ``When `key` is:`` paragraphs bind inputs and ``Then `key` is:``
//! paragraphs bind recorded outputs.

use vstd::prelude::*;
use vstd::string::*;

use crate::event::{Level, MdEvent, MdTag, MdTagEnd, Token};
use crate::md::MdDocument;
use crate::section::{bind, key_index, keys_of, lemma_key_index, Background, Bindings, Example, Raw, Section};
use crate::text::{decimal, decimal_of, ends_with, has_prefix, has_suffix, starts_with};

verus! {

/// The tokens that the extractor looks for.
#[derive(Clone, Copy, PartialEq, Eq, Structural)]
pub enum Mark {
    HeadingStart,
    ParagraphStart,
    ParagraphEnd,
    CodeStart,
    CodeEnd,
}

pub open spec fn marks(e: MdEvent, m: Mark) -> bool {
    match (e, m) {
        (MdEvent::Start(MdTag::Heading(_)), Mark::HeadingStart) => true,
        (MdEvent::Start(MdTag::Paragraph), Mark::ParagraphStart) => true,
        (MdEvent::End(MdTagEnd::Paragraph), Mark::ParagraphEnd) => true,
        (MdEvent::Start(MdTag::CodeBlock(_)), Mark::CodeStart) => true,
        (MdEvent::End(MdTagEnd::CodeBlock), Mark::CodeEnd) => true,
        _ => false,
    }
}

fn is_mark(e: &MdEvent, m: Mark) -> (r: bool)
    ensures
        r == marks(*e, m),
{
    match (e, m) {
        (MdEvent::Start(MdTag::Heading(_)), Mark::HeadingStart) => true,
        (MdEvent::Start(MdTag::Paragraph), Mark::ParagraphStart) => true,
        (MdEvent::End(MdTagEnd::Paragraph), Mark::ParagraphEnd) => true,
        (MdEvent::Start(MdTag::CodeBlock(_)), Mark::CodeStart) => true,
        (MdEvent::End(MdTagEnd::CodeBlock), Mark::CodeEnd) => true,
        _ => false,
    }
}

/// The first index in `from..end` of a token with mark `m`, or `end`.
pub open spec fn find_mark(toks: Seq<Token>, from: int, end: int, m: Mark) -> int
    decreases end - from,
{
    if from >= end {
        end
    } else if marks(toks[from].event, m) {
        from
    } else {
        find_mark(toks, from + 1, end, m)
    }
}

pub proof fn lemma_find_mark(toks: Seq<Token>, from: int, end: int, m: Mark)
    requires
        from <= end,
    ensures
        from <= find_mark(toks, from, end, m) <= end,
    decreases end - from,
{
    if from < end && !marks(toks[from].event, m) {
        lemma_find_mark(toks, from + 1, end, m);
    }
}

fn advance(toks: &Vec<Token>, from: usize, end: usize, m: Mark) -> (r: usize)
    requires
        from <= end <= toks@.len(),
    ensures
        r == find_mark(toks@, from as int, end as int, m),
        from <= r <= end,
{
    let mut i = from;
    while i < end
        invariant
            from <= i <= end <= toks@.len(),
            find_mark(toks@, from as int, end as int, m) == find_mark(toks@, i as int, end as int, m),
        decreases end - i,
    {
        if is_mark(&toks[i].event, m) {
            return i;
        }
        i = i + 1;
    }
    i
}

/// The text of a `Text` token.
pub open spec fn text_of(t: Token) -> Option<Seq<char>> {
    match t.event {
        MdEvent::Text(s) => Some(s@),
        _ => None,
    }
}

/// The text of a `Text` token, or nothing.
pub open spec fn value_text(t: Token) -> Seq<char> {
    match t.event {
        MdEvent::Text(s) => s@,
        _ => Seq::empty(),
    }
}

/// The text of a `Code` token, or nothing.
pub open spec fn code_text(t: Token) -> Seq<char> {
    match t.event {
        MdEvent::Code(s) => s@,
        _ => Seq::empty(),
    }
}

/// The three kinds of binding paragraphs.
#[derive(Clone, Copy, PartialEq, Eq, Structural)]
pub enum Phrase {
    Given,
    When,
    Then,
}

/// The word that opens a binding paragraph: `And ` for all but the first.
pub open spec fn spec_lead(ph: Phrase, first: bool) -> Seq<char> {
    if !first {
        "And "@
    } else {
        match ph {
            Phrase::Given => "Given "@,
            Phrase::When => "When "@,
            Phrase::Then => "Then "@,
        }
    }
}

/// The words that close a binding paragraph.
pub open spec fn spec_tail(ph: Phrase) -> Seq<char> {
    match ph {
        Phrase::Given => " as:"@,
        _ => " is:"@,
    }
}

/// The form that a binding paragraph must have, as error messages give it.
pub open spec fn pattern_of(ph: Phrase, first: bool) -> Seq<char> {
    spec_lead(ph, first) + "`<key>`"@ + spec_tail(ph)
}

fn lead(ph: Phrase, first: bool) -> (r: &'static str)
    ensures
        r@ == spec_lead(ph, first),
{
    if !first {
        "And "
    } else {
        match ph {
            Phrase::Given => "Given ",
            Phrase::When => "When ",
            Phrase::Then => "Then ",
        }
    }
}

fn tail(ph: Phrase) -> (r: &'static str)
    ensures
        r@ == spec_tail(ph),
{
    match ph {
        Phrase::Given => " as:",
        _ => " is:",
    }
}

fn pattern(ph: Phrase, first: bool) -> (r: String)
    ensures
        r@ == pattern_of(ph, first),
{
    let mut r = String::from_str(lead(ph, first));
    r.append("`<key>`");
    r.append(tail(ph));
    r
}

/// A grammar fault, with the byte offset where it was found.
pub enum Fault {
    SpecParagraph(Seq<char>, int),
    Code(int),
    NoWhen(int),
    NoThen(int),
}

/// The byte offset at which a fault was found.
pub open spec fn fault_offset(f: Fault) -> int {
    match f {
        Fault::SpecParagraph(_, at) => at,
        Fault::Code(at) => at,
        Fault::NoWhen(at) => at,
        Fault::NoThen(at) => at,
    }
}

/// What the inline tokens `p..q` of a paragraph make of a binding paragraph.
pub enum KeyMatch {
    /// The paragraph is not a binding paragraph.
    No,
    /// It opens and closes as one but its shape is wrong at this offset.
    Bad(int),
    /// It binds the key of the `Code` token at this index.
    Key(int),
}

pub open spec fn opens_with(toks: Seq<Token>, i: int, lead: Seq<char>) -> bool {
    match text_of(toks[i]) {
        Some(t) => has_prefix(t, lead),
        None => false,
    }
}

pub open spec fn closes_with(toks: Seq<Token>, i: int, tail: Seq<char>) -> bool {
    match text_of(toks[i]) {
        Some(t) => has_suffix(t, tail),
        None => false,
    }
}

pub open spec fn key_match(toks: Seq<Token>, p: int, q: int, lead: Seq<char>, tail: Seq<char>) -> KeyMatch {
    if !(p < q && opens_with(toks, p, lead) && closes_with(toks, q - 1, tail)) {
        KeyMatch::No
    } else if q - p != 3 {
        KeyMatch::Bad(toks[p].start as int)
    } else if !(toks[p + 1].event is Code) {
        KeyMatch::Bad(toks[p + 1].start as int)
    } else {
        KeyMatch::Key(p + 1)
    }
}

fn text_opens(t: &Token, lead: &str) -> (r: bool)
    ensures
        r == match text_of(*t) {
            Some(s) => has_prefix(s, lead@),
            None => false,
        },
{
    match &t.event {
        MdEvent::Text(s) => starts_with(s.as_str(), lead),
        _ => false,
    }
}

fn text_closes(t: &Token, tail: &str) -> (r: bool)
    ensures
        r == match text_of(*t) {
            Some(s) => has_suffix(s, tail@),
            None => false,
        },
{
    match &t.event {
        MdEvent::Text(s) => ends_with(s.as_str(), tail),
        _ => false,
    }
}

/// `Ok(None)` for no binding paragraph, `Err(offset)` for a malformed one,
/// `Ok(Some(key))` for a key.
fn match_key<'a>(toks: &'a Vec<Token>, p: usize, q: usize, lead: &str, tail: &str) -> (r: Result<
    Option<&'a String>,
    usize,
>)
    requires
        p <= q <= toks@.len(),
    ensures
        match key_match(toks@, p as int, q as int, lead@, tail@) {
            KeyMatch::No => r == Ok::<Option<&'a String>, usize>(None),
            KeyMatch::Bad(at) => r == Err::<Option<&'a String>, usize>(at as usize),
            KeyMatch::Key(i) => match r {
                Ok(Some(k)) => k@ == code_text(toks@[i]),
                _ => false,
            },
        },
{
    if !(p < q && text_opens(&toks[p], lead) && text_closes(&toks[q - 1], tail)) {
        return Ok(None);
    }
    if q - p != 3 {
        return Err(toks[p].start);
    }
    match &toks[p + 1].event {
        MdEvent::Code(k) => Ok(Some(k)),
        _ => Err(toks[p + 1].start),
    }
}

/// One step of a binding loop, from the paragraph start `c1` (or the end).
pub enum Step {
    /// Go on from this index.
    Skip(int),
    /// Bind this key to the value of the token at this index, and go on from
    /// the last index.
    Bind(Seq<char>, int, int),
    Fail(Fault),
}

pub open spec fn step(toks: Seq<Token>, c1: int, e: int, ph: Phrase, first: bool) -> Step {
    if c1 >= e {
        Step::Skip(e)
    } else {
        let pos = toks[c1].start as int;
        let k = find_mark(toks, c1 + 1, e, Mark::ParagraphEnd);
        let next = if k < e {
            k + 1
        } else {
            e
        };
        match key_match(toks, c1 + 1, k, spec_lead(ph, first), spec_tail(ph)) {
            KeyMatch::No => Step::Skip(next),
            KeyMatch::Bad(at) => Step::Fail(Fault::SpecParagraph(pattern_of(ph, first), at)),
            KeyMatch::Key(ki) => {
                if next < e && marks(toks[next].event, Mark::CodeStart) {
                    let m = find_mark(toks, next + 1, e, Mark::CodeEnd);
                    if m == next + 2 && text_of(toks[next + 1]) is Some {
                        Step::Bind(code_text(toks[ki]), next + 1, if m < e {
                            m + 1
                        } else {
                            e
                        })
                    } else {
                        Step::Fail(Fault::Code(pos))
                    }
                } else {
                    Step::Fail(Fault::Code(pos))
                }
            },
        }
    }
}

/// Whether a `Then` paragraph opens at `c1`: it ends the `When` bindings.
pub open spec fn then_ahead(toks: Seq<Token>, c1: int, e: int) -> bool {
    e - c1 >= 5 && !(key_match(
        toks,
        c1 + 1,
        c1 + 4,
        spec_lead(Phrase::Then, true),
        spec_tail(Phrase::Then),
    ) is No)
}

/// The bindings of phrase `ph` found from `c` on, added to `acc`, with the
/// index where the search stopped.
pub open spec fn bind_loop(
    toks: Seq<Token>,
    c: int,
    e: int,
    ph: Phrase,
    acc: Seq<(Seq<char>, int)>,
) -> Result<(Seq<(Seq<char>, int)>, int), Fault>
    decreases e - c,
{
    if c >= e {
        Ok((acc, c))
    } else {
        let c1 = find_mark(toks, c, e, Mark::ParagraphStart);
        if ph == Phrase::When && then_ahead(toks, c1, e) {
            Ok((acc, c1))
        } else {
            match step(toks, c1, e, ph, acc.len() == 0) {
                Step::Skip(n) => if c < n <= e {
                    bind_loop(toks, n, e, ph, acc)
                } else {
                    Ok((acc, c))
                },
                Step::Bind(k, v, n) => if c < n <= e {
                    bind_loop(toks, n, e, ph, bind(acc, k, v))
                } else {
                    Ok((acc, c))
                },
                Step::Fail(f) => Err(f),
            }
        }
    }
}

/// The key/value texts of bindings that point at value tokens.
pub open spec fn texts(toks: Seq<Token>, acc: Seq<(Seq<char>, int)>) -> Seq<(Seq<char>, Seq<char>)> {
    acc.map_values(|p: (Seq<char>, int)| (p.0, value_text(toks[p.1])))
}

/// The token indices of bindings, in order.
pub open spec fn slots_of(acc: Seq<(Seq<char>, int)>) -> Seq<usize> {
    acc.map_values(|p: (Seq<char>, int)| p.1 as usize)
}

pub proof fn lemma_texts_bind(toks: Seq<Token>, acc: Seq<(Seq<char>, int)>, k: Seq<char>, v: int)
    ensures
        keys_of(texts(toks, acc)) == keys_of(acc),
        texts(toks, bind(acc, k, v)) == bind(texts(toks, acc), k, value_text(toks[v])),
{
    assert(keys_of(texts(toks, acc)) =~= keys_of(acc));
    let i = key_index(keys_of(acc), k);
    lemma_key_index(keys_of(acc), k);
    if i >= 0 {
        assert(texts(toks, bind(acc, k, v)) =~= bind(texts(toks, acc), k, value_text(toks[v])));
    } else {
        assert(texts(toks, bind(acc, k, v)) =~= bind(texts(toks, acc), k, value_text(toks[v])));
    }
}

/// The error that stands for a fault, with positions as byte offsets.
pub open spec fn error_is(e: Error<usize>, f: Fault) -> bool {
    match (e, f) {
        (Error::ExpectedSpecParagraph { pattern, pos }, Fault::SpecParagraph(p, at)) => pattern@
            == p && pos == at,
        (Error::ExpectedCode { pos }, Fault::Code(at)) => pos == at,
        (Error::MissingWhen { pos }, Fault::NoWhen(at)) => pos == at,
        (Error::MissingThen { pos }, Fault::NoThen(at)) => pos == at,
        _ => false,
    }
}

/// What `bind_loop` yields, held by executable values.
pub open spec fn loop_result_is(
    toks: Seq<Token>,
    r: Result<(Bindings, Vec<usize>, usize), Error<usize>>,
    m: Result<(Seq<(Seq<char>, int)>, int), Fault>,
) -> bool {
    match (r, m) {
        (Ok((b, s, n)), Ok((acc, c))) => b@ == texts(toks, acc) && s@ == slots_of(acc) && n == c,
        (Err(e), Err(f)) => error_is(e, f),
        _ => false,
    }
}

fn run_bind_loop(toks: &Vec<Token>, c0: usize, e: usize, ph: Phrase) -> (r: Result<
    (Bindings, Vec<usize>, usize),
    Error<usize>,
>)
    requires
        c0 <= e <= toks@.len(),
    ensures
        loop_result_is(toks@, r, bind_loop(toks@, c0 as int, e as int, ph, Seq::empty())),
{
    let mut found = Bindings::new();
    let mut slots: Vec<usize> = Vec::new();
    let ghost mut acc: Seq<(Seq<char>, int)> = Seq::empty();
    let mut c = c0;
    assert(slots@ =~= slots_of(acc));
    while c < e
        invariant
            c <= e <= toks@.len(),
            bind_loop(toks@, c0 as int, e as int, ph, Seq::empty()) == bind_loop(
                toks@,
                c as int,
                e as int,
                ph,
                acc,
            ),
            found@ == texts(toks@, acc),
            slots@ == slots_of(acc),
            forall|j: int| 0 <= j < acc.len() ==> 0 <= #[trigger] acc[j].1 < toks@.len(),
        decreases e - c,
    {
        let c1 = advance(toks, c, e, Mark::ParagraphStart);
        if ph == Phrase::When && e - c1 >= 5 {
            match match_key(toks, c1 + 1, c1 + 4, lead(Phrase::Then, true), tail(Phrase::Then)) {
                Ok(None) => {},
                _ => {
                    return Ok((found, slots, c1));
                },
            }
        }
        if c1 >= e {
            assert(bind_loop(toks@, e as int, e as int, ph, acc) == Ok::<
                (Seq<(Seq<char>, int)>, int),
                Fault,
            >((acc, e as int)));
            return Ok((found, slots, e));
        }
        let first = found.len() == 0;
        assert(first == (acc.len() == 0));
        let pos = toks[c1].start;
        let k = advance(toks, c1 + 1, e, Mark::ParagraphEnd);
        let next = if k < e {
            k + 1
        } else {
            e
        };
        let key = match match_key(toks, c1 + 1, k, lead(ph, first), tail(ph)) {
            Ok(None) => {
                c = next;
                continue ;
            },
            Err(at) => {
                return Err(Error::ExpectedSpecParagraph { pattern: pattern(ph, first), pos: at });
            },
            Ok(Some(key)) => key,
        };
        if !(next < e && is_mark(&toks[next].event, Mark::CodeStart)) {
            return Err(Error::ExpectedCode { pos });
        }
        let m = advance(toks, next + 1, e, Mark::CodeEnd);
        let value = if m - next == 2 {
            match &toks[next + 1].event {
                MdEvent::Text(v) => v.clone(),
                _ => {
                    return Err(Error::ExpectedCode { pos });
                },
            }
        } else {
            return Err(Error::ExpectedCode { pos });
        };
        let ghost old_acc = acc;
        proof {
            lemma_texts_bind(toks@, acc, key@, next + 1);
            lemma_key_index(keys_of(acc), key@);
            acc = bind(acc, key@, next + 1);
        }
        let before = found.len();
        let at = found.insert(key.as_str(), value);
        if at < before {
            slots.set(at, next + 1);
        } else {
            slots.push(next + 1);
        }
        proof {
            assert(slots@ =~= slots_of(acc));
        }
        c = if m < e {
            m + 1
        } else {
            e
        };
    }
    Ok((found, slots, c))
}

/// The kind of a section, from the text that opens its heading.
#[derive(Clone, Copy, PartialEq, Eq, Structural)]
pub enum SectionKind {
    Background,
    Example,
    Raw,
}

/// The text token that opens the heading at `h`, if there is one.
pub open spec fn heading_text(toks: Seq<Token>, h: int, e: int) -> Option<Seq<char>> {
    if h + 1 < e {
        text_of(toks[h + 1])
    } else {
        None
    }
}

pub open spec fn kind_of(toks: Seq<Token>, h: int, e: int) -> SectionKind {
    match heading_text(toks, h, e) {
        Some(t) => if has_prefix(t, "Background"@) {
            SectionKind::Background
        } else if has_prefix(t, "Example:"@) {
            SectionKind::Example
        } else {
            SectionKind::Raw
        },
        None => SectionKind::Raw,
    }
}

/// The level of a heading start token.
pub open spec fn level_of(t: Token) -> Level {
    match t.event {
        MdEvent::Start(MdTag::Heading(l)) => l,
        _ => Level::H1,
    }
}

/// Where the body of the section `h..e` begins: after the heading's start,
/// text and end tokens.
pub open spec fn body_start(h: int, e: int) -> int {
    if h + 3 <= e {
        h + 3
    } else {
        e
    }
}

/// A section as the extractor sees it: bindings point at value tokens.
pub enum SectionModel {
    Background(Level, Seq<(Seq<char>, int)>),
    Example(Level, Seq<char>, Seq<(Seq<char>, int)>, Seq<(Seq<char>, int)>),
    Raw(Level),
}

/// What the section of tokens `h..e`, opened by a heading at `h`, holds.
pub open spec fn parse_section(toks: Seq<Token>, h: int, e: int) -> Result<SectionModel, Fault> {
    let level = level_of(toks[h]);
    let b = body_start(h, e);
    let at = toks[h].start as int;
    match kind_of(toks, h, e) {
        SectionKind::Background => match bind_loop(toks, b, e, Phrase::Given, Seq::empty()) {
            Err(f) => Err(f),
            Ok((given, _)) => if given.len() == 0 {
                Err(Fault::NoWhen(at))
            } else {
                Ok(SectionModel::Background(level, given))
            },
        },
        SectionKind::Example => match bind_loop(toks, b, e, Phrase::When, Seq::empty()) {
            Err(f) => Err(f),
            Ok((when, c)) => match bind_loop(toks, c, e, Phrase::Then, Seq::empty()) {
                Err(f) => Err(f),
                Ok((outs, _)) => if when.len() == 0 {
                    Err(Fault::NoWhen(at))
                } else if outs.len() == 0 {
                    Err(Fault::NoThen(at))
                } else {
                    Ok(
                        SectionModel::Example(
                            level,
                            heading_text(toks, h, e).unwrap(),
                            when,
                            outs,
                        ),
                    )
                },
            },
        },
        SectionKind::Raw => Ok(SectionModel::Raw(level)),
    }
}

/// The section that the extractor finds from `cursor` on, with the cursor
/// after it; none where no heading is left.
pub open spec fn next_section(toks: Seq<Token>, cursor: int) -> Option<
    (Result<SectionModel, Fault>, int),
> {
    let h = find_mark(toks, cursor, toks.len() as int, Mark::HeadingStart);
    if cursor >= toks.len() || h >= toks.len() {
        None
    } else {
        let e = find_mark(toks, h + 1, toks.len() as int, Mark::HeadingStart);
        Some((parse_section(toks, h, e), e))
    }
}

/// The first grammar fault of the sections from `cursor` on, if any.
pub open spec fn faults_from(toks: Seq<Token>, cursor: int) -> Option<Fault>
    decreases toks.len() - cursor,
{
    match next_section(toks, cursor) {
        None => None,
        Some((Err(f), _)) => Some(f),
        Some((Ok(_), next)) => if cursor < next <= toks.len() {
            faults_from(toks, next)
        } else {
            None
        },
    }
}

/// Whether the error `e`, with its position resolved in `source`, stands
/// for the fault `f`.
pub open spec fn located(e: Error<Pos>, f: Fault, source: &str) -> bool {
    match (e, f) {
        (Error::ExpectedSpecParagraph { pattern, pos }, Fault::SpecParagraph(p, at)) => pattern@
            == p && (pos.line(), pos.column()) == pos_of(source.spec_bytes(), at),
        (Error::ExpectedCode { pos }, Fault::Code(at)) => (pos.line(), pos.column()) == pos_of(
            source.spec_bytes(),
            at,
        ),
        (Error::MissingWhen { pos }, Fault::NoWhen(at)) => (pos.line(), pos.column()) == pos_of(
            source.spec_bytes(),
            at,
        ),
        (Error::MissingThen { pos }, Fault::NoThen(at)) => (pos.line(), pos.column()) == pos_of(
            source.spec_bytes(),
            at,
        ),
        _ => false,
    }
}

/// Whether the executable section `s` holds what `m` describes.
pub open spec fn section_is(toks: Seq<Token>, s: Section, m: SectionModel) -> bool {
    match (s, m) {
        (Section::Background(b), SectionModel::Background(level, given)) => b.level == level
            && b.given@ == texts(toks, given),
        (Section::Example(x, slots), SectionModel::Example(level, name, when, outs)) => x.level
            == level && x.name@ == name && x.when@ == texts(toks, when) && x.then_@ == texts(
            toks,
            outs,
        ) && slots@ == slots_of(outs),
        (Section::Raw(r), SectionModel::Raw(level)) => r.level == level,
        _ => false,
    }
}

pub open spec fn result_is(
    toks: Seq<Token>,
    r: Result<Section, Error<usize>>,
    m: Result<SectionModel, Fault>,
) -> bool {
    match (r, m) {
        (Ok(s), Ok(sm)) => section_is(toks, s, sm),
        (Err(e), Err(f)) => error_is(e, f),
        _ => false,
    }
}

fn level_at(t: &Token) -> (r: Level)
    ensures
        r == level_of(*t),
{
    match &t.event {
        MdEvent::Start(MdTag::Heading(l)) => *l,
        _ => Level::H1,
    }
}

fn kind_at(toks: &Vec<Token>, h: usize, e: usize) -> (r: SectionKind)
    requires
        h < e <= toks@.len(),
    ensures
        r == kind_of(toks@, h as int, e as int),
{
    if e - h < 2 {
        return SectionKind::Raw;
    }
    match &toks[h + 1].event {
        MdEvent::Text(t) => if starts_with(t.as_str(), "Background") {
            SectionKind::Background
        } else if starts_with(t.as_str(), "Example:") {
            SectionKind::Example
        } else {
            SectionKind::Raw
        },
        _ => SectionKind::Raw,
    }
}

fn parse_at(toks: &Vec<Token>, h: usize, e: usize) -> (r: Result<Section, Error<usize>>)
    requires
        h < e <= toks@.len(),
    ensures
        result_is(toks@, r, parse_section(toks@, h as int, e as int)),
{
    let level = level_at(&toks[h]);
    let b = if e - h >= 3 {
        h + 3
    } else {
        e
    };
    let at = toks[h].start;
    match kind_at(toks, h, e) {
        SectionKind::Background => {
            let (given, _, _) = run_bind_loop(toks, b, e, Phrase::Given)?;
            if given.len() == 0 {
                return Err(Error::MissingWhen { pos: at });
            }
            Ok(Section::Background(Background { level, given }))
        },
        SectionKind::Example => {
            let (when, _, c) = run_bind_loop(toks, b, e, Phrase::When)?;
            proof {
                lemma_bind_loop_bounds(toks@, b as int, e as int, Phrase::When, Seq::empty());
            }
            let (outs, slots, _) = run_bind_loop(toks, c, e, Phrase::Then)?;
            if when.len() == 0 {
                return Err(Error::MissingWhen { pos: at });
            }
            if outs.len() == 0 {
                return Err(Error::MissingThen { pos: at });
            }
            let name = match &toks[h + 1].event {
                MdEvent::Text(t) => t.clone(),
                _ => String::new(),
            };
            Ok(Section::Example(Example { level, name, when, then_: outs }, slots))
        },
        SectionKind::Raw => Ok(Section::Raw(Raw { level })),
    }
}

pub proof fn lemma_bind_loop_bounds(
    toks: Seq<Token>,
    c: int,
    e: int,
    ph: Phrase,
    acc: Seq<(Seq<char>, int)>,
)
    requires
        c <= e,
    ensures
        bind_loop(toks, c, e, ph, acc) matches Ok((_, n)) ==> c <= n <= e,
    decreases e - c,
{
    if c < e {
        let c1 = find_mark(toks, c, e, Mark::ParagraphStart);
        lemma_find_mark(toks, c, e, Mark::ParagraphStart);
        if !(ph == Phrase::When && then_ahead(toks, c1, e)) {
            match step(toks, c1, e, ph, acc.len() == 0) {
                Step::Skip(n) => if c < n <= e {
                    lemma_bind_loop_bounds(toks, n, e, ph, acc);
                },
                Step::Bind(k, v, n) => if c < n <= e {
                    lemma_bind_loop_bounds(toks, n, e, ph, bind(acc, k, v));
                },
                Step::Fail(f) => {},
            }
        }
    }
}

/// Bindings whose keys are distinct and whose values sit in text tokens.
pub open spec fn sound_bindings(toks: Seq<Token>, acc: Seq<(Seq<char>, int)>) -> bool {
    &&& forall|i: int, j: int| 0 <= i < j < acc.len() ==> acc[i].0 != acc[j].0
    &&& forall|j: int|
        0 <= j < acc.len() ==> 0 <= #[trigger] acc[j].1 < toks.len() && toks[acc[j].1].event is Text
}

proof fn lemma_bind_sound(toks: Seq<Token>, acc: Seq<(Seq<char>, int)>, k: Seq<char>, v: int)
    requires
        sound_bindings(toks, acc),
        0 <= v < toks.len(),
        toks[v].event is Text,
    ensures
        sound_bindings(toks, bind(acc, k, v)),
{
    lemma_key_index(keys_of(acc), k);
    let i = key_index(keys_of(acc), k);
    let r = bind(acc, k, v);
    if i >= 0 {
        assert(keys_of(acc)[i] == acc[i].0);
        assert forall|a: int, b: int| 0 <= a < b < r.len() implies r[a].0 != r[b].0 by {
            assert(r[a].0 == acc[a].0);
            assert(r[b].0 == acc[b].0);
        }
    } else {
        assert forall|a: int, b: int| 0 <= a < b < r.len() implies r[a].0 != r[b].0 by {
            if b == acc.len() {
                assert(keys_of(acc)[a] == acc[a].0);
            }
        }
    }
}

pub proof fn lemma_bind_loop_sound(
    toks: Seq<Token>,
    c: int,
    e: int,
    ph: Phrase,
    acc: Seq<(Seq<char>, int)>,
)
    requires
        0 <= c <= e <= toks.len(),
        sound_bindings(toks, acc),
    ensures
        bind_loop(toks, c, e, ph, acc) matches Ok((res, _)) ==> sound_bindings(toks, res),
    decreases e - c,
{
    if c < e {
        let c1 = find_mark(toks, c, e, Mark::ParagraphStart);
        lemma_find_mark(toks, c, e, Mark::ParagraphStart);
        if !(ph == Phrase::When && then_ahead(toks, c1, e)) {
            if c1 < e {
                lemma_find_mark(toks, c1 + 1, e, Mark::ParagraphEnd);
            }
            match step(toks, c1, e, ph, acc.len() == 0) {
                Step::Skip(n) => if c < n <= e {
                    lemma_bind_loop_sound(toks, n, e, ph, acc);
                },
                Step::Bind(k, v, n) => if c < n <= e {
                    let pk = find_mark(toks, c1 + 1, e, Mark::ParagraphEnd);
                    let next = if pk < e {
                        pk + 1
                    } else {
                        e
                    };
                    assert(v == next + 1);
                    lemma_find_mark(toks, next + 1, e, Mark::CodeEnd);
                    lemma_bind_sound(toks, acc, k, v);
                    lemma_bind_loop_sound(toks, n, e, ph, bind(acc, k, v));
                },
                Step::Fail(f) => {},
            }
        }
    }
}

/// The recorded outputs of an example that the extractor finds sit in text
/// tokens of the document, under distinct keys.
pub proof fn lemma_example_outputs(toks: Seq<Token>, cursor: int)
    requires
        0 <= cursor,
        next_section(toks, cursor) matches Some((Ok(SectionModel::Example(_, _, _, _)), _)),
    ensures
        next_section(toks, cursor) matches Some(
            (Ok(SectionModel::Example(_, _, _, outs)), _),
        ) ==> sound_bindings(toks, outs),
{
    let h = find_mark(toks, cursor, toks.len() as int, Mark::HeadingStart);
    lemma_find_mark(toks, cursor, toks.len() as int, Mark::HeadingStart);
    let e = find_mark(toks, h + 1, toks.len() as int, Mark::HeadingStart);
    lemma_find_mark(toks, h + 1, toks.len() as int, Mark::HeadingStart);
    let b = body_start(h, e);
    lemma_bind_loop_bounds(toks, b, e, Phrase::When, Seq::empty());
    match bind_loop(toks, b, e, Phrase::When, Seq::empty()) {
        Ok((_, c)) => {
            lemma_bind_loop_sound(toks, c, e, Phrase::Then, Seq::empty());
        },
        Err(_) => {},
    }
}

/// A walk over the sections of a document, one at a time.
pub struct SectionsIter {
    cursor: usize,
}

impl SectionsIter {
    pub closed spec fn cursor(&self) -> int {
        self.cursor as int
    }

    /// A walk from the first token.
    pub fn new() -> (r: SectionsIter)
        ensures
            r.cursor() == 0,
    {
        SectionsIter { cursor: 0 }
    }

    /// The next section of `input`, or none where no heading is left.
    pub fn next(&mut self, input: &MdDocument) -> (r: Option<Result<Section, Error<usize>>>)
        ensures
            match next_section(input.tokens@, old(self).cursor()) {
                None => r is None && final(self).cursor() >= input.tokens@.len(),
                Some((m, next)) => match r {
                    Some(x) => result_is(input.tokens@, x, m) && final(self).cursor() == next,
                    None => false,
                },
            },
            r is Some ==> old(self).cursor() < final(self).cursor() <= input.tokens@.len(),
    {
        let toks = &input.tokens;
        let n = toks.len();
        if self.cursor >= n {
            return None;
        }
        let h = advance(toks, self.cursor, n, Mark::HeadingStart);
        if h >= n {
            self.cursor = n;
            return None;
        }
        let e = advance(toks, h + 1, n, Mark::HeadingStart);
        proof {
            lemma_find_mark(toks@, self.cursor as int, n as int, Mark::HeadingStart);
        }
        self.cursor = e;
        Some(parse_at(toks, h, e))
    }
}

/// Walks the sections of `input` from its first token.
pub fn sections(input: &MdDocument) -> (r: SectionsIter)
    ensures
        r.cursor() == 0,
{
    SectionsIter { cursor: 0 }
}

} // verus!


verus! {

/// A grammar error, with a position of type `P`.
#[derive(Debug, PartialEq, Eq)]
pub enum Error<P> {
    ExpectedSpecParagraph { pattern: String, pos: P },
    ExpectedCode { pos: P },
    MissingGiven { pos: P },
    MissingWhen { pos: P },
    MissingThen { pos: P },
}

/// The line and the start of that line, both counted in bytes, after the
/// first `k` bytes of `b`: lines are counted from 1, and a line starts after
/// each newline byte.
pub open spec fn scan(b: Seq<u8>, k: int) -> (int, int)
    decreases k,
{
    if k <= 0 {
        (1, 0)
    } else {
        let (line, start) = scan(b, k - 1);
        if b[k - 1] == 10u8 {
            (line + 1, k)
        } else {
            (line, start)
        }
    }
}

/// The line and column, from 1, of the byte at offset `o` of `b`.
pub open spec fn pos_of(b: Seq<u8>, o: int) -> (int, int) {
    let k = if o < b.len() {
        o
    } else {
        b.len() as int
    };
    let (line, start) = scan(b, k);
    (line, o - start + 1)
}

/// A position in a source text: a line and a column, both counted from 1.
#[derive(Debug, PartialEq, Eq, Structural)]
pub struct Pos {
    line: usize,
    column: usize,
}

impl Pos {
    pub fn new(line: usize, column: usize) -> (r: Pos)
        ensures
            r.line() == line,
            r.column() == column,
    {
        Pos { line, column }
    }

    pub closed spec fn line(&self) -> int {
        self.line as int
    }

    pub closed spec fn column(&self) -> int {
        self.column as int
    }

    /// The position of the byte at `offset` of `input`.
    pub fn from(offset: usize, input: &str) -> (r: Pos)
        requires
            offset < usize::MAX,
        ensures
            (r.line(), r.column()) == pos_of(input.spec_bytes(), offset as int),
    {
        let b = input.as_bytes();
        let k = if offset < b.len() {
            offset
        } else {
            b.len()
        };
        let mut line: usize = 1;
        let mut start: usize = 0;
        let mut i: usize = 0;
        while i < k
            invariant
                b@ == input.spec_bytes(),
                k <= b@.len(),
                k <= offset,
                offset < usize::MAX,
                i <= k,
                (line as int, start as int) == scan(b@, i as int),
                1 <= line <= i + 1,
                start <= i,
            decreases k - i,
        {
            if b[i] == 10u8 {
                line = line + 1;
                start = i + 1;
            }
            i = i + 1;
        }
        Pos { line, column: offset - start + 1 }
    }
}

/// The byte offset that an error points at.
pub open spec fn offset_of(e: Error<usize>) -> usize {
    match e {
        Error::ExpectedSpecParagraph { pos, .. } => pos,
        Error::ExpectedCode { pos } => pos,
        Error::MissingGiven { pos } => pos,
        Error::MissingWhen { pos } => pos,
        Error::MissingThen { pos } => pos,
    }
}

impl Error<usize> {
    /// The byte offset that the error points at.
    pub fn offset(&self) -> (r: usize)
        ensures
            r == offset_of(*self),
    {
        match self {
            Error::ExpectedSpecParagraph { pos, .. } => *pos,
            Error::ExpectedCode { pos } => *pos,
            Error::MissingGiven { pos } => *pos,
            Error::MissingWhen { pos } => *pos,
            Error::MissingThen { pos } => *pos,
        }
    }

    /// The same error, with its byte offset turned into a line and a column
    /// of `input`.
    pub fn map_span(self, input: &str) -> (r: Error<Pos>)
        requires
            offset_of(self) < usize::MAX,
        ensures
            match (self, r) {
                (
                    Error::ExpectedSpecParagraph { pattern: p0, pos: o },
                    Error::ExpectedSpecParagraph { pattern: p1, pos: at },
                ) => p1@ == p0@ && (at.line(), at.column()) == pos_of(input.spec_bytes(), o as int),
                (Error::ExpectedCode { pos: o }, Error::ExpectedCode { pos: at }) => (
                at.line(),
                at.column(),
                ) == pos_of(input.spec_bytes(), o as int),
                (Error::MissingGiven { pos: o }, Error::MissingGiven { pos: at }) => (
                at.line(),
                at.column(),
                ) == pos_of(input.spec_bytes(), o as int),
                (Error::MissingWhen { pos: o }, Error::MissingWhen { pos: at }) => (
                at.line(),
                at.column(),
                ) == pos_of(input.spec_bytes(), o as int),
                (Error::MissingThen { pos: o }, Error::MissingThen { pos: at }) => (
                at.line(),
                at.column(),
                ) == pos_of(input.spec_bytes(), o as int),
                _ => false,
            },
    {
        match self {
            Error::ExpectedSpecParagraph { pattern, pos } => Error::ExpectedSpecParagraph {
                pattern,
                pos: Pos::from(pos, input),
            },
            Error::ExpectedCode { pos } => Error::ExpectedCode { pos: Pos::from(pos, input) },
            Error::MissingGiven { pos } => Error::MissingGiven { pos: Pos::from(pos, input) },
            Error::MissingWhen { pos } => Error::MissingWhen { pos: Pos::from(pos, input) },
            Error::MissingThen { pos } => Error::MissingThen { pos: Pos::from(pos, input) },
        }
    }
}

impl Pos {
    /// The position as text: `line L, column C`.
    pub fn describe(&self) -> (r: String)
        ensures
            r@ == "line "@ + decimal_of(self.line() as nat) + ", column "@ + decimal_of(
                self.column() as nat,
            ),
    {
        let mut r = String::from_str("line ");
        r.append(decimal(self.line as u64).as_str());
        r.append(", column ");
        r.append(decimal(self.column as u64).as_str());
        r
    }
}

} // verus!

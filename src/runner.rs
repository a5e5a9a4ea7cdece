//! Running a handler over the sections of a specification document.
//!
//! Backgrounds are entered in document order and stay open until a section
//! that is neither a background nor an example comes at their level or
//! above. Each example is handed to the handler with a working copy of its
//! recorded outputs; the outputs are then either compared with the copy or
//! replaced by it.

use vstd::prelude::*;

use crate::event::{tokens_of, Level, MdEvent, Token};
use crate::md::writer::{self, plain_piece, plain_render};
use crate::md::MdDocument;
use crate::reader::{
    self,
    fault_offset,
    faults_from,
    lemma_example_outputs,
    located,
    next_section,
    slots_of,
    texts,
    value_text,
    SectionModel,
};
use crate::section::Section;
use crate::text::{ends_with, has_suffix};
use crate::section::{key_index, keys_of, lemma_key_index, Background, Bindings, Example};
use crate::text::str_eq;

verus! {

/// What a user supplies to evaluate sections.
pub trait Handler {
    type Error;

    /// Called when a background section opens.
    fn enter(&mut self, background: &Background) -> Result<(), Self::Error> {
        Ok(())
    }

    /// Called when a background section closes.
    fn leave(&mut self, background: &Background) -> Result<(), Self::Error> {
        Ok(())
    }

    /// Computes the outputs of an example into `example.then_`.
    fn example(&mut self, example: &mut Example) -> Result<(), Self::Error>;
}

/// Why a run over a document failed.
#[derive(Debug)]
pub enum Error<H> {
    SpecReader(reader::Error<reader::Pos>),
    MdWriter(writer::Error),
    Handler(H),
    /// A recorded output differs from the one that the handler computed.
    Failure { key: String, example: String, expected: String, actual: String },
    Unknown(String),
}

/// The backgrounds that are open, by level, in the order they opened.
pub struct Scopes {
    levels: Vec<Vec<Background>>,
}

/// The backgrounds that close when a section of level `l` comes: for each
/// level from `lv` down to `l`, the latest opened first.
pub open spec fn closing(levels: Seq<Seq<Background>>, lv: int, l: int) -> Seq<Background>
    decreases lv,
{
    if lv < l || lv < 1 {
        Seq::empty()
    } else {
        levels[lv - 1].reverse() + closing(levels, lv - 1, l)
    }
}

impl View for Scopes {
    type V = Seq<Seq<Background>>;

    closed spec fn view(&self) -> Seq<Seq<Background>> {
        self.levels@.map_values(|v: Vec<Background>| v@)
    }
}

impl Scopes {
    pub closed spec fn wf(&self) -> bool {
        self.levels@.len() == 6
    }

    pub fn new() -> (r: Scopes)
        ensures
            r.wf(),
            all_closed(r@),
            r@ == Seq::new(6, |i: int| Seq::<Background>::empty()),
    {
        let mut levels: Vec<Vec<Background>> = Vec::new();
        let mut i: usize = 0;
        while i < 6
            invariant
                i <= 6,
                levels@.len() == i,
                forall|j: int| 0 <= j < i ==> (#[trigger] levels@[j])@ == Seq::<Background>::empty(),
            decreases 6 - i,
        {
            levels.push(Vec::new());
            i = i + 1;
        }
        let r = Scopes { levels };
        assert(r@ =~= Seq::new(6, |i: int| Seq::<Background>::empty()));
        assert(all_closed(r@));
        r
    }

    /// Opens `background` at its level.
    pub fn open(&mut self, background: Background)
        requires
            old(self).wf(),
        ensures
            final(self).wf(),
            final(self)@ == old(self)@.update(
                background.level.spec_number() - 1,
                old(self)@[background.level.spec_number() - 1].push(background),
            ),
    {
        let i = background.level.number() - 1;
        let ghost b = background;
        self.levels[i].push(background);
        assert(self@ =~= old(self)@.update(i as int, old(self)@[i as int].push(b)));
    }

    /// Closes the backgrounds of `level` and deeper, and hands them out in
    /// the order in which they are to be left.
    pub fn close_from(&mut self, level: Level) -> (r: Vec<Background>)
        requires
            old(self).wf(),
        ensures
            final(self).wf(),
            r@ == closing(old(self)@, 6, level.spec_number() as int),
            all_closed(old(self)@) ==> r@.len() == 0 && all_closed(final(self)@),
            final(self)@ == after_close(old(self)@, level.spec_number() as int),
            forall|i: int|
                0 <= i < 6 ==> #[trigger] final(self)@[i] == if i + 1 >= level.spec_number() {
                    Seq::<Background>::empty()
                } else {
                    old(self)@[i]
                },
    {
        let l = level.number();
        proof {
            if all_closed(self@) {
                lemma_closing_empty(self@, 6, l as int);
            }
        }
        let mut out: Vec<Background> = Vec::new();
        let mut lv: usize = 6;
        let ghost s0 = self@;
        while lv >= l
            invariant
                1 <= l <= 6,
                l - 1 <= lv <= 6,
                self.wf(),
                out@ + closing(s0, lv as int, l as int) == closing(s0, 6, l as int),
                forall|i: int|
                    0 <= i < 6 ==> #[trigger] self@[i] == if i >= lv {
                        Seq::<Background>::empty()
                    } else {
                        s0[i]
                    },
            decreases lv,
        {
            let i = lv - 1;
            let ghost mid = out@;
            let ghost level_seq = s0[i as int];
            assert(self@[i as int] == level_seq);
            assert(level_seq.subrange(0, level_seq.len() as int) =~= level_seq);
            assert(out@ =~= mid + level_seq.reverse().subrange(0, 0));
            while self.levels[i].len() > 0
                invariant
                    self.wf(),
                    i == lv - 1,
                    lv <= 6,
                    self@[i as int].len() <= level_seq.len(),
                    self@[i as int] == level_seq.subrange(0, self@[i as int].len() as int),
                    out@ == mid + level_seq.reverse().subrange(
                        0,
                        level_seq.len() - self@[i as int].len(),
                    ),
                    forall|j: int| 0 <= j < 6 && j != i ==> #[trigger] self@[j] == old_at(s0, j, lv as int),
                decreases self@[i as int].len(),
            {
                let ghost k = self@[i as int].len();
                let ghost before = self@[i as int];
                let ghost all_before = self@;
                assert(forall|j: int|
                    0 <= j < 6 && j != i ==> all_before[j] == old_at(s0, j, lv as int));
                let b = self.levels[i].pop().unwrap();
                assert forall|j: int| 0 <= j < 6 && j != i implies #[trigger] self@[j] == old_at(
                    s0,
                    j,
                    lv as int,
                ) by {
                    assert(self@[j] == all_before[j]);
                    assert(all_before[j] == old_at(s0, j, lv as int));
                }
                assert(self@[i as int] == before.drop_last());
                assert(b == before.last());
                assert(before == level_seq.subrange(0, k as int));
                assert(before[k - 1] == level_seq[k - 1]);
                assert(level_seq.reverse()[level_seq.len() - k] == level_seq[k - 1]);
                out.push(b);
                assert(out@ =~= mid + level_seq.reverse().subrange(0, level_seq.len() - (k - 1)));
            }
            assert(level_seq.reverse().subrange(0, level_seq.len() as int) =~= level_seq.reverse());
            assert(out@ + closing(s0, lv - 1, l as int) =~= mid + closing(s0, lv as int, l as int));
            assert(self@[i as int] =~= Seq::<Background>::empty());
            lv = lv - 1;
        }
        assert(self@ =~= after_close(s0, l as int));
        out
    }
}

/// The open backgrounds once those of level `l` and deeper are closed.
pub open spec fn after_close(levels: Seq<Seq<Background>>, l: int) -> Seq<Seq<Background>> {
    Seq::new(
        levels.len(),
        |i: int|
            if i + 1 >= l {
                Seq::<Background>::empty()
            } else {
                levels[i]
            },
    )
}

proof fn lemma_closing_empty(levels: Seq<Seq<Background>>, lv: int, l: int)
    requires
        lv <= levels.len(),
        all_closed(levels),
    ensures
        closing(levels, lv, l).len() == 0,
    decreases lv,
{
    if !(lv < l || lv < 1) {
        assert(levels[lv - 1].len() == 0);
        lemma_closing_empty(levels, lv - 1, l);
    }
}

pub open spec fn old_at(s0: Seq<Seq<Background>>, j: int, lv: int) -> Seq<Background> {
    if j >= lv {
        Seq::empty()
    } else {
        s0[j]
    }
}


/// The value bound to `k`, if any.
pub open spec fn lookup(s: Seq<(Seq<char>, Seq<char>)>, k: Seq<char>) -> Option<Seq<char>> {
    let i = key_index(keys_of(s), k);
    if i >= 0 {
        Some(s[i].1)
    } else {
        None
    }
}

/// Whether `actual` binds the key of entry `i` of `expected` to its value.
pub open spec fn agrees(
    expected: Seq<(Seq<char>, Seq<char>)>,
    actual: Seq<(Seq<char>, Seq<char>)>,
    i: int,
) -> bool {
    lookup(actual, expected[i].0) == Some(expected[i].1)
}

/// The first entry of `expected`, from `from` on, on which `actual` does not
/// agree; the length of `expected` where it agrees on all.
pub open spec fn first_disagreement(
    expected: Seq<(Seq<char>, Seq<char>)>,
    actual: Seq<(Seq<char>, Seq<char>)>,
    from: int,
) -> int
    decreases expected.len() - from,
{
    if from >= expected.len() {
        expected.len() as int
    } else if !agrees(expected, actual, from) {
        from
    } else {
        first_disagreement(expected, actual, from + 1)
    }
}

/// What the comparison of recorded outputs with computed ones reports.
pub open spec fn check_is<H>(
    name: Seq<char>,
    expected: Seq<(Seq<char>, Seq<char>)>,
    actual: Seq<(Seq<char>, Seq<char>)>,
    r: Result<(), Error<H>>,
) -> bool {
    let i = first_disagreement(expected, actual, 0);
    if i >= expected.len() {
        r is Ok
    } else {
        match lookup(actual, expected[i].0) {
            None => r matches Err(Error::Unknown(_)),
            Some(a) => match r {
                Err(Error::Failure { key, example, expected: x, actual: y }) => key@
                    == expected[i].0 && example@ == name && x@ == expected[i].1 && y@ == a,
                _ => false,
            },
        }
    }
}

fn missing_output(key: &str, name: &str) -> (r: String) {
    let mut r = String::from_str("missing output `");
    r.append(key);
    r.append("` in ");
    r.append(name);
    r
}

/// Compares the recorded outputs of the example `name` with the ones that
/// a handler computed, in the order of the recorded ones. The first that
/// differs is a `Failure`; one that the handler dropped is `Unknown`.
pub fn check_then<H>(name: &str, expected: &Bindings, actual: &Bindings) -> (r: Result<
    (),
    Error<H>,
>)
    ensures
        check_is(name@, expected@, actual@, r),
{
    let mut i: usize = 0;
    while i < expected.len()
        invariant
            i <= expected@.len(),
            first_disagreement(expected@, actual@, 0) == first_disagreement(
                expected@,
                actual@,
                i as int,
            ),
        decreases expected@.len() - i,
    {
        let key = expected.key_at(i);
        let want = expected.value_at(i);
        proof {
            lemma_key_index(keys_of(actual@), key@);
        }
        match actual.get(key.as_str()) {
            None => {
                return Err(Error::Unknown(missing_output(key.as_str(), name)));
            },
            Some(got) => {
                if !str_eq(got.as_str(), want.as_str()) {
                    return Err(
                        Error::Failure {
                            key: key.clone(),
                            example: String::from_str(name),
                            expected: want.clone(),
                            actual: got.clone(),
                        },
                    );
                }
            },
        }
        i = i + 1;
    }
    Ok(())
}

/// The value that the last write among the first `n` slots puts into the
/// token at `t`, if any does.
pub open spec fn last_write(slots: Seq<usize>, vals: Seq<Seq<char>>, t: int, n: int) -> Option<
    Seq<char>,
>
    decreases n,
{
    if n <= 0 {
        None
    } else if slots[n - 1] == t {
        Some(vals[n - 1])
    } else {
        last_write(slots, vals, t, n - 1)
    }
}

/// Whether `after` is `before` with the token of each slot replaced by a
/// text token that holds the value written there last, in place.
pub open spec fn rewritten(
    before: Seq<Token>,
    after: Seq<Token>,
    slots: Seq<usize>,
    vals: Seq<Seq<char>>,
    n: int,
) -> bool {
    after.len() == before.len() && forall|t: int|
        0 <= t < before.len() ==> match #[trigger] last_write(slots, vals, t, n) {
            None => after[t] == before[t],
            Some(v) => after[t].start == before[t].start && after[t].end == before[t].end
                && after[t].event is Text && value_text(after[t]) == v,
        }
}

/// The computed value of each recorded output, in the order of the
/// recorded ones.
pub open spec fn outputs(
    expected: Seq<(Seq<char>, Seq<char>)>,
    actual: Seq<(Seq<char>, Seq<char>)>,
) -> Seq<Seq<char>> {
    Seq::new(expected.len(), |j: int| lookup(actual, expected[j].0).unwrap())
}

/// Whether each recorded output has a slot inside `toks` and a computed
/// value.
pub open spec fn can_write_back(
    toks: Seq<Token>,
    slots: Seq<usize>,
    expected: Seq<(Seq<char>, Seq<char>)>,
    actual: Seq<(Seq<char>, Seq<char>)>,
) -> bool {
    slots.len() == expected.len() && forall|j: int|
        0 <= j < slots.len() ==> #[trigger] slots[j] < toks.len() && lookup(
            actual,
            expected[j].0,
        ) is Some
}

/// Writes the computed outputs into the tokens that held the recorded ones:
/// slot `j` holds the token of entry `j` of `expected`.
pub fn write_back<H>(
    doc: &mut MdDocument,
    slots: &Vec<usize>,
    expected: &Bindings,
    actual: &Bindings,
) -> (r: Result<(), Error<H>>)
    ensures
        r is Ok <==> can_write_back(old(doc).tokens@, slots@, expected@, actual@),
        r is Ok ==> rewritten(
            old(doc).tokens@,
            final(doc).tokens@,
            slots@,
            outputs(expected@, actual@),
            slots@.len() as int,
        ),
        r is Err ==> final(doc).tokens@ == old(doc).tokens@,
        r matches Err(e) ==> e is Unknown,
{
    let ghost vals = outputs(expected@, actual@);
    let n = slots.len();
    if n != expected.len() {
        return Err(Error::Unknown(String::from_str("outputs and their tokens differ in number")));
    }
    let mut j: usize = 0;
    while j < n
        invariant
            n == slots@.len() == expected@.len(),
            j <= n,
            forall|k: int|
                0 <= k < j ==> #[trigger] slots@[k] < doc.tokens@.len() && lookup(
                    actual@,
                    expected@[k].0,
                ) is Some,
        decreases n - j,
    {
        if slots[j] >= doc.tokens.len() {
            return Err(Error::Unknown(String::from_str("an output token lies outside the document")));
        }
        let key = expected.key_at(j);
        if !actual.contains_key(key.as_str()) {
            return Err(Error::Unknown(missing_output(key.as_str(), "the example")));
        }
        j = j + 1;
    }
    let ghost before = doc.tokens@;
    j = 0;
    while j < n
        invariant
            n == slots@.len() == expected@.len(),
            j <= n,
            vals == outputs(expected@, actual@),
            can_write_back(before, slots@, expected@, actual@),
            rewritten(before, doc.tokens@, slots@, vals, j as int),
        decreases n - j,
    {
        let key = expected.key_at(j);
        let value = match actual.get(key.as_str()) {
            Some(v) => v.clone(),
            None => String::new(),
        };
        let idx = slots[j];
        let start = doc.tokens[idx].start;
        let end = doc.tokens[idx].end;
        let ghost cur = doc.tokens@;
        doc.tokens.set(idx, Token { event: MdEvent::Text(value), start, end });
        proof {
            assert(vals[j as int] == lookup(actual@, expected@[j as int].0).unwrap());
            assert forall|t: int| 0 <= t < before.len() implies match #[trigger] last_write(
                slots@,
                vals,
                t,
                j + 1,
            ) {
                None => doc.tokens@[t] == before[t],
                Some(v) => doc.tokens@[t].start == before[t].start && doc.tokens@[t].end
                    == before[t].end && doc.tokens@[t].event is Text && value_text(doc.tokens@[t])
                    == v,
            } by {
                // What the slots before `j` wrote into `t`.
                let prior = last_write(slots@, vals, t, j as int);
                if t != idx {
                    assert(doc.tokens@[t] == cur[t]);
                }
            }
        }
        j = j + 1;
    }
    Ok(())
}


/// Whether no section from `cursor` on, up to the first fault, calls a
/// handler: each is neither a background nor an example that runs.
pub open spec fn quiet_from(toks: Seq<Token>, cursor: int) -> bool
    decreases toks.len() - cursor,
{
    match next_section(toks, cursor) {
        None => true,
        Some((Err(_), _)) => true,
        Some((Ok(SectionModel::Background(_, _)), _)) => false,
        Some((Ok(SectionModel::Example(_, name, _, _)), next)) => has_suffix(name, "(ignored)"@)
            && (cursor < next <= toks.len() ==> quiet_from(toks, next)),
        Some((Ok(SectionModel::Raw(_)), next)) => cursor < next <= toks.len() ==> quiet_from(
            toks,
            next,
        ),
    }
}

/// Whether no background is open.
pub open spec fn all_closed(levels: Seq<Seq<Background>>) -> bool {
    forall|i: int| 0 <= i < levels.len() ==> #[trigger] levels[i].len() == 0
}

/// Whether an example of this name is left out of every run.
pub fn is_ignored(name: &str) -> (r: bool)
    ensures
        r == has_suffix(name@, "(ignored)"@),
{
    ends_with(name, "(ignored)")
}

/// The reader error `e` with its position resolved in `source`.
fn locate<H>(e: reader::Error<usize>, source: &str) -> (r: Error<H>)
    ensures
        r is SpecReader || r is Unknown,
        reader::offset_of(e) < usize::MAX ==> r is SpecReader,
        r matches Error::SpecReader(x) ==> forall|f: reader::Fault|
            reader::error_is(e, f) ==> located(x, f, source),
{
    if e.offset() == usize::MAX {
        return Error::Unknown(String::from_str("error position out of range"));
    }
    Error::SpecReader(e.map_span(source))
}

/// Leaves each of `closing`, in order.
fn leave_all<H: Handler>(handler: &mut H, closing: &Vec<Background>) -> (r: Result<
    (),
    Error<H::Error>,
>)
    ensures
        r matches Err(e) ==> e is Handler,
        closing@.len() == 0 ==> r is Ok,
{
    let mut i: usize = 0;
    while i < closing.len()
        invariant
            i <= closing@.len(),
        decreases closing@.len() - i,
    {
        if let Err(err) = handler.leave(&closing[i]) {
            return Err(Error::Handler(err));
        }
        i = i + 1;
    }
    Ok(())
}

/// A working copy of an example for a handler.
pub fn working_copy(example: &Example) -> (r: Example)
    ensures
        r.level == example.level,
        r.name@ == example.name@,
        r.when@ == example.when@,
        r.then_@ == example.then_@,
{
    Example {
        level: example.level,
        name: example.name.clone(),
        when: example.when.copy(),
        then_: example.then_.copy(),
    }
}

/// What a handler is to do next.
pub enum Action {
    /// Hand this background to `enter`; once that succeeds, report it with
    /// [`Driver::entered`].
    Enter(Background),
    /// Hand a working copy of this example to `example`; the recorded
    /// outputs sit in these tokens, in the order of `then_`.
    RunExample(Example, Vec<usize>),
    /// Hand each of these backgrounds, in order, to `leave`.
    Leave(Vec<Background>),
    /// An ignored example: nothing to do.
    Skip,
    /// No section is left.
    Done,
}

/// What the driver hands out for the section `m`, given the backgrounds
/// open before (`levels`) and after (`after`).
pub open spec fn action_is(
    toks: Seq<Token>,
    levels: Seq<Seq<Background>>,
    m: SectionModel,
    a: Action,
    after: Seq<Seq<Background>>,
) -> bool {
    match m {
        SectionModel::Background(_, _) => a matches Action::Enter(b) && reader::section_is(
            toks,
            Section::Background(b),
            m,
        ) && after == levels,
        SectionModel::Example(_, name, _, _) => after == levels && if has_suffix(
            name,
            "(ignored)"@,
        ) {
            a is Skip
        } else {
            a matches Action::RunExample(x, slots) && reader::section_is(
                toks,
                Section::Example(x, slots),
                m,
            )
        },
        SectionModel::Raw(l) => a matches Action::Leave(bs) && bs@ == closing(
            levels,
            6,
            l.spec_number() as int,
        ) && after == after_close(levels, l.spec_number() as int),
    }
}

/// The decisions of a run over a document, one section at a time, in
/// document order. Whoever calls the handler (directly, or awaiting it)
/// performs each action and reports entered backgrounds back.
pub struct Driver {
    iter: reader::SectionsIter,
    scopes: Scopes,
}

impl Driver {
    pub closed spec fn cursor(&self) -> int {
        self.iter.cursor()
    }

    /// The open backgrounds, by level.
    pub closed spec fn open_backgrounds(&self) -> Seq<Seq<Background>> {
        self.scopes@
    }

    pub closed spec fn wf(&self) -> bool {
        self.scopes.wf()
    }

    pub fn new() -> (r: Driver)
        ensures
            r.wf(),
            r.cursor() == 0,
            all_closed(r.open_backgrounds()),
    {
        Driver { iter: reader::SectionsIter::new(), scopes: Scopes::new() }
    }

    /// The action for the next section of `doc`, or its grammar error.
    pub fn next_action(&mut self, doc: &MdDocument) -> (r: Result<Action, reader::Error<usize>>)
        requires
            old(self).wf(),
        ensures
            final(self).wf(),
            match next_section(doc.tokens@, old(self).cursor()) {
                None => r matches Ok(Action::Done) && final(self).open_backgrounds() == old(
                    self,
                ).open_backgrounds() && final(self).cursor() >= doc.tokens@.len(),
                Some((Err(f), next)) => r matches Err(e) && reader::error_is(e, f)
                    && final(self).cursor() == next && final(self).open_backgrounds() == old(
                    self,
                ).open_backgrounds(),
                Some((Ok(m), next)) => final(self).cursor() == next && (r matches Ok(a)
                    && action_is(
                    doc.tokens@,
                    old(self).open_backgrounds(),
                    m,
                    a,
                    final(self).open_backgrounds(),
                )),
            },
            !(r matches Ok(Action::Done)) ==> old(self).cursor() < final(self).cursor()
                <= doc.tokens@.len(),
    {
        match self.iter.next(doc) {
            None => Ok(Action::Done),
            Some(Err(e)) => Err(e),
            Some(Ok(Section::Background(b))) => Ok(Action::Enter(b)),
            Some(Ok(Section::Example(x, slots))) => {
                if is_ignored(x.name.as_str()) {
                    Ok(Action::Skip)
                } else {
                    Ok(Action::RunExample(x, slots))
                }
            },
            Some(Ok(Section::Raw(raw))) => Ok(Action::Leave(self.scopes.close_from(raw.level))),
        }
    }

    /// Records that `background` was entered: it stays open until a section
    /// of its level or above closes it.
    pub fn entered(&mut self, background: Background)
        requires
            old(self).wf(),
        ensures
            final(self).wf(),
            final(self).cursor() == old(self).cursor(),
            final(self).open_backgrounds() == old(self).open_backgrounds().update(
                background.level.spec_number() - 1,
                old(self).open_backgrounds()[background.level.spec_number() - 1].push(background),
            ),
    {
        self.scopes.open(background);
    }
}

/// Runs `handler` over the sections of `source` and compares the recorded
/// outputs of each example with the ones that the handler computes.
///
/// The handler is called in document order, as [`Driver`] decides:
/// backgrounds are entered as they come and left, deepest and latest first,
/// when a section of their level or above that is neither a background nor
/// an example comes. Examples whose name ends in `(ignored)` are skipped.
/// The first error ends the run.
pub fn process<H: Handler>(source: &str, handler: &mut H) -> (r: Result<(), Error<H::Error>>)
    ensures
        r is Ok ==> faults_from(tokens_of(source@), 0) is None,
        r matches Err(Error::SpecReader(e)) ==> match faults_from(tokens_of(source@), 0) {
            Some(f) => located(e, f, source),
            None => false,
        },
        quiet_from(tokens_of(source@), 0) ==> (r is Ok <==> faults_from(tokens_of(source@), 0) is None),
        quiet_from(tokens_of(source@), 0) ==> match faults_from(tokens_of(source@), 0) {
            Some(f) => fault_offset(f) < usize::MAX ==> (r matches Err(Error::SpecReader(e))
                && located(e, f, source)),
            None => true,
        },
{
    let doc = MdDocument::from_string(source);
    let ghost toks = doc.tokens@;
    let mut driver = Driver::new();
    loop
        invariant
            toks == doc.tokens@,
            toks == tokens_of(source@),
            driver.wf(),
            0 <= driver.cursor(),
            faults_from(toks, 0) == faults_from(toks, driver.cursor()),
            quiet_from(toks, 0) ==> quiet_from(toks, driver.cursor()) && all_closed(
                driver.open_backgrounds(),
            ),
        decreases toks.len() - driver.cursor(),
    {
        let ghost levels = driver.open_backgrounds();
        let ghost cursor = driver.cursor();
        let action = match driver.next_action(&doc) {
            Err(e) => {
                return Err(locate(e, source));
            },
            Ok(action) => action,
        };
        proof {
            if let Some((Ok(SectionModel::Raw(l)), _)) = next_section(toks, cursor) {
                if all_closed(levels) {
                    lemma_closing_empty(levels, 6, l.spec_number() as int);
                    assert(all_closed(after_close(levels, l.spec_number() as int)));
                }
            }
        }
        match action {
            Action::Done => {
                return Ok(());
            },
            Action::Enter(background) => {
                if let Err(err) = handler.enter(&background) {
                    return Err(Error::Handler(err));
                }
                driver.entered(background);
            },
            Action::RunExample(example, _) => {
                let mut work = working_copy(&example);
                if let Err(err) = handler.example(&mut work) {
                    return Err(Error::Handler(err));
                }
                check_then(example.name.as_str(), &example.then_, &work.then_)?;
            },
            Action::Leave(closing) => {
                leave_all(handler, &closing)?;
            },
            Action::Skip => {},
        }
    }
}

/// Whether the token at `t` holds a recorded output of the example that
/// the extractor finds from `c` on, and that example is not ignored.
pub open spec fn run_output(toks: Seq<Token>, c: int, t: int) -> bool {
    match next_section(toks, c) {
        Some((Ok(SectionModel::Example(_, name, _, outs)), _)) => !has_suffix(name, "(ignored)"@)
            && exists|j: int| 0 <= j < outs.len() && outs[j].1 == t,
        _ => false,
    }
}

/// Whether `after` is `before` with only recorded outputs of examples that
/// are not ignored given other texts, in place.
pub open spec fn only_outputs_changed(before: Seq<Token>, after: Seq<Token>) -> bool {
    after.len() == before.len() && forall|t: int|
        0 <= t < before.len() ==> #[trigger] after[t] == before[t] || ((exists|c: int|
            0 <= c && #[trigger] run_output(before, c, t)) && before[t].event is Text
            && after[t].event is Text && after[t].start == before[t].start && after[t].end
            == before[t].end)
}

proof fn lemma_outputs_changed_step(
    toks: Seq<Token>,
    c: int,
    cur: Seq<Token>,
    after: Seq<Token>,
    slots: Seq<usize>,
    vals: Seq<Seq<char>>,
)
    requires
        0 <= c,
        only_outputs_changed(toks, cur),
        rewritten(cur, after, slots, vals, slots.len() as int),
        forall|j: int|
            0 <= j < slots.len() ==> #[trigger] slots[j] < toks.len() && toks[slots[j] as int].event is Text
                && run_output(toks, c, slots[j] as int),
    ensures
        only_outputs_changed(toks, after),
{
    assert forall|t: int| 0 <= t < toks.len() implies #[trigger] after[t] == toks[t] || ((exists|
        c2: int,
    | 0 <= c2 && #[trigger] run_output(toks, c2, t)) && toks[t].event is Text && after[t].event is Text
        && after[t].start == toks[t].start && after[t].end == toks[t].end) by {
        lemma_last_write_from(slots, vals, t, slots.len() as int);
        assert(cur[t] == cur[t]);
        match last_write(slots, vals, t, slots.len() as int) {
            None => {},
            Some(v) => {
                let j = choose|j: int| 0 <= j < slots.len() && slots[j] == t && vals[j] == v;
                assert(slots[j] < toks.len());
                assert(run_output(toks, c, t));
            },
        }
    }
}

/// Runs `handler` over the sections of `source` like [`process`], but writes
/// the outputs that the handler computes in place of the recorded ones, and
/// returns the document written back into text. Nothing is returned where
/// an error comes.
pub fn rewrite<H: Handler>(source: &str, handler: &mut H) -> (r: Result<String, Error<H::Error>>)
    ensures
        r is Ok ==> faults_from(tokens_of(source@), 0) is None,
        r matches Err(Error::SpecReader(e)) ==> match faults_from(tokens_of(source@), 0) {
            Some(f) => located(e, f, source),
            None => false,
        },
        quiet_from(tokens_of(source@), 0) ==> (r is Ok <==> (faults_from(tokens_of(source@), 0) is None
            && plain_render(tokens_of(source@)) is Ok)),
        quiet_from(tokens_of(source@), 0) ==> (r matches Ok(text) ==> plain_render(
            tokens_of(source@),
        ) == Ok::<Seq<char>, writer::Error>(text@)),
        quiet_from(tokens_of(source@), 0) ==> match faults_from(tokens_of(source@), 0) {
            Some(f) => fault_offset(f) < usize::MAX ==> (r matches Err(Error::SpecReader(e))
                && located(e, f, source)),
            None => true,
        },
        quiet_from(tokens_of(source@), 0) ==> match (
            faults_from(tokens_of(source@), 0),
            plain_render(tokens_of(source@)),
        ) {
            (None, Err(x)) => (r matches Err(Error::MdWriter(y)) && y == x),
            _ => true,
        },
        r matches Ok(text) ==> exists|after: Seq<Token>|
            only_outputs_changed(tokens_of(source@), after) && plain_render(after) == Ok::<
                Seq<char>,
                writer::Error,
            >(text@),
        r matches Err(Error::MdWriter(x)) ==> exists|after: Seq<Token>|
            only_outputs_changed(tokens_of(source@), after) && plain_render(after) == Err::<
                Seq<char>,
                writer::Error,
            >(x),
        !(r matches Err(Error::Failure { .. })),
{
    // The sections are read from `doc`, which stays as the source gave it;
    // the computed outputs go into `out`.
    let doc = MdDocument::from_string(source);
    let mut out = MdDocument::from_string(source);
    let ghost toks = doc.tokens@;
    assert(out.tokens@ == toks);
    let mut driver = Driver::new();
    loop
        invariant
            toks == doc.tokens@,
            toks == tokens_of(source@),
            toks.len() <= usize::MAX,
            only_outputs_changed(toks, out.tokens@),
            driver.wf(),
            0 <= driver.cursor(),
            faults_from(toks, 0) == faults_from(toks, driver.cursor()),
            quiet_from(toks, 0) ==> quiet_from(toks, driver.cursor()) && all_closed(
                driver.open_backgrounds(),
            ) && out.tokens@ == toks,
        ensures
            only_outputs_changed(toks, out.tokens@),
            faults_from(toks, 0) is None,
            quiet_from(toks, 0) ==> out.tokens@ == toks,
        decreases toks.len() - driver.cursor(),
    {
        let ghost levels = driver.open_backgrounds();
        let ghost cursor = driver.cursor();
        let action = match driver.next_action(&doc) {
            Err(e) => {
                return Err(locate(e, source));
            },
            Ok(action) => action,
        };
        proof {
            if let Some((Ok(SectionModel::Raw(l)), _)) = next_section(toks, cursor) {
                if all_closed(levels) {
                    lemma_closing_empty(levels, 6, l.spec_number() as int);
                    assert(all_closed(after_close(levels, l.spec_number() as int)));
                }
            }
        }
        match action {
            Action::Done => {
                break ;
            },
            Action::Enter(background) => {
                if let Err(err) = handler.enter(&background) {
                    return Err(Error::Handler(err));
                }
                driver.entered(background);
            },
            Action::RunExample(example, slots) => {
                proof {
                    lemma_example_outputs(toks, cursor);
                }
                let mut work = working_copy(&example);
                if let Err(err) = handler.example(&mut work) {
                    return Err(Error::Handler(err));
                }
                let ghost cur = out.tokens@;
                write_back(&mut out, &slots, &example.then_, &work.then_)?;
                proof {
                    if let Some((Ok(SectionModel::Example(_, _, _, outs)), _)) = next_section(
                        toks,
                        cursor,
                    ) {
                        assert forall|j: int| 0 <= j < slots@.len() implies #[trigger] slots@[j]
                            < toks.len() && toks[slots@[j] as int].event is Text && run_output(
                            toks,
                            cursor,
                            slots@[j] as int,
                        ) by {
                            assert(0 <= outs[j].1 < toks.len());
                            assert(slots@[j] as int == outs[j].1);
                        }
                        lemma_outputs_changed_step(
                            toks,
                            cursor,
                            cur,
                            out.tokens@,
                            slots@,
                            outputs(example.then_@, work.then_@),
                        );
                    }
                }
            },
            Action::Leave(closing) => {
                leave_all(handler, &closing)?;
            },
            Action::Skip => {},
        }
    }
    match out.render() {
        Ok(text) => Ok(text),
        Err(e) => Err(Error::MdWriter(e)),
    }
}

proof fn lemma_last_write_from(slots: Seq<usize>, vals: Seq<Seq<char>>, t: int, n: int)
    requires
        0 <= n <= slots.len(),
    ensures
        last_write(slots, vals, t, n) matches Some(v) ==> exists|j: int|
            0 <= j < n && slots[j] == t && vals[j] == v,
    decreases n,
{
    if n > 0 && slots[n - 1] != t {
        lemma_last_write_from(slots, vals, t, n - 1);
    }
}

proof fn lemma_render_same_pieces(a: Seq<Token>, b: Seq<Token>)
    requires
        a.len() == b.len(),
        forall|t: int, w: bool|
            0 <= t < a.len() ==> #[trigger] plain_piece(a[t].event, w) == plain_piece(
                b[t].event,
                w,
            ),
    ensures
        plain_render(a) == plain_render(b),
    decreases a.len(),
{
    if a.len() > 0 {
        lemma_render_same_pieces(a.drop_last(), b.drop_last());
        assert(a.last() == a[a.len() - 1]);
    }
}

/// Distinct keys: each key occurs once.
pub open spec fn distinct_keys(s: Seq<(Seq<char>, Seq<char>)>) -> bool {
    forall|i: int, j: int| 0 <= i < j < s.len() ==> s[i].0 != s[j].0
}

/// Rewriting with the values that the outputs already hold changes nothing:
/// when every slot holds the text token of its recorded output, the
/// document after the write-back renders exactly as before.
pub proof fn lemma_rewrite_unchanged(
    before: Seq<Token>,
    after: Seq<Token>,
    slots: Seq<usize>,
    expected: Seq<(Seq<char>, Seq<char>)>,
)
    requires
        slots.len() == expected.len(),
        distinct_keys(expected),
        forall|j: int|
            0 <= j < slots.len() ==> #[trigger] slots[j] < before.len() && before[slots[j] as int].event is Text
                && value_text(before[slots[j] as int]) == expected[j].1,
        rewritten(before, after, slots, outputs(expected, expected), slots.len() as int),
    ensures
        plain_render(after) == plain_render(before),
{
    let vals = outputs(expected, expected);
    assert forall|j: int| 0 <= j < expected.len() implies vals[j] == expected[j].1 by {
        lemma_key_index(keys_of(expected), expected[j].0);
        let i = key_index(keys_of(expected), expected[j].0);
        assert(keys_of(expected)[j] == expected[j].0);
        if i != j {
            assert(keys_of(expected)[i] == expected[i].0);
        }
    }
    assert forall|t: int, w: bool| 0 <= t < after.len() implies #[trigger] plain_piece(
        after[t].event,
        w,
    ) == plain_piece(before[t].event, w) by {
        lemma_last_write_from(slots, vals, t, slots.len() as int);
        match last_write(slots, vals, t, slots.len() as int) {
            None => {},
            Some(v) => {
                let j = choose|j: int| 0 <= j < slots.len() && slots[j] == t && vals[j] == v;
                assert(slots[j] < before.len());
            },
        }
    }
    lemma_render_same_pieces(after, before);
}


/// A rewrite with a handler that hands back the recorded outputs unchanged
/// leaves the document as it was: for the example that the extractor finds
/// at `cursor`, the tokens after the write-back render exactly as before.
pub proof fn lemma_idempotent_rewrite(toks: Seq<Token>, cursor: int, after: Seq<Token>)
    requires
        0 <= cursor,
        toks.len() <= usize::MAX,
        next_section(toks, cursor) matches Some((Ok(SectionModel::Example(_, _, _, outs)), _))
            && rewritten(
            toks,
            after,
            slots_of(outs),
            outputs(texts(toks, outs), texts(toks, outs)),
            outs.len() as int,
        ),
    ensures
        plain_render(after) == plain_render(toks),
{
    lemma_example_outputs(toks, cursor);
    if let Some((Ok(SectionModel::Example(_, _, _, outs)), _)) = next_section(toks, cursor) {
        let expected = texts(toks, outs);
        let slots = slots_of(outs);
        assert forall|j: int| 0 <= j < slots.len() implies #[trigger] slots[j] < toks.len()
            && toks[slots[j] as int].event is Text && value_text(toks[slots[j] as int])
            == expected[j].1 by {
            assert(0 <= outs[j].1 < toks.len());
        }
        assert forall|a: int, b: int| 0 <= a < b < expected.len() implies expected[a].0
            != expected[b].0 by {
            assert(expected[a].0 == outs[a].0);
            assert(expected[b].0 == outs[b].0);
        }
        lemma_rewrite_unchanged(toks, after, slots, expected);
    }
}


/// A whole rewrite run whose handler hands back every recorded output
/// unchanged returns the document's own rendering: `rewrite` returns the
/// rendering of tokens that differ from the source's only in output tokens,
/// and where each of those holds its old text the rendering is the same.
pub proof fn lemma_unchanged_run_renders_source(before: Seq<Token>, after: Seq<Token>)
    requires
        only_outputs_changed(before, after),
        forall|t: int| 0 <= t < before.len() ==> #[trigger] value_text(after[t]) == value_text(before[t]),
    ensures
        plain_render(after) == plain_render(before),
{
    assert forall|t: int, w: bool| 0 <= t < after.len() implies #[trigger] plain_piece(
        after[t].event,
        w,
    ) == plain_piece(before[t].event, w) by {
        assert(value_text(after[t]) == value_text(before[t]));
    }
    lemma_render_same_pieces(after, before);
}

} // verus!

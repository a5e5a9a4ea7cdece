//! A Markdown writer that keeps block quotes and lists, nested to any depth.
//!
//! The writer remembers the containers that are open. Each line that a soft
//! break starts inside them is prefixed so that it lines up under its
//! container: `> ` for a quote, two spaces for a bullet list, and for an
//! ordered list as many spaces as the number of its current item has
//! digits, then two more. Inline code keeps its backticks, fenced code its
//! fences and info string, and HTML passes through as it is.

use vstd::prelude::*;
use vstd::string::*;
use vstd::utf8::encode_utf8;

use crate::event::{tokenize, tokens_of, CodeKind, MdEvent, MdTag, MdTagEnd, Token};
use crate::md::writer::{heading, heading_marker};
use crate::text::{decimal, decimal_of};

pub use crate::md::writer::Error;

verus! {

/// A container that is open: a block quote, or a list with the counter of an
/// ordered list.
#[derive(Clone, Copy, Debug, PartialEq, Eq, Structural)]
pub enum Open {
    Quote,
    List(Option<u64>),
}

/// The state of a writer: what it wrote, whether it wrote anything since
/// the last separator, and the open containers, outermost first.
pub struct WriterView {
    pub out: Seq<char>,
    pub written: bool,
    pub open: Seq<Open>,
}

pub open spec fn spaces(k: nat) -> Seq<char> {
    Seq::new(k, |i: int| ' ')
}

/// The number of the current item of an ordered list whose counter (the
/// number of its next item) is `n`.
pub open spec fn printed(n: u64) -> nat {
    if n > 0 {
        (n - 1) as nat
    } else {
        0
    }
}

/// A blank line before a block, prefixed by the open containers, unless
/// nothing was written since the last separator.
pub open spec fn block_gap(s: WriterView) -> WriterView {
    if s.written {
        emit(emit(s, prefix_of(s.open)), "\n"@)
    } else {
        s
    }
}

/// The prefix of one open container on a continued line.
pub open spec fn open_prefix(o: Open) -> Seq<char> {
    match o {
        Open::Quote => "> "@,
        Open::List(None) => "  "@,
        Open::List(Some(n)) => spaces(decimal_of(printed(n)).len()) + "  "@,
    }
}

/// The prefix of all open containers, outermost first.
pub open spec fn prefix_of(open: Seq<Open>) -> Seq<char>
    decreases open.len(),
{
    if open.len() == 0 {
        Seq::empty()
    } else {
        prefix_of(open.drop_last()) + open_prefix(open.last())
    }
}

/// How many lists are open.
pub open spec fn list_depth(open: Seq<Open>) -> nat
    decreases open.len(),
{
    if open.len() == 0 {
        0
    } else {
        list_depth(open.drop_last()) + if open.last() is List {
            1nat
        } else {
            0nat
        }
    }
}

/// The index of the innermost open list, or -1.
pub open spec fn innermost_list(open: Seq<Open>) -> int
    decreases open.len(),
{
    if open.len() == 0 {
        -1
    } else if open.last() is List {
        open.len() - 1
    } else {
        innermost_list(open.drop_last())
    }
}

pub open spec fn emit(s: WriterView, text: Seq<char>) -> WriterView {
    WriterView { out: s.out + text, written: s.written || text.len() > 0, open: s.open }
}

/// A blank line that starts a new group of blocks.
pub open spec fn separate(s: WriterView) -> WriterView {
    WriterView { out: s.out + "\n"@, written: false, open: s.open }
}

pub open spec fn start_step(s: WriterView, t: MdTag) -> Result<WriterView, Error> {
    match t {
        MdTag::Paragraph => Ok(emit(block_gap(s), prefix_of(s.open))),
        MdTag::Heading(l) => {
            let s1 = if s.written {
                emit(s, "\n"@)
            } else {
                s
            };
            Ok(emit(s1, heading_marker(l)))
        },
        MdTag::BlockQuote => {
            let s1 = if s.written {
                separate(s)
            } else {
                s
            };
            Ok(WriterView { open: s1.open.push(Open::Quote), ..s1 })
        },
        MdTag::CodeBlock(CodeKind::Indented) => Err(
            Error::UnsupportedTag("CodeBlock(CodeBlockKind::Indented)"),
        ),
        MdTag::CodeBlock(CodeKind::Fenced(info)) => Ok(
            emit(emit(block_gap(s), prefix_of(s.open)), "```"@ + info@ + "\n"@),
        ),
        MdTag::HtmlBlock => Ok(block_gap(s)),
        MdTag::List(first) => {
            let s1 = if s.written && list_depth(s.open) == 0 {
                separate(s)
            } else {
                s
            };
            Ok(WriterView { open: s1.open.push(Open::List(first)), ..s1 })
        },
        MdTag::Item => {
            let depth = list_depth(s.open);
            let j = innermost_list(s.open);
            if j < 0 {
                Err(Error::Unknown)
            } else {
                let (open, label) = match s.open[j] {
                    Open::List(Some(n)) => (
                        s.open.update(j, Open::List(Some((n + 1) as u64))),
                        decimal_of(n as nat) + ". "@,
                    ),
                    _ => (s.open, "- "@),
                };
                if s.open[j] == Open::List(Some(u64::MAX)) {
                    Err(Error::Unknown)
                } else {
                    let s1 = WriterView { open, ..s };
                    let s2 = if depth > 1 {
                        emit(emit(s1, "\n"@), spaces(2 * (depth - 1) as nat))
                    } else {
                        s1
                    };
                    Ok(emit(s2, label))
                }
            }
        },
        MdTag::FootnoteDefinition => Err(Error::UnsupportedTag("FootnoteDefinition")),
        MdTag::Table => Err(Error::UnsupportedTag("Table")),
        MdTag::TableHead => Err(Error::UnsupportedTag("TableHead")),
        MdTag::TableRow => Err(Error::UnsupportedTag("TableRow")),
        MdTag::TableCell => Err(Error::UnsupportedTag("TableCell")),
        MdTag::Emphasis => Ok(emit(s, "_"@)),
        MdTag::Strong => Ok(emit(s, "**"@)),
        MdTag::Strikethrough => Ok(emit(s, "~"@)),
        MdTag::Link => Err(Error::UnsupportedTag("Link")),
        MdTag::Image => Err(Error::UnsupportedTag("Image")),
        MdTag::MetadataBlock => Err(Error::UnsupportedTag("MetadataBlock")),
    }
}

pub open spec fn end_step(s: WriterView, t: MdTagEnd) -> Result<WriterView, Error> {
    match t {
        MdTagEnd::Paragraph => Ok(emit(s, "\n"@)),
        MdTagEnd::Heading(_) => Ok(emit(s, "\n"@)),
        MdTagEnd::BlockQuote => if s.open.len() > 0 && s.open.last() == Open::Quote {
            Ok(WriterView { open: s.open.drop_last(), ..s })
        } else {
            Err(Error::Unknown)
        },
        MdTagEnd::CodeBlock => Ok(emit(s, "```\n"@)),
        MdTagEnd::HtmlBlock => Ok(s),
        MdTagEnd::List(_) => if s.open.len() > 0 && s.open.last() is List {
            Ok(WriterView { open: s.open.drop_last(), ..s })
        } else {
            Err(Error::Unknown)
        },
        MdTagEnd::Item => Ok(emit(s, "\n"@)),
        MdTagEnd::FootnoteDefinition => Err(Error::UnsupportedTag("FootnoteDefinition")),
        MdTagEnd::Table => Err(Error::UnsupportedTag("Table")),
        MdTagEnd::TableHead => Err(Error::UnsupportedTag("TableHead")),
        MdTagEnd::TableRow => Err(Error::UnsupportedTag("TableRow")),
        MdTagEnd::TableCell => Err(Error::UnsupportedTag("TableCell")),
        MdTagEnd::Emphasis => Ok(emit(s, "_"@)),
        MdTagEnd::Strong => Ok(emit(s, "**"@)),
        MdTagEnd::Strikethrough => Ok(emit(s, "~"@)),
        MdTagEnd::Link => Err(Error::UnsupportedTag("Link")),
        MdTagEnd::Image => Err(Error::UnsupportedTag("Image")),
        MdTagEnd::MetadataBlock => Err(Error::UnsupportedTag("MetadataBlock")),
    }
}

/// What writing one event does to the state of the writer.
pub open spec fn write_step(s: WriterView, e: MdEvent) -> Result<WriterView, Error> {
    match e {
        MdEvent::Start(t) => start_step(s, t),
        MdEvent::End(t) => end_step(s, t),
        MdEvent::Text(x) => Ok(emit(s, x@)),
        MdEvent::Code(x) => Ok(emit(s, "`"@ + x@ + "`"@)),
        MdEvent::InlineMath(_) => Err(Error::UnsupportedEvent("InlineMath")),
        MdEvent::DisplayMath(_) => Err(Error::UnsupportedEvent("DisplayMath")),
        MdEvent::Html(x) => Ok(emit(s, x@)),
        MdEvent::InlineHtml(x) => Ok(emit(s, x@)),
        MdEvent::FootnoteReference(_) => Err(Error::UnsupportedEvent("FootnoteReference")),
        MdEvent::SoftBreak => Ok(emit(emit(s, "\n"@), prefix_of(s.open))),
        MdEvent::HardBreak => Ok(emit(s, "\n\n"@)),
        MdEvent::Rule => Ok(emit(s, "---"@)),
        MdEvent::TaskListMarker(_) => Err(Error::UnsupportedEvent("TaskListMarker")),
    }
}

/// A writer of Markdown text that keeps nested containers.
pub struct MdWriter {
    out: String,
    written: bool,
    open: Vec<Open>,
}

impl View for MdWriter {
    type V = WriterView;

    closed spec fn view(&self) -> WriterView {
        WriterView { out: self.out@, written: self.written, open: self.open@ }
    }
}

/// The step result that a call returns: the state on success, the error
/// with the state unchanged on failure.
pub open spec fn stepped(
    before: WriterView,
    after: WriterView,
    r: Result<(), Error>,
    expected: Result<WriterView, Error>,
) -> bool {
    match expected {
        Ok(v) => r is Ok && after == v,
        Err(x) => r == Err::<(), Error>(x) && after == before,
    }
}

impl MdWriter {
    pub fn new() -> (r: MdWriter)
        ensures
            r@ == (WriterView { out: Seq::empty(), written: false, open: Seq::empty() }),
    {
        MdWriter { out: String::new(), written: false, open: Vec::new() }
    }

    /// The text written so far.
    pub fn into_string(self) -> (r: String)
        ensures
            r@ == self@.out,
    {
        self.out
    }

    /// The bytes written so far.
    pub fn into_write(self) -> (r: Vec<u8>)
        ensures
            r@ == encode_utf8(self@.out),
    {
        self.out.as_str().as_bytes_vec()
    }

    fn emit(&mut self, text: &str)
        ensures
            final(self)@ == emit(old(self)@, text@),
    {
        self.out.append(text);
        if !text.is_empty() {
            self.written = true;
        }
    }

    fn separate(&mut self)
        ensures
            final(self)@ == separate(old(self)@),
    {
        self.out.append("\n");
        self.written = false;
    }
}

pub proof fn lemma_emit_emit(s: WriterView, a: Seq<char>, b: Seq<char>)
    ensures
        emit(emit(s, a), b) == emit(s, a + b),
{
    assert((s.out + a) + b =~= s.out + (a + b));
}

fn spaces_text(k: usize) -> (r: String)
    ensures
        r@ == spaces(k as nat),
{
    proof {
        reveal_strlit(" ");
    }
    let mut r = String::new();
    let mut i: usize = 0;
    while i < k
        invariant
            i <= k,
            r@ == spaces(i as nat),
        decreases k - i,
    {
        r.append(" ");
        proof {
            reveal_strlit(" ");
        }
        i = i + 1;
        assert(r@ =~= spaces(i as nat));
    }
    assert(r@ =~= spaces(k as nat));
    r
}

impl MdWriter {
    /// Writes the prefix of the open containers.
    fn prefix(&mut self)
        ensures
            final(self)@ == emit(old(self)@, prefix_of(old(self)@.open)),
    {
        let ghost s0 = self@;
        let mut i: usize = 0;
        assert(s0.open.subrange(0, 0) =~= Seq::<Open>::empty());
        assert(self@ == emit(s0, Seq::empty())) by {
            assert(s0.out + Seq::<char>::empty() =~= s0.out);
        }
        while i < self.open.len()
            invariant
                i <= self.open@.len(),
                self.open@ == s0.open,
                self@ == emit(s0, prefix_of(s0.open.subrange(0, i as int))),
            decreases self.open@.len() - i,
        {
            let ghost before = self@;
            let o = self.open[i];
            match o {
                Open::Quote => {
                    self.emit("> ");
                },
                Open::List(None) => {
                    self.emit("  ");
                },
                Open::List(Some(n)) => {
                    let d = decimal(
                        if n > 0 {
                            n - 1
                        } else {
                            0
                        },
                    );
                    let k = d.as_str().unicode_len();
                    let sp = spaces_text(k);
                    self.emit(sp.as_str());
                    self.emit("  ");
                    proof {
                        lemma_emit_emit(before, sp@, "  "@);
                    }
                },
            }
            proof {
                let head = s0.open.subrange(0, i as int);
                let next = s0.open.subrange(0, i + 1);
                assert(next.drop_last() =~= head);
                assert(next.last() == o);
                lemma_emit_emit(s0, prefix_of(head), open_prefix(o));
            }
            i = i + 1;
        }
        assert(s0.open.subrange(0, i as int) =~= s0.open);
    }

    /// A blank line before a block, unless nothing was written since the
    /// last separator.
    fn block_gap(&mut self)
        ensures
            final(self)@ == block_gap(old(self)@),
    {
        if self.written {
            self.prefix();
            self.emit("\n");
        }
    }

    /// How many lists are open.
    fn list_depth(&self) -> (r: usize)
        ensures
            r == list_depth(self@.open),
    {
        let mut count: usize = 0;
        let mut i: usize = 0;
        assert(self.open@.subrange(0, 0) =~= Seq::<Open>::empty());
        while i < self.open.len()
            invariant
                i <= self.open@.len(),
                count <= i,
                count == list_depth(self.open@.subrange(0, i as int)),
            decreases self.open@.len() - i,
        {
            assert(self.open@.subrange(0, i + 1).drop_last() =~= self.open@.subrange(0, i as int));
            if let Open::List(_) = self.open[i] {
                count = count + 1;
            }
            i = i + 1;
        }
        assert(self.open@.subrange(0, i as int) =~= self.open@);
        count
    }

    /// The index of the innermost open list.
    fn innermost_list(&self) -> (r: Option<usize>)
        ensures
            match r {
                Some(j) => j == innermost_list(self@.open) && j < self@.open.len(),
                None => innermost_list(self@.open) < 0,
            },
    {
        let mut j = self.open.len();
        assert(self.open@.subrange(0, j as int) =~= self.open@);
        while j > 0
            invariant
                j <= self.open@.len(),
                innermost_list(self.open@) == innermost_list(self.open@.subrange(0, j as int)),
            decreases j,
        {
            let ghost head = self.open@.subrange(0, j as int);
            assert(head.drop_last() =~= self.open@.subrange(0, j - 1));
            assert(head.last() == self.open@[j - 1]);
            if let Open::List(_) = self.open[j - 1] {
                return Some(j - 1);
            }
            j = j - 1;
        }
        None
    }

    /// Writes the start of a container, a block or an inline span.
    pub fn start(&mut self, tag: MdTag) -> (r: Result<(), Error>)
        ensures
            stepped(old(self)@, final(self)@, r, start_step(old(self)@, tag)),
    {
        let ghost s0 = self@;
        match tag {
            MdTag::Paragraph => {
                self.block_gap();
                self.prefix();
            },
            MdTag::Heading(l) => {
                if self.written {
                    self.emit("\n");
                }
                self.emit(heading(l));
            },
            MdTag::BlockQuote => {
                if self.written {
                    self.separate();
                }
                self.open.push(Open::Quote);
            },
            MdTag::CodeBlock(CodeKind::Indented) => {
                return Err(Error::UnsupportedTag("CodeBlock(CodeBlockKind::Indented)"));
            },
            MdTag::CodeBlock(CodeKind::Fenced(info)) => {
                self.block_gap();
                self.prefix();
                let mut fence = String::from_str("```");
                fence.append(info.as_str());
                fence.append("\n");
                self.emit(fence.as_str());
            },
            MdTag::HtmlBlock => {
                self.block_gap();
            },
            MdTag::List(first) => {
                if self.written && self.list_depth() == 0 {
                    self.separate();
                }
                self.open.push(Open::List(first));
            },
            MdTag::Item => {
                let depth = self.list_depth();
                let j = match self.innermost_list() {
                    Some(j) => j,
                    None => {
                        return Err(Error::Unknown);
                    },
                };
                let label = match self.open[j] {
                    Open::List(Some(n)) => {
                        if n == u64::MAX {
                            return Err(Error::Unknown);
                        }
                        self.open.set(j, Open::List(Some(n + 1)));
                        let mut label = decimal(n);
                        label.append(". ");
                        label
                    },
                    _ => String::from_str("- "),
                };
                let ghost s1 = self@;
                if depth > 1 {
                    proof {
                        reveal_strlit("\n");
                    }
                    self.emit("\n");
                    let ghost s2 = self@;
                    let mut t: usize = 1;
                    assert(self@ == emit(s2, spaces(0))) by {
                        assert(s2.out + spaces(0) =~= s2.out);
                    }
                    while t < depth
                        invariant
                            1 <= t <= depth,
                            self@ == emit(s2, spaces(2 * (t - 1) as nat)),
                            s2.written,
                        decreases depth - t,
                    {
                        self.emit("  ");
                        proof {
                            reveal_strlit("  ");
                            lemma_emit_emit(s2, spaces(2 * (t - 1) as nat), "  "@);
                            assert(spaces(2 * (t - 1) as nat) + "  "@ =~= spaces(2 * t as nat));
                        }
                        t = t + 1;
                    }
                }
                self.emit(label.as_str());
            },
            MdTag::FootnoteDefinition => {
                return Err(Error::UnsupportedTag("FootnoteDefinition"));
            },
            MdTag::Table => {
                return Err(Error::UnsupportedTag("Table"));
            },
            MdTag::TableHead => {
                return Err(Error::UnsupportedTag("TableHead"));
            },
            MdTag::TableRow => {
                return Err(Error::UnsupportedTag("TableRow"));
            },
            MdTag::TableCell => {
                return Err(Error::UnsupportedTag("TableCell"));
            },
            MdTag::Emphasis => {
                self.emit("_");
            },
            MdTag::Strong => {
                self.emit("**");
            },
            MdTag::Strikethrough => {
                self.emit("~");
            },
            MdTag::Link => {
                return Err(Error::UnsupportedTag("Link"));
            },
            MdTag::Image => {
                return Err(Error::UnsupportedTag("Image"));
            },
            MdTag::MetadataBlock => {
                return Err(Error::UnsupportedTag("MetadataBlock"));
            },
        }
        Ok(())
    }

    /// Writes the end of a container, a block or an inline span.
    pub fn end(&mut self, tag: MdTagEnd) -> (r: Result<(), Error>)
        ensures
            stepped(old(self)@, final(self)@, r, end_step(old(self)@, tag)),
    {
        match tag {
            MdTagEnd::Paragraph => {
                self.emit("\n");
            },
            MdTagEnd::Heading(_) => {
                self.emit("\n");
            },
            MdTagEnd::BlockQuote => {
                let n = self.open.len();
                if n > 0 && self.open[n - 1] == Open::Quote {
                    self.open.pop();
                    assert(self.open@ =~= old(self)@.open.drop_last());
                } else {
                    return Err(Error::Unknown);
                }
            },
            MdTagEnd::CodeBlock => {
                self.emit("```\n");
            },
            MdTagEnd::HtmlBlock => {},
            MdTagEnd::List(_) => {
                let n = self.open.len();
                if n > 0 && self.open[n - 1] != Open::Quote {
                    self.open.pop();
                    assert(self.open@ =~= old(self)@.open.drop_last());
                } else {
                    return Err(Error::Unknown);
                }
            },
            MdTagEnd::Item => {
                self.emit("\n");
            },
            MdTagEnd::FootnoteDefinition => {
                return Err(Error::UnsupportedTag("FootnoteDefinition"));
            },
            MdTagEnd::Table => {
                return Err(Error::UnsupportedTag("Table"));
            },
            MdTagEnd::TableHead => {
                return Err(Error::UnsupportedTag("TableHead"));
            },
            MdTagEnd::TableRow => {
                return Err(Error::UnsupportedTag("TableRow"));
            },
            MdTagEnd::TableCell => {
                return Err(Error::UnsupportedTag("TableCell"));
            },
            MdTagEnd::Emphasis => {
                self.emit("_");
            },
            MdTagEnd::Strong => {
                self.emit("**");
            },
            MdTagEnd::Strikethrough => {
                self.emit("~");
            },
            MdTagEnd::Link => {
                return Err(Error::UnsupportedTag("Link"));
            },
            MdTagEnd::Image => {
                return Err(Error::UnsupportedTag("Image"));
            },
            MdTagEnd::MetadataBlock => {
                return Err(Error::UnsupportedTag("MetadataBlock"));
            },
        }
        Ok(())
    }

    /// Writes one event.
    pub fn write(&mut self, event: MdEvent) -> (r: Result<(), Error>)
        ensures
            stepped(old(self)@, final(self)@, r, write_step(old(self)@, event)),
    {
        match event {
            MdEvent::Start(tag) => self.start(tag),
            MdEvent::End(tag) => self.end(tag),
            MdEvent::Text(x) => {
                self.emit(x.as_str());
                Ok(())
            },
            MdEvent::Code(x) => {
                let mut code = String::from_str("`");
                code.append(x.as_str());
                code.append("`");
                self.emit(code.as_str());
                Ok(())
            },
            MdEvent::InlineMath(_) => Err(Error::UnsupportedEvent("InlineMath")),
            MdEvent::DisplayMath(_) => Err(Error::UnsupportedEvent("DisplayMath")),
            MdEvent::Html(x) => {
                self.emit(x.as_str());
                Ok(())
            },
            MdEvent::InlineHtml(x) => {
                self.emit(x.as_str());
                Ok(())
            },
            MdEvent::FootnoteReference(_) => Err(Error::UnsupportedEvent("FootnoteReference")),
            MdEvent::SoftBreak => {
                self.emit("\n");
                self.prefix();
                Ok(())
            },
            MdEvent::HardBreak => {
                self.emit("\n\n");
                Ok(())
            },
            MdEvent::Rule => {
                self.emit("---");
                Ok(())
            },
            MdEvent::TaskListMarker(_) => Err(Error::UnsupportedEvent("TaskListMarker")),
        }
    }
}

/// Tokenizes `input` as the writers expect it: strikethrough enabled.
pub fn md_reader(input: &str) -> (r: Vec<Token>)
    ensures
        r@ == tokens_of(input@),
{
    tokenize(input)
}

/// A writer with nothing written and no container open.
pub fn md_writer() -> (r: MdWriter)
    ensures
        r@ == (WriterView { out: Seq::empty(), written: false, open: Seq::empty() }),
{
    MdWriter::new()
}

} // verus!

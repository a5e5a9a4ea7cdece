//! Writing documents back into Markdown text.
//!
//! This writer serves documents whose sections were extracted: it supports
//! no block quotes and no lists. A block (paragraph, heading, fenced code,
//! HTML) is preceded by a blank line unless it comes first.

use vstd::prelude::*;
use vstd::string::*;

use crate::event::{CodeKind, Level, MdEvent, MdTag, MdTagEnd, Token};
use crate::md::MdDocument;

verus! {

/// Why a token sequence cannot be written.
#[derive(Debug, PartialEq, Eq)]
pub enum Error {
    /// An event that the writer does not support, by name.
    UnsupportedEvent(&'static str),
    /// A tag that the writer does not support, by name.
    UnsupportedTag(&'static str),
    /// A token sequence whose containers do not nest.
    Unknown,
}

/// The marker that opens a heading of level `l`.
pub open spec fn heading_marker(l: Level) -> Seq<char> {
    match l {
        Level::H1 => "# "@,
        Level::H2 => "## "@,
        Level::H3 => "### "@,
        Level::H4 => "#### "@,
        Level::H5 => "##### "@,
        Level::H6 => "###### "@,
    }
}

pub fn heading(l: Level) -> (r: &'static str)
    ensures
        r@ == heading_marker(l),
{
    match l {
        Level::H1 => "# ",
        Level::H2 => "## ",
        Level::H3 => "### ",
        Level::H4 => "#### ",
        Level::H5 => "##### ",
        Level::H6 => "###### ",
    }
}

/// A blank line before a block, unless nothing was written yet.
pub open spec fn separator(written: bool) -> Seq<char> {
    if written {
        "\n"@
    } else {
        Seq::empty()
    }
}

pub open spec fn plain_start(t: MdTag, written: bool) -> Result<Seq<char>, Error> {
    match t {
        MdTag::Paragraph => Ok(separator(written)),
        MdTag::Heading(l) => Ok(separator(written) + heading_marker(l)),
        MdTag::BlockQuote => Err(Error::UnsupportedTag("BlockQuote")),
        MdTag::CodeBlock(CodeKind::Indented) => Err(
            Error::UnsupportedTag("CodeBlock(CodeBlockKind::Indented)"),
        ),
        MdTag::CodeBlock(CodeKind::Fenced(info)) => Ok(
            separator(written) + "```"@ + info@ + "\n"@,
        ),
        MdTag::HtmlBlock => Ok(separator(written)),
        MdTag::List(_) => Err(Error::UnsupportedTag("List")),
        MdTag::Item => Err(Error::UnsupportedTag("Item")),
        MdTag::FootnoteDefinition => Err(Error::UnsupportedTag("FootnoteDefinition")),
        MdTag::Table => Err(Error::UnsupportedTag("Table")),
        MdTag::TableHead => Err(Error::UnsupportedTag("TableHead")),
        MdTag::TableRow => Err(Error::UnsupportedTag("TableRow")),
        MdTag::TableCell => Err(Error::UnsupportedTag("TableCell")),
        MdTag::Emphasis => Ok("_"@),
        MdTag::Strong => Ok("**"@),
        MdTag::Strikethrough => Ok("~"@),
        MdTag::Link => Err(Error::UnsupportedTag("Link")),
        MdTag::Image => Err(Error::UnsupportedTag("Image")),
        MdTag::MetadataBlock => Err(Error::UnsupportedTag("MetadataBlock")),
    }
}

pub open spec fn plain_end(t: MdTagEnd) -> Result<Seq<char>, Error> {
    match t {
        MdTagEnd::Paragraph => Ok("\n"@),
        MdTagEnd::Heading(_) => Ok("\n"@),
        MdTagEnd::BlockQuote => Err(Error::UnsupportedTag("BlockQuote")),
        MdTagEnd::CodeBlock => Ok("```\n"@),
        MdTagEnd::HtmlBlock => Ok(Seq::empty()),
        MdTagEnd::List(_) => Err(Error::UnsupportedTag("List")),
        MdTagEnd::Item => Err(Error::UnsupportedTag("Item")),
        MdTagEnd::FootnoteDefinition => Err(Error::UnsupportedTag("FootnoteDefinition")),
        MdTagEnd::Table => Err(Error::UnsupportedTag("Table")),
        MdTagEnd::TableHead => Err(Error::UnsupportedTag("TableHead")),
        MdTagEnd::TableRow => Err(Error::UnsupportedTag("TableRow")),
        MdTagEnd::TableCell => Err(Error::UnsupportedTag("TableCell")),
        MdTagEnd::Emphasis => Ok("_"@),
        MdTagEnd::Strong => Ok("**"@),
        MdTagEnd::Strikethrough => Ok("~"@),
        MdTagEnd::Link => Err(Error::UnsupportedTag("Link")),
        MdTagEnd::Image => Err(Error::UnsupportedTag("Image")),
        MdTagEnd::MetadataBlock => Err(Error::UnsupportedTag("MetadataBlock")),
    }
}

/// The text that one event adds, given whether anything was written before.
pub open spec fn plain_piece(e: MdEvent, written: bool) -> Result<Seq<char>, Error> {
    match e {
        MdEvent::Start(t) => plain_start(t, written),
        MdEvent::End(t) => plain_end(t),
        MdEvent::Text(s) => Ok(s@),
        MdEvent::Code(s) => Ok("`"@ + s@ + "`"@),
        MdEvent::InlineMath(_) => Err(Error::UnsupportedEvent("InlineMath")),
        MdEvent::DisplayMath(_) => Err(Error::UnsupportedEvent("DisplayMath")),
        MdEvent::Html(s) => Ok(s@),
        MdEvent::InlineHtml(s) => Ok(s@),
        MdEvent::FootnoteReference(_) => Err(Error::UnsupportedEvent("FootnoteReference")),
        MdEvent::SoftBreak => Ok("\n"@),
        MdEvent::HardBreak => Ok("\n\n"@),
        MdEvent::Rule => Ok("---"@),
        MdEvent::TaskListMarker(_) => Err(Error::UnsupportedEvent("TaskListMarker")),
    }
}

/// The text of a token sequence, or the error at its first unsupported
/// token.
pub open spec fn plain_render(toks: Seq<Token>) -> Result<Seq<char>, Error>
    decreases toks.len(),
{
    if toks.len() == 0 {
        Ok(Seq::empty())
    } else {
        match plain_render(toks.drop_last()) {
            Err(e) => Err(e),
            Ok(out) => match plain_piece(toks.last().event, out.len() > 0) {
                Err(e) => Err(e),
                Ok(p) => Ok(out + p),
            },
        }
    }
}

pub proof fn lemma_render_err(toks: Seq<Token>, i: int, e: Error)
    requires
        0 <= i <= toks.len(),
        plain_render(toks.subrange(0, i)) == Err::<Seq<char>, Error>(e),
    ensures
        plain_render(toks) == Err::<Seq<char>, Error>(e),
    decreases toks.len() - i,
{
    if i < toks.len() {
        assert(toks.subrange(0, i + 1).drop_last() =~= toks.subrange(0, i));
        lemma_render_err(toks, i + 1, e);
    } else {
        assert(toks.subrange(0, i) =~= toks);
    }
}

fn write_start(out: &mut String, t: &MdTag) -> (r: Result<(), Error>)
    ensures
        match plain_start(*t, old(out)@.len() > 0) {
            Ok(p) => r is Ok && final(out)@ == old(out)@ + p,
            Err(x) => r == Err::<(), Error>(x),
        },
{
    let written = !out.as_str().is_empty();
    let sep = if written {
        "\n"
    } else {
        ""
    };
    proof {
        reveal_strlit("");
    }
    assert(sep@ == separator(written));
    match t {
        MdTag::Paragraph => {
            out.append(sep);
        },
        MdTag::Heading(l) => {
            out.append(sep);
            out.append(heading(*l));
            assert(final(out)@ =~= old(out)@ + (separator(written) + heading_marker(*l)));
        },
        MdTag::BlockQuote => {
            return Err(Error::UnsupportedTag("BlockQuote"));
        },
        MdTag::CodeBlock(CodeKind::Indented) => {
            return Err(Error::UnsupportedTag("CodeBlock(CodeBlockKind::Indented)"));
        },
        MdTag::CodeBlock(CodeKind::Fenced(info)) => {
            out.append(sep);
            out.append("```");
            out.append(info.as_str());
            out.append("\n");
            assert(final(out)@ =~= old(out)@ + (separator(written) + "```"@ + info@ + "\n"@));
        },
        MdTag::HtmlBlock => {
            out.append(sep);
        },
        MdTag::List(_) => {
            return Err(Error::UnsupportedTag("List"));
        },
        MdTag::Item => {
            return Err(Error::UnsupportedTag("Item"));
        },
        MdTag::FootnoteDefinition => {
            return Err(Error::UnsupportedTag("FootnoteDefinition"));
        },
        MdTag::Table => {
            return Err(Error::UnsupportedTag("Table"));
        },
        MdTag::TableHead => {
            return Err(Error::UnsupportedTag("TableHead"));
        },
        MdTag::TableRow => {
            return Err(Error::UnsupportedTag("TableRow"));
        },
        MdTag::TableCell => {
            return Err(Error::UnsupportedTag("TableCell"));
        },
        MdTag::Emphasis => {
            out.append("_");
        },
        MdTag::Strong => {
            out.append("**");
        },
        MdTag::Strikethrough => {
            out.append("~");
        },
        MdTag::Link => {
            return Err(Error::UnsupportedTag("Link"));
        },
        MdTag::Image => {
            return Err(Error::UnsupportedTag("Image"));
        },
        MdTag::MetadataBlock => {
            return Err(Error::UnsupportedTag("MetadataBlock"));
        },
    }
    Ok(())
}

fn write_end(out: &mut String, t: &MdTagEnd) -> (r: Result<(), Error>)
    ensures
        match plain_end(*t) {
            Ok(p) => r is Ok && final(out)@ == old(out)@ + p,
            Err(x) => r == Err::<(), Error>(x),
        },
{
    let piece = match t {
        MdTagEnd::Paragraph => "\n",
        MdTagEnd::Heading(_) => "\n",
        MdTagEnd::BlockQuote => {
            return Err(Error::UnsupportedTag("BlockQuote"));
        },
        MdTagEnd::CodeBlock => "```\n",
        MdTagEnd::HtmlBlock => "",
        MdTagEnd::List(_) => {
            return Err(Error::UnsupportedTag("List"));
        },
        MdTagEnd::Item => {
            return Err(Error::UnsupportedTag("Item"));
        },
        MdTagEnd::FootnoteDefinition => {
            return Err(Error::UnsupportedTag("FootnoteDefinition"));
        },
        MdTagEnd::Table => {
            return Err(Error::UnsupportedTag("Table"));
        },
        MdTagEnd::TableHead => {
            return Err(Error::UnsupportedTag("TableHead"));
        },
        MdTagEnd::TableRow => {
            return Err(Error::UnsupportedTag("TableRow"));
        },
        MdTagEnd::TableCell => {
            return Err(Error::UnsupportedTag("TableCell"));
        },
        MdTagEnd::Emphasis => "_",
        MdTagEnd::Strong => "**",
        MdTagEnd::Strikethrough => "~",
        MdTagEnd::Link => {
            return Err(Error::UnsupportedTag("Link"));
        },
        MdTagEnd::Image => {
            return Err(Error::UnsupportedTag("Image"));
        },
        MdTagEnd::MetadataBlock => {
            return Err(Error::UnsupportedTag("MetadataBlock"));
        },
    };
    proof {
        reveal_strlit("");
    }
    out.append(piece);
    Ok(())
}

fn write_event(out: &mut String, e: &MdEvent) -> (r: Result<(), Error>)
    ensures
        match plain_piece(*e, old(out)@.len() > 0) {
            Ok(p) => r is Ok && final(out)@ == old(out)@ + p,
            Err(x) => r == Err::<(), Error>(x),
        },
{
    match e {
        MdEvent::Start(t) => {
            return write_start(out, t);
        },
        MdEvent::End(t) => {
            return write_end(out, t);
        },
        MdEvent::Text(s) => {
            out.append(s.as_str());
        },
        MdEvent::Code(s) => {
            out.append("`");
            out.append(s.as_str());
            out.append("`");
            assert(final(out)@ =~= old(out)@ + ("`"@ + s@ + "`"@));
        },
        MdEvent::InlineMath(_) => {
            return Err(Error::UnsupportedEvent("InlineMath"));
        },
        MdEvent::DisplayMath(_) => {
            return Err(Error::UnsupportedEvent("DisplayMath"));
        },
        MdEvent::Html(s) => {
            out.append(s.as_str());
        },
        MdEvent::InlineHtml(s) => {
            out.append(s.as_str());
        },
        MdEvent::FootnoteReference(_) => {
            return Err(Error::UnsupportedEvent("FootnoteReference"));
        },
        MdEvent::SoftBreak => {
            out.append("\n");
        },
        MdEvent::HardBreak => {
            out.append("\n\n");
        },
        MdEvent::Rule => {
            out.append("---");
        },
        MdEvent::TaskListMarker(_) => {
            return Err(Error::UnsupportedEvent("TaskListMarker"));
        },
    }
    Ok(())
}

impl MdDocument {
    /// Writes the document back into Markdown text.
    pub fn write_to_string(self) -> (r: Result<String, Error>)
        ensures
            match plain_render(self.tokens@) {
                Ok(s) => r matches Ok(t) && t@ == s,
                Err(x) => r == Err::<String, Error>(x),
            },
    {
        self.render()
    }

    /// The document as Markdown text; the document stays.
    pub fn render(&self) -> (r: Result<String, Error>)
        ensures
            match plain_render(self.tokens@) {
                Ok(s) => r matches Ok(t) && t@ == s,
                Err(x) => r == Err::<String, Error>(x),
            },
    {
        let toks = &self.tokens;
        let mut out = String::new();
        let mut i: usize = 0;
        assert(toks@.subrange(0, 0) =~= Seq::<Token>::empty());
        while i < toks.len()
            invariant
                toks@ == self.tokens@,
                i <= toks@.len(),
                plain_render(toks@.subrange(0, i as int)) == Ok::<Seq<char>, Error>(out@),
            decreases toks@.len() - i,
        {
            assert(toks@.subrange(0, i + 1).drop_last() =~= toks@.subrange(0, i as int));
            assert(toks@.subrange(0, i + 1).last() == toks@[i as int]);
            let ghost before = out@;
            match write_event(&mut out, &toks[i].event) {
                Ok(()) => {},
                Err(x) => {
                    proof {
                        assert(plain_piece(toks@[i as int].event, before.len() > 0) == Err::<
                            Seq<char>,
                            Error,
                        >(x));
                        assert(plain_render(toks@.subrange(0, i + 1)) == Err::<Seq<char>, Error>(
                            x,
                        ));
                        lemma_render_err(toks@, i + 1, x);
                    }
                    return Err(x);
                },
            }
            i = i + 1;
        }
        assert(toks@.subrange(0, i as int) =~= toks@);
        Ok(out)
    }
}

} // verus!

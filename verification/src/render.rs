//! From the steps through a document to Typst markup.
use vstd::prelude::*;

use crate::chars::{push_decimal, split_words};
use crate::escape::{quoted, text};
use crate::event::{Closing, ColumnAlign, Element, Step};
use crate::html::{push_closings, push_html, remote, Span};
use crate::table::{render_table, TableCell};
#[allow(unused_imports)]
use crate::table::Cell;
#[allow(unused_imports)]
use crate::{chars, escape, event, html, table};

verus! {

/// Math as it is written.
pub open spec fn math_source(display: bool, text: Seq<char>) -> Seq<char> {
    if display {
        "$$"@ + text + "$$"@
    } else {
        "$"@ + text + "$"@
    }
}

fn write_math(display: bool, text: &str) -> (source: String)
    ensures
        source@ == math_source(display, text@),
{
    let sign = if display {
        "$$"
    } else {
        "$"
    };
    let mut source = String::new();
    source.append(sign);
    source.append(text);
    source.append(sign);
    assert(source@ =~= math_source(display, text@));
    source
}

/// The text that a step holds, code and math included.
pub open spec fn plain_of(step: Step) -> Seq<char> {
    match step {
        Step::Text(value) => value@,
        Step::Code(value) => value@,
        Step::Math { display, text } => math_source(display, text@),
        _ => Seq::empty(),
    }
}

/// The text of the steps `from..to`, without markup.
pub open spec fn plain_between(steps: Seq<Step>, from: int, to: int) -> Seq<char>
    decreases to - from,
{
    if to <= from {
        Seq::empty()
    } else {
        plain_between(steps, from, to - 1) + plain_of(steps[to - 1])
    }
}

/// Collects the text of the steps `from..to`, without markup.
pub fn plain_text(steps: &Vec<Step>, from: usize, to: usize) -> (plain: String)
    requires
        from <= to <= steps@.len(),
    ensures
        plain@ == plain_between(steps@, from as int, to as int),
{
    let mut plain = String::new();
    let mut i: usize = from;
    while i < to
        invariant
            from <= i <= to <= steps@.len(),
            plain@ =~= plain_between(steps@, from as int, i as int),
        decreases to - i,
    {
        match &steps[i] {
            Step::Text(value) => plain.append(value.as_str()),
            Step::Code(value) => plain.append(value.as_str()),
            Step::Math { display, text } => plain.append(
                write_math(*display, text.as_str()).as_str(),
            ),
            _ => {},
        }
        i += 1;
    }
    plain
}

/// Markup that shows code.
pub open spec fn raw_markup(value: Seq<char>) -> Seq<char> {
    "#raw("@ + escape::quoted_text(value) + ")"@
}

/// The markup of a step that neither opens nor closes anything.
pub open spec fn leaf(step: Step) -> Seq<char> {
    match step {
        Step::Text(value) => escape::text_markup(value@),
        Step::Code(value) => raw_markup(value@),
        Step::Math { display, text } => escape::text_markup(math_source(display, text@)),
        Step::FootnoteReference(label) => escape::text_markup("["@ + label@ + "]"@),
        Step::SoftBreak => "#text(\" \")"@,
        Step::HardBreak => "#linebreak()"@,
        Step::Rule => "\n#line(length: 100%, stroke: 0.5pt)\n"@,
        Step::TaskListMarker(done) => if done {
            "#text(\"\u{2611} \")"@
        } else {
            "#text(\"\u{2610} \")"@
        },
        _ => Seq::empty(),
    }
}

fn push_leaf(out: &mut String, step: &Step)
    ensures
        final(out)@ == old(out)@ + leaf(*step),
{
    match step {
        Step::Text(value) => out.append(text(value.as_str()).as_str()),
        Step::Code(value) => {
            out.append("#raw(");
            out.append(quoted(value.as_str()).as_str());
            out.append(")");
        },
        Step::Math { display, text: source } => out.append(
            text(write_math(*display, source.as_str()).as_str()).as_str(),
        ),
        Step::FootnoteReference(label) => {
            let mut shown = String::new();
            shown.append("[");
            shown.append(label.as_str());
            shown.append("]");
            assert(shown@ =~= "["@ + label@ + "]"@);
            out.append(text(shown.as_str()).as_str());
        },
        Step::SoftBreak => out.append("#text(\" \")"),
        Step::HardBreak => out.append("#linebreak()"),
        Step::Rule => out.append("\n#line(length: 100%, stroke: 0.5pt)\n"),
        Step::TaskListMarker(done) => if *done {
            out.append("#text(\"\u{2611} \")")
        } else {
            out.append("#text(\"\u{2610} \")")
        },
        _ => {},
    }
    assert(out@ =~= old(out)@ + leaf(*step));
}

/// The text that a step adds to a code block, or to an HTML block.
pub open spec fn block_part(step: Step, block: Closing) -> Seq<char> {
    match step {
        Step::Text(value) => value@,
        Step::Code(value) => value@,
        Step::Html(value) if block == Closing::HtmlBlock => value@,
        _ => Seq::empty(),
    }
}

/// The text of the block that began before `pos`, and the position after its end.
pub open spec fn block_text(steps: Seq<Step>, pos: int, block: Closing) -> (Seq<char>, int)
    decreases steps.len() - pos,
{
    if pos >= steps.len() {
        (Seq::empty(), pos)
    } else if steps[pos] == Step::End(block) {
        (Seq::empty(), pos + 1)
    } else {
        let (rest, next) = block_text(steps, pos + 1, block);
        (block_part(steps[pos], block) + rest, next)
    }
}

/// The markup of a step in an HTML block that is shown as it is written.
pub open spec fn written_part(step: Step) -> Seq<char> {
    match step {
        Step::Html(value) => escape::text_markup(value@),
        other => leaf(other),
    }
}

/// The markup of the HTML block that began before `pos`, each of its lines shown as it is written.
pub open spec fn as_written(steps: Seq<Step>, pos: int) -> Seq<char>
    decreases steps.len() - pos,
{
    if pos >= steps.len() || steps[pos] == Step::End(Closing::HtmlBlock) {
        Seq::empty()
    } else {
        written_part(steps[pos]) + as_written(steps, pos + 1)
    }
}

/// The markup of the HTML block that began before `pos`, and the HTML elements that are open after
/// it. Where no tag of the block means anything, it is shown as it is written.
pub open spec fn html_block(steps: Seq<Step>, pos: int, open: Seq<Span>) -> (Seq<char>, Seq<Span>) {
    let source = block_text(steps, pos, Closing::HtmlBlock).0;
    if html::is_plain(source, 0, open) {
        (as_written(steps, pos), open)
    } else {
        html::html(source, open)
    }
}

/// The language of a code block: the first word of its info string.
pub open spec fn language(info: Option<String>) -> Seq<char> {
    match info {
        Some(line) if chars::words(line@).len() > 0 => chars::words(line@)[0],
        _ => Seq::empty(),
    }
}

/// The markup of a code block.
pub open spec fn code_markup(body: Seq<char>, language: Seq<char>) -> Seq<char> {
    "\n#raw("@ + escape::quoted_text(body) + ", block: true, lang: "@ + escape::quoted_text(
        language,
    ) + ")\n\n"@
}

/// The markup of list items, one after the other.
pub open spec fn items_markup(items: Seq<Seq<char>>) -> Seq<char>
    decreases items.len(),
{
    if items.len() == 0 {
        Seq::empty()
    } else {
        items_markup(items.drop_last()) + "["@ + items.last() + "], "@
    }
}

/// The markup of a list, given the number of the first item of an ordered one.
pub open spec fn list_markup(start: Option<u64>, items: Seq<Seq<char>>) -> Seq<char> {
    (match start {
        Some(number) => "\n#enum(start: "@ + chars::decimal(number as nat) + ", "@,
        None => "\n#list("@,
    }) + items_markup(items) + ")\n\n"@
}

/// The markup that a Typst function makes of its content.
pub open spec fn wrapped(function: Seq<char>, inner: Seq<char>) -> Seq<char> {
    "#"@ + function + "["@ + inner + "]"@
}

/// Whether what an element encloses runs within a line, given whether the element itself does.
pub open spec fn runs_in_line(element: Element, inline: bool) -> bool {
    match element {
        Element::BlockQuote => false,
        Element::FootnoteDefinition(_) => false,
        Element::Item => inline,
        Element::TableHead => inline,
        Element::TableRow => inline,
        Element::TableCell => inline,
        Element::DefinitionList => inline,
        Element::DefinitionListTitle => inline,
        Element::DefinitionListDefinition => inline,
        _ => true,
    }
}

/// The markup of an element, given the markup of what it encloses.
pub open spec fn enclosed(element: Element, inline: bool, inner: Seq<char>) -> Seq<char> {
    match element {
        Element::Paragraph => if inline {
            inner
        } else {
            inner + "\n\n"@
        },
        Element::Heading(level) => "\n#heading(level: "@ + chars::decimal(level as nat) + ")["@
            + inner + "]\n\n"@,
        Element::BlockQuote => "\n#quote(block: true)["@ + inner + "]\n\n"@,
        Element::Emphasis => wrapped("emph"@, inner),
        Element::Strong => wrapped("strong"@, inner),
        Element::Strikethrough => wrapped("strike"@, inner),
        Element::Superscript => wrapped("super"@, inner),
        Element::Subscript => wrapped("sub"@, inner),
        Element::Link(destination) => "#link("@ + escape::quoted_text(destination@) + ")["@ + inner
            + "]"@,
        Element::Image(source) => if html::is_remote(source@) {
            inner
        } else {
            "#image("@ + escape::quoted_text(source@) + ", width: 100%)"@
        },
        Element::FootnoteDefinition(label) => "\n#footnote["@ + inner + "] "@ + escape::text_markup(
            label@,
        ) + "\n"@,
        Element::MetadataBlock => Seq::empty(),
        _ => inner,
    }
}

/// The markup of the element that began before `pos`, and the position after its end.
pub open spec fn element(steps: Seq<Step>, pos: int, opened: Element, inline: bool) -> (
    Seq<char>,
    int,
)
    decreases steps.len() - pos, 2int,
{
    match opened {
        Element::CodeBlock(info) => {
            let (body, next) = block_text(steps, pos, Closing::CodeBlock);
            (code_markup(body, language(info)), next)
        },
        Element::List(start) => {
            let (found, next) = items(steps, pos);
            (list_markup(start, found), next)
        },
        Element::Table(aligns) => {
            let (header, rows, next) = table_parts(steps, pos, Seq::empty());
            (table::table_markup(aligns@, header, rows), next)
        },
        _ => {
            let (inner, next) = content(
                steps,
                pos,
                Some(event::end_of(opened)),
                runs_in_line(opened, inline),
                Seq::empty(),
            );
            (enclosed(opened, inline, inner), next)
        },
    }
}

/// The markup of the steps from `pos` up to the one that closes `end`, or up to the last, and the
/// position after it. `open` lists the HTML elements that are open at `pos`; those still open at
/// the end are closed there.
pub open spec fn content(
    steps: Seq<Step>,
    pos: int,
    end: Option<Closing>,
    inline: bool,
    open: Seq<Span>,
) -> (Seq<char>, int)
    decreases steps.len() - pos, 1int,
{
    if pos >= steps.len() {
        (html::closings(open), pos)
    } else {
        match steps[pos] {
            Step::End(closing) => if end == Some(closing) {
                (html::closings(open), pos + 1)
            } else {
                content(steps, pos + 1, end, inline, open)
            },
            Step::Start(Element::HtmlBlock) => {
                let next = block_text(steps, pos + 1, Closing::HtmlBlock).1;
                let (markup, now_open) = html_block(steps, pos + 1, open);
                let (rest, last) = content_after(steps, pos, next, end, inline, now_open);
                (markup + rest, last)
            },
            Step::Start(opened) => {
                let (markup, next) = element(steps, pos + 1, opened, inline);
                let (rest, last) = content_after(steps, pos, next, end, inline, open);
                (markup + rest, last)
            },
            Step::Html(source) => {
                let (markup, now_open) = html::html(source@, open);
                let (rest, last) = content(steps, pos + 1, end, inline, now_open);
                (markup + rest, last)
            },
            other => {
                let (rest, last) = content(steps, pos + 1, end, inline, open);
                (leaf(other) + rest, last)
            },
        }
    }
}

/// [`content`] from `next` on, where `next` lies after `pos`, as it does after every element.
pub open spec fn content_after(
    steps: Seq<Step>,
    pos: int,
    next: int,
    end: Option<Closing>,
    inline: bool,
    open: Seq<Span>,
) -> (Seq<char>, int)
    decreases steps.len() - pos, 0int,
{
    if pos < next <= steps.len() {
        content(steps, next, end, inline, open)
    } else {
        (html::closings(open), steps.len() as int)
    }
}

/// The markup of the items of the list that began before `pos`, and the position after its end.
pub open spec fn items(steps: Seq<Step>, pos: int) -> (Seq<Seq<char>>, int)
    decreases steps.len() - pos, 1int,
{
    if pos >= steps.len() {
        (Seq::empty(), pos)
    } else {
        match steps[pos] {
            Step::Start(Element::Item) => {
                let (markup, next) = content(
                    steps,
                    pos + 1,
                    Some(Closing::Item),
                    true,
                    Seq::empty(),
                );
                let (rest, last) = if pos < next <= steps.len() {
                    items(steps, next)
                } else {
                    (Seq::empty(), steps.len() as int)
                };
                (seq![markup] + rest, last)
            },
            Step::End(Closing::List) => (Seq::empty(), pos + 1),
            _ => items(steps, pos + 1),
        }
    }
}

/// The cells of the table row that began before `pos` and that `end` closes, and the position
/// after its end.
pub open spec fn cells(steps: Seq<Step>, pos: int, end: Closing) -> (Seq<Cell>, int)
    decreases steps.len() - pos, 1int,
{
    if pos >= steps.len() {
        (Seq::empty(), pos)
    } else {
        match steps[pos] {
            Step::Start(Element::TableCell) => {
                let (markup, next) = content(
                    steps,
                    pos + 1,
                    Some(Closing::TableCell),
                    true,
                    Seq::empty(),
                );
                let cell = Cell { markup, plain: plain_between(steps, pos + 1, next - 1) };
                let (rest, last) = if pos < next <= steps.len() {
                    cells(steps, next, end)
                } else {
                    (Seq::empty(), steps.len() as int)
                };
                (seq![cell] + rest, last)
            },
            Step::End(closing) if closing == end => (Seq::empty(), pos + 1),
            _ => cells(steps, pos + 1, end),
        }
    }
}

/// The header and the rows of the table that began before `pos`, and the position after its end;
/// `header` is the header seen so far.
pub open spec fn table_parts(steps: Seq<Step>, pos: int, header: Seq<Cell>) -> (
    Seq<Cell>,
    Seq<Seq<Cell>>,
    int,
)
    decreases steps.len() - pos, 1int,
{
    if pos >= steps.len() {
        (header, Seq::empty(), pos)
    } else {
        match steps[pos] {
            Step::Start(Element::TableHead) => {
                let (found, next) = cells(steps, pos + 1, Closing::TableHead);
                if pos < next <= steps.len() {
                    table_parts(steps, next, found)
                } else {
                    (found, Seq::empty(), steps.len() as int)
                }
            },
            Step::Start(Element::TableRow) => {
                let (row, next) = cells(steps, pos + 1, Closing::TableRow);
                let (head, rows, last) = if pos < next <= steps.len() {
                    table_parts(steps, next, header)
                } else {
                    (header, Seq::empty(), steps.len() as int)
                };
                (head, seq![row] + rows, last)
            },
            Step::End(Closing::Table) => (header, Seq::empty(), pos + 1),
            _ => table_parts(steps, pos + 1, header),
        }
    }
}

fn find_end(element: &Element) -> (end: Closing)
    ensures
        end == event::end_of(*element),
{
    match element {
        Element::Paragraph => Closing::Paragraph,
        Element::Heading(level) => Closing::Heading(*level),
        Element::BlockQuote => Closing::BlockQuote,
        Element::CodeBlock(_) => Closing::CodeBlock,
        Element::HtmlBlock => Closing::HtmlBlock,
        Element::List(_) => Closing::List,
        Element::Item => Closing::Item,
        Element::FootnoteDefinition(_) => Closing::FootnoteDefinition,
        Element::DefinitionList => Closing::DefinitionList,
        Element::DefinitionListTitle => Closing::DefinitionListTitle,
        Element::DefinitionListDefinition => Closing::DefinitionListDefinition,
        Element::Table(_) => Closing::Table,
        Element::TableHead => Closing::TableHead,
        Element::TableRow => Closing::TableRow,
        Element::TableCell => Closing::TableCell,
        Element::Emphasis => Closing::Emphasis,
        Element::Strong => Closing::Strong,
        Element::Strikethrough => Closing::Strikethrough,
        Element::Superscript => Closing::Superscript,
        Element::Subscript => Closing::Subscript,
        Element::Link(_) => Closing::Link,
        Element::Image(_) => Closing::Image,
        Element::MetadataBlock => Closing::MetadataBlock,
    }
}

fn in_line(element: &Element, inline: bool) -> (answer: bool)
    ensures
        answer == runs_in_line(*element, inline),
{
    match element {
        Element::BlockQuote | Element::FootnoteDefinition(_) => false,
        Element::Item
        | Element::TableHead
        | Element::TableRow
        | Element::TableCell
        | Element::DefinitionList
        | Element::DefinitionListTitle
        | Element::DefinitionListDefinition => inline,
        _ => true,
    }
}

fn wrap(function: &str, inner: &str) -> (markup: String)
    ensures
        markup@ == wrapped(function@, inner@),
{
    let mut markup = String::new();
    markup.append("#");
    markup.append(function);
    markup.append("[");
    markup.append(inner);
    markup.append("]");
    assert(markup@ =~= wrapped(function@, inner@));
    markup
}

fn enclose(element: &Element, inline: bool, inner: String) -> (markup: String)
    ensures
        markup@ == enclosed(*element, inline, inner@),
{
    let mut out = String::new();
    match element {
        Element::Paragraph => {
            out.append(inner.as_str());
            if !inline {
                out.append("\n\n");
            }
        },
        Element::Heading(level) => {
            out.append("\n#heading(level: ");
            push_decimal(&mut out, *level as u64);
            out.append(")[");
            out.append(inner.as_str());
            out.append("]\n\n");
        },
        Element::BlockQuote => {
            out.append("\n#quote(block: true)[");
            out.append(inner.as_str());
            out.append("]\n\n");
        },
        Element::Emphasis => return wrap("emph", inner.as_str()),
        Element::Strong => return wrap("strong", inner.as_str()),
        Element::Strikethrough => return wrap("strike", inner.as_str()),
        Element::Superscript => return wrap("super", inner.as_str()),
        Element::Subscript => return wrap("sub", inner.as_str()),
        Element::Link(destination) => {
            out.append("#link(");
            out.append(quoted(destination.as_str()).as_str());
            out.append(")[");
            out.append(inner.as_str());
            out.append("]");
        },
        Element::Image(source) => {
            if remote(source.as_str()) {
                return inner;
            }
            out.append("#image(");
            out.append(quoted(source.as_str()).as_str());
            out.append(", width: 100%)");
        },
        Element::FootnoteDefinition(label) => {
            out.append("\n#footnote[");
            out.append(inner.as_str());
            out.append("] ");
            out.append(text(label.as_str()).as_str());
            out.append("\n");
        },
        Element::MetadataBlock => {},
        _ => return inner,
    }
    assert(out@ =~= enclosed(*element, inline, inner@));
    out
}

/// Walks through the steps of a document and writes markup.
pub struct Renderer<'a> {
    steps: &'a Vec<Step>,
    pos: usize,
}

impl<'a> Renderer<'a> {
    /// The steps that are walked through.
    pub closed spec fn steps(&self) -> Seq<Step> {
        self.steps@
    }

    /// How many steps have been taken.
    pub closed spec fn pos(&self) -> int {
        self.pos as int
    }

    /// No more steps have been taken than there are.
    pub open spec fn wf(&self) -> bool {
        0 <= self.pos() <= self.steps().len()
    }

    /// Starts at the first step.
    pub fn new(steps: &'a Vec<Step>) -> (renderer: Self)
        ensures
            renderer.wf(),
            renderer.steps() == steps@,
            renderer.pos() == 0,
    {
        Renderer { steps, pos: 0 }
    }

    fn block(&mut self, block: Closing) -> (body: String)
        requires
            old(self).wf(),
        ensures
            final(self).wf(),
            final(self).steps@ == old(self).steps@,
            old(self).pos <= final(self).pos,
            (body@, final(self).pos as int) == block_text(old(self).steps@, old(self).pos as int, block),
    {
        let mut body = String::new();
        let ghost whole = block_text(self.steps@, self.pos as int, block);
        while self.pos < self.steps.len()
            invariant
                self.wf(),
                self.steps@ == old(self).steps@,
                old(self).pos <= self.pos,
                whole == block_text(old(self).steps@, old(self).pos as int, block),
                whole.0 =~= body@ + block_text(self.steps@, self.pos as int, block).0,
                whole.1 == block_text(self.steps@, self.pos as int, block).1,
            decreases self.steps@.len() - self.pos,
        {
            let step = &self.steps[self.pos];
            self.pos += 1;
            match step {
                Step::End(closing) => {
                    if *closing == block {
                        return body;
                    }
                },
                Step::Text(value) | Step::Code(value) => body.append(value.as_str()),
                Step::Html(value) => {
                    if block == Closing::HtmlBlock {
                        body.append(value.as_str());
                    }
                },
                _ => {},
            }
        }
        body
    }

    fn html_block(&mut self, out: &mut String, open: &mut Vec<Span>)
        requires
            old(self).wf(),
        ensures
            final(self).wf(),
            final(self).steps@ == old(self).steps@,
            old(self).pos <= final(self).pos,
            final(self).pos == block_text(
                old(self).steps@,
                old(self).pos as int,
                Closing::HtmlBlock,
            ).1,
            final(out)@ == old(out)@ + html_block(
                old(self).steps@,
                old(self).pos as int,
                old(open)@,
            ).0,
            final(open)@ == html_block(old(self).steps@, old(self).pos as int, old(open)@).1,
    {
        let start = self.pos;
        let source = self.block(Closing::HtmlBlock);
        let mut markup = String::new();
        if push_html(&mut markup, open, source.as_str()) {
            out.append(markup.as_str());
            assert(markup@ =~= html::html(source@, old(open)@).0);
        } else {
            proof {
                html::plain_html_is_shown_as_written(source@, old(open)@);
            }
            let mut at: usize = start;
            while at < self.steps.len()
                invariant_except_break
                    old(out)@ + as_written(self.steps@, start as int) =~= out@ + as_written(
                        self.steps@,
                        at as int,
                    ),
                ensures
                    out@ =~= old(out)@ + as_written(self.steps@, start as int),
                decreases self.steps@.len() - at,
            {
                let step = &self.steps[at];
                match step {
                    Step::End(Closing::HtmlBlock) => {
                        break;
                    },
                    Step::Html(line) => out.append(text(line.as_str()).as_str()),
                    other => push_leaf(out, other),
                }
                at += 1;
            }
        }
    }

    /// Writes the markup of the steps up to the one that closes `end`, or up to the last.
    pub fn render_until(&mut self, end: Option<Closing>, inline: bool) -> (out: String)
        requires
            old(self).wf(),
        ensures
            final(self).wf(),
            final(self).steps() == old(self).steps(),
            old(self).pos() <= final(self).pos(),
            (out@, final(self).pos()) == content(
                old(self).steps(),
                old(self).pos(),
                end,
                inline,
                Seq::empty(),
            ),
        decreases old(self).steps().len() - old(self).pos(), 1int,
    {
        let mut out = String::new();
        let mut open: Vec<Span> = Vec::new();
        let ghost whole = content(self.steps@, self.pos as int, end, inline, Seq::empty());
        while self.pos < self.steps.len()
            invariant
                self.wf(),
                self.steps@ == old(self).steps@,
                old(self).pos <= self.pos,
                whole == content(
                    old(self).steps@,
                    old(self).pos as int,
                    end,
                    inline,
                    Seq::empty(),
                ),
                whole.0 =~= out@ + content(self.steps@, self.pos as int, end, inline, open@).0,
                whole.1 == content(self.steps@, self.pos as int, end, inline, open@).1,
            decreases self.steps@.len() - self.pos,
        {
            let ghost at = self.pos as int;
            let step = &self.steps[self.pos];
            self.pos += 1;
            match step {
                Step::End(closing) => {
                    if let Some(wanted) = end {
                        if wanted == *closing {
                            push_closings(&mut out, &open);
                            return out;
                        }
                    }
                },
                Step::Start(Element::HtmlBlock) => {
                    self.html_block(&mut out, &mut open);
                    assert(content_after(self.steps@, at, self.pos as int, end, inline, open@)
                        == content(self.steps@, self.pos as int, end, inline, open@));
                },
                Step::Start(opened) => {
                    let markup = self.element(opened, inline);
                    out.append(markup.as_str());
                    assert(content_after(self.steps@, at, self.pos as int, end, inline, open@)
                        == content(self.steps@, self.pos as int, end, inline, open@));
                },
                Step::Html(source) => {
                    push_html(&mut out, &mut open, source.as_str());
                },
                other => push_leaf(&mut out, other),
            }
        }
        push_closings(&mut out, &open);
        out
    }

    fn element(&mut self, opened: &Element, inline: bool) -> (markup: String)
        requires
            old(self).wf(),
        ensures
            final(self).wf(),
            final(self).steps@ == old(self).steps@,
            old(self).pos <= final(self).pos,
            (markup@, final(self).pos as int) == element(
                old(self).steps@,
                old(self).pos as int,
                *opened,
                inline,
            ),
        decreases old(self).steps().len() - old(self).pos(), 2int,
    {
        match opened {
            Element::CodeBlock(info) => self.code_block(info),
            Element::List(start) => self.list(*start),
            Element::Table(aligns) => self.table(aligns),
            _ => {
                let inner = self.render_until(Some(find_end(opened)), in_line(opened, inline));
                enclose(opened, inline, inner)
            },
        }
    }

    fn code_block(&mut self, info: &Option<String>) -> (markup: String)
        requires
            old(self).wf(),
        ensures
            final(self).wf(),
            final(self).steps@ == old(self).steps@,
            old(self).pos <= final(self).pos,
            markup@ == code_markup(
                block_text(old(self).steps@, old(self).pos as int, Closing::CodeBlock).0,
                language(*info),
            ),
            final(self).pos == block_text(
                old(self).steps@,
                old(self).pos as int,
                Closing::CodeBlock,
            ).1,
    {
        let body = self.block(Closing::CodeBlock);
        let mut name = String::new();
        if let Some(line) = info {
            let list = split_words(line.as_str());
            assert(list@.len() == chars::words(line@).len());
            if list.len() > 0 {
                assert(chars::texts(list@)[0] == list@[0]@);
                name.append(list[0].as_str());
            }
        }
        assert(name@ =~= language(*info));
        let mut out = String::new();
        out.append("\n#raw(");
        out.append(quoted(body.as_str()).as_str());
        out.append(", block: true, lang: ");
        out.append(quoted(name.as_str()).as_str());
        out.append(")\n\n");
        assert(out@ =~= code_markup(body@, language(*info)));
        out
    }

    fn list(&mut self, start: Option<u64>) -> (markup: String)
        requires
            old(self).wf(),
        ensures
            final(self).wf(),
            final(self).steps@ == old(self).steps@,
            old(self).pos <= final(self).pos,
            markup@ == list_markup(start, items(old(self).steps@, old(self).pos as int).0),
            final(self).pos == items(old(self).steps@, old(self).pos as int).1,
        decreases old(self).steps().len() - old(self).pos(), 1int,
    {
        let mut out = String::new();
        match start {
            Some(number) => {
                out.append("\n#enum(start: ");
                push_decimal(&mut out, number);
                out.append(", ");
            },
            None => out.append("\n#list("),
        }
        let ghost head = out@;
        let ghost mut found: Seq<Seq<char>> = Seq::empty();
        let ghost whole = items(self.steps@, self.pos as int);
        while self.pos < self.steps.len()
            invariant_except_break
                whole.0 =~= found + items(self.steps@, self.pos as int).0,
                whole.1 == items(self.steps@, self.pos as int).1,
            invariant
                self.wf(),
                self.steps@ == old(self).steps@,
                old(self).pos <= self.pos,
                whole == items(old(self).steps@, old(self).pos as int),
                out@ =~= head + items_markup(found),
            ensures
                whole.0 =~= found,
                whole.1 == self.pos,
            decreases self.steps@.len() - self.pos,
        {
            let step = &self.steps[self.pos];
            self.pos += 1;
            match step {
                Step::Start(Element::Item) => {
                    let item = self.render_until(Some(Closing::Item), true);
                    out.append("[");
                    out.append(item.as_str());
                    out.append("], ");
                    proof {
                        assert(found.push(item@).drop_last() =~= found);
                        found = found.push(item@);
                    }
                },
                Step::End(Closing::List) => {
                    break;
                },
                _ => {},
            }
        }
        out.append(")\n\n");
        assert(out@ =~= list_markup(start, whole.0));
        out
    }

    fn table_cells(&mut self, end: Closing) -> (row: Vec<TableCell>)
        requires
            old(self).wf(),
        ensures
            final(self).wf(),
            final(self).steps@ == old(self).steps@,
            old(self).pos <= final(self).pos,
            (table::cells_view(row@), final(self).pos as int) == cells(
                old(self).steps@,
                old(self).pos as int,
                end,
            ),
        decreases old(self).steps().len() - old(self).pos(), 1int,
    {
        let mut row: Vec<TableCell> = Vec::new();
        let ghost whole = cells(self.steps@, self.pos as int, end);
        while self.pos < self.steps.len()
            invariant
                self.wf(),
                self.steps@ == old(self).steps@,
                old(self).pos <= self.pos,
                whole == cells(old(self).steps@, old(self).pos as int, end),
                whole.0 =~= table::cells_view(row@) + cells(self.steps@, self.pos as int, end).0,
                whole.1 == cells(self.steps@, self.pos as int, end).1,
            decreases self.steps@.len() - self.pos,
        {
            let step = &self.steps[self.pos];
            self.pos += 1;
            match step {
                Step::Start(Element::TableCell) => {
                    let start = self.pos;
                    let markup = self.render_until(Some(Closing::TableCell), true);
                    let to = if self.pos > start {
                        self.pos - 1
                    } else {
                        start
                    };
                    let plain = plain_text(self.steps, start, to);
                    let ghost before = table::cells_view(row@);
                    let cell = TableCell { markup, plain };
                    let ghost view = cell@;
                    row.push(cell);
                    assert(table::cells_view(row@) =~= before.push(view));
                },
                Step::End(closing) => {
                    if *closing == end {
                        return row;
                    }
                },
                _ => {},
            }
        }
        row
    }

    fn table(&mut self, aligns: &Vec<ColumnAlign>) -> (markup: String)
        requires
            old(self).wf(),
        ensures
            final(self).wf(),
            final(self).steps@ == old(self).steps@,
            old(self).pos <= final(self).pos,
            ({
                let (header, rows, next) = table_parts(
                    old(self).steps@,
                    old(self).pos as int,
                    Seq::empty(),
                );
                &&& markup@ == table::table_markup(aligns@, header, rows)
                &&& final(self).pos == next
            }),
        decreases old(self).steps().len() - old(self).pos(), 1int,
    {
        let mut header: Vec<TableCell> = Vec::new();
        let mut rows: Vec<Vec<TableCell>> = Vec::new();
        let ghost whole = table_parts(self.steps@, self.pos as int, Seq::empty());
        assert(table::cells_view(header@) =~= Seq::empty());
        while self.pos < self.steps.len()
            invariant_except_break
                ({
                    let (head, rest, last) = table_parts(
                        self.steps@,
                        self.pos as int,
                        table::cells_view(header@),
                    );
                    &&& whole.0 == head
                    &&& whole.1 =~= table::rows_view(rows@) + rest
                    &&& whole.2 == last
                }),
            invariant
                self.wf(),
                self.steps@ == old(self).steps@,
                old(self).pos <= self.pos,
                whole == table_parts(old(self).steps@, old(self).pos as int, Seq::empty()),
            ensures
                whole.0 == table::cells_view(header@),
                whole.1 =~= table::rows_view(rows@),
                whole.2 == self.pos,
            decreases self.steps@.len() - self.pos,
        {
            let step = &self.steps[self.pos];
            self.pos += 1;
            match step {
                Step::Start(Element::TableHead) => {
                    header = self.table_cells(Closing::TableHead);
                },
                Step::Start(Element::TableRow) => {
                    let row = self.table_cells(Closing::TableRow);
                    let ghost before = table::rows_view(rows@);
                    let ghost view = table::cells_view(row@);
                    rows.push(row);
                    assert(table::rows_view(rows@) =~= before.push(view));
                },
                Step::End(Closing::Table) => {
                    break;
                },
                _ => {},
            }
        }
        render_table(aligns, &header, &rows)
    }
}

proof fn lemma_block_text(steps: Seq<Step>, pos: int, block: Closing)
    requires
        0 <= pos <= steps.len(),
    ensures
        pos <= block_text(steps, pos, block).1 <= steps.len(),
    decreases steps.len() - pos,
{
    if pos < steps.len() && steps[pos] != Step::End(block) {
        lemma_block_text(steps, pos + 1, block);
    }
}

proof fn lemma_items(steps: Seq<Step>, pos: int)
    requires
        0 <= pos <= steps.len(),
    ensures
        pos <= items(steps, pos).1 <= steps.len(),
    decreases steps.len() - pos, 1int,
{
    if pos < steps.len() {
        rendering_moves_on(steps, pos + 1, Some(Closing::Item), true, Seq::empty());
        let next = content(steps, pos + 1, Some(Closing::Item), true, Seq::empty()).1;
        lemma_items(steps, next);
        lemma_items(steps, pos + 1);
    }
}

proof fn lemma_cells(steps: Seq<Step>, pos: int, end: Closing)
    requires
        0 <= pos <= steps.len(),
    ensures
        pos <= cells(steps, pos, end).1 <= steps.len(),
    decreases steps.len() - pos, 1int,
{
    if pos < steps.len() {
        rendering_moves_on(steps, pos + 1, Some(Closing::TableCell), true, Seq::empty());
        let next = content(steps, pos + 1, Some(Closing::TableCell), true, Seq::empty()).1;
        lemma_cells(steps, next, end);
        lemma_cells(steps, pos + 1, end);
    }
}

proof fn lemma_table_parts(steps: Seq<Step>, pos: int, header: Seq<Cell>)
    requires
        0 <= pos <= steps.len(),
    ensures
        pos <= table_parts(steps, pos, header).2 <= steps.len(),
    decreases steps.len() - pos, 1int,
{
    if pos < steps.len() {
        lemma_cells(steps, pos + 1, Closing::TableHead);
        lemma_cells(steps, pos + 1, Closing::TableRow);
        let (found, next) = cells(steps, pos + 1, Closing::TableHead);
        lemma_table_parts(steps, next, found);
        lemma_table_parts(steps, cells(steps, pos + 1, Closing::TableRow).1, header);
        lemma_table_parts(steps, pos + 1, header);
    }
}

proof fn lemma_element(steps: Seq<Step>, pos: int, opened: Element, inline: bool)
    requires
        0 <= pos <= steps.len(),
    ensures
        pos <= element(steps, pos, opened, inline).1 <= steps.len(),
    decreases steps.len() - pos, 2int,
{
    match opened {
        Element::CodeBlock(_) => lemma_block_text(steps, pos, Closing::CodeBlock),
        Element::List(_) => lemma_items(steps, pos),
        Element::Table(_) => lemma_table_parts(steps, pos, Seq::empty()),
        _ => rendering_moves_on(
            steps,
            pos,
            Some(event::end_of(opened)),
            runs_in_line(opened, inline),
            Seq::empty(),
        ),
    }
}

/// Rendering goes through the steps from front to back: what is rendered from a position on ends
/// there or behind it, and not beyond the last step.
pub proof fn rendering_moves_on(
    steps: Seq<Step>,
    pos: int,
    end: Option<Closing>,
    inline: bool,
    open: Seq<Span>,
)
    requires
        0 <= pos <= steps.len(),
    ensures
        pos <= content(steps, pos, end, inline, open).1 <= steps.len(),
    decreases steps.len() - pos, 1int,
{
    if pos < steps.len() {
        match steps[pos] {
            Step::Start(Element::HtmlBlock) => {
                lemma_block_text(steps, pos + 1, Closing::HtmlBlock);
                let next = block_text(steps, pos + 1, Closing::HtmlBlock).1;
                let now_open = html_block(steps, pos + 1, open).1;
                rendering_moves_on(steps, next, end, inline, now_open);
                assert(content_after(steps, pos, next, end, inline, now_open) == content(
                    steps,
                    next,
                    end,
                    inline,
                    now_open,
                ));
            },
            Step::Start(opened) => {
                lemma_element(steps, pos + 1, opened, inline);
                let next = element(steps, pos + 1, opened, inline).1;
                rendering_moves_on(steps, next, end, inline, open);
                assert(content_after(steps, pos, next, end, inline, open) == content(
                    steps,
                    next,
                    end,
                    inline,
                    open,
                ));
            },
            Step::Html(source) => rendering_moves_on(
                steps,
                pos + 1,
                end,
                inline,
                html::html(source@, open).1,
            ),
            _ => rendering_moves_on(steps, pos + 1, end, inline, open),
        }
    }
}

/// The text of one step is what it shows as text, code or math; all else has none.
pub proof fn steps_have_their_text(step: Step)
    ensures
        plain_between(seq![step], 0, 1) == match step {
            Step::Text(value) => value@,
            Step::Code(value) => value@,
            Step::Math { display, text } => if display {
                "$$"@ + text@ + "$$"@
            } else {
                "$"@ + text@ + "$"@
            },
            _ => Seq::<char>::empty(),
        },
{
    assert(plain_between(seq![step], 0, 0) =~= Seq::empty());
    assert(plain_between(seq![step], 0, 1) =~= plain_of(step));
}

proof fn lemma_plain_front(first: Seq<Step>, second: Seq<Step>, to: int)
    requires
        0 <= to <= first.len(),
    ensures
        plain_between(first + second, 0, to) == plain_between(first, 0, to),
    decreases to,
{
    if to > 0 {
        lemma_plain_front(first, second, to - 1);
        assert((first + second)[to - 1] == first[to - 1]);
    }
}

proof fn lemma_plain_joined(first: Seq<Step>, second: Seq<Step>, to: int)
    requires
        0 <= to <= second.len(),
    ensures
        plain_between(first + second, 0, first.len() + to) == plain_between(
            first,
            0,
            first.len() as int,
        ) + plain_between(second, 0, to),
    decreases to,
{
    if to > 0 {
        lemma_plain_joined(first, second, to - 1);
        assert((first + second)[first.len() + to - 1] == second[to - 1]);
        assert(plain_between(first + second, 0, first.len() + to) =~= plain_between(
            first,
            0,
            first.len() as int,
        ) + plain_between(second, 0, to));
    } else {
        lemma_plain_front(first, second, first.len() as int);
        assert(plain_between(first, 0, first.len() as int) + plain_between(second, 0, 0)
            =~= plain_between(first, 0, first.len() as int));
    }
}

/// The text of steps one after the other is their texts one after the other.
pub proof fn texts_follow_each_other(first: Seq<Step>, second: Seq<Step>)
    ensures
        plain_between(first + second, 0, (first + second).len() as int) == plain_between(
            first,
            0,
            first.len() as int,
        ) + plain_between(second, 0, second.len() as int),
{
    lemma_plain_joined(first, second, second.len() as int);
}

/// The text of some of the steps is that of these steps alone.
pub proof fn texts_stand_alone(steps: Seq<Step>, from: int, to: int)
    requires
        0 <= from <= to <= steps.len(),
    ensures
        plain_between(steps, from, to) == plain_between(steps.subrange(from, to), 0, to - from),
    decreases to - from,
{
    if from < to {
        let part = steps.subrange(from, to);
        texts_stand_alone(steps, from, to - 1);
        let less = steps.subrange(from, to - 1);
        lemma_plain_front(less, seq![steps[to - 1]], to - 1 - from);
        assert(less + seq![steps[to - 1]] =~= part);
    }
}

/// The language of a code block is the first word of its info string, and none where there is none.
pub proof fn languages_are_first_words(word: Seq<char>, rest: Seq<char>, info: Option<String>)
    requires
        word.len() > 0,
        forall|i: int| 0 <= i < word.len() ==> !chars::white_space(#[trigger] word[i]),
        rest.len() > 0 ==> chars::white_space(rest[0]),
    ensures
        info matches Some(line) ==> line@ == word + rest ==> language(info) == word,
        info is None ==> language(info) == Seq::<char>::empty(),
{
    if let Some(line) = info {
        if line@ == word + rest {
            chars::unbroken_text_is_one_word(word);
            if rest.len() > 0 {
                chars::white_space_parts_words(word, rest[0], rest.skip(1));
                assert(word.push(rest[0]) + rest.skip(1) =~= word + rest);
            } else {
                assert(word + rest =~= word);
            }
        }
    }
}

} // verus!

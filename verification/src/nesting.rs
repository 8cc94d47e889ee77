//! The parts of a document are rendered on their own: the markup of an element is that of what it
//! encloses, and the markup of two parts, one after the other, is that of the first and then that
//! of the second.
use vstd::prelude::*;

#[allow(unused_imports)]
use crate::event::{Closing, ColumnAlign, Element};
use crate::event::Step;
use crate::html::Span;
#[allow(unused_imports)]
use crate::table::Cell;
#[allow(unused_imports)]
use crate::{chars, escape, event, html, markdown, render, table};

verus! {

/// A stretch of steps that ends with a closing, by what may stand in it.
pub enum Stretch {
    /// What an element encloses.
    Content(Closing),
    /// The text of a code block or an HTML block, which encloses nothing.
    Block(Closing),
    /// A list, which encloses items.
    List,
    /// A table, which encloses rows.
    Table,
    /// A row of a table, which encloses cells.
    Row(Closing),
}

/// The closing that ends a stretch.
pub open spec fn wanted(stretch: Stretch) -> Closing {
    match stretch {
        Stretch::Content(end) => end,
        Stretch::Block(end) => end,
        Stretch::List => Closing::List,
        Stretch::Table => Closing::Table,
        Stretch::Row(end) => end,
    }
}

/// The stretch that an element opens in content.
pub open spec fn enclosed_by(element: Element) -> Stretch {
    match element {
        Element::CodeBlock(_) => Stretch::Block(Closing::CodeBlock),
        Element::HtmlBlock => Stretch::Block(Closing::HtmlBlock),
        Element::List(_) => Stretch::List,
        Element::Table(_) => Stretch::Table,
        _ => Stretch::Content(event::end_of(element)),
    }
}

/// The stretch that an element opens within another, if it is one that stands there.
pub open spec fn opened_in(stretch: Stretch, element: Element) -> Option<Stretch> {
    match stretch {
        Stretch::Content(_) => Some(enclosed_by(element)),
        Stretch::Block(_) => None,
        Stretch::List => match element {
            Element::Item => Some(Stretch::Content(Closing::Item)),
            _ => None,
        },
        Stretch::Table => match element {
            Element::TableHead => Some(Stretch::Row(Closing::TableHead)),
            Element::TableRow => Some(Stretch::Row(Closing::TableRow)),
            _ => None,
        },
        Stretch::Row(_) => match element {
            Element::TableCell => Some(Stretch::Content(Closing::TableCell)),
            _ => None,
        },
    }
}

/// Where the stretch that began before `pos` ends: at the first of its closings that is not inside
/// a stretch that opens in it. There is no such place if it does not end, or one that opens in it
/// does not.
pub open spec fn end_from(steps: Seq<Step>, pos: int, stretch: Stretch) -> Option<int>
    decreases steps.len() - pos,
{
    if pos < 0 || pos >= steps.len() {
        None
    } else {
        match steps[pos] {
            Step::End(closing) => if closing == wanted(stretch) {
                Some(pos)
            } else {
                end_from(steps, pos + 1, stretch)
            },
            Step::Start(element) => match opened_in(stretch, element) {
                Some(inner) => match end_from(steps, pos + 1, inner) {
                    Some(end) if pos < end < steps.len() => end_from(steps, end + 1, stretch),
                    _ => None,
                },
                None => end_from(steps, pos + 1, stretch),
            },
            _ => end_from(steps, pos + 1, stretch),
        }
    }
}

/// Whether two sequences of steps agree on `count` steps from the given positions on.
pub open spec fn agree(a: Seq<Step>, i: int, b: Seq<Step>, j: int, count: int) -> bool {
    &&& 0 <= i && i + count <= a.len()
    &&& 0 <= j && j + count <= b.len()
    &&& forall|k: int| 0 <= k < count ==> #[trigger] a[i + k] == b[j + k]
}

proof fn lemma_end(steps: Seq<Step>, pos: int, stretch: Stretch)
    ensures
        end_from(steps, pos, stretch) matches Some(end) ==> pos <= end < steps.len() && 0 <= pos
            && steps[end] == Step::End(wanted(stretch)),
    decreases steps.len() - pos,
{
    if 0 <= pos < steps.len() {
        match steps[pos] {
            Step::End(closing) => {
                if closing != wanted(stretch) {
                    lemma_end(steps, pos + 1, stretch);
                }
            },
            Step::Start(element) => {
                if let Some(inner) = opened_in(stretch, element) {
                    lemma_end(steps, pos + 1, inner);
                    if let Some(end) = end_from(steps, pos + 1, inner) {
                        if pos < end < steps.len() {
                            lemma_end(steps, end + 1, stretch);
                        }
                    }
                } else {
                    lemma_end(steps, pos + 1, stretch);
                }
            },
            _ => lemma_end(steps, pos + 1, stretch),
        }
    }
}

/// Steps that agree further on.
proof fn lemma_agree(a: Seq<Step>, i: int, b: Seq<Step>, j: int, count: int, skip: int)
    requires
        agree(a, i, b, j, count),
        0 <= skip <= count,
    ensures
        agree(a, i + skip, b, j + skip, count - skip),
        skip < count ==> a[i + skip] == b[j + skip],
{
    assert forall|k: int| 0 <= k < count - skip implies #[trigger] a[i + skip + k] == b[j + skip
        + k] by {
        assert(a[i + (skip + k)] == b[j + (skip + k)]);
    }
    if skip < count {
        assert(a[i + skip] == b[j + skip]);
    }
}

/// Steps that agree over fewer steps.
proof fn lemma_part(a: Seq<Step>, i: int, b: Seq<Step>, j: int, count: int, part: int)
    requires
        agree(a, i, b, j, count),
        0 <= part <= count,
    ensures
        agree(a, i, b, j, part),
{
}

proof fn lemma_same_plain(a: Seq<Step>, i: int, b: Seq<Step>, j: int, count: int)
    requires
        agree(a, i, b, j, count),
        0 <= count,
    ensures
        render::plain_between(a, i, i + count) == render::plain_between(b, j, j + count),
    decreases count,
{
    if count > 0 {
        lemma_part(a, i, b, j, count, count - 1);
        lemma_same_plain(a, i, b, j, count - 1);
        lemma_agree(a, i, b, j, count, count - 1);
    }
}

/// Whether a stretch ends in one sequence of steps, and another agrees with it up to that end.
pub open spec fn same_stretch(a: Seq<Step>, i: int, b: Seq<Step>, j: int, stretch: Stretch) -> bool {
    &&& end_from(a, i, stretch) is Some
    &&& agree(a, i, b, j, end_from(a, i, stretch)->0 - i + 1)
}

/// The number of steps of a stretch, its closing included.
pub open spec fn length(steps: Seq<Step>, pos: int, stretch: Stretch) -> int {
    end_from(steps, pos, stretch)->0 - pos + 1
}

/// A step that opens nothing in a stretch and does not end it leaves the rest of the stretch.
proof fn lemma_skip(a: Seq<Step>, i: int, b: Seq<Step>, j: int, stretch: Stretch)
    requires
        same_stretch(a, i, b, j, stretch),
        a[i] != Step::End(wanted(stretch)),
        a[i] is Start ==> opened_in(stretch, a[i]->Start_0) is None,
    ensures
        a[i] == b[j],
        same_stretch(a, i + 1, b, j + 1, stretch),
        length(a, i, stretch) == length(a, i + 1, stretch) + 1,
        0 <= i < a.len(),
        0 <= j < b.len(),
{
    lemma_end(a, i, stretch);
    lemma_end(a, i + 1, stretch);
    lemma_agree(a, i, b, j, length(a, i, stretch), 0);
    lemma_agree(a, i, b, j, length(a, i, stretch), 1);
}

/// A step that opens a stretch within another is followed by it and the rest of the other.
proof fn lemma_open(
    a: Seq<Step>,
    i: int,
    b: Seq<Step>,
    j: int,
    stretch: Stretch,
    inner: Stretch,
)
    requires
        same_stretch(a, i, b, j, stretch),
        a[i] is Start,
        opened_in(stretch, a[i]->Start_0) == Some(inner),
    ensures
        a[i] == b[j],
        same_stretch(a, i + 1, b, j + 1, inner),
        0 <= i < i + 1 + length(a, i + 1, inner) <= a.len(),
        0 <= j < j + 1 + length(a, i + 1, inner) <= b.len(),
        same_stretch(
            a,
            i + 1 + length(a, i + 1, inner),
            b,
            j + 1 + length(a, i + 1, inner),
            stretch,
        ),
        length(a, i, stretch) == 1 + length(a, i + 1, inner) + length(
            a,
            i + 1 + length(a, i + 1, inner),
            stretch,
        ),
        0 < length(a, i + 1, inner),
{
    lemma_end(a, i, stretch);
    lemma_end(a, i + 1, inner);
    let count = length(a, i, stretch);
    let middle = end_from(a, i + 1, inner)->0;
    lemma_end(a, middle + 1, stretch);
    lemma_agree(a, i, b, j, count, 0);
    lemma_agree(a, i, b, j, count, 1);
    lemma_part(a, i + 1, b, j + 1, count - 1, middle - i);
    lemma_agree(a, i, b, j, count, middle + 1 - i);
}

/// A stretch that ends at once.
proof fn lemma_stop(a: Seq<Step>, i: int, b: Seq<Step>, j: int, stretch: Stretch)
    requires
        same_stretch(a, i, b, j, stretch),
        a[i] == Step::End(wanted(stretch)),
    ensures
        a[i] == b[j],
        length(a, i, stretch) == 1,
        0 <= i < a.len(),
        0 <= j < b.len(),
{
    lemma_end(a, i, stretch);
    lemma_agree(a, i, b, j, 1, 0);
}

proof fn lemma_same_block(a: Seq<Step>, i: int, b: Seq<Step>, j: int, end: Closing)
    requires
        same_stretch(a, i, b, j, Stretch::Block(end)),
    ensures
        render::block_text(a, i, end).0 == render::block_text(b, j, end).0,
        render::block_text(a, i, end).1 == i + length(a, i, Stretch::Block(end)),
        render::block_text(b, j, end).1 == j + length(a, i, Stretch::Block(end)),
        end == Closing::HtmlBlock ==> render::as_written(a, i) == render::as_written(b, j),
    decreases a.len() - i,
{
    lemma_end(a, i, Stretch::Block(end));
    if a[i] == Step::End(end) {
        lemma_stop(a, i, b, j, Stretch::Block(end));
    } else {
        lemma_skip(a, i, b, j, Stretch::Block(end));
        lemma_same_block(a, i + 1, b, j + 1, end);
    }
}

proof fn lemma_same_items(a: Seq<Step>, i: int, b: Seq<Step>, j: int)
    requires
        same_stretch(a, i, b, j, Stretch::List),
    ensures
        render::items(a, i).0 == render::items(b, j).0,
        render::items(a, i).1 == i + length(a, i, Stretch::List),
        render::items(b, j).1 == j + length(a, i, Stretch::List),
    decreases a.len() - i, 1int,
{
    let item = Stretch::Content(Closing::Item);
    lemma_end(a, i, Stretch::List);
    if a[i] == Step::End(Closing::List) {
        lemma_stop(a, i, b, j, Stretch::List);
    } else if a[i] is Start && a[i]->Start_0 is Item {
        lemma_open(a, i, b, j, Stretch::List, item);
        lemma_same_content(a, i + 1, b, j + 1, Closing::Item, true, Seq::empty());
        let n = 1 + length(a, i + 1, item);
        lemma_same_items(a, i + n, b, j + n);
    } else {
        lemma_skip(a, i, b, j, Stretch::List);
        lemma_same_items(a, i + 1, b, j + 1);
    }
}

proof fn lemma_same_cells(a: Seq<Step>, i: int, b: Seq<Step>, j: int, end: Closing)
    requires
        same_stretch(a, i, b, j, Stretch::Row(end)),
    ensures
        render::cells(a, i, end).0 == render::cells(b, j, end).0,
        render::cells(a, i, end).1 == i + length(a, i, Stretch::Row(end)),
        render::cells(b, j, end).1 == j + length(a, i, Stretch::Row(end)),
    decreases a.len() - i, 1int,
{
    let row = Stretch::Row(end);
    let cell = Stretch::Content(Closing::TableCell);
    lemma_end(a, i, row);
    if a[i] == Step::End(end) {
        lemma_stop(a, i, b, j, row);
    } else if a[i] is Start && a[i]->Start_0 is TableCell {
        lemma_open(a, i, b, j, row, cell);
        lemma_same_content(a, i + 1, b, j + 1, Closing::TableCell, true, Seq::empty());
        let n = 1 + length(a, i + 1, cell);
        lemma_part(a, i + 1, b, j + 1, n - 1, n - 2);
        lemma_same_plain(a, i + 1, b, j + 1, n - 2);
        lemma_same_cells(a, i + n, b, j + n, end);
    } else {
        lemma_skip(a, i, b, j, row);
        lemma_same_cells(a, i + 1, b, j + 1, end);
    }
}

proof fn lemma_same_table(a: Seq<Step>, i: int, b: Seq<Step>, j: int, header: Seq<Cell>)
    requires
        same_stretch(a, i, b, j, Stretch::Table),
    ensures
        render::table_parts(a, i, header).0 == render::table_parts(b, j, header).0,
        render::table_parts(a, i, header).1 == render::table_parts(b, j, header).1,
        render::table_parts(a, i, header).2 == i + length(a, i, Stretch::Table),
        render::table_parts(b, j, header).2 == j + length(a, i, Stretch::Table),
    decreases a.len() - i, 1int,
{
    let head = Stretch::Row(Closing::TableHead);
    let row = Stretch::Row(Closing::TableRow);
    lemma_end(a, i, Stretch::Table);
    if a[i] == Step::End(Closing::Table) {
        lemma_stop(a, i, b, j, Stretch::Table);
    } else if a[i] is Start && a[i]->Start_0 is TableHead {
        lemma_open(a, i, b, j, Stretch::Table, head);
        lemma_same_cells(a, i + 1, b, j + 1, Closing::TableHead);
        let n = 1 + length(a, i + 1, head);
        let found = render::cells(a, i + 1, Closing::TableHead).0;
        lemma_same_table(a, i + n, b, j + n, found);
    } else if a[i] is Start && a[i]->Start_0 is TableRow {
        lemma_open(a, i, b, j, Stretch::Table, row);
        lemma_same_cells(a, i + 1, b, j + 1, Closing::TableRow);
        let n = 1 + length(a, i + 1, row);
        lemma_same_table(a, i + n, b, j + n, header);
    } else {
        lemma_skip(a, i, b, j, Stretch::Table);
        lemma_same_table(a, i + 1, b, j + 1, header);
    }
}

proof fn lemma_same_element(
    a: Seq<Step>,
    i: int,
    b: Seq<Step>,
    j: int,
    opened: Element,
    inline: bool,
)
    requires
        same_stretch(a, i, b, j, enclosed_by(opened)),
        !(opened is HtmlBlock),
    ensures
        render::element(a, i, opened, inline).0 == render::element(b, j, opened, inline).0,
        render::element(a, i, opened, inline).1 == i + length(a, i, enclosed_by(opened)),
        render::element(b, j, opened, inline).1 == j + length(a, i, enclosed_by(opened)),
    decreases a.len() - i, 2int,
{
    match opened {
        Element::CodeBlock(_) => lemma_same_block(a, i, b, j, Closing::CodeBlock),
        Element::List(_) => lemma_same_items(a, i, b, j),
        Element::Table(_) => lemma_same_table(a, i, b, j, Seq::empty()),
        _ => lemma_same_content(
            a,
            i,
            b,
            j,
            event::end_of(opened),
            render::runs_in_line(opened, inline),
            Seq::empty(),
        ),
    }
}

proof fn lemma_same_content(
    a: Seq<Step>,
    i: int,
    b: Seq<Step>,
    j: int,
    end: Closing,
    inline: bool,
    open: Seq<Span>,
)
    requires
        same_stretch(a, i, b, j, Stretch::Content(end)),
    ensures
        render::content(a, i, Some(end), inline, open).0 == render::content(
            b,
            j,
            Some(end),
            inline,
            open,
        ).0,
        render::content(a, i, Some(end), inline, open).1 == i + length(
            a,
            i,
            Stretch::Content(end),
        ),
        render::content(b, j, Some(end), inline, open).1 == j + length(
            a,
            i,
            Stretch::Content(end),
        ),
    decreases a.len() - i, 1int,
{
    let stretch = Stretch::Content(end);
    lemma_end(a, i, stretch);
    match a[i] {
        Step::End(closing) => {
            if closing == end {
                lemma_stop(a, i, b, j, stretch);
            } else {
                lemma_skip(a, i, b, j, stretch);
                lemma_same_content(a, i + 1, b, j + 1, end, inline, open);
            }
        },
        Step::Start(opened) => {
            let inner = enclosed_by(opened);
            lemma_open(a, i, b, j, stretch, inner);
            let n = 1 + length(a, i + 1, inner);
            if opened is HtmlBlock {
                lemma_same_block(a, i + 1, b, j + 1, Closing::HtmlBlock);
                let now_open = render::html_block(a, i + 1, open).1;
                lemma_same_content(a, i + n, b, j + n, end, inline, now_open);
                lemma_after(a, i, i + n, Some(end), inline, now_open);
                lemma_after(b, j, j + n, Some(end), inline, now_open);
            } else {
                lemma_same_element(a, i + 1, b, j + 1, opened, inline);
                lemma_same_content(a, i + n, b, j + n, end, inline, open);
                lemma_after(a, i, i + n, Some(end), inline, open);
                lemma_after(b, j, j + n, Some(end), inline, open);
            }
        },
        Step::Html(source) => {
            lemma_skip(a, i, b, j, stretch);
            let now_open = html::html(source@, open).1;
            lemma_same_content(a, i + 1, b, j + 1, end, inline, now_open);
        },
        _ => {
            lemma_skip(a, i, b, j, stretch);
            lemma_same_content(a, i + 1, b, j + 1, end, inline, open);
        },
    }
}

proof fn lemma_after(
    steps: Seq<Step>,
    pos: int,
    next: int,
    end: Option<Closing>,
    inline: bool,
    open: Seq<Span>,
)
    requires
        pos < next <= steps.len(),
    ensures
        render::content_after(steps, pos, next, end, inline, open) == render::content(
            steps,
            next,
            end,
            inline,
            open,
        ),
{
}

/// Part of a sequence of steps agrees with the whole.
proof fn lemma_body(steps: Seq<Step>, pos: int, end: int, i: int, stretch: Stretch)
    requires
        0 <= pos <= i,
        end <= steps.len(),
        end_from(steps, i, stretch) is Some,
        end_from(steps, i, stretch)->0 < end,
    ensures
        same_stretch(steps, i, steps.subrange(pos, end), i - pos, stretch),
{
    lemma_end(steps, i, stretch);
    let body = steps.subrange(pos, end);
    let count = end_from(steps, i, stretch)->0 - i + 1;
    assert forall|k: int| 0 <= k < count implies #[trigger] steps[i + k] == body[i - pos + k] by {}
}

proof fn lemma_alone(
    steps: Seq<Step>,
    pos: int,
    i: int,
    end: Closing,
    inline: bool,
    open: Seq<Span>,
)
    requires
        0 <= pos <= i,
        end_from(steps, i, Stretch::Content(end)) is Some,
    ensures
        render::content(steps, i, Some(end), inline, open).0 == render::content(
            steps.subrange(pos, end_from(steps, i, Stretch::Content(end))->0),
            i - pos,
            None,
            inline,
            open,
        ).0,
        render::content(steps, i, Some(end), inline, open).1 == end_from(
            steps,
            i,
            Stretch::Content(end),
        )->0 + 1,
    decreases steps.len() - i,
{
    let stretch = Stretch::Content(end);
    let last = end_from(steps, i, stretch)->0;
    let body = steps.subrange(pos, last);
    lemma_end(steps, i, stretch);
    match steps[i] {
        Step::End(closing) => {
            if closing != end {
                lemma_end(steps, i + 1, stretch);
                lemma_alone(steps, pos, i + 1, end, inline, open);
            }
        },
        Step::Start(opened) => {
            let inner = enclosed_by(opened);
            lemma_end(steps, i + 1, inner);
            let next = end_from(steps, i + 1, inner)->0 + 1;
            lemma_end(steps, next, stretch);
            lemma_body(steps, pos, last, i + 1, inner);
            if opened is HtmlBlock {
                lemma_same_block(steps, i + 1, body, i + 1 - pos, Closing::HtmlBlock);
                let now_open = render::html_block(steps, i + 1, open).1;
                lemma_alone(steps, pos, next, end, inline, now_open);
                lemma_after(steps, i, next, Some(end), inline, now_open);
                lemma_after(body, i - pos, next - pos, None, inline, now_open);
            } else {
                lemma_same_element(steps, i + 1, body, i + 1 - pos, opened, inline);
                lemma_alone(steps, pos, next, end, inline, open);
                lemma_after(steps, i, next, Some(end), inline, open);
                lemma_after(body, i - pos, next - pos, None, inline, open);
            }
        },
        Step::Html(source) => {
            lemma_end(steps, i + 1, stretch);
            lemma_alone(steps, pos, i + 1, end, inline, html::html(source@, open).1);
        },
        _ => {
            lemma_end(steps, i + 1, stretch);
            lemma_alone(steps, pos, i + 1, end, inline, open);
        },
    }
}

/// What stands before the end of a stretch of content is rendered as if it stood alone, whatever
/// comes before and after it, and rendering goes on behind the end.
pub proof fn content_is_rendered_alone(steps: Seq<Step>, pos: int, end: Closing, inline: bool)
    requires
        end_from(steps, pos, Stretch::Content(end)) is Some,
    ensures
        render::content(steps, pos, Some(end), inline, Seq::empty()) == (
            markdown::rendered(
                steps.subrange(pos, end_from(steps, pos, Stretch::Content(end))->0),
                inline,
            ),
            end_from(steps, pos, Stretch::Content(end))->0 + 1,
        ),
{
    lemma_end(steps, pos, Stretch::Content(end));
    lemma_alone(steps, pos, pos, end, inline, Seq::empty());
}

/// The markup of an element is made of the markup of what it encloses.
pub proof fn elements_render_what_they_enclose(
    steps: Seq<Step>,
    pos: int,
    opened: Element,
    inline: bool,
)
    requires
        enclosed_by(opened) is Content,
        end_from(steps, pos, enclosed_by(opened)) is Some,
    ensures
        render::element(steps, pos, opened, inline) == (
            render::enclosed(
                opened,
                inline,
                markdown::rendered(
                    steps.subrange(pos, end_from(steps, pos, enclosed_by(opened))->0),
                    render::runs_in_line(opened, inline),
                ),
            ),
            end_from(steps, pos, enclosed_by(opened))->0 + 1,
        ),
{
    content_is_rendered_alone(
        steps,
        pos,
        event::end_of(opened),
        render::runs_in_line(opened, inline),
    );
}

/// The HTML elements that are open after the steps from `pos` on, where `open` are before them; none
/// are told if an element starts in the steps that does not end in them.
pub open spec fn left_open(steps: Seq<Step>, pos: int, open: Seq<Span>) -> Option<Seq<Span>>
    decreases steps.len() - pos,
{
    if pos < 0 || pos >= steps.len() {
        Some(open)
    } else {
        match steps[pos] {
            Step::Start(element) => match end_from(steps, pos + 1, enclosed_by(element)) {
                Some(end) if pos < end < steps.len() => left_open(
                    steps,
                    end + 1,
                    if element is HtmlBlock {
                        render::html_block(steps, pos + 1, open).1
                    } else {
                        open
                    },
                ),
                _ => None,
            },
            Step::Html(source) => left_open(steps, pos + 1, html::html(source@, open).1),
            _ => left_open(steps, pos + 1, open),
        }
    }
}

proof fn lemma_joined(
    first: Seq<Step>,
    second: Seq<Step>,
    pos: int,
    inline: bool,
    open: Seq<Span>,
)
    requires
        0 <= pos <= first.len(),
        left_open(first, pos, open) == Some(Seq::<Span>::empty()),
    ensures
        render::content(first + second, pos, None, inline, open).0 == render::content(
            first,
            pos,
            None,
            inline,
            open,
        ).0 + markdown::rendered(second, inline),
    decreases first.len() - pos,
{
    let all = first + second;
    if pos == first.len() {
        lemma_shift_content(first, second, 0, None, inline, Seq::empty());
        assert(Seq::<char>::empty() + markdown::rendered(second, inline) =~= markdown::rendered(
            second,
            inline,
        ));
    } else {
        assert(all[pos] == first[pos]);
        match first[pos] {
            Step::Start(opened) => {
                let inner = enclosed_by(opened);
                lemma_end(first, pos + 1, inner);
                let end = end_from(first, pos + 1, inner)->0;
                lemma_front(first, second, pos + 1, inner);
                if opened is HtmlBlock {
                    lemma_same_block(first, pos + 1, all, pos + 1, Closing::HtmlBlock);
                    let (markup, now_open) = render::html_block(first, pos + 1, open);
                    lemma_joined(first, second, end + 1, inline, now_open);
                    lemma_after(first, pos, end + 1, None, inline, now_open);
                    lemma_after(all, pos, end + 1, None, inline, now_open);
                    let rest = render::content(first, end + 1, None, inline, now_open).0;
                    lemma_three(markup, rest, markdown::rendered(second, inline));
                } else {
                    lemma_same_element(first, pos + 1, all, pos + 1, opened, inline);
                    let markup = render::element(first, pos + 1, opened, inline).0;
                    lemma_joined(first, second, end + 1, inline, open);
                    lemma_after(first, pos, end + 1, None, inline, open);
                    lemma_after(all, pos, end + 1, None, inline, open);
                    let rest = render::content(first, end + 1, None, inline, open).0;
                    lemma_three(markup, rest, markdown::rendered(second, inline));
                }
            },
            Step::Html(source) => {
                let (markup, now_open) = html::html(source@, open);
                lemma_joined(first, second, pos + 1, inline, now_open);
                let rest = render::content(first, pos + 1, None, inline, now_open).0;
                lemma_three(markup, rest, markdown::rendered(second, inline));
            },
            Step::End(_) => lemma_joined(first, second, pos + 1, inline, open),
            other => {
                lemma_joined(first, second, pos + 1, inline, open);
                let rest = render::content(first, pos + 1, None, inline, open).0;
                lemma_three(render::leaf(other), rest, markdown::rendered(second, inline));
            },
        }
    }
}

proof fn lemma_three(a: Seq<char>, b: Seq<char>, c: Seq<char>)
    ensures
        a + (b + c) == (a + b) + c,
{
    assert(a + (b + c) =~= (a + b) + c);
}

proof fn lemma_front(first: Seq<Step>, second: Seq<Step>, i: int, stretch: Stretch)
    requires
        end_from(first, i, stretch) is Some,
    ensures
        same_stretch(first, i, first + second, i, stretch),
{
    lemma_end(first, i, stretch);
}

proof fn lemma_shift_block(first: Seq<Step>, second: Seq<Step>, i: int, end: Closing)
    requires
        0 <= i,
    ensures
        render::block_text(first + second, first.len() + i, end).0 == render::block_text(
            second,
            i,
            end,
        ).0,
        render::block_text(first + second, first.len() + i, end).1 == first.len()
            + render::block_text(second, i, end).1,
        end == Closing::HtmlBlock ==> render::as_written(first + second, first.len() + i)
            == render::as_written(second, i),
    decreases second.len() - i,
{
    if i < second.len() {
        assert((first + second)[first.len() + i] == second[i]);
        lemma_shift_block(first, second, i + 1, end);
    }
}

proof fn lemma_shift_plain(first: Seq<Step>, second: Seq<Step>, i: int, j: int)
    requires
        0 <= i,
        j <= second.len(),
    ensures
        render::plain_between(first + second, first.len() + i, first.len() + j)
            == render::plain_between(second, i, j),
    decreases j - i,
{
    if i < j {
        assert((first + second)[first.len() + j - 1] == second[j - 1]);
        lemma_shift_plain(first, second, i, j - 1);
    }
}

proof fn lemma_shift_items(first: Seq<Step>, second: Seq<Step>, i: int)
    requires
        0 <= i <= second.len(),
    ensures
        render::items(first + second, first.len() + i).0 == render::items(second, i).0,
        render::items(first + second, first.len() + i).1 == first.len() + render::items(
            second,
            i,
        ).1,
    decreases second.len() - i, 1int,
{
    if i < second.len() {
        assert((first + second)[first.len() + i] == second[i]);
        let end = Some(Closing::Item);
        lemma_shift_content(first, second, i + 1, end, true, Seq::empty());
        render::rendering_moves_on(second, i + 1, end, true, Seq::empty());
        let next = render::content(second, i + 1, end, true, Seq::empty()).1;
        lemma_shift_items(first, second, next);
        lemma_shift_items(first, second, i + 1);
    }
}

proof fn lemma_shift_cells(first: Seq<Step>, second: Seq<Step>, i: int, end: Closing)
    requires
        0 <= i <= second.len(),
    ensures
        render::cells(first + second, first.len() + i, end).0 == render::cells(second, i, end).0,
        render::cells(first + second, first.len() + i, end).1 == first.len() + render::cells(
            second,
            i,
            end,
        ).1,
    decreases second.len() - i, 1int,
{
    if i < second.len() {
        assert((first + second)[first.len() + i] == second[i]);
        let cell = Some(Closing::TableCell);
        lemma_shift_content(first, second, i + 1, cell, true, Seq::empty());
        render::rendering_moves_on(second, i + 1, cell, true, Seq::empty());
        let next = render::content(second, i + 1, cell, true, Seq::empty()).1;
        lemma_shift_plain(first, second, i + 1, next - 1);
        lemma_shift_cells(first, second, next, end);
        lemma_shift_cells(first, second, i + 1, end);
    }
}

proof fn lemma_shift_table(first: Seq<Step>, second: Seq<Step>, i: int, header: Seq<Cell>)
    requires
        0 <= i <= second.len(),
    ensures
        render::table_parts(first + second, first.len() + i, header).0 == render::table_parts(
            second,
            i,
            header,
        ).0,
        render::table_parts(first + second, first.len() + i, header).1 == render::table_parts(
            second,
            i,
            header,
        ).1,
        render::table_parts(first + second, first.len() + i, header).2 == first.len()
            + render::table_parts(second, i, header).2,
    decreases second.len() - i, 1int,
{
    if i < second.len() {
        assert((first + second)[first.len() + i] == second[i]);
        match second[i] {
            Step::Start(Element::TableHead) => {
                lemma_shift_cells(first, second, i + 1, Closing::TableHead);
                let (found, next) = render::cells(second, i + 1, Closing::TableHead);
                if i < next <= second.len() {
                    lemma_shift_table(first, second, next, found);
                }
            },
            Step::Start(Element::TableRow) => {
                lemma_shift_cells(first, second, i + 1, Closing::TableRow);
                let next = render::cells(second, i + 1, Closing::TableRow).1;
                if i < next <= second.len() {
                    lemma_shift_table(first, second, next, header);
                }
            },
            Step::End(Closing::Table) => {},
            _ => lemma_shift_table(first, second, i + 1, header),
        }
    }
}

proof fn lemma_shift_element(
    first: Seq<Step>,
    second: Seq<Step>,
    i: int,
    opened: Element,
    inline: bool,
)
    requires
        0 <= i <= second.len(),
    ensures
        render::element(first + second, first.len() + i, opened, inline).0 == render::element(
            second,
            i,
            opened,
            inline,
        ).0,
        render::element(first + second, first.len() + i, opened, inline).1 == first.len()
            + render::element(second, i, opened, inline).1,
    decreases second.len() - i, 2int,
{
    match opened {
        Element::CodeBlock(_) => lemma_shift_block(first, second, i, Closing::CodeBlock),
        Element::List(_) => lemma_shift_items(first, second, i),
        Element::Table(_) => lemma_shift_table(first, second, i, Seq::empty()),
        _ => lemma_shift_content(
            first,
            second,
            i,
            Some(event::end_of(opened)),
            render::runs_in_line(opened, inline),
            Seq::empty(),
        ),
    }
}

/// Steps behind others are rendered as they are alone.
proof fn lemma_shift_content(
    first: Seq<Step>,
    second: Seq<Step>,
    i: int,
    end: Option<Closing>,
    inline: bool,
    open: Seq<Span>,
)
    requires
        0 <= i <= second.len(),
    ensures
        render::content(first + second, first.len() + i, end, inline, open).0 == render::content(
            second,
            i,
            end,
            inline,
            open,
        ).0,
        render::content(first + second, first.len() + i, end, inline, open).1 == first.len()
            + render::content(second, i, end, inline, open).1,
    decreases second.len() - i, 1int,
{
    let all = first + second;
    let at = first.len() + i;
    if i < second.len() {
        assert(all[at] == second[i]);
        match second[i] {
            Step::End(closing) => {
                if end != Some(closing) {
                    lemma_shift_content(first, second, i + 1, end, inline, open);
                }
            },
            Step::Start(opened) => {
                if opened is HtmlBlock {
                    lemma_shift_block(first, second, i + 1, Closing::HtmlBlock);
                    let next = render::block_text(second, i + 1, Closing::HtmlBlock).1;
                    let now_open = render::html_block(second, i + 1, open).1;
                    lemma_shift_after(first, second, i, next, end, inline, now_open);
                } else {
                    lemma_shift_element(first, second, i + 1, opened, inline);
                    let next = render::element(second, i + 1, opened, inline).1;
                    lemma_shift_after(first, second, i, next, end, inline, open);
                }
            },
            Step::Html(source) => {
                let now_open = html::html(source@, open).1;
                lemma_shift_content(first, second, i + 1, end, inline, now_open);
            },
            _ => lemma_shift_content(first, second, i + 1, end, inline, open),
        }
    }
}

proof fn lemma_shift_after(
    first: Seq<Step>,
    second: Seq<Step>,
    i: int,
    next: int,
    end: Option<Closing>,
    inline: bool,
    open: Seq<Span>,
)
    requires
        0 <= i < second.len(),
    ensures
        render::content_after(
            first + second,
            first.len() + i,
            first.len() + next,
            end,
            inline,
            open,
        ).0 == render::content_after(second, i, next, end, inline, open).0,
        render::content_after(
            first + second,
            first.len() + i,
            first.len() + next,
            end,
            inline,
            open,
        ).1 == first.len() + render::content_after(second, i, next, end, inline, open).1,
    decreases second.len() - i, 0int,
{
    if i < next <= second.len() {
        lemma_shift_content(first, second, next, end, inline, open);
    }
}

/// The markup of two parts of a document, one after the other, is that of the first and then that of
/// the second, if each element that starts in the first ends in it and no HTML element is left open.
pub proof fn parts_are_rendered_one_after_the_other(
    first: Seq<Step>,
    second: Seq<Step>,
    inline: bool,
)
    requires
        left_open(first, 0, Seq::empty()) == Some(Seq::<Span>::empty()),
    ensures
        markdown::rendered(first + second, inline) == markdown::rendered(first, inline)
            + markdown::rendered(second, inline),
{
    lemma_joined(first, second, 0, inline, Seq::empty());
}

/// Where the element that began before `pos` ends, if every element that starts in it ends in it with
/// a closing of its own.
pub open spec fn own_end(steps: Seq<Step>, pos: int) -> Option<int>
    decreases steps.len() - pos,
{
    if pos < 0 || pos >= steps.len() {
        None
    } else {
        match steps[pos] {
            Step::End(_) => Some(pos),
            Step::Start(element) => match own_end(steps, pos + 1) {
                Some(end) if pos < end < steps.len() && steps[end] == Step::End(
                    event::end_of(element),
                ) => own_end(steps, end + 1),
                _ => None,
            },
            _ => own_end(steps, pos + 1),
        }
    }
}

/// Whether every element that starts in the steps from `pos` on ends in them with a closing of its
/// own, and nothing else ends in them.
pub open spec fn is_nested(steps: Seq<Step>, pos: int) -> bool
    decreases steps.len() - pos,
{
    if pos < 0 || pos >= steps.len() {
        true
    } else {
        match steps[pos] {
            Step::End(_) => false,
            Step::Start(element) => match own_end(steps, pos + 1) {
                Some(end) if pos < end < steps.len() && steps[end] == Step::End(
                    event::end_of(element),
                ) => is_nested(steps, end + 1),
                _ => false,
            },
            _ => is_nested(steps, pos + 1),
        }
    }
}

/// Whether each code block, HTML block, list and table is read up to its own closing. It is not where
/// a block encloses another of its kind, or a list or a table does so outside its items or cells.
pub open spec fn reads_to_own_ends(steps: Seq<Step>) -> bool {
    forall|i: int|
        0 <= i < steps.len() && (#[trigger] steps[i]) is Start && !(enclosed_by(
            steps[i]->Start_0,
        ) is Content) && own_end(steps, i + 1) is Some ==> end_from(
            steps,
            i + 1,
            enclosed_by(steps[i]->Start_0),
        ) == own_end(steps, i + 1)
}

proof fn lemma_own_end(steps: Seq<Step>, pos: int)
    requires
        reads_to_own_ends(steps),
        own_end(steps, pos) is Some,
    ensures
        0 <= pos <= own_end(steps, pos)->0 < steps.len(),
        steps[own_end(steps, pos)->0] is End,
        end_from(
            steps,
            pos,
            Stretch::Content(steps[own_end(steps, pos)->0]->End_0),
        ) == own_end(steps, pos),
    decreases steps.len() - pos,
{
    match steps[pos] {
        Step::End(_) => {},
        Step::Start(element) => {
            lemma_own_end(steps, pos + 1);
            lemma_own_end(steps, own_end(steps, pos + 1)->0 + 1);
            assert(steps[pos] is Start);
        },
        _ => lemma_own_end(steps, pos + 1),
    }
}

/// A body in which every element ends with a closing of its own is rendered up to the closing behind
/// it as if it stood alone, whatever comes after, and rendering goes on behind that closing.
pub proof fn nested_content_is_rendered_alone(steps: Seq<Step>, pos: int, end: int, inline: bool)
    requires
        reads_to_own_ends(steps),
        own_end(steps, pos) == Some(end),
    ensures
        steps[end] is End,
        render::content(steps, pos, Some(steps[end]->End_0), inline, Seq::empty()) == (
            markdown::rendered(steps.subrange(pos, end), inline),
            end + 1,
        ),
{
    lemma_own_end(steps, pos);
    content_is_rendered_alone(steps, pos, steps[end]->End_0, inline);
}

/// Whether steps hold any HTML.
pub open spec fn holds_html(steps: Seq<Step>) -> bool {
    exists|i: int|
        0 <= i < steps.len() && ((#[trigger] steps[i]) is Html || steps[i] == Step::Start(
            Element::HtmlBlock,
        ))
}

/// In nested steps every element that starts ends, so that it can be told which HTML elements are
/// left open. Without HTML none are.
pub proof fn nested_steps_are_closed(steps: Seq<Step>, pos: int, open: Seq<Span>)
    requires
        reads_to_own_ends(steps),
        0 <= pos,
        is_nested(steps, pos),
    ensures
        left_open(steps, pos, open) is Some,
        !holds_html(steps) ==> left_open(steps, pos, open) == Some(open),
    decreases steps.len() - pos,
{
    if pos < steps.len() {
        match steps[pos] {
            Step::Start(element) => {
                lemma_own_end(steps, pos + 1);
                let end = own_end(steps, pos + 1)->0;
                assert(steps[pos] is Start);
                assert(end_from(steps, pos + 1, enclosed_by(element)) == Some(end));
                let now_open = if element is HtmlBlock {
                    render::html_block(steps, pos + 1, open).1
                } else {
                    open
                };
                nested_steps_are_closed(steps, end + 1, now_open);
            },
            Step::Html(source) => {
                nested_steps_are_closed(steps, pos + 1, html::html(source@, open).1);
            },
            _ => nested_steps_are_closed(steps, pos + 1, open),
        }
    }
}

/// A step that neither opens nor closes anything is shown for what it is: text as text, code as code,
/// math as it is written, the reference to a footnote in brackets, a break as a space or a new line,
/// a rule as a line, and the box of a task ticked or not.
pub proof fn single_steps_are_shown(step: Step, inline: bool)
    requires
        !(step is Start),
        !(step is Html),
    ensures
        markdown::rendered(seq![step], inline) == match step {
            Step::Text(value) => "#text("@ + escape::quoted_text(value@) + ")"@,
            Step::Code(value) => "#raw("@ + escape::quoted_text(value@) + ")"@,
            Step::Math { display, text } => "#text("@ + escape::quoted_text(
                if display {
                    "$$"@ + text@ + "$$"@
                } else {
                    "$"@ + text@ + "$"@
                },
            ) + ")"@,
            Step::FootnoteReference(label) => "#text("@ + escape::quoted_text(
                "["@ + label@ + "]"@,
            ) + ")"@,
            Step::SoftBreak => "#text(\" \")"@,
            Step::HardBreak => "#linebreak()"@,
            Step::Rule => "\n#line(length: 100%, stroke: 0.5pt)\n"@,
            Step::TaskListMarker(true) => "#text(\"\u{2611} \")"@,
            Step::TaskListMarker(false) => "#text(\"\u{2610} \")"@,
            _ => Seq::<char>::empty(),
        },
{
    let steps = seq![step];
    assert(html::closings(Seq::empty()) =~= Seq::<char>::empty());
    assert(render::content(steps, 1, None, inline, Seq::empty()) == (Seq::<char>::empty(), 1int));
    assert(render::leaf(step) + Seq::<char>::empty() =~= render::leaf(step));
    assert(markdown::rendered(steps, inline) =~= render::leaf(step));
}

/// A piece of HTML is shown for what it is, and what it opens is closed behind it.
pub proof fn single_pieces_of_html_are_closed(source: String, inline: bool)
    ensures
        markdown::rendered(seq![Step::Html(source)], inline) == html::html(source@, Seq::empty()).0
            + html::closings(html::html(source@, Seq::empty()).1),
{
    let steps = seq![Step::Html(source)];
    let now_open = html::html(source@, Seq::empty()).1;
    assert(render::content(steps, 1, None, inline, now_open) == (html::closings(now_open), 1int));
}

/// An element with what it encloses.
pub open spec fn whole(opened: Element, body: Seq<Step>) -> Seq<Step> {
    seq![Step::Start(opened)] + body + seq![Step::End(event::end_of(opened))]
}

/// Whether what an element encloses ends with the element's own closing.
pub open spec fn is_closed(opened: Element, body: Seq<Step>) -> bool {
    end_from(whole(opened, body), 1, Stretch::Content(event::end_of(opened))) == Some(
        body.len() as int + 1,
    )
}

proof fn lemma_whole(opened: Element, body: Seq<Step>, inline: bool)
    requires
        is_closed(opened, body),
    ensures
        render::content(
            whole(opened, body),
            1,
            Some(event::end_of(opened)),
            inline,
            Seq::empty(),
        ) == (markdown::rendered(body, inline), whole(opened, body).len() as int),
{
    let steps = whole(opened, body);
    content_is_rendered_alone(steps, 1, event::end_of(opened), inline);
    assert(steps.subrange(1, body.len() as int + 1) =~= body);
}

/// The last element of a document leaves nothing to render.
proof fn lemma_only(steps: Seq<Step>, opened: Element, inline: bool)
    requires
        steps.len() > 0,
        steps[0] == Step::Start(opened),
        !(opened is HtmlBlock),
        render::element(steps, 1, opened, inline).1 == steps.len(),
    ensures
        markdown::rendered(steps, inline) == render::element(steps, 1, opened, inline).0,
{
    let (markup, next) = render::element(steps, 1, opened, inline);
    assert(html::closings(Seq::empty()) =~= Seq::<char>::empty());
    lemma_after(steps, 0, next, None, inline, Seq::empty());
    assert(render::content(steps, next, None, inline, Seq::empty()).0 =~= Seq::<char>::empty());
    assert(markup + Seq::<char>::empty() =~= markup);
    assert(markdown::rendered(steps, inline) =~= markup);
}

/// An element that encloses others is shown by the function of Typst that belongs to it, around what
/// it encloses. A paragraph ends with an empty line unless it stands within another element, a quote
/// and a footnote hold paragraphs of their own, and all else runs within the line. A local image is
/// shown in the full width, and of a remote one its description; metadata are not shown.
pub proof fn elements_are_shown(opened: Element, body: Seq<Step>, inline: bool)
    requires
        enclosed_by(opened) is Content,
        is_closed(opened, body),
    ensures
        ({
            let text = markdown::rendered(body, true);
            let blocks = markdown::rendered(body, false);
            let shown = markdown::rendered(whole(opened, body), inline);
            match opened {
                Element::Paragraph => shown == if inline {
                    text
                } else {
                    text + "\n\n"@
                },
                Element::Heading(level) => shown == "\n#heading(level: "@ + chars::decimal(
                    level as nat,
                ) + ")["@ + text + "]\n\n"@,
                Element::BlockQuote => shown == "\n#quote(block: true)["@ + blocks + "]\n\n"@,
                Element::Emphasis => shown == "#emph["@ + text + "]"@,
                Element::Strong => shown == "#strong["@ + text + "]"@,
                Element::Strikethrough => shown == "#strike["@ + text + "]"@,
                Element::Superscript => shown == "#super["@ + text + "]"@,
                Element::Subscript => shown == "#sub["@ + text + "]"@,
                Element::Link(destination) => shown == "#link("@ + escape::quoted_text(destination@)
                    + ")["@ + text + "]"@,
                Element::Image(source) => shown == if chars::begins_with(source@, "http://"@)
                    || chars::begins_with(source@, "https://"@) {
                    text
                } else {
                    "#image("@ + escape::quoted_text(source@) + ", width: 100%)"@
                },
                Element::FootnoteDefinition(label) => shown == "\n#footnote["@ + blocks + "] "@
                    + "#text("@ + escape::quoted_text(label@) + ")"@ + "\n"@,
                Element::MetadataBlock => shown == Seq::<char>::empty(),
                _ => shown == markdown::rendered(body, inline),
            }
        }),
{
    let steps = whole(opened, body);
    lemma_whole(opened, body, render::runs_in_line(opened, inline));
    lemma_only(steps, opened, inline);
    let inner = markdown::rendered(body, render::runs_in_line(opened, inline));
    assert(markdown::rendered(steps, inline) == render::enclosed(opened, inline, inner));
    reveal_strlit("#");
    reveal_strlit("[");
    reveal_strlit("emph");
    reveal_strlit("strong");
    reveal_strlit("strike");
    reveal_strlit("super");
    reveal_strlit("sub");
    reveal_strlit("#emph[");
    reveal_strlit("#strong[");
    reveal_strlit("#strike[");
    reveal_strlit("#super[");
    reveal_strlit("#sub[");
    assert("#"@ + "emph"@ + "["@ =~= "#emph["@);
    assert("#"@ + "strong"@ + "["@ =~= "#strong["@);
    assert("#"@ + "strike"@ + "["@ =~= "#strike["@);
    assert("#"@ + "super"@ + "["@ =~= "#super["@);
    assert("#"@ + "sub"@ + "["@ =~= "#sub["@);
    if let Element::FootnoteDefinition(label) = opened {
        assert(markdown::rendered(steps, inline) =~= "\n#footnote["@ + inner + "] "@ + "#text("@
            + escape::quoted_text(label@) + ")"@ + "\n"@);
    }
}

/// The text that a step adds to a code block.
pub open spec fn code_text(step: Step) -> Seq<char> {
    match step {
        Step::Text(value) => value@,
        Step::Code(value) => value@,
        _ => Seq::empty(),
    }
}

proof fn lemma_code(steps: Seq<Step>, pos: int, body: Seq<Step>)
    requires
        0 <= pos,
        steps.len() == pos + body.len() + 1,
        forall|i: int| 0 <= i < body.len() ==> steps[pos + i] == #[trigger] body[i],
        steps.last() == Step::End(Closing::CodeBlock),
        forall|i: int| 0 <= i < body.len() ==> #[trigger] body[i] != Step::End(Closing::CodeBlock),
    ensures
        render::block_text(steps, pos, Closing::CodeBlock) == (
            Seq::new(body.len(), |i: int| code_text(body[i])).flatten(),
            steps.len() as int,
        ),
    decreases body.len(),
{
    let texts = Seq::new(body.len(), |i: int| code_text(body[i]));
    if body.len() == 0 {
        assert(texts =~= Seq::empty());
    } else {
        let rest = body.skip(1);
        assert(steps[pos + 0] == body[0]);
        assert forall|i: int| 0 <= i < rest.len() implies steps[pos + 1 + i] == #[trigger] rest[i]
            && rest[i] != Step::End(Closing::CodeBlock) by {
            assert(rest[i] == body[i + 1]);
            assert(steps[pos + (i + 1)] == body[i + 1]);
        }
        lemma_code(steps, pos + 1, rest);
        assert(texts.drop_first() =~= Seq::new(rest.len(), |i: int| code_text(rest[i])));
        assert(texts.first() == code_text(body[0]));
        assert(texts.flatten() == texts.first() + texts.drop_first().flatten());
    }
}

/// A code block is shown as a block of its own, with all its text as it is and with the language that
/// it names.
pub proof fn code_blocks_are_shown(info: Option<String>, body: Seq<Step>, inline: bool)
    requires
        forall|i: int| 0 <= i < body.len() ==> #[trigger] body[i] != Step::End(Closing::CodeBlock),
    ensures
        markdown::rendered(whole(Element::CodeBlock(info), body), inline) == "\n#raw("@
            + escape::quoted_text(Seq::new(body.len(), |i: int| code_text(body[i])).flatten())
            + ", block: true, lang: "@ + escape::quoted_text(render::language(info)) + ")\n\n"@,
{
    let steps = whole(Element::CodeBlock(info), body);
    lemma_code(steps, 1, body);
    lemma_only(steps, Element::CodeBlock(info), inline);
}

proof fn lemma_item(body: Seq<Step>, rest: Seq<Step>)
    requires
        is_closed(Element::Item, body),
    ensures
        render::items(whole(Element::Item, body) + rest, 0).0 == seq![
            markdown::rendered(body, true),
        ] + render::items(rest, 0).0,
        render::items(whole(Element::Item, body) + rest, 0).1 == whole(Element::Item, body).len()
            + render::items(rest, 0).1,
{
    let unit = whole(Element::Item, body);
    let all = unit + rest;
    lemma_front(unit, rest, 1, Stretch::Content(Closing::Item));
    lemma_same_content(unit, 1, all, 1, Closing::Item, true, Seq::empty());
    lemma_whole(Element::Item, body, true);
    assert(all[0] == Step::Start(Element::Item));
    lemma_shift_items(unit, rest, 0);
}

/// The items of a list, one after the other.
pub open spec fn all_items(bodies: Seq<Seq<Step>>) -> Seq<Step> {
    Seq::new(bodies.len(), |i: int| whole(Element::Item, bodies[i])).flatten()
}

proof fn lemma_items(bodies: Seq<Seq<Step>>)
    requires
        forall|i: int| 0 <= i < bodies.len() ==> is_closed(Element::Item, #[trigger] bodies[i]),
    ensures
        render::items(all_items(bodies) + seq![Step::End(Closing::List)], 0) == (
            bodies.map_values(|body: Seq<Step>| markdown::rendered(body, true)),
            all_items(bodies).len() as int + 1,
        ),
    decreases bodies.len(),
{
    let end = seq![Step::End(Closing::List)];
    let units = Seq::new(bodies.len(), |i: int| whole(Element::Item, bodies[i]));
    let shown = bodies.map_values(|body: Seq<Step>| markdown::rendered(body, true));
    if bodies.len() == 0 {
        assert(units =~= Seq::empty());
        assert(all_items(bodies) + end =~= end);
        assert(render::items(end, 0).0 =~= shown);
    } else {
        let rest = bodies.skip(1);
        lemma_items(rest);
        assert(units.drop_first() =~= Seq::new(rest.len(), |i: int| whole(Element::Item, rest[i])));
        assert(units.first() == whole(Element::Item, bodies[0]));
        assert(all_items(bodies) == whole(Element::Item, bodies[0]) + all_items(rest));
        assert(all_items(bodies) + end =~= whole(Element::Item, bodies[0]) + (all_items(rest)
            + end));
        lemma_item(bodies[0], all_items(rest) + end);
        assert(shown =~= seq![markdown::rendered(bodies[0], true)] + rest.map_values(
            |body: Seq<Step>| markdown::rendered(body, true),
        ));
    }
}

proof fn lemma_items_markup(items: Seq<Seq<char>>)
    ensures
        render::items_markup(items) == Seq::new(
            items.len(),
            |i: int| "["@ + items[i] + "], "@,
        ).flatten(),
    decreases items.len(),
{
    let f = |i: int| "["@ + items[i] + "], "@;
    chars::lemma_flatten_new(0, f);
    if items.len() > 0 {
        let less = items.drop_last();
        lemma_items_markup(less);
        chars::lemma_flatten_new(less.len(), f);
        assert(Seq::new(less.len(), |i: int| "["@ + less[i] + "], "@) =~= Seq::new(less.len(), f));
    }
    assert(render::items_markup(items) =~= Seq::new(items.len(), f).flatten());
}

/// A list is shown with all its items in their order, each from what it encloses; an ordered one is
/// numbered from its first number on.
pub proof fn lists_are_shown(start: Option<u64>, bodies: Seq<Seq<Step>>, inline: bool)
    requires
        forall|i: int| 0 <= i < bodies.len() ==> is_closed(Element::Item, #[trigger] bodies[i]),
    ensures
        markdown::rendered(whole(Element::List(start), all_items(bodies)), inline) == (match start {
            Some(number) => "\n#enum(start: "@ + chars::decimal(number as nat) + ", "@,
            None => "\n#list("@,
        }) + Seq::new(
            bodies.len(),
            |i: int| "["@ + markdown::rendered(bodies[i], true) + "], "@,
        ).flatten() + ")\n\n"@,
{
    let opened = Element::List(start);
    let steps = whole(opened, all_items(bodies));
    let tail = all_items(bodies) + seq![Step::End(Closing::List)];
    let shown = bodies.map_values(|body: Seq<Step>| markdown::rendered(body, true));
    assert(steps =~= seq![Step::Start(opened)] + tail);
    lemma_items(bodies);
    lemma_shift_items(seq![Step::Start(opened)], tail, 0);
    lemma_only(steps, opened, inline);
    lemma_items_markup(shown);
    assert(Seq::new(shown.len(), |i: int| "["@ + shown[i] + "], "@) =~= Seq::new(
        bodies.len(),
        |i: int| "["@ + markdown::rendered(bodies[i], true) + "], "@,
    ));
}

/// The cells of a row, one after the other.
pub open spec fn all_cells(bodies: Seq<Seq<Step>>) -> Seq<Step> {
    Seq::new(bodies.len(), |i: int| whole(Element::TableCell, bodies[i])).flatten()
}

/// What the cells of a row hold: the markup of what each encloses, and its text.
pub open spec fn cells_of(bodies: Seq<Seq<Step>>) -> Seq<Cell> {
    bodies.map_values(
        |body: Seq<Step>|
            Cell {
                markup: markdown::rendered(body, true),
                plain: render::plain_between(body, 0, body.len() as int),
            },
    )
}

/// Whether what each cell of a row encloses ends with the cell's own closing.
pub open spec fn are_closed(bodies: Seq<Seq<Step>>) -> bool {
    forall|i: int| 0 <= i < bodies.len() ==> is_closed(Element::TableCell, #[trigger] bodies[i])
}

proof fn lemma_cell(body: Seq<Step>, rest: Seq<Step>, end: Closing)
    requires
        is_closed(Element::TableCell, body),
    ensures
        render::cells(whole(Element::TableCell, body) + rest, 0, end).0 == seq![
            Cell {
                markup: markdown::rendered(body, true),
                plain: render::plain_between(body, 0, body.len() as int),
            },
        ] + render::cells(rest, 0, end).0,
        render::cells(whole(Element::TableCell, body) + rest, 0, end).1 == whole(
            Element::TableCell,
            body,
        ).len() + render::cells(rest, 0, end).1,
{
    let unit = whole(Element::TableCell, body);
    let all = unit + rest;
    lemma_front(unit, rest, 1, Stretch::Content(Closing::TableCell));
    lemma_same_content(unit, 1, all, 1, Closing::TableCell, true, Seq::empty());
    lemma_whole(Element::TableCell, body, true);
    assert(all[0] == Step::Start(Element::TableCell));
    render::texts_stand_alone(all, 1, body.len() as int + 1);
    assert(all.subrange(1, body.len() as int + 1) =~= body);
    lemma_shift_cells(unit, rest, 0, end);
}

proof fn lemma_cells(bodies: Seq<Seq<Step>>, end: Closing, rest: Seq<Step>)
    requires
        are_closed(bodies),
    ensures
        render::cells(all_cells(bodies) + seq![Step::End(end)] + rest, 0, end) == (
            cells_of(bodies),
            all_cells(bodies).len() as int + 1,
        ),
    decreases bodies.len(),
{
    let tail = seq![Step::End(end)] + rest;
    let units = Seq::new(bodies.len(), |i: int| whole(Element::TableCell, bodies[i]));
    let shown = cells_of(bodies);
    let all = all_cells(bodies) + seq![Step::End(end)] + rest;
    assert(all =~= all_cells(bodies) + tail);
    if bodies.len() == 0 {
        assert(units =~= Seq::empty());
        assert(all =~= tail);
        assert(tail[0] == Step::End(end));
        assert(render::cells(tail, 0, end).0 =~= shown);
    } else {
        let more = bodies.skip(1);
        lemma_cells(more, end, rest);
        assert(units.drop_first() =~= Seq::new(
            more.len(),
            |i: int| whole(Element::TableCell, more[i]),
        ));
        assert(units.first() == whole(Element::TableCell, bodies[0]));
        assert(all_cells(bodies) == whole(Element::TableCell, bodies[0]) + all_cells(more));
        let after = all_cells(more) + seq![Step::End(end)] + rest;
        assert(all =~= whole(Element::TableCell, bodies[0]) + after);
        lemma_cell(bodies[0], after, end);
        assert(shown =~= seq![shown[0]] + cells_of(more));
    }
}

/// The rows of a table, one after the other.
pub open spec fn all_rows(rows: Seq<Seq<Seq<Step>>>) -> Seq<Step> {
    Seq::new(rows.len(), |i: int| whole(Element::TableRow, all_cells(rows[i]))).flatten()
}

proof fn lemma_rows(rows: Seq<Seq<Seq<Step>>>, header: Seq<Cell>)
    requires
        forall|i: int| 0 <= i < rows.len() ==> are_closed(#[trigger] rows[i]),
    ensures
        render::table_parts(all_rows(rows) + seq![Step::End(Closing::Table)], 0, header) == (
            header,
            rows.map_values(|row: Seq<Seq<Step>>| cells_of(row)),
            all_rows(rows).len() as int + 1,
        ),
    decreases rows.len(),
{
    let end = seq![Step::End(Closing::Table)];
    let units = Seq::new(rows.len(), |i: int| whole(Element::TableRow, all_cells(rows[i])));
    let shown = rows.map_values(|row: Seq<Seq<Step>>| cells_of(row));
    if rows.len() == 0 {
        assert(units =~= Seq::empty());
        assert(all_rows(rows) + end =~= end);
        assert(render::table_parts(end, 0, header).1 =~= shown);
    } else {
        let more = rows.skip(1);
        let unit = whole(Element::TableRow, all_cells(rows[0]));
        lemma_rows(more, header);
        assert(units.drop_first() =~= Seq::new(
            more.len(),
            |i: int| whole(Element::TableRow, all_cells(more[i])),
        ));
        assert(units.first() == unit);
        assert(all_rows(rows) == unit + all_rows(more));
        let after = all_rows(more) + end;
        let all = all_rows(rows) + end;
        let start = seq![Step::Start(Element::TableRow)];
        let tail = all_cells(rows[0]) + seq![Step::End(Closing::TableRow)] + after;
        assert(all =~= unit + after);
        assert(all =~= start + tail);
        lemma_cells(rows[0], Closing::TableRow, after);
        lemma_shift_cells(start, tail, 0, Closing::TableRow);
        lemma_shift_table(unit, after, 0, header);
        assert(shown =~= seq![cells_of(rows[0])] + more.map_values(
            |row: Seq<Seq<Step>>| cells_of(row),
        ));
    }
}

/// A table is shown with its head and all its rows in their order, and each row with all its cells in
/// their order, each from what it encloses.
pub proof fn tables_are_shown(
    aligns: Vec<ColumnAlign>,
    head: Seq<Seq<Step>>,
    rows: Seq<Seq<Seq<Step>>>,
    inline: bool,
)
    requires
        are_closed(head),
        forall|i: int| 0 <= i < rows.len() ==> are_closed(#[trigger] rows[i]),
    ensures
        markdown::rendered(
            whole(
                Element::Table(aligns),
                whole(Element::TableHead, all_cells(head)) + all_rows(rows),
            ),
            inline,
        ) == table::table_markup(
            aligns@,
            cells_of(head),
            rows.map_values(|row: Seq<Seq<Step>>| cells_of(row)),
        ),
{
    let opened = Element::Table(aligns);
    let top = whole(Element::TableHead, all_cells(head));
    let after = all_rows(rows) + seq![Step::End(Closing::Table)];
    let tail = top + after;
    let steps = whole(opened, top + all_rows(rows));
    let start = seq![Step::Start(Element::TableHead)];
    let inside = all_cells(head) + seq![Step::End(Closing::TableHead)] + after;
    assert(steps =~= seq![Step::Start(opened)] + tail);
    assert(tail =~= start + inside);
    lemma_cells(head, Closing::TableHead, after);
    lemma_shift_cells(start, inside, 0, Closing::TableHead);
    lemma_rows(rows, cells_of(head));
    lemma_shift_table(top, after, 0, cells_of(head));
    lemma_shift_table(seq![Step::Start(opened)], tail, 0, Seq::empty());
    lemma_only(steps, opened, inline);
}

proof fn lemma_html_lines(steps: Seq<Step>, pos: int, lines: Seq<String>)
    requires
        0 <= pos,
        steps.len() == pos + lines.len() + 1,
        forall|i: int| 0 <= i < lines.len() ==> steps[pos + i] == Step::Html(#[trigger] lines[i]),
        steps.last() == Step::End(Closing::HtmlBlock),
    ensures
        render::block_text(steps, pos, Closing::HtmlBlock) == (
            Seq::new(lines.len(), |i: int| lines[i]@).flatten(),
            steps.len() as int,
        ),
        render::as_written(steps, pos) == Seq::new(
            lines.len(),
            |i: int| "#text("@ + escape::quoted_text(lines[i]@) + ")"@,
        ).flatten(),
    decreases lines.len(),
{
    let texts = Seq::new(lines.len(), |i: int| lines[i]@);
    let shown = Seq::new(
        lines.len(),
        |i: int| "#text("@ + escape::quoted_text(lines[i]@) + ")"@,
    );
    if lines.len() == 0 {
        assert(texts =~= Seq::empty());
        assert(shown =~= Seq::empty());
    } else {
        let rest = lines.skip(1);
        assert(steps[pos + 0] == Step::Html(lines[0]));
        assert forall|i: int| 0 <= i < rest.len() implies steps[pos + 1 + i] == Step::Html(
            #[trigger] rest[i],
        ) by {
            assert(rest[i] == lines[i + 1]);
            assert(steps[pos + (i + 1)] == Step::Html(lines[i + 1]));
        }
        lemma_html_lines(steps, pos + 1, rest);
        assert(texts.drop_first() =~= Seq::new(rest.len(), |i: int| rest[i]@));
        assert(shown.drop_first() =~= Seq::new(
            rest.len(),
            |i: int| "#text("@ + escape::quoted_text(rest[i]@) + ")"@,
        ));
        assert(texts.first() == lines[0]@);
        assert(texts.flatten() == texts.first() + texts.drop_first().flatten());
        assert(shown.flatten() == shown.first() + shown.drop_first().flatten());
    }
}

/// An HTML block in which no tag means anything is shown line by line as it is written; any other is
/// taken as one piece of HTML, and what it opens is closed behind it.
pub proof fn html_blocks_are_shown(lines: Seq<String>, inline: bool)
    ensures
        ({
            let source = Seq::new(lines.len(), |i: int| lines[i]@).flatten();
            let shown = markdown::rendered(
                whole(Element::HtmlBlock, lines.map_values(|line: String| Step::Html(line))),
                inline,
            );
            if html::is_plain(source, 0, Seq::empty()) {
                shown == Seq::new(
                    lines.len(),
                    |i: int| "#text("@ + escape::quoted_text(lines[i]@) + ")"@,
                ).flatten()
            } else {
                shown == html::html(source, Seq::empty()).0 + html::closings(
                    html::html(source, Seq::empty()).1,
                )
            }
        }),
{
    let steps = whole(Element::HtmlBlock, lines.map_values(|line: String| Step::Html(line)));
    lemma_html_lines(steps, 1, lines);
    let (markup, now_open) = render::html_block(steps, 1, Seq::empty());
    assert(html::closings(Seq::empty()) =~= Seq::<char>::empty());
    lemma_after(steps, 0, steps.len() as int, None, inline, now_open);
    assert(markup + Seq::<char>::empty() =~= markup);
    assert(markdown::rendered(steps, inline) =~= markup + html::closings(now_open));
}

proof fn lemma_through(
    first: Seq<Step>,
    second: Seq<Step>,
    pos: int,
    inline: bool,
    open: Seq<Span>,
)
    requires
        0 <= pos <= first.len(),
        !holds_html(first),
        left_open(first, pos, Seq::empty()) is Some,
    ensures
        render::content(first + second, pos, None, inline, open).0 == render::content(
            first,
            pos,
            None,
            inline,
            Seq::empty(),
        ).0 + render::content(second, 0, None, inline, open).0,
    decreases first.len() - pos,
{
    let all = first + second;
    let none = Seq::<Span>::empty();
    let last = render::content(second, 0, None, inline, open).0;
    if pos == first.len() {
        lemma_shift_content(first, second, 0, None, inline, open);
        assert(html::closings(none) =~= Seq::<char>::empty());
        assert(Seq::<char>::empty() + last =~= last);
    } else {
        assert(all[pos] == first[pos]);
        assert(!(first[pos] is Html));
        assert(first[pos] != Step::Start(Element::HtmlBlock));
        match first[pos] {
            Step::Start(opened) => {
                let inner = enclosed_by(opened);
                lemma_end(first, pos + 1, inner);
                let end = end_from(first, pos + 1, inner)->0;
                lemma_front(first, second, pos + 1, inner);
                lemma_same_element(first, pos + 1, all, pos + 1, opened, inline);
                let markup = render::element(first, pos + 1, opened, inline).0;
                lemma_through(first, second, end + 1, inline, open);
                lemma_after(first, pos, end + 1, None, inline, none);
                lemma_after(all, pos, end + 1, None, inline, open);
                let rest = render::content(first, end + 1, None, inline, none).0;
                lemma_three(markup, rest, last);
            },
            Step::End(_) => lemma_through(first, second, pos + 1, inline, open),
            other => {
                lemma_through(first, second, pos + 1, inline, open);
                let rest = render::content(first, pos + 1, None, inline, none).0;
                lemma_three(render::leaf(other), rest, last);
            },
        }
    }
}

/// What stands between two pieces of HTML is rendered as it would be without them, between what the
/// first shows and what the second shows; the second closes what the first has opened, and what is
/// left open is closed behind it.
pub proof fn html_goes_around_what_it_encloses(
    first: String,
    body: Seq<Step>,
    second: String,
    inline: bool,
)
    requires
        !holds_html(body),
        left_open(body, 0, Seq::empty()) is Some,
    ensures
        ({
            let (before, open) = html::html(first@, Seq::empty());
            let (after, left) = html::html(second@, open);
            markdown::rendered(
                seq![Step::Html(first)] + body + seq![Step::Html(second)],
                inline,
            ) == before + markdown::rendered(body, inline) + after + html::closings(left)
        }),
{
    let start = seq![Step::Html(first)];
    let end = seq![Step::Html(second)];
    let all = start + body + end;
    let (before, open) = html::html(first@, Seq::empty());
    let (after, left) = html::html(second@, open);
    assert(all =~= start + (body + end));
    assert(all[0] == Step::Html(first));
    lemma_shift_content(start, body + end, 0, None, inline, open);
    lemma_through(body, end, 0, inline, open);
    assert(render::content(end, 1, None, inline, left).0 == html::closings(left));
    assert(render::content(end, 0, None, inline, open).0 == after + html::closings(left));
    assert(markdown::rendered(all, inline) =~= before + markdown::rendered(body, inline) + after
        + html::closings(left));
}

/// What the parser reports within a line is shown for what it is.
pub proof fn events_are_shown(event: pulldown_cmark::Event<'_>, step: Step, inline: bool)
    requires
        event::is_step(event, step),
    ensures
        ({
            let shown = markdown::rendered(seq![step], inline);
            match event {
                pulldown_cmark::Event::Text(s) => shown == "#text("@ + escape::quoted_text(
                    event::cow_text(s),
                ) + ")"@,
                pulldown_cmark::Event::Code(s) => shown == "#raw("@ + escape::quoted_text(
                    event::cow_text(s),
                ) + ")"@,
                pulldown_cmark::Event::InlineMath(s) => shown == "#text("@ + escape::quoted_text(
                    "$"@ + event::cow_text(s) + "$"@,
                ) + ")"@,
                pulldown_cmark::Event::DisplayMath(s) => shown == "#text("@ + escape::quoted_text(
                    "$$"@ + event::cow_text(s) + "$$"@,
                ) + ")"@,
                pulldown_cmark::Event::FootnoteReference(s) => shown == "#text("@
                    + escape::quoted_text("["@ + event::cow_text(s) + "]"@) + ")"@,
                pulldown_cmark::Event::SoftBreak => shown == "#text(\" \")"@,
                pulldown_cmark::Event::HardBreak => shown == "#linebreak()"@,
                pulldown_cmark::Event::Rule => shown
                    == "\n#line(length: 100%, stroke: 0.5pt)\n"@,
                pulldown_cmark::Event::TaskListMarker(true) => shown == "#text(\"\u{2611} \")"@,
                pulldown_cmark::Event::TaskListMarker(false) => shown == "#text(\"\u{2610} \")"@,
                pulldown_cmark::Event::Html(s) => step matches Step::Html(text) && text@
                    == event::cow_text(s),
                pulldown_cmark::Event::InlineHtml(s) => step matches Step::Html(text) && text@
                    == event::cow_text(s),
                pulldown_cmark::Event::Start(_) => step is Start,
                pulldown_cmark::Event::End(_) => shown == Seq::<char>::empty(),
            }
        }),
{
    if !(step is Start) && !(step is Html) {
        single_steps_are_shown(step, inline);
    }
}

/// What the parser opens is shown by the function of Typst that belongs to it.
pub proof fn tags_are_shown(
    tag: pulldown_cmark::Tag<'_>,
    opened: Element,
    body: Seq<Step>,
    inline: bool,
)
    requires
        event::is_element(tag, opened),
        enclosed_by(opened) is Content,
        is_closed(opened, body),
    ensures
        ({
            let text = markdown::rendered(body, true);
            let blocks = markdown::rendered(body, false);
            let shown = markdown::rendered(whole(opened, body), inline);
            match tag {
                pulldown_cmark::Tag::Paragraph => shown == if inline {
                    text
                } else {
                    text + "\n\n"@
                },
                pulldown_cmark::Tag::Heading { level, .. } => shown == "\n#heading(level: "@
                    + chars::decimal(event::level_number(level) as nat) + ")["@ + text
                    + "]\n\n"@,
                pulldown_cmark::Tag::BlockQuote(_) => shown == "\n#quote(block: true)["@ + blocks
                    + "]\n\n"@,
                pulldown_cmark::Tag::Emphasis => shown == "#emph["@ + text + "]"@,
                pulldown_cmark::Tag::Strong => shown == "#strong["@ + text + "]"@,
                pulldown_cmark::Tag::Strikethrough => shown == "#strike["@ + text + "]"@,
                pulldown_cmark::Tag::Link { dest_url, .. } => shown == "#link("@
                    + escape::quoted_text(event::cow_text(dest_url)) + ")["@ + text + "]"@,
                pulldown_cmark::Tag::Image { dest_url, .. } => shown == if chars::begins_with(
                    event::cow_text(dest_url),
                    "http://"@,
                ) || chars::begins_with(event::cow_text(dest_url), "https://"@) {
                    text
                } else {
                    "#image("@ + escape::quoted_text(event::cow_text(dest_url))
                        + ", width: 100%)"@
                },
                pulldown_cmark::Tag::FootnoteDefinition(label) => shown == "\n#footnote["@ + blocks
                    + "] "@ + "#text("@ + escape::quoted_text(event::cow_text(label)) + ")"@
                    + "\n"@,
                _ => true,
            }
        }),
{
    elements_are_shown(opened, body, inline);
}

} // verus!

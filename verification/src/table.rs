//! Tables: how the cells of a Markdown table are laid out.
use vstd::prelude::*;

use crate::chars::{chars_of, push_decimal, string_of, trim};
use crate::escape::text;
use crate::event::ColumnAlign;
#[allow(unused_imports)]
use crate::{chars, escape, html};

verus! {

/// A table cell: its markup, and its text without markup.
#[derive(Debug)]
pub struct TableCell {
    pub markup: String,
    pub plain: String,
}

/// What a table cell holds.
pub struct Cell {
    pub markup: Seq<char>,
    pub plain: Seq<char>,
}

impl View for TableCell {
    type V = Cell;

    open spec fn view(&self) -> Cell {
        Cell { markup: self.markup@, plain: self.plain@ }
    }
}

/// What the cells of a row hold.
pub open spec fn cells_view(row: Seq<TableCell>) -> Seq<Cell> {
    row.map_values(|cell: TableCell| cell@)
}

/// What the rows of a table hold.
pub open spec fn rows_view(rows: Seq<Vec<TableCell>>) -> Seq<Seq<Cell>> {
    rows.map_values(|row: Vec<TableCell>| cells_view(row@))
}

/// Whether a character may stand in a measured value.
pub open spec fn is_metric_char(c: char) -> bool {
    html::is_digit(c) || c == '.' || c == ',' || c == '/' || c == '%' || c == '\u{b1}' || c == '-'
        || c == '\u{2212}' || c == ' '
}

/// Whether a text is a measured value: digits with the signs that go with them, and at least one
/// digit.
pub open spec fn is_metric(plain: Seq<char>) -> bool {
    let value = chars::trimmed(plain);
    &&& exists|i: int| 0 <= i < value.len() && html::is_digit(#[trigger] value[i])
    &&& forall|i: int| 0 <= i < value.len() ==> is_metric_char(#[trigger] value[i])
}

/// The index of the last ` /` before `to`.
pub open spec fn last_slash(s: Seq<char>, to: int) -> Option<int>
    decreases to,
{
    if to < 2 {
        None
    } else if s[to - 2] == ' ' && s[to - 1] == '/' {
        Some(to - 2)
    } else {
        last_slash(s, to - 1)
    }
}

/// Whether a text consists of ASCII digits.
pub open spec fn all_digits(s: Seq<char>) -> bool {
    forall|i: int| 0 <= i < s.len() ==> html::is_digit(#[trigger] s[i])
}

/// The markup of a header cell. A denominator such as the ` /160` of `Score /160` goes on a line
/// of its own.
pub open spec fn header_of(cell: Cell) -> Seq<char> {
    let plain = cell.plain;
    match last_slash(plain, plain.len() as int) {
        Some(at) if at > 0 && at + 2 < plain.len() && all_digits(plain.skip(at + 2)) => {
            escape::text_markup(plain.take(at)) + "#linebreak()"@ + escape::text_markup(
                "/"@ + plain.skip(at + 2),
            )
        },
        _ => cell.markup,
    }
}

fn are_digits(chars: &Vec<char>, from: usize) -> (answer: bool)
    requires
        from <= chars@.len(),
    ensures
        answer == all_digits(chars@.skip(from as int)),
{
    let mut i: usize = from;
    while i < chars.len()
        invariant
            from <= i <= chars@.len(),
            forall|j: int| from <= j < i ==> html::is_digit(#[trigger] chars@[j]),
        decreases chars@.len() - i,
    {
        if !('0' <= chars[i] && chars[i] <= '9') {
            assert(!html::is_digit(chars@.skip(from as int)[i - from]));
            return false;
        }
        i += 1;
    }
    true
}

impl TableCell {
    /// Tells whether the cell holds a measured value.
    pub fn metric(&self) -> (answer: bool)
        ensures
            answer == is_metric(self@.plain),
    {
        let value = trim(self.plain.as_str());
        let chars = chars_of(value.as_str());
        let mut digit_seen = false;
        let mut i: usize = 0;
        while i < chars.len()
            invariant
                chars@ == chars::trimmed(self.plain@),
                i <= chars@.len(),
                digit_seen <==> exists|j: int|
                    0 <= j < i && html::is_digit(#[trigger] chars@[j]),
                forall|j: int| 0 <= j < i ==> is_metric_char(#[trigger] chars@[j]),
            decreases chars@.len() - i,
        {
            let c = chars[i];
            if '0' <= c && c <= '9' {
                digit_seen = true;
                assert(html::is_digit(chars@[i as int]));
            } else if !(c == '.' || c == ',' || c == '/' || c == '%' || c == '\u{b1}' || c == '-'
                || c == '\u{2212}' || c == ' ') {
                assert(!is_metric_char(chars@[i as int]));
                return false;
            }
            i += 1;
        }
        digit_seen
    }

    /// The markup of the cell where it stands in the header.
    pub fn header_markup(&self) -> (markup: String)
        ensures
            markup@ == header_of(self@),
    {
        let chars = chars_of(self.plain.as_str());
        let mut to: usize = chars.len();
        while to >= 2 && !(chars[to - 2] == ' ' && chars[to - 1] == '/')
            invariant
                chars@ == self.plain@,
                to <= chars@.len(),
                last_slash(chars@, chars@.len() as int) == last_slash(chars@, to as int),
            decreases to,
        {
            to -= 1;
        }
        if to > 2 && to < chars.len() && are_digits(&chars, to) {
            let mut markup = text(string_of(&chars, 0, to - 2).as_str());
            markup.append("#linebreak()");
            let mut denominator = String::new();
            denominator.append("/");
            denominator.append(string_of(&chars, to, chars.len()).as_str());
            assert(denominator@ =~= "/"@ + chars@.skip(to as int));
            assert(chars@.subrange(0, to - 2) =~= chars@.take(to - 2));
            markup.append(text(denominator.as_str()).as_str());
            return markup;
        }
        self.markup.clone()
    }
}

/// The number of columns of a table.
pub open spec fn column_count(aligns: Seq<ColumnAlign>, header: Seq<Cell>) -> nat {
    let widest = if aligns.len() >= header.len() {
        aligns.len()
    } else {
        header.len()
    };
    if widest >= 1 {
        widest
    } else {
        1
    }
}

/// Whether a row holds a label and then measured values only.
pub open spec fn is_metric_row(row: Seq<Cell>, columns: nat) -> bool {
    &&& row.len() == columns
    &&& forall|i: int| 1 <= i < row.len() ==> is_metric((#[trigger] row[i]).plain)
}

/// Whether a table holds measured values: more than one column, at least one row, and labels in
/// the first column only.
pub open spec fn is_metric_table(columns: nat, rows: Seq<Seq<Cell>>) -> bool {
    &&& columns > 1
    &&& rows.len() > 0
    &&& forall|i: int| 0 <= i < rows.len() ==> is_metric_row(#[trigger] rows[i], columns)
}

/// The weight that a row asks for a column: the length of its text there, from 12 to 48.
pub open spec fn cell_weight(row: Seq<Cell>, column: int) -> nat {
    if column >= row.len() || row[column].plain.len() <= 12 {
        12
    } else if row[column].plain.len() >= 48 {
        48
    } else {
        row[column].plain.len()
    }
}

/// The weight of a column: the largest that the header or a row asks for.
pub open spec fn column_weight(header: Seq<Cell>, rows: Seq<Seq<Cell>>, column: int) -> nat
    decreases rows.len(),
{
    if rows.len() == 0 {
        cell_weight(header, column)
    } else {
        let above = column_weight(header, rows.drop_last(), column);
        let here = cell_weight(rows.last(), column);
        if here >= above {
            here
        } else {
            above
        }
    }
}

/// The widths of the columns up to `columns`, as Typst fractions.
pub open spec fn weights(header: Seq<Cell>, rows: Seq<Seq<Cell>>, columns: nat) -> Seq<char>
    decreases columns,
{
    if columns == 0 {
        Seq::empty()
    } else {
        weights(header, rows, (columns - 1) as nat) + chars::decimal(
            column_weight(header, rows, columns - 1),
        ) + "fr, "@
    }
}

/// A text, so many times.
pub open spec fn repeated(s: Seq<char>, times: nat) -> Seq<char>
    decreases times,
{
    if times == 0 {
        Seq::empty()
    } else {
        repeated(s, (times - 1) as nat) + s
    }
}

/// The `columns` argument of a table, and with it the inset of a table of measured values.
pub open spec fn columns_markup(header: Seq<Cell>, rows: Seq<Seq<Cell>>, columns: nat) -> Seq<
    char,
> {
    if is_metric_table(columns, rows) {
        "1fr, "@ + repeated("auto, "@, (columns - 1) as nat) + "),\n  inset: (x: 4pt, y: 3pt),"@
    } else {
        weights(header, rows, columns) + "),"@
    }
}

/// How the alignment of a column is written.
pub open spec fn align_markup(aligns: Seq<ColumnAlign>, column: int) -> Seq<char> {
    if column < aligns.len() && aligns[column] == ColumnAlign::Right {
        "right, "@
    } else if column < aligns.len() && aligns[column] == ColumnAlign::Center {
        "center, "@
    } else {
        "left, "@
    }
}

/// The alignments of the columns up to `columns`.
pub open spec fn aligns_markup(aligns: Seq<ColumnAlign>, columns: nat) -> Seq<char>
    decreases columns,
{
    if columns == 0 {
        Seq::empty()
    } else {
        aligns_markup(aligns, (columns - 1) as nat) + align_markup(aligns, columns - 1)
    }
}

/// The cells of the header up to `count`. Above measured values they are centred.
pub open spec fn header_cells(header: Seq<Cell>, metric: bool, count: nat) -> Seq<char>
    decreases count,
{
    if count == 0 {
        Seq::empty()
    } else {
        let column = (count - 1) as nat;
        header_cells(header, metric, column) + (if metric && column > 0 {
            "table.cell(align: center)["@
        } else {
            "["@
        }) + header_of(header[column as int]) + "], "@
    }
}

/// The cells of a row up to `count`.
pub open spec fn row_cells(row: Seq<Cell>, count: nat) -> Seq<char>
    decreases count,
{
    if count == 0 {
        Seq::empty()
    } else {
        row_cells(row, (count - 1) as nat) + "  ["@ + row[count - 1].markup + "],\n"@
    }
}

/// The cells of the rows up to `count`.
pub open spec fn body_cells(rows: Seq<Seq<Cell>>, count: nat) -> Seq<char>
    decreases count,
{
    if count == 0 {
        Seq::empty()
    } else {
        body_cells(rows, (count - 1) as nat) + row_cells(rows[count - 1], rows[count - 1].len())
    }
}

/// The markup of a table.
pub open spec fn table_markup(
    aligns: Seq<ColumnAlign>,
    header: Seq<Cell>,
    rows: Seq<Seq<Cell>>,
) -> Seq<char> {
    let columns = column_count(aligns, header);
    "\n#table(\n  columns: ("@ + columns_markup(header, rows, columns) + "\n  align: ("@
        + aligns_markup(aligns, columns) + "),\n  table.hline(stroke: 0.7pt),\n  table.header("@
        + header_cells(header, is_metric_table(columns, rows), header.len())
        + "),\n  table.hline(stroke: 0.45pt),\n"@ + body_cells(rows, rows.len())
        + "  table.hline(stroke: 0.7pt),\n)\n\n"@
}

fn has_metric_rows(rows: &Vec<Vec<TableCell>>, columns: usize) -> (answer: bool)
    ensures
        answer == is_metric_table(columns as nat, rows_view(rows@)),
{
    if columns <= 1 || rows.len() == 0 {
        return false;
    }
    let mut i: usize = 0;
    while i < rows.len()
        invariant
            columns > 1,
            i <= rows@.len(),
            forall|k: int|
                0 <= k < i ==> is_metric_row(#[trigger] rows_view(rows@)[k], columns as nat),
        decreases rows@.len() - i,
    {
        let row = &rows[i];
        let ghost view = rows_view(rows@)[i as int];
        assert(view == cells_view(row@));
        if row.len() != columns {
            assert(!is_metric_row(view, columns as nat));
            return false;
        }
        let mut j: usize = 1;
        while j < row.len()
            invariant
                i < rows@.len(),
                view == rows_view(rows@)[i as int],
                view == cells_view(row@),
                row@.len() == columns,
                columns > 1,
                1 <= j <= row@.len(),
                forall|k: int| 1 <= k < j ==> is_metric((#[trigger] view[k]).plain),
            decreases row@.len() - j,
        {
            if !row[j].metric() {
                assert(!is_metric(view[j as int].plain));
                assert(!is_metric_row(view, columns as nat));
                return false;
            }
            j += 1;
        }
        assert(is_metric_row(view, columns as nat));
        i += 1;
    }
    true
}

fn weight_of(row: &Vec<TableCell>, column: usize) -> (weight: u64)
    ensures
        weight == cell_weight(cells_view(row@), column as int),
{
    if column < row.len() {
        let length = chars_of(row[column].plain.as_str()).len();
        if length <= 12 {
            12
        } else if length >= 48 {
            48
        } else {
            length as u64
        }
    } else {
        12
    }
}

fn widest(header: &Vec<TableCell>, rows: &Vec<Vec<TableCell>>, column: usize) -> (weight: u64)
    ensures
        weight == column_weight(cells_view(header@), rows_view(rows@), column as int),
{
    let mut weight = weight_of(header, column);
    let mut i: usize = 0;
    while i < rows.len()
        invariant
            i <= rows@.len(),
            weight == column_weight(
                cells_view(header@),
                rows_view(rows@).take(i as int),
                column as int,
            ),
        decreases rows@.len() - i,
    {
        let here = weight_of(&rows[i], column);
        assert(rows_view(rows@).take(i + 1).drop_last() =~= rows_view(rows@).take(i as int));
        if here >= weight {
            weight = here;
        }
        i += 1;
    }
    assert(rows_view(rows@).take(i as int) =~= rows_view(rows@));
    weight
}

/// Lays out a table.
pub fn render_table(
    aligns: &Vec<ColumnAlign>,
    header: &Vec<TableCell>,
    rows: &Vec<Vec<TableCell>>,
) -> (markup: String)
    ensures
        markup@ == table_markup(aligns@, cells_view(header@), rows_view(rows@)),
{
    let ghost head = cells_view(header@);
    let ghost body = rows_view(rows@);
    let mut columns: usize = 1;
    if aligns.len() > columns {
        columns = aligns.len();
    }
    if header.len() > columns {
        columns = header.len();
    }
    assert(columns == column_count(aligns@, head));
    let metric = has_metric_rows(rows, columns);
    let mut out = String::new();
    out.append("\n#table(\n  columns: (");
    let ghost start = out@;
    if metric {
        out.append("1fr, ");
        let mut column: usize = 1;
        while column < columns
            invariant
                1 <= column <= columns,
                out@ =~= start + "1fr, "@ + repeated("auto, "@, (column - 1) as nat),
            decreases columns - column,
        {
            out.append("auto, ");
            column += 1;
        }
        out.append("),\n  inset: (x: 4pt, y: 3pt),");
    } else {
        let mut column: usize = 0;
        while column < columns
            invariant
                column <= columns,
                head == cells_view(header@),
                body == rows_view(rows@),
                out@ =~= start + weights(head, body, column as nat),
            decreases columns - column,
        {
            push_decimal(&mut out, widest(header, rows, column));
            out.append("fr, ");
            column += 1;
        }
        out.append("),");
    }
    assert(out@ =~= start + columns_markup(head, body, columns as nat));
    out.append("\n  align: (");
    let ghost start = out@;
    let mut column: usize = 0;
    while column < columns
        invariant
            column <= columns,
            out@ =~= start + aligns_markup(aligns@, column as nat),
        decreases columns - column,
    {
        if column < aligns.len() && aligns[column] == ColumnAlign::Right {
            out.append("right, ");
        } else if column < aligns.len() && aligns[column] == ColumnAlign::Center {
            out.append("center, ");
        } else {
            out.append("left, ");
        }
        column += 1;
    }
    out.append("),\n  table.hline(stroke: 0.7pt),\n  table.header(");
    let ghost start = out@;
    let mut column: usize = 0;
    while column < header.len()
        invariant
            column <= header@.len(),
            head == cells_view(header@),
            out@ =~= start + header_cells(head, metric, column as nat),
        decreases header@.len() - column,
    {
        if metric && column > 0 {
            out.append("table.cell(align: center)[");
        } else {
            out.append("[");
        }
        out.append(header[column].header_markup().as_str());
        out.append("], ");
        column += 1;
    }
    out.append("),\n  table.hline(stroke: 0.45pt),\n");
    let ghost start = out@;
    let mut i: usize = 0;
    while i < rows.len()
        invariant
            i <= rows@.len(),
            body == rows_view(rows@),
            out@ =~= start + body_cells(body, i as nat),
        decreases rows@.len() - i,
    {
        let row = &rows[i];
        let ghost line = out@;
        let mut j: usize = 0;
        while j < row.len()
            invariant
                i < rows@.len(),
                row@ == rows@[i as int]@,
                body == rows_view(rows@),
                j <= row@.len(),
                out@ =~= line + row_cells(body[i as int], j as nat),
            decreases row@.len() - j,
        {
            out.append("  [");
            out.append(row[j].markup.as_str());
            out.append("],\n");
            j += 1;
        }
        i += 1;
    }
    out.append("  table.hline(stroke: 0.7pt),\n)\n\n");
    out
}

proof fn lemma_last_slash(s: Seq<char>, at: int, to: int)
    requires
        0 <= at,
        at + 2 <= to <= s.len(),
        s[at] == ' ',
        s[at + 1] == '/',
        forall|i: int| at + 2 <= i < to ==> html::is_digit(#[trigger] s[i]),
    ensures
        last_slash(s, to) == Some(at),
    decreases to,
{
    if at + 2 < to {
        assert(html::is_digit(s[to - 1]));
        lemma_last_slash(s, at, to - 1);
    }
}

/// In the head of a table a denominator goes on a line of its own.
pub proof fn denominators_go_on_their_own_line(
    markup: Seq<char>,
    label: Seq<char>,
    denominator: Seq<char>,
)
    requires
        label.len() > 0,
        denominator.len() > 0,
        all_digits(denominator),
    ensures
        header_of(Cell { markup, plain: label + seq![' ', '/'] + denominator })
            == escape::text_markup(label) + "#linebreak()"@ + escape::text_markup(
            "/"@ + denominator,
        ),
{
    let plain = label + seq![' ', '/'] + denominator;
    let at = label.len() as int;
    assert forall|i: int| at + 2 <= i < plain.len() implies html::is_digit(#[trigger] plain[i]) by {
        assert(plain[i] == denominator[i - at - 2]);
    }
    lemma_last_slash(plain, at, plain.len() as int);
    assert(plain.take(at) =~= label);
    assert(plain.skip(at + 2) =~= denominator);
}

/// A column is between 12 and 48 parts wide, and no narrower than any of its cells asks for.
pub proof fn columns_hold_their_cells(
    header: Seq<Cell>,
    rows: Seq<Seq<Cell>>,
    column: int,
    row: int,
)
    requires
        0 <= column,
        0 <= row < rows.len(),
    ensures
        12 <= column_weight(header, rows, column) <= 48,
        cell_weight(header, column) <= column_weight(header, rows, column),
        cell_weight(rows[row], column) <= column_weight(header, rows, column),
    decreases rows.len(),
{
    let above = rows.drop_last();
    if above.len() > 0 {
        if row < above.len() {
            columns_hold_their_cells(header, above, column, row);
            assert(above[row] == rows[row]);
        } else {
            columns_hold_their_cells(header, above, column, 0);
        }
    } else {
        assert(column_weight(header, above, column) == cell_weight(header, column));
    }
}

/// The columns of a table are written from left to right: the first of a table of measured values
/// takes the room that the others leave, and those of any other table share the width by their
/// weights.
pub proof fn columns_are_written_in_order(header: Seq<Cell>, rows: Seq<Seq<Cell>>, columns: nat)
    ensures
        is_metric_table(columns, rows) ==> columns_markup(header, rows, columns) == Seq::new(
            columns,
            |i: int|
                if i == 0 {
                    "1fr, "@
                } else {
                    "auto, "@
                },
        ).flatten() + "),\n  inset: (x: 4pt, y: 3pt),"@,
        !is_metric_table(columns, rows) ==> columns_markup(header, rows, columns) == Seq::new(
            columns,
            |i: int| chars::decimal(column_weight(header, rows, i)) + "fr, "@,
        ).flatten() + "),"@,
{
    if is_metric_table(columns, rows) {
        lemma_metric_columns(columns);
    } else {
        lemma_weights(header, rows, columns);
    }
}

proof fn lemma_metric_columns(columns: nat)
    requires
        columns > 0,
    ensures
        "1fr, "@ + repeated("auto, "@, (columns - 1) as nat) == Seq::new(
            columns,
            |i: int|
                if i == 0 {
                    "1fr, "@
                } else {
                    "auto, "@
                },
        ).flatten(),
    decreases columns,
{
    let f = |i: int|
        if i == 0 {
            "1fr, "@
        } else {
            "auto, "@
        };
    chars::lemma_flatten_new((columns - 1) as nat, f);
    chars::lemma_flatten_new(0, f);
    if columns > 1 {
        lemma_metric_columns((columns - 1) as nat);
    }
    assert("1fr, "@ + repeated("auto, "@, (columns - 1) as nat) =~= Seq::new(columns, f).flatten());
}

proof fn lemma_weights(header: Seq<Cell>, rows: Seq<Seq<Cell>>, columns: nat)
    ensures
        weights(header, rows, columns) == Seq::new(
            columns,
            |i: int| chars::decimal(column_weight(header, rows, i)) + "fr, "@,
        ).flatten(),
    decreases columns,
{
    let f = |i: int| chars::decimal(column_weight(header, rows, i)) + "fr, "@;
    chars::lemma_flatten_new(0, f);
    if columns > 0 {
        lemma_weights(header, rows, (columns - 1) as nat);
        chars::lemma_flatten_new((columns - 1) as nat, f);
    }
    assert(weights(header, rows, columns) =~= Seq::new(columns, f).flatten());
}

proof fn lemma_aligns(aligns: Seq<ColumnAlign>, columns: nat)
    ensures
        aligns_markup(aligns, columns) == Seq::new(
            columns,
            |i: int|
                if i < aligns.len() && aligns[i] is Right {
                    "right, "@
                } else if i < aligns.len() && aligns[i] is Center {
                    "center, "@
                } else {
                    "left, "@
                },
        ).flatten(),
    decreases columns,
{
    let f = |i: int|
        if i < aligns.len() && aligns[i] is Right {
            "right, "@
        } else if i < aligns.len() && aligns[i] is Center {
            "center, "@
        } else {
            "left, "@
        };
    chars::lemma_flatten_new(0, f);
    if columns > 0 {
        lemma_aligns(aligns, (columns - 1) as nat);
        chars::lemma_flatten_new((columns - 1) as nat, f);
    }
    assert(aligns_markup(aligns, columns) =~= Seq::new(columns, f).flatten());
}

proof fn lemma_header_cells(header: Seq<Cell>, metric: bool, count: nat)
    requires
        count <= header.len(),
    ensures
        header_cells(header, metric, count) == Seq::new(
            count,
            |i: int|
                (if metric && i > 0 {
                    "table.cell(align: center)["@
                } else {
                    "["@
                }) + header_of(header[i]) + "], "@,
        ).flatten(),
    decreases count,
{
    let f = |i: int|
        (if metric && i > 0 {
            "table.cell(align: center)["@
        } else {
            "["@
        }) + header_of(header[i]) + "], "@;
    chars::lemma_flatten_new(0, f);
    if count > 0 {
        lemma_header_cells(header, metric, (count - 1) as nat);
        chars::lemma_flatten_new((count - 1) as nat, f);
    }
    assert(header_cells(header, metric, count) =~= Seq::new(count, f).flatten());
}

proof fn lemma_row_cells(row: Seq<Cell>, count: nat)
    requires
        count <= row.len(),
    ensures
        row_cells(row, count) == Seq::new(
            count,
            |i: int| "  ["@ + row[i].markup + "],\n"@,
        ).flatten(),
    decreases count,
{
    let f = |i: int| "  ["@ + row[i].markup + "],\n"@;
    chars::lemma_flatten_new(0, f);
    if count > 0 {
        lemma_row_cells(row, (count - 1) as nat);
        chars::lemma_flatten_new((count - 1) as nat, f);
    }
    assert(row_cells(row, count) =~= Seq::new(count, f).flatten());
}

proof fn lemma_body_cells(rows: Seq<Seq<Cell>>, count: nat)
    requires
        count <= rows.len(),
    ensures
        body_cells(rows, count) == Seq::new(
            count,
            |i: int|
                Seq::new(
                    rows[i].len(),
                    |j: int| "  ["@ + rows[i][j].markup + "],\n"@,
                ).flatten(),
        ).flatten(),
    decreases count,
{
    let f = |i: int|
        Seq::new(rows[i].len(), |j: int| "  ["@ + rows[i][j].markup + "],\n"@).flatten();
    chars::lemma_flatten_new(0, f);
    if count > 0 {
        let row = rows[count - 1];
        lemma_body_cells(rows, (count - 1) as nat);
        lemma_row_cells(row, row.len());
        chars::lemma_flatten_new((count - 1) as nat, f);
        assert(Seq::new(row.len(), |i: int| "  ["@ + row[i].markup + "],\n"@) =~= Seq::new(
            row.len(),
            |j: int| "  ["@ + rows[count - 1][j].markup + "],\n"@,
        ));
    }
    assert(body_cells(rows, count) =~= Seq::new(count, f).flatten());
}

/// A table has as many columns as its head or its alignments, whichever are more, and at least one.
/// It is written from top to bottom and from left to right: the columns, their alignments, the head,
/// and then the cells of the rows, each row after those above it and each cell after those to the
/// left of it.
pub proof fn tables_are_written_in_order(
    aligns: Seq<ColumnAlign>,
    header: Seq<Cell>,
    rows: Seq<Seq<Cell>>,
    columns: nat,
)
    requires
        columns >= 1,
        columns >= aligns.len(),
        columns >= header.len(),
        columns == 1 || columns == aligns.len() || columns == header.len(),
    ensures
        table_markup(aligns, header, rows) == "\n#table(\n  columns: ("@ + columns_markup(
            header,
            rows,
            columns,
        ) + "\n  align: ("@ + Seq::new(
            columns,
            |i: int|
                if i < aligns.len() && aligns[i] is Right {
                    "right, "@
                } else if i < aligns.len() && aligns[i] is Center {
                    "center, "@
                } else {
                    "left, "@
                },
        ).flatten() + "),\n  table.hline(stroke: 0.7pt),\n  table.header("@ + Seq::new(
            header.len(),
            |i: int|
                (if is_metric_table(columns, rows) && i > 0 {
                    "table.cell(align: center)["@
                } else {
                    "["@
                }) + header_of(header[i]) + "], "@,
        ).flatten() + "),\n  table.hline(stroke: 0.45pt),\n"@ + Seq::new(
            rows.len(),
            |i: int|
                Seq::new(
                    rows[i].len(),
                    |j: int| "  ["@ + rows[i][j].markup + "],\n"@,
                ).flatten(),
        ).flatten() + "  table.hline(stroke: 0.7pt),\n)\n\n"@,
{
    lemma_aligns(aligns, columns);
    lemma_header_cells(header, is_metric_table(columns, rows), header.len());
    lemma_body_cells(rows, rows.len());
    assert(column_count(aligns, header) == columns);
}

/// A head cell is shown otherwise than its markup says only if it ends in a denominator: a label,
/// a space, a slash and digits.
pub proof fn other_heads_are_shown_as_they_are(cell: Cell)
    ensures
        header_of(cell) == cell.markup || exists|at: int|
            {
                &&& 0 < at
                &&& at + 2 < cell.plain.len()
                &&& #[trigger] cell.plain[at] == ' '
                &&& cell.plain[at + 1] == '/'
                &&& forall|i: int|
                    at + 2 <= i < cell.plain.len() ==> '0' <= #[trigger] cell.plain[i] <= '9'
                &&& header_of(cell) == escape::text_markup(cell.plain.take(at)) + "#linebreak()"@
                    + escape::text_markup("/"@ + cell.plain.skip(at + 2))
            },
{
    let plain = cell.plain;
    lemma_slash_stands(plain, plain.len() as int);
    if header_of(cell) != cell.markup {
        let at = last_slash(plain, plain.len() as int)->0;
        assert(plain[at] == ' ');
        assert forall|i: int| at + 2 <= i < plain.len() implies '0' <= #[trigger] plain[i]
            <= '9' by {
            assert(html::is_digit(plain.skip(at + 2)[i - at - 2]));
        }
    }
}

proof fn lemma_slash_stands(s: Seq<char>, to: int)
    requires
        to <= s.len(),
    ensures
        last_slash(s, to) matches Some(at) ==> 0 <= at && at + 2 <= to && s[at] == ' ' && s[at + 1]
            == '/',
    decreases to,
{
    if to >= 2 && !(s[to - 2] == ' ' && s[to - 1] == '/') {
        lemma_slash_stands(s, to - 1);
    }
}

/// A table holds measured values if it has several columns and a row, and each row has a cell for
/// each column, all of which but the first are measured values; and only then.
pub proof fn metric_tables_have_full_rows(columns: nat, rows: Seq<Seq<Cell>>)
    ensures
        is_metric_table(columns, rows) ==> columns >= 2 && rows.len() >= 1 && forall|
            i: int,
            j: int,
        |
            0 <= i < rows.len() && 1 <= j < columns ==> rows[i].len() == columns && is_metric(
                (#[trigger] rows[i][j]).plain,
            ),
        columns >= 2 && rows.len() >= 1 && (forall|i: int|
            0 <= i < rows.len() ==> (#[trigger] rows[i]).len() == columns) && (forall|
            i: int,
            j: int,
        |
            0 <= i < rows.len() && 1 <= j < columns ==> is_metric((#[trigger] rows[i][j]).plain))
            ==> is_metric_table(columns, rows),
{
    if is_metric_table(columns, rows) {
        assert forall|i: int, j: int| 0 <= i < rows.len() && 1 <= j < columns implies rows[i].len()
            == columns && is_metric((#[trigger] rows[i][j]).plain) by {
            assert(is_metric_row(rows[i], columns));
        }
    }
    if columns >= 2 && rows.len() >= 1 && (forall|i: int|
        0 <= i < rows.len() ==> (#[trigger] rows[i]).len() == columns) && (forall|i: int, j: int|
        0 <= i < rows.len() && 1 <= j < columns ==> is_metric((#[trigger] rows[i][j]).plain)) {
        assert forall|i: int| 0 <= i < rows.len() implies is_metric_row(
            #[trigger] rows[i],
            columns,
        ) by {
            assert(rows[i].len() == columns);
            assert forall|j: int| 1 <= j < rows[i].len() implies is_metric(
                (#[trigger] rows[i][j]).plain,
            ) by {}
        }
    }
}

/// A measured value has a digit, and besides white space around it nothing but digits and the signs
/// of numbers; a text of these with a digit is a measured value.
pub proof fn measured_values_are_numbers(plain: Seq<char>)
    ensures
        is_metric(plain) <==> is_metric(chars::trimmed(plain)),
        is_metric(plain) && chars::trimmed(plain) == plain ==> forall|i: int|
            0 <= i < plain.len() && chars::white_space(#[trigger] plain[i]) ==> plain[i] == ' ',
        is_metric(plain) ==> exists|i: int| 0 <= i < plain.len() && '0' <= #[trigger] plain[i] <= '9',
        is_metric(plain) ==> forall|i: int|
            0 <= i < plain.len() && !chars::white_space(#[trigger] plain[i]) ==> '0' <= plain[i]
                <= '9' || plain[i] == '.' || plain[i] == ',' || plain[i] == '/' || plain[i] == '%'
                || plain[i] == '\u{b1}' || plain[i] == '-' || plain[i] == '\u{2212}',
        (exists|i: int| 0 <= i < plain.len() && '0' <= #[trigger] plain[i] <= '9') && (forall|i: int|
            0 <= i < plain.len() ==> '0' <= #[trigger] plain[i] <= '9' || plain[i] == '.'
                || plain[i] == ',' || plain[i] == '/' || plain[i] == '%' || plain[i] == '\u{b1}'
                || plain[i] == '-' || plain[i] == '\u{2212}' || plain[i] == ' ')
            ==> is_metric(plain),
{
    chars::trimming_takes_the_ends_off(plain);
    let value = chars::trimmed(plain);
    assert(chars::trimmed(value) == value);
    let (before, after) = choose|before: Seq<char>, after: Seq<char>|
        #![trigger before + value + after]
        plain == before + value + after && chars::is_blank(before) && chars::is_blank(after);
    let start = before.len();
    assert(forall|i: int| 0 <= i < value.len() ==> #[trigger] value[i] == plain[start + i]);
    assert(forall|i: int|
        0 <= i < plain.len() && !chars::white_space(#[trigger] plain[i]) ==> start <= i < start
            + value.len()) by {
        assert forall|i: int| 0 <= i < plain.len() && !chars::white_space(
            #[trigger] plain[i],
        ) implies start <= i < start + value.len() by {
            if i < start {
                assert(plain[i] == before[i]);
            } else if i >= start + value.len() {
                assert(plain[i] == after[i - start - value.len()]);
            }
        }
    }
    if is_metric(plain) {
        let i = choose|i: int| 0 <= i < value.len() && html::is_digit(#[trigger] value[i]);
        assert('0' <= plain[start + i] <= '9');
        assert forall|i: int| 0 <= i < plain.len() && !chars::white_space(
            #[trigger] plain[i],
        ) implies is_metric_char(plain[i]) && plain[i] != ' ' by {
            assert(value[i - start] == plain[i]);
        }
    }
    if (exists|i: int| 0 <= i < plain.len() && '0' <= #[trigger] plain[i] <= '9') && (forall|i: int|
        0 <= i < plain.len() ==> '0' <= #[trigger] plain[i] <= '9' || plain[i] == '.' || plain[i]
            == ',' || plain[i] == '/' || plain[i] == '%' || plain[i] == '\u{b1}' || plain[i] == '-'
            || plain[i] == '\u{2212}' || plain[i] == ' ') {
        let i = choose|i: int| 0 <= i < plain.len() && '0' <= #[trigger] plain[i] <= '9';
        assert(!chars::white_space(plain[i]));
        assert(html::is_digit(value[i - start]));
    }
}

/// The weight of a column is the largest length of a text in it, but at least 12 and at most 48.
pub proof fn weights_are_lengths(header: Seq<Cell>, rows: Seq<Seq<Cell>>, column: int)
    requires
        0 <= column,
    ensures
        12 <= column_weight(header, rows, column) <= 48,
        column < header.len() ==> header[column].plain.len() <= column_weight(header, rows, column)
            || column_weight(header, rows, column) == 48,
        forall|i: int|
            0 <= i < rows.len() && column < (#[trigger] rows[i]).len() ==> rows[i][column].plain.len()
                <= column_weight(header, rows, column) || column_weight(header, rows, column) == 48,
        column_weight(header, rows, column) > 12 ==> (column < header.len()
            && header[column].plain.len() >= column_weight(header, rows, column)) || exists|i: int|
            0 <= i < rows.len() && column < (#[trigger] rows[i]).len()
                && rows[i][column].plain.len() >= column_weight(header, rows, column),
    decreases rows.len(),
{
    if rows.len() > 0 {
        let above = rows.drop_last();
        let last = rows.len() - 1;
        weights_are_lengths(header, above, column);
        let weight = column_weight(header, rows, column);
        assert forall|i: int| 0 <= i < rows.len() && column < (
        #[trigger] rows[i]).len() implies rows[i][column].plain.len() <= weight || weight == 48 by {
            if i < last {
                assert(above[i] == rows[i]);
            }
        }
        if weight > 12 {
            if weight == cell_weight(rows.last(), column) {
                assert(column < rows[last].len());
            } else if !(column < header.len() && header[column].plain.len() >= weight) {
                let i = choose|i: int|
                    0 <= i < above.len() && column < (#[trigger] above[i]).len()
                        && above[i][column].plain.len() >= weight;
                assert(rows[i] == above[i]);
            }
        }
    }
}

} // verus!

//! The search bar at the bottom of the window.
use font8x8::UnicodeFonts;
use vstd::prelude::*;

use crate::canvas::set_pixel;
use crate::chars::chars_of;
#[allow(unused_imports)]
use crate::canvas;

verus! {

/// The rows of a character in font8x8's font for basic Latin, if it has the character. The lowest
/// bit of a row is its leftmost pixel.
pub uninterp spec fn basic_font(c: char) -> Option<Seq<u8>>;

/// The rows of a character in font8x8's font for the Latin-1 supplement.
pub uninterp spec fn latin_font(c: char) -> Option<Seq<u8>>;

/// The rows of a character in font8x8's font for Greek.
pub uninterp spec fn greek_font(c: char) -> Option<Seq<u8>>;

/// The rows that a lookup found.
pub open spec fn rows_of(found: Option<[u8; 8]>) -> Option<Seq<u8>> {
    match found {
        Some(rows) => Some(rows@),
        None => None,
    }
}

/// `get` of font8x8's `BASIC_FONTS` looks up [`basic_font`].
#[verifier::external_body]
fn basic_rows(c: char) -> (rows: Option<[u8; 8]>)
    ensures
        rows_of(rows) == basic_font(c),
{
    font8x8::BASIC_FONTS.get(c)
}

/// `get` of font8x8's `LATIN_FONTS` looks up [`latin_font`].
#[verifier::external_body]
fn latin_rows(c: char) -> (rows: Option<[u8; 8]>)
    ensures
        rows_of(rows) == latin_font(c),
{
    font8x8::LATIN_FONTS.get(c)
}

/// `get` of font8x8's `GREEK_FONTS` looks up [`greek_font`].
#[verifier::external_body]
fn greek_rows(c: char) -> (rows: Option<[u8; 8]>)
    ensures
        rows_of(rows) == greek_font(c),
{
    font8x8::GREEK_FONTS.get(c)
}

/// The rows of a character in the first font that has it; those of a question mark if none does.
pub open spec fn glyph(c: char) -> Option<Seq<u8>> {
    if basic_font(c) is Some {
        basic_font(c)
    } else if latin_font(c) is Some {
        latin_font(c)
    } else if greek_font(c) is Some {
        greek_font(c)
    } else {
        basic_font('?')
    }
}

/// Looks up the rows of a character.
pub fn glyph_rows(c: char) -> (rows: Option<[u8; 8]>)
    ensures
        rows_of(rows) == glyph(c),
{
    if let Some(rows) = basic_rows(c) {
        return Some(rows);
    }
    if let Some(rows) = latin_rows(c) {
        return Some(rows);
    }
    if let Some(rows) = greek_rows(c) {
        return Some(rows);
    }
    basic_rows('?')
}

/// The glyphs of the characters of a text.
pub open spec fn glyphs(label: Seq<char>) -> Seq<Option<Seq<u8>>> {
    label.map_values(|c: char| glyph(c))
}

/// The rows that several lookups found.
pub open spec fn all_rows(found: Seq<Option<[u8; 8]>>) -> Seq<Option<Seq<u8>>> {
    found.map_values(|rows: Option<[u8; 8]>| rows_of(rows))
}

/// The colours of the bar, of its upper edge and of the text.
pub const BAR: u32 = 0x191c21;

pub const EDGE: u32 = 0xebb754;

pub const INK: u32 = 0xf2f1eb;

/// The height of the bar.
pub const BAR_HEIGHT: u32 = 24;

/// The row at which the bar begins in a window of the given height.
pub open spec fn bar_top(height: u32) -> int {
    if height > BAR_HEIGHT {
        height - BAR_HEIGHT
    } else {
        0
    }
}

/// How many characters the bar takes in a window of the given width.
pub open spec fn capacity(width: u32) -> int {
    if width > 24 {
        (width - 24) / 16
    } else {
        0
    }
}

/// Whether bit `column` of a row is set.
pub open spec fn is_set(row: u8, column: u8) -> bool {
    row & (1u8 << column) != 0
}

/// Whether a glyph has ink at a position.
pub open spec fn has_ink(rows: Option<Seq<u8>>, column: int, row: int) -> bool {
    rows is Some && is_set(rows->0[row], column as u8)
}

/// Whether the text of the bar has ink at a position of the window. Each pixel of a glyph is two
/// pixels wide and two pixels high.
pub open spec fn is_ink(list: Seq<Option<Seq<u8>>>, size: (u32, u32), x: int, y: int) -> bool {
    let column = x - 12;
    let row = y - (bar_top(size.1) + 4);
    &&& 0 <= column
    &&& 0 <= row < 16
    &&& column / 16 < list.len()
    &&& column / 16 < capacity(size.0)
    &&& has_ink(list[column / 16], column % 16 / 2, row / 2)
}

/// The pixel of the window at a position once the bar lies over it.
pub open spec fn under_bar(
    list: Seq<Option<Seq<u8>>>,
    size: (u32, u32),
    x: int,
    y: int,
    before: u32,
) -> u32 {
    if y < bar_top(size.1) {
        before
    } else if is_ink(list, size, x, y) {
        INK
    } else if y == bar_top(size.1) {
        EDGE
    } else {
        BAR
    }
}

/// The window with the search bar over it, which shows the given glyphs.
pub open spec fn with_bar(pixels: Seq<u32>, size: (u32, u32), list: Seq<Option<Seq<u8>>>) -> Seq<
    u32,
> {
    canvas::redrawn(
        pixels,
        size.0,
        |x: int, y: int, before: u32| under_bar(list, size, x, y, before),
    )
}

/// The colour of the bar at a position.
fn bar_pixel(list: &Vec<Option<[u8; 8]>>, size: (u32, u32), x: usize, y: usize) -> (value: u32)
    requires
        x < size.0,
        bar_top(size.1) <= y < size.1,
    ensures
        forall|before: u32| #[trigger]
            under_bar(all_rows(list@), size, x as int, y as int, before) == value,
{
    let top: usize = size.1.saturating_sub(BAR_HEIGHT) as usize;
    let capacity: usize = (size.0.saturating_sub(24) / 16) as usize;
    if x >= 12 && y - top >= 4 && y - top - 4 < 16 {
        let place: usize = (x - 12) / 16;
        let column: u8 = ((x - 12) % 16 / 2) as u8;
        let row: usize = (y - top - 4) / 2;
        if place < list.len() && place < capacity {
            if let Some(rows) = &list[place] {
                if rows[row] & (1u8 << column) != 0 {
                    return INK;
                }
            }
        }
    }
    if y == top {
        EDGE
    } else {
        BAR
    }
}

/// Draws the search bar with the given glyphs.
pub fn draw_glyphs(buffer: &mut [u32], size: (u32, u32), list: &Vec<Option<[u8; 8]>>)
    requires
        canvas::has_size(old(buffer)@, size),
    ensures
        final(buffer)@ == with_bar(old(buffer)@, size, all_rows(list@)),
        canvas::has_size(final(buffer)@, size),
{
    let top: usize = size.1.saturating_sub(BAR_HEIGHT) as usize;
    let ghost width = size.0 as int;
    let ghost before = buffer@;
    let ghost f = |x: int, y: int, before: u32| under_bar(all_rows(list@), size, x, y, before);
    let mut y: usize = top;
    while y < size.1 as usize
        invariant
            canvas::has_size(buffer@, size),
            width == size.0,
            top == bar_top(size.1),
            top <= y <= size.1,
            f == (|x: int, y: int, before: u32| under_bar(all_rows(list@), size, x, y, before)),
            forall|a: int, b: int|
                0 <= a < size.0 && 0 <= b < size.1 ==> #[trigger] canvas::pixel(
                    buffer@,
                    width,
                    a,
                    b,
                ) == if b < y {
                    f(a, b, canvas::pixel(before, width, a, b))
                } else {
                    canvas::pixel(before, width, a, b)
                },
        decreases size.1 - y,
    {
        let mut x: usize = 0;
        while x < size.0 as usize
            invariant
                canvas::has_size(buffer@, size),
                width == size.0,
                top == bar_top(size.1),
                top <= y < size.1,
                x <= size.0,
                f == (|x: int, y: int, before: u32|
                    under_bar(all_rows(list@), size, x, y, before)),
                forall|a: int, b: int|
                    0 <= a < size.0 && 0 <= b < size.1 ==> #[trigger] canvas::pixel(
                        buffer@,
                        width,
                        a,
                        b,
                    ) == if b < y || (b == y && a < x) {
                        f(a, b, canvas::pixel(before, width, a, b))
                    } else {
                        canvas::pixel(before, width, a, b)
                    },
            decreases size.0 - x,
        {
            let value: u32 = bar_pixel(list, size, x, y);
            set_pixel(buffer, size, x, y, value);
            x += 1;
        }
        y += 1;
    }
    proof {
        canvas::lemma_redrawn(before, buffer@, size, f);
        assert(with_bar(before, size, all_rows(list@)) =~= canvas::redrawn(before, size.0, f));
    }
}

/// Draws the search bar with a text, as far as it fits.
pub fn draw_search_bar(buffer: &mut [u32], size: (u32, u32), label: &str)
    requires
        canvas::has_size(old(buffer)@, size),
    ensures
        final(buffer)@ == with_bar(old(buffer)@, size, glyphs(label@)),
        canvas::has_size(final(buffer)@, size),
{
    let list = chars_of(label);
    let mut found: Vec<Option<[u8; 8]>> = Vec::new();
    let mut i: usize = 0;
    while i < list.len()
        invariant
            i <= list@.len(),
            list@ == label@,
            found@.len() == i,
            forall|k: int|
                0 <= k < i ==> rows_of(#[trigger] found@[k]) == glyph(label@[k]),
        decreases list@.len() - i,
    {
        found.push(glyph_rows(list[i]));
        i += 1;
    }
    assert(all_rows(found@) =~= glyphs(label@));
    draw_glyphs(buffer, size, &found);
}

/// The search bar covers the lowest rows of the window and nothing else.
pub proof fn bar_covers_the_lowest_rows(
    pixels: Seq<u32>,
    size: (u32, u32),
    list: Seq<Option<Seq<u8>>>,
    x: int,
    y: int,
)
    requires
        canvas::has_size(pixels, size),
        0 <= x < size.0,
        0 <= y < size.1,
    ensures
        y + BAR_HEIGHT < size.1 ==> canvas::pixel(
            with_bar(pixels, size, list),
            size.0 as int,
            x,
            y,
        ) == canvas::pixel(pixels, size.0 as int, x, y),
        y + BAR_HEIGHT >= size.1 ==> ({
            let p = canvas::pixel(with_bar(pixels, size, list), size.0 as int, x, y);
            p == BAR || p == EDGE || p == INK
        }),
{
    canvas::lemma_index(size, x, y);
}

/// The bar is 24 rows high, or as high as the window. Its text begins twelve pixels from the left
/// and four rows below its upper edge, with sixteen pixels for each character, of which each pixel
/// of the font takes two by two; the lowest bit of a row of the font is its leftmost pixel. Only
/// characters that leave twelve pixels on the right are shown. Where the text has no ink, the upper
/// edge has its own colour, and the rest that of the bar.
pub proof fn bars_show_their_text(
    pixels: Seq<u32>,
    size: (u32, u32),
    list: Seq<Option<Seq<u8>>>,
    x: int,
    y: int,
)
    requires
        canvas::has_size(pixels, size),
        0 <= x < size.0,
        0 <= y < size.1,
        y + 24 >= size.1,
    ensures
        ({
            let top = if size.1 > 24 {
                size.1 - 24
            } else {
                0
            };
            let place = (x - 12) / 16;
            let row = (y - top - 4) / 2;
            let column = ((x - 12) % 16 / 2) as u8;
            let shown = canvas::pixel(with_bar(pixels, size, list), size.0 as int, x, y);
            if 12 <= x && top + 4 <= y < top + 20 && place < list.len() && 12 + 16 * (place + 1)
                <= size.0 - 12 && list[place] is Some && list[place]->0[row] & (1u8 << column)
                != 0 {
                shown == 0xf2f1eb
            } else if y == top {
                shown == 0xebb754
            } else {
                shown == 0x191c21
            }
        }),
{
    canvas::lemma_index(size, x, y);
}

/// Each character is shown in the first font that has it, basic Latin before the Latin-1 supplement
/// and that before Greek, and as a question mark if none does.
pub proof fn characters_are_shown_in_order(label: Seq<char>, i: int)
    requires
        0 <= i < label.len(),
    ensures
        glyphs(label).len() == label.len(),
        basic_font(label[i]) is Some ==> glyphs(label)[i] == basic_font(label[i]),
        basic_font(label[i]) is None && latin_font(label[i]) is Some ==> glyphs(label)[i]
            == latin_font(label[i]),
        basic_font(label[i]) is None && latin_font(label[i]) is None && greek_font(label[i]) is Some
            ==> glyphs(label)[i] == greek_font(label[i]),
        basic_font(label[i]) is None && latin_font(label[i]) is None && greek_font(label[i]) is None
            ==> glyphs(label)[i] == basic_font('?'),
{
}

} // verus!

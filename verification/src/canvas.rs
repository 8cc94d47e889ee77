//! Pixels: the window's buffer and the image of a page.
//!
//! A pixel is a number of the form `0xRRGGBB`. A picture is stored row by row from the top.
use vstd::prelude::*;

verus! {

/// A position in a picture that is `width` pixels wide.
pub open spec fn index_of(width: int, x: int, y: int) -> int {
    y * width + x
}

/// The pixel at a position.
pub open spec fn pixel(pixels: Seq<u32>, width: int, x: int, y: int) -> u32 {
    pixels[index_of(width, x, y)]
}

/// Whether a picture has the given size.
pub open spec fn has_size(pixels: Seq<u32>, size: (u32, u32)) -> bool {
    pixels.len() == size.0 * size.1
}

/// A pixel with the given colour.
pub open spec fn colour(red: int, green: int, blue: int) -> u32 {
    (red * 0x10000 + green * 0x100 + blue) as u32
}

/// The parts of a pixel's colour.
pub open spec fn red_of(p: u32) -> int {
    (p / 0x10000) as int % 0x100
}

pub open spec fn green_of(p: u32) -> int {
    (p / 0x100) as int % 0x100
}

pub open spec fn blue_of(p: u32) -> int {
    p as int % 0x100
}

/// Positions within a picture have indices within it, and different positions have different
/// indices.
pub proof fn lemma_index(size: (u32, u32), x: int, y: int)
    requires
        0 <= x < size.0,
        0 <= y < size.1,
    ensures
        0 <= index_of(size.0 as int, x, y) < size.0 * size.1,
        index_of(size.0 as int, x, y) / size.0 as int == y,
        index_of(size.0 as int, x, y) % size.0 as int == x,
{
    let width = size.0 as int;
    let height = size.1 as int;
    assert(0 <= y * width + x < width * height) by (nonlinear_arith)
        requires
            0 <= x < width,
            0 <= y < height,
    ;
    vstd::arithmetic::div_mod::lemma_fundamental_div_mod_converse(y * width + x, width, y, x);
}

/// Each index of a picture belongs to a position within it.
pub proof fn lemma_position(size: (u32, u32), i: int)
    requires
        0 <= i < size.0 * size.1,
    ensures
        0 <= i % size.0 as int,
        i % (size.0 as int) < size.0,
        0 <= i / size.0 as int,
        i / (size.0 as int) < size.1,
        i == index_of(size.0 as int, i % size.0 as int, i / size.0 as int),
{
    let width = size.0 as int;
    let height = size.1 as int;
    assert(width > 0) by (nonlinear_arith)
        requires
            0 <= i < width * height,
            0 <= width,
    ;
    vstd::arithmetic::div_mod::lemma_fundamental_div_mod(i, width);
    vstd::arithmetic::div_mod::lemma_mod_bound(i, width);
    let y = i / width;
    let x = i % width;
    assert(width * y == y * width) by (nonlinear_arith);
    assert(0 <= y < height) by (nonlinear_arith)
        requires
            i == y * width + x,
            0 <= x < width,
            0 <= i < width * height,
    ;
}

/// The picture in which each pixel is what `f` makes of its position and its colour.
pub open spec fn redrawn(
    pixels: Seq<u32>,
    width: u32,
    f: spec_fn(int, int, u32) -> u32,
) -> Seq<u32> {
    Seq::new(
        pixels.len(),
        |i: int| f(i % width as int, i / width as int, pixels[i]),
    )
}

/// A picture is redrawn once each of its positions is.
pub proof fn lemma_redrawn(
    before: Seq<u32>,
    after: Seq<u32>,
    size: (u32, u32),
    f: spec_fn(int, int, u32) -> u32,
)
    requires
        has_size(before, size),
        has_size(after, size),
        forall|x: int, y: int|
            0 <= x < size.0 && 0 <= y < size.1 ==> #[trigger] pixel(after, size.0 as int, x, y)
                == f(x, y, pixel(before, size.0 as int, x, y)),
    ensures
        after == redrawn(before, size.0, f),
{
    assert forall|i: int| 0 <= i < after.len() implies after[i] == #[trigger] redrawn(
        before,
        size.0,
        f,
    )[i] by {
        lemma_position(size, i);
        let x = i % size.0 as int;
        let y = i / size.0 as int;
        assert(pixel(after, size.0 as int, x, y) == f(x, y, pixel(before, size.0 as int, x, y)));
    }
    assert(after =~= redrawn(before, size.0, f));
}

/// Sets the pixel at a position.
pub fn set_pixel(buffer: &mut [u32], size: (u32, u32), x: usize, y: usize, value: u32)
    requires
        has_size(old(buffer)@, size),
        x < size.0,
        y < size.1,
    ensures
        has_size(final(buffer)@, size),
        forall|a: int, b: int|
            0 <= a < size.0 && 0 <= b < size.1 ==> #[trigger] pixel(
                final(buffer)@,
                size.0 as int,
                a,
                b,
            ) == if a == x && b == y {
                value
            } else {
                pixel(old(buffer)@, size.0 as int, a, b)
            },
{
    let width: usize = size.0 as usize;
    let length: usize = buffer.len();
    proof {
        lemma_index(size, x as int, y as int);
        assert(y * width <= y * width + x);
        assert forall|a: int, b: int| 0 <= a < size.0 && 0 <= b < size.1 implies 0
            <= #[trigger] index_of(size.0 as int, a, b) < length && (index_of(size.0 as int, a, b)
            == index_of(size.0 as int, x as int, y as int) ==> a == x && b == y) by {
            lemma_index(size, a, b);
        }
    }
    buffer[y * width + x] = value;
}

/// Reads the pixel at a position.
pub fn get_pixel(pixels: &[u32], size: (u32, u32), x: usize, y: usize) -> (value: u32)
    requires
        has_size(pixels@, size),
        x < size.0,
        y < size.1,
    ensures
        value == pixel(pixels@, size.0 as int, x as int, y as int),
{
    let width: usize = size.0 as usize;
    let length: usize = pixels.len();
    proof {
        lemma_index(size, x as int, y as int);
        assert(y * width <= y * width + x);
    }
    pixels[y * width + x]
}

/// The pixel of the colour with parts below 256.
pub fn pack(red: u32, green: u32, blue: u32) -> (p: u32)
    requires
        red < 0x100,
        green < 0x100,
        blue < 0x100,
    ensures
        p == colour(red as int, green as int, blue as int),
{
    red * 0x10000 + green * 0x100 + blue
}

/// The colour around the page.
pub const BACKGROUND: u32 = 0x24262b;

/// Fills the window with the colour around the page.
pub fn clear(buffer: &mut [u32])
    ensures
        final(buffer)@.len() == old(buffer)@.len(),
        forall|i: int| 0 <= i < final(buffer)@.len() ==> #[trigger] final(buffer)@[i] == BACKGROUND,
{
    let length: usize = buffer.len();
    let mut i: usize = 0;
    while i < length
        invariant
            i <= length == buffer@.len() == old(buffer)@.len(),
            forall|k: int| 0 <= k < i ==> #[trigger] buffer@[k] == BACKGROUND,
        decreases length - i,
    {
        buffer[i] = BACKGROUND;
        i += 1;
    }
}

/// A page in the size in which it is shown.
#[derive(Debug)]
pub struct Raster {
    pub width: u32,
    pub height: u32,
    pub pixels: Vec<u32>,
}

impl Raster {
    /// The pixels fill the raster.
    pub open spec fn wf(self) -> bool {
        has_size(self.pixels@, (self.width, self.height))
    }
}

/// Half of a difference, rounded towards zero.
pub open spec fn half(difference: int) -> int {
    if difference < 0 {
        -((-difference) / 2)
    } else {
        difference / 2
    }
}

/// Where a page that is `length` long begins in a window that is `window` long, if it is moved by
/// `pan` from the middle.
pub open spec fn page_start(window: u32, length: u32, pan: i32) -> int {
    half(window - length) + pan
}

/// Tells where the page begins in the window.
pub fn page_offset(window: u32, length: u32, pan: i32) -> (start: i64)
    ensures
        start == page_start(window, length, pan),
{
    let half: i64 = if window < length {
        -((length - window) as i64 / 2)
    } else {
        (window - length) as i64 / 2
    };
    half + pan as i64
}

/// The pixel of the window at a position once the page lies over it.
pub open spec fn covered(raster: Raster, left: int, top: int, x: int, y: int, before: u32) -> u32 {
    if left <= x < left + raster.width && top <= y < top + raster.height {
        pixel(raster.pixels@, raster.width as int, x - left, y - top)
    } else {
        before
    }
}

/// The window after the page has been drawn, with its middle moved by `pan` from the middle of the
/// window.
pub open spec fn with_page(
    pixels: Seq<u32>,
    size: (u32, u32),
    raster: Raster,
    pan: (i32, i32),
) -> Seq<u32> {
    let left = page_start(size.0, raster.width, pan.0);
    let top = page_start(size.1, raster.height, pan.1);
    redrawn(
        pixels,
        size.0,
        |x: int, y: int, before: u32| covered(raster, left, top, x, y, before),
    )
}

/// A coordinate kept between zero and `limit`.
pub open spec fn clipped(value: int, limit: u32) -> int {
    if value < 0 {
        0
    } else if value > limit {
        limit as int
    } else {
        value
    }
}

/// Keeps a coordinate between zero and `limit`.
fn clip(value: i64, limit: u32) -> (result: usize)
    ensures
        result == clipped(value as int, limit),
{
    if value < 0 {
        0
    } else if value > limit as i64 {
        limit as usize
    } else {
        value as u32 as usize
    }
}

/// Draws the page.
pub fn draw_page(buffer: &mut [u32], size: (u32, u32), raster: &Raster, pan: (i32, i32))
    requires
        has_size(old(buffer)@, size),
        raster.wf(),
    ensures
        final(buffer)@ == with_page(old(buffer)@, size, *raster, pan),
{
    let x0: i64 = page_offset(size.0, raster.width, pan.0);
    let y0: i64 = page_offset(size.1, raster.height, pan.1);
    let left: usize = clip(x0, size.0);
    let top: usize = clip(y0, size.1);
    let right: usize = clip(x0 + raster.width as i64, size.0);
    let bottom: usize = clip(y0 + raster.height as i64, size.1);
    let ghost width = size.0 as int;
    let ghost before = buffer@;
    let ghost f = |x: int, y: int, before: u32|
        covered(*raster, x0 as int, y0 as int, x, y, before);
    let mut y: usize = top;
    while y < bottom
        invariant
            has_size(buffer@, size),
            raster.wf(),
            width == size.0,
            right <= size.0,
            bottom <= size.1,
            top <= y,
            y <= bottom || y == top,
            -0x1_0000_0000_0000 < x0 < 0x1_0000_0000_0000,
            -0x1_0000_0000_0000 < y0 < 0x1_0000_0000_0000,
            left == clipped(x0 as int, size.0),
            right == clipped(x0 + raster.width, size.0),
            top == clipped(y0 as int, size.1),
            bottom == clipped(y0 + raster.height, size.1),
            f == (|x: int, y: int, before: u32|
                covered(*raster, x0 as int, y0 as int, x, y, before)),
            forall|a: int, b: int|
                0 <= a < size.0 && 0 <= b < size.1 ==> #[trigger] pixel(buffer@, width, a, b)
                    == if b < y {
                    f(a, b, pixel(before, width, a, b))
                } else {
                    pixel(before, width, a, b)
                },
        decreases bottom - y,
    {
        let row: usize = (y as i64 - y0) as usize;
        let mut x: usize = left;
        while x < right
            invariant
                has_size(buffer@, size),
                raster.wf(),
                width == size.0,
                right <= size.0,
                top <= y < bottom <= size.1,
                row == y - y0,
                row < raster.height,
                left <= x,
                x <= right || x == left,
                -0x1_0000_0000_0000 < x0 < 0x1_0000_0000_0000,
                left == clipped(x0 as int, size.0),
                right == clipped(x0 + raster.width, size.0),
                top == clipped(y0 as int, size.1),
                bottom == clipped(y0 + raster.height, size.1),
                f == (|x: int, y: int, before: u32|
                    covered(*raster, x0 as int, y0 as int, x, y, before)),
                forall|a: int, b: int|
                    0 <= a < size.0 && 0 <= b < size.1 ==> #[trigger] pixel(buffer@, width, a, b)
                        == if b < y || (b == y && a < x) {
                        f(a, b, pixel(before, width, a, b))
                    } else {
                        pixel(before, width, a, b)
                    },
            decreases right - x,
        {
            assert(x0 <= x < x0 + raster.width);
            let column: usize = (x as i64 - x0) as usize;
            let value: u32 = get_pixel(
                raster.pixels.as_slice(),
                (raster.width, raster.height),
                column,
                row,
            );
            set_pixel(buffer, size, x, y, value);
            x += 1;
        }
        y += 1;
    }
    proof {
        lemma_redrawn(before, buffer@, size, f);
        assert(with_page(before, size, *raster, pan) =~= redrawn(before, size.0, f));
    }
}

/// A colour that is laid over the page, and how strongly, in percent.
#[derive(Clone, Copy, Debug, PartialEq, Eq, Structural)]
pub struct Shade {
    pub red: u8,
    pub green: u8,
    pub blue: u8,
    pub strength: u8,
}

/// A rectangle of the window. Its right and bottom edges are not part of it.
#[derive(Clone, Copy, Debug, PartialEq, Eq, Structural)]
pub struct Rect {
    pub left: usize,
    pub top: usize,
    pub right: usize,
    pub bottom: usize,
}

/// A part of a colour under a shade.
pub open spec fn mix(part: int, tint: u8, strength: u8) -> int {
    part * (100 - strength) / 100 + tint * strength / 100
}

/// A pixel under a shade.
pub open spec fn mixed(p: u32, shade: Shade) -> u32 {
    colour(
        mix(red_of(p), shade.red, shade.strength),
        mix(green_of(p), shade.green, shade.strength),
        mix(blue_of(p), shade.blue, shade.strength),
    )
}

/// Whether a position lies in a rectangle.
pub open spec fn is_inside(rect: Rect, x: int, y: int) -> bool {
    rect.left <= x < rect.right && rect.top <= y < rect.bottom
}

/// The picture with a rectangle of it shaded.
pub open spec fn shaded(pixels: Seq<u32>, width: u32, rect: Rect, shade: Shade) -> Seq<u32> {
    redrawn(
        pixels,
        width,
        |x: int, y: int, before: u32|
            if is_inside(rect, x, y) {
                mixed(before, shade)
            } else {
                before
            },
    )
}

/// Mixes a part of a colour with that of a shade.
fn mix_part(part: u32, tint: u8, strength: u8) -> (result: u32)
    requires
        part < 0x100,
        strength <= 100,
    ensures
        result == mix(part as int, tint, strength),
        result < 0x100,
{
    let keep: u32 = 100 - strength as u32;
    assert(part * keep <= 255 * keep) by (nonlinear_arith)
        requires
            part < 0x100,
            0 <= keep,
    ;
    assert(tint * strength <= 255 * strength) by (nonlinear_arith)
        requires
            tint < 0x100,
            0 <= strength,
    ;
    assert(0 <= part * keep) by (nonlinear_arith)
        requires
            0 <= part,
            0 <= keep,
    ;
    assert(0 <= tint * strength) by (nonlinear_arith)
        requires
            0 <= tint,
            0 <= strength,
    ;
    part * keep / 100 + tint as u32 * strength as u32 / 100
}

/// Lays a shade over a pixel.
fn mix_pixel(p: u32, shade: Shade) -> (result: u32)
    requires
        shade.strength <= 100,
    ensures
        result == mixed(p, shade),
{
    let red: u32 = mix_part(p / 0x10000 % 0x100, shade.red, shade.strength);
    let green: u32 = mix_part(p / 0x100 % 0x100, shade.green, shade.strength);
    let blue: u32 = mix_part(p % 0x100, shade.blue, shade.strength);
    pack(red, green, blue)
}

/// Shades a rectangle of the window, as far as it lies within it.
pub fn draw_shade(buffer: &mut [u32], size: (u32, u32), rect: Rect, shade: Shade)
    requires
        has_size(old(buffer)@, size),
        shade.strength <= 100,
    ensures
        final(buffer)@ == shaded(old(buffer)@, size.0, rect, shade),
        has_size(final(buffer)@, size),
{
    let right: usize = if rect.right < size.0 as usize {
        rect.right
    } else {
        size.0 as usize
    };
    let bottom: usize = if rect.bottom < size.1 as usize {
        rect.bottom
    } else {
        size.1 as usize
    };
    let ghost width = size.0 as int;
    let ghost before = buffer@;
    let ghost f = |x: int, y: int, before: u32|
        if is_inside(rect, x, y) {
            mixed(before, shade)
        } else {
            before
        };
    let mut y: usize = rect.top;
    while y < bottom
        invariant
            has_size(buffer@, size),
            shade.strength <= 100,
            width == size.0,
            rect.top <= y,
            y <= bottom || y == rect.top,
            right == if rect.right < size.0 {
                rect.right as int
            } else {
                size.0 as int
            },
            bottom == if rect.bottom < size.1 {
                rect.bottom as int
            } else {
                size.1 as int
            },
            f == (|x: int, y: int, before: u32|
                if is_inside(rect, x, y) {
                    mixed(before, shade)
                } else {
                    before
                }),
            forall|a: int, b: int|
                0 <= a < size.0 && 0 <= b < size.1 ==> #[trigger] pixel(buffer@, width, a, b)
                    == if b < y {
                    f(a, b, pixel(before, width, a, b))
                } else {
                    pixel(before, width, a, b)
                },
        decreases bottom - y,
    {
        let mut x: usize = rect.left;
        while x < right
            invariant
                has_size(buffer@, size),
                shade.strength <= 100,
                width == size.0,
                rect.top <= y < bottom,
                rect.left <= x,
                x <= right || x == rect.left,
                right == if rect.right < size.0 {
                    rect.right as int
                } else {
                    size.0 as int
                },
                bottom == if rect.bottom < size.1 {
                    rect.bottom as int
                } else {
                    size.1 as int
                },
                f == (|x: int, y: int, before: u32|
                    if is_inside(rect, x, y) {
                        mixed(before, shade)
                    } else {
                        before
                    }),
                forall|a: int, b: int|
                    0 <= a < size.0 && 0 <= b < size.1 ==> #[trigger] pixel(buffer@, width, a, b)
                        == if b < y || (b == y && a < x) {
                        f(a, b, pixel(before, width, a, b))
                    } else {
                        pixel(before, width, a, b)
                    },
            decreases right - x,
        {
            let value: u32 = mix_pixel(get_pixel(buffer, size, x, y), shade);
            set_pixel(buffer, size, x, y, value);
            x += 1;
        }
        y += 1;
    }
    proof {
        lemma_redrawn(before, buffer@, size, f);
        assert(shaded(before, size.0, rect, shade) =~= redrawn(before, size.0, f));
    }
}

/// Redrawing a picture gives each position what `f` makes of it.
pub proof fn redrawing_is_pointwise(
    pixels: Seq<u32>,
    size: (u32, u32),
    f: spec_fn(int, int, u32) -> u32,
    x: int,
    y: int,
)
    requires
        has_size(pixels, size),
        0 <= x < size.0,
        0 <= y < size.1,
    ensures
        pixel(redrawn(pixels, size.0, f), size.0 as int, x, y) == f(
            x,
            y,
            pixel(pixels, size.0 as int, x, y),
        ),
{
    lemma_index(size, x, y);
}

/// Shading a rectangle changes no pixel outside it.
pub proof fn shading_stays_inside(
    pixels: Seq<u32>,
    size: (u32, u32),
    rect: Rect,
    shade: Shade,
    x: int,
    y: int,
)
    requires
        has_size(pixels, size),
        0 <= x < size.0,
        0 <= y < size.1,
        !is_inside(rect, x, y),
    ensures
        pixel(shaded(pixels, size.0, rect, shade), size.0 as int, x, y) == pixel(
            pixels,
            size.0 as int,
            x,
            y,
        ),
{
    lemma_index(size, x, y);
}

/// A shade of strength zero leaves a pixel as it is, and one of full strength gives its colour.
pub proof fn shades_reach_from_nothing_to_all(p: u32, shade: Shade)
    requires
        p < 0x100_0000,
    ensures
        shade.strength == 0 ==> mixed(p, shade) == p,
        shade.strength == 100 ==> mixed(p, shade) == colour(
            shade.red as int,
            shade.green as int,
            shade.blue as int,
        ),
{
    assert(p == (p / 0x10000) * 0x10000 + (p / 0x100 % 0x100) * 0x100 + p % 0x100);
}

/// The parts of a colour can be read off its pixel.
pub proof fn colours_read_back(red: int, green: int, blue: int)
    requires
        0 <= red < 0x100,
        0 <= green < 0x100,
        0 <= blue < 0x100,
    ensures
        red_of(colour(red, green, blue)) == red,
        green_of(colour(red, green, blue)) == green,
        blue_of(colour(red, green, blue)) == blue,
{
}

/// A page that is not moved lies in the middle of the window, to the pixel.
pub proof fn page_lies_in_the_middle(window: u32, length: u32)
    ensures
        ({
            let before = page_start(window, length, 0);
            let after = window - (before + length);
            -1 <= before - after <= 1
        }),
{
}

/// Shading a rectangle mixes the shade into each pixel inside it, part by part: of the pixel as many
/// hundredths are kept as the shade leaves, and as many are added of the shade as its strength
/// tells, both rounded down.
pub proof fn shading_mixes_inside(
    pixels: Seq<u32>,
    size: (u32, u32),
    rect: Rect,
    shade: Shade,
    x: int,
    y: int,
)
    requires
        has_size(pixels, size),
        0 <= x < size.0,
        0 <= y < size.1,
        rect.left <= x < rect.right,
        rect.top <= y < rect.bottom,
    ensures
        ({
            let before = pixel(pixels, size.0 as int, x, y);
            let after = pixel(shaded(pixels, size.0, rect, shade), size.0 as int, x, y);
            let keep = 100 - shade.strength;
            after == mixed(before, shade) && after == colour(
                red_of(before) * keep / 100 + shade.red * shade.strength / 100,
                green_of(before) * keep / 100 + shade.green * shade.strength / 100,
                blue_of(before) * keep / 100 + shade.blue * shade.strength / 100,
            )
        }),
{
    lemma_index(size, x, y);
}

/// A page is drawn pixel by pixel, from its upper left corner on, and covers nothing outside it.
pub proof fn pages_are_drawn_pixel_by_pixel(
    pixels: Seq<u32>,
    size: (u32, u32),
    raster: Raster,
    pan: (i32, i32),
    x: int,
    y: int,
)
    requires
        has_size(pixels, size),
        0 <= x < size.0,
        0 <= y < size.1,
    ensures
        ({
            let column = x - page_start(size.0, raster.width, pan.0);
            let row = y - page_start(size.1, raster.height, pan.1);
            pixel(with_page(pixels, size, raster, pan), size.0 as int, x, y) == if 0 <= column
                < raster.width && 0 <= row < raster.height {
                raster.pixels@[row * raster.width + column]
            } else {
                pixel(pixels, size.0 as int, x, y)
            }
        }),
{
    lemma_index(size, x, y);
}

/// Moving the page moves its beginning by the same number of pixels.
pub proof fn pages_move_with_the_pan(window: u32, length: u32, pan: i32)
    ensures
        page_start(window, length, pan) == page_start(window, length, 0) + pan,
        length <= window ==> 0 <= page_start(window, length, 0) && page_start(window, length, 0)
            + length <= window,
        length > window ==> page_start(window, length, 0) <= 0 && page_start(window, length, 0)
            + length >= window,
{
}

} // verus!

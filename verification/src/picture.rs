//! The rendered image of a page.
use vstd::prelude::*;

use crate::canvas::{pack, Raster};
#[allow(unused_imports)]
use crate::canvas;

verus! {

/// An image with four bytes for each pixel: red, green, blue and alpha.
#[derive(Debug)]
pub struct Picture {
    pub width: u32,
    pub height: u32,
    pub data: Vec<u8>,
}

/// The longest side that an image may have to be resized. The positions at which an image is sampled
/// have single precision: up to this side they are off by a quarter of a pixel at most, so that
/// some source pixel always has a weight. For sides more than twice as long that need not be so.
pub const LONGEST_SIDE: u32 = 0x20_0000;

impl Picture {
    /// The bytes fill the image, which has at least one pixel and no side that is too long.
    pub open spec fn wf(self) -> bool {
        &&& 1 <= self.width <= LONGEST_SIDE
        &&& 1 <= self.height <= LONGEST_SIDE
        &&& self.data@.len() == self.width * self.height * 4
    }
}

/// A byte of a colour whose parts have been multiplied by its alpha, without that factor.
pub open spec fn straight(part: u8, alpha: u8) -> u8 {
    if 0 < alpha < 255 {
        let value = part * 255 / alpha as int;
        if value > 255 {
            255
        } else {
            value as u8
        }
    } else {
        part
    }
}

/// The bytes of an image whose colours have been multiplied by their alpha, without that factor.
/// Bytes after the last whole pixel stay as they are.
pub open spec fn unmultiplied(data: Seq<u8>) -> Seq<u8> {
    Seq::new(
        data.len(),
        |i: int|
            if i % 4 == 3 || i / 4 * 4 + 3 >= data.len() {
                data[i]
            } else {
                straight(data[i], data[i / 4 * 4 + 3])
            },
    )
}

/// Takes the factor alpha out of a part of a colour.
fn straighten(part: u8, alpha: u8) -> (value: u8)
    ensures
        value == straight(part, alpha),
{
    if alpha > 0 && alpha < 255 {
        let value: u32 = part as u32 * 255 / alpha as u32;
        if value > 255 {
            255
        } else {
            value as u8
        }
    } else {
        part
    }
}

/// Takes the factor alpha out of the colours of an image.
pub fn unmultiply(data: &mut Vec<u8>)
    ensures
        final(data)@ == unmultiplied(old(data)@),
{
    let ghost before = data@;
    let mut i: usize = 0;
    while data.len() - i >= 4
        invariant
            i <= data@.len() == before.len(),
            i % 4 == 0,
            forall|k: int| 0 <= k < i ==> data@[k] == #[trigger] unmultiplied(before)[k],
            forall|k: int| i <= k < before.len() ==> #[trigger] data@[k] == before[k],
        decreases data@.len() - i,
    {
        let alpha: u8 = data[i + 3];
        let red: u8 = straighten(data[i], alpha);
        let green: u8 = straighten(data[i + 1], alpha);
        let blue: u8 = straighten(data[i + 2], alpha);
        data.set(i, red);
        data.set(i + 1, green);
        data.set(i + 2, blue);
        i += 4;
    }
    assert(data@ =~= unmultiplied(before));
}

/// A part of a colour on a white ground.
pub open spec fn on_white(part: u8, alpha: u8) -> int {
    (part * alpha + 255 * (255 - alpha)) / 255
}

/// The pixels of an image on a white ground.
pub open spec fn flattened(data: Seq<u8>) -> Seq<u32> {
    Seq::new(
        data.len() / 4,
        |i: int|
            canvas::colour(
                on_white(data[4 * i], data[4 * i + 3]),
                on_white(data[4 * i + 1], data[4 * i + 3]),
                on_white(data[4 * i + 2], data[4 * i + 3]),
            ),
    )
}

/// Lays a part of a colour on a white ground.
fn blend(part: u8, alpha: u8) -> (value: u32)
    ensures
        value == on_white(part, alpha),
        value < 0x100,
{
    assert(0 <= part * alpha <= 255 * alpha) by (nonlinear_arith)
        requires
            0 <= part < 0x100,
            0 <= alpha,
    ;
    (part as u32 * alpha as u32 + 255 * (255 - alpha as u32)) / 255
}

/// Lays an image on a white ground.
pub fn flatten(data: &Vec<u8>) -> (pixels: Vec<u32>)
    ensures
        pixels@ == flattened(data@),
{
    let mut pixels: Vec<u32> = Vec::new();
    let mut i: usize = 0;
    while data.len() - i >= 4
        invariant
            i <= data@.len(),
            i == 4 * pixels@.len(),
            forall|k: int| 0 <= k < pixels@.len() ==> #[trigger] pixels@[k] == flattened(data@)[k],
        decreases data@.len() - i,
    {
        let alpha: u8 = data[i + 3];
        pixels.push(
            pack(blend(data[i], alpha), blend(data[i + 1], alpha), blend(data[i + 2], alpha)),
        );
        i += 4;
    }
    assert(pixels@ =~= flattened(data@));
    pixels
}

/// The filter with which an image is sampled.
#[verifier::external_type_specification]
pub struct ExFilterType(image::imageops::FilterType);

/// The bytes that `image::imageops::resize` with the given filter gives for an image of `width` times
/// `height` pixels that is to have `new_width` times `new_height` pixels.
pub uninterp spec fn resized(
    data: Seq<u8>,
    width: u32,
    height: u32,
    new_width: u32,
    new_height: u32,
    filter: image::imageops::FilterType,
) -> Seq<u8>;

/// `image::imageops::resize` with the filter `FilterType::Triangle` gives the bytes [`resized`], as
/// many as the new size asks for. It is left out where the image would not fit into memory: it
/// allocates sixteen bytes for each pixel of an image with the old width and the new height. The
/// other filters are left out too.
#[verifier::external_body]
fn resize(
    data: &Vec<u8>,
    width: u32,
    height: u32,
    new_width: u32,
    new_height: u32,
    filter: image::imageops::FilterType,
) -> (bytes: Vec<u8>)
    requires
        1 <= width <= LONGEST_SIDE,
        1 <= height <= LONGEST_SIDE,
        1 <= new_width <= LONGEST_SIDE,
        1 <= new_height <= LONGEST_SIDE,
        data@.len() == width * height * 4,
        width * new_height * 16 <= isize::MAX,
        new_width * new_height * 4 <= isize::MAX,
        filter is Triangle,
    ensures
        bytes@ == resized(data@, width, height, new_width, new_height, filter),
        bytes@.len() == new_width * new_height * 4,
{
    let source = image::ImageBuffer::<image::Rgba<u8>, &[u8]>::from_raw(width, height, data)
        .unwrap();
    image::imageops::resize(&source, new_width, new_height, filter).into_raw()
}

/// The pixels of an image in another size, on a white ground.
pub open spec fn rasterized(picture: Picture, width: u32, height: u32) -> Seq<u32> {
    flattened(
        resized(
            picture.data@,
            picture.width,
            picture.height,
            width,
            height,
            image::imageops::FilterType::Triangle,
        ),
    )
}

/// Brings a page to the size in which it is shown, on a white ground.
pub fn rasterize(picture: &Picture, width: u32, height: u32) -> (raster: Raster)
    requires
        picture.wf(),
        1 <= width <= LONGEST_SIDE,
        1 <= height <= LONGEST_SIDE,
        picture.width * height * 16 <= isize::MAX,
        width * height * 4 <= isize::MAX,
    ensures
        raster.wf(),
        raster.width == width,
        raster.height == height,
        raster.pixels@ == rasterized(*picture, width, height),
        raster.pixels@ == flattened(
            resized(
                picture.data@,
                picture.width,
                picture.height,
                width,
                height,
                image::imageops::FilterType::Triangle,
            ),
        ),
{
    let bytes = resize(
        &picture.data,
        picture.width,
        picture.height,
        width,
        height,
        image::imageops::FilterType::Triangle,
    );
    let pixels = flatten(&bytes);
    Raster { width, height, pixels }
}

/// An opaque colour is not changed by the ground it lies on, and a transparent one shows it.
pub proof fn white_shows_through(part: u8)
    ensures
        on_white(part, 255) == part,
        on_white(part, 0) == 255,
{
    assert(part * 255 / 255 == part);
}

/// Laid on a white ground, a colour comes out no darker than it was multiplied by its alpha.
pub proof fn ground_only_lightens(part: u8, alpha: u8)
    ensures
        part * alpha / 255 <= on_white(part, alpha) <= 255,
        on_white(part, alpha) >= part * alpha / 255 + 255 - alpha,
{
    assert(0 <= part * alpha <= 255 * alpha) by (nonlinear_arith)
        requires
            0 <= part < 0x100,
            0 <= alpha,
    ;
}

/// Taking out alpha undoes the multiplication by it, up to the rounding.
#[verifier::spinoff_prover]
pub proof fn unmultiplying_undoes(part: u8, alpha: u8)
    requires
        0 < alpha,
    ensures
        straight(((part * alpha) / 255) as u8, alpha) <= part,
        (part - straight(((part * alpha) / 255) as u8, alpha)) * alpha < 255 + alpha,
{
    assert(0 <= part * alpha <= 255 * alpha) by (nonlinear_arith)
        requires
            0 <= part < 0x100,
            0 <= alpha,
    ;
    let stored = (part * alpha) / 255;
    assert(0 <= stored < 0x100);
    if alpha < 255 {
        let value = stored * 255 / alpha as int;
        vstd::arithmetic::div_mod::lemma_fundamental_div_mod(stored * 255, alpha as int);
        vstd::arithmetic::div_mod::lemma_mod_bound(stored * 255, alpha as int);
        vstd::arithmetic::div_mod::lemma_div_pos_is_pos(stored * 255, alpha as int);
        let rest = part - value;
        assert(rest * alpha == part * alpha - alpha * value) by (nonlinear_arith)
            requires
                rest == part - value,
        ;
        assert(0 <= rest * alpha < 255 + alpha);
        assert(0 <= rest) by (nonlinear_arith)
            requires
                0 <= rest * alpha,
                0 < alpha,
        ;
    } else {
        assert(part * 255 / 255 == part);
    }
}

/// A part of a colour on a white ground is the part by its alpha and white by what is left, in 255
/// parts and rounded down.
pub proof fn colours_are_laid_on_white(part: u8, alpha: u8)
    ensures
        255 * on_white(part, alpha) <= part * alpha + 255 * (255 - alpha) < 255 * on_white(
            part,
            alpha,
        ) + 255,
{
}

/// A pixel is made of four bytes in their order: red, green and blue, and the alpha of all three.
pub proof fn pixels_are_made_of_their_bytes(data: Seq<u8>, i: int)
    requires
        0 <= 4 * i,
        4 * i + 3 < data.len(),
    ensures
        flattened(data).len() == data.len() / 4,
        canvas::red_of(flattened(data)[i]) == on_white(data[4 * i], data[4 * i + 3]),
        canvas::green_of(flattened(data)[i]) == on_white(data[4 * i + 1], data[4 * i + 3]),
        canvas::blue_of(flattened(data)[i]) == on_white(data[4 * i + 2], data[4 * i + 3]),
{
    lemma_on_white(data[4 * i], data[4 * i + 3]);
    lemma_on_white(data[4 * i + 1], data[4 * i + 3]);
    lemma_on_white(data[4 * i + 2], data[4 * i + 3]);
    canvas::colours_read_back(
        on_white(data[4 * i], data[4 * i + 3]),
        on_white(data[4 * i + 1], data[4 * i + 3]),
        on_white(data[4 * i + 2], data[4 * i + 3]),
    );
}

proof fn lemma_on_white(part: u8, alpha: u8)
    ensures
        0 <= on_white(part, alpha) < 0x100,
{
    assert(0 <= part * alpha <= 255 * alpha) by (nonlinear_arith)
        requires
            0 <= part < 0x100,
            0 <= alpha,
    ;
}

/// Taking out alpha keeps the alpha of each pixel and the bytes behind the last whole pixel, and
/// changes no colour that is opaque or has no alpha. Any other part becomes the largest number of
/// which alpha makes no more than the part, but at most 255.
pub proof fn unmultiplying_changes_colours_only(data: Seq<u8>, i: int)
    requires
        0 <= i < data.len(),
    ensures
        unmultiplied(data).len() == data.len(),
        i % 4 == 3 ==> unmultiplied(data)[i] == data[i],
        i - i % 4 + 3 >= data.len() ==> unmultiplied(data)[i] == data[i],
        i % 4 < 3 && i - i % 4 + 3 < data.len() ==> ({
            let alpha = data[i - i % 4 + 3];
            let value = unmultiplied(data)[i];
            &&& alpha == 0 || alpha == 255 ==> value == data[i]
            &&& 0 < alpha < 255 ==> value * alpha <= data[i] * 255 && (value == 255 || data[i] * 255
                < (value + 1) * alpha)
        }),
{
    let at = i - i % 4 + 3;
    assert(i / 4 * 4 + 3 == at);
    if i % 4 < 3 && at < data.len() {
        let alpha = data[at];
        if 0 < alpha < 255 {
            let whole = data[i] * 255 / alpha as int;
            vstd::arithmetic::div_mod::lemma_fundamental_div_mod(data[i] * 255, alpha as int);
            vstd::arithmetic::div_mod::lemma_mod_bound(data[i] * 255, alpha as int);
            vstd::arithmetic::div_mod::lemma_div_pos_is_pos(data[i] * 255, alpha as int);
            assert(alpha * whole == whole * alpha) by (nonlinear_arith);
            assert((whole + 1) * alpha == whole * alpha + alpha) by (nonlinear_arith);
            if whole > 255 {
                assert(255 * alpha <= whole * alpha) by (nonlinear_arith)
                    requires
                        255 < whole,
                        0 < alpha,
                ;
            }
        }
    }
}

/// Each pixel of a resized image is that of the bytes which resizing gives for it, on a white ground.
pub proof fn resized_pixels_are_laid_on_white(picture: Picture, width: u32, height: u32, i: int)
    requires
        0 <= i,
    ensures
        ({
            let bytes = resized(
                picture.data@,
                picture.width,
                picture.height,
                width,
                height,
                image::imageops::FilterType::Triangle,
            );
            let pixels = rasterized(picture, width, height);
            &&& pixels.len() == bytes.len() / 4
            &&& 4 * i + 3 < bytes.len() ==> canvas::red_of(pixels[i]) == on_white(
                bytes[4 * i],
                bytes[4 * i + 3],
            ) && canvas::green_of(pixels[i]) == on_white(bytes[4 * i + 1], bytes[4 * i + 3])
                && canvas::blue_of(pixels[i]) == on_white(bytes[4 * i + 2], bytes[4 * i + 3])
        }),
{
    let bytes = resized(
        picture.data@,
        picture.width,
        picture.height,
        width,
        height,
        image::imageops::FilterType::Triangle,
    );
    if 4 * i + 3 < bytes.len() {
        pixels_are_made_of_their_bytes(bytes, i);
    }
}

} // verus!

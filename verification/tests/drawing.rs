use tv::bar::{draw_glyphs, draw_search_bar, glyph_rows};
use tv::canvas::{clear, draw_page, draw_shade, page_offset, Raster, Rect, Shade};
use tv::paint::{paint_range, Highlight};
use tv::picture::{flatten, rasterize, unmultiply, Picture};
use tv::selection::{Fragment, TextIndex};
use tv::viewer::{Key, KeyInput, Viewer};

const GROUND: u32 = 0x24262b;

#[test]
fn alpha_is_taken_out_of_colours() {
    let mut data = vec![10, 20, 30, 255, 10, 20, 30, 0, 100, 50, 25, 128, 200, 0, 1, 100, 7, 8, 9];
    unmultiply(&mut data);
    assert_eq!(
        data,
        vec![10, 20, 30, 255, 10, 20, 30, 0, 199, 99, 49, 128, 255, 0, 2, 100, 7, 8, 9]
    );
}

#[test]
fn images_lie_on_white() {
    let data = vec![1, 2, 3, 255, 1, 2, 3, 0, 255, 0, 100, 128, 9];
    assert_eq!(flatten(&data), vec![0x010203, 0xffffff, 0xff7fb1]);
}

#[test]
fn images_of_the_same_size_are_copied() {
    let picture = Picture {
        width: 2,
        height: 1,
        data: vec![10, 20, 30, 255, 0, 0, 0, 0],
    };
    let raster = rasterize(&picture, 2, 1);
    assert_eq!((raster.width, raster.height), (2, 1));
    assert_eq!(raster.pixels, vec![0x0a141e, 0xffffff]);
}

#[test]
fn images_are_scaled_down_by_their_average() {
    let picture = Picture {
        width: 2,
        height: 1,
        data: vec![0, 0, 0, 255, 255, 255, 255, 255],
    };
    let raster = rasterize(&picture, 1, 1);
    assert_eq!(raster.pixels, vec![0x808080]);
}

#[test]
fn images_are_scaled_up_to_the_size_asked_for() {
    let picture = Picture {
        width: 1,
        height: 1,
        data: vec![1, 2, 3, 255],
    };
    let raster = rasterize(&picture, 3, 2);
    assert_eq!(raster.pixels, vec![0x010203; 6]);
}

#[test]
fn long_images_are_scaled() {
    let mut data = Vec::new();
    for i in 0..600_000u32 {
        data.extend([if i < 300_000 { 10 } else { 200 }, 20, 30, 255]);
    }
    let picture = Picture {
        width: 600_000,
        height: 1,
        data,
    };
    let raster = rasterize(&picture, 4, 1);
    assert_eq!(raster.pixels[0], 0x0a141e);
    assert_eq!(raster.pixels[3], 0xc8141e);
}

fn raster() -> Raster {
    Raster {
        width: 2,
        height: 2,
        pixels: vec![1, 2, 3, 4],
    }
}

#[test]
fn page_is_drawn_in_the_middle() {
    let mut buffer = vec![0; 20];
    clear(&mut buffer);
    draw_page(&mut buffer, (5, 4), &raster(), (0, 0));
    let mut expected = vec![GROUND; 20];
    expected[6] = 1;
    expected[7] = 2;
    expected[11] = 3;
    expected[12] = 4;
    assert_eq!(buffer, expected);
}

#[test]
fn page_is_cut_at_the_edges() {
    let mut buffer = vec![0; 20];
    draw_page(&mut buffer, (5, 4), &raster(), (-2, -2));
    assert_eq!(buffer[0], 4);
    assert!(buffer[1..].iter().all(|pixel| *pixel == 0));
    let mut buffer = vec![0; 20];
    draw_page(&mut buffer, (5, 4), &raster(), (i32::MAX, i32::MIN));
    assert!(buffer.iter().all(|pixel| *pixel == 0));
    let mut buffer = vec![0; 1];
    draw_page(&mut buffer, (1, 1), &raster(), (0, 0));
    assert_eq!(buffer, vec![1]);
}

#[test]
fn pages_begin_before_a_smaller_window() {
    assert_eq!(page_offset(100, 40, 3), 33);
    assert_eq!(page_offset(40, 43, 0), -1);
    assert_eq!(page_offset(40, 100, 30), 0);
    assert_eq!(page_offset(40, 100, -30), -60);
}

#[test]
fn shades_are_mixed_into_a_rectangle() {
    let mut buffer = vec![0xffffff; 6];
    let shade = Shade {
        red: 255,
        green: 156,
        blue: 42,
        strength: 60,
    };
    let rect = Rect {
        left: 1,
        top: 0,
        right: 9,
        bottom: 1,
    };
    draw_shade(&mut buffer, (3, 2), rect, shade);
    assert_eq!(buffer, vec![0xffffff, 0xffc37f, 0xffc37f, 0xffffff, 0xffffff, 0xffffff]);
    let mut buffer = vec![0x123456; 6];
    draw_shade(&mut buffer, (3, 2), rect, Shade { strength: 0, ..shade });
    assert_eq!(buffer, vec![0x123456; 6]);
    draw_shade(&mut buffer, (3, 2), rect, Shade { strength: 100, ..shade });
    assert_eq!(buffer[1], 0xff9c2a);
    assert_eq!(buffer[3], 0x123456);
}

#[test]
fn ranges_are_painted_both_ways() {
    let rects: Vec<Rect> = (0..3)
        .map(|i| Rect {
            left: i,
            top: 0,
            right: i + 1,
            bottom: 1,
        })
        .collect();
    let shade = Shade {
        red: 0,
        green: 0,
        blue: 0,
        strength: 100,
    };
    for (start, end) in [(1, 2), (2, 1)] {
        let mut buffer = vec![9; 3];
        paint_range(&mut buffer, (3, 1), &rects, Highlight { start, end, shade });
        assert_eq!(buffer, vec![9, 0, 0]);
    }
    let mut buffer = vec![9; 3];
    paint_range(&mut buffer, (3, 1), &rects, Highlight { start: 1, end: 3, shade });
    assert_eq!(buffer, vec![9; 3]);
}

#[test]
fn characters_are_looked_up_in_three_fonts() {
    assert_eq!(glyph_rows('A'), Some([0x0c, 0x1e, 0x33, 0x33, 0x3f, 0x33, 0x33, 0x00]));
    assert_eq!(glyph_rows('é'), Some([0x38, 0x00, 0x1e, 0x33, 0x3f, 0x03, 0x1e, 0x00]));
    assert_eq!(glyph_rows('α'), Some([0x00, 0x00, 0x6e, 0x3b, 0x13, 0x3b, 0x6e, 0x00]));
    let question = Some([0x1e, 0x33, 0x30, 0x18, 0x0c, 0x00, 0x0c, 0x00]);
    assert_eq!(glyph_rows('?'), question);
    assert_eq!(glyph_rows('漢'), question);
}

/// The rows of the bar from its text on, as letters.
fn bar_rows(buffer: &[u32], width: usize, top: usize) -> Vec<String> {
    (0..16)
        .map(|row| {
            (0..width)
                .map(|x| match buffer[(top + 4 + row) * width + x] {
                    0xf2f1eb => '#',
                    0x191c21 => '.',
                    _ => '!',
                })
                .collect()
        })
        .collect()
}

#[test]
fn search_bar_shows_its_label() {
    let (width, height) = (56, 30);
    let mut buffer = vec![7; width * height];
    draw_search_bar(&mut buffer, (width as u32, height as u32), "A?x");
    assert!(buffer[..6 * width].iter().all(|pixel| *pixel == 7));
    assert!(buffer[6 * width..7 * width].iter().all(|pixel| *pixel == 0xebb754));
    let rows = bar_rows(&buffer, width, 6);
    assert_eq!(rows[0], "................####..........########..................");
    assert_eq!(rows[1], rows[0]);
    assert_eq!(rows[2], "..............########......####....####................");
    assert_eq!(rows[8], "............############........####....................");
    assert_eq!(rows[14], ".".repeat(width));
    assert!(buffer[27 * width..].iter().all(|pixel| *pixel == 0x191c21));
}

#[test]
fn search_bar_fits_small_windows() {
    let mut buffer = vec![7; 30];
    draw_search_bar(&mut buffer, (30, 1), "A");
    assert_eq!(buffer, vec![0xebb754; 30]);
    let mut buffer = vec![7; 40 * 8];
    draw_glyphs(&mut buffer, (40, 8), &vec![Some([0xff; 8])]);
    assert!(buffer[..40].iter().all(|pixel| *pixel == 0xebb754));
    for y in 4..8 {
        for x in 0..40 {
            let expected = if (12..28).contains(&x) { 0xf2f1eb } else { 0x191c21 };
            assert_eq!(buffer[y * 40 + x], expected);
        }
    }
    draw_search_bar(&mut Vec::new(), (0, 9), "A");
}

fn letters(count: usize) -> TextIndex {
    let run = (0..count)
        .map(|_| Fragment {
            text: Some("a".to_string()),
            new_line: false,
            wide_gap: false,
        })
        .collect();
    TextIndex::from_page(&vec![run])
}

fn type_letter(viewer: &mut Viewer, text: &str) {
    let input = KeyInput {
        pressed: true,
        repeat: false,
        control: false,
        alt: false,
        logo: false,
        copy_key: false,
        key: Key::Character(text.to_string()),
        text: Some(text.to_string()),
    };
    viewer.key(&input, (0, 0));
}

#[test]
fn window_shows_page_highlights_and_bar() {
    let size = (30, 40);
    let mut viewer = Viewer::new();
    let mut buffer = vec![0; 30 * 40];
    viewer.draw(&mut buffer, size, &None, &Vec::new());
    assert_eq!(buffer, vec![GROUND; 30 * 40]);

    viewer.ready(1, vec![letters(3).search_page()]);
    viewer.page_loaded(Some(letters(3)), (0, 0));
    viewer.rebuild_search();
    type_letter(&mut viewer, "/");
    type_letter(&mut viewer, "a");
    assert_eq!(viewer.highlights().len(), 3);
    assert_eq!(viewer.highlights()[0].shade.strength, 60);
    assert_eq!(viewer.highlights()[1].shade.strength, 35);
    viewer.mouse_down(Some(2));
    viewer.mouse_moved(true, Some(2));

    let raster = Some(Raster {
        width: 30,
        height: 40,
        pixels: vec![0xffffff; 30 * 40],
    });
    let rects: Vec<Rect> = (0..3)
        .map(|i| Rect {
            left: i,
            top: 0,
            right: i + 1,
            bottom: 1,
        })
        .collect();
    viewer.draw(&mut buffer, size, &raster, &rects);
    assert_eq!(buffer[0], 0xffc37f);
    assert_eq!(buffer[1], 0xfeecc1);
    assert_eq!(buffer[2], 0x98b3d8);
    assert_eq!(buffer[3], 0xffffff);
    assert_eq!(buffer[16 * 30], 0xebb754);
    assert_eq!(buffer[39 * 30], 0x191c21);
}

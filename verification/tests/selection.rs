use tv::selection::{GlyphBox, TextIndex};

/// A glyph as it lies on a page.
struct Placed {
    left: f32,
    top: f32,
    right: f32,
    bottom: f32,
    text: &'static str,
    run: usize,
    size: f32,
}

fn index_of(glyphs: &[Placed]) -> TextIndex {
    let mut index = TextIndex::new();
    for (i, glyph) in glyphs.iter().enumerate() {
        let (new_line, wide_gap) = match i.checked_sub(1).map(|j| &glyphs[j]) {
            Some(before) => (
                (glyph.top - before.top).abs() > before.size.max(glyph.size) * 0.5,
                glyph.left - before.right > glyph.size * 0.3,
            ),
            None => (false, false),
        };
        index.glyphs.push(GlyphBox {
            text: glyph.text.to_string(),
            run: glyph.run,
            new_line,
            wide_gap,
        });
    }
    index
}

fn distances(glyphs: &[Placed], x: f32, y: f32) -> Vec<u32> {
    glyphs
        .iter()
        .map(|glyph| {
            let dx = (glyph.left - x).max(0.0).max(x - glyph.right);
            let dy = (glyph.top - y).max(0.0).max(y - glyph.bottom);
            (dx * dx + dy * dy).to_bits()
        })
        .collect()
}

#[test]
fn copies_selection_in_both_drag_directions() {
    let glyphs = [
        Placed {
            left: 0.0,
            top: 0.0,
            right: 8.0,
            bottom: 12.0,
            text: "A",
            run: 0,
            size: 10.0,
        },
        Placed {
            left: 8.0,
            top: 0.0,
            right: 16.0,
            bottom: 12.0,
            text: "β",
            run: 0,
            size: 10.0,
        },
        Placed {
            left: 0.0,
            top: 16.0,
            right: 8.0,
            bottom: 28.0,
            text: "C",
            run: 2,
            size: 10.0,
        },
    ];
    let index = index_of(&glyphs);
    assert_eq!(index.copied_text(0, 2), "Aβ\nC");
    assert_eq!(index.copied_text(2, 0), "Aβ\nC");
    assert_eq!(index.hit(&distances(&glyphs, 9.0, 5.0)), Some(1));
    assert_eq!(index.hit(&distances(&glyphs, 100.0, 100.0)), None);
    let search = index.search_page();
    assert_eq!(search.matches("β"), vec![(1, 1)]);
    assert_eq!(search.matches("aβ c"), vec![(0, 2)]);
    assert!(search.matches("missing").is_empty());
}

fn fragment(text: Option<&str>, new_line: bool, wide_gap: bool) -> tv::selection::Fragment {
    tv::selection::Fragment {
        text: text.map(str::to_string),
        new_line,
        wide_gap,
    }
}

/// A page with one run for each text, each on a line of its own or behind a gap.
fn page(runs: &[(&str, bool)]) -> TextIndex {
    let runs = runs
        .iter()
        .map(|(text, new_line)| {
            text.chars()
                .enumerate()
                .map(|(i, c)| {
                    fragment(Some(c.to_string().as_str()), *new_line && i == 0, i == 0)
                })
                .collect()
        })
        .collect();
    TextIndex::from_page(&runs)
}

#[test]
fn glyphs_without_text_are_left_out() {
    let runs = vec![
        vec![
            fragment(Some("a"), false, false),
            fragment(None, false, false),
            fragment(Some(""), false, false),
            fragment(Some("b"), false, true),
        ],
        vec![fragment(Some("c"), false, true)],
    ];
    let index = TextIndex::from_page(&runs);
    let texts: Vec<&str> = index.glyphs.iter().map(|glyph| glyph.text.as_str()).collect();
    assert_eq!(texts, ["a", "b", "c"]);
    assert_eq!(index.glyphs[1].run, 0);
    assert_eq!(index.glyphs[2].run, 2);
    assert_eq!(index.copied_text(0, 2), "ab c");
}

#[test]
fn copying_follows_runs_and_lines() {
    let index = page(&[("ab", false), ("cd", false), ("ef", true)]);
    assert_eq!(index.copied_text(0, 5), "ab cd\nef");
    assert_eq!(index.copied_text(3, 1), "b cd");
    assert_eq!(index.copied_text(4, 4), "e");
    assert_eq!(index.copied_text(4, 6), "");
    assert_eq!(index.copied_text(usize::MAX, 0), "");
}

#[test]
fn nearest_is_the_first_of_the_closest() {
    let index = page(&[("abc", false)]);
    let far = 17.0f32.to_bits();
    let near = 16.0f32.to_bits();
    assert_eq!(index.nearest(&vec![far, near, near]), Some(1));
    assert_eq!(index.hit(&vec![far, near, near]), Some(1));
    assert_eq!(index.nearest(&vec![far, far, far]), Some(0));
    assert_eq!(index.hit(&vec![far, far, far]), None);
    assert_eq!(TextIndex::new().nearest(&Vec::new()), None);
    assert_eq!(TextIndex::new().hit(&Vec::new()), None);
}

#[test]
fn matches_do_not_overlap() {
    let search = page(&[("aaaaa", false)]).search_page();
    assert_eq!(search.matches("aa"), vec![(0, 1), (2, 3)]);
    assert_eq!(search.occurrences("aaa"), vec![(0, 2)]);
    assert!(search.occurrences("").is_empty());
}

#[test]
fn case_and_spacing_do_not_matter() {
    let search = page(&[("ONE", false), ("Two", true), ("\u{130}x", false)]).search_page();
    assert_eq!(search.matches(" one \n two "), vec![(0, 5)]);
    assert_eq!(search.matches("TWO"), vec![(3, 5)]);
    assert_eq!(search.matches("i\u{307}X"), vec![(6, 7)]);
    assert!(search.occurrences("TWO").is_empty());
    assert!(search.matches("  ").is_empty());
}

#[test]
fn white_space_is_one_space() {
    let index = page(&[(" a", false), ("\u{a0}\t b", true)]);
    let search = index.search_page();
    assert_eq!(search.occurrences("a b"), vec![(1, 5)]);
    assert!(search.occurrences(" a").is_empty());
}

#[test]
fn search_characters_collapse_white_space() {
    let mut letters = Vec::new();
    for (i, c) in " a \n b".chars().enumerate() {
        tv::selection::push_search_char(&mut letters, c, i);
    }
    assert_eq!(letters, vec![('a', 1), (' ', 2), ('b', 5)]);
}

#[test]
fn documents_are_searched_page_by_page() {
    let pages = vec![
        page(&[("native typst", false)]).search_page(),
        TextIndex::new().search_page(),
        page(&[("second page", false), ("second", true)]).search_page(),
    ];
    let hits = tv::search::find_document_matches(&pages, "second");
    let found: Vec<_> = hits.iter().map(|hit| (hit.page, hit.start, hit.end)).collect();
    assert_eq!(found, vec![(3, 0, 5), (3, 11, 16)]);
    assert_eq!(tv::search::find_document_matches(&pages, "T").len(), 3);
    assert!(tv::search::find_document_matches(&pages, " \t").is_empty());
    assert_eq!(
        tv::search::find_document_matches(&pages, "  second   page ").len(),
        tv::search::find_document_matches(&pages, "second page").len()
    );
}

#[test]
fn parts_of_a_document_are_searched_one_after_the_other() {
    let texts = ["one two", "two", "", "Two ONE two"];
    let pages = |texts: &[&str]| -> Vec<_> {
        texts.iter().map(|text| page(&[(text, false)]).search_page()).collect()
    };
    let all = tv::search::find_document_matches(&pages(&texts), "tWo");
    for cut in 0..=texts.len() {
        let mut found = tv::search::find_document_matches(&pages(&texts[..cut]), "two");
        for mut hit in tv::search::find_document_matches(&pages(&texts[cut..]), "TWO") {
            hit.page += cut;
            found.push(hit);
        }
        assert_eq!(found, all);
    }
    let single = page(&[("two two", false)]).search_page();
    let ranges = single.matches("two");
    let hits = tv::search::find_document_matches(&vec![single], "two");
    assert_eq!(ranges, hits.iter().map(|hit| (hit.start, hit.end)).collect::<Vec<_>>());
    assert!(hits.iter().all(|hit| hit.page == 1));
}

#[test]
fn searched_text_is_the_copied_text() {
    let index = page(&[(" Ab", false), ("C\u{a0}\t d", true), ("E", false)]);
    let last = index.glyphs.len() - 1;
    let copied = index.copied_text(0, last);
    assert_eq!(copied, " Ab\nC\u{a0}\t d E");
    let expected = "ab c d e";
    let found = index.search_page().occurrences(expected);
    assert_eq!(found, vec![(1, last)]);
    assert!(index.search_page().occurrences(" ab").is_empty());
}

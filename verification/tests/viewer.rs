use tv::selection::{Fragment, SearchPage, TextIndex};
use tv::viewer::{pan_limits, Command, Effects, Key, KeyInput, Viewer, Zoom};

const LIMITS: (i32, i32) = (100, 200);

fn index(text: &str) -> TextIndex {
    let run = text
        .chars()
        .map(|c| Fragment {
            text: Some(c.to_string()),
            new_line: false,
            wide_gap: false,
        })
        .collect();
    TextIndex::from_page(&vec![run])
}

fn pages(texts: &[&str]) -> Vec<SearchPage> {
    texts.iter().map(|text| index(text).search_page()).collect()
}

/// A viewer of a document with the given pages, of which the first is shown.
fn viewer(texts: &[&str]) -> Viewer {
    let mut viewer = Viewer::new();
    assert!(viewer.ready(texts.len(), pages(texts)).load);
    viewer.page_loaded(Some(index(texts[0])), LIMITS);
    viewer.rebuild_search();
    viewer
}

fn input(key: Key) -> KeyInput {
    let text = match &key {
        Key::Character(text) => Some(text.clone()),
        Key::Space => Some(" ".to_string()),
        _ => None,
    };
    KeyInput {
        pressed: true,
        repeat: false,
        control: false,
        alt: false,
        logo: false,
        copy_key: false,
        key,
        text,
    }
}

fn letter(c: &str) -> KeyInput {
    input(Key::Character(c.to_string()))
}

fn press(viewer: &mut Viewer, key: KeyInput) -> Effects {
    viewer.key(&key, LIMITS)
}

fn type_query(viewer: &mut Viewer, query: &str) {
    press(viewer, letter("/"));
    for c in query.chars() {
        press(viewer, letter(&c.to_string()));
    }
}

#[test]
fn viewer_starts_before_the_first_page() {
    let viewer = Viewer::new();
    assert_eq!((viewer.total, viewer.page, viewer.shown), (0, 1, false));
    assert!(viewer.copy_selection().is_none());
}

#[test]
fn pages_are_gone_to_by_keys() {
    let mut viewer = viewer(&["a", "b", "c"]);
    viewer.pan(50, 60, LIMITS);
    for (key, page) in [
        (input(Key::Space), 2),
        (letter("n"), 3),
        (letter("n"), 3),
        (input(Key::PageUp), 2),
        (input(Key::Home), 1),
        (letter("p"), 1),
        (input(Key::End), 3),
        (letter("g"), 1),
        (letter("G"), 3),
        (input(Key::Backspace), 2),
        (letter(" "), 3),
        (input(Key::PageUp), 2),
        (input(Key::PageDown), 3),
    ] {
        let before = viewer.page;
        let effects = press(&mut viewer, key);
        assert_eq!(viewer.page, page);
        assert_eq!(effects.load, before != page);
    }
    assert_eq!((viewer.pan_x, viewer.pan_y), (0, 0));
}

#[test]
fn scrolling_goes_on_to_the_adjacent_page() {
    let mut viewer = viewer(&["a", "b"]);
    assert!(viewer.scroll(-150, LIMITS).redraw);
    assert_eq!((viewer.page, viewer.pan_y), (1, -150));
    viewer.scroll(-150, LIMITS);
    assert_eq!((viewer.page, viewer.pan_y), (1, -200));
    assert!(viewer.scroll(-1, LIMITS).load);
    assert_eq!((viewer.page, viewer.pan_y), (2, 0));
    viewer.pan(0, i32::MAX, LIMITS);
    assert_eq!(viewer.pan_y, 200);
    viewer.scroll(1, LIMITS);
    assert_eq!((viewer.page, viewer.pan_y), (1, 0));
    viewer.scroll(0, (0, 0));
    assert_eq!(viewer.page, 1);
    assert!(!viewer.scroll(5, (0, 0)).load);
}

#[test]
fn keys_scroll_and_pan_by_a_step() {
    let mut viewer = viewer(&["a"]);
    press(&mut viewer, letter("j"));
    press(&mut viewer, input(Key::ArrowDown));
    assert_eq!(viewer.pan_y, -160);
    press(&mut viewer, letter("k"));
    press(&mut viewer, input(Key::ArrowUp));
    assert_eq!(viewer.pan_y, 0);
    press(&mut viewer, letter("h"));
    press(&mut viewer, input(Key::ArrowLeft));
    assert_eq!(viewer.pan_x, 100);
    press(&mut viewer, letter("l"));
    press(&mut viewer, input(Key::ArrowRight));
    assert_eq!(viewer.pan_x, -60);
}

#[test]
fn fitting_resets_the_view() {
    let mut viewer = viewer(&["a"]);
    viewer.pan(10, 20, LIMITS);
    assert_eq!(press(&mut viewer, letter("+")).zoom, Zoom::In);
    assert_eq!(press(&mut viewer, letter("=")).zoom, Zoom::In);
    assert_eq!(press(&mut viewer, letter("-")).zoom, Zoom::Out);
    assert_eq!(press(&mut viewer, letter("_")).zoom, Zoom::Out);
    assert_eq!((viewer.pan_x, viewer.pan_y), (10, 20));
    let effects = viewer.zoomed((5, 500));
    assert!(effects.rescale && effects.retitle && effects.redraw);
    assert_eq!((viewer.pan_x, viewer.pan_y), (5, 20));
    for key in ["f", "0"] {
        let effects = press(&mut viewer, letter(key));
        assert_eq!(effects.zoom, Zoom::Fit);
        assert_eq!((viewer.pan_x, viewer.pan_y), (0, 0));
    }
}

#[test]
fn page_moves_within_its_limits() {
    assert_eq!(pan_limits((1000, 301), (800, 300)), (100, 0));
    assert_eq!(pan_limits((10, 8192), (800, 0)), (0, 4096));
    assert_eq!(pan_limits((u32::MAX, 0), (0, u32::MAX)), (i32::MAX, 0));
    let mut viewer = viewer(&["a"]);
    viewer.pan(90, -190, LIMITS);
    let effects = viewer.resized((10, 20));
    assert!(effects.rescale && effects.redraw && !effects.retitle);
    assert_eq!((viewer.pan_x, viewer.pan_y), (10, -20));
}

#[test]
fn search_goes_from_match_to_match() {
    let mut viewer = viewer(&["one two", "two", "one", "two two"]);
    viewer.show_page(2);
    type_query(&mut viewer, "TWO");
    assert_eq!(viewer.query, "TWO");
    assert_eq!(viewer.matches.len(), 4);
    assert_eq!((viewer.active, viewer.page), (Some(1), 2));
    assert!(press(&mut viewer, input(Key::Enter)).redraw);
    assert!(!viewer.editing);
    for (key, active, page) in [
        ("n", 2, 4),
        ("n", 3, 4),
        ("n", 0, 1),
        ("N", 3, 4),
        ("N", 2, 4),
        ("N", 1, 2),
    ] {
        let effects = press(&mut viewer, letter(key));
        assert!(effects.redraw && effects.retitle);
        assert_eq!((viewer.active, viewer.page), (Some(active), page));
    }
}

#[test]
fn search_before_the_origin_starts_over() {
    let mut viewer = viewer(&["one", "two", "three"]);
    viewer.show_page(3);
    type_query(&mut viewer, "one");
    assert_eq!((viewer.active, viewer.page), (Some(0), 1));
}

#[test]
fn query_is_edited() {
    let mut viewer = viewer(&["abc"]);
    type_query(&mut viewer, "abx");
    assert!(viewer.matches.is_empty());
    press(&mut viewer, input(Key::Backspace));
    assert_eq!((viewer.query.as_str(), viewer.matches.len()), ("ab", 1));
    let mut held = letter("c");
    held.repeat = true;
    press(&mut viewer, held);
    assert_eq!(viewer.query, "abc");
    for change in 0..4 {
        let mut key = letter("d");
        match change {
            0 => key.control = true,
            1 => key.alt = true,
            2 => key.logo = true,
            _ => key.text = Some("\u{8}".to_string()),
        }
        press(&mut viewer, key);
        assert_eq!(viewer.query, "abc");
    }
    for _ in 0..4 {
        press(&mut viewer, input(Key::Backspace));
    }
    assert!(viewer.query.is_empty() && viewer.editing);
}

#[test]
fn query_has_a_greatest_length() {
    let mut viewer = viewer(&["abc"]);
    press(&mut viewer, letter("/"));
    for _ in 0..127 {
        press(&mut viewer, letter("x"));
    }
    let mut pasted = letter("x");
    pasted.text = Some("yz".to_string());
    press(&mut viewer, pasted);
    assert_eq!(viewer.query.chars().count(), 129);
    press(&mut viewer, letter("x"));
    assert_eq!(viewer.query.chars().count(), 129);
}

#[test]
fn escape_ends_the_search_and_then_the_program() {
    let mut viewer = viewer(&["abc"]);
    type_query(&mut viewer, "b");
    assert!(!press(&mut viewer, input(Key::Escape)).exit);
    assert!(viewer.query.is_empty() && !viewer.editing && viewer.active.is_none());
    type_query(&mut viewer, "b");
    press(&mut viewer, input(Key::Enter));
    assert!(!press(&mut viewer, input(Key::Escape)).exit);
    assert!(viewer.query.is_empty() && viewer.matches.is_empty());
    assert!(press(&mut viewer, input(Key::Escape)).exit);
    assert!(press(&mut viewer, letter("q")).exit);
}

#[test]
fn other_keys_do_nothing() {
    let mut viewer = viewer(&["a", "b"]);
    let mut released = letter("q");
    released.pressed = false;
    let mut held = letter("n");
    held.repeat = true;
    for key in [released, held, letter("N"), letter("x"), letter("nn"), input(Key::Enter), input(Key::Other)] {
        assert_eq!(viewer.command(&key), Command::Nothing);
        assert_eq!(press(&mut viewer, key), Effects::new());
        assert_eq!(viewer.page, 1);
    }
}

#[test]
fn dragging_selects_and_clicking_clears() {
    let mut viewer = viewer(&["abcdef"]);
    assert_eq!(viewer.mouse_moved(true, Some(1)), Effects::new());
    viewer.mouse_down(Some(4));
    assert!(!viewer.mouse_moved(false, Some(2)).redraw);
    assert!(!viewer.mouse_moved(true, None).redraw);
    assert!(viewer.selection.is_none());
    assert!(viewer.mouse_moved(true, Some(1)).redraw);
    viewer.mouse_up();
    assert_eq!(viewer.selection, Some((4, 1)));
    assert_eq!(viewer.copy_selection().as_deref(), Some("bcde"));
    let mut copy = letter("c");
    copy.control = true;
    copy.copy_key = true;
    assert!(press(&mut viewer, copy).copy);
    assert!(viewer.mouse_down(None).redraw);
    assert!(viewer.selection.is_none() && viewer.press.is_none());
}

#[test]
fn new_document_keeps_the_place() {
    let mut viewer = viewer(&["a", "b", "c"]);
    viewer.show_page(3);
    viewer.page_loaded(Some(index("c")), LIMITS);
    viewer.mouse_down(Some(0));
    viewer.mouse_moved(true, Some(0));
    viewer.failed();
    assert!(viewer.error && viewer.page == 3 && viewer.selection.is_some());
    viewer.ready(4, pages(&["a", "b", "c", "d"]));
    assert!(!viewer.error && viewer.page == 3);
    viewer.page_loaded(None, LIMITS);
    assert!(viewer.selection.is_some());
    viewer.page_loaded(Some(index("c")), LIMITS);
    assert!(viewer.selection.is_none() && viewer.press.is_none());
    viewer.ready(2, pages(&["a", "b"]));
    assert_eq!(viewer.page, 2);
    viewer.ready(0, Vec::new());
    assert_eq!((viewer.page, viewer.total), (1, 0));
}

#[test]
fn new_document_is_searched_again() {
    let mut viewer = viewer(&["first title", "x"]);
    type_query(&mut viewer, "title");
    press(&mut viewer, input(Key::Enter));
    viewer.ready(2, pages(&["x", "second title"]));
    let effects = viewer.document_loaded(Some(index("x")), LIMITS);
    assert!(effects.load && effects.rescale && effects.retitle && effects.redraw);
    assert_eq!((viewer.active, viewer.page), (Some(0), 2));
    assert_eq!(viewer.matches.len(), 1);
    viewer.ready(1, pages(&["nothing"]));
    let effects = viewer.document_loaded(None, LIMITS);
    assert!(!effects.load && !effects.rescale && effects.retitle);
    assert!(viewer.matches.is_empty() && viewer.active.is_none());
    assert_eq!(viewer.query, "title");
}

#[test]
fn titles_tell_the_state() {
    let mut viewer = Viewer::new();
    assert_eq!(viewer.title("a.md", 100), "a.md · 1/1 · 100% · compiling… · tv");
    viewer.ready(12, pages(&[""; 12]));
    viewer.page_loaded(Some(TextIndex::new()), LIMITS);
    assert_eq!(viewer.title("a.md", 69), "a.md · 1/12 · 69% · tv");
    viewer.failed();
    assert_eq!(viewer.title("a.md", 69), "a.md · 1/12 · 69% · error (see terminal) · tv");
    viewer.fatal();
    assert_eq!(viewer.title("a.md", 69), "a.md · 1/12 · 69% · compiler stopped · tv");
}

#[test]
fn titles_and_labels_tell_the_search() {
    let mut viewer = viewer(&["aab", "b"]);
    assert_eq!(viewer.search_label(), None);
    type_query(&mut viewer, "b");
    assert_eq!(viewer.title("x", 100), "x · 1/2 · 100% · /b (1/2) · tv");
    assert_eq!(viewer.search_label().as_deref(), Some("/b_  1/2"));
    press(&mut viewer, input(Key::Enter));
    press(&mut viewer, letter("n"));
    assert_eq!(viewer.search_label().as_deref(), Some("/b  2/2  n/N next/previous"));
    type_query(&mut viewer, &"é".repeat(50));
    assert_eq!(
        viewer.title("x", 100),
        format!("x · 2/2 · 100% · /{} (0/0) · tv", "é".repeat(48))
    );
}

#[test]
fn going_through_all_matches_comes_round() {
    let mut viewer = viewer(&["b", "a b", "b b"]);
    for start in 0..4 {
        type_query(&mut viewer, "b");
        press(&mut viewer, input(Key::Enter));
        while viewer.active != Some(start) {
            press(&mut viewer, letter("n"));
        }
        for _ in 0..4 {
            press(&mut viewer, letter("n"));
        }
        assert_eq!(viewer.active, Some(start));
    }
}

//! What the window shows: the page, its highlights and the search bar.
use vstd::prelude::*;

use crate::bar::draw_search_bar;
use crate::canvas::{clear, draw_page, draw_shade, Raster, Rect, Shade};
use crate::search::SearchMatch;
use crate::selection::selected_range;
use crate::viewer::{State, Viewer};
#[allow(unused_imports)]
use crate::{bar, canvas, labels, selection};

verus! {

/// A highlighted range of glyphs.
#[derive(Clone, Copy, Debug, PartialEq, Eq, Structural)]
pub struct Highlight {
    pub start: usize,
    pub end: usize,
    pub shade: Shade,
}

/// The shade of the active match.
pub open spec fn active_shade() -> Shade {
    Shade { red: 255, green: 156, blue: 42, strength: 60 }
}

/// The shade of the other matches.
pub open spec fn match_shade() -> Shade {
    Shade { red: 255, green: 205, blue: 82, strength: 35 }
}

/// The shade of the selection.
pub open spec fn selection_shade() -> Shade {
    Shade { red: 31, green: 113, blue: 245, strength: 45 }
}

/// The highlights of those of the first `count` matches that are on the given page.
pub open spec fn match_highlights(
    matches: Seq<SearchMatch>,
    page: usize,
    active: Option<int>,
    count: int,
) -> Seq<Highlight>
    decreases count,
{
    if count <= 0 {
        Seq::empty()
    } else {
        let before = match_highlights(matches, page, active, count - 1);
        let found = matches[count - 1];
        if found.page == page {
            before.push(
                Highlight {
                    start: found.start,
                    end: found.end,
                    shade: if active == Some(count - 1) {
                        active_shade()
                    } else {
                        match_shade()
                    },
                },
            )
        } else {
            before
        }
    }
}

/// The highlights of the current page, in the order in which they are drawn: its matches and the
/// selection.
pub open spec fn all_highlights(s: State) -> Seq<Highlight> {
    let found = match_highlights(s.matches, s.page, s.active, s.matches.len() as int);
    match s.selection {
        Some((start, end)) => found.push(Highlight { start, end, shade: selection_shade() }),
        None => found,
    }
}

/// The picture with the rectangles from `start` on and before `end` shaded, one after the other.
pub open spec fn with_rects(
    pixels: Seq<u32>,
    width: u32,
    rects: Seq<Rect>,
    start: int,
    end: int,
    shade: Shade,
) -> Seq<u32>
    decreases end - start,
{
    if end <= start {
        pixels
    } else {
        canvas::shaded(
            with_rects(pixels, width, rects, start, end - 1, shade),
            width,
            rects[end - 1],
            shade,
        )
    }
}

/// The picture with a highlight. Nothing is drawn where the highlight reaches beyond the glyphs.
pub open spec fn with_highlight(
    pixels: Seq<u32>,
    width: u32,
    rects: Seq<Rect>,
    highlight: Highlight,
) -> Seq<u32> {
    match selection::selected(highlight.start, highlight.end, rects.len()) {
        Some((start, end)) => with_rects(
            pixels,
            width,
            rects,
            start as int,
            end + 1,
            highlight.shade,
        ),
        None => pixels,
    }
}

/// The picture with several highlights, drawn one after the other.
pub open spec fn with_highlights(
    pixels: Seq<u32>,
    width: u32,
    rects: Seq<Rect>,
    list: Seq<Highlight>,
) -> Seq<u32>
    decreases list.len(),
{
    if list.len() == 0 {
        pixels
    } else {
        with_highlight(
            with_highlights(pixels, width, rects, list.drop_last()),
            width,
            rects,
            list.last(),
        )
    }
}

/// An empty window.
pub open spec fn empty_window(size: (u32, u32)) -> Seq<u32> {
    Seq::new((size.0 * size.1) as nat, |i: int| canvas::BACKGROUND)
}

/// The page with its highlights, if there is one.
pub open spec fn page_drawn(
    s: State,
    size: (u32, u32),
    raster: Option<Raster>,
    rects: Seq<Rect>,
) -> Seq<u32> {
    match raster {
        Some(page) => with_highlights(
            canvas::with_page(empty_window(size), size, page, (s.pan_x, s.pan_y)),
            size.0,
            rects,
            all_highlights(s),
        ),
        None => empty_window(size),
    }
}

/// The window: the page with its highlights, and the search bar while there is a search.
pub open spec fn window_drawn(
    s: State,
    size: (u32, u32),
    raster: Option<Raster>,
    rects: Seq<Rect>,
) -> Seq<u32> {
    let page = page_drawn(s, size, raster, rects);
    if labels::is_searching(s) {
        bar::with_bar(page, size, bar::glyphs(labels::bar_text(s)))
    } else {
        page
    }
}

/// Draws a highlight. `rects` tells where in the window the glyphs of the page are.
pub fn paint_range(
    buffer: &mut [u32],
    size: (u32, u32),
    rects: &Vec<Rect>,
    highlight: Highlight,
)
    requires
        canvas::has_size(old(buffer)@, size),
        highlight.shade.strength <= 100,
    ensures
        final(buffer)@ == with_highlight(old(buffer)@, size.0, rects@, highlight),
        canvas::has_size(final(buffer)@, size),
{
    if let Some((start, end)) = selected_range(highlight.start, highlight.end, rects.len()) {
        let stop: usize = end + 1;
        let mut i: usize = start;
        while i < stop
            invariant
                start <= i <= stop <= rects@.len(),
                canvas::has_size(buffer@, size),
                highlight.shade.strength <= 100,
                buffer@ == with_rects(
                    old(buffer)@,
                    size.0,
                    rects@,
                    start as int,
                    i as int,
                    highlight.shade,
                ),
            decreases stop - i,
        {
            draw_shade(buffer, size, rects[i], highlight.shade);
            i += 1;
        }
    }
}

impl Viewer {
    /// The highlights of the current page.
    pub fn highlights(&self) -> (list: Vec<Highlight>)
        ensures
            list@ == all_highlights(self@),
            forall|i: int| 0 <= i < list@.len() ==> (#[trigger] list@[i]).shade.strength <= 100,
    {
        let mut list: Vec<Highlight> = Vec::new();
        let mut i: usize = 0;
        while i < self.matches.len()
            invariant
                i <= self.matches@.len(),
                list@ == match_highlights(self.matches@, self.page, self@.active, i as int),
                forall|k: int|
                    0 <= k < list@.len() ==> (#[trigger] list@[k]).shade.strength <= 100,
            decreases self.matches@.len() - i,
        {
            let found = self.matches[i];
            if found.page == self.page {
                let is_active = match self.active {
                    Some(index) => index == i,
                    None => false,
                };
                let shade = if is_active {
                    Shade { red: 255, green: 156, blue: 42, strength: 60 }
                } else {
                    Shade { red: 255, green: 205, blue: 82, strength: 35 }
                };
                list.push(Highlight { start: found.start, end: found.end, shade });
            }
            i += 1;
        }
        if let Some((start, end)) = self.selection {
            let shade = Shade { red: 31, green: 113, blue: 245, strength: 45 };
            list.push(Highlight { start, end, shade });
        }
        list
    }

    /// Draws the window. `raster` is the current page, and `rects` tells where in the window its
    /// glyphs are.
    pub fn draw(
        &self,
        buffer: &mut [u32],
        size: (u32, u32),
        raster: &Option<Raster>,
        rects: &Vec<Rect>,
    )
        requires
            self@.wf(),
            canvas::has_size(old(buffer)@, size),
            raster is Some ==> raster->0.wf(),
        ensures
            final(buffer)@ == window_drawn(self@, size, *raster, rects@),
    {
        clear(buffer);
        assert(buffer@ =~= empty_window(size));
        if let Some(page) = raster {
            draw_page(buffer, size, page, (self.pan_x, self.pan_y));
            let ghost drawn = buffer@;
            let list = self.highlights();
            let mut i: usize = 0;
            assert(list@.take(0) =~= Seq::empty());
            while i < list.len()
                invariant
                    i <= list@.len(),
                    canvas::has_size(buffer@, size),
                    forall|k: int|
                        0 <= k < list@.len() ==> (#[trigger] list@[k]).shade.strength <= 100,
                    buffer@ == with_highlights(drawn, size.0, rects@, list@.take(i as int)),
                decreases list@.len() - i,
            {
                paint_range(buffer, size, rects, list[i]);
                assert(list@.take(i + 1).drop_last() =~= list@.take(i as int));
                i += 1;
            }
            assert(list@.take(i as int) =~= list@);
        }
        if let Some(label) = self.search_label() {
            draw_search_bar(buffer, size, label.as_str());
        }
    }
}

proof fn lemma_highlight(
    matches: Seq<SearchMatch>,
    page: usize,
    active: Option<int>,
    count: int,
    i: int,
)
    requires
        0 <= i < count <= matches.len(),
        matches[i].page == page,
    ensures
        match_highlights(matches, page, active, count).contains(
            Highlight {
                start: matches[i].start,
                end: matches[i].end,
                shade: if active == Some(i) {
                    active_shade()
                } else {
                    match_shade()
                },
            },
        ),
    decreases count,
{
    let all = match_highlights(matches, page, active, count);
    let before = match_highlights(matches, page, active, count - 1);
    if i == count - 1 {
        assert(all.last() == all[all.len() - 1]);
    } else {
        lemma_highlight(matches, page, active, count - 1, i);
        let wanted = Highlight {
            start: matches[i].start,
            end: matches[i].end,
            shade: if active == Some(i) {
                active_shade()
            } else {
                match_shade()
            },
        };
        let k = choose|k: int| 0 <= k < before.len() && before[k] == wanted;
        assert(all[k] == wanted);
    }
}

/// Each match on the current page is highlighted, the active one in a shade of its own.
pub proof fn matches_are_highlighted(s: State, i: int)
    requires
        0 <= i < s.matches.len(),
        s.matches[i].page == s.page,
    ensures
        all_highlights(s).contains(
            Highlight {
                start: s.matches[i].start,
                end: s.matches[i].end,
                shade: if s.active == Some(i) {
                    active_shade()
                } else {
                    match_shade()
                },
            },
        ),
{
    lemma_highlight(s.matches, s.page, s.active, s.matches.len() as int, i);
    let found = match_highlights(s.matches, s.page, s.active, s.matches.len() as int);
    let wanted = Highlight {
        start: s.matches[i].start,
        end: s.matches[i].end,
        shade: if s.active == Some(i) {
            active_shade()
        } else {
            match_shade()
        },
    };
    let k = choose|k: int| 0 <= k < found.len() && found[k] == wanted;
    assert(all_highlights(s)[k] == wanted);
}

/// Whether a position lies on no glyph.
pub open spec fn is_off_glyphs(rects: Seq<Rect>, x: int, y: int) -> bool {
    forall|i: int| 0 <= i < rects.len() ==> !canvas::is_inside(#[trigger] rects[i], x, y)
}

proof fn lemma_rects_stay(
    pixels: Seq<u32>,
    size: (u32, u32),
    rects: Seq<Rect>,
    range: (int, int),
    shade: Shade,
    x: int,
    y: int,
)
    requires
        canvas::has_size(pixels, size),
        0 <= x < size.0,
        0 <= y < size.1,
        0 <= range.0,
        range.1 <= rects.len(),
        is_off_glyphs(rects, x, y),
    ensures
        canvas::has_size(with_rects(pixels, size.0, rects, range.0, range.1, shade), size),
        canvas::pixel(
            with_rects(pixels, size.0, rects, range.0, range.1, shade),
            size.0 as int,
            x,
            y,
        ) == canvas::pixel(pixels, size.0 as int, x, y),
    decreases range.1 - range.0,
{
    if range.0 < range.1 {
        let last = range.1 - 1;
        lemma_rects_stay(pixels, size, rects, (range.0, last), shade, x, y);
        canvas::shading_stays_inside(
            with_rects(pixels, size.0, rects, range.0, last, shade),
            size,
            rects[last],
            shade,
            x,
            y,
        );
    }
}

/// Highlights change no pixel that lies on no glyph.
pub proof fn highlights_stay_on_glyphs(
    pixels: Seq<u32>,
    size: (u32, u32),
    rects: Seq<Rect>,
    list: Seq<Highlight>,
    x: int,
    y: int,
)
    requires
        canvas::has_size(pixels, size),
        0 <= x < size.0,
        0 <= y < size.1,
        is_off_glyphs(rects, x, y),
    ensures
        canvas::has_size(with_highlights(pixels, size.0, rects, list), size),
        canvas::pixel(with_highlights(pixels, size.0, rects, list), size.0 as int, x, y)
            == canvas::pixel(pixels, size.0 as int, x, y),
    decreases list.len(),
{
    if list.len() > 0 {
        highlights_stay_on_glyphs(pixels, size, rects, list.drop_last(), x, y);
        let before = with_highlights(pixels, size.0, rects, list.drop_last());
        let last = list.last();
        if let Some((start, end)) = selection::selected(last.start, last.end, rects.len()) {
            lemma_rects_stay(before, size, rects, (start as int, end + 1), last.shade, x, y);
        }
    }
}

/// Whether `places` are the indices of the matches on a page among the first `count`, in order.
pub open spec fn are_on_page(
    places: Seq<int>,
    matches: Seq<SearchMatch>,
    page: usize,
    count: int,
) -> bool {
    &&& forall|k: int|
        0 <= k < places.len() ==> 0 <= #[trigger] places[k] < count && matches[places[k]].page
            == page
    &&& forall|j: int, k: int|
        0 <= j < k < places.len() ==> #[trigger] places[j] < #[trigger] places[k]
    &&& forall|i: int|
        0 <= i < count && (#[trigger] matches[i]).page == page ==> places.contains(i)
}

proof fn lemma_places(
    matches: Seq<SearchMatch>,
    page: usize,
    active: Option<int>,
    count: int,
) -> (places: Seq<int>)
    requires
        0 <= count <= matches.len(),
    ensures
        are_on_page(places, matches, page, count),
        match_highlights(matches, page, active, count).len() == places.len(),
        forall|k: int|
            0 <= k < places.len() ==> {
                let drawn = #[trigger] match_highlights(matches, page, active, count)[k];
                let found = matches[places[k]];
                &&& drawn.start == found.start
                &&& drawn.end == found.end
                &&& drawn.shade == if active == Some(places[k]) {
                    active_shade()
                } else {
                    match_shade()
                }
            },
    decreases count,
{
    if count == 0 {
        Seq::empty()
    } else {
        let before = lemma_places(matches, page, active, count - 1);
        if matches[count - 1].page == page {
            let places = before.push(count - 1);
            assert forall|i: int| 0 <= i < count && (#[trigger] matches[i]).page
                == page implies places.contains(i) by {
                if i < count - 1 {
                    assert(before.contains(i));
                    let k = choose|k: int| 0 <= k < before.len() && before[k] == i;
                    assert(places[k] == i);
                } else {
                    assert(places[before.len() as int] == i);
                }
            }
            assert forall|k: int| 0 <= k < places.len() implies ({
                let drawn = #[trigger] match_highlights(matches, page, active, count)[k];
                let found = matches[places[k]];
                &&& drawn.start == found.start
                &&& drawn.end == found.end
                &&& drawn.shade == if active == Some(places[k]) {
                    active_shade()
                } else {
                    match_shade()
                }
            }) by {
                if k < before.len() {
                    assert(match_highlights(matches, page, active, count)[k] == match_highlights(
                        matches,
                        page,
                        active,
                        count - 1,
                    )[k]);
                }
            }
            places
        } else {
            before
        }
    }
}

/// The highlights of a page are one for each match on the current page, in the order of the matches,
/// and then one for the selection, if there is any. A match is highlighted from its first to its
/// last glyph, the active one in orange and the others in yellow, and the selection in blue. No
/// match on another page is highlighted.
pub proof fn only_matches_on_the_page_are_highlighted(s: State)
    ensures
        exists|places: Seq<int>| #[trigger]
            are_on_page(places, s.matches, s.page, s.matches.len() as int) && {
                &&& all_highlights(s).len() == places.len() + if s.selection is Some {
                    1int
                } else {
                    0
                }
                &&& forall|k: int|
                    0 <= k < places.len() ==> (#[trigger] all_highlights(s)[k]) == (Highlight {
                        start: s.matches[places[k]].start,
                        end: s.matches[places[k]].end,
                        shade: if s.active == Some(places[k]) {
                            Shade { red: 255, green: 156, blue: 42, strength: 60 }
                        } else {
                            Shade { red: 255, green: 205, blue: 82, strength: 35 }
                        },
                    })
            },
        s.selection matches Some((start, end)) ==> all_highlights(s).last() == (Highlight {
            start,
            end,
            shade: Shade { red: 31, green: 113, blue: 245, strength: 45 },
        }),
{
    let places = lemma_places(s.matches, s.page, s.active, s.matches.len() as int);
    let found = match_highlights(s.matches, s.page, s.active, s.matches.len() as int);
    assert forall|k: int| 0 <= k < places.len() implies (#[trigger] all_highlights(s)[k]) == (
    Highlight {
        start: s.matches[places[k]].start,
        end: s.matches[places[k]].end,
        shade: if s.active == Some(places[k]) {
            Shade { red: 255, green: 156, blue: 42, strength: 60 }
        } else {
            Shade { red: 255, green: 205, blue: 82, strength: 35 }
        },
    }) by {
        assert(all_highlights(s)[k] == found[k]);
    }
    assert(are_on_page(places, s.matches, s.page, s.matches.len() as int));
}

/// Highlights are drawn one after the other, in their order.
pub proof fn highlights_are_drawn_in_order(
    pixels: Seq<u32>,
    width: u32,
    rects: Seq<Rect>,
    first: Seq<Highlight>,
    second: Seq<Highlight>,
)
    ensures
        with_highlights(pixels, width, rects, first + second) == with_highlights(
            with_highlights(pixels, width, rects, first),
            width,
            rects,
            second,
        ),
    decreases second.len(),
{
    if second.len() == 0 {
        assert(first + second =~= first);
    } else {
        highlights_are_drawn_in_order(pixels, width, rects, first, second.drop_last());
        assert((first + second).drop_last() =~= first + second.drop_last());
    }
}

proof fn lemma_rects_drawn(
    pixels: Seq<u32>,
    size: (u32, u32),
    rects: Seq<Rect>,
    start: int,
    end: int,
    shade: Shade,
    i: int,
    x: int,
    y: int,
)
    requires
        canvas::has_size(pixels, size),
        0 <= x < size.0,
        0 <= y < size.1,
        0 <= start,
        end <= rects.len(),
        0 <= i < rects.len(),
        canvas::is_inside(rects[i], x, y),
        forall|k: int|
            0 <= k < rects.len() && k != i ==> !canvas::is_inside(#[trigger] rects[k], x, y),
    ensures
        canvas::has_size(with_rects(pixels, size.0, rects, start, end, shade), size),
        canvas::pixel(
            with_rects(pixels, size.0, rects, start, end, shade),
            size.0 as int,
            x,
            y,
        ) == if start <= i < end {
            canvas::mixed(canvas::pixel(pixels, size.0 as int, x, y), shade)
        } else {
            canvas::pixel(pixels, size.0 as int, x, y)
        },
    decreases end - start,
{
    if start < end {
        let last = end - 1;
        lemma_rects_drawn(pixels, size, rects, start, last, shade, i, x, y);
        let before = with_rects(pixels, size.0, rects, start, last, shade);
        canvas::lemma_index(size, x, y);
        if last != i {
            assert(!canvas::is_inside(rects[last], x, y));
            canvas::shading_stays_inside(before, size, rects[last], shade, x, y);
        } else {
            canvas::shading_mixes_inside(before, size, rects[last], shade, x, y);
        }
    }
}

/// A highlight shades each glyph from its start to its end once, whichever of the two comes first,
/// and no other glyph. One that reaches beyond the glyphs of the page shades none.
pub proof fn highlights_shade_their_glyphs(
    pixels: Seq<u32>,
    size: (u32, u32),
    rects: Seq<Rect>,
    highlight: Highlight,
    i: int,
    x: int,
    y: int,
)
    requires
        canvas::has_size(pixels, size),
        0 <= x < size.0,
        0 <= y < size.1,
        0 <= i < rects.len(),
        canvas::is_inside(rects[i], x, y),
        forall|k: int|
            0 <= k < rects.len() && k != i ==> !canvas::is_inside(#[trigger] rects[k], x, y),
    ensures
        canvas::pixel(
            with_highlight(pixels, size.0, rects, highlight),
            size.0 as int,
            x,
            y,
        ) == if highlight.start < rects.len() && highlight.end < rects.len() && (highlight.start
            <= i <= highlight.end || highlight.end <= i <= highlight.start) {
            canvas::mixed(canvas::pixel(pixels, size.0 as int, x, y), highlight.shade)
        } else {
            canvas::pixel(pixels, size.0 as int, x, y)
        },
{
    if let Some((start, end)) = selection::selected(highlight.start, highlight.end, rects.len()) {
        lemma_rects_drawn(
            pixels,
            size,
            rects,
            start as int,
            end + 1,
            highlight.shade,
            i,
            x,
            y,
        );
    }
}

/// The window shows the page, where one has been rendered, with its highlights; it is covered by the
/// search bar if and only if a query is being typed or is not empty. Where no page lies it has the
/// colour of the background.
pub proof fn windows_show_page_highlights_and_bar(
    s: State,
    size: (u32, u32),
    raster: Option<Raster>,
    rects: Seq<Rect>,
)
    ensures
        ({
            let ground = Seq::new((size.0 * size.1) as nat, |i: int| 0x24262bu32);
            let page = match raster {
                Some(image) => with_highlights(
                    canvas::with_page(ground, size, image, (s.pan_x, s.pan_y)),
                    size.0,
                    rects,
                    all_highlights(s),
                ),
                None => ground,
            };
            if s.editing || s.query.len() > 0 {
                window_drawn(s, size, raster, rects) == bar::with_bar(
                    page,
                    size,
                    bar::glyphs(labels::bar_text(s)),
                )
            } else {
                window_drawn(s, size, raster, rects) == page
            }
        }),
{
    assert(empty_window(size) =~= Seq::new((size.0 * size.1) as nat, |i: int| 0x24262bu32));
}

} // verus!

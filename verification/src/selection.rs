//! The text of a page: hit testing, copying and searching.
use vstd::prelude::*;

use crate::chars::{chars_of, join, split_words};
#[allow(unused_imports)]
use crate::chars;

verus! {

/// A glyph of a page. How it lies to the glyph before it is told by two comparisons, since only
/// these matter for the text.
#[derive(Debug)]
pub struct GlyphBox {
    /// The text that the glyph shows.
    pub text: String,
    /// The index of the first glyph of the text run that the glyph belongs to.
    pub run: usize,
    /// Whether the tops of the glyph and of the one before it are more than half of the larger
    /// text size apart.
    pub new_line: bool,
    /// Whether more than three tenths of the glyph's text size lie between the right side of the
    /// glyph before it and its left side.
    pub wide_gap: bool,
}

/// What a glyph is to the text of a page.
pub struct Glyph {
    pub text: Seq<char>,
    pub run: usize,
    pub new_line: bool,
    pub wide_gap: bool,
}

impl View for GlyphBox {
    type V = Glyph;

    open spec fn view(&self) -> Glyph {
        Glyph {
            text: self.text@,
            run: self.run,
            new_line: self.new_line,
            wide_gap: self.wide_gap,
        }
    }
}

/// The glyphs of a page in the order in which they are drawn.
#[derive(Debug)]
pub struct TextIndex {
    pub glyphs: Vec<GlyphBox>,
}

impl View for TextIndex {
    type V = Seq<Glyph>;

    open spec fn view(&self) -> Seq<Glyph> {
        self.glyphs@.map_values(|glyph: GlyphBox| glyph@)
    }
}

/// A glyph of a text run as it is drawn: the part of the run's text that it shows, if that is known,
/// and how it lies to the last glyph before it that shows any text.
#[derive(Debug)]
pub struct Fragment {
    pub text: Option<String>,
    pub new_line: bool,
    pub wide_gap: bool,
}

/// Whether a fragment shows text.
pub open spec fn is_shown(fragment: Fragment) -> bool {
    fragment.text is Some && fragment.text->0@.len() > 0
}

impl Fragment {
    /// Whether the fragment shows text, so that it gives a glyph of the page.
    pub fn shows_text(&self) -> (shown: bool)
        ensures
            shown == is_shown(*self),
    {
        match &self.text {
            Some(part) => !part.as_str().is_empty(),
            None => false,
        }
    }
}

/// The glyph that a fragment of the run that began at glyph `run` gives.
pub open spec fn fragment_glyph(fragment: Fragment, run: usize) -> Glyph {
    Glyph {
        text: fragment.text->0@,
        run,
        new_line: fragment.new_line,
        wide_gap: fragment.wide_gap,
    }
}

/// The glyphs of a run that begins at glyph `start`.
pub open spec fn run_glyphs(run: Seq<Fragment>, start: usize) -> Seq<Glyph>
    decreases run.len(),
{
    if run.len() == 0 {
        Seq::empty()
    } else {
        let before = run_glyphs(run.drop_last(), start);
        if is_shown(run.last()) {
            before.push(fragment_glyph(run.last(), start))
        } else {
            before
        }
    }
}

/// The glyphs of a page with the given runs.
pub open spec fn page_glyphs(runs: Seq<Vec<Fragment>>) -> Seq<Glyph>
    decreases runs.len(),
{
    if runs.len() == 0 {
        Seq::empty()
    } else {
        let before = page_glyphs(runs.drop_last());
        before + run_glyphs(runs.last()@, before.len() as usize)
    }
}

/// Whether glyph `i` goes on where another run ended, with a gap between them.
pub open spec fn is_spaced(glyphs: Seq<Glyph>, i: int) -> bool {
    glyphs[i].run != glyphs[i - 1].run && glyphs[i].wide_gap
}

/// What stands between glyph `i - 1` and glyph `i` in copied text.
pub open spec fn separator(glyphs: Seq<Glyph>, i: int) -> Seq<char> {
    if glyphs[i].new_line {
        seq!['\n']
    } else if is_spaced(glyphs, i) {
        seq![' ']
    } else {
        Seq::empty()
    }
}

/// The text of the glyphs from `start` to `end`, both included.
pub open spec fn text_between(glyphs: Seq<Glyph>, start: int, end: int) -> Seq<char>
    decreases end - start,
{
    if end <= start {
        glyphs[start].text
    } else {
        text_between(glyphs, start, end - 1) + separator(glyphs, end) + glyphs[end].text
    }
}

/// The first and the last index of a selection among `count` glyphs, whichever way it was dragged;
/// none where it reaches beyond the glyphs.
pub open spec fn selected(anchor: usize, focus: usize, count: nat) -> Option<(usize, usize)> {
    let (start, end) = if anchor <= focus {
        (anchor, focus)
    } else {
        (focus, anchor)
    };
    if end < count {
        Some((start, end))
    } else {
        None
    }
}

/// The text that a selection copies.
pub open spec fn copied(glyphs: Seq<Glyph>, anchor: usize, focus: usize) -> Seq<char> {
    match selected(anchor, focus, glyphs.len()) {
        Some((start, end)) => text_between(glyphs, start as int, end as int),
        None => Seq::empty(),
    }
}

/// Puts the ends of a selection in order.
pub fn selected_range(anchor: usize, focus: usize, count: usize) -> (range: Option<(usize, usize)>)
    ensures
        range == selected(anchor, focus, count as nat),
{
    let (start, end) = if anchor <= focus {
        (anchor, focus)
    } else {
        (focus, anchor)
    };
    if end < count {
        Some((start, end))
    } else {
        None
    }
}

/// The lower case of a character outside ASCII, as `char::to_lowercase` gives it: one character or
/// more.
pub uninterp spec fn unicode_lower_case(c: char) -> Seq<char>;

/// The lower case of a character.
pub open spec fn lower_case(c: char) -> Seq<char> {
    if chars::is_ascii(c) {
        seq![chars::ascii_lower(c)]
    } else {
        unicode_lower_case(c)
    }
}

/// `char::to_lowercase` gives the small letter of an ASCII capital, any other ASCII character itself,
/// and for a character outside ASCII [`unicode_lower_case`]; here gathered in a string.
#[verifier::external_body]
fn lower_case_of(c: char) -> (lower: String)
    ensures
        chars::is_ascii(c) ==> lower@ == seq![chars::ascii_lower(c)],
        !chars::is_ascii(c) ==> lower@ == unicode_lower_case(c),
{
    c.to_lowercase().to_string()
}

/// A text with each character in lower case.
pub open spec fn lower_cased(s: Seq<char>) -> Seq<char>
    decreases s.len(),
{
    if s.len() == 0 {
        Seq::empty()
    } else {
        lower_cased(s.drop_last()) + lower_case(s.last())
    }
}

/// The letters of a page and the glyph that each comes from, after one more character of glyph
/// `index`. White space becomes a single space, and none stands at the beginning.
pub open spec fn with_char(letters: Seq<(char, usize)>, c: char, index: usize) -> Seq<
    (char, usize),
> {
    if !chars::white_space(c) {
        letters.push((c, index))
    } else if letters.len() == 0 || letters.last().0 == ' ' {
        letters
    } else {
        letters.push((' ', index))
    }
}

/// The letters of a page after the characters of `s`, all of glyph `index`.
pub open spec fn with_chars(letters: Seq<(char, usize)>, s: Seq<char>, index: usize) -> Seq<
    (char, usize),
>
    decreases s.len(),
{
    if s.len() == 0 {
        letters
    } else {
        with_char(with_chars(letters, s.drop_last(), index), s.last(), index)
    }
}

/// The letters of a page up to glyph `count`, with the glyph that each comes from: the text in
/// lower case, with a space for each gap and each line break.
pub open spec fn letters_of(glyphs: Seq<Glyph>, count: int) -> Seq<(char, usize)>
    decreases count,
{
    if count <= 0 {
        Seq::empty()
    } else {
        let i = count - 1;
        let before = letters_of(glyphs, i);
        let start = if i > 0 && (glyphs[i].new_line || is_spaced(glyphs, i)) {
            with_char(before, ' ', i as usize)
        } else {
            before
        };
        with_chars(start, lower_cased(glyphs[i].text), i as usize)
    }
}

/// Adds a character of glyph `index` to the letters of a page.
pub fn push_search_char(letters: &mut Vec<(char, usize)>, c: char, index: usize)
    ensures
        final(letters)@ == with_char(old(letters)@, c, index),
{
    if c.is_whitespace() {
        if letters.len() == 0 || letters[letters.len() - 1].0 == ' ' {
            return;
        }
        letters.push((' ', index));
    } else {
        letters.push((c, index));
    }
}

/// Whether `least` is the first of the smallest numbers of `keys`.
pub open spec fn is_first_least(keys: Seq<u32>, least: int) -> bool {
    &&& 0 <= least < keys.len()
    &&& forall|i: int| 0 <= i < keys.len() ==> keys[least] <= #[trigger] keys[i]
    &&& forall|i: int| 0 <= i < least ==> keys[least] < #[trigger] keys[i]
}

/// The key of the squared distance up to which a glyph counts as hit: the bits of the number
/// sixteen in single precision.
pub const HIT_DISTANCE: u32 = 0x4180_0000;

/// Whether a glyph at this key of a distance counts as hit.
pub open spec fn is_hit(key: u32) -> bool {
    key <= HIT_DISTANCE
}

impl TextIndex {
    /// A page without glyphs.
    pub fn new() -> (index: Self)
        ensures
            index@ == Seq::<Glyph>::empty(),
    {
        let index = TextIndex { glyphs: Vec::new() };
        assert(index@ =~= Seq::<Glyph>::empty());
        index
    }

    /// The glyphs of a page, given its text runs in drawing order. Glyphs that show no text are
    /// left out.
    pub fn from_page(runs: &Vec<Vec<Fragment>>) -> (index: Self)
        ensures
            index@ == page_glyphs(runs@),
    {
        let mut index = TextIndex::new();
        let mut i: usize = 0;
        assert(runs@.take(0) =~= Seq::empty());
        while i < runs.len()
            invariant
                i <= runs@.len(),
                index@ =~= page_glyphs(runs@.take(i as int)),
            decreases runs@.len() - i,
        {
            let start: usize = index.glyphs.len();
            let ghost before = index@;
            let run = &runs[i];
            let mut j: usize = 0;
            assert(run@.take(0) =~= Seq::empty());
            while j < run.len()
                invariant
                    j <= run@.len(),
                    index@ =~= before + run_glyphs(run@.take(j as int), start),
                decreases run@.len() - j,
            {
                assert(run@.take(j + 1).drop_last() =~= run@.take(j as int));
                index.push(start, &run[j]);
                j += 1;
            }
            assert(run@.take(j as int) =~= run@);
            assert(runs@.take(i + 1).drop_last() =~= runs@.take(i as int));
            i += 1;
        }
        assert(runs@.take(i as int) =~= runs@);
        index
    }

    /// Adds a glyph of the run that began at `run`, unless it shows no text.
    fn push(&mut self, run: usize, fragment: &Fragment)
        ensures
            final(self)@ == if is_shown(*fragment) {
                old(self)@.push(fragment_glyph(*fragment, run))
            } else {
                old(self)@
            },
    {
        if !fragment.shows_text() {
            return;
        }
        if let Some(part) = &fragment.text {
            let mut text = String::new();
            text.append(part.as_str());
            assert(text@ =~= part@);
            let ghost before = self@;
            self.glyphs.push(
                GlyphBox {
                    text,
                    run,
                    new_line: fragment.new_line,
                    wide_gap: fragment.wide_gap,
                },
            );
            assert(self@ =~= before.push(fragment_glyph(*fragment, run)));
        }
    }

    /// The glyph nearest to a point, the first where there are several. `distances` holds for each
    /// glyph a key that orders as its distance does, such as the bits of its squared distance.
    pub fn nearest(&self, distances: &Vec<u32>) -> (index: Option<usize>)
        requires
            distances@.len() == self@.len(),
        ensures
            match index {
                Some(least) => is_first_least(distances@, least as int),
                None => self@.len() == 0,
            },
    {
        if distances.len() == 0 {
            return None;
        }
        let mut least: usize = 0;
        let mut i: usize = 1;
        while i < distances.len()
            invariant
                1 <= i <= distances@.len(),
                is_first_least(distances@.take(i as int), least as int),
            decreases distances@.len() - i,
        {
            let ghost sofar = distances@.take(i as int);
            let ghost more = distances@.take(i + 1);
            assert(forall|k: int| 0 <= k < i ==> more[k] == #[trigger] sofar[k]);
            if distances[i] < distances[least] {
                least = i;
            }
            i += 1;
        }
        assert(distances@.take(i as int) =~= distances@);
        Some(least)
    }

    /// The glyph nearest to a point, if the point lies on it or close to it.
    pub fn hit(&self, distances: &Vec<u32>) -> (index: Option<usize>)
        requires
            distances@.len() == self@.len(),
        ensures
            match index {
                Some(least) => is_first_least(distances@, least as int) && distances@[least as int]
                    <= HIT_DISTANCE,
                None => forall|i: int|
                    0 <= i < distances@.len() ==> #[trigger] distances@[i] > HIT_DISTANCE,
            },
            index is Some <==> exists|i: int|
                0 <= i < distances@.len() && is_hit(#[trigger] distances@[i]),
            index is Some ==> is_hit(distances@[index->0 as int]),
    {
        match self.nearest(distances) {
            Some(index) => if distances[index] <= HIT_DISTANCE {
                Some(index)
            } else {
                None
            },
            None => None,
        }
    }

    /// The text of the glyphs from `anchor` to `focus`, in either order. Nothing is copied where
    /// the selection reaches beyond the page's glyphs.
    pub fn copied_text(&self, anchor: usize, focus: usize) -> (copy: String)
        ensures
            copy@ == copied(self@, anchor, focus),
    {
        let mut copy = String::new();
        if let Some((start, end)) = selected_range(anchor, focus, self.glyphs.len()) {
            copy.append(self.glyphs[start].text.as_str());
            let mut i: usize = start;
            assert(copy@ =~= text_between(self@, start as int, i as int));
            while i < end
                invariant
                    start <= i <= end < self.glyphs@.len(),
                    copy@ =~= text_between(self@, start as int, i as int),
                decreases end - i,
            {
                let glyph = &self.glyphs[i + 1];
                let before = &self.glyphs[i];
                if glyph.new_line {
                    copy.push('\n');
                } else if glyph.run != before.run && glyph.wide_gap {
                    copy.push(' ');
                }
                copy.append(glyph.text.as_str());
                i += 1;
            }
        }
        assert(copy@ =~= copied(self@, anchor, focus));
        copy
    }

    /// Prepares the page for searching.
    pub fn search_page(&self) -> (page: SearchPage)
        ensures
            page@ == letters_of(self@, self@.len() as int),
    {
        let mut letters: Vec<(char, usize)> = Vec::new();
        let mut i: usize = 0;
        while i < self.glyphs.len()
            invariant
                i <= self.glyphs@.len(),
                letters@ =~= letters_of(self@, i as int),
            decreases self.glyphs@.len() - i,
        {
            let glyph = &self.glyphs[i];
            if i > 0 && (glyph.new_line || (glyph.run != self.glyphs[i - 1].run
                && glyph.wide_gap)) {
                push_search_char(&mut letters, ' ', i);
            }
            let ghost start = letters@;
            let mut lowered = String::new();
            for c in it: glyph.text.as_str().chars()
                invariant
                    it.seq() == glyph.text@,
                    lowered@ =~= lower_cased(glyph.text@.take(it.index())),
            {
                proof {
                    assert(glyph.text@.take(it.index() + 1).drop_last() =~= glyph.text@.take(
                        it.index(),
                    ));
                }
                lowered.append(lower_case_of(c).as_str());
            }
            assert(glyph.text@.take(glyph.text@.len() as int) =~= glyph.text@);
            let text = chars_of(lowered.as_str());
            let mut j: usize = 0;
            assert(text@.take(0) =~= Seq::empty());
            while j < text.len()
                invariant
                    j <= text@.len(),
                    letters@ =~= with_chars(start, text@.take(j as int), i),
                decreases text@.len() - j,
            {
                push_search_char(&mut letters, text[j], i);
                assert(text@.take(j + 1).drop_last() =~= text@.take(j as int));
                j += 1;
            }
            assert(text@.take(j as int) =~= text@);
            i += 1;
        }
        SearchPage { letters }
    }
}

/// A page prepared for searching: its letters, and the glyph that each comes from.
#[derive(Debug)]
pub struct SearchPage {
    letters: Vec<(char, usize)>,
}

impl View for SearchPage {
    type V = Seq<(char, usize)>;

    closed spec fn view(&self) -> Seq<(char, usize)> {
        self.letters@
    }
}

/// Whether `needle` stands at index `at` of the letters.
pub open spec fn occurs_at(letters: Seq<(char, usize)>, needle: Seq<char>, at: int) -> bool {
    &&& 0 <= at
    &&& at + needle.len() <= letters.len()
    &&& forall|i: int| 0 <= i < needle.len() ==> letters[at + i].0 == #[trigger] needle[i]
}

/// Where `needle` occurs from index `from` on: each time at the first place after the occurrence
/// before it.
pub open spec fn occurrences(letters: Seq<(char, usize)>, needle: Seq<char>, from: int) -> Seq<int>
    decreases letters.len() - from,
{
    if needle.len() == 0 || from < 0 || from + needle.len() > letters.len() {
        Seq::empty()
    } else if occurs_at(letters, needle, from) {
        seq![from] + occurrences(letters, needle, from + needle.len())
    } else {
        occurrences(letters, needle, from + 1)
    }
}

/// The first and the last glyph of each occurrence of `needle`.
pub open spec fn ranges(letters: Seq<(char, usize)>, needle: Seq<char>) -> Seq<(usize, usize)> {
    occurrences(letters, needle, 0).map_values(
        |at: int| (letters[at].1, letters[at + needle.len() - 1].1),
    )
}

/// What a query looks for: its words in lower case, single spaces between them.
pub open spec fn needle_of(query: Seq<char>) -> Seq<char> {
    chars::in_lower_case(chars::joined(chars::words(query), " "@))
}

impl SearchPage {
    /// Where a text, taken as it is, occurs on the page.
    pub fn occurrences(&self, needle: &str) -> (found: Vec<(usize, usize)>)
        ensures
            found@ == ranges(self@, needle@),
    {
        let mut found: Vec<(usize, usize)> = Vec::new();
        let wanted = chars_of(needle);
        let ghost pair = |at: int|
            (self.letters@[at].1, self.letters@[at + needle@.len() - 1].1);
        let ghost all = occurrences(self@, needle@, 0);
        if wanted.len() == 0 {
            assert(found@ =~= ranges(self@, needle@));
            return found;
        }
        let mut at: usize = 0;
        while at < self.letters.len() && self.letters.len() - at >= wanted.len()
            invariant
                wanted@ == needle@,
                wanted@.len() > 0,
                at <= self.letters@.len(),
                pair == (|at: int|
                    (self.letters@[at].1, self.letters@[at + needle@.len() - 1].1)),
                all == occurrences(self@, needle@, 0),
                all.map_values(pair) =~= found@ + occurrences(
                    self@,
                    needle@,
                    at as int,
                ).map_values(pair),
            decreases self.letters@.len() - at,
        {
            let mut i: usize = 0;
            while i < wanted.len() && self.letters[at + i].0 == wanted[i]
                invariant
                    wanted@ == needle@,
                    at + wanted@.len() <= self.letters@.len() <= usize::MAX,
                    i <= wanted@.len(),
                    forall|k: int|
                        0 <= k < i ==> self.letters@[at + k].0 == #[trigger] needle@[k],
                decreases wanted@.len() - i,
            {
                i += 1;
            }
            if i == wanted.len() {
                assert(occurs_at(self@, needle@, at as int));
                found.push((self.letters[at].1, self.letters[at + (wanted.len() - 1)].1));
                at += wanted.len();
            } else {
                assert(self.letters@[at + i].0 != needle@[i as int]);
                assert(!occurs_at(self@, needle@, at as int));
                at += 1;
            }
        }
        assert(occurrences(self@, needle@, at as int) =~= Seq::empty());
        assert(found@ =~= ranges(self@, needle@));
        found
    }

    /// Where a query occurs on the page, as ranges of glyphs. It is taken in lower case, as the
    /// letters of the page are, and with single spaces between its words.
    pub fn matches(&self, query: &str) -> (found: Vec<(usize, usize)>)
        ensures
            found@ == ranges(self@, needle_of(query@)),
    {
        let list = split_words(query);
        let joined = join(&list, " ");
        let needle = joined.as_str().to_lowercase();
        self.occurrences(needle.as_str())
    }
}

/// A selection copies the same text whichever way it was dragged.
pub proof fn copying_ignores_direction(glyphs: Seq<Glyph>, anchor: usize, focus: usize)
    ensures
        copied(glyphs, anchor, focus) == copied(glyphs, focus, anchor),
{
}

/// The text of a selection is that of its two parts, with what separates them between.
pub proof fn copying_splits(glyphs: Seq<Glyph>, start: int, middle: int, end: int)
    requires
        0 <= start <= middle < end < glyphs.len(),
    ensures
        text_between(glyphs, start, end) == text_between(glyphs, start, middle) + separator(
            glyphs,
            middle + 1,
        ) + text_between(glyphs, middle + 1, end),
    decreases end - middle,
{
    if middle + 1 < end {
        copying_splits(glyphs, start, middle, end - 1);
    }
    assert(text_between(glyphs, start, end) =~= text_between(glyphs, start, middle) + separator(
        glyphs,
        middle + 1,
    ) + text_between(glyphs, middle + 1, end));
}

/// Whether letters hold no white space but single spaces between other characters, or at the end.
pub open spec fn is_normal(letters: Seq<(char, usize)>) -> bool {
    &&& forall|i: int|
        0 <= i < letters.len() && chars::white_space((#[trigger] letters[i]).0) ==> letters[i].0 == ' '
    &&& letters.len() > 0 ==> letters[0].0 != ' '
    &&& forall|i: int|
        0 < i < letters.len() && (#[trigger] letters[i]).0 == ' ' ==> letters[i - 1].0 != ' '
}

/// Whether the letters come from glyphs below `count`, and from one after the other.
pub open spec fn is_ordered(letters: Seq<(char, usize)>, count: int) -> bool {
    &&& forall|i: int| 0 <= i < letters.len() ==> (#[trigger] letters[i]).1 < count
    &&& forall|i: int, j: int|
        0 <= i <= j < letters.len() ==> (#[trigger] letters[i]).1 <= (#[trigger] letters[j]).1
}

proof fn lemma_with_chars(letters: Seq<(char, usize)>, s: Seq<char>, index: usize)
    requires
        is_normal(letters),
        is_ordered(letters, index + 1),
    ensures
        is_normal(with_chars(letters, s, index)),
        is_ordered(with_chars(letters, s, index), index + 1),
    decreases s.len(),
{
    if s.len() > 0 {
        lemma_with_chars(letters, s.drop_last(), index);
    }
}

/// The letters of a page hold no white space but single spaces between words, and come from its
/// glyphs in their order.
pub proof fn letters_are_normal(glyphs: Seq<Glyph>, count: int)
    requires
        0 <= count <= glyphs.len() <= usize::MAX,
    ensures
        is_normal(letters_of(glyphs, count)),
        is_ordered(letters_of(glyphs, count), count),
    decreases count,
{
    if count > 0 {
        letters_are_normal(glyphs, count - 1);
        let i = count - 1;
        let before = letters_of(glyphs, i);
        let start = if i > 0 && (glyphs[i].new_line || is_spaced(glyphs, i)) {
            with_char(before, ' ', i as usize)
        } else {
            before
        };
        assert(is_normal(start));
        assert(is_ordered(start, count));
        lemma_with_chars(start, lower_cased(glyphs[i].text), i as usize);
    }
}

/// Whether the needle stands at all of the places, which do not overlap and follow each other from
/// `from` on.
pub open spec fn are_apart(
    places: Seq<int>,
    letters: Seq<(char, usize)>,
    needle: Seq<char>,
    from: int,
) -> bool {
    &&& forall|i: int|
        0 <= i < places.len() ==> from <= #[trigger] places[i] && occurs_at(
            letters,
            needle,
            places[i],
        )
    &&& forall|i: int, j: int|
        0 <= i < j < places.len() ==> #[trigger] places[i] + needle.len() <= #[trigger] places[j]
}

/// Searching finds places at which the needle stands, from left to right and without overlap.
pub proof fn occurrences_hold_the_needle(letters: Seq<(char, usize)>, needle: Seq<char>, from: int)
    requires
        0 <= from,
    ensures
        are_apart(occurrences(letters, needle, from), letters, needle, from),
    decreases letters.len() - from,
{
    if needle.len() > 0 && from + needle.len() <= letters.len() {
        if occurs_at(letters, needle, from) {
            occurrences_hold_the_needle(letters, needle, from + needle.len());
            let rest = occurrences(letters, needle, from + needle.len());
            let all = occurrences(letters, needle, from);
            assert(all =~= seq![from] + rest);
            assert(forall|i: int| 0 < i < all.len() ==> #[trigger] all[i] == rest[i - 1]);
        } else {
            occurrences_hold_the_needle(letters, needle, from + 1);
        }
    }
}

/// Searching misses nothing: wherever the needle stands, a place is found that begins there or that
/// overlaps it from the left.
pub proof fn occurrences_are_complete(
    letters: Seq<(char, usize)>,
    needle: Seq<char>,
    from: int,
    at: int,
)
    requires
        0 <= from <= at,
        needle.len() > 0,
        occurs_at(letters, needle, at),
    ensures
        exists|i: int|
            0 <= i < occurrences(letters, needle, from).len() && #[trigger] occurrences(
                letters,
                needle,
                from,
            )[i] <= at < occurrences(letters, needle, from)[i] + needle.len(),
    decreases letters.len() - from,
{
    let all = occurrences(letters, needle, from);
    if occurs_at(letters, needle, from) {
        let rest = occurrences(letters, needle, from + needle.len());
        assert(all =~= seq![from] + rest);
        if at < from + needle.len() {
            assert(all[0] == from);
        } else {
            occurrences_are_complete(letters, needle, from + needle.len(), at);
            let i = choose|i: int|
                0 <= i < rest.len() && #[trigger] rest[i] <= at < rest[i] + needle.len();
            assert(all[i + 1] == rest[i]);
        }
    } else {
        occurrences_are_complete(letters, needle, from + 1, at);
    }
}

/// The ranges that a search of a page gives are ranges of its glyphs.
pub proof fn ranges_lie_on_the_page(glyphs: Seq<Glyph>, needle: Seq<char>, i: int)
    requires
        glyphs.len() <= usize::MAX,
        0 <= i < ranges(letters_of(glyphs, glyphs.len() as int), needle).len(),
    ensures
        ranges(letters_of(glyphs, glyphs.len() as int), needle)[i].0 <= ranges(
            letters_of(glyphs, glyphs.len() as int),
            needle,
        )[i].1 < glyphs.len(),
{
    let letters = letters_of(glyphs, glyphs.len() as int);
    letters_are_normal(glyphs, glyphs.len() as int);
    occurrences_hold_the_needle(letters, needle, 0);
    let at = occurrences(letters, needle, 0)[i];
    assert(occurs_at(letters, needle, at));
    assert(letters[at].1 <= letters[at + needle.len() - 1].1);
}

/// A query without words finds nothing.
pub proof fn blank_queries_find_nothing(letters: Seq<(char, usize)>, query: Seq<char>)
    requires
        chars::trimmed(query).len() == 0,
    ensures
        ranges(letters, needle_of(query)) == Seq::<(usize, usize)>::empty(),
{
    chars::trimming_leaves_words(query);
    assert(needle_of(query) =~= Seq::empty());
    assert(ranges(letters, needle_of(query)) =~= Seq::empty());
}

/// Whether the words of two queries differ in nothing but the case of ASCII letters.
pub open spec fn same_but_for_case(query: Seq<char>, other: Seq<char>) -> bool {
    &&& chars::words(query).len() == chars::words(other).len()
    &&& forall|i: int|
        0 <= i < chars::words(query).len() ==> chars::ascii_lowered(
            #[trigger] chars::words(query)[i],
        ) == chars::ascii_lowered(chars::words(other)[i])
}

/// ASCII queries whose words differ in nothing but case look for the same.
pub proof fn needles_ignore_ascii_case(query: Seq<char>, other: Seq<char>)
    requires
        chars::all_ascii(query),
        chars::all_ascii(other),
        same_but_for_case(query, other),
    ensures
        needle_of(query) == needle_of(other),
{
    reveal_strlit(" ");
    let low = |s: Seq<char>| chars::ascii_lowered(s);
    chars::words_of_ascii_are_ascii(query);
    chars::words_of_ascii_are_ascii(other);
    chars::joining_keeps_ascii(chars::words(query), " "@);
    chars::joining_keeps_ascii(chars::words(other), " "@);
    assert(chars::words(query).map_values(low) =~= chars::words(other).map_values(low));
}

/// What an ASCII query finds on a page does not depend on the case of its letters.
pub proof fn matching_ignores_ascii_case(
    letters: Seq<(char, usize)>,
    query: Seq<char>,
    other: Seq<char>,
)
    requires
        chars::all_ascii(query),
        chars::all_ascii(other),
        same_but_for_case(query, other),
    ensures
        ranges(letters, needle_of(query)) == ranges(letters, needle_of(other)),
{
    needles_ignore_ascii_case(query, other);
}

/// A text with its white space made single spaces, and none at the beginning.
pub open spec fn collapsed(s: Seq<char>) -> Seq<char>
    decreases s.len(),
{
    if s.len() == 0 {
        s
    } else {
        let before = collapsed(s.drop_last());
        if !chars::white_space(s.last()) {
            before.push(s.last())
        } else if before.len() == 0 || before.last() == ' ' {
            before
        } else {
            before.push(' ')
        }
    }
}

/// The characters of letters.
pub open spec fn text_of(letters: Seq<(char, usize)>) -> Seq<char> {
    letters.map_values(|letter: (char, usize)| letter.0)
}

proof fn lemma_collapsed(letters: Seq<(char, usize)>, before: Seq<char>, s: Seq<char>, index: usize)
    requires
        text_of(letters) == collapsed(before),
    ensures
        text_of(with_chars(letters, s, index)) == collapsed(before + s),
    decreases s.len(),
{
    if s.len() == 0 {
        assert(before + s =~= before);
    } else {
        lemma_collapsed(letters, before, s.drop_last(), index);
        assert((before + s).drop_last() =~= before + s.drop_last());
        let sofar = with_chars(letters, s.drop_last(), index);
        assert(sofar.len() == text_of(sofar).len());
        assert(text_of(with_chars(letters, s, index)) =~= collapsed(before + s));
    }
}

proof fn lemma_lower_cased(a: Seq<char>, b: Seq<char>)
    ensures
        lower_cased(a + b) == lower_cased(a) + lower_cased(b),
    decreases b.len(),
{
    if b.len() == 0 {
        assert(a + b =~= a);
        assert(lower_cased(a) + Seq::<char>::empty() =~= lower_cased(a));
    } else {
        lemma_lower_cased(a, b.drop_last());
        assert((a + b).drop_last() =~= a + b.drop_last());
        assert(lower_cased(a + b) =~= lower_cased(a) + lower_cased(b));
    }
}

proof fn lemma_searched_text(glyphs: Seq<Glyph>, count: int)
    requires
        0 < count <= glyphs.len() <= usize::MAX,
    ensures
        text_of(letters_of(glyphs, count)) == collapsed(
            lower_cased(text_between(glyphs, 0, count - 1)),
        ),
    decreases count,
{
    let i = count - 1;
    let before = letters_of(glyphs, i);
    let text = glyphs[i].text;
    if i == 0 {
        assert(text_of(before) =~= collapsed(Seq::empty()));
        lemma_collapsed(before, Seq::empty(), lower_cased(text), 0);
        assert(Seq::<char>::empty() + lower_cased(text) =~= lower_cased(text));
    } else {
        lemma_searched_text(glyphs, i);
        let copied = text_between(glyphs, 0, i - 1);
        let gap = separator(glyphs, i);
        lemma_lower_cased(copied, gap);
        lemma_lower_cased(copied + gap, text);
        lemma_lower_gap(gap);
        lemma_collapsed(before, lower_cased(copied), gap, i as usize);
        let start = with_chars(before, gap, i as usize);
        lemma_gap(before, gap, i as usize);
        lemma_collapsed(
            start,
            lower_cased(copied) + gap,
            lower_cased(text),
            i as usize,
        );
        assert(letters_of(glyphs, count) == with_chars(start, lower_cased(text), i as usize));
    }
}

proof fn lemma_lower_gap(gap: Seq<char>)
    requires
        gap.len() <= 1,
        gap.len() == 1 ==> gap[0] == ' ' || gap[0] == '\n',
    ensures
        lower_cased(gap) == gap,
{
    if gap.len() == 1 {
        assert(gap.drop_last() =~= Seq::empty());
        assert(lower_cased(gap.drop_last()) =~= Seq::empty());
    }
    assert(lower_cased(gap) =~= gap);
}

proof fn lemma_gap(letters: Seq<(char, usize)>, gap: Seq<char>, index: usize)
    requires
        gap.len() <= 1,
        gap.len() == 1 ==> gap[0] == ' ' || gap[0] == '\n',
    ensures
        with_chars(letters, gap, index) == if gap.len() == 1 {
            with_char(letters, ' ', index)
        } else {
            letters
        },
{
    if gap.len() == 1 {
        assert(gap.drop_last() =~= Seq::empty());
        assert(with_chars(letters, gap.drop_last(), index) == letters);
    }
}

/// The text that a page is searched for is the text that copying all of it gives, in lower case and
/// with its white space made single spaces. Each character comes from a glyph of the page, and from
/// one after the other.
pub proof fn searched_text_is_the_copied_text(glyphs: Seq<Glyph>)
    requires
        0 < glyphs.len() <= usize::MAX,
    ensures
        text_of(letters_of(glyphs, glyphs.len() as int)) == collapsed(
            lower_cased(copied(glyphs, 0, (glyphs.len() - 1) as usize)),
        ),
        is_ordered(letters_of(glyphs, glyphs.len() as int), glyphs.len() as int),
{
    lemma_searched_text(glyphs, glyphs.len() as int);
    letters_are_normal(glyphs, glyphs.len() as int);
}

/// What a selection copies is told glyph by glyph: a line break where a new line begins, a space
/// where another run goes on behind a wide gap in the same line, and else nothing stands between
/// the texts of two neighbours.
pub proof fn copied_text_has_the_gaps_of_the_page(glyphs: Seq<Glyph>, start: usize, end: usize)
    requires
        start < end < glyphs.len(),
    ensures
        copied(glyphs, start, start) == glyphs[start as int].text,
        glyphs[end as int].new_line ==> copied(glyphs, start, end) == copied(
            glyphs,
            start,
            (end - 1) as usize,
        ) + seq!['\n'] + glyphs[end as int].text,
        !glyphs[end as int].new_line && glyphs[end as int].wide_gap && glyphs[end as int].run
            != glyphs[end - 1].run ==> copied(glyphs, start, end) == copied(
            glyphs,
            start,
            (end - 1) as usize,
        ) + seq![' '] + glyphs[end as int].text,
        !glyphs[end as int].new_line && !(glyphs[end as int].wide_gap && glyphs[end as int].run
            != glyphs[end - 1].run) ==> copied(glyphs, start, end) == copied(
            glyphs,
            start,
            (end - 1) as usize,
        ) + glyphs[end as int].text,
{
    let before = copied(glyphs, start, (end - 1) as usize);
    assert(before + Seq::<char>::empty() + glyphs[end as int].text =~= before
        + glyphs[end as int].text);
}

/// A selection that reaches beyond the glyphs copies nothing.
pub proof fn nothing_is_copied_beyond_the_page(glyphs: Seq<Glyph>, anchor: usize, focus: usize)
    requires
        anchor >= glyphs.len() || focus >= glyphs.len(),
    ensures
        copied(glyphs, anchor, focus) == Seq::<char>::empty(),
{
}

/// A selection within a line without wide gaps copies the texts of its glyphs one after the other,
/// whatever runs they belong to.
pub proof fn unbroken_text_is_copied_whole(glyphs: Seq<Glyph>, start: usize, end: usize)
    requires
        start <= end < glyphs.len(),
        forall|i: int|
            start < i <= end ==> !(#[trigger] glyphs[i]).new_line && !glyphs[i].wide_gap,
    ensures
        copied(glyphs, start, end) == Seq::new(
            (end - start + 1) as nat,
            |i: int| glyphs[start + i].text,
        ).flatten(),
    decreases end - start,
{
    let f = |i: int| glyphs[start + i].text;
    chars::lemma_flatten_new((end - start) as nat, f);
    if start < end {
        unbroken_text_is_copied_whole(glyphs, start, (end - 1) as usize);
        copied_text_has_the_gaps_of_the_page(glyphs, start, end);
        assert(glyphs[end as int].text == f(end - start));
    } else {
        chars::lemma_flatten_new(0, f);
    }
    assert(copied(glyphs, start, end) =~= Seq::new((end - start + 1) as nat, f).flatten());
}

proof fn lemma_added(letters: Seq<(char, usize)>, s: Seq<char>, index: usize)
    ensures
        letters.len() <= with_chars(letters, s, index).len(),
        with_chars(letters, s, index).take(letters.len() as int) == letters,
        forall|k: int|
            letters.len() <= k < with_chars(letters, s, index).len() ==> (#[trigger] with_chars(
                letters,
                s,
                index,
            )[k]).1 == index,
    decreases s.len(),
{
    let all = with_chars(letters, s, index);
    if s.len() > 0 {
        lemma_added(letters, s.drop_last(), index);
        let before = with_chars(letters, s.drop_last(), index);
        assert(all.take(letters.len() as int) =~= before.take(letters.len() as int));
        assert forall|k: int| letters.len() <= k < all.len() implies (#[trigger] all[k]).1
            == index by {
            if k < before.len() {
                assert(all[k] == before[k]);
            }
        }
    } else {
        assert(all.take(letters.len() as int) =~= letters);
    }
}

/// The letters that a glyph adds to a page stand behind those of the glyphs before it, and each of
/// them is known to come from it.
pub proof fn letters_know_their_glyphs(glyphs: Seq<Glyph>, i: int)
    requires
        0 <= i < glyphs.len() <= usize::MAX,
    ensures
        letters_of(glyphs, i).len() <= letters_of(glyphs, i + 1).len(),
        letters_of(glyphs, i + 1).take(letters_of(glyphs, i).len() as int) == letters_of(
            glyphs,
            i,
        ),
        forall|k: int|
            letters_of(glyphs, i).len() <= k < letters_of(glyphs, i + 1).len() ==> (
            #[trigger] letters_of(glyphs, i + 1)[k]).1 == i,
{
    let before = letters_of(glyphs, i);
    let start = if i > 0 && (glyphs[i].new_line || is_spaced(glyphs, i)) {
        with_char(before, ' ', i as usize)
    } else {
        before
    };
    let all = letters_of(glyphs, i + 1);
    lemma_added(start, lower_cased(glyphs[i].text), i as usize);
    assert(all.take(before.len() as int) =~= start.take(before.len() as int));
    assert(start.take(before.len() as int) =~= before);
    assert forall|k: int| before.len() <= k < all.len() implies (#[trigger] all[k]).1 == i by {
        if k < start.len() {
            assert(all.take(start.len() as int)[k] == start[k]);
        }
    }
}

/// Where a search finds something, the needle stands in the text of the page, from the first glyph
/// of the range to the last.
pub proof fn ranges_show_the_needle(letters: Seq<(char, usize)>, needle: Seq<char>, i: int)
    requires
        0 <= i < ranges(letters, needle).len(),
    ensures
        needle.len() > 0,
        exists|at: int|
            {
                &&& 0 <= at
                &&& at + needle.len() <= letters.len()
                &&& #[trigger] text_of(letters).subrange(at, at + needle.len()) == needle
                &&& ranges(letters, needle)[i] == (
                    letters[at].1,
                    letters[at + needle.len() - 1].1,
                )
            },
{
    occurrences_hold_the_needle(letters, needle, 0);
    let at = occurrences(letters, needle, 0)[i];
    assert(occurs_at(letters, needle, at));
    assert(text_of(letters).subrange(at, at + needle.len()) =~= needle);
}

/// Wherever the needle stands in the text of a page, a search finds a place that begins there or
/// that overlaps it from the left.
pub proof fn needles_are_found(letters: Seq<(char, usize)>, needle: Seq<char>, at: int)
    requires
        needle.len() > 0,
        0 <= at,
        at + needle.len() <= letters.len(),
        text_of(letters).subrange(at, at + needle.len()) == needle,
    ensures
        exists|i: int, place: int|
            {
                &&& 0 <= i < ranges(letters, needle).len()
                &&& 0 <= place <= at < place + needle.len()
                &&& place + needle.len() <= letters.len()
                &&& #[trigger] text_of(letters).subrange(place, place + needle.len()) == needle
                &&& #[trigger] ranges(letters, needle)[i] == (
                    letters[place].1,
                    letters[place + needle.len() - 1].1,
                )
            },
{
    assert forall|i: int| 0 <= i < needle.len() implies letters[at + i].0
        == #[trigger] needle[i] by {
        assert(text_of(letters).subrange(at, at + needle.len())[i] == letters[at + i].0);
    }
    occurrences_are_complete(letters, needle, 0, at);
    occurrences_hold_the_needle(letters, needle, 0);
    let all = occurrences(letters, needle, 0);
    let i = choose|i: int| 0 <= i < all.len() && #[trigger] all[i] <= at < all[i] + needle.len();
    let place = all[i];
    assert(occurs_at(letters, needle, place));
    assert(text_of(letters).subrange(place, place + needle.len()) =~= needle);
    assert(ranges(letters, needle)[i] == (letters[place].1, letters[place + needle.len() - 1].1));
}

/// What is found follows one after the other without overlap: the ranges of a search go forward.
pub proof fn ranges_go_forward(
    letters: Seq<(char, usize)>,
    needle: Seq<char>,
    count: int,
    i: int,
    j: int,
)
    requires
        is_ordered(letters, count),
        0 <= i < j < ranges(letters, needle).len(),
    ensures
        ranges(letters, needle)[i].0 <= ranges(letters, needle)[i].1 <= ranges(letters, needle)[j].0,
{
    occurrences_hold_the_needle(letters, needle, 0);
    let all = occurrences(letters, needle, 0);
    let a = all[i];
    let b = all[j];
    assert(occurs_at(letters, needle, a) && occurs_at(letters, needle, b));
    assert(a + needle.len() <= b);
    assert(needle.len() > 0);
    assert(letters[a].1 <= letters[a + needle.len() - 1].1);
    assert(letters[a + needle.len() - 1].1 <= letters[b].1);
}

/// An ASCII query looks for its words as they are, with small letters and a single space between
/// neighbours.
pub proof fn needles_are_small_letters(query: Seq<char>, i: int)
    requires
        chars::all_ascii(query),
    ensures
        needle_of(query).len() == chars::joined(chars::words(query), seq![' ']).len(),
        0 <= i < needle_of(query).len() ==> ({
            let c = chars::joined(chars::words(query), seq![' '])[i];
            if 'A' <= c <= 'Z' {
                needle_of(query)[i] as u32 == c as u32 + 32
            } else {
                needle_of(query)[i] == c
            }
        }),
{
    reveal_strlit(" ");
    assert(" "@ =~= seq![' ']);
    chars::words_of_ascii_are_ascii(query);
    chars::joining_keeps_ascii(chars::words(query), " "@);
}

/// The letters of an ASCII text are searched as small letters, one for one.
pub proof fn ascii_text_is_searched_as_small_letters(s: Seq<char>)
    requires
        chars::all_ascii(s),
    ensures
        lower_cased(s).len() == s.len(),
        forall|i: int|
            0 <= i < s.len() ==> if 'A' <= s[i] <= 'Z' {
                (#[trigger] lower_cased(s)[i]) as u32 == s[i] as u32 + 32
            } else {
                lower_cased(s)[i] == s[i]
            },
    decreases s.len(),
{
    if s.len() > 0 {
        ascii_text_is_searched_as_small_letters(s.drop_last());
        let before = lower_cased(s.drop_last());
        assert(chars::is_ascii(s.last()));
        assert(lower_cased(s) =~= before.push(chars::ascii_lower(s.last())));
        assert forall|i: int| 0 <= i < s.len() implies if 'A' <= s[i] <= 'Z' {
            (#[trigger] lower_cased(s)[i]) as u32 == s[i] as u32 + 32
        } else {
            lower_cased(s)[i] == s[i]
        } by {
            if i < before.len() {
                assert(lower_cased(s)[i] == before[i]);
                assert(s.drop_last()[i] == s[i]);
            }
        }
    }
}

proof fn lemma_same_words(a: Seq<char>, b: Seq<char>, c: char)
    requires
        chars::words(a) == chars::words(b),
        a.len() > 0 && b.len() > 0 ==> chars::white_space(a.last()) == chars::white_space(b.last()),
        a.len() > 0 && b.len() == 0 ==> chars::white_space(a.last()),
        a.len() == 0 ==> b.len() == 0,
    ensures
        chars::words(a.push(c)) == chars::words(b.push(c)),
    decreases a.len() + b.len(),
{
    chars::lemma_words_push(a, c);
    chars::lemma_words_push(b, c);
}

/// White space in a text counts as a single space where the text is searched: the words stay what
/// they are.
pub proof fn collapsing_keeps_the_words(s: Seq<char>)
    ensures
        chars::words(collapsed(s)) == chars::words(s),
        s.len() > 0 && collapsed(s).len() > 0 ==> chars::white_space(s.last())
            == chars::white_space(collapsed(s).last()),
        s.len() > 0 && collapsed(s).len() == 0 ==> chars::white_space(s.last()),
        s.len() == 0 ==> collapsed(s).len() == 0,
    decreases s.len(),
{
    if s.len() > 0 {
        let c = s.last();
        let rest = s.drop_last();
        let before = collapsed(rest);
        collapsing_keeps_the_words(rest);
        assert(s =~= rest.push(c));
        chars::lemma_words_push(rest, c);
        if !chars::white_space(c) {
            lemma_same_words(rest, before, c);
        } else {
            chars::lemma_words_push(before, ' ');
        }
    }
}

proof fn lemma_least(keys: Seq<u32>, i: int, j: int)
    requires
        is_first_least(keys, i),
        is_first_least(keys, j),
    ensures
        i == j,
{
    assert(keys[i] <= keys[j] && keys[j] <= keys[i]);
}

/// The nearest glyph has no key above that of any other, and comes before all others with that key.
/// There is one such glyph at most, and a glyph counts as hit up to a squared distance of sixteen,
/// the fourth power of two, in the notation of single precision.
pub proof fn nearest_glyph_is_the_first_of_the_least(keys: Seq<u32>, i: int, j: int)
    requires
        is_first_least(keys, i),
        0 <= j < keys.len(),
    ensures
        0 <= i < keys.len(),
        keys[i] <= keys[j],
        j < i ==> keys[i] < keys[j],
        is_first_least(keys, j) ==> i == j,
        HIT_DISTANCE == (127 + 4) * 0x80_0000,
{
    if is_first_least(keys, j) {
        lemma_least(keys, i, j);
    }
}

proof fn lemma_run_splits(first: Seq<Fragment>, second: Seq<Fragment>, start: usize)
    ensures
        run_glyphs(first + second, start) == run_glyphs(first, start) + run_glyphs(second, start),
    decreases second.len(),
{
    let all = first + second;
    if second.len() == 0 {
        assert(all =~= first);
        assert(run_glyphs(first, start) + Seq::<Glyph>::empty() =~= run_glyphs(first, start));
    } else {
        lemma_run_splits(first, second.drop_last(), start);
        assert(all.drop_last() =~= first + second.drop_last());
        assert(run_glyphs(all, start) =~= run_glyphs(first, start) + run_glyphs(second, start));
    }
}

/// The glyphs of a run are those of its fragments in their order. A fragment with a text gives one
/// glyph, which shows that text, and a fragment without gives none.
pub proof fn runs_give_their_glyphs_in_order(
    first: Seq<Fragment>,
    fragment: Fragment,
    second: Seq<Fragment>,
    start: usize,
)
    ensures
        fragment.text is Some && fragment.text->0@.len() > 0 ==> run_glyphs(
            first.push(fragment) + second,
            start,
        ) == run_glyphs(first, start).push(
            Glyph {
                text: fragment.text->0@,
                run: start,
                new_line: fragment.new_line,
                wide_gap: fragment.wide_gap,
            },
        ) + run_glyphs(second, start),
        !(fragment.text is Some && fragment.text->0@.len() > 0) ==> run_glyphs(
            first.push(fragment) + second,
            start,
        ) == run_glyphs(first, start) + run_glyphs(second, start),
        run_glyphs(Seq::empty(), start) == Seq::<Glyph>::empty(),
{
    lemma_run_splits(first.push(fragment), second, start);
    assert(first.push(fragment).drop_last() =~= first);
}

/// A run stands behind the runs before it, and its glyphs know the index of the first of them.
pub proof fn pages_hold_their_runs_in_order(runs: Seq<Vec<Fragment>>, run: Vec<Fragment>)
    requires
        page_glyphs(runs).len() <= usize::MAX,
    ensures
        page_glyphs(runs.push(run)) == page_glyphs(runs) + run_glyphs(
            run@,
            page_glyphs(runs).len() as usize,
        ),
        page_glyphs(Seq::empty()) == Seq::<Glyph>::empty(),
        forall|i: int|
            page_glyphs(runs).len() <= i < page_glyphs(runs.push(run)).len() ==> (
            #[trigger] page_glyphs(runs.push(run))[i]).run == page_glyphs(runs).len(),
{
    assert(runs.push(run).drop_last() =~= runs);
    lemma_run_number(run@, page_glyphs(runs).len() as usize);
}

proof fn lemma_run_number(run: Seq<Fragment>, start: usize)
    ensures
        forall|i: int|
            0 <= i < run_glyphs(run, start).len() ==> (#[trigger] run_glyphs(run, start)[i]).run
                == start,
    decreases run.len(),
{
    if run.len() > 0 {
        lemma_run_number(run.drop_last(), start);
        let before = run_glyphs(run.drop_last(), start);
        assert forall|i: int| 0 <= i < run_glyphs(run, start).len() implies (#[trigger] run_glyphs(
            run,
            start,
        )[i]).run == start by {
            if i < before.len() {
                assert(run_glyphs(run, start)[i] == before[i]);
            }
        }
    }
}

/// A glyph counts as hit up to a squared distance of sixteen, and at sixteen too, in the notation of
/// single precision.
pub proof fn hits_reach_to_sixteen(key: u32)
    ensures
        is_hit(key) <==> key <= (127 + 4) * 0x80_0000,
{
}

/// Outside ASCII, a page is searched in the lower case of each character, and a query looks for its
/// words in the lower case of the whole.
pub proof fn other_letters_are_searched_in_lower_case(c: char, query: Seq<char>)
    ensures
        !chars::is_ascii(c) ==> lower_cased(seq![c]) == unicode_lower_case(c),
        !chars::all_ascii(chars::joined(chars::words(query), seq![' '])) ==> needle_of(query)
            == chars::unicode_lowercase(chars::joined(chars::words(query), seq![' '])),
{
    reveal_strlit(" ");
    assert(" "@ =~= seq![' ']);
    assert(seq![c].drop_last() =~= Seq::<char>::empty());
    assert(lower_cased(Seq::<char>::empty()) =~= Seq::<char>::empty());
    assert(lower_cased(seq![c]) =~= lower_case(c));
}

/// Text is searched in lower case piece by piece.
pub proof fn lower_case_goes_piece_by_piece(first: Seq<char>, second: Seq<char>)
    ensures
        lower_cased(first + second) == lower_cased(first) + lower_cased(second),
{
    lemma_lower_cased(first, second);
}

} // verus!

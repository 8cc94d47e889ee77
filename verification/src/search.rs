//! Searching a whole document.
use vstd::prelude::*;

use crate::chars::trim;
use crate::selection::SearchPage;
#[allow(unused_imports)]
use crate::{chars, selection};

verus! {

/// A match: its page, counted from one, and its first and last glyph.
#[derive(Clone, Copy, Debug, PartialEq, Eq, Structural)]
pub struct SearchMatch {
    pub page: usize,
    pub start: usize,
    pub end: usize,
}

/// The letters of the pages of a document.
pub open spec fn pages_view(pages: Seq<SearchPage>) -> Seq<Seq<(char, usize)>> {
    pages.map_values(|page: SearchPage| page@)
}

/// The matches that ranges of glyphs on one page stand for.
pub open spec fn on_page(found: Seq<(usize, usize)>, page: usize) -> Seq<SearchMatch> {
    found.map_values(
        |range: (usize, usize)| SearchMatch { page, start: range.0, end: range.1 },
    )
}

/// The matches of `needle` on the first `count` pages, page by page.
pub open spec fn matches_up_to(
    pages: Seq<Seq<(char, usize)>>,
    needle: Seq<char>,
    count: int,
) -> Seq<SearchMatch>
    decreases count,
{
    if count <= 0 {
        Seq::empty()
    } else {
        matches_up_to(pages, needle, count - 1) + on_page(
            selection::ranges(pages[count - 1], needle),
            count as usize,
        )
    }
}

/// The matches of a query in a document. A blank query has none.
pub open spec fn document_matches(pages: Seq<Seq<(char, usize)>>, query: Seq<char>) -> Seq<
    SearchMatch,
> {
    if chars::trimmed(query).len() == 0 {
        Seq::empty()
    } else {
        matches_up_to(pages, selection::needle_of(query), pages.len() as int)
    }
}

/// Searches all pages of a document.
pub fn find_document_matches(pages: &Vec<SearchPage>, query: &str) -> (matches: Vec<SearchMatch>)
    ensures
        matches@ == document_matches(pages_view(pages@), query@),
{
    let mut matches: Vec<SearchMatch> = Vec::new();
    if trim(query).as_str().is_empty() {
        return matches;
    }
    let ghost views = pages_view(pages@);
    let ghost needle = selection::needle_of(query@);
    let mut i: usize = 0;
    while i < pages.len()
        invariant
            i <= pages@.len(),
            views == pages_view(pages@),
            needle == selection::needle_of(query@),
            matches@ =~= matches_up_to(views, needle, i as int),
        decreases pages@.len() - i,
    {
        let found = pages[i].matches(query);
        let page: usize = i + 1;
        let ghost start = matches@;
        let mut j: usize = 0;
        while j < found.len()
            invariant
                j <= found@.len(),
                matches@ =~= start + on_page(found@, page).take(j as int),
            decreases found@.len() - j,
        {
            let (first, last) = found[j];
            matches.push(SearchMatch { page, start: first, end: last });
            j += 1;
        }
        assert(on_page(found@, page).take(j as int) =~= on_page(found@, page));
        i += 1;
    }
    matches
}

/// Whether matches are matches of `needle` on the first `count` pages, page after page.
pub open spec fn are_matches(
    matches: Seq<SearchMatch>,
    pages: Seq<Seq<(char, usize)>>,
    needle: Seq<char>,
    count: int,
) -> bool {
    &&& forall|i: int|
        0 <= i < matches.len() ==> 1 <= (#[trigger] matches[i]).page <= count && selection::ranges(
            pages[matches[i].page - 1],
            needle,
        ).contains((matches[i].start, matches[i].end))
    &&& forall|i: int, j: int|
        0 <= i <= j < matches.len() ==> (#[trigger] matches[i]).page <= (
        #[trigger] matches[j]).page
}

/// What a search gives are matches on pages of the document, in the order of the pages.
pub proof fn matches_stand_on_pages(
    pages: Seq<Seq<(char, usize)>>,
    needle: Seq<char>,
    count: int,
)
    requires
        0 <= count <= pages.len() <= usize::MAX,
    ensures
        are_matches(matches_up_to(pages, needle, count), pages, needle, count),
    decreases count,
{
    if count > 0 {
        matches_stand_on_pages(pages, needle, count - 1);
        let before = matches_up_to(pages, needle, count - 1);
        let found = selection::ranges(pages[count - 1], needle);
        let here = on_page(found, count as usize);
        let all = matches_up_to(pages, needle, count);
        assert(all =~= before + here);
        assert forall|i: int| before.len() <= i < all.len() implies (#[trigger] all[i]).page
            == count && found.contains((all[i].start, all[i].end)) by {
            let k = i - before.len();
            assert(all[i] == here[k]);
            assert(found[k] == (all[i].start, all[i].end));
        }
        assert forall|i: int| 0 <= i < before.len() implies #[trigger] all[i] == before[i] by {}
    }
}

/// Every match on a page of the document is found.
pub proof fn all_matches_are_found(
    pages: Seq<Seq<(char, usize)>>,
    needle: Seq<char>,
    count: int,
    page: int,
    range: (usize, usize),
)
    requires
        1 <= page <= count <= pages.len() <= usize::MAX,
        selection::ranges(pages[page - 1], needle).contains(range),
    ensures
        matches_up_to(pages, needle, count).contains(
            SearchMatch { page: page as usize, start: range.0, end: range.1 },
        ),
    decreases count,
{
    let wanted = SearchMatch { page: page as usize, start: range.0, end: range.1 };
    let before = matches_up_to(pages, needle, count - 1);
    let found = selection::ranges(pages[count - 1], needle);
    let here = on_page(found, count as usize);
    let all = matches_up_to(pages, needle, count);
    assert(all =~= before + here);
    if page == count {
        let k = choose|k: int| 0 <= k < found.len() && found[k] == range;
        assert(here[k] == wanted);
        assert(all[before.len() + k] == wanted);
    } else {
        all_matches_are_found(pages, needle, count - 1, page, range);
        let k = choose|k: int| 0 <= k < before.len() && before[k] == wanted;
        assert(all[k] == wanted);
    }
}

/// What a query finds in a document depends on its words alone.
pub proof fn searching_ignores_spacing(
    pages: Seq<Seq<(char, usize)>>,
    query: Seq<char>,
    other: Seq<char>,
)
    requires
        chars::words(query) == chars::words(other),
    ensures
        document_matches(pages, query) == document_matches(pages, other),
{
    chars::trimming_leaves_words(query);
    chars::trimming_leaves_words(other);
}

/// Matches with so many pages before theirs.
pub open spec fn after_pages(matches: Seq<SearchMatch>, pages: nat) -> Seq<SearchMatch> {
    matches.map_values(
        |found: SearchMatch| SearchMatch { page: (found.page + pages) as usize, ..found },
    )
}

proof fn lemma_first_pages(
    first: Seq<Seq<(char, usize)>>,
    second: Seq<Seq<(char, usize)>>,
    needle: Seq<char>,
    count: int,
)
    requires
        0 <= count <= first.len(),
    ensures
        matches_up_to(first + second, needle, count) == matches_up_to(first, needle, count),
    decreases count,
{
    if count > 0 {
        lemma_first_pages(first, second, needle, count - 1);
    }
}

proof fn lemma_more_pages(
    first: Seq<Seq<(char, usize)>>,
    second: Seq<Seq<(char, usize)>>,
    needle: Seq<char>,
    count: int,
)
    requires
        0 <= count <= second.len(),
        first.len() + second.len() <= usize::MAX,
    ensures
        matches_up_to(first + second, needle, first.len() + count) == matches_up_to(
            first,
            needle,
            first.len() as int,
        ) + after_pages(matches_up_to(second, needle, count), first.len()),
    decreases count,
{
    let all = first + second;
    let before = matches_up_to(first, needle, first.len() as int);
    if count == 0 {
        lemma_first_pages(first, second, needle, first.len() as int);
        assert(after_pages(Seq::empty(), first.len()) =~= Seq::empty());
        assert(before + Seq::<SearchMatch>::empty() =~= before);
    } else {
        lemma_more_pages(first, second, needle, count - 1);
        let found = selection::ranges(second[count - 1], needle);
        assert(all[first.len() + count - 1] == second[count - 1]);
        assert(on_page(found, (first.len() + count) as usize) =~= after_pages(
            on_page(found, count as usize),
            first.len(),
        ));
        assert(matches_up_to(all, needle, first.len() + count) =~= before + after_pages(
            matches_up_to(second, needle, count),
            first.len(),
        ));
    }
}

/// The matches in a document are those in its first part and then those in its second, on pages
/// that come after the first part.
pub proof fn searching_splits(
    first: Seq<Seq<(char, usize)>>,
    second: Seq<Seq<(char, usize)>>,
    query: Seq<char>,
)
    requires
        first.len() + second.len() <= usize::MAX,
    ensures
        document_matches(first + second, query) == document_matches(first, query) + after_pages(
            document_matches(second, query),
            first.len(),
        ),
{
    let needle = selection::needle_of(query);
    lemma_more_pages(first, second, needle, second.len() as int);
    assert(document_matches(first + second, query) =~= document_matches(first, query)
        + after_pages(document_matches(second, query), first.len()));
}

/// The matches in a document of one page are those on the page.
pub proof fn one_page_has_its_own_matches(page: Seq<(char, usize)>, query: Seq<char>)
    ensures
        document_matches(seq![page], query) == on_page(
            selection::ranges(page, selection::needle_of(query)),
            1,
        ),
{
    let needle = selection::needle_of(query);
    let pages = seq![page];
    if chars::trimmed(query).len() == 0 {
        selection::blank_queries_find_nothing(page, query);
    }
    assert(matches_up_to(pages, needle, 0) =~= Seq::empty());
    assert(document_matches(pages, query) =~= on_page(selection::ranges(page, needle), 1));
}

/// What an ASCII query finds in a document does not depend on the case of its letters.
pub proof fn searching_ignores_ascii_case(
    pages: Seq<Seq<(char, usize)>>,
    query: Seq<char>,
    other: Seq<char>,
)
    requires
        chars::all_ascii(query),
        chars::all_ascii(other),
        selection::same_but_for_case(query, other),
    ensures
        document_matches(pages, query) == document_matches(pages, other),
{
    selection::needles_ignore_ascii_case(query, other);
    chars::trimming_leaves_words(query);
    chars::trimming_leaves_words(other);
}

} // verus!

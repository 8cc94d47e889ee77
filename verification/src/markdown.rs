//! Markdown documents, typeset as papers.
use vstd::prelude::*;

use crate::chars::{chars_of, join, split_words};
use crate::escape::text;
use crate::event::{parse_markdown, Closing, Element, Step};
use crate::render::{plain_text, Renderer};
#[allow(unused_imports)]
use crate::{chars, escape, event, html, render};

verus! {

/// How pages look: US Letter with page numbers.
pub const PAGE_STYLE: &'static str = r#"
#set page(
  paper: "us-letter",
  margin: (top: 0.78in, bottom: 0.72in, left: 1.14in, right: 1.14in),
  footer: context [#align(center)[#counter(page).display()]],
)
"#;

/// How text looks: compact and with serifs.
pub const TEXT_STYLE: &'static str =
    r#"#set text(font: "New Computer Modern", size: 9.3pt, lang: "en")
#set par(justify: true, leading: 0.44em, spacing: 1.1em, first-line-indent: 0pt)
"#;

/// How headings look.
pub const HEADING_STYLE: &'static str = r#"#set heading(numbering: (n) => [#n#h(0.65em)])
#show heading.where(level: 1): set text(size: 11pt, weight: "bold")
#show heading.where(level: 1): set block(above: 1.5em, below: 1.5em)
"#;

/// How links and tables look.
pub const TABLE_STYLE: &'static str = r#"#show link: set text(fill: black)
#show table: set text(size: 8pt, hyphenate: false)
#show table: set par(justify: false)
#show table: set table(inset: (x: 2pt, y: 3pt), gutter: 0pt, stroke: none)
"#;

/// How the head of a table and code blocks look.
pub const BLOCK_STYLE: &'static str =
    r#"#show table.cell.where(y: 0): set text(weight: "bold")
#show raw.where(block: true): set text(size: 7.2pt)
"#;

/// Whether a character outside ASCII is alphabetic, as `char::is_alphabetic` tells it.
pub uninterp spec fn unicode_alphabetic(c: char) -> bool;

/// Whether a character is alphabetic.
pub open spec fn alphabetic(c: char) -> bool {
    if chars::is_ascii(c) {
        html::is_letter(c)
    } else {
        unicode_alphabetic(c)
    }
}

/// `char::is_alphabetic` tells the letters of ASCII, and outside it the characters that
/// [`unicode_alphabetic`] names.
pub assume_specification[ char::is_alphabetic ](c: char) -> (answer: bool)
    ensures
        chars::is_ascii(c) ==> answer == ('a' <= c <= 'z' || 'A' <= c <= 'Z'),
        !chars::is_ascii(c) ==> answer == unicode_alphabetic(c),
;

/// Whether a character outside ASCII is an upper case letter, as `char::is_uppercase` tells it.
pub uninterp spec fn unicode_upper_case(c: char) -> bool;

/// Whether a character is an upper case letter.
pub open spec fn upper_case(c: char) -> bool {
    if chars::is_ascii(c) {
        'A' <= c <= 'Z'
    } else {
        unicode_upper_case(c)
    }
}

/// `char::is_uppercase` tells the capital letters of ASCII, and outside it the characters that
/// [`unicode_upper_case`] names.
pub assume_specification[ char::is_uppercase ](c: char) -> (answer: bool)
    ensures
        chars::is_ascii(c) ==> answer == ('A' <= c <= 'Z'),
        !chars::is_ascii(c) ==> answer == unicode_upper_case(c),
;

/// A character outside ASCII in upper case, as `char::to_uppercase` gives it: one character or
/// more.
pub uninterp spec fn unicode_uppercase(c: char) -> Seq<char>;

/// A small ASCII letter becomes a capital one; every other character stays.
pub open spec fn ascii_upper(c: char) -> char {
    if 'a' <= c <= 'z' {
        (c as u8 - 32) as u8 as char
    } else {
        c
    }
}

/// A character in upper case.
pub open spec fn uppercase(c: char) -> Seq<char> {
    if chars::is_ascii(c) {
        seq![ascii_upper(c)]
    } else {
        unicode_uppercase(c)
    }
}

/// `char::to_uppercase` gives the capital letter of a small ASCII letter, any other ASCII character
/// itself, and for a character outside ASCII [`unicode_uppercase`]; here gathered in a string.
#[verifier::external_body]
fn uppercase_of(c: char) -> (upper: String)
    ensures
        chars::is_ascii(c) ==> upper@ == seq![ascii_upper(c)],
        !chars::is_ascii(c) ==> upper@ == unicode_uppercase(c),
{
    c.to_uppercase().to_string()
}

/// The character with which a file name's character is shown: hyphens and underscores become
/// spaces.
pub open spec fn spaced(c: char) -> char {
    if c == '-' || c == '_' {
        ' '
    } else {
        c
    }
}

/// A file name with spaces for its hyphens and underscores.
pub open spec fn spaced_out(name: Seq<char>) -> Seq<char> {
    name.map_values(|c: char| spaced(c))
}

/// Whether a name is written in capitals: it has letters, and all of them are upper case.
pub open spec fn in_capitals(name: Seq<char>) -> bool {
    &&& exists|i: int| 0 <= i < name.len() && alphabetic(#[trigger] name[i])
    &&& forall|i: int|
        0 <= i < name.len() && alphabetic(#[trigger] name[i]) ==> upper_case(name[i])
}

/// A word with its first character in upper case.
pub open spec fn capitalized(word: Seq<char>) -> Seq<char> {
    if word.len() == 0 {
        word
    } else {
        uppercase(word[0]) + word.skip(1)
    }
}

/// The words of a text, each with its first character in upper case, single spaces between them.
pub open spec fn title_case(s: Seq<char>) -> Seq<char> {
    chars::joined(chars::words(s).map_values(|word: Seq<char>| capitalized(word)), " "@)
}

/// The title that a file name gives.
pub open spec fn file_title(stem: Seq<char>) -> Seq<char> {
    let name = spaced_out(stem);
    if in_capitals(name) {
        title_case(chars::in_lower_case(name))
    } else {
        name
    }
}

/// Writes each word of a text with its first character in upper case.
pub fn to_title_case(s: &str) -> (title: String)
    ensures
        title@ == title_case(s@),
{
    let list = split_words(s);
    let mut capitals: Vec<String> = Vec::new();
    let mut i: usize = 0;
    while i < list.len()
        invariant
            i <= list@.len(),
            chars::texts(list@) == chars::words(s@),
            chars::texts(capitals@) =~= chars::words(s@).take(i as int).map_values(
                |word: Seq<char>| capitalized(word),
            ),
        decreases list@.len() - i,
    {
        let letters = chars_of(list[i].as_str());
        assert(letters@ == chars::words(s@)[i as int]);
        let mut word = String::new();
        if letters.len() > 0 {
            word.append(uppercase_of(letters[0]).as_str());
            let mut j: usize = 1;
            while j < letters.len()
                invariant
                    1 <= j <= letters@.len(),
                    word@ =~= uppercase(letters@[0]) + letters@.subrange(1, j as int),
                decreases letters@.len() - j,
            {
                word.push(letters[j]);
                j += 1;
            }
        }
        assert(word@ =~= capitalized(letters@));
        let ghost before = chars::texts(capitals@);
        let ghost added = word@;
        capitals.push(word);
        assert(chars::texts(capitals@) =~= before.push(added));
        i += 1;
    }
    assert(chars::words(s@).take(i as int) =~= chars::words(s@));
    join(&capitals, " ")
}

/// Makes a title of a file name without its extension. A name in capitals is shown in title case.
pub fn title_from_stem(stem: &str) -> (title: String)
    ensures
        title@ == file_title(stem@),
{
    let mut name = String::new();
    let mut letters = false;
    let mut capitals = true;
    for c in it: stem.chars()
        invariant
            it.seq() == stem@,
            name@ =~= spaced_out(stem@.take(it.index())),
            letters <==> exists|i: int| 0 <= i < name@.len() && alphabetic(#[trigger] name@[i]),
            capitals <==> forall|i: int|
                0 <= i < name@.len() && alphabetic(#[trigger] name@[i]) ==> upper_case(name@[i]),
    {
        let shown = if c == '-' || c == '_' {
            ' '
        } else {
            c
        };
        let ghost before = name@;
        name.push(shown);
        assert(name@.last() == shown);
        assert(forall|i: int| 0 <= i < before.len() ==> name@[i] == #[trigger] before[i]);
        if shown.is_alphabetic() {
            letters = true;
            if !shown.is_uppercase() {
                capitals = false;
            }
        }
        assert(letters <==> exists|i: int|
            0 <= i < name@.len() && alphabetic(#[trigger] name@[i])) by {
            if alphabetic(shown) {
                assert(alphabetic(name@[before.len() as int]));
            }
            if exists|i: int| 0 <= i < before.len() && alphabetic(#[trigger] before[i]) {
                let i = choose|i: int| 0 <= i < before.len() && alphabetic(#[trigger] before[i]);
                assert(alphabetic(name@[i]));
            }
        }
    }
    assert(stem@.take(stem@.len() as int) =~= stem@);
    if letters && capitals {
        to_title_case(name.as_str().to_lowercase().as_str())
    } else {
        name
    }
}

/// A step to look for.
#[derive(Clone, Copy, Debug, PartialEq, Eq, Structural)]
pub enum Landmark {
    Title,
    TitleEnd,
    ParagraphEnd,
}

/// Whether a step is the one looked for.
pub open spec fn is_landmark(step: Step, landmark: Landmark) -> bool {
    match landmark {
        Landmark::Title => step == Step::Start(Element::Heading(1)),
        Landmark::TitleEnd => step == Step::End(Closing::Heading(1)),
        Landmark::ParagraphEnd => step == Step::End(Closing::Paragraph),
    }
}

/// The index of the first such step at or after `from`, or the number of steps.
pub open spec fn landmark_from(steps: Seq<Step>, from: int, landmark: Landmark) -> int
    decreases steps.len() - from,
{
    if from >= steps.len() {
        steps.len() as int
    } else if is_landmark(steps[from], landmark) {
        from
    } else {
        landmark_from(steps, from + 1, landmark)
    }
}

fn find_landmark(steps: &Vec<Step>, from: usize, landmark: Landmark) -> (at: usize)
    requires
        from <= steps@.len(),
    ensures
        at == landmark_from(steps@, from as int, landmark),
        from <= at <= steps@.len(),
        at < steps@.len() ==> is_landmark(steps@[at as int], landmark),
{
    let mut at: usize = from;
    while at < steps.len()
        invariant
            from <= at <= steps@.len(),
            landmark_from(steps@, from as int, landmark) == landmark_from(
                steps@,
                at as int,
                landmark,
            ),
        decreases steps@.len() - at,
    {
        let found = match (&steps[at], landmark) {
            (Step::Start(Element::Heading(level)), Landmark::Title) => *level == 1,
            (Step::End(closing), Landmark::TitleEnd) => *closing == Closing::Heading(1),
            (Step::End(closing), Landmark::ParagraphEnd) => *closing == Closing::Paragraph,
            _ => false,
        };
        if found {
            return at;
        }
        at += 1;
    }
    at
}

/// The steps without those from `from` to `to`, both included.
pub open spec fn cut(steps: Seq<Step>, from: int, to: int) -> Seq<Step> {
    steps.take(from) + if to < steps.len() {
        steps.skip(to + 1)
    } else {
        Seq::empty()
    }
}

/// The title of a document: the text of its first heading of level one, or else what the file
/// name gives.
pub open spec fn title_of(steps: Seq<Step>, stem: Seq<char>) -> Seq<char> {
    let start = landmark_from(steps, 0, Landmark::Title);
    if start < steps.len() {
        render::plain_between(
            steps,
            start + 1,
            landmark_from(steps, start, Landmark::TitleEnd),
        )
    } else {
        file_title(stem)
    }
}

/// The steps of a document without the heading that is its title.
pub open spec fn untitled(steps: Seq<Step>) -> Seq<Step> {
    let start = landmark_from(steps, 0, Landmark::Title);
    if start < steps.len() {
        cut(steps, start, landmark_from(steps, start, Landmark::TitleEnd))
    } else {
        steps
    }
}

/// The length in bytes from which an opening paragraph is an abstract.
pub const ABSTRACT_LENGTH: usize = 120;

/// Whether the steps open with a paragraph long enough for an abstract.
pub open spec fn has_abstract(steps: Seq<Step>) -> bool {
    &&& steps.len() > 0
    &&& steps[0] == Step::Start(Element::Paragraph)
    &&& vstd::utf8::encode_utf8(
        render::plain_between(steps, 1, landmark_from(steps, 0, Landmark::ParagraphEnd)),
    ).len() >= ABSTRACT_LENGTH
}

/// The markup that the steps stand for.
pub open spec fn rendered(steps: Seq<Step>, inline: bool) -> Seq<char> {
    render::content(steps, 0, None, inline, Seq::empty()).0
}

/// The markup of the abstract and the text, given the steps without the title.
pub open spec fn body_markup(steps: Seq<Step>) -> Seq<char> {
    if has_abstract(steps) {
        let end = landmark_from(steps, 0, Landmark::ParagraphEnd);
        "#align(center)[#text(weight: \"bold\")[Abstract]]\n#v(0.12in)\n"@
            + "#align(center)[#block(width: 84%)[#set par(justify: true, spacing: 0pt)\n#align(left)["@
            + rendered(steps.subrange(1, end), true) + "]]]\n#v(0.36in)\n\n"@
            + rendered(cut(steps, 0, end), false)
    } else {
        rendered(steps, false)
    }
}

/// The markup of the title between its rules.
pub open spec fn title_markup(title: Seq<char>) -> Seq<char> {
    "\n#v(0.1in)\n#line(length: 100%, stroke: 1.6pt)\n#v(0.1in)\n"@
        + "#align(center)[#text(size: 16pt, weight: \"bold\")["@ + escape::text_markup(title)
        + "]]\n#v(0.1in)\n#line(length: 100%, stroke: 0.55pt)\n#v(0.34in)\n"@
}

/// The style of a paper.
pub open spec fn paper_style() -> Seq<char> {
    PAGE_STYLE@ + TEXT_STYLE@ + HEADING_STYLE@ + TABLE_STYLE@ + BLOCK_STYLE@
}

/// The Typst source of a document, given its steps and the name of its file.
pub open spec fn document(steps: Seq<Step>, stem: Seq<char>) -> Seq<char> {
    paper_style() + title_markup(title_of(steps, stem)) + body_markup(untitled(steps))
}

fn take_out(steps: &mut Vec<Step>, from: usize, to: usize) -> (taken: Vec<Step>)
    requires
        from < old(steps)@.len(),
        from <= to <= old(steps)@.len(),
    ensures
        final(steps)@ == cut(old(steps)@, from as int, to as int),
        taken@ == old(steps)@.subrange(from as int, to as int),
{
    let mut taken = steps.split_off(from);
    if to - from < taken.len() {
        let mut rest = taken.split_off(to - from);
        let mut last = rest.split_off(1);
        steps.append(&mut last);
    }
    assert(steps@ =~= cut(old(steps)@, from as int, to as int));
    assert(taken@ =~= old(steps)@.subrange(from as int, to as int));
    taken
}

/// Writes the Typst source of a document from its steps. `stem` is the name of its file without
/// the extension.
pub fn typeset(steps: Vec<Step>, stem: &str) -> (source: String)
    ensures
        source@ == document(steps@, stem@),
{
    let ghost all = steps@;
    let mut steps = steps;
    let start = find_landmark(&steps, 0, Landmark::Title);
    let title = if start < steps.len() {
        let end = find_landmark(&steps, start, Landmark::TitleEnd);
        let title = plain_text(&steps, start + 1, end);
        take_out(&mut steps, start, end);
        title
    } else {
        title_from_stem(stem)
    };
    assert(title@ == title_of(all, stem@));
    assert(steps@ == untitled(all));
    let mut out = String::new();
    out.append(PAGE_STYLE);
    out.append(TEXT_STYLE);
    out.append(HEADING_STYLE);
    out.append(TABLE_STYLE);
    out.append(BLOCK_STYLE);
    out.append("\n#v(0.1in)\n#line(length: 100%, stroke: 1.6pt)\n#v(0.1in)\n");
    out.append("#align(center)[#text(size: 16pt, weight: \"bold\")[");
    out.append(text(title.as_str()).as_str());
    out.append("]]\n#v(0.1in)\n#line(length: 100%, stroke: 0.55pt)\n#v(0.34in)\n");
    let ghost head = out@;
    assert(head =~= paper_style() + title_markup(title@));
    let opens_with_paragraph = if steps.len() > 0 {
        matches!(&steps[0], Step::Start(Element::Paragraph))
    } else {
        false
    };
    if opens_with_paragraph {
        let end = find_landmark(&steps, 0, Landmark::ParagraphEnd);
        let plain = plain_text(&steps, 1, end);
        if plain.as_str().as_bytes().len() >= ABSTRACT_LENGTH {
            let ghost untouched = steps@;
            let mut paragraph = take_out(&mut steps, 0, end);
            let inside = paragraph.split_off(1);
            assert(inside@ =~= untouched.subrange(1, end as int));
            out.append("#align(center)[#text(weight: \"bold\")[Abstract]]\n#v(0.12in)\n");
            out.append(
                "#align(center)[#block(width: 84%)[#set par(justify: true, spacing: 0pt)\n#align(left)[",
            );
            out.append(Renderer::new(&inside).render_until(None, true).as_str());
            out.append("]]]\n#v(0.36in)\n\n");
        }
    }
    out.append(Renderer::new(&steps).render_until(None, false).as_str());
    assert(out@ =~= head + body_markup(untitled(all)));
    out
}

/// The extensions that a document may use: tables, strikethrough, task lists, footnotes and math.
pub open spec fn paper_extensions() -> event::Extensions {
    event::Extensions {
        tables: true,
        strikethrough: true,
        task_lists: true,
        footnotes: true,
        math: true,
    }
}

/// The Typst source of a Markdown document, given the name of its file.
pub open spec fn typst_source(markdown: Seq<char>, stem: Seq<char>) -> Seq<char> {
    document(event::markdown_steps(markdown, paper_extensions()), stem)
}

/// Writes the Typst source of a Markdown document. `stem` is the name of its file without the
/// extension; it gives the title where the document has no heading of level one.
pub fn to_typst(markdown: &str, stem: &str) -> (source: String)
    ensures
        source@ == document(event::markdown_steps(markdown@, paper_extensions()), stem@),
        source@ == typst_source(markdown@, stem@),
{
    let extensions = event::Extensions {
        tables: true,
        strikethrough: true,
        task_lists: true,
        footnotes: true,
        math: true,
    };
    typeset(parse_markdown(markdown, extensions), stem)
}

proof fn lemma_landmark(steps: Seq<Step>, from: int, at: int, landmark: Landmark)
    requires
        0 <= from <= at <= steps.len(),
        forall|i: int| from <= i < at ==> !is_landmark(#[trigger] steps[i], landmark),
        at < steps.len() ==> is_landmark(steps[at], landmark),
    ensures
        landmark_from(steps, from, landmark) == at,
    decreases at - from,
{
    if from < at {
        lemma_landmark(steps, from + 1, at, landmark);
    }
}

/// The first heading of level one is the title, wherever it stands, and is left out of the text.
pub proof fn first_heading_is_the_title(
    steps: Seq<Step>,
    stem: Seq<char>,
    start: int,
    end: int,
)
    requires
        0 <= start < end < steps.len(),
        is_landmark(steps[start], Landmark::Title),
        forall|i: int| 0 <= i < start ==> !is_landmark(#[trigger] steps[i], Landmark::Title),
        is_landmark(steps[end], Landmark::TitleEnd),
        forall|i: int| start <= i < end ==> !is_landmark(#[trigger] steps[i], Landmark::TitleEnd),
    ensures
        title_of(steps, stem) == render::plain_between(steps, start + 1, end),
        untitled(steps) == steps.take(start) + steps.skip(end + 1),
{
    lemma_landmark(steps, 0, start, Landmark::Title);
    lemma_landmark(steps, start, end, Landmark::TitleEnd);
}

/// Without a heading of level one, the file name gives the title, and the text is left as it is.
pub proof fn file_names_other_documents(steps: Seq<Step>, stem: Seq<char>)
    requires
        forall|i: int|
            0 <= i < steps.len() ==> !is_landmark(#[trigger] steps[i], Landmark::Title),
    ensures
        title_of(steps, stem) == file_title(stem),
        untitled(steps) == steps,
{
    lemma_landmark(steps, 0, steps.len() as int, Landmark::Title);
}

/// Whether a step is not among others.
pub open spec fn lacks(steps: Seq<Step>, step: Step) -> bool {
    forall|i: int| 0 <= i < steps.len() ==> #[trigger] steps[i] != step
}

/// Steps with a heading of level one between them, if there is one.
pub open spec fn headed(before: Seq<Step>, heading: Option<Seq<Step>>, after: Seq<Step>) -> Seq<
    Step,
> {
    match heading {
        Some(title) => before + seq![Step::Start(Element::Heading(1))] + title + seq![
            Step::End(Closing::Heading(1)),
        ] + after,
        None => before + after,
    }
}

/// Whether a heading, if there is one, is the first of level one, and ends where it is said to.
pub open spec fn is_first(
    before: Seq<Step>,
    heading: Option<Seq<Step>>,
    after: Seq<Step>,
) -> bool {
    &&& lacks(before, Step::Start(Element::Heading(1)))
    &&& match heading {
        Some(title) => lacks(title, Step::End(Closing::Heading(1))),
        None => lacks(after, Step::Start(Element::Heading(1))),
    }
}

/// The style of a paper and its title between two rules: the text of the heading, or what the file
/// name gives.
pub open spec fn front(heading: Option<Seq<Step>>, stem: Seq<char>) -> Seq<char> {
    paper_style() + "\n#v(0.1in)\n#line(length: 100%, stroke: 1.6pt)\n#v(0.1in)\n"@
        + "#align(center)[#text(size: 16pt, weight: \"bold\")["@ + escape::text_markup(
        match heading {
            Some(title) => render::plain_between(title, 0, title.len() as int),
            None => file_title(stem),
        },
    ) + "]]\n#v(0.1in)\n#line(length: 100%, stroke: 0.55pt)\n#v(0.34in)\n"@
}

proof fn lemma_headed(
    before: Seq<Step>,
    heading: Option<Seq<Step>>,
    after: Seq<Step>,
    stem: Seq<char>,
)
    requires
        is_first(before, heading, after),
    ensures
        document(headed(before, heading, after), stem) == front(heading, stem) + body_markup(
            before + after,
        ),
{
    let steps = headed(before, heading, after);
    match heading {
        Some(title) => {
            let start = before.len() as int;
            let end = start + 1 + title.len();
            assert(steps[start] == Step::Start(Element::Heading(1)));
            assert(steps[end] == Step::End(Closing::Heading(1)));
            assert forall|i: int| 0 <= i < start implies !is_landmark(
                #[trigger] steps[i],
                Landmark::Title,
            ) by {
                assert(steps[i] == before[i]);
            }
            assert forall|i: int| start <= i < end implies !is_landmark(
                #[trigger] steps[i],
                Landmark::TitleEnd,
            ) by {
                if i > start {
                    assert(steps[i] == title[i - start - 1]);
                }
            }
            first_heading_is_the_title(steps, stem, start, end);
            render::texts_stand_alone(steps, start + 1, end);
            assert(steps.subrange(start + 1, end) =~= title);
            assert(steps.take(start) + steps.skip(end + 1) =~= before + after);
        },
        None => {
            assert forall|i: int| 0 <= i < steps.len() implies !is_landmark(
                #[trigger] steps[i],
                Landmark::Title,
            ) by {
                if i < before.len() {
                    assert(steps[i] == before[i]);
                } else {
                    assert(steps[i] == after[i - before.len()]);
                }
            }
            file_names_other_documents(steps, stem);
        },
    }
    assert(document(steps, stem) =~= front(heading, stem) + body_markup(before + after));
}

/// A paragraph that opens a document, apart from the title, is the abstract if its text has at least
/// 120 bytes: the document is the style, the title, the abstract under its heading and then what
/// comes after the paragraph. It does not matter whether the title is a heading that stands before
/// the paragraph or behind it, or comes from the file name.
pub proof fn long_opening_paragraphs_are_abstracts(
    before: Seq<Step>,
    heading: Option<Seq<Step>>,
    after: Seq<Step>,
    stem: Seq<char>,
    paragraph: Seq<Step>,
    rest: Seq<Step>,
)
    requires
        is_first(before, heading, after),
        before + after == seq![Step::Start(Element::Paragraph)] + paragraph + seq![
            Step::End(Closing::Paragraph),
        ] + rest,
        lacks(paragraph, Step::End(Closing::Paragraph)),
        vstd::utf8::encode_utf8(
            render::plain_between(paragraph, 0, paragraph.len() as int),
        ).len() >= 120,
    ensures
        document(headed(before, heading, after), stem) == front(heading, stem)
            + "#align(center)[#text(weight: \"bold\")[Abstract]]\n#v(0.12in)\n"@
            + "#align(center)[#block(width: 84%)[#set par(justify: true, spacing: 0pt)\n#align(left)["@
            + rendered(paragraph, true) + "]]]\n#v(0.36in)\n\n"@ + rendered(rest, false),
{
    let body = before + after;
    lemma_headed(before, heading, after, stem);
    lemma_paragraph(paragraph, rest);
    assert(document(headed(before, heading, after), stem) =~= front(heading, stem)
        + "#align(center)[#text(weight: \"bold\")[Abstract]]\n#v(0.12in)\n"@
        + "#align(center)[#block(width: 84%)[#set par(justify: true, spacing: 0pt)\n#align(left)["@
        + rendered(paragraph, true) + "]]]\n#v(0.36in)\n\n"@ + rendered(rest, false));
}

proof fn lemma_paragraph(paragraph: Seq<Step>, rest: Seq<Step>)
    requires
        lacks(paragraph, Step::End(Closing::Paragraph)),
    ensures
        ({
            let body = seq![Step::Start(Element::Paragraph)] + paragraph + seq![
                Step::End(Closing::Paragraph),
            ] + rest;
            let end = paragraph.len() as int + 1;
            &&& landmark_from(body, 0, Landmark::ParagraphEnd) == end
            &&& render::plain_between(body, 1, end) == render::plain_between(
                paragraph,
                0,
                paragraph.len() as int,
            )
            &&& body.subrange(1, end) == paragraph
            &&& cut(body, 0, end) == rest
        }),
{
    let body = seq![Step::Start(Element::Paragraph)] + paragraph + seq![
        Step::End(Closing::Paragraph),
    ] + rest;
    let end = paragraph.len() as int + 1;
    assert(body[end] == Step::End(Closing::Paragraph));
    assert forall|i: int| 0 <= i < end implies !is_landmark(
        #[trigger] body[i],
        Landmark::ParagraphEnd,
    ) by {
        if i > 0 {
            assert(body[i] == paragraph[i - 1]);
        }
    }
    lemma_landmark(body, 0, end, Landmark::ParagraphEnd);
    render::texts_stand_alone(body, 1, end);
    assert(body.subrange(1, end) =~= paragraph);
    assert(cut(body, 0, end) =~= rest);
}

/// A document that does not open with a paragraph, apart from the title, or opens with one of less
/// than 120 bytes, has no abstract: it is the style, the title, and then all the rest.
pub proof fn other_documents_have_no_abstract(
    before: Seq<Step>,
    heading: Option<Seq<Step>>,
    after: Seq<Step>,
    stem: Seq<char>,
    paragraph: Seq<Step>,
    rest: Seq<Step>,
)
    requires
        is_first(before, heading, after),
        (before + after).len() == 0 || (before + after)[0] != Step::Start(Element::Paragraph) || (
        before + after == seq![Step::Start(Element::Paragraph)] + paragraph + seq![
            Step::End(Closing::Paragraph),
        ] + rest && lacks(paragraph, Step::End(Closing::Paragraph)) && vstd::utf8::encode_utf8(
            render::plain_between(paragraph, 0, paragraph.len() as int),
        ).len() < 120),
    ensures
        document(headed(before, heading, after), stem) == front(heading, stem) + rendered(
            before + after,
            false,
        ),
{
    lemma_headed(before, heading, after, stem);
    if (before + after).len() > 0 && (before + after)[0] == Step::Start(Element::Paragraph) {
        lemma_paragraph(paragraph, rest);
    }
}

/// Whatever a document holds, it is set on US Letter pages with page numbers, in compact serif text,
/// with numbered headings, black links and small tables.
pub proof fn papers_have_one_style(steps: Seq<Step>, stem: Seq<char>)
    ensures
        ({
            let style = "\n#set page(\n  paper: \"us-letter\",\n  margin: (top: 0.78in, bottom: 0.72in, left: 1.14in, right: 1.14in),\n  footer: context [#align(center)[#counter(page).display()]],\n)\n"@
                + "#set text(font: \"New Computer Modern\", size: 9.3pt, lang: \"en\")\n#set par(justify: true, leading: 0.44em, spacing: 1.1em, first-line-indent: 0pt)\n"@
                + "#set heading(numbering: (n) => [#n#h(0.65em)])\n#show heading.where(level: 1): set text(size: 11pt, weight: \"bold\")\n#show heading.where(level: 1): set block(above: 1.5em, below: 1.5em)\n"@
                + "#show link: set text(fill: black)\n#show table: set text(size: 8pt, hyphenate: false)\n#show table: set par(justify: false)\n#show table: set table(inset: (x: 2pt, y: 3pt), gutter: 0pt, stroke: none)\n"@
                + "#show table.cell.where(y: 0): set text(weight: \"bold\")\n#show raw.where(block: true): set text(size: 7.2pt)\n"@;
            &&& paper_style() == style
            &&& style.len() <= document(steps, stem).len()
            &&& document(steps, stem).take(style.len() as int) == style
        }),
{
    let style = paper_style();
    assert(document(steps, stem).take(style.len() as int) =~= style);
}

/// A file name that has a letter that is not upper case, or no letter at all, is shown as it is, with
/// spaces for its hyphens and underscores.
pub proof fn ordinary_file_names_are_spaced(stem: Seq<char>)
    requires
        (exists|i: int|
            0 <= i < stem.len() && alphabetic(#[trigger] stem[i]) && !upper_case(stem[i])) || (
        forall|i: int| 0 <= i < stem.len() ==> !alphabetic(#[trigger] stem[i])),
    ensures
        file_title(stem).len() == stem.len(),
        forall|i: int|
            0 <= i < stem.len() ==> #[trigger] file_title(stem)[i] == if stem[i] == '-' || stem[i]
                == '_' {
                ' '
            } else {
                stem[i]
            },
{
    let name = spaced_out(stem);
    if exists|i: int|
        0 <= i < stem.len() && alphabetic(#[trigger] stem[i]) && !upper_case(stem[i]) {
        let i = choose|i: int|
            0 <= i < stem.len() && alphabetic(#[trigger] stem[i]) && !upper_case(stem[i]);
        assert(name[i] == stem[i]);
        assert(!in_capitals(name));
    } else {
        assert forall|i: int| 0 <= i < name.len() implies !alphabetic(#[trigger] name[i]) by {
            assert(!alphabetic(stem[i]));
        }
    }
}

/// A file name in ASCII capitals is shown in title case: its words, with single spaces between them,
/// each with its first letter as it is and small letters behind it.
pub proof fn capital_file_names_are_shown_in_title_case(stem: Seq<char>)
    requires
        chars::all_ascii(stem),
        exists|i: int| 0 <= i < stem.len() && 'A' <= #[trigger] stem[i] <= 'Z',
        forall|i: int| 0 <= i < stem.len() ==> !('a' <= #[trigger] stem[i] <= 'z'),
    ensures
        ({
            let name = Seq::new(
                stem.len(),
                |i: int|
                    if stem[i] == '-' || stem[i] == '_' {
                        ' '
                    } else {
                        stem[i]
                    },
            );
            let words = chars::words(name);
            file_title(stem) == chars::joined(
                Seq::new(
                    words.len(),
                    |k: int|
                        Seq::new(
                            words[k].len(),
                            |i: int|
                                if i > 0 && 'A' <= words[k][i] <= 'Z' {
                                    (words[k][i] as u8 + 32) as u8 as char
                                } else {
                                    words[k][i]
                                },
                        ),
                ),
                seq![' '],
            )
        }),
{
    reveal_strlit(" ");
    assert(" "@ =~= seq![' ']);
    let name = spaced_out(stem);
    let shown = Seq::new(
        stem.len(),
        |i: int|
            if stem[i] == '-' || stem[i] == '_' {
                ' '
            } else {
                stem[i]
            },
    );
    assert(name =~= shown);
    let at = choose|i: int| 0 <= i < stem.len() && 'A' <= #[trigger] stem[i] <= 'Z';
    assert(alphabetic(name[at]));
    assert forall|i: int| 0 <= i < name.len() implies chars::is_ascii(#[trigger] name[i]) && !('a'
        <= name[i] <= 'z') by {
        assert(chars::is_ascii(stem[i]) && !('a' <= stem[i] <= 'z'));
    }
    assert(in_capitals(name));
    let low = chars::in_lower_case(name);
    chars::lowering_keeps_words(name);
    let words = chars::words(name);
    let titled = Seq::new(
        words.len(),
        |k: int|
            Seq::new(
                words[k].len(),
                |i: int|
                    if i > 0 && 'A' <= words[k][i] <= 'Z' {
                        (words[k][i] as u8 + 32) as u8 as char
                    } else {
                        words[k][i]
                    },
            ),
    );
    let made = chars::words(low).map_values(|word: Seq<char>| capitalized(word));
    chars::words_of_ascii_are_ascii(name);
    assert forall|k: int| 0 <= k < words.len() implies #[trigger] made[k] == titled[k] by {
        let word = words[k];
        chars::words_are_not_empty(name, k);
        chars::words_come_from_the_text(name, k);
        let lowered = chars::ascii_lowered(word);
        assert(chars::words(low)[k] == lowered);
        assert(chars::is_ascii(word[0]) && !('a' <= word[0] <= 'z'));
        assert(uppercase(lowered[0]) =~= seq![word[0]]);
        assert(capitalized(lowered) =~= titled[k]);
    }
    assert(made =~= titled);
}

/// A document may use tables, strikethrough, task lists, footnotes and math.
pub proof fn documents_may_use_all_extensions()
    ensures
        paper_extensions().tables,
        paper_extensions().strikethrough,
        paper_extensions().task_lists,
        paper_extensions().footnotes,
        paper_extensions().math,
{
}

/// Title case keeps the words of an ASCII text, with single spaces between them, and writes the first
/// letter of each in upper case.
pub proof fn title_case_raises_first_letters(s: Seq<char>)
    requires
        chars::all_ascii(s),
    ensures
        ({
            let words = chars::words(s);
            title_case(s) == chars::joined(
                Seq::new(
                    words.len(),
                    |k: int|
                        Seq::new(
                            words[k].len(),
                            |i: int|
                                if i == 0 && 'a' <= words[k][0] <= 'z' {
                                    (words[k][0] as u8 - 32) as u8 as char
                                } else {
                                    words[k][i]
                                },
                        ),
                ),
                seq![' '],
            )
        }),
{
    reveal_strlit(" ");
    assert(" "@ =~= seq![' ']);
    let words = chars::words(s);
    let titled = Seq::new(
        words.len(),
        |k: int|
            Seq::new(
                words[k].len(),
                |i: int|
                    if i == 0 && 'a' <= words[k][0] <= 'z' {
                        (words[k][0] as u8 - 32) as u8 as char
                    } else {
                        words[k][i]
                    },
            ),
    );
    let made = words.map_values(|word: Seq<char>| capitalized(word));
    chars::words_of_ascii_are_ascii(s);
    assert forall|k: int| 0 <= k < words.len() implies #[trigger] made[k] == titled[k] by {
        let word = words[k];
        chars::words_are_not_empty(s, k);
        assert(chars::all_ascii(word));
        assert(chars::is_ascii(word[0]));
        assert(capitalized(word) =~= titled[k]);
    }
    assert(made =~= titled);
}

/// Outside ASCII, letters, capitals and the upper case of a first letter are those of Unicode.
pub proof fn other_letters_are_those_of_unicode(c: char, rest: Seq<char>)
    requires
        !chars::is_ascii(c),
    ensures
        alphabetic(c) == unicode_alphabetic(c),
        upper_case(c) == unicode_upper_case(c),
        capitalized(seq![c] + rest) == unicode_uppercase(c) + rest,
{
    assert((seq![c] + rest).skip(1) =~= rest);
}

/// A file name in capitals, whatever its letters, is shown in lower case and then in title case.
pub proof fn file_names_in_capitals_are_lowered(stem: Seq<char>)
    requires
        exists|i: int| 0 <= i < stem.len() && alphabetic(#[trigger] stem[i]),
        forall|i: int|
            0 <= i < stem.len() && alphabetic(#[trigger] stem[i]) ==> upper_case(stem[i]),
    ensures
        file_title(stem) == title_case(
            chars::in_lower_case(
                Seq::new(
                    stem.len(),
                    |i: int|
                        if stem[i] == '-' || stem[i] == '_' {
                            ' '
                        } else {
                            stem[i]
                        },
                ),
            ),
        ),
{
    let name = spaced_out(stem);
    assert(name =~= Seq::new(
        stem.len(),
        |i: int|
            if stem[i] == '-' || stem[i] == '_' {
                ' '
            } else {
                stem[i]
            },
    ));
    let at = choose|i: int| 0 <= i < stem.len() && alphabetic(#[trigger] stem[i]);
    assert(alphabetic(name[at]));
    assert forall|i: int| 0 <= i < name.len() && alphabetic(#[trigger] name[i]) implies upper_case(
        name[i],
    ) by {
        assert(alphabetic(stem[i]));
    }
}

/// A document is typeset from all that the parser reports of its text, as it is, with tables,
/// strikethrough, task lists, footnotes and math.
pub proof fn documents_are_typeset_as_parsed(markdown: Seq<char>, stem: Seq<char>)
    ensures
        typst_source(markdown, stem) == document(
            event::markdown_steps(
                markdown,
                event::Extensions {
                    tables: true,
                    strikethrough: true,
                    task_lists: true,
                    footnotes: true,
                    math: true,
                },
            ),
            stem,
        ),
{
}

} // verus!

//! HTML embedded in Markdown: images, centred paragraphs, text formatting, links and line breaks.
//! Everything else, white space too, is shown as it is written. There is no CSS.
use vstd::prelude::*;

use crate::chars::{chars_of, lowered_string_of, push_decimal, same_text, starts_with, string_of};
use crate::escape::{quoted, text};
#[allow(unused_imports)]
use crate::{chars, escape};

verus! {

/// An HTML element that encloses markup.
#[derive(Clone, Copy, Debug, PartialEq, Eq, Structural)]
pub enum Span {
    Strong,
    Emphasis,
    Strike,
    Underline,
    Subscript,
    Superscript,
    Code,
    Link,
    Paragraph,
    Division,
    Center,
}

/// What ends a run of characters.
#[derive(Clone, Copy, Debug, PartialEq, Eq, Structural)]
pub enum Stop {
    /// White space.
    Space,
    /// Anything but white space.
    Word,
    /// Anything that is no ASCII letter or digit.
    NameEnd,
    /// The first character of an attribute's name.
    Attribute,
    /// The first character after an attribute's name.
    AttributeEnd,
    /// This very character.
    Character(char),
}

/// Whether `c` is an ASCII letter.
pub open spec fn is_letter(c: char) -> bool {
    'a' <= c <= 'z' || 'A' <= c <= 'Z'
}

/// Whether `c` separates attributes or an attribute from its value.
pub open spec fn is_filler(c: char) -> bool {
    chars::white_space(c) || c == '/' || c == '='
}

/// Whether a run of characters ends before `c`.
pub open spec fn stops(stop: Stop, c: char) -> bool {
    match stop {
        Stop::Space => chars::white_space(c),
        Stop::Word => !chars::white_space(c),
        Stop::NameEnd => !is_letter(c) && !('0' <= c <= '9'),
        Stop::Attribute => !is_filler(c),
        Stop::AttributeEnd => is_filler(c),
        Stop::Character(wanted) => c == wanted,
    }
}

/// The index of the first character at or after `from` that ends a run, or the length of `s`.
pub open spec fn find(s: Seq<char>, from: int, stop: Stop) -> int
    decreases s.len() - from,
{
    if from >= s.len() {
        s.len() as int
    } else if stops(stop, s[from]) {
        from
    } else {
        find(s, from + 1, stop)
    }
}

/// A run of characters reaches up to the first character that ends it.
pub proof fn lemma_find(s: Seq<char>, from: int, stop: Stop)
    requires
        0 <= from <= s.len(),
    ensures
        from <= find(s, from, stop) <= s.len(),
        find(s, from, stop) < s.len() ==> stops(stop, s[find(s, from, stop)]),
        forall|i: int| from <= i < find(s, from, stop) ==> !stops(stop, #[trigger] s[i]),
    decreases s.len() - from,
{
    if from < s.len() && !stops(stop, s[from]) {
        lemma_find(s, from + 1, stop);
    }
}

/// Whether `c` opens and closes a quoted attribute value.
pub open spec fn is_quote(c: char) -> bool {
    c == '"' || c == '\''
}

/// The value of an attribute whose equals sign stands before `from`, and where the next
/// attribute may begin.
pub open spec fn attribute_value(tag: Seq<char>, from: int) -> (Seq<char>, int) {
    let start = find(tag, from, Stop::Word);
    if start < tag.len() && is_quote(tag[start]) {
        let end = find(tag, start + 1, Stop::Character(tag[start]));
        (tag.subrange(start + 1, end), if end < tag.len() { end + 1 } else { end })
    } else {
        let end = find(tag, start, Stop::Space);
        (tag.subrange(start, end), end)
    }
}

/// The name's end, the value and the end of the attribute whose name begins at `start`. An
/// attribute without an equals sign has an empty value.
pub open spec fn attribute_at(tag: Seq<char>, start: int) -> (int, Seq<char>, int) {
    let end = find(tag, start, Stop::AttributeEnd);
    let next = find(tag, end, Stop::Word);
    if next < tag.len() && tag[next] == '=' {
        let (value, after) = attribute_value(tag, next + 1);
        (end, value, after)
    } else {
        (end, Seq::empty(), next)
    }
}

/// An attribute's name is not empty, and its parts follow each other inside the tag.
pub proof fn lemma_attribute_at(tag: Seq<char>, start: int)
    requires
        0 <= start < tag.len(),
        !is_filler(tag[start]),
    ensures
        start < attribute_at(tag, start).0 <= attribute_at(tag, start).2 <= tag.len(),
{
    let end = find(tag, start, Stop::AttributeEnd);
    lemma_find(tag, start, Stop::AttributeEnd);
    lemma_find(tag, end, Stop::Word);
    let next = find(tag, end, Stop::Word);
    if next < tag.len() && tag[next] == '=' {
        lemma_find(tag, next + 1, Stop::Word);
        let value = find(tag, next + 1, Stop::Word);
        if value < tag.len() && is_quote(tag[value]) {
            lemma_find(tag, value + 1, Stop::Character(tag[value]));
        } else {
            lemma_find(tag, value, Stop::Space);
        }
    }
}

/// The value of the first attribute of that name from `from` on, names compared without regard
/// to case.
pub open spec fn attribute(tag: Seq<char>, from: int, name: Seq<char>) -> Option<Seq<char>>
    decreases tag.len() - from,
{
    if from < 0 || from > tag.len() {
        None
    } else {
        let start = find(tag, from, Stop::Attribute);
        if start >= tag.len() {
            None
        } else {
            proof {
                lemma_find(tag, from, Stop::Attribute);
                lemma_attribute_at(tag, start);
            }
            let (end, value, after) = attribute_at(tag, start);
            if chars::ascii_lowered(tag.subrange(start, end)) == name {
                Some(value)
            } else {
                attribute(tag, after, name)
            }
        }
    }
}

fn stops_at(stop: Stop, c: char) -> (answer: bool)
    ensures
        answer == stops(stop, c),
{
    match stop {
        Stop::Space => c.is_whitespace(),
        Stop::Word => !c.is_whitespace(),
        Stop::NameEnd => !(('a' <= c && c <= 'z') || ('A' <= c && c <= 'Z')) && !('0' <= c && c
            <= '9'),
        Stop::Attribute => !(c.is_whitespace() || c == '/' || c == '='),
        Stop::AttributeEnd => c.is_whitespace() || c == '/' || c == '=',
        Stop::Character(wanted) => c == wanted,
    }
}

fn find_stop(chars: &Vec<char>, from: usize, stop: Stop) -> (at: usize)
    requires
        from <= chars@.len(),
    ensures
        at == find(chars@, from as int, stop),
        from <= at <= chars@.len(),
{
    let mut at: usize = from;
    while at < chars.len() && !stops_at(stop, chars[at])
        invariant
            from <= at <= chars@.len(),
            find(chars@, from as int, stop) == find(chars@, at as int, stop),
        decreases chars@.len() - at,
    {
        at += 1;
    }
    at
}

/// Looks an attribute up in the inside of a tag, from `from` on.
pub fn find_attribute(tag: &Vec<char>, from: usize, name: &str) -> (value: Option<String>)
    requires
        from <= tag@.len(),
    ensures
        match attribute(tag@, from as int, name@) {
            Some(expected) => value is Some && value->0@ == expected,
            None => value is None,
        },
{
    let mut at: usize = from;
    loop
        invariant
            at <= tag@.len(),
            attribute(tag@, from as int, name@) == attribute(tag@, at as int, name@),
        decreases tag@.len() - at,
    {
        let start = find_stop(tag, at, Stop::Attribute);
        if start >= tag.len() {
            return None;
        }
        proof {
            lemma_find(tag@, at as int, Stop::Attribute);
            lemma_attribute_at(tag@, start as int);
        }
        let end = find_stop(tag, start, Stop::AttributeEnd);
        let next = find_stop(tag, end, Stop::Word);
        let mut value = String::new();
        let mut after: usize = next;
        if next < tag.len() && tag[next] == '=' {
            let first = find_stop(tag, next + 1, Stop::Word);
            if first < tag.len() && (tag[first] == '"' || tag[first] == '\'') {
                let last = find_stop(tag, first + 1, Stop::Character(tag[first]));
                value = string_of(tag, first + 1, last);
                after = if last < tag.len() {
                    last + 1
                } else {
                    last
                };
            } else {
                let last = find_stop(tag, first, Stop::Space);
                value = string_of(tag, first, last);
                after = last;
            }
        }
        assert(attribute_at(tag@, start as int) == (end as int, value@, after as int));
        let found = lowered_string_of(tag, start, end);
        if same_text(found.as_str(), name) {
            return Some(value);
        }
        at = after;
    }
}

/// The element that a tag's name stands for.
pub open spec fn span_of(name: Seq<char>) -> Option<Span> {
    if name == "b"@ || name == "strong"@ {
        Some(Span::Strong)
    } else if name == "i"@ || name == "em"@ {
        Some(Span::Emphasis)
    } else if name == "s"@ || name == "del"@ || name == "strike"@ {
        Some(Span::Strike)
    } else if name == "u"@ || name == "ins"@ {
        Some(Span::Underline)
    } else if name == "sub"@ {
        Some(Span::Subscript)
    } else if name == "sup"@ {
        Some(Span::Superscript)
    } else if name == "code"@ || name == "kbd"@ || name == "samp"@ || name == "tt"@ {
        Some(Span::Code)
    } else if name == "a"@ {
        Some(Span::Link)
    } else if name == "p"@ {
        Some(Span::Paragraph)
    } else if name == "div"@ {
        Some(Span::Division)
    } else if name == "center"@ {
        Some(Span::Center)
    } else {
        None
    }
}

fn find_span(name: &str) -> (span: Option<Span>)
    ensures
        span == span_of(name@),
{
    if same_text(name, "b") || same_text(name, "strong") {
        Some(Span::Strong)
    } else if same_text(name, "i") || same_text(name, "em") {
        Some(Span::Emphasis)
    } else if same_text(name, "s") || same_text(name, "del") || same_text(name, "strike") {
        Some(Span::Strike)
    } else if same_text(name, "u") || same_text(name, "ins") {
        Some(Span::Underline)
    } else if same_text(name, "sub") {
        Some(Span::Subscript)
    } else if same_text(name, "sup") {
        Some(Span::Superscript)
    } else if same_text(name, "code") || same_text(name, "kbd") || same_text(name, "samp")
        || same_text(name, "tt") {
        Some(Span::Code)
    } else if same_text(name, "a") {
        Some(Span::Link)
    } else if same_text(name, "p") {
        Some(Span::Paragraph)
    } else if same_text(name, "div") {
        Some(Span::Division)
    } else if same_text(name, "center") {
        Some(Span::Center)
    } else {
        None
    }
}

/// The markup that opens a paragraph or a division, by its `align` attribute.
pub open spec fn block_opening(align: Option<Seq<char>>) -> Seq<char> {
    match align {
        Some(value) if chars::ascii_lowered(value) == "center"@ => "\n#align(center)["@,
        Some(value) if chars::ascii_lowered(value) == "right"@ => "\n#align(right)["@,
        _ => "\n\n#["@,
    }
}

/// The markup that opens an element, given the inside of its tag and where its attributes begin.
pub open spec fn opening(span: Span, tag: Seq<char>, from: int) -> Seq<char> {
    match span {
        Span::Strong => "#strong["@,
        Span::Emphasis => "#emph["@,
        Span::Strike => "#strike["@,
        Span::Underline => "#underline["@,
        Span::Subscript => "#sub["@,
        Span::Superscript => "#super["@,
        Span::Code => "#text(font: \"DejaVu Sans Mono\")["@,
        Span::Link => match attribute(tag, from, "href"@) {
            Some(href) if href.len() > 0 => "#link("@ + escape::quoted_text(href) + ")["@,
            _ => "#["@,
        },
        Span::Paragraph => block_opening(attribute(tag, from, "align"@)),
        Span::Division => block_opening(attribute(tag, from, "align"@)),
        Span::Center => "\n#align(center)["@,
    }
}

/// The markup that closes an element.
pub open spec fn closing(span: Span) -> Seq<char> {
    match span {
        Span::Paragraph => "]\n\n"@,
        Span::Division => "]\n\n"@,
        Span::Center => "]\n\n"@,
        _ => "]"@,
    }
}

fn push_block_opening(out: &mut String, align: Option<String>)
    ensures
        final(out)@ == old(out)@ + block_opening(
            match align {
                Some(value) => Some(value@),
                None => None,
            },
        ),
{
    if let Some(value) = align {
        let letters = chars_of(value.as_str());
        let lowered = lowered_string_of(&letters, 0, letters.len());
        assert(letters@.subrange(0, letters@.len() as int) =~= value@);
        if same_text(lowered.as_str(), "center") {
            out.append("\n#align(center)[");
            return;
        }
        if same_text(lowered.as_str(), "right") {
            out.append("\n#align(right)[");
            return;
        }
    }
    out.append("\n\n#[");
}

fn push_opening(out: &mut String, span: Span, tag: &Vec<char>, from: usize)
    requires
        from <= tag@.len(),
    ensures
        final(out)@ == old(out)@ + opening(span, tag@, from as int),
{
    match span {
        Span::Strong => out.append("#strong["),
        Span::Emphasis => out.append("#emph["),
        Span::Strike => out.append("#strike["),
        Span::Underline => out.append("#underline["),
        Span::Subscript => out.append("#sub["),
        Span::Superscript => out.append("#super["),
        Span::Code => out.append("#text(font: \"DejaVu Sans Mono\")["),
        Span::Link => {
            match find_attribute(tag, from, "href") {
                Some(href) if !href.as_str().is_empty() => {
                    out.append("#link(");
                    out.append(quoted(href.as_str()).as_str());
                    out.append(")[");
                    assert(out@ =~= old(out)@ + opening(span, tag@, from as int));
                },
                _ => out.append("#["),
            }
        },
        Span::Paragraph | Span::Division => push_block_opening(
            out,
            find_attribute(tag, from, "align"),
        ),
        Span::Center => out.append("\n#align(center)["),
    }
}

fn push_closing(out: &mut String, span: Span)
    ensures
        final(out)@ == old(out)@ + closing(span),
{
    match span {
        Span::Paragraph | Span::Division | Span::Center => out.append("]\n\n"),
        _ => out.append("]"),
    }
}

/// The markup that closes all open elements, the innermost first.
pub open spec fn closings(open: Seq<Span>) -> Seq<char>
    decreases open.len(),
{
    if open.len() == 0 {
        Seq::empty()
    } else {
        closing(open.last()) + closings(open.drop_last())
    }
}

/// Appends the markup that closes all open elements.
pub fn push_closings(out: &mut String, open: &Vec<Span>)
    ensures
        final(out)@ == old(out)@ + closings(open@),
{
    let mut left: usize = open.len();
    assert(open@.take(left as int) =~= open@);
    while left > 0
        invariant
            left <= open@.len(),
            old(out)@ + closings(open@) =~= out@ + closings(open@.take(left as int)),
        decreases left,
    {
        left -= 1;
        push_closing(out, open[left]);
        assert(open@.take(left + 1).drop_last() =~= open@.take(left as int));
    }
}

/// What a closing tag leaves: the markup that closes `span` and all elements opened inside it,
/// and the elements still open. A closing tag that nothing answers to closes nothing.
pub open spec fn close(open: Seq<Span>, span: Span) -> (Seq<char>, Seq<Span>)
    decreases open.len(),
{
    if !open.contains(span) {
        (Seq::empty(), open)
    } else if open.last() == span {
        (closing(span), open.drop_last())
    } else {
        let (markup, left) = close(open.drop_last(), span);
        (closing(open.last()) + markup, left)
    }
}

fn close_span(out: &mut String, open: &mut Vec<Span>, span: Span) -> (found: bool)
    ensures
        found == old(open)@.contains(span),
        final(out)@ == old(out)@ + close(old(open)@, span).0,
        final(open)@ == close(old(open)@, span).1,
{
    let mut at: usize = open.len();
    let mut found = false;
    while at > 0 && !found
        invariant
            at <= open@.len(),
            open@ == old(open)@,
            found ==> at < open@.len() && open@[at as int] == span,
            forall|i: int| at <= i < open@.len() && !(found && i == at) ==> open@[i] != span,
        decreases at, !found as int,
    {
        at -= 1;
        if open[at] == span {
            found = true;
        }
    }
    if !found {
        assert(!open@.contains(span));
        return false;
    }
    assert(old(open)@[at as int] == span);
    loop
        invariant_except_break
            at < open@.len(),
            open@[at as int] == span,
            forall|i: int| at < i < open@.len() ==> open@[i] != span,
            old(out)@ + close(old(open)@, span).0 =~= out@ + close(open@, span).0,
            close(old(open)@, span).1 == close(open@, span).1,
        ensures
            out@ =~= old(out)@ + close(old(open)@, span).0,
            open@ == close(old(open)@, span).1,
        decreases open@.len(),
    {
        let ghost before = open@;
        proof {
            assert(before.contains(span));
        }
        if let Some(last) = open.pop() {
            push_closing(out, last);
            assert(open@ =~= before.drop_last());
            if last == span {
                break;
            }
            assert(open@[at as int] == span);
            assert(open@.contains(span));
        }
    }
    true
}

/// Whether `c` is an ASCII digit.
pub open spec fn is_digit(c: char) -> bool {
    '0' <= c <= '9'
}

/// The number that a run of ASCII digits writes.
pub open spec fn number(digits: Seq<char>) -> nat
    decreases digits.len(),
{
    if digits.len() == 0 {
        0
    } else {
        number(digits.drop_last()) * 10 + (digits.last() as u32 - '0' as u32) as nat
    }
}

/// The length of the run of ASCII digits that `s` begins with.
pub open spec fn digits(s: Seq<char>, from: int) -> int
    decreases s.len() - from,
{
    if from >= s.len() || !is_digit(s[from]) {
        from
    } else {
        digits(s, from + 1)
    }
}

/// The widest image in pixels that fits between the margins of a page.
pub const TEXT_WIDTH: u64 = 597;

/// The width that an image gets by its `width` attribute: a number of pixels, of which four make
/// three points, or a percentage of the text width. An image is never wider than the text, and as
/// wide as the text where the attribute says neither.
pub open spec fn image_width(width: Seq<char>) -> Seq<char> {
    let end = digits(width, 0);
    let n = number(width.take(end));
    let unit = width.skip(end);
    if (unit == ""@ || unit == "px"@) && 1 <= n <= TEXT_WIDTH {
        chars::decimal(n) + " * 0.75pt"@
    } else if unit == "%"@ && 1 <= n <= 100 {
        chars::decimal(n) + "%"@
    } else {
        "100%"@
    }
}

fn push_image_width(out: &mut String, width: &str)
    ensures
        final(out)@ == old(out)@ + image_width(width@),
{
    let letters = chars_of(width);
    let mut end: usize = 0;
    let mut n: u64 = 0;
    assert(width@.take(0).len() == 0);
    while end < letters.len() && '0' <= letters[end] && letters[end] <= '9'
        invariant
            letters@ == width@,
            end <= letters@.len(),
            n <= 1000,
            n < 1000 ==> n == number(width@.take(end as int)),
            n == 1000 ==> number(width@.take(end as int)) >= 1000,
            digits(width@, 0) == digits(width@, end as int),
        decreases letters@.len() - end,
    {
        assert(width@.take(end + 1).drop_last() =~= width@.take(end as int));
        n = n * 10 + (letters[end] as u32 - '0' as u32) as u64;
        if n > 1000 {
            n = 1000;
        }
        end += 1;
    }
    let unit = string_of(&letters, end, letters.len());
    assert(unit@ =~= width@.skip(end as int));
    proof {
        reveal_strlit("");
        if unit@.len() == 0 {
            assert(unit@ =~= ""@);
        }
    }
    if (unit.as_str().is_empty() || same_text(unit.as_str(), "px")) && 1 <= n && n <= TEXT_WIDTH {
        push_decimal(out, n);
        out.append(" * 0.75pt");
    } else if same_text(unit.as_str(), "%") && 1 <= n && n <= 100 {
        push_decimal(out, n);
        out.append("%");
    } else {
        out.append("100%");
    }
    assert(out@ =~= old(out)@ + image_width(width@));
}

/// Whether an image lies on another host.
pub open spec fn is_remote(source: Seq<char>) -> bool {
    chars::begins_with(source, "http://"@) || chars::begins_with(source, "https://"@)
}

/// Tells the images that lie on another host.
pub fn remote(source: &str) -> (answer: bool)
    ensures
        answer == is_remote(source@),
{
    starts_with(source, "http://") || starts_with(source, "https://")
}

/// The value of an attribute, or nothing where it is missing.
pub open spec fn attribute_or_empty(tag: Seq<char>, from: int, name: Seq<char>) -> Seq<char> {
    match attribute(tag, from, name) {
        Some(value) => value,
        None => Seq::empty(),
    }
}

fn find_attribute_or_empty(tag: &Vec<char>, from: usize, name: &str) -> (value: String)
    requires
        from <= tag@.len(),
    ensures
        value@ == attribute_or_empty(tag@, from as int, name@),
{
    match find_attribute(tag, from, name) {
        Some(value) => value,
        None => String::new(),
    }
}

/// The markup of an `img` tag: a local image is shown, and the description of any other. Without
/// either there is nothing to show.
pub open spec fn image(tag: Seq<char>, from: int) -> Option<Seq<char>> {
    let source = attribute_or_empty(tag, from, "src"@);
    let description = attribute_or_empty(tag, from, "alt"@);
    if source.len() > 0 && !is_remote(source) {
        Some(
            "#image("@ + escape::quoted_text(source) + ", width: "@ + image_width(
                attribute_or_empty(tag, from, "width"@),
            ) + ")"@,
        )
    } else if description.len() > 0 {
        Some(escape::text_markup(description))
    } else {
        None
    }
}

fn push_image(out: &mut String, tag: &Vec<char>, from: usize) -> (shown: bool)
    requires
        from <= tag@.len(),
    ensures
        shown == (image(tag@, from as int) is Some),
        match image(tag@, from as int) {
            Some(markup) => final(out)@ == old(out)@ + markup,
            None => final(out)@ == old(out)@,
        },
{
    let source = find_attribute_or_empty(tag, from, "src");
    let description = find_attribute_or_empty(tag, from, "alt");
    if !source.as_str().is_empty() && !remote(source.as_str()) {
        out.append("#image(");
        out.append(quoted(source.as_str()).as_str());
        out.append(", width: ");
        push_image_width(out, find_attribute_or_empty(tag, from, "width").as_str());
        out.append(")");
        assert(out@ =~= old(out)@ + image(tag@, from as int)->0);
        true
    } else if !description.as_str().is_empty() {
        out.append(text(description.as_str()).as_str());
        true
    } else {
        false
    }
}

/// What a tag means, given its inside: its markup, and the elements that are open after it. A tag
/// of no known name, one that closes what is not open, and an image that shows nothing mean
/// nothing here.
pub open spec fn meaning(tag: Seq<char>, open: Seq<Span>) -> Option<(Seq<char>, Seq<Span>)> {
    if tag.len() > 0 && tag[0] == '/' {
        match span_of(chars::ascii_lowered(tag.subrange(1, find(tag, 1, Stop::NameEnd)))) {
            Some(span) if open.contains(span) => Some(close(open, span)),
            _ => None,
        }
    } else {
        let end = find(tag, 0, Stop::NameEnd);
        let name = chars::ascii_lowered(tag.subrange(0, end));
        if name == "br"@ {
            Some(("#linebreak()"@, open))
        } else if name == "img"@ {
            match image(tag, end) {
                Some(markup) => Some((markup, open)),
                None => None,
            }
        } else {
            match span_of(name) {
                Some(span) => Some((opening(span, tag, end), open.push(span))),
                None => None,
            }
        }
    }
}

/// Appends the markup of a tag that means something, and brings `open` up to date.
fn push_tag(out: &mut String, open: &mut Vec<Span>, tag: &Vec<char>) -> (understood: bool)
    ensures
        understood == (meaning(tag@, old(open)@) is Some),
        match meaning(tag@, old(open)@) {
            Some((markup, now_open)) => final(out)@ == old(out)@ + markup && final(open)@
                == now_open,
            None => final(out)@ == old(out)@ && final(open)@ == old(open)@,
        },
{
    if tag.len() > 0 && tag[0] == '/' {
        let end = find_stop(tag, 1, Stop::NameEnd);
        let name = lowered_string_of(tag, 1, end);
        if let Some(span) = find_span(name.as_str()) {
            close_span(out, open, span)
        } else {
            false
        }
    } else {
        let end = find_stop(tag, 0, Stop::NameEnd);
        let name = lowered_string_of(tag, 0, end);
        if same_text(name.as_str(), "br") {
            out.append("#linebreak()");
            true
        } else if same_text(name.as_str(), "img") {
            push_image(out, tag, end)
        } else if let Some(span) = find_span(name.as_str()) {
            push_opening(out, span, tag, end);
            open.push(span);
            true
        } else {
            false
        }
    }
}

/// The index after the `>` that ends a tag, counted outside of quoted values; `quote` is the
/// quotation mark that is open at `from`.
pub open spec fn tag_end(s: Seq<char>, from: int, quote: Option<char>) -> Option<int>
    decreases s.len() - from,
{
    if from >= s.len() {
        None
    } else {
        match quote {
            Some(mark) => tag_end(s, from + 1, if s[from] == mark { None } else { quote }),
            None => if s[from] == '>' {
                Some(from + 1)
            } else {
                tag_end(s, from + 1, if is_quote(s[from]) { Some(s[from]) } else { None })
            },
        }
    }
}

fn find_tag_end(s: &Vec<char>, from: usize) -> (end: Option<usize>)
    requires
        from <= s@.len(),
    ensures
        match end {
            Some(at) => tag_end(s@, from as int, None) == Some(at as int) && from < at <= s@.len(),
            None => tag_end(s@, from as int, None) is None,
        },
{
    let mut at: usize = from;
    let mut quote: Option<char> = None;
    while at < s.len()
        invariant
            from <= at <= s@.len(),
            tag_end(s@, from as int, None) == tag_end(s@, at as int, quote),
        decreases s@.len() - at,
    {
        let c = s[at];
        match quote {
            Some(mark) => {
                if c == mark {
                    quote = None;
                }
            },
            None => {
                if c == '>' {
                    return Some(at + 1);
                }
                if c == '"' || c == '\'' {
                    quote = Some(c);
                }
            },
        }
        at += 1;
    }
    None
}

/// The index after the `-->` that ends a comment, or the length of `s`.
pub open spec fn comment_end(s: Seq<char>, from: int) -> int
    decreases s.len() - from,
{
    if from + 3 > s.len() {
        s.len() as int
    } else if s[from] == '-' && s[from + 1] == '-' && s[from + 2] == '>' {
        from + 3
    } else {
        comment_end(s, from + 1)
    }
}

fn find_comment_end(s: &Vec<char>, from: usize) -> (end: usize)
    requires
        from <= s@.len(),
    ensures
        end == comment_end(s@, from as int),
        from <= end <= s@.len(),
{
    let mut at: usize = from;
    while s.len() - at >= 3
        invariant
            from <= at <= s@.len(),
            comment_end(s@, from as int) == comment_end(s@, at as int),
        decreases s@.len() - at,
    {
        if s[at] == '-' && s[at + 1] == '-' && s[at + 2] == '>' {
            return at + 3;
        }
        at += 1;
    }
    s.len()
}

/// Whether a comment begins at `at`.
pub open spec fn is_comment(s: Seq<char>, at: int) -> bool {
    at + 4 <= s.len() && s[at] == '<' && s[at + 1] == '!' && s[at + 2] == '-' && s[at + 3] == '-'
}

/// Whether a tag begins at `at`, as far as the first two characters tell.
pub open spec fn is_tag_start(s: Seq<char>, at: int) -> bool {
    at + 2 <= s.len() && s[at] == '<' && (is_letter(s[at + 1]) || s[at + 1] == '/' || s[at + 1]
        == '!' || s[at + 1] == '?')
}

/// Whether a tag stands at `at`.
pub open spec fn is_tag(s: Seq<char>, at: int) -> bool {
    is_tag_start(s, at) && tag_end(s, at + 1, None) is Some
}

/// The end of the comment, the tag or the text that stands at `at`. A `<` that opens neither a
/// comment nor a tag belongs to the text.
pub open spec fn piece_end(s: Seq<char>, at: int) -> int {
    if is_comment(s, at) {
        comment_end(s, at + 4)
    } else if is_tag(s, at) {
        tag_end(s, at + 1, None)->0
    } else {
        find(s, at + 1, Stop::Character('<'))
    }
}

/// What the tag that stands at `at` means, if one stands there and means anything.
pub open spec fn meaning_at(s: Seq<char>, at: int, open: Seq<Span>) -> Option<
    (Seq<char>, Seq<Span>),
> {
    if is_tag(s, at) && !is_comment(s, at) {
        meaning(s.subrange(at + 1, piece_end(s, at) - 1), open)
    } else {
        None
    }
}

/// A tag ends behind the place where the search for its end began.
pub proof fn lemma_tag_end(s: Seq<char>, from: int, quote: Option<char>)
    requires
        0 <= from <= s.len(),
    ensures
        tag_end(s, from, quote) matches Some(end) ==> from < end <= s.len(),
    decreases s.len() - from,
{
    if from < s.len() {
        lemma_tag_end(s, from + 1, None);
        lemma_tag_end(s, from + 1, quote);
        lemma_tag_end(s, from + 1, Some(s[from]));
    }
}

/// A comment ends where or after the search for its end began.
pub proof fn lemma_comment_end(s: Seq<char>, from: int)
    requires
        0 <= from <= s.len(),
    ensures
        from <= comment_end(s, from) <= s.len(),
    decreases s.len() - from,
{
    if from + 3 <= s.len() {
        lemma_comment_end(s, from + 1);
    }
}

/// Every piece holds at least one character.
pub proof fn lemma_piece_end(s: Seq<char>, at: int)
    requires
        0 <= at < s.len(),
    ensures
        at < piece_end(s, at) <= s.len(),
        is_tag(s, at) && !is_comment(s, at) ==> at + 1 < piece_end(s, at),
{
    if is_comment(s, at) {
        lemma_comment_end(s, at + 4);
    } else if is_tag(s, at) {
        lemma_tag_end(s, at + 1, None);
    } else {
        lemma_find(s, at + 1, Stop::Character('<'));
    }
}

/// The markup of the characters from `from` up to `to`, shown as they are written.
pub open spec fn written(s: Seq<char>, from: int, to: int) -> Seq<char> {
    if from < to {
        escape::text_markup(s.subrange(from, to))
    } else {
        Seq::empty()
    }
}

fn push_written(out: &mut String, chars: &Vec<char>, from: usize, to: usize)
    requires
        from <= to <= chars@.len(),
    ensures
        final(out)@ == old(out)@ + written(chars@, from as int, to as int),
{
    if from < to {
        out.append(text(string_of(chars, from, to).as_str()).as_str());
    }
    assert(out@ =~= old(out)@ + written(chars@, from as int, to as int));
}

/// The markup of HTML from `from` on, given the elements that are open there, and the elements that
/// are open at its end. No tag between `from` and `at` means anything: what stands there is shown
/// as it is written, together with all that follows up to the next tag that does.
pub open spec fn html_from(s: Seq<char>, from: int, at: int, open: Seq<Span>) -> (
    Seq<char>,
    Seq<Span>,
)
    decreases s.len() - at,
{
    if at < 0 || at >= s.len() {
        (written(s, from, s.len() as int), open)
    } else {
        proof {
            lemma_piece_end(s, at);
        }
        let end = piece_end(s, at);
        match meaning_at(s, at, open) {
            Some((markup, now_open)) => {
                let (rest, still_open) = html_from(s, end, end, now_open);
                (written(s, from, at) + markup + rest, still_open)
            },
            None => html_from(s, from, end, open),
        }
    }
}

/// The markup of a piece of HTML, and the elements that are open after it.
pub open spec fn html(s: Seq<char>, open: Seq<Span>) -> (Seq<char>, Seq<Span>) {
    html_from(s, 0, 0, open)
}

/// Whether no tag from `at` on means anything, where `open` lists the elements that are open.
pub open spec fn is_plain(s: Seq<char>, at: int, open: Seq<Span>) -> bool
    decreases s.len() - at,
{
    if at < 0 || at >= s.len() {
        true
    } else {
        proof {
            lemma_piece_end(s, at);
        }
        meaning_at(s, at, open) is None && is_plain(s, piece_end(s, at), open)
    }
}

proof fn lemma_plain(s: Seq<char>, from: int, at: int, open: Seq<Span>)
    requires
        is_plain(s, at, open),
    ensures
        html_from(s, from, at, open) == (written(s, from, s.len() as int), open),
    decreases s.len() - at,
{
    if 0 <= at < s.len() {
        lemma_piece_end(s, at);
        lemma_plain(s, from, piece_end(s, at), open);
    }
}

/// HTML in which no tag means anything is shown as it is written, and leaves open what was open.
pub proof fn plain_html_is_shown_as_written(s: Seq<char>, open: Seq<Span>)
    requires
        is_plain(s, 0, open),
    ensures
        html(s, open).1 == open,
        s.len() > 0 ==> html(s, open).0 == escape::text_markup(s),
        s.len() == 0 ==> html(s, open).0 == Seq::<char>::empty(),
{
    lemma_plain(s, 0, 0, open);
    assert(s.subrange(0, s.len() as int) =~= s);
}

/// Appends the markup of a piece of HTML, and says whether a tag in it means anything. `open` lists
/// the elements that earlier pieces left open, the outermost first, and is brought up to date.
pub fn push_html(out: &mut String, open: &mut Vec<Span>, source: &str) -> (understood: bool)
    ensures
        final(out)@ == old(out)@ + html(source@, old(open)@).0,
        final(open)@ == html(source@, old(open)@).1,
        understood == !is_plain(source@, 0, old(open)@),
{
    let s = chars_of(source);
    let mut from: usize = 0;
    let mut at: usize = 0;
    let mut understood = false;
    while at < s.len()
        invariant
            s@ == source@,
            from <= at <= s@.len(),
            old(out)@ + html(source@, old(open)@).0 =~= out@ + html_from(
                source@,
                from as int,
                at as int,
                open@,
            ).0,
            html(source@, old(open)@).1 == html_from(source@, from as int, at as int, open@).1,
            understood ==> !is_plain(source@, 0, old(open)@),
            !understood ==> open@ == old(open)@ && is_plain(source@, 0, old(open)@) == is_plain(
                source@,
                at as int,
                old(open)@,
            ),
        decreases s@.len() - at,
    {
        proof {
            lemma_piece_end(s@, at as int);
        }
        if s.len() - at >= 4 && s[at] == '<' && s[at + 1] == '!' && s[at + 2] == '-' && s[at + 3]
            == '-' {
            at = find_comment_end(&s, at + 4);
            continue;
        }
        if s.len() - at >= 2 && s[at] == '<' {
            let c = s[at + 1];
            if ('a' <= c && c <= 'z') || ('A' <= c && c <= 'Z') || c == '/' || c == '!' || c
                == '?' {
                if let Some(end) = find_tag_end(&s, at + 1) {
                    let inside = string_of(&s, at + 1, end - 1);
                    let tag = chars_of(inside.as_str());
                    let mut markup = String::new();
                    let ghost before = open@;
                    if push_tag(&mut markup, open, &tag) {
                        push_written(out, &s, from, at);
                        out.append(markup.as_str());
                        understood = true;
                        from = end;
                        assert(meaning(tag@, before) matches Some((shown, _)) && markup@
                            =~= shown);
                    }
                    at = end;
                    continue;
                }
            }
        }
        at = find_stop(&s, at + 1, Stop::Character('<'));
    }
    push_written(out, &s, from, at);
    understood
}

/// Whether a text is a name in small letters.
pub open spec fn is_name(name: Seq<char>) -> bool {
    &&& name.len() > 0
    &&& forall|i: int| 0 <= i < name.len() ==> 'a' <= #[trigger] name[i] <= 'z'
}

proof fn lemma_name(name: Seq<char>)
    requires
        is_name(name),
    ensures
        find(name, 0, Stop::NameEnd) == name.len(),
        chars::ascii_lowered(name) == name,
        name.subrange(0, name.len() as int) == name,
        name[0] != '/',
{
    lemma_find(name, 0, Stop::NameEnd);
    if find(name, 0, Stop::NameEnd) < name.len() {
        assert('a' <= name[find(name, 0, Stop::NameEnd)] <= 'z');
    }
    assert(chars::ascii_lowered(name) =~= name) by {
        assert forall|i: int| 0 <= i < name.len() implies chars::ascii_lowered(name)[i]
            == #[trigger] name[i] by {
            assert('a' <= name[i] <= 'z');
        }
    }
    assert(name.subrange(0, name.len() as int) =~= name);
    assert('a' <= name[0] <= 'z');
}

proof fn lemma_names_differ()
    ensures
        "b"@.len() == 1,
        "strong"@.len() == 6,
        "i"@.len() == 1,
        "em"@.len() == 2,
        "s"@.len() == 1,
        "del"@.len() == 3,
        "strike"@.len() == 6,
        "u"@.len() == 1,
        "ins"@.len() == 3,
        "sub"@.len() == 3,
        "sup"@.len() == 3,
        "code"@.len() == 4,
        "kbd"@.len() == 3,
        "samp"@.len() == 4,
        "tt"@.len() == 2,
        "a"@.len() == 1,
        "p"@.len() == 1,
        "div"@.len() == 3,
        "center"@.len() == 6,
        "br"@.len() == 2,
        "img"@.len() == 3,
        "b"@ != "i"@,
        "b"@ != "s"@,
        "b"@ != "u"@,
        "b"@ != "a"@,
        "b"@ != "p"@,
        "strong"@ != "strike"@,
        "strong"@ != "center"@,
        "i"@ != "s"@,
        "i"@ != "u"@,
        "i"@ != "a"@,
        "i"@ != "p"@,
        "em"@ != "tt"@,
        "em"@ != "br"@,
        "s"@ != "u"@,
        "s"@ != "a"@,
        "s"@ != "p"@,
        "del"@ != "ins"@,
        "del"@ != "sub"@,
        "del"@ != "sup"@,
        "del"@ != "kbd"@,
        "del"@ != "div"@,
        "del"@ != "img"@,
        "strike"@ != "center"@,
        "u"@ != "a"@,
        "u"@ != "p"@,
        "ins"@ != "sub"@,
        "ins"@ != "sup"@,
        "ins"@ != "kbd"@,
        "ins"@ != "div"@,
        "ins"@ != "img"@,
        "sub"@ != "sup"@,
        "sub"@ != "kbd"@,
        "sub"@ != "div"@,
        "sub"@ != "img"@,
        "sup"@ != "kbd"@,
        "sup"@ != "div"@,
        "sup"@ != "img"@,
        "code"@ != "samp"@,
        "kbd"@ != "div"@,
        "kbd"@ != "img"@,
        "tt"@ != "br"@,
        "a"@ != "p"@,
        "div"@ != "img"@,
{
    reveal_strlit("b");
    reveal_strlit("strong");
    reveal_strlit("i");
    reveal_strlit("em");
    reveal_strlit("s");
    reveal_strlit("del");
    reveal_strlit("strike");
    reveal_strlit("u");
    reveal_strlit("ins");
    reveal_strlit("sub");
    reveal_strlit("sup");
    reveal_strlit("code");
    reveal_strlit("kbd");
    reveal_strlit("samp");
    reveal_strlit("tt");
    reveal_strlit("a");
    reveal_strlit("p");
    reveal_strlit("div");
    reveal_strlit("center");
    reveal_strlit("br");
    reveal_strlit("img");
    assert("b"@[0] != "i"@[0]);
    assert("b"@[0] != "s"@[0]);
    assert("b"@[0] != "u"@[0]);
    assert("b"@[0] != "a"@[0]);
    assert("b"@[0] != "p"@[0]);
    assert("strong"@[3] != "strike"@[3]);
    assert("strong"@[0] != "center"@[0]);
    assert("i"@[0] != "s"@[0]);
    assert("i"@[0] != "u"@[0]);
    assert("i"@[0] != "a"@[0]);
    assert("i"@[0] != "p"@[0]);
    assert("em"@[0] != "tt"@[0]);
    assert("em"@[0] != "br"@[0]);
    assert("s"@[0] != "u"@[0]);
    assert("s"@[0] != "a"@[0]);
    assert("s"@[0] != "p"@[0]);
    assert("del"@[0] != "ins"@[0]);
    assert("del"@[0] != "sub"@[0]);
    assert("del"@[0] != "sup"@[0]);
    assert("del"@[0] != "kbd"@[0]);
    assert("del"@[1] != "div"@[1]);
    assert("del"@[0] != "img"@[0]);
    assert("strike"@[0] != "center"@[0]);
    assert("u"@[0] != "a"@[0]);
    assert("u"@[0] != "p"@[0]);
    assert("ins"@[0] != "sub"@[0]);
    assert("ins"@[0] != "sup"@[0]);
    assert("ins"@[0] != "kbd"@[0]);
    assert("ins"@[0] != "div"@[0]);
    assert("ins"@[1] != "img"@[1]);
    assert("sub"@[2] != "sup"@[2]);
    assert("sub"@[0] != "kbd"@[0]);
    assert("sub"@[0] != "div"@[0]);
    assert("sub"@[0] != "img"@[0]);
    assert("sup"@[0] != "kbd"@[0]);
    assert("sup"@[0] != "div"@[0]);
    assert("sup"@[0] != "img"@[0]);
    assert("code"@[0] != "samp"@[0]);
    assert("kbd"@[0] != "div"@[0]);
    assert("kbd"@[0] != "img"@[0]);
    assert("tt"@[0] != "br"@[0]);
    assert("a"@[0] != "p"@[0]);
    assert("div"@[0] != "img"@[0]);
}

/// The tags of text formatting open what they are named for, and the tag of a line break breaks the
/// line.
pub proof fn formatting_tags_are_known(open: Seq<Span>)
    ensures
        meaning("b"@, open) == Some(("#strong["@, open.push(Span::Strong))),
        meaning("strong"@, open) == Some(("#strong["@, open.push(Span::Strong))),
        meaning("i"@, open) == Some(("#emph["@, open.push(Span::Emphasis))),
        meaning("em"@, open) == Some(("#emph["@, open.push(Span::Emphasis))),
        meaning("s"@, open) == Some(("#strike["@, open.push(Span::Strike))),
        meaning("del"@, open) == Some(("#strike["@, open.push(Span::Strike))),
        meaning("strike"@, open) == Some(("#strike["@, open.push(Span::Strike))),
        meaning("u"@, open) == Some(("#underline["@, open.push(Span::Underline))),
        meaning("ins"@, open) == Some(("#underline["@, open.push(Span::Underline))),
        meaning("sub"@, open) == Some(("#sub["@, open.push(Span::Subscript))),
        meaning("sup"@, open) == Some(("#super["@, open.push(Span::Superscript))),
        meaning("code"@, open) == Some(("#text(font: \"DejaVu Sans Mono\")["@, open.push(Span::Code))),
        meaning("kbd"@, open) == Some(("#text(font: \"DejaVu Sans Mono\")["@, open.push(Span::Code))),
        meaning("samp"@, open) == Some(("#text(font: \"DejaVu Sans Mono\")["@, open.push(Span::Code))),
        meaning("tt"@, open) == Some(("#text(font: \"DejaVu Sans Mono\")["@, open.push(Span::Code))),
        meaning("br"@, open) == Some(("#linebreak()"@, open)),
{
    reveal_strlit("b");
    reveal_strlit("strong");
    reveal_strlit("i");
    reveal_strlit("em");
    reveal_strlit("s");
    reveal_strlit("del");
    reveal_strlit("strike");
    reveal_strlit("u");
    reveal_strlit("ins");
    reveal_strlit("sub");
    reveal_strlit("sup");
    reveal_strlit("code");
    reveal_strlit("kbd");
    reveal_strlit("samp");
    reveal_strlit("tt");
    reveal_strlit("a");
    reveal_strlit("p");
    reveal_strlit("div");
    reveal_strlit("center");
    reveal_strlit("br");
    reveal_strlit("img");
    lemma_names_differ();
    lemma_name("b"@);
    lemma_name("strong"@);
    lemma_name("i"@);
    lemma_name("em"@);
    lemma_name("s"@);
    lemma_name("del"@);
    lemma_name("strike"@);
    lemma_name("u"@);
    lemma_name("ins"@);
    lemma_name("sub"@);
    lemma_name("sup"@);
    lemma_name("code"@);
    lemma_name("kbd"@);
    lemma_name("samp"@);
    lemma_name("tt"@);
    lemma_name("br"@);
}

/// The tag of a link opens a link to its address, and those of centred paragraphs and divisions open
/// centred text.
pub proof fn links_and_centred_text_are_known(tag: Seq<char>, open: Seq<Span>)
    requires
        tag.len() > 0,
        tag[0] != '/',
    ensures
        ({
            let end = find(tag, 0, Stop::NameEnd);
            let name = chars::ascii_lowered(tag.subrange(0, end));
            &&& name == "a"@ ==> (attribute(tag, end, "href"@) matches Some(address)
                ==> address.len() > 0 ==> meaning(tag, open) == Some(
                ("#link("@ + escape::quoted_text(address) + ")["@, open.push(Span::Link)),
            ))
            &&& name == "p"@ ==> (attribute(tag, end, "align"@) matches Some(align)
                ==> chars::ascii_lowered(align) == "center"@ ==> meaning(tag, open) == Some(
                ("\n#align(center)["@, open.push(Span::Paragraph)),
            ))
            &&& name == "div"@ ==> (attribute(tag, end, "align"@) matches Some(align)
                ==> chars::ascii_lowered(align) == "center"@ ==> meaning(tag, open) == Some(
                ("\n#align(center)["@, open.push(Span::Division)),
            ))
        }),
{
    lemma_names_differ();
}

/// The tag of an image shows the image if it is a local one, in the width it asks for, and else its
/// description, if it has one.
pub proof fn images_are_known(tag: Seq<char>, open: Seq<Span>)
    requires
        tag.len() > 0,
        tag[0] != '/',
    ensures
        ({
            let end = find(tag, 0, Stop::NameEnd);
            let name = chars::ascii_lowered(tag.subrange(0, end));
            let source = match attribute(tag, end, "src"@) {
                Some(value) => value,
                None => Seq::empty(),
            };
            let description = match attribute(tag, end, "alt"@) {
                Some(value) => value,
                None => Seq::empty(),
            };
            let width = match attribute(tag, end, "width"@) {
                Some(value) => value,
                None => Seq::empty(),
            };
            let local = source.len() > 0 && !chars::begins_with(source, "http://"@)
                && !chars::begins_with(source, "https://"@);
            &&& name == "img"@ && local ==> meaning(tag, open) == Some(
                (
                    "#image("@ + escape::quoted_text(source) + ", width: "@ + image_width(width)
                        + ")"@,
                    open,
                ),
            )
            &&& name == "img"@ && !local && description.len() > 0 ==> meaning(tag, open) == Some(
                ("#text("@ + escape::quoted_text(description) + ")"@, open),
            )
            &&& name == "img"@ && !local && description.len() == 0 ==> meaning(tag, open) is None
        }),
{
    lemma_names_differ();
}

proof fn lemma_digits(s: Seq<char>, at: int, from: int)
    requires
        0 <= from <= at <= s.len(),
        forall|i: int| from <= i < at ==> '0' <= #[trigger] s[i] <= '9',
        at < s.len() ==> !('0' <= s[at] <= '9'),
    ensures
        digits(s, from) == at,
    decreases at - from,
{
    if from < at {
        assert('0' <= s[from] <= '9');
        lemma_digits(s, at, from + 1);
    }
}

proof fn lemma_number(n: nat)
    ensures
        number(chars::decimal(n)) == n,
        forall|i: int|
            0 <= i < chars::decimal(n).len() ==> '0' <= #[trigger] chars::decimal(n)[i] <= '9',
    decreases n,
{
    let all = chars::decimal(n);
    if n < 10 {
        assert(all.drop_last() =~= Seq::empty());
        assert(number(all.drop_last()) == 0);
    } else {
        lemma_number(n / 10);
        assert(all.drop_last() =~= chars::decimal(n / 10));
    }
}

/// A width of a number of pixels is three quarters as many points, a width in percent is that part of
/// the text, and an image is never wider than the text, which is 597 pixels wide. A width of zero is
/// none.
pub proof fn widths_are_pixels_or_percent(n: nat)
    ensures
        1 <= n <= 597 ==> image_width(chars::decimal(n)) == chars::decimal(n) + " * 0.75pt"@,
        1 <= n <= 597 ==> image_width(chars::decimal(n) + "px"@) == chars::decimal(n)
            + " * 0.75pt"@,
        1 <= n <= 100 ==> image_width(chars::decimal(n) + "%"@) == chars::decimal(n) + "%"@,
        n == 0 || n > 597 ==> image_width(chars::decimal(n)) == "100%"@,
        n == 0 || n > 597 ==> image_width(chars::decimal(n) + "px"@) == "100%"@,
        n == 0 || n > 100 ==> image_width(chars::decimal(n) + "%"@) == "100%"@,
        image_width(Seq::empty()) == "100%"@,
{
    reveal_strlit("");
    reveal_strlit("px");
    reveal_strlit("%");
    let shown = chars::decimal(n);
    lemma_number(n);
    let at = shown.len() as int;
    lemma_digits(shown, at, 0);
    assert(shown.take(at) =~= shown);
    assert(shown.skip(at) =~= ""@);
    let pixels = shown + "px"@;
    lemma_digits(pixels, at, 0);
    assert(pixels.take(at) =~= shown);
    assert(pixels.skip(at) =~= "px"@);
    let percent = shown + "%"@;
    lemma_digits(percent, at, 0);
    assert(percent.take(at) =~= shown);
    assert(percent.skip(at) =~= "%"@);
    let none = Seq::<char>::empty();
    assert(digits(none, 0) == 0);
    assert(number(none.take(0)) == 0);
    assert(none.skip(0) =~= ""@);
}

/// A width in any other unit is not understood, and the image as wide as the text.
pub proof fn other_widths_are_not_understood(n: nat, unit: Seq<char>)
    requires
        unit.len() > 0,
        !('0' <= unit[0] <= '9'),
        unit != seq!['p', 'x'],
        unit != seq!['%'],
    ensures
        image_width(chars::decimal(n) + unit) == "100%"@,
{
    reveal_strlit("");
    reveal_strlit("px");
    reveal_strlit("%");
    assert("px"@ =~= seq!['p', 'x']);
    assert("%"@ =~= seq!['%']);
    let shown = chars::decimal(n);
    let width = shown + unit;
    let at = shown.len() as int;
    lemma_number(n);
    lemma_digits(width, at, 0);
    assert(width.skip(at) =~= unit);
}

/// Elements are closed from the last to the first, blocks with an empty line behind them.
pub proof fn elements_are_closed_from_within(first: Seq<Span>, second: Seq<Span>)
    ensures
        closings(first + second) == closings(second) + closings(first),
        first.len() == 1 ==> closings(first) == if first[0] is Paragraph || first[0] is Division
            || first[0] is Center {
            "]\n\n"@
        } else {
            "]"@
        },
        closings(Seq::empty()) == Seq::<char>::empty(),
    decreases second.len(),
{
    if second.len() == 0 {
        assert(first + second =~= first);
        assert(closings(second) + closings(first) =~= closings(first));
    } else {
        elements_are_closed_from_within(first, second.drop_last());
        assert((first + second).drop_last() =~= first + second.drop_last());
        assert(closings(first + second) =~= closings(second) + closings(first));
    }
    if first.len() == 1 {
        assert(closings(first.drop_last()) =~= Seq::empty());
        assert(closings(first) =~= closing(first[0]));
    }
}

proof fn lemma_closes(open: Seq<Span>, span: Span, inner: Seq<Span>)
    requires
        !inner.contains(span),
    ensures
        close(open.push(span) + inner, span) == (closings(inner) + closing(span), open),
    decreases inner.len(),
{
    let all = open.push(span) + inner;
    assert(all[open.len() as int] == span);
    assert(all.contains(span));
    if inner.len() == 0 {
        assert(all.last() == span);
        assert(all.drop_last() =~= open);
        assert(closings(inner) + closing(span) =~= closing(span));
    } else {
        let less = inner.drop_last();
        assert(inner[inner.len() - 1] == inner.last());
        assert(!less.contains(span)) by {
            if less.contains(span) {
                let i = choose|i: int| 0 <= i < less.len() && less[i] == span;
                assert(inner[i] == span);
            }
        }
        lemma_closes(open, span, less);
        assert(all.drop_last() =~= open.push(span) + less);
        assert(close(all, span).0 =~= closings(inner) + closing(span));
    }
}

/// A closing tag closes the innermost element of its name and what was opened inside that, and nothing
/// outside it. Where no element of its name is open it means nothing.
pub proof fn closing_tags_close_from_within(
    name: Seq<char>,
    span: Span,
    open: Seq<Span>,
    inner: Seq<Span>,
)
    requires
        is_name(name),
        span_of(name) == Some(span),
        !inner.contains(span),
    ensures
        meaning(seq!['/'] + name, open.push(span) + inner) == Some(
            (closings(inner) + closings(seq![span]), open),
        ),
        meaning(seq!['/'] + name, inner) is None,
{
    let tag = seq!['/'] + name;
    lemma_find(tag, 1, Stop::NameEnd);
    let end = find(tag, 1, Stop::NameEnd);
    if end < tag.len() {
        assert('a' <= name[end - 1] <= 'z');
        assert(tag[end] == name[end - 1]);
    }
    assert(tag.subrange(1, end) =~= name);
    lemma_name(name);
    lemma_closes(open, span, inner);
    elements_are_closed_from_within(seq![span], Seq::empty());
    assert(seq![span].drop_last() =~= Seq::<Span>::empty());
    assert(closings(seq![span]) =~= closing(span));
    let all = open.push(span) + inner;
    assert(all[open.len() as int] == span);
    assert(all.contains(span));
}

proof fn lemma_find_after(first: Seq<char>, second: Seq<char>, from: int, stop: Stop)
    requires
        0 <= from <= second.len(),
    ensures
        find(first + second, first.len() + from, stop) == first.len() + find(second, from, stop),
    decreases second.len() - from,
{
    if from < second.len() {
        assert((first + second)[first.len() + from] == second[from]);
        lemma_find_after(first, second, from + 1, stop);
    }
}

proof fn lemma_tag_end_after(
    first: Seq<char>,
    second: Seq<char>,
    from: int,
    quote: Option<char>,
)
    requires
        0 <= from <= second.len(),
    ensures
        tag_end(first + second, first.len() + from, quote) == match tag_end(second, from, quote) {
            Some(end) => Some(first.len() + end),
            None => None,
        },
    decreases second.len() - from,
{
    if from < second.len() {
        assert((first + second)[first.len() + from] == second[from]);
        lemma_tag_end_after(first, second, from + 1, None);
        lemma_tag_end_after(first, second, from + 1, quote);
        lemma_tag_end_after(first, second, from + 1, Some(second[from]));
    }
}

proof fn lemma_comment_end_after(first: Seq<char>, second: Seq<char>, from: int)
    requires
        0 <= from <= second.len(),
    ensures
        comment_end(first + second, first.len() + from) == first.len() + comment_end(second, from),
    decreases second.len() - from,
{
    if from + 3 <= second.len() {
        assert((first + second)[first.len() + from] == second[from]);
        assert((first + second)[first.len() + from + 1] == second[from + 1]);
        assert((first + second)[first.len() + from + 2] == second[from + 2]);
        lemma_comment_end_after(first, second, from + 1);
    }
}

proof fn lemma_piece_after(first: Seq<char>, second: Seq<char>, at: int, open: Seq<Span>)
    requires
        0 <= at < second.len(),
    ensures
        piece_end(first + second, first.len() + at) == first.len() + piece_end(second, at),
        meaning_at(first + second, first.len() + at, open) == meaning_at(second, at, open),
{
    let all = first + second;
    let here = first.len() + at;
    assert(forall|k: int| 0 <= k < second.len() ==> all[first.len() + k] == #[trigger] second[k]);
    assert(all[here] == second[at]);
    if at + 1 < second.len() {
        assert(all[here + 1] == second[at + 1]);
    }
    if at + 2 < second.len() {
        assert(all[here + 2] == second[at + 2]);
    }
    if at + 3 < second.len() {
        assert(all[here + 3] == second[at + 3]);
    }
    assert(is_comment(all, here) == is_comment(second, at));
    assert(is_tag_start(all, here) == is_tag_start(second, at));
    lemma_tag_end_after(first, second, at + 1, None);
    assert(is_tag(all, here) == is_tag(second, at));
    if is_comment(second, at) {
        lemma_comment_end_after(first, second, at + 4);
    }
    lemma_find_after(first, second, at + 1, Stop::Character('<'));
    lemma_piece_end(second, at);
    let end = piece_end(second, at);
    assert(piece_end(all, here) == first.len() + end);
    if is_tag(second, at) && !is_comment(second, at) {
        assert(all.subrange(here + 1, first.len() + end - 1) =~= second.subrange(at + 1, end - 1));
    }
}

proof fn lemma_html_after(
    first: Seq<char>,
    second: Seq<char>,
    from: int,
    at: int,
    open: Seq<Span>,
)
    requires
        0 <= from <= at <= second.len(),
    ensures
        html_from(first + second, first.len() + from, first.len() + at, open) == html_from(
            second,
            from,
            at,
            open,
        ),
    decreases second.len() - at,
{
    let all = first + second;
    if at < second.len() {
        lemma_piece_after(first, second, at, open);
        lemma_piece_end(second, at);
        let end = piece_end(second, at);
        if let Some((markup, now_open)) = meaning_at(second, at, open) {
            lemma_html_after(first, second, end, end, now_open);
            assert(all.subrange(first.len() + from, first.len() + at) =~= second.subrange(
                from,
                at,
            ));
        } else {
            lemma_html_after(first, second, from, end, open);
        }
    } else {
        assert(all.subrange(first.len() + from, all.len() as int) =~= second.subrange(
            from,
            second.len() as int,
        ));
    }
}

proof fn lemma_plain_tag_end(s: Seq<char>, from: int, at: int)
    requires
        0 <= from <= at < s.len(),
        s[at] == '>',
        forall|i: int|
            from <= i < at ==> (#[trigger] s[i]) != '>' && s[i] != '"' && s[i] != '\'',
    ensures
        tag_end(s, from, None) == Some(at + 1),
    decreases at - from,
{
    if from < at {
        lemma_plain_tag_end(s, from + 1, at);
    }
}

proof fn lemma_tag_end_before(
    first: Seq<char>,
    second: Seq<char>,
    from: int,
    quote: Option<char>,
)
    requires
        0 <= from <= first.len(),
        tag_end(first, from, quote) is Some,
    ensures
        tag_end(first + second, from, quote) == tag_end(first, from, quote),
    decreases first.len() - from,
{
    assert((first + second)[from] == first[from]);
    match quote {
        Some(mark) => lemma_tag_end_before(
            first,
            second,
            from + 1,
            if first[from] == mark {
                None
            } else {
                quote
            },
        ),
        None => if first[from] != '>' {
            lemma_tag_end_before(
                first,
                second,
                from + 1,
                if is_quote(first[from]) {
                    Some(first[from])
                } else {
                    None
                },
            )
        },
    }
}

/// HTML is read from left to right: the text before the first tag is shown as it is written, then the
/// tag that means something as what it means, and then all that comes after it, with what the tag has
/// opened and closed. The inside of the tag is any text that begins with a letter or a slash and does
/// not hold its end, but within quotes.
pub proof fn html_is_read_from_left_to_right(
    before: Seq<char>,
    tag: Seq<char>,
    after: Seq<char>,
    open: Seq<Span>,
    markup: Seq<char>,
    now_open: Seq<Span>,
)
    requires
        forall|i: int| 0 <= i < before.len() ==> (#[trigger] before[i]) != '<',
        tag.len() > 0,
        is_letter(tag[0]) || tag[0] == '/',
        tag_end(tag.push('>'), 0, None) == Some(tag.len() as int + 1),
        meaning(tag, open) == Some((markup, now_open)),
    ensures
        html(before + seq!['<'] + tag + seq!['>'] + after, open).0 == (if before.len() > 0 {
            "#text("@ + escape::quoted_text(before) + ")"@
        } else {
            Seq::empty()
        }) + markup + html(after, now_open).0,
        html(before + seq!['<'] + tag + seq!['>'] + after, open).1 == html(after, now_open).1,
{
    let front = before + seq!['<'] + tag + seq!['>'];
    let all = front + after;
    let start = before.len() as int;
    let end = front.len() as int;
    assert(all[start] == '<');
    assert(all[start + 1] == tag[0]);
    assert(all[end - 1] == '>');
    let closed = tag.push('>');
    lemma_tag_end_before(closed, after, 0, None);
    assert(all =~= (before + seq!['<']) + (closed + after));
    lemma_tag_end_after(before + seq!['<'], closed + after, 0, None);
    assert(is_tag(all, start));
    assert(!is_comment(all, start));
    assert(piece_end(all, start) == end);
    assert(all.subrange(start + 1, end - 1) =~= tag);
    assert(meaning_at(all, start, open) == Some((markup, now_open)));
    lemma_html_after(front, after, 0, 0, now_open);
    assert(html_from(all, 0, start, open).0 == written(all, 0, start) + markup + html(
        after,
        now_open,
    ).0);
    assert(all.subrange(0, start) =~= before);
    if start > 0 {
        lemma_find(all, 1, Stop::Character('<'));
        let stop = find(all, 1, Stop::Character('<'));
        if stop < start {
            assert(all[stop] == before[stop]);
        }
        if stop > start {
            assert(stops(Stop::Character('<'), all[start]));
        }
        assert(all[0] == before[0]);
        assert(piece_end(all, 0) == start);
        assert(html_from(all, 0, 0, open) == html_from(all, 0, start, open));
    }
}

/// A text without tags is shown as it is written, line breaks and spaces included.
pub proof fn text_without_tags_is_plain(s: Seq<char>, open: Seq<Span>)
    requires
        s.len() > 0,
        forall|i: int| 0 <= i < s.len() ==> (#[trigger] s[i]) != '<',
    ensures
        html(s, open) == ("#text("@ + escape::quoted_text(s) + ")"@, open),
{
    lemma_find(s, 1, Stop::Character('<'));
    let stop = find(s, 1, Stop::Character('<'));
    if stop < s.len() {
        assert(s[stop] == '<');
    }
    assert(s[0] != '<');
    assert(piece_end(s, 0) == s.len());
    assert(is_plain(s, s.len() as int, open));
    assert(is_plain(s, 0, open));
    plain_html_is_shown_as_written(s, open);
}

/// A comment is shown as it is written, whatever tags it holds.
pub proof fn comments_are_plain(inside: Seq<char>, open: Seq<Span>)
    requires
        forall|i: int| 0 <= i < inside.len() ==> (#[trigger] inside[i]) != '-',
    ensures
        html(seq!['<', '!', '-', '-'] + inside + seq!['-', '-', '>'], open) == (
            "#text("@ + escape::quoted_text(
                seq!['<', '!', '-', '-'] + inside + seq!['-', '-', '>'],
            ) + ")"@,
            open,
        ),
{
    let s = seq!['<', '!', '-', '-'] + inside + seq!['-', '-', '>'];
    let at = inside.len() as int + 4;
    assert(s[at] == '-' && s[at + 1] == '-' && s[at + 2] == '>');
    assert forall|i: int| 4 <= i < at implies (#[trigger] s[i]) != '-' by {
        assert(s[i] == inside[i - 4]);
    }
    lemma_comment(s, 4, at);
    assert(is_comment(s, 0));
    assert(piece_end(s, 0) == s.len());
    assert(is_plain(s, s.len() as int, open));
    assert(is_plain(s, 0, open));
    plain_html_is_shown_as_written(s, open);
}

proof fn lemma_comment(s: Seq<char>, from: int, at: int)
    requires
        0 <= from <= at,
        at + 3 <= s.len(),
        s[at] == '-' && s[at + 1] == '-' && s[at + 2] == '>',
        forall|i: int| from <= i < at ==> (#[trigger] s[i]) != '-',
    ensures
        comment_end(s, from) == at + 3,
    decreases at - from,
{
    if from < at {
        lemma_comment(s, from + 1, at);
    }
}

/// The value of an attribute is what stands between its quotes, of either kind, or, without quotes,
/// what stands before the next white space. The case of its name does not matter.
pub proof fn attributes_have_their_values(
    key: Seq<char>,
    name: Seq<char>,
    value: Seq<char>,
    quote: char,
    rest: Seq<char>,
)
    requires
        is_name(name),
        forall|i: int| 0 <= i < key.len() ==> is_letter(#[trigger] key[i]),
        chars::ascii_lowered(key) == name,
        forall|i: int| 0 <= i < value.len() ==> (#[trigger] value[i]) != quote,
    ensures
        quote == '"' || quote == '\'' ==> attribute(
            seq![' '] + key + seq!['=', quote] + value + seq![quote] + rest,
            0,
            name,
        ) == Some(value),
        value.len() > 0 && (forall|i: int|
            0 <= i < value.len() ==> !chars::white_space(#[trigger] value[i])) && value[0] != '"'
            && value[0] != '\'' ==> attribute(seq![' '] + key + seq!['='] + value + seq![' '] + rest, 0, name)
            == Some(value),
{
    let quoted = seq![' '] + key + seq!['=', quote] + value + seq![quote] + rest;
    let at = key.len() as int + 1;
    if quote == '"' || quote == '\'' {
        assert(quoted.subrange(1, at) =~= key);
        lemma_attribute_name(quoted, key, name);
        assert(quoted[at] == '=');
        assert(quoted[at + 1] == quote);
        assert(find(quoted, at + 1, Stop::Word) == at + 1);
        let last = at + 2 + value.len();
        assert(quoted[last] == quote);
        lemma_find(quoted, at + 2, Stop::Character(quote));
        let stop = find(quoted, at + 2, Stop::Character(quote));
        if stop < last {
            assert(quoted[stop] == value[stop - at - 2]);
        }
        if stop > last {
            assert(stops(Stop::Character(quote), quoted[last]));
        }
        assert(quoted.subrange(at + 2, last) =~= value);
    }
    let bare = seq![' '] + key + seq!['='] + value + seq![' '] + rest;
    if value.len() > 0 && (forall|i: int|
        0 <= i < value.len() ==> !chars::white_space(#[trigger] value[i])) && value[0] != '"'
        && value[0] != '\'' {
        assert(bare.subrange(1, at) =~= key);
        lemma_attribute_name(bare, key, name);
        assert(bare[at] == '=');
        assert(bare[at + 1] == value[0]);
        assert(find(bare, at + 1, Stop::Word) == at + 1);
        let last = at + 1 + value.len();
        assert(bare[last] == ' ');
        lemma_find(bare, at + 1, Stop::Space);
        let stop = find(bare, at + 1, Stop::Space);
        if stop < last {
            assert(bare[stop] == value[stop - at - 1]);
        }
        if stop > last {
            assert(stops(Stop::Space, bare[last]));
        }
        assert(bare.subrange(at + 1, last) =~= value);
    }
}

proof fn lemma_attribute_name(tag: Seq<char>, key: Seq<char>, name: Seq<char>)
    requires
        is_name(name),
        forall|i: int| 0 <= i < key.len() ==> is_letter(#[trigger] key[i]),
        chars::ascii_lowered(key) == name,
        tag.len() > key.len() + 1,
        tag[0] == ' ',
        tag.subrange(1, key.len() as int + 1) == key,
        tag[key.len() as int + 1] == '=',
    ensures
        find(tag, 0, Stop::Attribute) == 1,
        find(tag, 1, Stop::AttributeEnd) == key.len() + 1,
        find(tag, key.len() as int + 1, Stop::Word) == key.len() + 1,
        chars::ascii_lowered(tag.subrange(1, key.len() as int + 1)) == name,
        attribute(tag, 0, name) == Some(attribute_at(tag, 1).1),
{
    let at = key.len() as int + 1;
    assert(key.len() == name.len());
    assert forall|i: int| 1 <= i < at implies is_letter(#[trigger] tag[i]) by {
        assert(tag.subrange(1, at)[i - 1] == tag[i]);
        assert(is_letter(key[i - 1]));
    }
    assert(is_letter(tag[1]));
    assert(find(tag, 0, Stop::Attribute) == find(tag, 1, Stop::Attribute));
    lemma_find(tag, 1, Stop::AttributeEnd);
    let stop = find(tag, 1, Stop::AttributeEnd);
    if stop < at {
        assert(is_letter(tag[stop]));
    }
    if stop > at {
        assert(stops(Stop::AttributeEnd, tag[at]));
    }
}

/// What the tags of text formatting and line breaks mean does not depend on their attributes, nor on
/// the case of their names. A tag of no known name means nothing.
pub proof fn formatting_ignores_case_and_attributes(tag: Seq<char>, open: Seq<Span>)
    requires
        tag.len() > 0,
        tag[0] != '/',
    ensures
        ({
            let name = chars::ascii_lowered(tag.subrange(0, find(tag, 0, Stop::NameEnd)));
            &&& name == "b"@ ==> meaning(tag, open) == Some(("#strong["@, open.push(Span::Strong)))
            &&& name == "strong"@ ==> meaning(tag, open) == Some(("#strong["@, open.push(Span::Strong)))
            &&& name == "i"@ ==> meaning(tag, open) == Some(("#emph["@, open.push(Span::Emphasis)))
            &&& name == "em"@ ==> meaning(tag, open) == Some(("#emph["@, open.push(Span::Emphasis)))
            &&& name == "s"@ ==> meaning(tag, open) == Some(("#strike["@, open.push(Span::Strike)))
            &&& name == "del"@ ==> meaning(tag, open) == Some(("#strike["@, open.push(Span::Strike)))
            &&& name == "strike"@ ==> meaning(tag, open) == Some(("#strike["@, open.push(Span::Strike)))
            &&& name == "u"@ ==> meaning(tag, open) == Some(("#underline["@, open.push(Span::Underline)))
            &&& name == "ins"@ ==> meaning(tag, open) == Some(("#underline["@, open.push(Span::Underline)))
            &&& name == "sub"@ ==> meaning(tag, open) == Some(("#sub["@, open.push(Span::Subscript)))
            &&& name == "sup"@ ==> meaning(tag, open) == Some(("#super["@, open.push(Span::Superscript)))
            &&& name == "code"@ ==> meaning(tag, open) == Some(("#text(font: \"DejaVu Sans Mono\")["@, open.push(Span::Code)))
            &&& name == "kbd"@ ==> meaning(tag, open) == Some(("#text(font: \"DejaVu Sans Mono\")["@, open.push(Span::Code)))
            &&& name == "samp"@ ==> meaning(tag, open) == Some(("#text(font: \"DejaVu Sans Mono\")["@, open.push(Span::Code)))
            &&& name == "tt"@ ==> meaning(tag, open) == Some(("#text(font: \"DejaVu Sans Mono\")["@, open.push(Span::Code)))
            &&& name == "br"@ ==> meaning(tag, open) == Some(("#linebreak()"@, open))
            &&& name != "b"@ && name != "strong"@ && name != "i"@ && name != "em"@ && name != "s"@ && name != "del"@ && name != "strike"@ && name != "u"@ && name != "ins"@ && name != "sub"@ && name != "sup"@ && name != "code"@ && name != "kbd"@ && name != "samp"@ && name != "tt"@ && name != "a"@ && name != "p"@ && name != "div"@ && name != "center"@ && name != "br"@ && name != "img"@
                ==> meaning(tag, open) is None
        }),
{
    lemma_names_differ();
}

proof fn lemma_quote_end(s: Seq<char>, from: int, at: int, quote: char)
    requires
        0 <= from <= at < s.len(),
        s[at] == quote,
        forall|i: int| from <= i < at ==> (#[trigger] s[i]) != quote,
    ensures
        tag_end(s, from, Some(quote)) == tag_end(s, at + 1, None),
    decreases at - from,
{
    if from < at {
        lemma_quote_end(s, from + 1, at, quote);
    }
}

proof fn lemma_to_quote(s: Seq<char>, from: int, at: int)
    requires
        0 <= from <= at < s.len(),
        s[at] == '"' || s[at] == '\'',
        forall|i: int|
            from <= i < at ==> (#[trigger] s[i]) != '>' && s[i] != '"' && s[i] != '\'',
    ensures
        tag_end(s, from, None) == tag_end(s, at + 1, Some(s[at])),
    decreases at - from,
{
    if from < at {
        lemma_to_quote(s, from + 1, at);
    }
}

/// A tag does not end within the quotes of a value, but at the first end behind them.
pub proof fn quoted_values_do_not_end_tags(
    before: Seq<char>,
    quote: char,
    value: Seq<char>,
    after: Seq<char>,
    rest: Seq<char>,
)
    requires
        quote == '"' || quote == '\'',
        forall|i: int|
            0 <= i < before.len() ==> (#[trigger] before[i]) != '>' && before[i] != '"' && before[i]
                != '\'',
        forall|i: int| 0 <= i < value.len() ==> (#[trigger] value[i]) != quote,
        forall|i: int|
            0 <= i < after.len() ==> (#[trigger] after[i]) != '>' && after[i] != '"' && after[i]
                != '\'',
    ensures
        tag_end(
            before + seq![quote] + value + seq![quote] + after + seq!['>'] + rest,
            0,
            None,
        ) == Some(before.len() + value.len() + after.len() + 3int),
{
    let s = before + seq![quote] + value + seq![quote] + after + seq!['>'] + rest;
    let first = before.len() as int;
    let second = first + 1 + value.len();
    let last = second + 1 + after.len();
    assert(s[first] == quote);
    assert(s[second] == quote);
    assert(s[last] == '>');
    assert forall|i: int| 0 <= i < first implies (#[trigger] s[i]) != '>' && s[i] != '"' && s[i]
        != '\'' by {
        assert(s[i] == before[i]);
    }
    assert forall|i: int| first + 1 <= i < second implies (#[trigger] s[i]) != quote by {
        assert(s[i] == value[i - first - 1]);
    }
    assert forall|i: int| second + 1 <= i < last implies (#[trigger] s[i]) != '>' && s[i] != '"'
        && s[i] != '\'' by {
        assert(s[i] == after[i - second - 1]);
    }
    lemma_to_quote(s, 0, first);
    lemma_quote_end(s, first + 1, second, quote);
    lemma_plain_tag_end(s, second + 1, last);
}

proof fn lemma_attribute_at_after(first: Seq<char>, second: Seq<char>, start: int)
    requires
        0 <= start < second.len(),
        !is_filler(second[start]),
    ensures
        ({
            let (end, value, after) = attribute_at(second, start);
            attribute_at(first + second, first.len() + start) == (
                first.len() + end,
                value,
                first.len() + after,
            )
        }),
{
    let all = first + second;
    let n = first.len();
    lemma_attribute_at(second, start);
    lemma_find(second, start, Stop::AttributeEnd);
    lemma_find_after(first, second, start, Stop::AttributeEnd);
    let end = find(second, start, Stop::AttributeEnd);
    lemma_find(second, end, Stop::Word);
    lemma_find_after(first, second, end, Stop::Word);
    let next = find(second, end, Stop::Word);
    if next < second.len() {
        assert(all[n + next] == second[next]);
        if second[next] == '=' {
            lemma_find(second, next + 1, Stop::Word);
            lemma_find_after(first, second, next + 1, Stop::Word);
            let at = find(second, next + 1, Stop::Word);
            if at < second.len() {
                assert(all[n + at] == second[at]);
            }
            if at < second.len() && is_quote(second[at]) {
                lemma_find(second, at + 1, Stop::Character(second[at]));
                lemma_find_after(first, second, at + 1, Stop::Character(second[at]));
                let last = find(second, at + 1, Stop::Character(second[at]));
                assert(all.subrange(n + at + 1, n + last) =~= second.subrange(at + 1, last));
            } else {
                lemma_find(second, at, Stop::Space);
                lemma_find_after(first, second, at, Stop::Space);
                let last = find(second, at, Stop::Space);
                assert(all.subrange(n + at, n + last) =~= second.subrange(at, last));
            }
        }
    }
}

proof fn lemma_attribute_after(first: Seq<char>, second: Seq<char>, from: int, name: Seq<char>)
    requires
        0 <= from <= second.len(),
    ensures
        attribute(first + second, first.len() + from, name) == attribute(second, from, name),
    decreases second.len() - from,
{
    let all = first + second;
    let n = first.len();
    lemma_find(second, from, Stop::Attribute);
    lemma_find_after(first, second, from, Stop::Attribute);
    let start = find(second, from, Stop::Attribute);
    if start < second.len() {
        lemma_attribute_at(second, start);
        lemma_attribute_at_after(first, second, start);
        let (end, value, after) = attribute_at(second, start);
        assert(all.subrange(n + start, n + end) =~= second.subrange(start, end));
        lemma_attribute_after(first, second, after, name);
    }
}

/// An attribute is found behind others, whatever they hold, and is the first of its name.
pub proof fn other_attributes_are_passed_over(
    key: Seq<char>,
    other: Seq<char>,
    value: Seq<char>,
    quote: char,
    rest: Seq<char>,
    name: Seq<char>,
)
    requires
        is_name(other),
        forall|i: int| 0 <= i < key.len() ==> is_letter(#[trigger] key[i]),
        chars::ascii_lowered(key) == other,
        other != name,
        quote == '"' || quote == '\'',
        forall|i: int| 0 <= i < value.len() ==> (#[trigger] value[i]) != quote,
    ensures
        attribute(seq![' '] + key + seq!['=', quote] + value + seq![quote] + rest, 0, name)
            == attribute(rest, 0, name),
{
    let first = seq![' '] + key + seq!['=', quote] + value + seq![quote];
    let tag = first + rest;
    let at = key.len() as int + 1;
    assert(tag.subrange(1, at) =~= key);
    assert(tag[at] == '=');
    lemma_attribute_name(tag, key, other);
    assert(tag[at + 1] == quote);
    assert(find(tag, at + 1, Stop::Word) == at + 1);
    let last = at + 2 + value.len();
    assert(tag[last] == quote);
    lemma_find(tag, at + 2, Stop::Character(quote));
    let stop = find(tag, at + 2, Stop::Character(quote));
    if stop < last {
        assert(tag[stop] == value[stop - at - 2]);
    }
    if stop > last {
        assert(stops(Stop::Character(quote), tag[last]));
    }
    assert(attribute_at(tag, 1).2 == last + 1);
    assert(attribute(tag, 0, name) == attribute(tag, last + 1, name));
    lemma_attribute_after(first, rest, 0, name);
}

/// Paragraphs and divisions that are not centred are aligned to the right if they ask for it, and else
/// stand as they are; a link without an address only encloses its text, and `center` centres.
pub proof fn other_blocks_are_known(tag: Seq<char>, open: Seq<Span>)
    requires
        tag.len() > 0,
        tag[0] != '/',
    ensures
        ({
            let end = find(tag, 0, Stop::NameEnd);
            let name = chars::ascii_lowered(tag.subrange(0, end));
            let align = attribute(tag, end, "align"@);
            let right = align is Some && chars::ascii_lowered(align->0) == "right"@;
            let centred = align is Some && chars::ascii_lowered(align->0) == "center"@;
            &&& name == "p"@ && right ==> meaning(tag, open) == Some(
                ("\n#align(right)["@, open.push(Span::Paragraph)),
            )
            &&& name == "div"@ && right ==> meaning(tag, open) == Some(
                ("\n#align(right)["@, open.push(Span::Division)),
            )
            &&& name == "p"@ && !right && !centred ==> meaning(tag, open) == Some(
                ("\n\n#["@, open.push(Span::Paragraph)),
            )
            &&& name == "div"@ && !right && !centred ==> meaning(tag, open) == Some(
                ("\n\n#["@, open.push(Span::Division)),
            )
            &&& name == "center"@ ==> meaning(tag, open) == Some(
                ("\n#align(center)["@, open.push(Span::Center)),
            )
            &&& name == "a"@ && (attribute(tag, end, "href"@) is None || attribute(
                tag,
                end,
                "href"@,
            )->0.len() == 0) ==> meaning(tag, open) == Some(("#["@, open.push(Span::Link)))
        }),
{
    lemma_names_differ();
    reveal_strlit("right");
}

proof fn lemma_no_tags(s: Seq<char>, at: int, open: Seq<Span>)
    requires
        0 <= at <= s.len(),
        forall|i: int|
            0 <= i < s.len() - 1 && (#[trigger] s[i]) == '<' ==> !(is_letter(s[i + 1]) || s[i + 1]
                == '/' || s[i + 1] == '!' || s[i + 1] == '?'),
    ensures
        is_plain(s, at, open),
    decreases s.len() - at,
{
    if at < s.len() {
        lemma_piece_end(s, at);
        assert(!is_tag_start(s, at));
        assert(!is_comment(s, at));
        lemma_no_tags(s, piece_end(s, at), open);
    }
}

/// An opening angle bracket that no letter, slash, exclamation mark or question mark follows begins no
/// tag: a text with no other is shown as it is written.
pub proof fn lone_brackets_are_text(s: Seq<char>, open: Seq<Span>)
    requires
        s.len() > 0,
        forall|i: int|
            0 <= i < s.len() - 1 && (#[trigger] s[i]) == '<' ==> !(is_letter(s[i + 1]) || s[i + 1]
                == '/' || s[i + 1] == '!' || s[i + 1] == '?'),
    ensures
        html(s, open) == ("#text("@ + escape::quoted_text(s) + ")"@, open),
{
    lemma_no_tags(s, 0, open);
    plain_html_is_shown_as_written(s, open);
}

/// A tag that means nothing is shown as it is written, with the text around it.
pub proof fn tags_without_meaning_are_text(
    before: Seq<char>,
    tag: Seq<char>,
    after: Seq<char>,
    open: Seq<Span>,
)
    requires
        forall|i: int| 0 <= i < before.len() ==> (#[trigger] before[i]) != '<',
        forall|i: int| 0 <= i < after.len() ==> (#[trigger] after[i]) != '<',
        tag.len() > 0,
        is_letter(tag[0]) || tag[0] == '/',
        tag_end(tag.push('>'), 0, None) == Some(tag.len() as int + 1),
        meaning(tag, open) is None,
    ensures
        html(before + seq!['<'] + tag + seq!['>'] + after, open) == (
            "#text("@ + escape::quoted_text(before + seq!['<'] + tag + seq!['>'] + after) + ")"@,
            open,
        ),
{
    let front = before + seq!['<'] + tag + seq!['>'];
    let all = front + after;
    let start = before.len() as int;
    let end = front.len() as int;
    assert(all[start] == '<');
    assert(all[start + 1] == tag[0]);
    let closed = tag.push('>');
    lemma_tag_end_before(closed, after, 0, None);
    assert(all =~= (before + seq!['<']) + (closed + after));
    lemma_tag_end_after(before + seq!['<'], closed + after, 0, None);
    assert(is_tag(all, start));
    assert(!is_comment(all, start));
    assert(piece_end(all, start) == end);
    assert(all.subrange(start + 1, end - 1) =~= tag);
    if end < all.len() {
        lemma_find(all, end + 1, Stop::Character('<'));
        let stop = find(all, end + 1, Stop::Character('<'));
        if stop < all.len() {
            assert(all[stop] == after[stop - end]);
        }
        assert(all[end] == after[0]);
        assert(piece_end(all, end) == all.len());
        assert(is_plain(all, all.len() as int, open));
    }
    assert(is_plain(all, end, open));
    assert(is_plain(all, start, open));
    if start > 0 {
        lemma_find(all, 1, Stop::Character('<'));
        let stop = find(all, 1, Stop::Character('<'));
        if stop < start {
            assert(all[stop] == before[stop]);
        }
        if stop > start {
            assert(stops(Stop::Character('<'), all[start]));
        }
        assert(all[0] == before[0]);
        assert(piece_end(all, 0) == start);
    }
    assert(is_plain(all, 0, open));
    plain_html_is_shown_as_written(all, open);
}

} // verus!

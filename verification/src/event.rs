//! The structure of a Markdown document, as a sequence of events.
use vstd::prelude::*;

verus! {

/// How a table column is aligned.
#[derive(Clone, Copy, Debug, PartialEq, Eq, Structural)]
pub enum ColumnAlign {
    Unset,
    Left,
    Center,
    Right,
}

/// An element that encloses others, as it opens.
#[derive(Debug)]
pub enum Element {
    Paragraph,
    /// A heading of level one to six.
    Heading(u8),
    BlockQuote,
    /// A code block, with the info string of a fenced one.
    CodeBlock(Option<String>),
    HtmlBlock,
    /// A list, with the number of the first item of an ordered one.
    List(Option<u64>),
    Item,
    /// A footnote, with its label.
    FootnoteDefinition(String),
    DefinitionList,
    DefinitionListTitle,
    DefinitionListDefinition,
    /// A table, with the alignments of its columns.
    Table(Vec<ColumnAlign>),
    TableHead,
    TableRow,
    TableCell,
    Emphasis,
    Strong,
    Strikethrough,
    Superscript,
    Subscript,
    /// A link, with its destination.
    Link(String),
    /// An image, with its source.
    Image(String),
    MetadataBlock,
}

/// An element that encloses others, as it closes.
#[derive(Clone, Copy, Debug, PartialEq, Eq, Structural)]
pub enum Closing {
    Paragraph,
    Heading(u8),
    BlockQuote,
    CodeBlock,
    HtmlBlock,
    List,
    Item,
    FootnoteDefinition,
    DefinitionList,
    DefinitionListTitle,
    DefinitionListDefinition,
    Table,
    TableHead,
    TableRow,
    TableCell,
    Emphasis,
    Strong,
    Strikethrough,
    Superscript,
    Subscript,
    Link,
    Image,
    MetadataBlock,
}

/// One step through a document.
#[derive(Debug)]
pub enum Step {
    Start(Element),
    End(Closing),
    Text(String),
    /// Code within a line.
    Code(String),
    /// Math, with what stands between its dollar signs: one on each side within a line, two on
    /// each side if it is displayed.
    Math { display: bool, text: String },
    /// A piece of HTML: a tag within a line, or a line of an HTML block.
    Html(String),
    /// A reference to the footnote of that label.
    FootnoteReference(String),
    SoftBreak,
    HardBreak,
    Rule,
    /// The box of a task, ticked or not.
    TaskListMarker(bool),
}

/// The end that belongs to an element.
pub open spec fn end_of(tag: Element) -> Closing {
    match tag {
        Element::Paragraph => Closing::Paragraph,
        Element::Heading(level) => Closing::Heading(level),
        Element::BlockQuote => Closing::BlockQuote,
        Element::CodeBlock(_) => Closing::CodeBlock,
        Element::HtmlBlock => Closing::HtmlBlock,
        Element::List(_) => Closing::List,
        Element::Item => Closing::Item,
        Element::FootnoteDefinition(_) => Closing::FootnoteDefinition,
        Element::DefinitionList => Closing::DefinitionList,
        Element::DefinitionListTitle => Closing::DefinitionListTitle,
        Element::DefinitionListDefinition => Closing::DefinitionListDefinition,
        Element::Table(_) => Closing::Table,
        Element::TableHead => Closing::TableHead,
        Element::TableRow => Closing::TableRow,
        Element::TableCell => Closing::TableCell,
        Element::Emphasis => Closing::Emphasis,
        Element::Strong => Closing::Strong,
        Element::Strikethrough => Closing::Strikethrough,
        Element::Superscript => Closing::Superscript,
        Element::Subscript => Closing::Subscript,
        Element::Link(_) => Closing::Link,
        Element::Image(_) => Closing::Image,
        Element::MetadataBlock => Closing::MetadataBlock,
    }
}

/// The level of a heading, counted from one.
#[verifier::external_type_specification]
pub struct ExHeadingLevel(pulldown_cmark::HeadingLevel);

/// The alignment of a table column.
#[verifier::external_type_specification]
pub struct ExAlignment(pulldown_cmark::Alignment);

/// The kind of a block quote.
#[verifier::external_type_specification]
pub struct ExBlockQuoteKind(pulldown_cmark::BlockQuoteKind);

/// The style of a metadata block.
#[verifier::external_type_specification]
pub struct ExMetadataBlockKind(pulldown_cmark::MetadataBlockKind);

/// The way a link was written.
#[verifier::external_type_specification]
pub struct ExLinkType(pulldown_cmark::LinkType);

/// A string that may be borrowed from the document.
#[verifier::external_type_specification]
#[verifier::external_body]
pub struct ExCowStr<'a>(pulldown_cmark::CowStr<'a>);

/// The kind of a code block.
#[verifier::external_type_specification]
pub struct ExCodeBlockKind<'a>(pulldown_cmark::CodeBlockKind<'a>);

/// An element as the parser opens it.
#[verifier::external_type_specification]
pub struct ExTag<'a>(pulldown_cmark::Tag<'a>);

/// An element as the parser closes it.
#[verifier::external_type_specification]
pub struct ExTagEnd(pulldown_cmark::TagEnd);

/// A step as the parser reports it.
#[verifier::external_type_specification]
pub struct ExEvent<'a>(pulldown_cmark::Event<'a>);

/// The characters that a parser's string holds.
pub uninterp spec fn cow_text(s: pulldown_cmark::CowStr<'_>) -> Seq<char>;

/// `CowStr::into_string` hands out the characters that the string holds.
pub assume_specification<'a>[ pulldown_cmark::CowStr::<'a>::into_string ](
    s: pulldown_cmark::CowStr<'a>,
) -> (owned: String)
    ensures
        owned@ == cow_text(s),
;

/// The number of a heading level.
pub open spec fn level_number(level: pulldown_cmark::HeadingLevel) -> u8 {
    match level {
        pulldown_cmark::HeadingLevel::H1 => 1,
        pulldown_cmark::HeadingLevel::H2 => 2,
        pulldown_cmark::HeadingLevel::H3 => 3,
        pulldown_cmark::HeadingLevel::H4 => 4,
        pulldown_cmark::HeadingLevel::H5 => 5,
        pulldown_cmark::HeadingLevel::H6 => 6,
    }
}

fn level_of(level: pulldown_cmark::HeadingLevel) -> (number: u8)
    ensures
        number == level_number(level),
{
    match level {
        pulldown_cmark::HeadingLevel::H1 => 1,
        pulldown_cmark::HeadingLevel::H2 => 2,
        pulldown_cmark::HeadingLevel::H3 => 3,
        pulldown_cmark::HeadingLevel::H4 => 4,
        pulldown_cmark::HeadingLevel::H5 => 5,
        pulldown_cmark::HeadingLevel::H6 => 6,
    }
}

/// The alignment that a parser's alignment stands for.
pub open spec fn column_align(alignment: pulldown_cmark::Alignment) -> ColumnAlign {
    match alignment {
        pulldown_cmark::Alignment::None => ColumnAlign::Unset,
        pulldown_cmark::Alignment::Left => ColumnAlign::Left,
        pulldown_cmark::Alignment::Center => ColumnAlign::Center,
        pulldown_cmark::Alignment::Right => ColumnAlign::Right,
    }
}

fn aligns_of(alignments: Vec<pulldown_cmark::Alignment>) -> (aligns: Vec<ColumnAlign>)
    ensures
        aligns@ == alignments@.map_values(|a: pulldown_cmark::Alignment| column_align(a)),
{
    let mut aligns: Vec<ColumnAlign> = Vec::new();
    let mut i: usize = 0;
    while i < alignments.len()
        invariant
            i <= alignments@.len(),
            aligns@ =~= alignments@.take(i as int).map_values(
                |a: pulldown_cmark::Alignment| column_align(a),
            ),
        decreases alignments@.len() - i,
    {
        let align = match &alignments[i] {
            pulldown_cmark::Alignment::None => ColumnAlign::Unset,
            pulldown_cmark::Alignment::Left => ColumnAlign::Left,
            pulldown_cmark::Alignment::Center => ColumnAlign::Center,
            pulldown_cmark::Alignment::Right => ColumnAlign::Right,
        };
        aligns.push(align);
        i += 1;
    }
    assert(alignments@.take(i as int) =~= alignments@);
    aligns
}

/// The closing that a parser's closing stands for.
pub open spec fn closing(end: pulldown_cmark::TagEnd) -> Closing {
    match end {
        pulldown_cmark::TagEnd::Heading(level) => Closing::Heading(level_number(level)),
        pulldown_cmark::TagEnd::BlockQuote(_) => Closing::BlockQuote,
        pulldown_cmark::TagEnd::List(_) => Closing::List,
        pulldown_cmark::TagEnd::MetadataBlock(_) => Closing::MetadataBlock,
        pulldown_cmark::TagEnd::Paragraph => Closing::Paragraph,
        pulldown_cmark::TagEnd::CodeBlock => Closing::CodeBlock,
        pulldown_cmark::TagEnd::HtmlBlock => Closing::HtmlBlock,
        pulldown_cmark::TagEnd::Item => Closing::Item,
        pulldown_cmark::TagEnd::FootnoteDefinition => Closing::FootnoteDefinition,
        pulldown_cmark::TagEnd::DefinitionList => Closing::DefinitionList,
        pulldown_cmark::TagEnd::DefinitionListTitle => Closing::DefinitionListTitle,
        pulldown_cmark::TagEnd::DefinitionListDefinition => Closing::DefinitionListDefinition,
        pulldown_cmark::TagEnd::Table => Closing::Table,
        pulldown_cmark::TagEnd::TableHead => Closing::TableHead,
        pulldown_cmark::TagEnd::TableRow => Closing::TableRow,
        pulldown_cmark::TagEnd::TableCell => Closing::TableCell,
        pulldown_cmark::TagEnd::Emphasis => Closing::Emphasis,
        pulldown_cmark::TagEnd::Strong => Closing::Strong,
        pulldown_cmark::TagEnd::Strikethrough => Closing::Strikethrough,
        pulldown_cmark::TagEnd::Superscript => Closing::Superscript,
        pulldown_cmark::TagEnd::Subscript => Closing::Subscript,
        pulldown_cmark::TagEnd::Link => Closing::Link,
        pulldown_cmark::TagEnd::Image => Closing::Image,
    }
}

fn closing_of(end: pulldown_cmark::TagEnd) -> (result: Closing)
    ensures
        result == closing(end),
{
    match end {
        pulldown_cmark::TagEnd::Heading(level) => Closing::Heading(level_of(level)),
        pulldown_cmark::TagEnd::BlockQuote(_) => Closing::BlockQuote,
        pulldown_cmark::TagEnd::List(_) => Closing::List,
        pulldown_cmark::TagEnd::MetadataBlock(_) => Closing::MetadataBlock,
        pulldown_cmark::TagEnd::Paragraph => Closing::Paragraph,
        pulldown_cmark::TagEnd::CodeBlock => Closing::CodeBlock,
        pulldown_cmark::TagEnd::HtmlBlock => Closing::HtmlBlock,
        pulldown_cmark::TagEnd::Item => Closing::Item,
        pulldown_cmark::TagEnd::FootnoteDefinition => Closing::FootnoteDefinition,
        pulldown_cmark::TagEnd::DefinitionList => Closing::DefinitionList,
        pulldown_cmark::TagEnd::DefinitionListTitle => Closing::DefinitionListTitle,
        pulldown_cmark::TagEnd::DefinitionListDefinition => Closing::DefinitionListDefinition,
        pulldown_cmark::TagEnd::Table => Closing::Table,
        pulldown_cmark::TagEnd::TableHead => Closing::TableHead,
        pulldown_cmark::TagEnd::TableRow => Closing::TableRow,
        pulldown_cmark::TagEnd::TableCell => Closing::TableCell,
        pulldown_cmark::TagEnd::Emphasis => Closing::Emphasis,
        pulldown_cmark::TagEnd::Strong => Closing::Strong,
        pulldown_cmark::TagEnd::Strikethrough => Closing::Strikethrough,
        pulldown_cmark::TagEnd::Superscript => Closing::Superscript,
        pulldown_cmark::TagEnd::Subscript => Closing::Subscript,
        pulldown_cmark::TagEnd::Link => Closing::Link,
        pulldown_cmark::TagEnd::Image => Closing::Image,
    }
}

/// Whether `element` is what the parser's `tag` stands for.
pub open spec fn is_element(tag: pulldown_cmark::Tag<'_>, element: Element) -> bool {
    match tag {
        pulldown_cmark::Tag::Heading { level, .. } => element == Element::Heading(
            level_number(level),
        ),
        pulldown_cmark::Tag::BlockQuote(_) => element is BlockQuote,
        pulldown_cmark::Tag::CodeBlock(kind) => match kind {
            pulldown_cmark::CodeBlockKind::Indented => element == Element::CodeBlock(None),
            pulldown_cmark::CodeBlockKind::Fenced(info) => {
                &&& element matches Element::CodeBlock(Some(text))
                &&& text@ == cow_text(info)
            },
        },
        pulldown_cmark::Tag::List(start) => element == Element::List(start),
        pulldown_cmark::Tag::FootnoteDefinition(label) => {
            &&& element matches Element::FootnoteDefinition(text)
            &&& text@ == cow_text(label)
        },
        pulldown_cmark::Tag::Table(alignments) => {
            &&& element matches Element::Table(aligns)
            &&& aligns@ == alignments@.map_values(|a: pulldown_cmark::Alignment| column_align(a))
        },
        pulldown_cmark::Tag::Link { dest_url, .. } => {
            &&& element matches Element::Link(text)
            &&& text@ == cow_text(dest_url)
        },
        pulldown_cmark::Tag::Image { dest_url, .. } => {
            &&& element matches Element::Image(text)
            &&& text@ == cow_text(dest_url)
        },
        pulldown_cmark::Tag::MetadataBlock(_) => element is MetadataBlock,
        pulldown_cmark::Tag::Paragraph => element is Paragraph,
        pulldown_cmark::Tag::HtmlBlock => element is HtmlBlock,
        pulldown_cmark::Tag::Item => element is Item,
        pulldown_cmark::Tag::DefinitionList => element is DefinitionList,
        pulldown_cmark::Tag::DefinitionListTitle => element is DefinitionListTitle,
        pulldown_cmark::Tag::DefinitionListDefinition => element is DefinitionListDefinition,
        pulldown_cmark::Tag::TableHead => element is TableHead,
        pulldown_cmark::Tag::TableRow => element is TableRow,
        pulldown_cmark::Tag::TableCell => element is TableCell,
        pulldown_cmark::Tag::Emphasis => element is Emphasis,
        pulldown_cmark::Tag::Strong => element is Strong,
        pulldown_cmark::Tag::Strikethrough => element is Strikethrough,
        pulldown_cmark::Tag::Superscript => element is Superscript,
        pulldown_cmark::Tag::Subscript => element is Subscript,
    }
}

fn element_of(tag: pulldown_cmark::Tag<'_>) -> (element: Element)
    ensures
        is_element(tag, element),
{
    match tag {
        pulldown_cmark::Tag::Heading { level, .. } => Element::Heading(level_of(level)),
        pulldown_cmark::Tag::BlockQuote(_) => Element::BlockQuote,
        pulldown_cmark::Tag::CodeBlock(kind) => match kind {
            pulldown_cmark::CodeBlockKind::Indented => Element::CodeBlock(None),
            pulldown_cmark::CodeBlockKind::Fenced(info) => Element::CodeBlock(
                Some(info.into_string()),
            ),
        },
        pulldown_cmark::Tag::List(start) => Element::List(start),
        pulldown_cmark::Tag::FootnoteDefinition(label) => Element::FootnoteDefinition(
            label.into_string(),
        ),
        pulldown_cmark::Tag::Table(alignments) => Element::Table(aligns_of(alignments)),
        pulldown_cmark::Tag::Link { dest_url, .. } => Element::Link(dest_url.into_string()),
        pulldown_cmark::Tag::Image { dest_url, .. } => Element::Image(dest_url.into_string()),
        pulldown_cmark::Tag::MetadataBlock(_) => Element::MetadataBlock,
        pulldown_cmark::Tag::Paragraph => Element::Paragraph,
        pulldown_cmark::Tag::HtmlBlock => Element::HtmlBlock,
        pulldown_cmark::Tag::Item => Element::Item,
        pulldown_cmark::Tag::DefinitionList => Element::DefinitionList,
        pulldown_cmark::Tag::DefinitionListTitle => Element::DefinitionListTitle,
        pulldown_cmark::Tag::DefinitionListDefinition => Element::DefinitionListDefinition,
        pulldown_cmark::Tag::TableHead => Element::TableHead,
        pulldown_cmark::Tag::TableRow => Element::TableRow,
        pulldown_cmark::Tag::TableCell => Element::TableCell,
        pulldown_cmark::Tag::Emphasis => Element::Emphasis,
        pulldown_cmark::Tag::Strong => Element::Strong,
        pulldown_cmark::Tag::Strikethrough => Element::Strikethrough,
        pulldown_cmark::Tag::Superscript => Element::Superscript,
        pulldown_cmark::Tag::Subscript => Element::Subscript,
    }
}

/// Whether `step` is what the parser's `event` stands for.
pub open spec fn is_step(event: pulldown_cmark::Event<'_>, step: Step) -> bool {
    match event {
        pulldown_cmark::Event::Start(tag) => {
            &&& step matches Step::Start(element)
            &&& is_element(tag, element)
        },
        pulldown_cmark::Event::End(end) => step == Step::End(closing(end)),
        pulldown_cmark::Event::Text(s) => step matches Step::Text(text) && text@ == cow_text(s),
        pulldown_cmark::Event::Code(s) => step matches Step::Code(text) && text@ == cow_text(s),
        pulldown_cmark::Event::InlineMath(s) => {
            &&& step matches Step::Math { display, text }
            &&& !display
            &&& text@ == cow_text(s)
        },
        pulldown_cmark::Event::DisplayMath(s) => {
            &&& step matches Step::Math { display, text }
            &&& display
            &&& text@ == cow_text(s)
        },
        pulldown_cmark::Event::Html(s) => step matches Step::Html(text) && text@ == cow_text(s),
        pulldown_cmark::Event::InlineHtml(s) => step matches Step::Html(text) && text@ == cow_text(
            s,
        ),
        pulldown_cmark::Event::FootnoteReference(s) => {
            &&& step matches Step::FootnoteReference(text)
            &&& text@ == cow_text(s)
        },
        pulldown_cmark::Event::SoftBreak => step is SoftBreak,
        pulldown_cmark::Event::HardBreak => step is HardBreak,
        pulldown_cmark::Event::Rule => step is Rule,
        pulldown_cmark::Event::TaskListMarker(done) => step == Step::TaskListMarker(done),
    }
}

fn step_of(event: pulldown_cmark::Event<'_>) -> (step: Step)
    ensures
        is_step(event, step),
{
    match event {
        pulldown_cmark::Event::Start(tag) => Step::Start(element_of(tag)),
        pulldown_cmark::Event::End(end) => Step::End(closing_of(end)),
        pulldown_cmark::Event::Text(s) => Step::Text(s.into_string()),
        pulldown_cmark::Event::Code(s) => Step::Code(s.into_string()),
        pulldown_cmark::Event::InlineMath(s) => Step::Math {
            display: false,
            text: s.into_string(),
        },
        pulldown_cmark::Event::DisplayMath(s) => Step::Math {
            display: true,
            text: s.into_string(),
        },
        pulldown_cmark::Event::Html(s) => Step::Html(s.into_string()),
        pulldown_cmark::Event::InlineHtml(s) => Step::Html(s.into_string()),
        pulldown_cmark::Event::FootnoteReference(s) => Step::FootnoteReference(s.into_string()),
        pulldown_cmark::Event::SoftBreak => Step::SoftBreak,
        pulldown_cmark::Event::HardBreak => Step::HardBreak,
        pulldown_cmark::Event::Rule => Step::Rule,
        pulldown_cmark::Event::TaskListMarker(done) => Step::TaskListMarker(done),
    }
}

/// The extensions of Markdown that a document may use.
#[derive(Clone, Copy, Debug, PartialEq, Eq, Structural)]
pub struct Extensions {
    pub tables: bool,
    pub strikethrough: bool,
    pub task_lists: bool,
    pub footnotes: bool,
    pub math: bool,
}

/// The steps through a Markdown document that may use the given extensions, as
/// `pulldown_cmark::Parser` reports them.
pub uninterp spec fn markdown_steps(markdown: Seq<char>, extensions: Extensions) -> Seq<Step>;

/// `pulldown_cmark::Parser::new_ext`, run to its end with the given extensions, reports
/// [`markdown_steps`] of its text. Each event becomes the step that [`step_of`] proves it to be.
#[verifier::external_body]
pub(crate) fn parse_markdown(markdown: &str, extensions: Extensions) -> (steps: Vec<Step>)
    ensures
        steps@ == markdown_steps(markdown@, extensions),
{
    let mut options = pulldown_cmark::Options::empty();
    options.set(pulldown_cmark::Options::ENABLE_TABLES, extensions.tables);
    options.set(pulldown_cmark::Options::ENABLE_STRIKETHROUGH, extensions.strikethrough);
    options.set(pulldown_cmark::Options::ENABLE_TASKLISTS, extensions.task_lists);
    options.set(pulldown_cmark::Options::ENABLE_FOOTNOTES, extensions.footnotes);
    options.set(pulldown_cmark::Options::ENABLE_MATH, extensions.math);
    pulldown_cmark::Parser::new_ext(markdown, options).map(|event| step_of(event)).collect()
}

/// The levels of headings are the numbers from one to six, and no two levels have the same.
pub proof fn levels_are_told_apart(
    level: pulldown_cmark::HeadingLevel,
    other: pulldown_cmark::HeadingLevel,
)
    ensures
        1 <= level_number(level) <= 6,
        level_number(level) == level_number(other) ==> level == other,
        level is H1 ==> level_number(level) == 1,
        level is H2 ==> level_number(level) == 2,
        level is H3 ==> level_number(level) == 3,
        level is H4 ==> level_number(level) == 4,
        level is H5 ==> level_number(level) == 5,
{
}

/// Whether a parser's closing is that of one of its elements.
pub open spec fn is_end(tag: pulldown_cmark::Tag<'_>, end: pulldown_cmark::TagEnd) -> bool {
    match tag {
        pulldown_cmark::Tag::Heading { level, .. } => end == pulldown_cmark::TagEnd::Heading(level),
        pulldown_cmark::Tag::BlockQuote(kind) => end == pulldown_cmark::TagEnd::BlockQuote(kind),
        pulldown_cmark::Tag::CodeBlock(_) => end is CodeBlock,
        pulldown_cmark::Tag::List(_) => end is List,
        pulldown_cmark::Tag::FootnoteDefinition(_) => end is FootnoteDefinition,
        pulldown_cmark::Tag::Table(_) => end is Table,
        pulldown_cmark::Tag::Link { .. } => end is Link,
        pulldown_cmark::Tag::Image { .. } => end is Image,
        pulldown_cmark::Tag::MetadataBlock(_) => end is MetadataBlock,
        pulldown_cmark::Tag::Paragraph => end is Paragraph,
        pulldown_cmark::Tag::HtmlBlock => end is HtmlBlock,
        pulldown_cmark::Tag::Item => end is Item,
        pulldown_cmark::Tag::DefinitionList => end is DefinitionList,
        pulldown_cmark::Tag::DefinitionListTitle => end is DefinitionListTitle,
        pulldown_cmark::Tag::DefinitionListDefinition => end is DefinitionListDefinition,
        pulldown_cmark::Tag::TableHead => end is TableHead,
        pulldown_cmark::Tag::TableRow => end is TableRow,
        pulldown_cmark::Tag::TableCell => end is TableCell,
        pulldown_cmark::Tag::Emphasis => end is Emphasis,
        pulldown_cmark::Tag::Strong => end is Strong,
        pulldown_cmark::Tag::Strikethrough => end is Strikethrough,
        pulldown_cmark::Tag::Superscript => end is Superscript,
        pulldown_cmark::Tag::Subscript => end is Subscript,
    }
}

/// What the parser closes is what it opened: the closing of an element belongs to it, and to no
/// element of another kind.
pub proof fn closings_belong_to_their_elements(
    tag: pulldown_cmark::Tag<'_>,
    end: pulldown_cmark::TagEnd,
    element: Element,
    other: Element,
)
    requires
        is_element(tag, element),
        is_end(tag, end),
    ensures
        closing(end) == end_of(element),
        end_of(other) == end_of(element) && element is Paragraph ==> other is Paragraph,
        end_of(other) == end_of(element) && element is Item ==> other is Item,
        end_of(other) == end_of(element) && element is List ==> other is List,
        end_of(other) == end_of(element) && element is Table ==> other is Table,
        end_of(other) == end_of(element) && element is TableRow ==> other is TableRow,
        end_of(other) == end_of(element) && element is TableCell ==> other is TableCell,
        end_of(other) == end_of(element) && element is Emphasis ==> other is Emphasis,
        end_of(other) == end_of(element) && element is Strong ==> other is Strong,
        end_of(other) == end_of(element) && element is Link ==> other is Link,
        end_of(other) == end_of(element) && element is BlockQuote ==> other is BlockQuote,
{
}

/// What the parser says of an element is kept: the numbers of lists, the languages of code blocks, and
/// the alignment of each column of a table.
pub proof fn elements_keep_what_they_are_told(tag: pulldown_cmark::Tag<'_>, element: Element, i: int)
    requires
        is_element(tag, element),
    ensures
        tag matches pulldown_cmark::Tag::List(start) ==> (element matches Element::List(number)
            && number == start),
        tag matches pulldown_cmark::Tag::CodeBlock(pulldown_cmark::CodeBlockKind::Fenced(info))
            ==> (element matches Element::CodeBlock(Some(text)) && text@ == cow_text(info)),
        tag matches pulldown_cmark::Tag::CodeBlock(pulldown_cmark::CodeBlockKind::Indented) ==> (
        element matches Element::CodeBlock(info) && info is None),
        tag matches pulldown_cmark::Tag::Table(alignments) ==> (element matches Element::Table(
            aligns,
        ) && aligns@.len() == alignments@.len() && (0 <= i < aligns@.len() ==> (
        aligns@[i] is Right == alignments@[i] is Right) && (aligns@[i] is Center
            == alignments@[i] is Center) && (aligns@[i] is Left == alignments@[i] is Left))),
{
}

} // verus!

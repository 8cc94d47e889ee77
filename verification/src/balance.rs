//! Markup is closed in itself: nothing that a document holds opens or closes a bracket of the
//! markup around it, nor reaches out of a string literal.
use vstd::prelude::*;

use crate::event::{ColumnAlign, Step};
#[allow(unused_imports)]
use crate::event::{Closing, Element};
#[allow(unused_imports)]
use crate::html::{Span, Stop};
use crate::table::Cell;
#[allow(unused_imports)]
use crate::{chars, escape, event, html, markdown, render, table};

verus! {

/// The brackets that are open, the innermost first.
pub enum Nest {
    Ground,
    Open(char, Box<Nest>),
}

/// Where reading markup has got to: the open brackets, whether inside a string literal, whether
/// behind a backslash there, and whether a bracket was closed that did not fit.
pub struct Reading {
    pub nest: Nest,
    pub quoted: bool,
    pub escape: bool,
    pub broken: bool,
}

/// Reading outside string literals.
pub open spec fn outside(nest: Nest) -> Reading {
    Reading { nest, quoted: false, escape: false, broken: false }
}

/// Reading inside a string literal.
pub open spec fn inside(nest: Nest) -> Reading {
    Reading { nest, quoted: true, escape: false, broken: false }
}

/// Closing a bracket of the given kind.
pub open spec fn closed(reading: Reading, bracket: char) -> Reading {
    match reading.nest {
        Nest::Open(open, rest) if open == bracket => Reading { nest: *rest, ..reading },
        _ => Reading { broken: true, ..reading },
    }
}

/// Reading one character.
pub open spec fn read(reading: Reading, c: char) -> Reading {
    if reading.broken {
        reading
    } else if reading.quoted {
        if reading.escape {
            Reading { escape: false, ..reading }
        } else if c == '\\' {
            Reading { escape: true, ..reading }
        } else if c == '"' {
            Reading { quoted: false, ..reading }
        } else {
            reading
        }
    } else if c == '"' {
        Reading { quoted: true, ..reading }
    } else if c == '[' || c == '(' {
        Reading { nest: Nest::Open(c, Box::new(reading.nest)), ..reading }
    } else if c == ']' {
        closed(reading, '[')
    } else if c == ')' {
        closed(reading, '(')
    } else {
        reading
    }
}

/// Reading markup from index `i` on.
pub open spec fn read_from(s: Seq<char>, i: int, reading: Reading) -> Reading
    decreases s.len() - i,
{
    if i < 0 || i >= s.len() {
        reading
    } else {
        read_from(s, i + 1, read(reading, s[i]))
    }
}

/// Whether reading markup leads from some open brackets to others, outside string literals.
pub open spec fn leads(s: Seq<char>, from: Nest, to: Nest) -> bool {
    read_from(s, 0, outside(from)) == outside(to)
}

/// Whether markup closes each bracket and each string literal that it opens, and no others.
pub open spec fn is_balanced(s: Seq<char>) -> bool {
    forall|nest: Nest| #[trigger] leads(s, nest, nest)
}

/// One more open square bracket.
pub open spec fn square(nest: Nest) -> Nest {
    Nest::Open('[', Box::new(nest))
}

/// One more open round bracket.
pub open spec fn round(nest: Nest) -> Nest {
    Nest::Open('(', Box::new(nest))
}

/// So many more open square brackets.
pub open spec fn squares(nest: Nest, count: nat) -> Nest
    decreases count,
{
    if count == 0 {
        nest
    } else {
        square(squares(nest, (count - 1) as nat))
    }
}

proof fn lemma_read_shifted(a: Seq<char>, b: Seq<char>, i: int, reading: Reading)
    requires
        0 <= i,
    ensures
        read_from(a + b, a.len() + i, reading) == read_from(b, i, reading),
    decreases b.len() - i,
{
    if i < b.len() {
        lemma_read_shifted(a, b, i + 1, read(reading, b[i]));
    }
}

proof fn lemma_read_added(a: Seq<char>, b: Seq<char>, i: int, reading: Reading)
    requires
        0 <= i <= a.len(),
    ensures
        read_from(a + b, i, reading) == read_from(b, 0, read_from(a, i, reading)),
    decreases a.len() - i,
{
    if i < a.len() {
        lemma_read_added(a, b, i + 1, read(reading, a[i]));
    } else {
        lemma_read_shifted(a, b, 0, reading);
    }
}

/// Markup after markup leads on.
proof fn lemma_leads(a: Seq<char>, b: Seq<char>, from: Nest, over: Nest, to: Nest)
    requires
        leads(a, from, over),
        leads(b, over, to),
    ensures
        leads(a + b, from, to),
{
    lemma_read_added(a, b, 0, outside(from));
}

proof fn lemma_balanced(a: Seq<char>, b: Seq<char>)
    requires
        is_balanced(a),
        is_balanced(b),
    ensures
        is_balanced(a + b),
{
    assert forall|nest: Nest| #[trigger] leads(a + b, nest, nest) by {
        lemma_leads(a, b, nest, nest, nest);
    }
}

/// Balanced markup between something that opens brackets and something that closes them.
proof fn lemma_between(a: Seq<char>, s: Seq<char>, b: Seq<char>, from: Nest, over: Nest, to: Nest)
    requires
        leads(a, from, over),
        is_balanced(s),
        leads(b, over, to),
    ensures
        leads(a + s + b, from, to),
{
    assert(leads(s, over, over));
    lemma_leads(a, s, from, over, over);
    lemma_leads(a + s, b, from, over, to);
}

/// Whether a character is neither a bracket nor a quote.
pub open spec fn is_plain(c: char) -> bool {
    c != '[' && c != ']' && c != '(' && c != ')' && c != '"'
}

proof fn lemma_plain(s: Seq<char>, i: int, nest: Nest)
    requires
        0 <= i,
        forall|k: int| 0 <= k < s.len() ==> is_plain(#[trigger] s[k]),
    ensures
        read_from(s, i, outside(nest)) == outside(nest),
    decreases s.len() - i,
{
    if i < s.len() {
        lemma_plain(s, i + 1, nest);
    }
}

proof fn lemma_plain_balanced(s: Seq<char>)
    requires
        forall|k: int| 0 <= k < s.len() ==> is_plain(#[trigger] s[k]),
    ensures
        is_balanced(s),
{
    assert forall|nest: Nest| #[trigger] leads(s, nest, nest) by {
        lemma_plain(s, 0, nest);
    }
}

proof fn lemma_decimal_balanced(n: nat)
    ensures
        is_balanced(chars::decimal(n)),
    decreases n,
{
    lemma_decimal_plain(n);
    lemma_plain_balanced(chars::decimal(n));
}

proof fn lemma_decimal_plain(n: nat)
    ensures
        forall|k: int| 0 <= k < chars::decimal(n).len() ==> is_plain(#[trigger] chars::decimal(n)[k]),
    decreases n,
{
    let all = chars::decimal(n);
    if n >= 10 {
        lemma_decimal_plain(n / 10);
        assert('0' <= chars::digit((n % 10) as int) <= '9');
        assert forall|k: int| 0 <= k < all.len() implies is_plain(#[trigger] all[k]) by {
            if k < all.len() - 1 {
                assert(all[k] == chars::decimal(n / 10)[k]);
            }
        }
    } else {
        assert('0' <= chars::digit(n as int) <= '9');
    }
}

proof fn lemma_escaped(value: Seq<char>, nest: Nest)
    ensures
        read_from(escape::escaped(value), 0, inside(nest)) == inside(nest),
    decreases value.len(),
{
    if value.len() > 0 {
        lemma_escaped(value.drop_last(), nest);
        let last = escape::escaped_char(value.last());
        lemma_read_added(escape::escaped(value.drop_last()), last, 0, inside(nest));
        reveal_with_fuel(read_from, 3);
    }
}

/// A string literal is balanced, whatever it holds.
pub proof fn literals_are_balanced(value: Seq<char>)
    ensures
        is_balanced(escape::quoted_text(value)),
{
    assert forall|nest: Nest| #[trigger] leads(escape::quoted_text(value), nest, nest) by {
        let quote = seq!['"'];
        let body = escape::escaped(value);
        lemma_escaped(value, nest);
        lemma_read_added(quote + body, quote, 0, outside(nest));
        lemma_read_added(quote, body, 0, outside(nest));
        reveal_with_fuel(read_from, 2);
    }
}

#[verifier::spinoff_prover]
proof fn lemma_calls(nest: Nest)
    ensures
        leads("#text("@, nest, round(nest)),
        leads("#raw("@, nest, round(nest)),
        leads("\n#raw("@, nest, round(nest)),
        leads("#image("@, nest, round(nest)),
        leads("#link("@, nest, round(nest)),
        leads("\n#list("@, nest, round(nest)),
        leads("\n#enum(start: "@, nest, round(nest)),
        leads(")"@, round(nest), nest),
        leads(")\n\n"@, round(nest), nest),
        leads(")["@, round(nest), square(nest)),
{
    reveal_strlit("#text(");
    reveal_strlit("#raw(");
    reveal_strlit("\n#raw(");
    reveal_strlit("#image(");
    reveal_strlit("#link(");
    reveal_strlit("\n#list(");
    reveal_strlit("\n#enum(start: ");
    reveal_strlit(")");
    reveal_strlit(")\n\n");
    reveal_strlit(")[");
    reveal_with_fuel(read_from, 15);
}

#[verifier::spinoff_prover]
proof fn lemma_arguments(nest: Nest)
    ensures
        leads(", block: true, lang: "@, nest, nest),
        leads(", width: 100%)"@, round(nest), nest),
        leads(", width: "@, nest, nest),
        leads(", "@, nest, nest),
        leads(" * 0.75pt"@, nest, nest),
        leads("%"@, nest, nest),
        leads("100%"@, nest, nest),
{
    reveal_strlit(", block: true, lang: ");
    reveal_strlit(", width: 100%)");
    reveal_strlit(", width: ");
    reveal_strlit(", ");
    reveal_strlit(" * 0.75pt");
    reveal_strlit("%");
    reveal_strlit("100%");
    reveal_with_fuel(read_from, 22);
}

#[verifier::spinoff_prover]
proof fn lemma_leaves(nest: Nest)
    ensures
        leads(""@, nest, nest),
        leads(" "@, nest, nest),
        leads("\n"@, nest, nest),
        leads("\n\n"@, nest, nest),
        leads("#linebreak()"@, nest, nest),
        leads("#text(\" \")"@, nest, nest),
        leads("#text(\"\u{2611} \")"@, nest, nest),
        leads("#text(\"\u{2610} \")"@, nest, nest),
        leads("\n#line(length: 100%, stroke: 0.5pt)\n"@, nest, nest),
{
    reveal_strlit("");
    reveal_strlit(" ");
    reveal_strlit("\n");
    reveal_strlit("\n\n");
    reveal_strlit("#linebreak()");
    reveal_strlit("#text(\" \")");
    reveal_strlit("#text(\"\u{2611} \")");
    reveal_strlit("#text(\"\u{2610} \")");
    reveal_strlit("\n#line(length: 100%, stroke: 0.5pt)\n");
    reveal_with_fuel(read_from, 37);
}

#[verifier::spinoff_prover]
proof fn lemma_brackets(nest: Nest)
    ensures
        leads("["@, nest, square(nest)),
        leads("]"@, square(nest), nest),
        leads("], "@, square(nest), nest),
        leads("]\n\n"@, square(nest), nest),
        leads("] "@, square(nest), nest),
        leads("#"@, nest, nest),
        leads("emph"@, nest, nest),
        leads("strong"@, nest, nest),
        leads("strike"@, nest, nest),
        leads("super"@, nest, nest),
        leads("sub"@, nest, nest),
{
    reveal_strlit("[");
    reveal_strlit("]");
    reveal_strlit("], ");
    reveal_strlit("]\n\n");
    reveal_strlit("] ");
    reveal_strlit("#");
    reveal_strlit("emph");
    reveal_strlit("strong");
    reveal_strlit("strike");
    reveal_strlit("super");
    reveal_strlit("sub");
    reveal_with_fuel(read_from, 7);
}

#[verifier::spinoff_prover]
proof fn lemma_blocks(nest: Nest)
    ensures
        leads("\n#heading(level: "@, nest, round(nest)),
        leads("\n#quote(block: true)["@, nest, square(nest)),
        leads("\n#footnote["@, nest, square(nest)),
{
    reveal_strlit("\n#heading(level: ");
    reveal_strlit("\n#quote(block: true)[");
    reveal_strlit("\n#footnote[");
    reveal_with_fuel(read_from, 22);
}

#[verifier::spinoff_prover]
proof fn lemma_spans(nest: Nest)
    ensures
        leads("#strong["@, nest, square(nest)),
        leads("#emph["@, nest, square(nest)),
        leads("#strike["@, nest, square(nest)),
        leads("#underline["@, nest, square(nest)),
        leads("#sub["@, nest, square(nest)),
        leads("#super["@, nest, square(nest)),
        leads("#["@, nest, square(nest)),
        leads("\n\n#["@, nest, square(nest)),
        leads("\n#align(center)["@, nest, square(nest)),
        leads("\n#align(right)["@, nest, square(nest)),
{
    reveal_strlit("#strong[");
    reveal_strlit("#emph[");
    reveal_strlit("#strike[");
    reveal_strlit("#underline[");
    reveal_strlit("#sub[");
    reveal_strlit("#super[");
    reveal_strlit("#[");
    reveal_strlit("\n\n#[");
    reveal_strlit("\n#align(center)[");
    reveal_strlit("\n#align(right)[");
    reveal_with_fuel(read_from, 17);
}

#[verifier::spinoff_prover]
proof fn lemma_mono(nest: Nest)
    ensures
        leads("#text(font: \"DejaVu Sans Mono\")["@, nest, square(nest)),
{
    reveal_strlit("#text(font: \"DejaVu Sans Mono\")[");
    reveal_with_fuel(read_from, 33);
}

#[verifier::spinoff_prover]
proof fn lemma_table_heads(nest: Nest)
    ensures
        leads("\n#table(\n  columns: ("@, nest, round(round(nest))),
        leads("1fr, "@, nest, nest),
        leads("auto, "@, nest, nest),
        leads("fr, "@, nest, nest),
        leads("),"@, round(round(nest)), round(nest)),
        leads("right, "@, nest, nest),
        leads("center, "@, nest, nest),
        leads("left, "@, nest, nest),
        leads("\n  align: ("@, nest, round(nest)),
        leads("  ["@, nest, square(nest)),
        leads("],\n"@, square(nest), nest),
{
    reveal_strlit("\n#table(\n  columns: (");
    reveal_strlit("1fr, ");
    reveal_strlit("auto, ");
    reveal_strlit("fr, ");
    reveal_strlit("),");
    reveal_strlit("right, ");
    reveal_strlit("center, ");
    reveal_strlit("left, ");
    reveal_strlit("\n  align: (");
    reveal_strlit("  [");
    reveal_strlit("],\n");
    reveal_with_fuel(read_from, 22);
}

#[verifier::spinoff_prover]
proof fn lemma_table_rules_1(nest: Nest)
    ensures
        leads(
            "),\n  table.hline(stroke: 0.7pt),\n  table.header("@,
            round(round(nest)),
            round(round(nest)),
        ),
{
    reveal_strlit("),\n  table.hline(stroke: 0.7pt),\n  table.header(");
    reveal_with_fuel(read_from, 25);
    let s = "),\n  table.hline(stroke: 0.7pt),\n  table.header("@;
    assert(read_from(s, 0, outside(round(round(nest)))) == read_from(
        s,
        24,
        outside(round(round(nest))),
    ));
}

#[verifier::spinoff_prover]
proof fn lemma_table_rules(nest: Nest)
    ensures
        leads("),\n  inset: (x: 4pt, y: 3pt),"@, round(round(nest)), round(nest)),
        leads(
            "),\n  table.hline(stroke: 0.7pt),\n  table.header("@,
            round(round(nest)),
            round(round(nest)),
        ),
        leads("),\n  table.hline(stroke: 0.45pt),\n"@, round(round(nest)), round(nest)),
        leads("  table.hline(stroke: 0.7pt),\n)\n\n"@, round(nest), nest),
        leads("table.cell(align: center)["@, nest, square(nest)),
{
    lemma_table_rules_1(nest);
    reveal_strlit("),\n  inset: (x: 4pt, y: 3pt),");
    reveal_strlit("),\n  table.hline(stroke: 0.45pt),\n");
    reveal_strlit("  table.hline(stroke: 0.7pt),\n)\n\n");
    reveal_strlit("table.cell(align: center)[");
    reveal_with_fuel(read_from, 35);
}

#[verifier::spinoff_prover]
proof fn lemma_title_1(nest: Nest)
    ensures
        leads("\n#v(0.1in)\n#line(length: 100%, stroke: 1.6pt)\n#v(0.1in)\n"@, nest, nest),
{
    reveal_strlit("\n#v(0.1in)\n#line(length: 100%, stroke: 1.6pt)\n#v(0.1in)\n");
    reveal_with_fuel(read_from, 25);
    let s = "\n#v(0.1in)\n#line(length: 100%, stroke: 1.6pt)\n#v(0.1in)\n"@;
    assert(read_from(s, 0, outside(nest)) == read_from(s, 24, outside(round(nest))));
    assert(read_from(s, 24, outside(round(nest))) == read_from(s, 48, outside(nest)));
}

#[verifier::spinoff_prover]
proof fn lemma_title_2(nest: Nest)
    ensures
        leads("#align(center)[#text(size: 16pt, weight: \"bold\")["@, nest, square(square(nest))),
{
    reveal_strlit("#align(center)[#text(size: 16pt, weight: \"bold\")[");
    reveal_with_fuel(read_from, 26);
    let s = "#align(center)[#text(size: 16pt, weight: \"bold\")["@;
    assert(read_from(s, 0, outside(nest)) == read_from(s, 24, outside(round(square(nest)))));
}

#[verifier::spinoff_prover]
proof fn lemma_title_3(nest: Nest)
    ensures
        leads(
            "]]\n#v(0.1in)\n#line(length: 100%, stroke: 0.55pt)\n#v(0.34in)\n"@,
            square(square(nest)),
            nest,
        ),
{
    reveal_strlit("]]\n#v(0.1in)\n#line(length: 100%, stroke: 0.55pt)\n#v(0.34in)\n");
    reveal_with_fuel(read_from, 25);
    let s = "]]\n#v(0.1in)\n#line(length: 100%, stroke: 0.55pt)\n#v(0.34in)\n"@;
    assert(read_from(s, 0, outside(square(square(nest)))) == read_from(
        s,
        24,
        outside(round(nest)),
    ));
    assert(read_from(s, 24, outside(round(nest))) == read_from(s, 48, outside(nest)));
}

#[verifier::spinoff_prover]
proof fn lemma_title(nest: Nest)
    ensures
        leads("\n#v(0.1in)\n#line(length: 100%, stroke: 1.6pt)\n#v(0.1in)\n"@, nest, nest),
        leads("#align(center)[#text(size: 16pt, weight: \"bold\")["@, nest, square(square(nest))),
        leads(
            "]]\n#v(0.1in)\n#line(length: 100%, stroke: 0.55pt)\n#v(0.34in)\n"@,
            square(square(nest)),
            nest,
        ),
{
    lemma_title_1(nest);
    lemma_title_2(nest);
    lemma_title_3(nest);
}

#[verifier::spinoff_prover]
proof fn lemma_abstract_1(nest: Nest)
    ensures
        leads("#align(center)[#text(weight: \"bold\")[Abstract]]\n#v(0.12in)\n"@, nest, nest),
{
    reveal_strlit("#align(center)[#text(weight: \"bold\")[Abstract]]\n#v(0.12in)\n");
    reveal_with_fuel(read_from, 25);
    let s = "#align(center)[#text(weight: \"bold\")[Abstract]]\n#v(0.12in)\n"@;
    assert(read_from(s, 0, outside(nest)) == read_from(s, 24, outside(round(square(nest)))));
    assert(read_from(s, 24, outside(round(square(nest)))) == read_from(s, 48, outside(nest)));
}

#[verifier::spinoff_prover]
proof fn lemma_abstract_2(nest: Nest)
    ensures
        leads(
            "#align(center)[#block(width: 84%)[#set par(justify: true, spacing: 0pt)\n#align(left)["@,
            nest,
            square(square(square(nest))),
        ),
{
    reveal_strlit(
        "#align(center)[#block(width: 84%)[#set par(justify: true, spacing: 0pt)\n#align(left)[",
    );
    reveal_with_fuel(read_from, 25);
    let s =
        "#align(center)[#block(width: 84%)[#set par(justify: true, spacing: 0pt)\n#align(left)["@;
    assert(read_from(s, 0, outside(nest)) == read_from(s, 24, outside(round(square(nest)))));
    assert(read_from(s, 24, outside(round(square(nest)))) == read_from(
        s,
        48,
        outside(round(square(square(nest)))),
    ));
    assert(read_from(s, 48, outside(round(square(square(nest))))) == read_from(
        s,
        72,
        outside(square(square(nest))),
    ));
}

#[verifier::spinoff_prover]
proof fn lemma_abstract(nest: Nest)
    ensures
        leads("#align(center)[#text(weight: \"bold\")[Abstract]]\n#v(0.12in)\n"@, nest, nest),
        leads(
            "#align(center)[#block(width: 84%)[#set par(justify: true, spacing: 0pt)\n#align(left)["@,
            nest,
            square(square(square(nest))),
        ),
        leads("]]]\n#v(0.36in)\n\n"@, square(square(square(nest))), nest),
{
    lemma_abstract_1(nest);
    lemma_abstract_2(nest);
    reveal_strlit("]]]\n#v(0.36in)\n\n");
    reveal_with_fuel(read_from, 17);
}

#[verifier::spinoff_prover]
proof fn lemma_page_style(nest: Nest)
    ensures
        leads(markdown::PAGE_STYLE@, nest, nest),
{
    reveal_strlit(
        r#"
#set page(
  paper: "us-letter",
  margin: (top: 0.78in, bottom: 0.72in, left: 1.14in, right: 1.14in),
  footer: context [#align(center)[#counter(page).display()]],
)
"#,
    );
    reveal_with_fuel(read_from, 41);
    let style = markdown::PAGE_STYLE@;
    assert(read_from(style, 0, outside(nest)) == read_from(style, 34, outside(round(nest))));
    assert(read_from(style, 34, outside(round(nest))) == read_from(
        style,
        74,
        outside(round(round(nest))),
    ));
    assert(read_from(style, 74, outside(round(round(nest)))) == read_from(
        style,
        104,
        outside(round(nest)),
    ));
    assert(read_from(style, 104, outside(round(nest))) == read_from(
        style,
        144,
        outside(square(square(round(nest)))),
    ));
    assert(read_from(style, 144, outside(square(square(round(nest))))) == outside(nest));
}

#[verifier::spinoff_prover]
proof fn lemma_text_style(nest: Nest)
    ensures
        leads(markdown::TEXT_STYLE@, nest, nest),
{
    reveal_strlit(
        r#"#set text(font: "New Computer Modern", size: 9.3pt, lang: "en")
#set par(justify: true, leading: 0.44em, spacing: 1.1em, first-line-indent: 0pt)
"#,
    );
    reveal_with_fuel(read_from, 41);
    let style = markdown::TEXT_STYLE@;
    assert(read_from(style, 0, outside(nest)) == read_from(style, 40, outside(round(nest))));
    assert(read_from(style, 40, outside(round(nest))) == read_from(
        style,
        80,
        outside(round(nest)),
    ));
    assert(read_from(style, 80, outside(round(nest))) == read_from(
        style,
        120,
        outside(round(nest)),
    ));
    assert(read_from(style, 120, outside(round(nest))) == outside(nest));
}

#[verifier::spinoff_prover]
proof fn lemma_heading_style(nest: Nest)
    ensures
        leads(markdown::HEADING_STYLE@, nest, nest),
{
    reveal_strlit(
        r#"#set heading(numbering: (n) => [#n#h(0.65em)])
#show heading.where(level: 1): set text(size: 11pt, weight: "bold")
#show heading.where(level: 1): set block(above: 1.5em, below: 1.5em)
"#,
    );
    reveal_with_fuel(read_from, 41);
    let style = markdown::HEADING_STYLE@;
    assert(read_from(style, 0, outside(nest)) == read_from(
        style,
        40,
        outside(round(square(round(nest)))),
    ));
    assert(read_from(style, 40, outside(round(square(round(nest))))) == read_from(
        style,
        80,
        outside(nest),
    ));
    assert(read_from(style, 80, outside(nest)) == read_from(style, 115, outside(nest)));
    assert(read_from(style, 115, outside(nest)) == read_from(style, 155, outside(nest)));
    assert(read_from(style, 155, outside(nest)) == outside(nest));
}

#[verifier::spinoff_prover]
proof fn lemma_table_style(nest: Nest)
    ensures
        leads(markdown::TABLE_STYLE@, nest, nest),
{
    reveal_strlit(
        r#"#show link: set text(fill: black)
#show table: set text(size: 8pt, hyphenate: false)
#show table: set par(justify: false)
#show table: set table(inset: (x: 2pt, y: 3pt), gutter: 0pt, stroke: none)
"#,
    );
    reveal_with_fuel(read_from, 41);
    let style = markdown::TABLE_STYLE@;
    assert(read_from(style, 0, outside(nest)) == read_from(style, 34, outside(nest)));
    assert(read_from(style, 34, outside(nest)) == read_from(style, 74, outside(round(nest))));
    assert(read_from(style, 74, outside(round(nest))) == read_from(
        style,
        114,
        outside(round(nest)),
    ));
    assert(read_from(style, 114, outside(round(nest))) == read_from(
        style,
        154,
        outside(round(round(nest))),
    ));
    assert(read_from(style, 154, outside(round(round(nest)))) == read_from(
        style,
        194,
        outside(round(nest)),
    ));
    assert(read_from(style, 194, outside(round(nest))) == outside(nest));
}

#[verifier::spinoff_prover]
proof fn lemma_block_style(nest: Nest)
    ensures
        leads(markdown::BLOCK_STYLE@, nest, nest),
{
    reveal_strlit(
        r#"#show table.cell.where(y: 0): set text(weight: "bold")
#show raw.where(block: true): set text(size: 7.2pt)
"#,
    );
    reveal_with_fuel(read_from, 41);
    let style = markdown::BLOCK_STYLE@;
    assert(read_from(style, 0, outside(nest)) == read_from(style, 40, outside(round(nest))));
    assert(read_from(style, 40, outside(round(nest))) == read_from(
        style,
        80,
        outside(round(nest)),
    ));
    assert(read_from(style, 80, outside(round(nest))) == outside(nest));
}

/// Markup that shows a text is balanced, whatever the text holds.
pub proof fn text_is_balanced(value: Seq<char>)
    ensures
        is_balanced(escape::text_markup(value)),
{
    let literal = escape::quoted_text(value);
    literals_are_balanced(value);
    assert forall|nest: Nest| #[trigger] leads(escape::text_markup(value), nest, nest) by {
        lemma_calls(nest);
        lemma_between("#text("@, literal, ")"@, nest, round(nest), nest);
    }
}

proof fn lemma_raw(value: Seq<char>)
    ensures
        is_balanced(render::raw_markup(value)),
{
    let literal = escape::quoted_text(value);
    literals_are_balanced(value);
    assert forall|nest: Nest| #[trigger] leads(render::raw_markup(value), nest, nest) by {
        lemma_calls(nest);
        lemma_between("#raw("@, literal, ")"@, nest, round(nest), nest);
    }
}

proof fn lemma_empty()
    ensures
        is_balanced(Seq::empty()),
{
    assert forall|nest: Nest| #[trigger] leads(Seq::empty(), nest, nest) by {}
}

proof fn lemma_leaf(step: Step)
    ensures
        is_balanced(render::leaf(step)),
{
    lemma_empty();
    match step {
        Step::Text(value) => text_is_balanced(value@),
        Step::Code(value) => lemma_raw(value@),
        Step::Math { display, text } => text_is_balanced(render::math_source(display, text@)),
        Step::FootnoteReference(label) => text_is_balanced("["@ + label@ + "]"@),
        _ => {
            assert forall|nest: Nest| #[trigger] leads(render::leaf(step), nest, nest) by {
                lemma_leaves(nest);
                lemma_empty();
                assert(leads(Seq::empty(), nest, nest));
            }
        },
    }
}

proof fn lemma_closing(span: Span, nest: Nest)
    ensures
        leads(html::closing(span), square(nest), nest),
{
    lemma_brackets(nest);
}

proof fn lemma_closings(open: Seq<Span>, nest: Nest)
    ensures
        leads(html::closings(open), squares(nest, open.len()), nest),
    decreases open.len(),
{
    if open.len() == 0 {
        lemma_empty();
        assert(leads(Seq::empty(), nest, nest));
    } else {
        let rest = open.drop_last();
        lemma_closings(rest, nest);
        lemma_closing(open.last(), squares(nest, rest.len()));
        lemma_leads(
            html::closing(open.last()),
            html::closings(rest),
            squares(nest, open.len()),
            squares(nest, rest.len()),
            nest,
        );
    }
}

proof fn lemma_close(open: Seq<Span>, span: Span, nest: Nest)
    ensures
        leads(
            html::close(open, span).0,
            squares(nest, open.len()),
            squares(nest, html::close(open, span).1.len()),
        ),
    decreases open.len(),
{
    lemma_empty();
    if !open.contains(span) {
        assert(leads(Seq::empty(), squares(nest, open.len()), squares(nest, open.len())));
    } else {
        let rest = open.drop_last();
        lemma_closing(open.last(), squares(nest, rest.len()));
        if open.last() != span {
            lemma_close(rest, span, nest);
            lemma_leads(
                html::closing(open.last()),
                html::close(rest, span).0,
                squares(nest, open.len()),
                squares(nest, rest.len()),
                squares(nest, html::close(rest, span).1.len()),
            );
        }
    }
}

proof fn lemma_link(destination: Seq<char>, nest: Nest)
    ensures
        leads("#link("@ + escape::quoted_text(destination) + ")["@, nest, square(nest)),
{
    literals_are_balanced(destination);
    lemma_calls(nest);
    lemma_between(
        "#link("@,
        escape::quoted_text(destination),
        ")["@,
        nest,
        round(nest),
        square(nest),
    );
}

proof fn lemma_opening(span: Span, tag: Seq<char>, from: int, nest: Nest)
    ensures
        leads(html::opening(span, tag, from), nest, square(nest)),
{
    lemma_spans(nest);
    lemma_mono(nest);
    if let Some(href) = html::attribute(tag, from, "href"@) {
        lemma_link(href, nest);
    }
}

proof fn lemma_image_width(width: Seq<char>)
    ensures
        is_balanced(html::image_width(width)),
{
    assert forall|nest: Nest| #[trigger] leads(html::image_width(width), nest, nest) by {
        lemma_arguments(nest);
        let n = html::number(width.take(html::digits(width, 0)));
        lemma_decimal_balanced(n);
        assert(leads(chars::decimal(n), nest, nest));
        lemma_leads(chars::decimal(n), " * 0.75pt"@, nest, nest, nest);
        lemma_leads(chars::decimal(n), "%"@, nest, nest, nest);
    }
}

proof fn lemma_image(tag: Seq<char>, from: int)
    ensures
        html::image(tag, from) matches Some(markup) ==> is_balanced(markup),
{
    let source = html::attribute_or_empty(tag, from, "src"@);
    let description = html::attribute_or_empty(tag, from, "alt"@);
    let width = html::image_width(html::attribute_or_empty(tag, from, "width"@));
    text_is_balanced(description);
    literals_are_balanced(source);
    lemma_image_width(html::attribute_or_empty(tag, from, "width"@));
    if source.len() > 0 && !html::is_remote(source) {
        let literal = escape::quoted_text(source);
        let markup = html::image(tag, from)->0;
        assert forall|nest: Nest| #[trigger] leads(markup, nest, nest) by {
            lemma_calls(nest);
            lemma_arguments(round(nest));
            assert(leads(literal, round(nest), round(nest)));
            assert(leads(width, round(nest), round(nest)));
            lemma_leads("#image("@, literal, nest, round(nest), round(nest));
            lemma_leads("#image("@ + literal, ", width: "@, nest, round(nest), round(nest));
            lemma_leads("#image("@ + literal + ", width: "@, width, nest, round(nest), round(nest));
            lemma_leads("#image("@ + literal + ", width: "@ + width, ")"@, nest, round(nest), nest);
        }
    }
}

proof fn lemma_tag(tag: Seq<char>, open: Seq<Span>, nest: Nest)
    ensures
        html::meaning(tag, open) matches Some((markup, now_open)) ==> leads(
            markup,
            squares(nest, open.len()),
            squares(nest, now_open.len()),
        ),
{
    let here = squares(nest, open.len());
    if tag.len() > 0 && tag[0] == '/' {
        let name = chars::ascii_lowered(tag.subrange(1, html::find(tag, 1, Stop::NameEnd)));
        if let Some(span) = html::span_of(name) {
            lemma_close(open, span, nest);
        }
    } else {
        let end = html::find(tag, 0, Stop::NameEnd);
        let name = chars::ascii_lowered(tag.subrange(0, end));
        lemma_leaves(here);
        lemma_image(tag, end);
        if let Some(markup) = html::image(tag, end) {
            assert(leads(markup, here, here));
        }
        if let Some(span) = html::span_of(name) {
            lemma_opening(span, tag, end, here);
            assert(squares(nest, open.push(span).len()) == square(here));
        }
    }
}

proof fn lemma_written(s: Seq<char>, from: int, to: int)
    ensures
        is_balanced(html::written(s, from, to)),
{
    lemma_empty();
    text_is_balanced(s.subrange(from, to));
}

proof fn lemma_html(s: Seq<char>, from: int, at: int, open: Seq<Span>, nest: Nest)
    ensures
        leads(
            html::html_from(s, from, at, open).0,
            squares(nest, open.len()),
            squares(nest, html::html_from(s, from, at, open).1.len()),
        ),
    decreases s.len() - at,
{
    let here = squares(nest, open.len());
    if 0 <= at < s.len() {
        html::lemma_piece_end(s, at);
        let end = html::piece_end(s, at);
        if let Some((markup, now_open)) = html::meaning_at(s, at, open) {
            let before = html::written(s, from, at);
            let rest = html::html_from(s, end, end, now_open).0;
            let there = squares(nest, now_open.len());
            let last = squares(nest, html::html_from(s, from, at, open).1.len());
            lemma_written(s, from, at);
            assert(leads(before, here, here));
            lemma_tag(s.subrange(at + 1, end - 1), open, nest);
            lemma_leads(before, markup, here, here, there);
            lemma_html(s, end, end, now_open, nest);
            lemma_leads(before + markup, rest, here, there, last);
        } else {
            lemma_html(s, from, end, open, nest);
        }
    } else {
        lemma_written(s, from, s.len() as int);
        assert(leads(html::written(s, from, s.len() as int), here, here));
    }
}

proof fn lemma_as_written(steps: Seq<Step>, pos: int, nest: Nest)
    ensures
        leads(render::as_written(steps, pos), nest, nest),
    decreases steps.len() - pos,
{
    if pos >= steps.len() || steps[pos] == Step::End(Closing::HtmlBlock) {
        lemma_empty();
        assert(leads(Seq::empty(), nest, nest));
    } else {
        let markup = render::written_part(steps[pos]);
        if let Step::Html(line) = steps[pos] {
            text_is_balanced(line@);
        } else {
            lemma_leaf(steps[pos]);
        }
        assert(leads(markup, nest, nest));
        lemma_as_written(steps, pos + 1, nest);
        lemma_leads(markup, render::as_written(steps, pos + 1), nest, nest, nest);
    }
}

/// Whether the markup of each cell is balanced.
pub open spec fn are_balanced(row: Seq<Cell>) -> bool {
    forall|i: int| 0 <= i < row.len() ==> is_balanced((#[trigger] row[i]).markup)
}

/// Whether each of several pieces of markup is balanced.
pub open spec fn each_is_balanced(list: Seq<Seq<char>>) -> bool {
    forall|i: int| 0 <= i < list.len() ==> is_balanced(#[trigger] list[i])
}

proof fn lemma_header_of(cell: Cell)
    requires
        is_balanced(cell.markup),
    ensures
        is_balanced(table::header_of(cell)),
{
    let plain = cell.plain;
    if let Some(at) = table::last_slash(plain, plain.len() as int) {
        let first = escape::text_markup(plain.take(at));
        let second = escape::text_markup("/"@ + plain.skip(at + 2));
        text_is_balanced(plain.take(at));
        text_is_balanced("/"@ + plain.skip(at + 2));
        assert forall|nest: Nest| #[trigger]
            leads(first + "#linebreak()"@ + second, nest, nest) by {
            lemma_leaves(nest);
            assert(leads(first, nest, nest));
            assert(leads(second, nest, nest));
            lemma_leads(first, "#linebreak()"@, nest, nest, nest);
            lemma_leads(first + "#linebreak()"@, second, nest, nest, nest);
        }
    }
}

proof fn lemma_repeated(s: Seq<char>, times: nat)
    requires
        is_balanced(s),
    ensures
        is_balanced(table::repeated(s, times)),
    decreases times,
{
    lemma_empty();
    if times > 0 {
        lemma_repeated(s, (times - 1) as nat);
        lemma_balanced(table::repeated(s, (times - 1) as nat), s);
    }
}

proof fn lemma_weights(header: Seq<Cell>, rows: Seq<Seq<Cell>>, columns: nat)
    ensures
        is_balanced(table::weights(header, rows, columns)),
    decreases columns,
{
    lemma_empty();
    if columns > 0 {
        let before = table::weights(header, rows, (columns - 1) as nat);
        let weight = chars::decimal(table::column_weight(header, rows, columns - 1));
        lemma_weights(header, rows, (columns - 1) as nat);
        lemma_decimal_balanced(table::column_weight(header, rows, columns - 1));
        lemma_balanced(before, weight);
        assert forall|nest: Nest| #[trigger] leads("fr, "@, nest, nest) by {
            lemma_table_heads(nest);
        }
        lemma_balanced(before + weight, "fr, "@);
    }
}

proof fn lemma_columns(header: Seq<Cell>, rows: Seq<Seq<Cell>>, columns: nat, nest: Nest)
    ensures
        leads(table::columns_markup(header, rows, columns), round(round(nest)), round(nest)),
{
    let inner = round(round(nest));
    lemma_table_heads(nest);
    lemma_table_heads(inner);
    lemma_table_rules(nest);
    if table::is_metric_table(columns, rows) {
        assert forall|nest: Nest| #[trigger] leads("auto, "@, nest, nest) by {
            lemma_table_heads(nest);
        }
        let autos = table::repeated("auto, "@, (columns - 1) as nat);
        lemma_repeated("auto, "@, (columns - 1) as nat);
        lemma_between(
            "1fr, "@,
            autos,
            "),\n  inset: (x: 4pt, y: 3pt),"@,
            inner,
            inner,
            round(nest),
        );
    } else {
        lemma_weights(header, rows, columns);
        assert(leads(table::weights(header, rows, columns), inner, inner));
        lemma_leads(table::weights(header, rows, columns), "),"@, inner, inner, round(nest));
    }
}

proof fn lemma_aligns(aligns: Seq<ColumnAlign>, columns: nat)
    ensures
        is_balanced(table::aligns_markup(aligns, columns)),
    decreases columns,
{
    lemma_empty();
    if columns > 0 {
        let last = table::align_markup(aligns, columns - 1);
        lemma_aligns(aligns, (columns - 1) as nat);
        assert forall|nest: Nest| #[trigger] leads(last, nest, nest) by {
            lemma_table_heads(nest);
        }
        lemma_balanced(table::aligns_markup(aligns, (columns - 1) as nat), last);
    }
}

proof fn lemma_header_cells(header: Seq<Cell>, metric: bool, count: nat)
    requires
        are_balanced(header),
        count <= header.len(),
    ensures
        is_balanced(table::header_cells(header, metric, count)),
    decreases count,
{
    lemma_empty();
    if count > 0 {
        let column = (count - 1) as nat;
        let before = table::header_cells(header, metric, column);
        let open = if metric && column > 0 {
            "table.cell(align: center)["@
        } else {
            "["@
        };
        let cell = table::header_of(header[column as int]);
        lemma_header_cells(header, metric, column);
        lemma_header_of(header[column as int]);
        assert forall|nest: Nest| #[trigger]
            leads(table::header_cells(header, metric, count), nest, nest) by {
            lemma_table_rules(nest);
            lemma_brackets(nest);
            assert(leads(before, nest, nest));
            lemma_leads(before, open, nest, nest, square(nest));
            lemma_between(before + open, cell, "], "@, nest, square(nest), nest);
        }
    }
}

proof fn lemma_row_cells(row: Seq<Cell>, count: nat)
    requires
        are_balanced(row),
        count <= row.len(),
    ensures
        is_balanced(table::row_cells(row, count)),
    decreases count,
{
    lemma_empty();
    if count > 0 {
        let before = table::row_cells(row, (count - 1) as nat);
        let cell = row[count - 1].markup;
        lemma_row_cells(row, (count - 1) as nat);
        assert forall|nest: Nest| #[trigger] leads(table::row_cells(row, count), nest, nest) by {
            lemma_table_heads(nest);
            assert(leads(before, nest, nest));
            lemma_leads(before, "  ["@, nest, nest, square(nest));
            lemma_between(before + "  ["@, cell, "],\n"@, nest, square(nest), nest);
        }
    }
}

proof fn lemma_body_cells(rows: Seq<Seq<Cell>>, count: nat)
    requires
        forall|i: int| 0 <= i < rows.len() ==> are_balanced(#[trigger] rows[i]),
        count <= rows.len(),
    ensures
        is_balanced(table::body_cells(rows, count)),
    decreases count,
{
    lemma_empty();
    if count > 0 {
        let row = rows[count - 1];
        lemma_body_cells(rows, (count - 1) as nat);
        lemma_row_cells(row, row.len());
        lemma_balanced(
            table::body_cells(rows, (count - 1) as nat),
            table::row_cells(row, row.len()),
        );
    }
}

/// A table is balanced if its cells are.
pub proof fn tables_are_balanced(
    aligns: Seq<ColumnAlign>,
    header: Seq<Cell>,
    rows: Seq<Seq<Cell>>,
)
    requires
        are_balanced(header),
        forall|i: int| 0 <= i < rows.len() ==> are_balanced(#[trigger] rows[i]),
    ensures
        is_balanced(table::table_markup(aligns, header, rows)),
{
    let columns = table::column_count(aligns, header);
    let head = table::header_cells(header, table::is_metric_table(columns, rows), header.len());
    let widths = table::columns_markup(header, rows, columns);
    let sides = table::aligns_markup(aligns, columns);
    let body = table::body_cells(rows, rows.len());
    lemma_header_cells(header, table::is_metric_table(columns, rows), header.len());
    lemma_aligns(aligns, columns);
    lemma_body_cells(rows, rows.len());
    assert forall|nest: Nest| #[trigger]
        leads(table::table_markup(aligns, header, rows), nest, nest) by {
        let call = round(nest);
        let part = round(round(nest));
        lemma_table_heads(nest);
        lemma_table_heads(call);
        lemma_table_rules(nest);
        lemma_columns(header, rows, columns, nest);
        let a = "\n#table(\n  columns: ("@;
        lemma_leads(a, widths, nest, part, call);
        let b = a + widths;
        lemma_leads(b, "\n  align: ("@, nest, call, part);
        let c = b + "\n  align: ("@;
        assert(leads(sides, part, part));
        lemma_leads(c, sides, nest, part, part);
        let d = c + sides;
        let e = "),\n  table.hline(stroke: 0.7pt),\n  table.header("@;
        lemma_leads(d, e, nest, part, part);
        assert(leads(head, part, part));
        lemma_leads(d + e, head, nest, part, part);
        let f = "),\n  table.hline(stroke: 0.45pt),\n"@;
        lemma_leads(d + e + head, f, nest, part, call);
        assert(leads(body, call, call));
        lemma_leads(d + e + head + f, body, nest, call, call);
        lemma_leads(
            d + e + head + f + body,
            "  table.hline(stroke: 0.7pt),\n)\n\n"@,
            nest,
            call,
            nest,
        );
    }
}

proof fn lemma_code(body: Seq<char>, language: Seq<char>)
    ensures
        is_balanced(render::code_markup(body, language)),
{
    let first = escape::quoted_text(body);
    let second = escape::quoted_text(language);
    literals_are_balanced(body);
    literals_are_balanced(language);
    assert forall|nest: Nest| #[trigger]
        leads(render::code_markup(body, language), nest, nest) by {
        let call = round(nest);
        lemma_calls(nest);
        lemma_arguments(call);
        let middle = ", block: true, lang: "@;
        lemma_between("\n#raw("@, first, middle, nest, call, call);
        lemma_between("\n#raw("@ + first + middle, second, ")\n\n"@, nest, call, nest);
    }
}

proof fn lemma_items_markup(list: Seq<Seq<char>>)
    requires
        each_is_balanced(list),
    ensures
        is_balanced(render::items_markup(list)),
    decreases list.len(),
{
    lemma_empty();
    if list.len() > 0 {
        let before = render::items_markup(list.drop_last());
        lemma_items_markup(list.drop_last());
        assert forall|nest: Nest| #[trigger] leads(render::items_markup(list), nest, nest) by {
            lemma_brackets(nest);
            assert(leads(before, nest, nest));
            lemma_leads(before, "["@, nest, nest, square(nest));
            lemma_between(before + "["@, list.last(), "], "@, nest, square(nest), nest);
        }
    }
}

proof fn lemma_list(start: Option<u64>, list: Seq<Seq<char>>)
    requires
        each_is_balanced(list),
    ensures
        is_balanced(render::list_markup(start, list)),
{
    lemma_items_markup(list);
    assert forall|nest: Nest| #[trigger] leads(render::list_markup(start, list), nest, nest) by {
        let call = round(nest);
        lemma_calls(nest);
        lemma_arguments(call);
        let head = match start {
            Some(number) => "\n#enum(start: "@ + chars::decimal(number as nat) + ", "@,
            None => "\n#list("@,
        };
        if let Some(number) = start {
            lemma_decimal_balanced(number as nat);
            lemma_between(
                "\n#enum(start: "@,
                chars::decimal(number as nat),
                ", "@,
                nest,
                call,
                call,
            );
        }
        lemma_between(head, render::items_markup(list), ")\n\n"@, nest, call, nest);
    }
}

proof fn lemma_wrapped(function: Seq<char>, inner: Seq<char>, nest: Nest)
    requires
        leads(function, nest, nest),
        is_balanced(inner),
    ensures
        leads(render::wrapped(function, inner), nest, nest),
{
    lemma_brackets(nest);
    lemma_leads("#"@, function, nest, nest, nest);
    lemma_leads("#"@ + function, "["@, nest, nest, square(nest));
    lemma_between("#"@ + function + "["@, inner, "]"@, nest, square(nest), nest);
}

proof fn lemma_enclosed(element: Element, inline: bool, inner: Seq<char>)
    requires
        is_balanced(inner),
    ensures
        is_balanced(render::enclosed(element, inline, inner)),
{
    lemma_empty();
    assert forall|nest: Nest| #[trigger]
        leads(render::enclosed(element, inline, inner), nest, nest) by {
        assert(leads(inner, nest, nest));
        assert(leads(Seq::empty(), nest, nest));
        lemma_leaves(nest);
        lemma_brackets(nest);
        lemma_blocks(nest);
        lemma_calls(nest);
        match element {
            Element::Paragraph => lemma_leads(inner, "\n\n"@, nest, nest, nest),
            Element::Heading(level) => {
                let number = chars::decimal(level as nat);
                lemma_decimal_balanced(level as nat);
                let head = "\n#heading(level: "@;
                lemma_between(head, number, ")["@, nest, round(nest), square(nest));
                lemma_between(
                    head + number + ")["@,
                    inner,
                    "]\n\n"@,
                    nest,
                    square(nest),
                    nest,
                );
            },
            Element::BlockQuote => lemma_between(
                "\n#quote(block: true)["@,
                inner,
                "]\n\n"@,
                nest,
                square(nest),
                nest,
            ),
            Element::Emphasis => lemma_wrapped("emph"@, inner, nest),
            Element::Strong => lemma_wrapped("strong"@, inner, nest),
            Element::Strikethrough => lemma_wrapped("strike"@, inner, nest),
            Element::Superscript => lemma_wrapped("super"@, inner, nest),
            Element::Subscript => lemma_wrapped("sub"@, inner, nest),
            Element::Link(destination) => {
                let head = "#link("@ + escape::quoted_text(destination@) + ")["@;
                lemma_link(destination@, nest);
                lemma_between(head, inner, "]"@, nest, square(nest), nest);
            },
            Element::Image(source) => {
                literals_are_balanced(source@);
                lemma_arguments(nest);
                lemma_between(
                    "#image("@,
                    escape::quoted_text(source@),
                    ", width: 100%)"@,
                    nest,
                    round(nest),
                    nest,
                );
            },
            Element::FootnoteDefinition(label) => {
                let note = "\n#footnote["@ + inner + "] "@;
                lemma_between("\n#footnote["@, inner, "] "@, nest, square(nest), nest);
                text_is_balanced(label@);
                lemma_between(note, escape::text_markup(label@), "\n"@, nest, nest, nest);
            },
            _ => {},
        }
    }
}

proof fn lemma_element(steps: Seq<Step>, pos: int, opened: Element, inline: bool)
    ensures
        is_balanced(render::element(steps, pos, opened, inline).0),
    decreases steps.len() - pos, 2int,
{
    match opened {
        Element::CodeBlock(info) => {
            let (body, next) = render::block_text(steps, pos, Closing::CodeBlock);
            lemma_code(body, render::language(info));
        },
        Element::List(start) => {
            lemma_items(steps, pos);
            lemma_list(start, render::items(steps, pos).0);
        },
        Element::Table(aligns) => {
            let (header, rows, next) = render::table_parts(steps, pos, Seq::empty());
            lemma_table_parts(steps, pos, Seq::empty());
            tables_are_balanced(aligns@, header, rows);
        },
        _ => {
            let end = Some(event::end_of(opened));
            let within = render::runs_in_line(opened, inline);
            let inner = render::content(steps, pos, end, within, Seq::empty()).0;
            assert forall|nest: Nest| #[trigger] leads(inner, nest, nest) by {
                lemma_content(steps, pos, end, within, Seq::empty(), nest);
            }
            lemma_enclosed(opened, inline, inner);
        },
    }
}

proof fn lemma_content(
    steps: Seq<Step>,
    pos: int,
    end: Option<Closing>,
    inline: bool,
    open: Seq<Span>,
    nest: Nest,
)
    ensures
        leads(
            render::content(steps, pos, end, inline, open).0,
            squares(nest, open.len()),
            nest,
        ),
    decreases steps.len() - pos, 1int,
{
    let here = squares(nest, open.len());
    lemma_closings(open, nest);
    if pos < steps.len() {
        match steps[pos] {
            Step::End(closing) => {
                if end != Some(closing) {
                    lemma_content(steps, pos + 1, end, inline, open, nest);
                }
            },
            Step::Start(Element::HtmlBlock) => {
                let (source, next) = render::block_text(steps, pos + 1, Closing::HtmlBlock);
                let (markup, now_open) = render::html_block(steps, pos + 1, open);
                lemma_html(source, 0, 0, open, nest);
                lemma_as_written(steps, pos + 1, here);
                lemma_content_after(steps, pos, next, end, inline, now_open, nest);
                let rest = render::content_after(steps, pos, next, end, inline, now_open).0;
                lemma_leads(markup, rest, here, squares(nest, now_open.len()), nest);
            },
            Step::Start(opened) => {
                let (markup, next) = render::element(steps, pos + 1, opened, inline);
                lemma_element(steps, pos + 1, opened, inline);
                assert(leads(markup, here, here));
                lemma_content_after(steps, pos, next, end, inline, open, nest);
                let rest = render::content_after(steps, pos, next, end, inline, open).0;
                lemma_leads(markup, rest, here, here, nest);
            },
            Step::Html(source) => {
                let (markup, now_open) = html::html(source@, open);
                lemma_html(source@, 0, 0, open, nest);
                lemma_content(steps, pos + 1, end, inline, now_open, nest);
                let rest = render::content(steps, pos + 1, end, inline, now_open).0;
                lemma_leads(markup, rest, here, squares(nest, now_open.len()), nest);
            },
            other => {
                lemma_leaf(other);
                assert(leads(render::leaf(other), here, here));
                lemma_content(steps, pos + 1, end, inline, open, nest);
                let rest = render::content(steps, pos + 1, end, inline, open).0;
                lemma_leads(render::leaf(other), rest, here, here, nest);
            },
        }
    }
}

proof fn lemma_content_after(
    steps: Seq<Step>,
    pos: int,
    next: int,
    end: Option<Closing>,
    inline: bool,
    open: Seq<Span>,
    nest: Nest,
)
    ensures
        leads(
            render::content_after(steps, pos, next, end, inline, open).0,
            squares(nest, open.len()),
            nest,
        ),
    decreases steps.len() - pos, 0int,
{
    lemma_closings(open, nest);
    if pos < next <= steps.len() {
        lemma_content(steps, next, end, inline, open, nest);
    }
}

proof fn lemma_closed_content(steps: Seq<Step>, pos: int, end: Closing)
    ensures
        is_balanced(render::content(steps, pos, Some(end), true, Seq::empty()).0),
    decreases steps.len() - pos, 2int,
{
    let inner = render::content(steps, pos, Some(end), true, Seq::empty()).0;
    assert forall|nest: Nest| #[trigger] leads(inner, nest, nest) by {
        lemma_content(steps, pos, Some(end), true, Seq::empty(), nest);
    }
}

proof fn lemma_items(steps: Seq<Step>, pos: int)
    ensures
        each_is_balanced(render::items(steps, pos).0),
    decreases steps.len() - pos, 1int,
{
    if pos < steps.len() {
        match steps[pos] {
            Step::Start(Element::Item) => {
                let (markup, next) = render::content(
                    steps,
                    pos + 1,
                    Some(Closing::Item),
                    true,
                    Seq::empty(),
                );
                lemma_closed_content(steps, pos + 1, Closing::Item);
                if pos < next <= steps.len() {
                    lemma_items(steps, next);
                }
            },
            Step::End(Closing::List) => {},
            _ => lemma_items(steps, pos + 1),
        }
    }
}

proof fn lemma_cells(steps: Seq<Step>, pos: int, end: Closing)
    ensures
        are_balanced(render::cells(steps, pos, end).0),
    decreases steps.len() - pos, 1int,
{
    if pos < steps.len() {
        match steps[pos] {
            Step::Start(Element::TableCell) => {
                let (markup, next) = render::content(
                    steps,
                    pos + 1,
                    Some(Closing::TableCell),
                    true,
                    Seq::empty(),
                );
                lemma_closed_content(steps, pos + 1, Closing::TableCell);
                if pos < next <= steps.len() {
                    lemma_cells(steps, next, end);
                }
            },
            Step::End(closing) if closing == end => {},
            _ => lemma_cells(steps, pos + 1, end),
        }
    }
}

proof fn lemma_table_parts(steps: Seq<Step>, pos: int, header: Seq<Cell>)
    requires
        are_balanced(header),
    ensures
        are_balanced(render::table_parts(steps, pos, header).0),
        forall|i: int|
            0 <= i < render::table_parts(steps, pos, header).1.len() ==> are_balanced(
                #[trigger] render::table_parts(steps, pos, header).1[i],
            ),
    decreases steps.len() - pos, 1int,
{
    if pos < steps.len() {
        match steps[pos] {
            Step::Start(Element::TableHead) => {
                let (found, next) = render::cells(steps, pos + 1, Closing::TableHead);
                lemma_cells(steps, pos + 1, Closing::TableHead);
                if pos < next <= steps.len() {
                    lemma_table_parts(steps, next, found);
                }
            },
            Step::Start(Element::TableRow) => {
                let (row, next) = render::cells(steps, pos + 1, Closing::TableRow);
                lemma_cells(steps, pos + 1, Closing::TableRow);
                if pos < next <= steps.len() {
                    lemma_table_parts(steps, next, header);
                }
            },
            Step::End(Closing::Table) => {},
            _ => lemma_table_parts(steps, pos + 1, header),
        }
    }
}

/// Whatever the steps through a document are, their markup is balanced.
pub proof fn rendered_markup_is_balanced(steps: Seq<Step>, inline: bool)
    ensures
        is_balanced(markdown::rendered(steps, inline)),
{
    assert forall|nest: Nest| #[trigger] leads(markdown::rendered(steps, inline), nest, nest) by {
        lemma_content(steps, 0, None, inline, Seq::empty(), nest);
    }
}

/// The Typst source of a document is balanced, whatever the document holds and whatever its file
/// is named.
pub proof fn documents_are_balanced(steps: Seq<Step>, stem: Seq<char>)
    ensures
        is_balanced(markdown::document(steps, stem)),
{
    let title = markdown::title_of(steps, stem);
    let body = markdown::untitled(steps);
    let style = markdown::paper_style();
    let shown = escape::text_markup(title);
    text_is_balanced(title);
    rendered_markup_is_balanced(body, false);
    let end = markdown::landmark_from(body, 0, markdown::Landmark::ParagraphEnd);
    let inside = markdown::rendered(body.subrange(1, end), true);
    let rest = markdown::rendered(markdown::cut(body, 0, end), false);
    rendered_markup_is_balanced(body.subrange(1, end), true);
    rendered_markup_is_balanced(markdown::cut(body, 0, end), false);
    assert forall|nest: Nest| #[trigger] leads(markdown::document(steps, stem), nest, nest) by {
        lemma_page_style(nest);
        lemma_text_style(nest);
        lemma_heading_style(nest);
        lemma_table_style(nest);
        lemma_block_style(nest);
        let page = markdown::PAGE_STYLE@;
        let text = markdown::TEXT_STYLE@;
        let heading = markdown::HEADING_STYLE@;
        let table = markdown::TABLE_STYLE@;
        lemma_leads(page, text, nest, nest, nest);
        lemma_leads(page + text, heading, nest, nest, nest);
        lemma_leads(page + text + heading, table, nest, nest, nest);
        lemma_leads(page + text + heading + table, markdown::BLOCK_STYLE@, nest, nest, nest);
        lemma_title(nest);
        let open = square(square(nest));
        let above = "\n#v(0.1in)\n#line(length: 100%, stroke: 1.6pt)\n#v(0.1in)\n"@;
        let start = "#align(center)[#text(size: 16pt, weight: \"bold\")["@;
        let below = "]]\n#v(0.1in)\n#line(length: 100%, stroke: 0.55pt)\n#v(0.34in)\n"@;
        lemma_leads(above, start, nest, nest, open);
        lemma_between(above + start, shown, below, nest, open, nest);
        lemma_leads(style, markdown::title_markup(title), nest, nest, nest);
        assert(leads(markdown::rendered(body, false), nest, nest));
        assert(leads(rest, nest, nest));
        lemma_abstract(nest);
        let head = "#align(center)[#text(weight: \"bold\")[Abstract]]\n#v(0.12in)\n"@;
        let block =
            "#align(center)[#block(width: 84%)[#set par(justify: true, spacing: 0pt)\n#align(left)["@;
        let close = "]]]\n#v(0.36in)\n\n"@;
        let deep = square(open);
        lemma_leads(head, block, nest, nest, deep);
        lemma_between(head + block, inside, close, nest, deep, nest);
        lemma_leads(head + block + inside + close, rest, nest, nest, nest);
        assert(leads(markdown::body_markup(body), nest, nest));
        lemma_leads(
            style + markdown::title_markup(title),
            markdown::body_markup(body),
            nest,
            nest,
            nest,
        );
    }
}

} // verus!

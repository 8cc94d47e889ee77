use std::path::Path;

use tv::markdown::to_typst;

fn render(source: &str, path: &str) -> String {
    let stem = Path::new(path).file_stem().unwrap_or_default();
    to_typst(source, &stem.to_string_lossy())
}

#[test]
fn escapes_typst_markup_and_renders_paper_features() {
    let source = "# A *paper*\n\nAn abstract with #code, a [link](https://example.com), and enough text to be treated as the abstract for this test document.\n\n| Readout | Value |\n|---|---:|\n| **a** | `2` |\n\n- One\n- Two\n";
    let rendered = render(source, "/tmp/paper.md");
    assert!(rendered.contains("#text(\"A paper\")"));
    assert!(rendered.contains("#text(\"An abstract with #code, a \")"));
    assert!(rendered.contains("#link(\"https://example.com\")"));
    assert!(rendered.contains("#table("));
    assert!(rendered.contains("#list("));
    assert!(render("", "/tmp/RESULTS.md").contains("#text(\"Results\")"));
}

#[test]
fn metric_headers_get_room_and_break_before_denominators() {
    let source = "| Readout | Development /160 | Fresh /53 | Binding /12 | Withheld /12 |\n|---|---:|---:|---:|---:|\n| A long model formulation | 151 | 49 | 12 | 12 |\n";
    let rendered = render(source, "/tmp/report.md");
    assert!(rendered.contains("columns: (1fr, auto, auto, auto, auto, )"));
    assert!(rendered.contains("#text(\"Development\")#linebreak()#text(\"/160\")"));
    assert!(rendered.contains("table.cell(align: center)"));
}

/// The markup behind the title.
fn body(source: &str) -> String {
    let rendered = render(source, "/tmp/untitled.md");
    let end = "#v(0.34in)\n";
    rendered[rendered.find(end).unwrap() + end.len()..].to_string()
}

#[test]
fn first_heading_of_level_one_is_the_title() {
    let rendered = render("Opening.\n\n# One *two* `three`\n\n# Later\n", "/tmp/paper.md");
    assert!(rendered.contains("[#text(\"One two three\")]]"));
    assert!(rendered.ends_with("#text(\"Opening.\")\n\n\n#heading(level: 1)[#text(\"Later\")]\n\n"));
}

#[test]
fn file_name_is_the_title_of_other_documents() {
    let rendered = render("## Section\n", "/tmp/my-paper.md");
    assert!(rendered.contains("weight: \"bold\")[#text(\"my paper\")]]"));
    assert!(rendered.ends_with("\n#heading(level: 2)[#text(\"Section\")]\n\n"));
}

#[test]
fn long_opening_paragraph_becomes_the_abstract() {
    let long = "x".repeat(120);
    let rendered = body(&format!("{long}\n\nNext."));
    assert_eq!(
        rendered,
        format!("#align(center)[#text(weight: \"bold\")[Abstract]]\n#v(0.12in)\n#align(center)[#block(width: 84%)[#set par(justify: true, spacing: 0pt)\n#align(left)[#text(\"{long}\")]]]\n#v(0.36in)\n\n#text(\"Next.\")\n\n")
    );
}

#[test]
fn abstract_is_measured_in_bytes() {
    let short = "x".repeat(119);
    assert_eq!(body(&short), format!("#text(\"{short}\")\n\n"));
    let greek = "β".repeat(60);
    assert!(body(&greek).contains("Abstract"));
}

#[test]
fn text_formatting_is_kept() {
    assert_eq!(
        body("a *b* **c** ~~d~~ `e`"),
        "#text(\"a \")#emph[#text(\"b\")]#text(\" \")#strong[#text(\"c\")]#text(\" \")#strike[#text(\"d\")]#text(\" \")#raw(\"e\")\n\n"
    );
    assert_eq!(body("a\nb  \nc"), "#text(\"a\")#text(\" \")#text(\"b\")#linebreak()#text(\"c\")\n\n");
}

#[test]
fn code_blocks_name_their_language() {
    assert_eq!(
        body("```rust ignore\nlet x = \"1\";\n```\n"),
        "\n#raw(\"let x = \\\"1\\\";\\n\", block: true, lang: \"rust\")\n\n"
    );
    assert_eq!(body("    plain\n"), "\n#raw(\"plain\\n\", block: true, lang: \"\")\n\n");
}

#[test]
fn lists_number_and_nest() {
    assert_eq!(
        body("3. a\n4. b\n"),
        "\n#enum(start: 3, [#text(\"a\")], [#text(\"b\")], )\n\n"
    );
    assert_eq!(
        body("- a\n  - b\n"),
        "\n#list([#text(\"a\")\n#list([#text(\"b\")], )\n\n], )\n\n"
    );
    assert_eq!(
        body("- [x] done\n- [ ] open\n"),
        "\n#list([#text(\"\u{2611} \")#text(\"done\")], [#text(\"\u{2610} \")#text(\"open\")], )\n\n"
    );
}

#[test]
fn links_images_quotes_and_rules_are_rendered() {
    assert_eq!(body("[a](b\"c)"), "#link(\"b\\\"c\")[#text(\"a\")]\n\n");
    assert_eq!(body("![alt](pic.png)"), "#image(\"pic.png\", width: 100%)\n\n");
    assert_eq!(body("![alt](https://x/pic.png)"), "#text(\"alt\")\n\n");
    assert_eq!(body("> q\n"), "\n#quote(block: true)[#text(\"q\")\n\n]\n\n");
    assert_eq!(body("---\n"), "\n#line(length: 100%, stroke: 0.5pt)\n");
}

#[test]
fn footnotes_are_rendered() {
    let rendered = body("a[^1]\n\n[^1]: note\n");
    assert!(rendered.starts_with("#text(\"a\")#text(\"[1]\")\n\n"));
    assert!(rendered.contains("\n#footnote[#text(\"note\")\n\n] #text(\"1\")\n"));
}

#[test]
fn html_images_are_shown_and_centred() {
    let rendered = body(
        "# Ward\n\n<p align=\"center\">\n<img src=\"images/ward.webp\" alt=\"Ward\" width=\"400\" />\n</p>\n",
    );
    assert_eq!(
        rendered,
        "\n#align(center)[#text(\"\\n\")#image(\"images/ward.webp\", width: 400 * 0.75pt)#text(\"\\n\")]\n\n#text(\"\\n\")"
    );
}

#[test]
fn html_blocks_without_meaning_are_shown_line_by_line() {
    assert_eq!(body("<!--  c -->\n"), "#text(\"<!--  c -->\\n\")");
    assert_eq!(
        body("<details open>\n  a   b\n</details>\n\nc\n"),
        "#text(\"<details open>\\n\")#text(\"  a   b\\n\")#text(\"</details>\\n\")#text(\"c\")\n\n"
    );
    assert_eq!(
        body("<!--\n<b>\n-->\n"),
        "#text(\"<!--\\n\")#text(\"<b>\\n\")#text(\"-->\\n\")"
    );
    assert_eq!(body("</div>\n"), "#text(\"</div>\\n\")");
    assert_eq!(
        body("a <span>b</span> <!-- c --> <img>"),
        "#text(\"a \")#text(\"<span>\")#text(\"b\")#text(\"</span>\")#text(\" \")#text(\"<!-- c -->\")#text(\" \")#text(\"<img>\")\n\n"
    );
}

#[test]
fn html_formatting_links_and_breaks_are_rendered() {
    assert_eq!(
        body("a <b>c</b><br>d <a href=\"u\">e</a>"),
        "#text(\"a \")#strong[#text(\"c\")]#linebreak()#text(\"d \")#link(\"u\")[#text(\"e\")]\n\n"
    );
    assert_eq!(body("H<sub>2</sub>O"), "#text(\"H\")#sub[#text(\"2\")]#text(\"O\")\n\n");
}

#[test]
fn html_left_open_is_closed_at_the_end() {
    assert_eq!(body("<b>a <i>b</b> c"), "#strong[#text(\"a \")#emph[#text(\"b\")]]#text(\" c\")\n\n");
    assert_eq!(body("a <b>c"), "#text(\"a \")#strong[#text(\"c\")]\n\n");
    assert_eq!(
        body("a </b>c"),
        "#text(\"a \")#text(\"</b>\")#text(\"c\")\n\n"
    );
}

/// Whether brackets and literals are closed where they are opened.
fn is_balanced(markup: &str) -> bool {
    let mut open = Vec::new();
    let mut letters = markup.chars();
    while let Some(c) = letters.next() {
        match c {
            '"' => loop {
                match letters.next() {
                    Some('\\') => {
                        letters.next();
                    }
                    Some('"') => break,
                    Some(_) => {}
                    None => return false,
                }
            },
            '[' => open.push(']'),
            '(' => open.push(')'),
            ']' | ')' if open.pop() != Some(c) => return false,
            _ => {}
        }
    }
    open.is_empty()
}

#[test]
fn documents_are_balanced() {
    for source in [
        "",
        "# ] \" [\n\n\\[ ( \" ] `\"]` <b> ](",
        "<div align=\"center\"><p>\n\n| a ] | \"b /1 |\n|---|---|\n| <i>( | ) |\n",
        "> - [x] [^n\n\n</div></div></p>\n\n1. \"\n   ```a\"b\n   ]\n",
    ] {
        assert!(is_balanced(&render(source, "/tmp/a\"(b.md")), "{source}");
    }
    assert!(!is_balanced("#text(\"a\""));
}

#[test]
fn tables_align_and_weigh_their_columns() {
    let rendered = body("| a | b | c |\n|:--|:-:|--:|\n| x | y | a text of 23 characters |\n");
    assert_eq!(
        rendered,
        "\n#table(\n  columns: (12fr, 12fr, 23fr, ),\n  align: (left, center, right, ),\n  table.hline(stroke: 0.7pt),\n  table.header([#text(\"a\")], [#text(\"b\")], [#text(\"c\")], ),\n  table.hline(stroke: 0.45pt),\n  [#text(\"x\")],\n  [#text(\"y\")],\n  [#text(\"a text of 23 characters\")],\n  table.hline(stroke: 0.7pt),\n)\n\n"
    );
}

#[test]
fn edited_table_is_set_as_measured_values() {
    let rendered = render(
        "# Second title\n\n| Readout | Development /160 | Fresh /53 |\n|---|---:|---:|\n| Model A | 151 | 49 |\n",
        "/tmp/paper.md",
    );
    assert!(rendered.contains("[#text(\"Second title\")]]"));
    assert!(rendered.contains("columns: (1fr, auto, auto, ),\n  inset: (x: 4pt, y: 3pt),"));
    assert!(rendered.contains("table.cell(align: center)[#text(\"Fresh\")#linebreak()#text(\"/53\")], "));
}

#[test]
fn math_is_shown_verbatim() {
    let rendered = to_typst("$a*b*c$\n", "m");
    assert!(rendered.contains("#text(\"$a*b*c$\")"));
    assert!(!rendered.contains("#emph["));
    assert_eq!(
        body("So $x_1 = \\frac{1}{2}$ and\n$$\n*y* < \"z\"\n$$\n"),
        "#text(\"So \")#text(\"$x_1 = \\\\frac{1}{2}$\")#text(\" and\")#text(\" \")#text(\"$$\\n*y* < \\\"z\\\"\\n$$\")\n\n"
    );
    assert!(render("# On $E$\n", "/tmp/a.md").contains("[#text(\"On $E$\")]]"));
    assert!(body("| a |\n|---|\n| $a*b*c + d*e*f$ |\n").contains("columns: (15fr, )"));
}

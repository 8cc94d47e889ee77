use tv::event::{Closing, ColumnAlign, Element, Step};
use tv::markdown::typeset;
use tv::render::{plain_text, Renderer};
use tv::table::{render_table, TableCell};

fn text(value: &str) -> Step {
    Step::Text(value.to_string())
}

fn math(display: bool, value: &str) -> Step {
    Step::Math {
        display,
        text: value.to_string(),
    }
}

#[test]
fn rendering_stops_at_the_end_that_is_asked_for() {
    let steps = vec![
        text("a"),
        Step::Start(Element::Emphasis),
        text("b"),
        Step::End(Closing::Emphasis),
        Step::End(Closing::Strong),
        Step::End(Closing::Paragraph),
        text("c"),
    ];
    let mut renderer = Renderer::new(&steps);
    assert_eq!(
        renderer.render_until(Some(Closing::Paragraph), true),
        "#text(\"a\")#emph[#text(\"b\")]"
    );
    assert_eq!(renderer.render_until(None, true), "#text(\"c\")");
    assert_eq!(renderer.render_until(None, true), "");
}

#[test]
fn unfinished_elements_end_with_the_document() {
    let steps = vec![
        Step::Start(Element::Heading(2)),
        Step::Start(Element::List(None)),
        text("lost"),
        Step::Start(Element::Item),
        Step::Html("<b>".to_string()),
        text("kept"),
    ];
    assert_eq!(
        Renderer::new(&steps).render_until(None, false),
        "\n#heading(level: 2)[\n#list([#strong[#text(\"kept\")]], )\n\n]\n\n"
    );
}

#[test]
fn metadata_is_not_shown() {
    let steps = vec![
        Step::Start(Element::MetadataBlock),
        text("title: x"),
        Step::End(Closing::MetadataBlock),
        math(false, "x^2"),
    ];
    assert_eq!(Renderer::new(&steps).render_until(None, false), "#text(\"$x^2$\")");
}

#[test]
fn plain_text_is_text_code_and_math() {
    let steps = vec![
        text("a"),
        Step::SoftBreak,
        Step::Code("b".to_string()),
        math(true, "c"),
        text("d"),
    ];
    assert_eq!(plain_text(&steps, 0, 5), "ab$$c$$d");
    assert_eq!(plain_text(&steps, 1, 3), "b");
}

#[test]
fn steps_are_typeset_with_their_title() {
    let steps = vec![
        Step::Start(Element::Heading(1)),
        text("T"),
        Step::End(Closing::Heading(1)),
        Step::Start(Element::Paragraph),
        text("p"),
        Step::End(Closing::Paragraph),
    ];
    let source = typeset(steps, "name");
    assert!(source.starts_with("\n#set page(\n  paper: \"us-letter\",\n"));
    assert!(source.contains("#show raw.where(block: true): set text(size: 7.2pt)\n\n#v(0.1in)\n"));
    assert!(source.ends_with("[#text(\"T\")]]\n#v(0.1in)\n#line(length: 100%, stroke: 0.55pt)\n#v(0.34in)\n#text(\"p\")\n\n"));
}

#[test]
fn tables_have_as_many_columns_as_their_head() {
    let cell = |plain: &str| TableCell {
        markup: plain.to_string(),
        plain: plain.to_string(),
    };
    let header = vec![cell("a"), cell("b")];
    let rows = vec![vec![cell(&"x".repeat(60))], vec![]];
    let markup = render_table(&vec![ColumnAlign::Right], &header, &rows);
    assert!(markup.starts_with("\n#table(\n  columns: (48fr, 12fr, ),\n  align: (right, left, ),\n"));
    let empty = render_table(&Vec::new(), &Vec::new(), &Vec::new());
    assert!(empty.starts_with("\n#table(\n  columns: (12fr, ),\n  align: (left, ),\n"));
}

/// A list of one item, which holds emphasis and a list of its own.
fn list() -> Vec<Step> {
    vec![
        Step::Start(Element::List(None)),
        Step::Start(Element::Item),
        Step::Start(Element::Emphasis),
        text("a"),
        Step::End(Closing::Emphasis),
        Step::Start(Element::List(Some(1))),
        Step::Start(Element::Item),
        text("b"),
        Step::End(Closing::Item),
        Step::End(Closing::List),
        Step::End(Closing::Item),
        Step::End(Closing::List),
    ]
}

fn cell(value: &str) -> Vec<Step> {
    vec![
        Step::Start(Element::TableCell),
        text(value),
        Step::End(Closing::TableCell),
    ]
}

fn table() -> Vec<Step> {
    let mut steps = vec![
        Step::Start(Element::Table(vec![ColumnAlign::Left])),
        Step::Start(Element::TableHead),
    ];
    steps.extend(cell("head /1"));
    steps.push(Step::End(Closing::TableHead));
    steps.push(Step::Start(Element::TableRow));
    steps.extend(cell("row"));
    steps.push(Step::End(Closing::TableRow));
    steps.push(Step::End(Closing::Table));
    steps
}

fn rendered(steps: &Vec<Step>) -> String {
    Renderer::new(steps).render_until(None, false)
}

#[test]
fn parts_are_rendered_one_after_the_other() {
    let mut both = list();
    both.extend(table());
    assert_eq!(rendered(&both), rendered(&list()) + &rendered(&table()));
    let mut other = table();
    other.extend(list());
    other.push(Step::Html("<b>".to_string()));
    let tail = vec![Step::Html("<b>".to_string())];
    assert_eq!(
        rendered(&other),
        rendered(&table()) + &rendered(&list()) + &rendered(&tail)
    );
}

#[test]
fn nested_content_is_rendered_alone() {
    let mut steps = list();
    steps.push(Step::Start(Element::BlockQuote));
    steps.push(text("q"));
    steps.push(Step::End(Closing::BlockQuote));
    let alone = rendered(&steps);
    steps.push(Step::End(Closing::BlockQuote));
    steps.extend(table());
    let mut renderer = Renderer::new(&steps);
    assert_eq!(renderer.render_until(Some(Closing::BlockQuote), false), alone);
    assert_eq!(renderer.render_until(None, false), rendered(&table()));
}

#[test]
fn blocks_end_at_the_first_closing_of_their_kind() {
    let steps = vec![
        Step::Start(Element::CodeBlock(None)),
        Step::Start(Element::CodeBlock(None)),
        text("a"),
        Step::End(Closing::CodeBlock),
        text("b"),
        Step::End(Closing::CodeBlock),
    ];
    assert_eq!(
        rendered(&steps),
        "\n#raw(\"a\", block: true, lang: \"\")\n\n#text(\"b\")"
    );
}

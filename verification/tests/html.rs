use tv::html::{push_closings, push_html, remote, Span};

fn html(source: &str) -> String {
    let mut out = String::new();
    let mut open = Vec::new();
    push_html(&mut out, &mut open, source);
    push_closings(&mut out, &open);
    out
}

#[test]
fn image_widths_are_pixels_or_percent() {
    for (width, expected) in [
        ("400", "400 * 0.75pt"),
        ("400px", "400 * 0.75pt"),
        ("50%", "50%"),
        ("597", "597 * 0.75pt"),
        ("598", "100%"),
        ("99999999999999999999999", "100%"),
        ("0", "100%"),
        ("101%", "100%"),
        ("20em", "100%"),
        ("", "100%"),
    ] {
        assert_eq!(
            html(&format!("<img src='a.png' width='{width}'>")),
            format!("#image(\"a.png\", width: {expected})")
        );
    }
}

#[test]
fn images_elsewhere_show_their_description() {
    assert_eq!(html("<img src=\"https://x/a.png\" alt=\"A \"b>"), "#text(\"A \")");
    assert_eq!(html("<img alt='only'>"), "#text(\"only\")");
    assert_eq!(html("<IMG SRC=http://x>"), "#text(\"<IMG SRC=http://x>\")");
    assert_eq!(html("a<img>b"), "#text(\"a<img>b\")");
    assert!(remote("http://a") && remote("https://a") && !remote("a/http://"));
}

#[test]
fn attributes_are_found_by_name() {
    assert_eq!(
        html("<a title=\"x href='no'\" HREF = yes/ >t</a>"),
        "#link(\"yes/\")[#text(\"t\")]"
    );
    assert_eq!(html("<a name=top>t</a>"), "#[#text(\"t\")]");
    assert_eq!(html("<p align=RIGHT>t</p>"), "\n#align(right)[#text(\"t\")]\n\n");
    assert_eq!(html("<div>t</div>"), "\n\n#[#text(\"t\")]\n\n");
}

#[test]
fn comments_and_other_tags_are_shown_as_written() {
    assert_eq!(
        html("a<!-- <b> -->b<Span class=x>c</Span><!doctype html>"),
        "#text(\"a<!-- <b> -->b<Span class=x>c</Span><!doctype html>\")"
    );
    assert_eq!(html("<!-- open"), "#text(\"<!-- open\")");
    assert_eq!(html("<hr/>"), "#text(\"<hr/>\")");
    assert_eq!(
        html("<details>\n<b>a</b>\n</details>\n"),
        "#text(\"<details>\\n\")#strong[#text(\"a\")]#text(\"\\n</details>\\n\")"
    );
}

#[test]
fn closing_tags_that_nothing_opened_are_shown_as_written() {
    assert_eq!(html("a</b>c"), "#text(\"a</b>c\")");
    assert_eq!(
        html("<i>a</b></i></I>"),
        "#emph[#text(\"a</b>\")]#text(\"</I>\")"
    );
}

#[test]
fn pieces_tell_whether_a_tag_means_anything() {
    let mut out = String::new();
    let mut open = Vec::new();
    assert!(!push_html(&mut out, &mut open, "</b><!-- <b> --> x <img>"));
    assert!(open.is_empty());
    assert_eq!(out, "#text(\"</b><!-- <b> --> x <img>\")");
    assert!(push_html(&mut out, &mut open, "x<b>"));
    assert!(push_html(&mut out, &mut open, "</b>"));
    assert!(!push_html(&mut out, &mut open, ""));
}

#[test]
fn lone_angle_brackets_are_text() {
    assert_eq!(html("1 < 2 > 0"), "#text(\"1 < 2 > 0\")");
    assert_eq!(html("<b"), "#text(\"<b\")");
}

#[test]
fn white_space_is_kept_as_written() {
    assert_eq!(html(" \n "), "#text(\" \\n \")");
    assert_eq!(html(" a\n b "), "#text(\" a\\n b \")");
    assert_eq!(
        html("<b> a\t b </b>\n"),
        "#strong[#text(\" a\\t b \")]#text(\"\\n\")"
    );
}

#[test]
fn elements_stay_open_from_piece_to_piece() {
    let mut out = String::new();
    let mut open = Vec::new();
    push_html(&mut out, &mut open, "<center><code>");
    assert_eq!(open, vec![Span::Center, Span::Code]);
    push_html(&mut out, &mut open, "x</center>");
    assert!(open.is_empty());
    assert_eq!(
        out,
        "\n#align(center)[#text(font: \"DejaVu Sans Mono\")[#text(\"x\")]]\n\n"
    );
    push_html(&mut out, &mut open, "</code><u><s><sup><i>");
    assert_eq!(open.len(), 4);
    push_closings(&mut out, &open);
    assert!(out.ends_with("#underline[#strike[#super[#emph[]]]]"));
}

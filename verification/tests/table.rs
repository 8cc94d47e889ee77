use tv::table::TableCell;

fn cell(plain: &str) -> TableCell {
    TableCell {
        markup: format!("<{plain}>"),
        plain: plain.to_string(),
    }
}

#[test]
fn measured_values_are_digits_with_signs() {
    for value in ["151", " 0.5 ", "12/53", "\u{2212}3.1 \u{b1} 0.2", "95%", "1,000"] {
        assert!(cell(value).metric(), "{value}");
    }
    for value in ["", " ", "-", "n/a", "12 ms", "1e3"] {
        assert!(!cell(value).metric(), "{value}");
    }
}

#[test]
fn denominators_break_the_line_of_a_header() {
    assert_eq!(
        cell("Fresh /53").header_markup(),
        "#text(\"Fresh\")#linebreak()#text(\"/53\")"
    );
    assert_eq!(
        cell("a /1 /20").header_markup(),
        "#text(\"a /1\")#linebreak()#text(\"/20\")"
    );
}

#[test]
fn other_headers_keep_their_markup() {
    for plain in ["Fresh", "Fresh/53", "Fresh /", " /53", "a /b", "a /5b"] {
        assert_eq!(cell(plain).header_markup(), format!("<{plain}>"));
    }
}

use tv::args::{
    document_format, options, places, problem_message, Argument, Fonts, Format, Problem, Request,
    Root, Settings, USAGE,
};

fn arguments(list: &[&str]) -> Vec<Argument> {
    list.iter()
        .map(|text| Argument {
            text: text.to_string(),
            unicode: true,
        })
        .collect()
}

fn refused(list: &[&str]) -> (Problem, String) {
    let args = arguments(list);
    match options(&args) {
        Request::Refuse(problem) => (problem, problem_message(problem, &args)),
        other => panic!("{other:?}"),
    }
}

#[test]
fn one_file_is_enough() {
    assert_eq!(
        options(&arguments(&["paper.md"])),
        Request::Run(Settings {
            input: Some(0),
            root: None,
            font_path: None,
            ppi: 144
        })
    );
}

#[test]
fn options_may_stand_anywhere() {
    assert_eq!(
        options(&arguments(&["--ppi", "+200", "--root", "r", "a.typ", "--font-path", "-f"])),
        Request::Run(Settings {
            input: Some(4),
            root: Some(3),
            font_path: Some(6),
            ppi: 200
        })
    );
}

#[test]
fn resolution_has_bounds() {
    for (value, accepted) in [("36", true), ("600", true), ("35", false), ("601", false)] {
        let request = options(&arguments(&["--ppi", value, "a.md"]));
        assert_eq!(matches!(request, Request::Run(_)), accepted);
        assert_eq!(request == Request::Refuse(Problem::PpiOutOfRange), !accepted);
    }
}

#[test]
fn help_comes_before_what_follows_it() {
    assert_eq!(options(&arguments(&["a.md", "-h", "--wrong"])), Request::Help);
    assert_eq!(options(&arguments(&["--help"])), Request::Help);
    assert!(USAGE.starts_with("Usage: tv [--root DIR] [--font-path DIR] [--ppi N] FILE.typ|FILE.md\nq quit"));
}

#[test]
fn missing_values_are_told() {
    assert_eq!(
        refused(&["--root"]),
        (Problem::RootMissing, "--root needs a directory".to_string())
    );
    assert_eq!(
        refused(&["a.md", "--font-path"]),
        (Problem::FontPathMissing, "--font-path needs a directory".to_string())
    );
    assert_eq!(
        refused(&["--ppi"]),
        (Problem::PpiMissing, "--ppi needs a number".to_string())
    );
}

#[test]
fn wrong_numbers_are_told() {
    assert_eq!(
        refused(&["--ppi", "many"]),
        (Problem::NotANumber(1), "invalid digit found in string".to_string())
    );
    assert_eq!(
        refused(&["--ppi", ""]),
        (Problem::NotANumber(1), "cannot parse integer from empty string".to_string())
    );
    assert_eq!(
        refused(&["a.md", "--ppi", "4294967296"]),
        (Problem::NotANumber(2), "number too large to fit in target type".to_string())
    );
    assert_eq!(
        refused(&["--ppi", "10"]),
        (Problem::PpiOutOfRange, "--ppi must be between 36 and 600".to_string())
    );
}

#[test]
fn wrong_arguments_are_told() {
    assert_eq!(
        refused(&["-x"]),
        (Problem::UnknownOption(0), "unknown option: -x".to_string())
    );
    assert_eq!(
        refused(&["a.md", "b.md"]),
        (Problem::SeveralInputs, "provide exactly one .typ or .md file".to_string())
    );
    assert_eq!(
        refused(&[]),
        (Problem::InputMissing, "missing .typ or .md file".to_string())
    );
}

#[test]
fn argument_that_is_not_unicode_is_a_file() {
    let args = vec![Argument {
        text: "--root\u{fffd}".to_string(),
        unicode: false,
    }];
    assert!(matches!(options(&args), Request::Run(Settings { input: Some(0), .. })));
}

#[test]
fn extension_tells_the_format() {
    assert_eq!(document_format("typ"), Some(Format::Typst));
    assert_eq!(document_format("md"), Some(Format::Markdown));
    assert_eq!(document_format("MD"), None);
    assert_eq!(document_format(""), None);
}

#[test]
fn root_and_fonts_are_beside_the_input_by_default() {
    for (list, beside, expected) in [
        (vec!["a.md"], true, (Root::InputDirectory, Fonts::BesideInput)),
        (vec!["a.md"], false, (Root::InputDirectory, Fonts::Nowhere)),
        (vec!["--root", "r", "a.md"], true, (Root::Given(1), Fonts::BesideInput)),
        (vec!["a.md", "--font-path", "f"], true, (Root::InputDirectory, Fonts::Given(2))),
    ] {
        match options(&arguments(&list)) {
            Request::Run(settings) => assert_eq!(places(settings, beside), expected),
            other => panic!("{other:?}"),
        }
    }
}

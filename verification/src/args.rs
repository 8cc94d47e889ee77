//! The command line.
use vstd::prelude::*;

use crate::chars::{same_text, starts_with};
#[allow(unused_imports)]
use crate::chars;

verus! {

/// How the program is used.
pub const USAGE: &'static str =
    "Usage: tv [--root DIR] [--font-path DIR] [--ppi N] FILE.typ|FILE.md\nq quit | n/Space next | p/Backspace previous | g/G first/last | hjkl pan | +/- zoom | f fit | / search | drag select | Ctrl+C copy";

/// An argument of the program. One that is not Unicode is given with replacement characters.
#[derive(Debug)]
pub struct Argument {
    pub text: String,
    pub unicode: bool,
}

/// What the arguments ask for. A path is given as the index of its argument.
#[derive(Clone, Copy, Debug, PartialEq, Eq, Structural)]
pub struct Settings {
    pub input: Option<usize>,
    pub root: Option<usize>,
    pub font_path: Option<usize>,
    pub ppi: u32,
}

/// What is wrong with the arguments.
#[derive(Clone, Copy, Debug, PartialEq, Eq, Structural)]
pub enum Problem {
    RootMissing,
    FontPathMissing,
    PpiMissing,
    /// The argument with this index is not a number.
    NotANumber(usize),
    PpiOutOfRange,
    /// The argument with this index is not an option.
    UnknownOption(usize),
    SeveralInputs,
    InputMissing,
}

/// What the program is to do.
#[derive(Clone, Copy, Debug, PartialEq, Eq, Structural)]
pub enum Request {
    Help,
    Refuse(Problem),
    Run(Settings),
}

/// The resolution at which pages are rendered unless another is asked for, and the lowest and the
/// highest that can be.
pub const DEFAULT_PPI: u32 = 144;

pub const LOWEST_PPI: u32 = 36;

pub const HIGHEST_PPI: u32 = 600;

/// The number that decimal digits stand for.
pub open spec fn digits_value(s: Seq<char>) -> int
    decreases s.len(),
{
    if s.len() == 0 {
        0
    } else {
        digits_value(s.drop_last()) * 10 + (s.last() as int - '0' as int)
    }
}

/// The number that a text stands for: decimal digits, perhaps after a plus sign.
pub open spec fn number_of(s: Seq<char>) -> Option<u32> {
    let digits = if s.len() > 0 && s[0] == '+' {
        s.skip(1)
    } else {
        s
    };
    if digits.len() > 0 && (forall|i: int|
        0 <= i < digits.len() ==> '0' <= #[trigger] digits[i] <= '9') && digits_value(digits)
        <= u32::MAX {
        Some(digits_value(digits) as u32)
    } else {
        None
    }
}

/// How `str::parse::<u32>` says that a text is not a number.
pub uninterp spec fn number_error(s: Seq<char>) -> Seq<char>;

/// `str::parse::<u32>` gives the number of a text of decimal digits, which a plus sign may come
/// before, if it fits, and else an error; here the error's message, [`number_error`].
#[verifier::external_body]
fn parse_number(s: &str) -> (number: Result<u32, String>)
    ensures
        match number {
            Ok(value) => number_of(s@) == Some(value),
            Err(message) => number_of(s@) is None && message@ == number_error(s@),
        },
{
    match s.parse::<u32>() {
        Ok(value) => Ok(value),
        Err(error) => Err(error.to_string()),
    }
}

/// Whether an argument is the given option.
pub open spec fn is_option(arg: Argument, name: Seq<char>) -> bool {
    arg.unicode && arg.text@ == name
}

/// What the arguments from index `i` on ask for, if those before it ask for `settings`.
pub open spec fn request_from(args: Seq<Argument>, i: int, settings: Settings) -> Request
    decreases args.len() - i,
{
    if i < 0 || i >= args.len() {
        if settings.input is None {
            Request::Refuse(Problem::InputMissing)
        } else {
            Request::Run(settings)
        }
    } else if is_option(args[i], "--help"@) || is_option(args[i], "-h"@) {
        Request::Help
    } else if is_option(args[i], "--root"@) {
        if i + 1 < args.len() {
            request_from(args, i + 2, Settings { root: Some((i + 1) as usize), ..settings })
        } else {
            Request::Refuse(Problem::RootMissing)
        }
    } else if is_option(args[i], "--font-path"@) {
        if i + 1 < args.len() {
            request_from(args, i + 2, Settings { font_path: Some((i + 1) as usize), ..settings })
        } else {
            Request::Refuse(Problem::FontPathMissing)
        }
    } else if is_option(args[i], "--ppi"@) {
        if i + 1 < args.len() {
            match number_of(args[i + 1].text@) {
                Some(ppi) => if LOWEST_PPI <= ppi <= HIGHEST_PPI {
                    request_from(args, i + 2, Settings { ppi, ..settings })
                } else {
                    Request::Refuse(Problem::PpiOutOfRange)
                },
                None => Request::Refuse(Problem::NotANumber((i + 1) as usize)),
            }
        } else {
            Request::Refuse(Problem::PpiMissing)
        }
    } else if args[i].unicode && chars::begins_with(args[i].text@, "-"@) {
        Request::Refuse(Problem::UnknownOption(i as usize))
    } else if settings.input is None {
        request_from(args, i + 1, Settings { input: Some(i as usize), ..settings })
    } else {
        Request::Refuse(Problem::SeveralInputs)
    }
}

/// What the arguments ask for.
pub open spec fn request(args: Seq<Argument>) -> Request {
    request_from(
        args,
        0,
        Settings { input: None, root: None, font_path: None, ppi: DEFAULT_PPI },
    )
}

impl Argument {
    /// Tells whether the argument is the given option.
    fn is(&self, name: &str) -> (answer: bool)
        ensures
            answer == is_option(*self, name@),
    {
        self.unicode && same_text(self.text.as_str(), name)
    }
}

/// Reads the arguments of the program, without its name.
pub fn options(args: &Vec<Argument>) -> (result: Request)
    ensures
        result == request(args@),
        result is Refuse ==> is_about(result->Refuse_0, args@),
{
    let count: usize = args.len();
    proof {
        lemma_refusal(
            args@,
            0,
            Settings { input: None, root: None, font_path: None, ppi: DEFAULT_PPI },
        );
    }
    let mut settings = Settings { input: None, root: None, font_path: None, ppi: DEFAULT_PPI };
    let mut i: usize = 0;
    while i < count
        invariant
            i <= count == args@.len(),
            request(args@) == request_from(args@, i as int, settings),
            request(args@) is Refuse ==> is_about(request(args@)->Refuse_0, args@),
        decreases count - i,
    {
        let arg = &args[i];
        let has_value: bool = count - i > 1;
        if arg.is("--help") || arg.is("-h") {
            return Request::Help;
        } else if arg.is("--root") {
            if !has_value {
                return Request::Refuse(Problem::RootMissing);
            }
            settings.root = Some(i + 1);
            i += 2;
        } else if arg.is("--font-path") {
            if !has_value {
                return Request::Refuse(Problem::FontPathMissing);
            }
            settings.font_path = Some(i + 1);
            i += 2;
        } else if arg.is("--ppi") {
            if !has_value {
                return Request::Refuse(Problem::PpiMissing);
            }
            match parse_number(args[i + 1].text.as_str()) {
                Ok(ppi) => {
                    if ppi < LOWEST_PPI || ppi > HIGHEST_PPI {
                        return Request::Refuse(Problem::PpiOutOfRange);
                    }
                    settings.ppi = ppi;
                },
                Err(_) => {
                    return Request::Refuse(Problem::NotANumber(i + 1));
                },
            }
            i += 2;
        } else if arg.unicode && starts_with(arg.text.as_str(), "-") {
            return Request::Refuse(Problem::UnknownOption(i));
        } else {
            if settings.input.is_some() {
                return Request::Refuse(Problem::SeveralInputs);
            }
            settings.input = Some(i);
            i += 1;
        }
    }
    if settings.input.is_none() {
        Request::Refuse(Problem::InputMissing)
    } else {
        Request::Run(settings)
    }
}

/// The directory that the paths in a document start from.
#[derive(Clone, Copy, Debug, PartialEq, Eq, Structural)]
pub enum Root {
    /// The argument with this index.
    Given(usize),
    /// The directory of the input.
    InputDirectory,
}

/// The directory that fonts are taken from, besides those of the system.
#[derive(Clone, Copy, Debug, PartialEq, Eq, Structural)]
pub enum Fonts {
    /// The argument with this index.
    Given(usize),
    /// The directory `fonts` beside the input.
    BesideInput,
    Nowhere,
}

/// The root that settings ask for: the input's directory, unless another is given.
pub open spec fn root_of(settings: Settings) -> Root {
    match settings.root {
        Some(index) => Root::Given(index),
        None => Root::InputDirectory,
    }
}

/// The fonts that settings ask for: those beside the input, if there are any, unless others are
/// given.
pub open spec fn fonts_of(settings: Settings, fonts_beside_input: bool) -> Fonts {
    match settings.font_path {
        Some(index) => Fonts::Given(index),
        None => if fonts_beside_input {
            Fonts::BesideInput
        } else {
            Fonts::Nowhere
        },
    }
}

/// Tells where the root and the fonts are, given whether there is a directory `fonts` beside the
/// input.
pub fn places(settings: Settings, fonts_beside_input: bool) -> (places: (Root, Fonts))
    ensures
        places.0 == root_of(settings),
        places.1 == fonts_of(settings, fonts_beside_input),
{
    let root = match settings.root {
        Some(index) => Root::Given(index),
        None => Root::InputDirectory,
    };
    let fonts = match settings.font_path {
        Some(index) => Fonts::Given(index),
        None => if fonts_beside_input {
            Fonts::BesideInput
        } else {
            Fonts::Nowhere
        },
    };
    (root, fonts)
}

/// How a problem with the arguments is told.
pub open spec fn problem_text(problem: Problem, args: Seq<Argument>) -> Seq<char> {
    match problem {
        Problem::RootMissing => "--root needs a directory"@,
        Problem::FontPathMissing => "--font-path needs a directory"@,
        Problem::PpiMissing => "--ppi needs a number"@,
        Problem::NotANumber(i) => number_error(args[i as int].text@),
        Problem::PpiOutOfRange => "--ppi must be between 36 and 600"@,
        Problem::UnknownOption(i) => "unknown option: "@ + args[i as int].text@,
        Problem::SeveralInputs => "provide exactly one .typ or .md file"@,
        Problem::InputMissing => "missing .typ or .md file"@,
    }
}

/// Whether a problem can be told of the given arguments.
pub open spec fn is_about(problem: Problem, args: Seq<Argument>) -> bool {
    match problem {
        Problem::NotANumber(i) => i < args.len() && number_of(args[i as int].text@) is None,
        Problem::UnknownOption(i) => i < args.len(),
        _ => true,
    }
}

/// A problem that the arguments are refused for can be told of them.
proof fn lemma_refusal(args: Seq<Argument>, i: int, settings: Settings)
    requires
        0 <= i,
        args.len() <= usize::MAX,
    ensures
        request_from(args, i, settings) is Refuse ==> is_about(
            request_from(args, i, settings)->Refuse_0,
            args,
        ),
    decreases args.len() - i,
{
    if i < args.len() {
        lemma_refusal(args, i + 1, Settings { input: Some(i as usize), ..settings });
        if i + 1 < args.len() {
            let at = Some((i + 1) as usize);
            lemma_refusal(args, i + 2, Settings { root: at, ..settings });
            lemma_refusal(args, i + 2, Settings { font_path: at, ..settings });
            if let Some(ppi) = number_of(args[i + 1].text@) {
                lemma_refusal(args, i + 2, Settings { ppi, ..settings });
            }
        }
    }
}

/// Tells a problem with the arguments.
pub fn problem_message(problem: Problem, args: &Vec<Argument>) -> (message: String)
    requires
        is_about(problem, args@),
    ensures
        message@ == problem_text(problem, args@),
{
    let mut message = String::new();
    match problem {
        Problem::RootMissing => message.append("--root needs a directory"),
        Problem::FontPathMissing => message.append("--font-path needs a directory"),
        Problem::PpiMissing => message.append("--ppi needs a number"),
        Problem::NotANumber(i) => {
            if let Err(error) = parse_number(args[i].text.as_str()) {
                message.append(error.as_str());
            }
        },
        Problem::PpiOutOfRange => message.append("--ppi must be between 36 and 600"),
        Problem::UnknownOption(i) => {
            message.append("unknown option: ");
            message.append(args[i].text.as_str());
        },
        Problem::SeveralInputs => message.append("provide exactly one .typ or .md file"),
        Problem::InputMissing => message.append("missing .typ or .md file"),
    }
    assert(message@ =~= problem_text(problem, args@));
    message
}

/// A format of documents.
#[derive(Clone, Copy, Debug, PartialEq, Eq, Structural)]
pub enum Format {
    Typst,
    Markdown,
}

/// The format of a file with the given extension.
pub open spec fn format_of(extension: Seq<char>) -> Option<Format> {
    if extension == "typ"@ {
        Some(Format::Typst)
    } else if extension == "md"@ {
        Some(Format::Markdown)
    } else {
        None
    }
}

/// Tells the format of a file by its extension.
pub fn document_format(extension: &str) -> (result: Option<Format>)
    ensures
        result == format_of(extension@),
{
    if same_text(extension, "typ") {
        Some(Format::Typst)
    } else if same_text(extension, "md") {
        Some(Format::Markdown)
    } else {
        None
    }
}

/// Whether settings are about the given arguments, and ask for a resolution that can be had.
pub open spec fn is_valid(settings: Settings, args: Seq<Argument>) -> bool {
    &&& LOWEST_PPI <= settings.ppi <= HIGHEST_PPI
    &&& settings.input is Some ==> settings.input->0 < args.len()
    &&& settings.root is Some ==> settings.root->0 < args.len()
    &&& settings.font_path is Some ==> settings.font_path->0 < args.len()
}

proof fn lemma_settings(args: Seq<Argument>, i: int, settings: Settings)
    requires
        0 <= i,
        args.len() <= usize::MAX,
        is_valid(settings, args),
    ensures
        request_from(args, i, settings) is Run ==> is_valid(
            request_from(args, i, settings)->Run_0,
            args,
        ) && request_from(args, i, settings)->Run_0.input is Some,
    decreases args.len() - i,
{
    if i < args.len() {
        lemma_settings(args, i + 1, Settings { input: Some(i as usize), ..settings });
        if i + 1 < args.len() {
            let at = Some((i + 1) as usize);
            lemma_settings(args, i + 2, Settings { root: at, ..settings });
            lemma_settings(args, i + 2, Settings { font_path: at, ..settings });
            if let Some(ppi) = number_of(args[i + 1].text@) {
                if LOWEST_PPI <= ppi <= HIGHEST_PPI {
                    lemma_settings(args, i + 2, Settings { ppi, ..settings });
                }
            }
        }
    }
}

/// The program runs only with one input, paths that are among the arguments, and a resolution that
/// can be had.
pub proof fn accepted_settings_are_valid(args: Seq<Argument>)
    requires
        args.len() <= usize::MAX,
    ensures
        request(args) is Run ==> is_valid(request(args)->Run_0, args) && request(
            args,
        )->Run_0.input is Some,
{
    lemma_settings(
        args,
        0,
        Settings { input: None, root: None, font_path: None, ppi: DEFAULT_PPI },
    );
}

/// A number in decimal notation reads back as that number.
pub proof fn decimals_read_back(n: u32)
    ensures
        number_of(chars::decimal(n as nat)) == Some(n),
{
    lemma_decimal(n as nat);
}

proof fn lemma_decimal(n: nat)
    ensures
        chars::decimal(n).len() > 0,
        forall|i: int|
            0 <= i < chars::decimal(n).len() ==> '0' <= #[trigger] chars::decimal(n)[i] <= '9',
        digits_value(chars::decimal(n)) == n,
    decreases n,
{
    let all = chars::decimal(n);
    if n < 10 {
        assert(all.drop_last() =~= Seq::empty());
        assert(digits_value(all.drop_last()) == 0);
    } else {
        lemma_decimal(n / 10);
        assert(all.drop_last() =~= chars::decimal(n / 10));
    }
}

proof fn lemma_options_differ()
    ensures
        "--help"@.len() == 6,
        "-h"@.len() == 2,
        "--root"@.len() == 6,
        "--font-path"@.len() == 11,
        "--ppi"@.len() == 5,
        "--help"@ != "--root"@,
        "-"@ == seq!['-'],
        chars::begins_with("--help"@, "-"@),
        chars::begins_with("-h"@, "-"@),
        chars::begins_with("--root"@, "-"@),
        chars::begins_with("--font-path"@, "-"@),
        chars::begins_with("--ppi"@, "-"@),
{
    reveal_strlit("--help");
    reveal_strlit("-h");
    reveal_strlit("--root");
    reveal_strlit("--font-path");
    reveal_strlit("--ppi");
    reveal_strlit("-");
    assert("--help"@[2] != "--root"@[2]);
    assert("-"@ =~= seq!['-']);
    assert("--help"@.take(1) =~= "-"@);
    assert("-h"@.take(1) =~= "-"@);
    assert("--root"@.take(1) =~= "-"@);
    assert("--font-path"@.take(1) =~= "-"@);
    assert("--ppi"@.take(1) =~= "-"@);
}

/// Whether an argument is one of the options that have a value.
pub open spec fn has_value(arg: Argument) -> bool {
    arg.unicode && (arg.text@ == "--root"@ || arg.text@ == "--font-path"@ || arg.text@ == "--ppi"@)
}

/// Whether an argument is a path: it does not begin with a hyphen, or is not Unicode.
pub open spec fn is_path(arg: Argument) -> bool {
    !arg.unicode || arg.text@.len() == 0 || arg.text@[0] != '-'
}

proof fn lemma_path(arg: Argument)
    ensures
        is_path(arg) <==> !(arg.unicode && chars::begins_with(arg.text@, "-"@)),
        is_path(arg) ==> !is_option(arg, "--help"@) && !is_option(arg, "-h"@) && !has_value(arg),
{
    lemma_options_differ();
    if arg.text@.len() > 0 {
        assert(arg.text@.take(1) =~= seq![arg.text@[0]]);
        assert(seq!['-'][0] == '-');
        if arg.text@[0] == '-' {
            assert(arg.text@.take(1) =~= "-"@);
        } else {
            assert(arg.text@.take(1)[0] != "-"@[0]);
        }
    }
}

/// A file alone is shown at 144 pixels per inch, with its own directory as the root.
pub proof fn one_file_is_shown_as_it_is(file: Argument)
    requires
        is_path(file),
    ensures
        request(seq![file]) == Request::Run(
            Settings { input: Some(0), root: None, font_path: None, ppi: 144 },
        ),
{
    let args = seq![file];
    lemma_path(file);
    assert(args[0] == file);
    assert(request_from(
        args,
        1,
        Settings { input: Some(0), root: None, font_path: None, ppi: DEFAULT_PPI },
    ) is Run);
}

/// Each option takes the argument behind it, and leaves what the others have asked for; the file may
/// stand before the options or behind them. A resolution counts from 36 to 600.
pub proof fn options_take_their_values(
    root: Argument,
    fonts: Argument,
    ppi: Argument,
    value: Seq<Argument>,
    file: Argument,
    n: u32,
)
    requires
        is_path(file),
        value.len() == 3,
        root.unicode && root.text@ == "--root"@,
        fonts.unicode && fonts.text@ == "--font-path"@,
        ppi.unicode && ppi.text@ == "--ppi"@,
        number_of(value[2].text@) == Some(n),
    ensures
        36 <= n <= 600 ==> request(
            seq![root, value[0], fonts, value[1], ppi, value[2], file],
        ) == Request::Run(Settings { input: Some(6), root: Some(1), font_path: Some(3), ppi: n }),
        36 <= n <= 600 ==> request(
            seq![file, ppi, value[2], fonts, value[1], root, value[0]],
        ) == Request::Run(Settings { input: Some(0), root: Some(6), font_path: Some(4), ppi: n }),
        !(36 <= n <= 600) ==> request(seq![ppi, value[2], file]) == Request::Refuse(
            Problem::PpiOutOfRange,
        ),
        !(36 <= n <= 600) ==> request(seq![file, ppi, value[2]]) == Request::Refuse(
            Problem::PpiOutOfRange,
        ),
{
    lemma_options_differ();
    lemma_path(file);
    reveal_with_fuel(request_from, 5);
    let first = seq![root, value[0], fonts, value[1], ppi, value[2], file];
    assert(first[0] == root && first[1] == value[0] && first[2] == fonts && first[3] == value[1]
        && first[4] == ppi && first[5] == value[2] && first[6] == file);
    let second = seq![file, ppi, value[2], fonts, value[1], root, value[0]];
    assert(second[0] == file && second[1] == ppi && second[2] == value[2] && second[3] == fonts
        && second[4] == value[1] && second[5] == root && second[6] == value[0]);
    let third = seq![ppi, value[2], file];
    assert(third[0] == ppi && third[1] == value[2] && third[2] == file);
    let fourth = seq![file, ppi, value[2]];
    assert(fourth[0] == file && fourth[1] == ppi && fourth[2] == value[2]);
}

/// An option without a value, a resolution that is no number, an option that is not known, a second
/// file and a missing file are refused, each for its own reason, and help is given where it is asked
/// for, if nothing before it was refused.
pub proof fn wrong_arguments_are_refused(arg: Argument, value: Argument, file: Argument)
    requires
        is_path(file),
    ensures
        request(Seq::empty()) == Request::Refuse(Problem::InputMissing),
        arg.unicode && arg.text@ == "--root"@ ==> request(seq![file, arg]) == Request::Refuse(
            Problem::RootMissing,
        ),
        arg.unicode && arg.text@ == "--font-path"@ ==> request(seq![file, arg]) == Request::Refuse(
            Problem::FontPathMissing,
        ),
        arg.unicode && arg.text@ == "--ppi"@ ==> request(seq![file, arg]) == Request::Refuse(
            Problem::PpiMissing,
        ),
        arg.unicode && arg.text@ == "--ppi"@ && number_of(value.text@) is None ==> request(
            seq![file, arg, value],
        ) == Request::Refuse(Problem::NotANumber(2)),
        arg.unicode && (arg.text@ == "--root"@ || arg.text@ == "--font-path"@) ==> request(
            seq![arg, value],
        ) == Request::Refuse(Problem::InputMissing),
        is_path(arg) ==> request(seq![file, arg]) == Request::Refuse(Problem::SeveralInputs),
        !is_path(arg) && !has_value(arg) && arg.text@ != "--help"@ && arg.text@ != "-h"@
            ==> request(seq![file, arg]) == Request::Refuse(Problem::UnknownOption(1)),
        arg.unicode && (arg.text@ == "--help"@ || arg.text@ == "-h"@) ==> request(seq![file, arg])
            == Request::Help && request(seq![arg, value]) == Request::Help,
{
    lemma_options_differ();
    lemma_path(file);
    lemma_path(arg);
    reveal_with_fuel(request_from, 4);
    let two = seq![file, arg];
    assert(two[0] == file && two[1] == arg);
    let three = seq![file, arg, value];
    assert(three[0] == file && three[1] == arg && three[2] == value);
    let other = seq![arg, value];
    assert(other[0] == arg && other[1] == value);
}

proof fn lemma_sources(args: Seq<Argument>, i: int, settings: Settings)
    requires
        0 <= i,
        args.len() <= usize::MAX,
        request_from(args, i, settings) is Run,
    ensures
        ({
            let result = request_from(args, i, settings)->Run_0;
            &&& result.root == settings.root || (result.root matches Some(j) && i < j < args.len()
                && is_option(args[j - 1], "--root"@))
            &&& result.font_path == settings.font_path || (result.font_path matches Some(j) && i < j
                < args.len() && is_option(args[j - 1], "--font-path"@))
            &&& settings.input is Some ==> result.input == settings.input
            &&& settings.input is None ==> (result.input matches Some(j) && i <= j < args.len()
                && is_path(args[j as int]))
        }),
    decreases args.len() - i,
{
    lemma_options_differ();
    if i < args.len() {
        lemma_path(args[i]);
        let at = Some((i + 1) as usize);
        if is_option(args[i], "--root"@) {
            lemma_sources(args, i + 2, Settings { root: at, ..settings });
        } else if is_option(args[i], "--font-path"@) {
            lemma_sources(args, i + 2, Settings { font_path: at, ..settings });
        } else if is_option(args[i], "--ppi"@) {
            let ppi = number_of(args[i + 1].text@)->0;
            lemma_sources(args, i + 2, Settings { ppi, ..settings });
        } else {
            lemma_sources(args, i + 1, Settings { input: Some(i as usize), ..settings });
        }
    }
}

/// Whether an argument is a resolution behind its option.
pub open spec fn is_resolution(args: Seq<Argument>, j: int, ppi: u32) -> bool {
    &&& 0 < j < args.len()
    &&& args[j - 1].unicode
    &&& args[j - 1].text@ == "--ppi"@
    &&& number_of(args[j].text@) == Some(ppi)
}

proof fn lemma_resolution(args: Seq<Argument>, i: int, settings: Settings)
    requires
        0 <= i,
        args.len() <= usize::MAX,
        request_from(args, i, settings) is Run,
        request_from(args, i, settings)->Run_0.ppi != settings.ppi,
    ensures
        exists|j: int| is_resolution(args, j, request_from(args, i, settings)->Run_0.ppi),
    decreases args.len() - i,
{
    if i < args.len() {
        let at = Some((i + 1) as usize);
        let result = request_from(args, i, settings)->Run_0;
        if is_option(args[i], "--root"@) {
            lemma_resolution(args, i + 2, Settings { root: at, ..settings });
        } else if is_option(args[i], "--font-path"@) {
            lemma_resolution(args, i + 2, Settings { font_path: at, ..settings });
        } else if is_option(args[i], "--ppi"@) {
            let ppi = number_of(args[i + 1].text@)->0;
            if result.ppi == ppi {
                assert(is_resolution(args, i + 1, result.ppi));
            } else {
                lemma_resolution(args, i + 2, Settings { ppi, ..settings });
            }
        } else {
            lemma_resolution(args, i + 1, Settings { input: Some(i as usize), ..settings });
        }
    }
}

/// Whether an argument that is not the value of an option is an option with a value, or the file.
pub open spec fn is_used(args: Seq<Argument>, j: int, input: Option<usize>) -> bool {
    has_value(args[j]) || (is_path(args[j]) && input == Some(j as usize))
}

proof fn lemma_used(args: Seq<Argument>, i: int, settings: Settings, j: int)
    requires
        0 <= i <= j < args.len() <= usize::MAX,
        j == i || !has_value(args[j - 1]),
        request_from(args, i, settings) is Run,
    ensures
        is_used(args, j, request_from(args, i, settings)->Run_0.input),
    decreases args.len() - i,
{
    lemma_options_differ();
    lemma_path(args[i]);
    let at = Some((i + 1) as usize);
    if is_option(args[i], "--root"@) {
        if j > i {
            assert(j >= i + 2);
            lemma_used(args, i + 2, Settings { root: at, ..settings }, j);
        }
    } else if is_option(args[i], "--font-path"@) {
        if j > i {
            assert(j >= i + 2);
            lemma_used(args, i + 2, Settings { font_path: at, ..settings }, j);
        }
    } else if is_option(args[i], "--ppi"@) {
        if j > i {
            assert(j >= i + 2);
            let ppi = number_of(args[i + 1].text@)->0;
            lemma_used(args, i + 2, Settings { ppi, ..settings }, j);
        }
    } else {
        let next = Settings { input: Some(i as usize), ..settings };
        if j > i {
            lemma_used(args, i + 1, next, j);
        } else {
            lemma_sources(args, i + 1, next);
        }
    }
}

/// Where the program runs, all that it was asked for stands among the arguments: a root behind
/// `--root`, fonts behind `--font-path`, and a resolution other than 144 behind `--ppi`. Every
/// argument that is not the value of an option is an option with a value or the one file.
pub proof fn settings_come_from_the_arguments(args: Seq<Argument>)
    requires
        args.len() <= usize::MAX,
        request(args) is Run,
    ensures
        ({
            let settings = request(args)->Run_0;
            &&& settings.root matches Some(j) ==> 0 < j < args.len() && args[j - 1].unicode
                && args[j - 1].text@ == "--root"@
            &&& settings.font_path matches Some(j) ==> 0 < j < args.len() && args[j - 1].unicode
                && args[j - 1].text@ == "--font-path"@
            &&& settings.ppi == 144 || exists|j: int| is_resolution(args, j, settings.ppi)
            &&& settings.input matches Some(j) && j < args.len() && is_path(args[j as int])
            &&& 36 <= settings.ppi <= 600
            &&& forall|j: int|
                0 <= j < args.len() && (j == 0 || !has_value(args[j - 1])) ==> #[trigger] is_used(
                    args,
                    j,
                    settings.input,
                )
        }),
{
    let settings = Settings { input: None, root: None, font_path: None, ppi: DEFAULT_PPI };
    let result = request(args)->Run_0;
    lemma_sources(args, 0, settings);
    accepted_settings_are_valid(args);
    if result.ppi != 144 {
        lemma_resolution(args, 0, settings);
    }
    assert forall|j: int| 0 <= j < args.len() && (j == 0 || !has_value(args[j - 1])) implies
        #[trigger] is_used(args, j, result.input) by {
        lemma_used(args, 0, settings, j);
    }
}

/// A number may have a plus sign before it, and is not empty.
pub proof fn numbers_may_have_a_sign(n: u32)
    ensures
        number_of(seq!['+'] + chars::decimal(n as nat)) == Some(n),
        number_of(Seq::empty()) is None,
        number_of(seq!['+']) is None,
{
    lemma_decimal(n as nat);
    let signed = seq!['+'] + chars::decimal(n as nat);
    assert(signed.skip(1) =~= chars::decimal(n as nat));
}

/// The root and the fonts are those that are given, and else those of the file: its directory, and the
/// directory of fonts beside it, if there is one.
pub proof fn places_are_given_or_beside_the_file(settings: Settings, beside: bool)
    ensures
        settings.root matches Some(index) ==> root_of(settings) == Root::Given(index),
        settings.root is None ==> root_of(settings) is InputDirectory,
        settings.font_path matches Some(index) ==> fonts_of(settings, beside) == Fonts::Given(index),
        settings.font_path is None && beside ==> fonts_of(settings, beside) is BesideInput,
        settings.font_path is None && !beside ==> fonts_of(settings, beside) is Nowhere,
{
}

/// A file is a Typst or a Markdown document by its extension, `typ` or `md`, and no other file is
/// either.
pub proof fn formats_go_by_extension(extension: Seq<char>)
    ensures
        format_of(extension) == Some(Format::Typst) <==> extension == seq!['t', 'y', 'p'],
        format_of(extension) == Some(Format::Markdown) <==> extension == seq!['m', 'd'],
{
    reveal_strlit("typ");
    reveal_strlit("md");
    assert("typ"@ =~= seq!['t', 'y', 'p']);
    assert("md"@ =~= seq!['m', 'd']);
    assert(seq!['t', 'y', 'p'].len() != seq!['m', 'd'].len());
}

/// A problem is told by naming what is missing or wrong, an unknown option by its text.
pub proof fn problems_are_told(args: Seq<Argument>, i: usize)
    ensures
        problem_text(Problem::RootMissing, args) == "--root needs a directory"@,
        problem_text(Problem::FontPathMissing, args) == "--font-path needs a directory"@,
        problem_text(Problem::PpiMissing, args) == "--ppi needs a number"@,
        problem_text(Problem::PpiOutOfRange, args) == "--ppi must be between 36 and 600"@,
        problem_text(Problem::SeveralInputs, args) == "provide exactly one .typ or .md file"@,
        problem_text(Problem::InputMissing, args) == "missing .typ or .md file"@,
        i < args.len() ==> problem_text(Problem::UnknownOption(i), args) == "unknown option: "@
            + args[i as int].text@,
        i < args.len() ==> problem_text(Problem::NotANumber(i), args) == number_error(
            args[i as int].text@,
        ),
{
}

} // verus!

//! Typst string literals: how the text of a document is put into markup so that nothing in it
//! is taken for markup.
use vstd::prelude::*;

verus! {

/// Whether a character is one of the control codes: Unicode's general category `Cc`.
pub open spec fn is_control(c: char) -> bool {
    c < '\u{20}' || '\u{7f}' <= c <= '\u{9f}'
}

/// Tells the control codes.
pub fn control(c: char) -> (answer: bool)
    ensures
        answer == is_control(c),
{
    c < '\u{20}' || ('\u{7f}' <= c && c <= '\u{9f}')
}

/// The letter that stands for `c` after a backslash inside a string literal, if `c` has such
/// a form.
pub open spec fn escape_letter(c: char) -> Option<char> {
    if c == '\\' {
        Some('\\')
    } else if c == '"' {
        Some('"')
    } else if c == '\n' {
        Some('n')
    } else if c == '\r' {
        Some('r')
    } else if c == '\t' {
        Some('t')
    } else {
        None
    }
}

/// How one character of a text is written inside a string literal.
pub open spec fn escaped_char(c: char) -> Seq<char> {
    match escape_letter(c) {
        Some(letter) => seq!['\\', letter],
        None => if is_control(c) {
            Seq::empty()
        } else {
            seq![c]
        },
    }
}

/// How a text is written inside a string literal.
pub open spec fn escaped(value: Seq<char>) -> Seq<char>
    decreases value.len(),
{
    if value.len() == 0 {
        Seq::empty()
    } else {
        escaped(value.drop_last()) + escaped_char(value.last())
    }
}

/// The string literal of a text.
pub open spec fn quoted_text(value: Seq<char>) -> Seq<char> {
    seq!['"'] + escaped(value) + seq!['"']
}

/// Markup that shows a text as it is.
pub open spec fn text_markup(value: Seq<char>) -> Seq<char> {
    "#text("@ + quoted_text(value) + ")"@
}

/// Writes a text as a Typst string literal. Quotes, backslashes, line breaks and tabs are
/// escaped; other control codes are left out.
pub fn quoted(value: &str) -> (result: String)
    ensures
        result@ == quoted_text(value@),
{
    let mut result = String::new();
    result.push('"');
    for c in it: value.chars()
        invariant
            it.seq() == value@,
            result@ =~= seq!['"'] + escaped(value@.take(it.index())),
    {
        proof {
            assert(value@.take(it.index() + 1).drop_last() =~= value@.take(it.index()));
        }
        if c == '\\' {
            result.push('\\');
            result.push('\\');
        } else if c == '"' {
            result.push('\\');
            result.push('"');
        } else if c == '\n' {
            result.push('\\');
            result.push('n');
        } else if c == '\r' {
            result.push('\\');
            result.push('r');
        } else if c == '\t' {
            result.push('\\');
            result.push('t');
        } else if !control(c) {
            result.push(c);
        }
    }
    assert(value@.take(value@.len() as int) =~= value@);
    result.push('"');
    result
}

/// Markup that shows a text as it is, whatever characters it holds.
pub fn text(value: &str) -> (result: String)
    ensures
        result@ == text_markup(value@),
{
    let mut result = String::new();
    result.append("#text(");
    result.append(quoted(value).as_str());
    result.append(")");
    assert(result@ =~= text_markup(value@));
    result
}

/// A text without the control codes that a string literal leaves out.
pub open spec fn kept(value: Seq<char>) -> Seq<char>
    decreases value.len(),
{
    if value.len() == 0 {
        value
    } else if escape_letter(value[0]) is Some || !is_control(value[0]) {
        seq![value[0]] + kept(value.skip(1))
    } else {
        kept(value.skip(1))
    }
}

/// The character that a letter stands for after a backslash inside a string literal.
pub open spec fn unescaped(letter: char) -> Option<char> {
    if letter == '\\' || letter == '"' {
        Some(letter)
    } else if letter == 'n' {
        Some('\n')
    } else if letter == 'r' {
        Some('\r')
    } else if letter == 't' {
        Some('\t')
    } else {
        None
    }
}

/// Reading a string literal from a place inside it: its text from there on, and the place behind
/// its closing quote.
pub open spec fn literal(s: Seq<char>, from: int) -> Option<(Seq<char>, int)>
    decreases s.len() - from,
{
    if from < 0 || from >= s.len() {
        None
    } else if s[from] == '"' {
        Some((Seq::empty(), from + 1))
    } else if s[from] == '\\' {
        if from + 1 >= s.len() || unescaped(s[from + 1]) is None {
            None
        } else {
            match literal(s, from + 2) {
                Some((rest, end)) => Some((seq![unescaped(s[from + 1])->0] + rest, end)),
                None => None,
            }
        }
    } else {
        match literal(s, from + 1) {
            Some((rest, end)) => Some((seq![s[from]] + rest, end)),
            None => None,
        }
    }
}

proof fn lemma_escaped_front(value: Seq<char>)
    requires
        value.len() > 0,
    ensures
        escaped(value) == escaped_char(value[0]) + escaped(value.skip(1)),
    decreases value.len(),
{
    if value.len() == 1 {
        assert(value.drop_last() =~= Seq::empty());
        assert(value.skip(1) =~= Seq::empty());
    } else {
        lemma_escaped_front(value.drop_last());
        assert(value.drop_last().skip(1) =~= value.skip(1).drop_last());
        assert(value.skip(1).last() == value.last());
    }
    assert(escaped(value) =~= escaped_char(value[0]) + escaped(value.skip(1)));
}

proof fn lemma_literal(s: Seq<char>, from: int, value: Seq<char>)
    requires
        0 <= from,
        from + escaped(value).len() < s.len(),
        s.subrange(from, from + escaped(value).len()) == escaped(value),
        s[from + escaped(value).len()] == '"',
    ensures
        literal(s, from) == Some((kept(value), from + escaped(value).len() + 1)),
    decreases value.len(),
{
    if value.len() == 0 {
        assert(kept(value) =~= Seq::empty());
    } else {
        lemma_escaped_front(value);
        let first = escaped_char(value[0]);
        let rest = value.skip(1);
        let all = s.subrange(from, from + escaped(value).len());
        assert forall|i: int| 0 <= i < first.len() implies s[from + i] == #[trigger] first[i] by {
            assert(all[i] == first[i]);
        }
        assert(s.subrange(from + first.len(), from + first.len() + escaped(rest).len())
            =~= escaped(rest)) by {
            assert(all.subrange(first.len() as int, all.len() as int) =~= escaped(rest));
        }
        lemma_literal(s, from + first.len(), rest);
        if first.len() > 0 {
            assert(s[from] == first[0]);
        }
        if first.len() > 1 {
            assert(s[from + 1] == first[1]);
        }
    }
}

/// A string literal reads back as the text it was written for, without the control codes that it
/// leaves out, and ends with its closing quote, whatever comes after it.
pub proof fn literals_read_back(value: Seq<char>, rest: Seq<char>)
    ensures
        literal(quoted_text(value) + rest, 1) == Some((kept(value), quoted_text(value).len() as int)),
{
    let s = quoted_text(value) + rest;
    assert(s.subrange(1, escaped(value).len() + 1int) =~= escaped(value));
    lemma_literal(s, 1, value);
}

/// A text without control codes other than line breaks and tabs is kept whole.
pub proof fn ordinary_text_is_kept(value: Seq<char>)
    requires
        forall|i: int|
            0 <= i < value.len() ==> escape_letter(#[trigger] value[i]) is Some || !is_control(
                value[i],
            ),
    ensures
        kept(value) == value,
    decreases value.len(),
{
    if value.len() > 0 {
        assert forall|i: int| 0 <= i < value.skip(1).len() implies escape_letter(
            #[trigger] value.skip(1)[i],
        ) is Some || !is_control(value.skip(1)[i]) by {
            assert(value.skip(1)[i] == value[i + 1]);
        }
        ordinary_text_is_kept(value.skip(1));
        assert(seq![value[0]] + value.skip(1) =~= value);
    }
}

/// A string literal leaves out the control codes but line breaks and tabs, and nothing else.
pub proof fn only_control_codes_are_left_out(value: Seq<char>)
    ensures
        kept(value) == value.filter(
            |c: char|
                c == '\n' || c == '\r' || c == '\t' || !(c < '\u{20}' || '\u{7f}' <= c <= '\u{9f}'),
        ),
    decreases value.len(),
{
    let pred = |c: char|
        c == '\n' || c == '\r' || c == '\t' || !(c < '\u{20}' || '\u{7f}' <= c <= '\u{9f}');
    reveal(Seq::filter);
    if value.len() > 0 {
        let first = seq![value[0]];
        let rest = value.skip(1);
        only_control_codes_are_left_out(rest);
        assert(value =~= first + rest);
        Seq::filter_distributes_over_add(first, rest, pred);
        assert(first.drop_last() =~= Seq::<char>::empty());
        assert(first.drop_last().filter(pred) =~= Seq::<char>::empty());
        assert(first.filter(pred) =~= if pred(value[0]) {
            first
        } else {
            Seq::empty()
        });
        assert(kept(value) =~= first.filter(pred) + rest.filter(pred));
    } else {
        assert(value.filter(pred) =~= Seq::<char>::empty());
        assert(kept(value) =~= Seq::<char>::empty());
    }
}

/// Texts that differ in a character that is kept are shown by different literals.
pub proof fn different_texts_have_different_literals(value: Seq<char>, other: Seq<char>)
    requires
        quoted_text(value) == quoted_text(other),
    ensures
        kept(value) == kept(other),
{
    literals_read_back(value, Seq::empty());
    literals_read_back(other, Seq::empty());
}

/// Markup that shows a text is a call of `text` with the literal of it.
pub proof fn text_is_shown_by_its_literal(value: Seq<char>)
    ensures
        text_markup(value).len() == quoted_text(value).len() + 7,
        text_markup(value).take(6) == seq!['#', 't', 'e', 'x', 't', '('],
        text_markup(value).subrange(6, 6int + quoted_text(value).len()) == quoted_text(value),
        text_markup(value).last() == ')',
        quoted_text(value).len() >= 2 && quoted_text(value)[0] == '"',
{
    reveal_strlit("#text(");
    reveal_strlit(")");
    assert(text_markup(value).take(6) =~= seq!['#', 't', 'e', 'x', 't', '(']);
    assert(text_markup(value).subrange(6, 6int + quoted_text(value).len()) =~= quoted_text(value));
}

} // verus!

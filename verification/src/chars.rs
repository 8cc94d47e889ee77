//! Characters, words and numbers: the small vocabulary that the rest of the crate builds on.
use vstd::prelude::*;

verus! {

/// `String::push` appends one character.
pub assume_specification[ String::push ](s: &mut String, c: char)
    ensures
        final(s)@ == old(s)@.push(c),
;

/// Whether a character is an ASCII character.
pub open spec fn is_ascii(c: char) -> bool {
    c <= '\u{7f}'
}

/// Whether a character is white space: one with Unicode's `White_Space` property.
pub open spec fn white_space(c: char) -> bool {
    ||| c == ' '
    ||| '\t' <= c <= '\r'
    ||| c == '\u{85}'
    ||| c == '\u{a0}'
    ||| c == '\u{1680}'
    ||| '\u{2000}' <= c <= '\u{200a}'
    ||| c == '\u{2028}'
    ||| c == '\u{2029}'
    ||| c == '\u{202f}'
    ||| c == '\u{205f}'
    ||| c == '\u{3000}'
}

/// `char::is_whitespace` tells the characters with Unicode's `White_Space` property: the space, the
/// codes from 9 to 13, and outside ASCII the next line, the no-break spaces, the spaces of other
/// widths, and the two separators of lines and paragraphs.
pub assume_specification[ char::is_whitespace ](c: char) -> (answer: bool)
    ensures
        answer == white_space(c),
;

/// The characters of a string, one by one.
pub fn chars_of(s: &str) -> (chars: Vec<char>)
    ensures
        chars@ == s@,
{
    let mut chars: Vec<char> = Vec::new();
    for c in it: s.chars()
        invariant
            chars@ =~= s@.take(it.index()),
            it.seq() == s@,
    {
        chars.push(c);
    }
    chars
}

/// The index of the first white space at or after `from`, or the length of `s`.
pub open spec fn word_end(s: Seq<char>, from: int) -> int
    decreases s.len() - from,
{
    if from >= s.len() || white_space(s[from]) {
        from
    } else {
        word_end(s, from + 1)
    }
}

/// The words of `s` from index `from` on: the maximal runs without white space, in order.
pub open spec fn words_from(s: Seq<char>, from: int) -> Seq<Seq<char>>
    decreases s.len() - from,
{
    if from < 0 || from >= s.len() {
        Seq::empty()
    } else if white_space(s[from]) {
        words_from(s, from + 1)
    } else {
        proof {
            lemma_word_end(s, from + 1);
        }
        let end = word_end(s, from + 1);
        seq![s.subrange(from, end)] + words_from(s, end)
    }
}

/// The words of a text.
pub open spec fn words(s: Seq<char>) -> Seq<Seq<char>> {
    words_from(s, 0)
}

/// A word reaches up to the next white space, or to the end of the text.
pub proof fn lemma_word_end(s: Seq<char>, from: int)
    requires
        0 <= from <= s.len(),
    ensures
        from <= word_end(s, from) <= s.len(),
        forall|i: int| from <= i < word_end(s, from) ==> !white_space(#[trigger] s[i]),
        word_end(s, from) < s.len() ==> white_space(s[word_end(s, from)]),
    decreases s.len() - from,
{
    if from < s.len() && !white_space(s[from]) {
        lemma_word_end(s, from + 1);
    }
}

/// The texts of a list of strings.
pub open spec fn texts(list: Seq<String>) -> Seq<Seq<char>> {
    list.map_values(|s: String| s@)
}

/// A new string with the characters `from..to` of `chars`.
pub fn string_of(chars: &Vec<char>, from: usize, to: usize) -> (s: String)
    requires
        from <= to <= chars@.len(),
    ensures
        s@ == chars@.subrange(from as int, to as int),
{
    let mut s = String::new();
    let mut i: usize = from;
    while i < to
        invariant
            from <= i <= to <= chars@.len(),
            s@ =~= chars@.subrange(from as int, i as int),
        decreases to - i,
    {
        s.push(chars[i]);
        i += 1;
    }
    s
}

/// Splits a text at white space.
pub fn split_words(s: &str) -> (list: Vec<String>)
    ensures
        texts(list@) == words(s@),
{
    let chars = chars_of(s);
    let mut list: Vec<String> = Vec::new();
    let mut i: usize = 0;
    while i < chars.len()
        invariant
            chars@ == s@,
            i <= chars@.len(),
            words(s@) =~= texts(list@) + words_from(s@, i as int),
        decreases chars@.len() - i,
    {
        if chars[i].is_whitespace() {
            i += 1;
        } else {
            let mut end: usize = i + 1;
            while end < chars.len() && !chars[end].is_whitespace()
                invariant
                    chars@ == s@,
                    i < end <= chars@.len(),
                    word_end(s@, i + 1) == word_end(s@, end as int),
                decreases chars@.len() - end,
            {
                end += 1;
            }
            let ghost before = list@;
            list.push(string_of(&chars, i, end));
            assert(texts(list@) =~= texts(before).push(s@.subrange(i as int, end as int)));
            i = end;
        }
    }
    list
}

/// The texts of `list`, one after the other, with `separator` between neighbours.
pub open spec fn joined(list: Seq<Seq<char>>, separator: Seq<char>) -> Seq<char>
    decreases list.len(),
{
    if list.len() == 0 {
        Seq::empty()
    } else if list.len() == 1 {
        list[0]
    } else {
        joined(list.drop_last(), separator) + separator + list.last()
    }
}

/// Joins strings with a separator.
pub fn join(list: &Vec<String>, separator: &str) -> (s: String)
    ensures
        s@ == joined(texts(list@), separator@),
{
    let mut s = String::new();
    let mut i: usize = 0;
    while i < list.len()
        invariant
            i <= list@.len(),
            s@ =~= joined(texts(list@).take(i as int), separator@),
        decreases list@.len() - i,
    {
        if i > 0 {
            s.append(separator);
        }
        s.append(list[i].as_str());
        assert(texts(list@).take(i + 1).drop_last() =~= texts(list@).take(i as int));
        i += 1;
    }
    assert(texts(list@).take(i as int) =~= texts(list@));
    s
}

/// The text without the white space at either end.
pub open spec fn trimmed(s: Seq<char>) -> Seq<char>
    decreases s.len(),
{
    if s.len() == 0 {
        s
    } else if white_space(s[0]) {
        trimmed(s.drop_first())
    } else if white_space(s.last()) {
        trimmed(s.drop_last())
    } else {
        s
    }
}

/// Whether a text holds nothing but white space.
pub open spec fn is_blank(s: Seq<char>) -> bool {
    forall|i: int| 0 <= i < s.len() ==> white_space(#[trigger] s[i])
}

proof fn lemma_blank_trimmed(s: Seq<char>)
    ensures
        trimmed(s).len() == 0 <==> is_blank(s),
    decreases s.len(),
{
    if s.len() == 0 {
    } else if white_space(s[0]) {
        let rest = s.drop_first();
        lemma_blank_trimmed(rest);
        if is_blank(rest) {
            assert forall|i: int| 0 <= i < s.len() implies white_space(#[trigger] s[i]) by {
                if i > 0 {
                    assert(rest[i - 1] == s[i]);
                }
            }
        } else {
            let i = choose|i: int| 0 <= i < rest.len() && !white_space(#[trigger] rest[i]);
            assert(s[i + 1] == rest[i]);
        }
    } else if white_space(s.last()) {
        let rest = s.drop_last();
        lemma_blank_trimmed(rest);
        assert(rest[0] == s[0]);
    }
}

proof fn lemma_blank_words(s: Seq<char>, from: int)
    requires
        0 <= from,
    ensures
        words_from(s, from).len() == 0 <==> forall|i: int|
            from <= i < s.len() ==> white_space(#[trigger] s[i]),
    decreases s.len() - from,
{
    if from < s.len() && white_space(s[from]) {
        lemma_blank_words(s, from + 1);
    }
}

/// Trimming leaves nothing of a text if and only if it has no words.
pub proof fn trimming_leaves_words(s: Seq<char>)
    ensures
        trimmed(s).len() == 0 <==> words(s).len() == 0,
{
    lemma_blank_trimmed(s);
    lemma_blank_words(s, 0);
}

/// Trimming takes white space off either end, all of it and nothing else.
pub proof fn trimming_takes_the_ends_off(s: Seq<char>)
    ensures
        exists|before: Seq<char>, after: Seq<char>|
            #![trigger before + trimmed(s) + after]
            s == before + trimmed(s) + after && is_blank(before) && is_blank(after),
        trimmed(s).len() > 0 ==> !white_space(trimmed(s)[0]) && !white_space(trimmed(s).last()),
    decreases s.len(),
{
    let inside = trimmed(s);
    if s.len() == 0 {
        assert(s =~= Seq::<char>::empty() + inside + Seq::<char>::empty());
    } else if white_space(s[0]) {
        let rest = s.drop_first();
        trimming_takes_the_ends_off(rest);
        let (before, after) = choose|before: Seq<char>, after: Seq<char>|
            #![trigger before + trimmed(rest) + after]
            rest == before + trimmed(rest) + after && is_blank(before) && is_blank(after);
        let more = seq![s[0]] + before;
        assert(inside == trimmed(rest));
        assert(s =~= seq![s[0]] + rest);
        assert(s =~= more + inside + after);
        assert(is_blank(more));
    } else if white_space(s.last()) {
        let rest = s.drop_last();
        trimming_takes_the_ends_off(rest);
        let (before, after) = choose|before: Seq<char>, after: Seq<char>|
            #![trigger before + trimmed(rest) + after]
            rest == before + trimmed(rest) + after && is_blank(before) && is_blank(after);
        let more = after.push(s.last());
        assert(inside == trimmed(rest));
        assert(s =~= rest.push(s.last()));
        assert(s =~= before + inside + more);
        assert(is_blank(more));
    } else {
        assert(s =~= Seq::<char>::empty() + inside + Seq::<char>::empty());
    }
}

/// A new string without the white space at either end.
pub fn trim(s: &str) -> (result: String)
    ensures
        result@ == trimmed(s@),
{
    let chars = chars_of(s);
    let mut start: usize = 0;
    assert(chars@.subrange(0, chars@.len() as int) =~= s@);
    while start < chars.len() && chars[start].is_whitespace()
        invariant
            start <= chars@.len(),
            trimmed(s@) == trimmed(chars@.subrange(start as int, chars@.len() as int)),
        decreases chars@.len() - start,
    {
        assert(chars@.subrange(start as int, chars@.len() as int).drop_first() =~= chars@.subrange(
            start + 1,
            chars@.len() as int,
        ));
        start += 1;
    }
    let mut end: usize = chars.len();
    while end > start && chars[end - 1].is_whitespace()
        invariant
            start <= end <= chars@.len(),
            start < chars@.len() ==> !white_space(chars@[start as int]),
            trimmed(s@) == trimmed(chars@.subrange(start as int, end as int)),
        decreases end,
    {
        assert(chars@.subrange(start as int, end as int).drop_last() =~= chars@.subrange(
            start as int,
            end - 1,
        ));
        end -= 1;
    }
    string_of(&chars, start, end)
}

/// Compares two texts.
pub fn same_text(a: &str, b: &str) -> (answer: bool)
    ensures
        answer == (a@ == b@),
{
    let left = chars_of(a);
    let right = chars_of(b);
    if left.len() != right.len() {
        return false;
    }
    let mut i: usize = 0;
    while i < left.len()
        invariant
            left@ == a@,
            right@ == b@,
            left@.len() == right@.len(),
            i <= left@.len(),
            left@.take(i as int) =~= right@.take(i as int),
        decreases left@.len() - i,
    {
        if left[i] != right[i] {
            assert(a@[i as int] != b@[i as int]);
            return false;
        }
        i += 1;
    }
    assert(left@.take(i as int) =~= left@);
    assert(right@.take(i as int) =~= right@);
    true
}

/// Whether `s` begins with `prefix`.
pub open spec fn begins_with(s: Seq<char>, prefix: Seq<char>) -> bool {
    s.len() >= prefix.len() && s.take(prefix.len() as int) == prefix
}

/// Tells whether one text begins with another.
pub fn starts_with(s: &str, prefix: &str) -> (answer: bool)
    ensures
        answer == begins_with(s@, prefix@),
{
    let chars = chars_of(s);
    let wanted = chars_of(prefix);
    if chars.len() < wanted.len() {
        return false;
    }
    same_text(string_of(&chars, 0, wanted.len()).as_str(), prefix)
}

/// An ASCII capital letter becomes a small one; every other character stays.
pub open spec fn ascii_lower(c: char) -> char {
    if 'A' <= c <= 'Z' {
        (c as u8 + 32) as u8 as char
    } else {
        c
    }
}

/// The text with its ASCII capital letters made small.
pub open spec fn ascii_lowered(s: Seq<char>) -> Seq<char> {
    s.map_values(|c: char| ascii_lower(c))
}

/// Whether a text holds ASCII characters only.
pub open spec fn all_ascii(s: Seq<char>) -> bool {
    forall|i: int| 0 <= i < s.len() ==> is_ascii(#[trigger] s[i])
}

/// A text that is not all ASCII in lower case, as `str::to_lowercase` writes it.
pub uninterp spec fn unicode_lowercase(s: Seq<char>) -> Seq<char>;

/// A text in lower case.
pub open spec fn in_lower_case(s: Seq<char>) -> Seq<char> {
    if all_ascii(s) {
        ascii_lowered(s)
    } else {
        unicode_lowercase(s)
    }
}

/// `str::to_lowercase` makes the capital letters of an ASCII text small, and writes any other text
/// as [`unicode_lowercase`] names it.
pub assume_specification[ str::to_lowercase ](s: &str) -> (lowered: String)
    ensures
        all_ascii(s@) ==> lowered@ == ascii_lowered(s@),
        !all_ascii(s@) ==> lowered@ == unicode_lowercase(s@),
;

/// A new string with the characters `from..to` of `chars`, ASCII capital letters made small.
pub fn lowered_string_of(chars: &Vec<char>, from: usize, to: usize) -> (s: String)
    requires
        from <= to <= chars@.len(),
    ensures
        s@ == ascii_lowered(chars@.subrange(from as int, to as int)),
{
    let mut s = String::new();
    let mut i: usize = from;
    while i < to
        invariant
            from <= i <= to <= chars@.len(),
            s@ =~= ascii_lowered(chars@.subrange(from as int, i as int)),
        decreases to - i,
    {
        let c = chars[i];
        if 'A' <= c && c <= 'Z' {
            s.push((c as u8 + 32) as char);
        } else {
            s.push(c);
        }
        i += 1;
    }
    s
}

/// The decimal digit of a number below ten.
pub open spec fn digit(n: int) -> char {
    (48 + n) as u8 as char
}

/// A number in decimal notation, without leading zeros.
pub open spec fn decimal(n: nat) -> Seq<char>
    decreases n,
{
    if n < 10 {
        seq![digit(n as int)]
    } else {
        decimal(n / 10).push(digit((n % 10) as int))
    }
}

/// Appends a number in decimal notation.
pub fn push_decimal(out: &mut String, n: u64)
    ensures
        final(out)@ == old(out)@ + decimal(n as nat),
    decreases n,
{
    if n >= 10 {
        push_decimal(out, n / 10);
    }
    out.push((48 + (n % 10) as u8) as char);
    assert(out@ =~= old(out)@ + decimal(n as nat));
}

/// Whether all texts of a list are ASCII texts.
pub open spec fn each_ascii(list: Seq<Seq<char>>) -> bool {
    forall|i: int| 0 <= i < list.len() ==> all_ascii(#[trigger] list[i])
}

proof fn lemma_ascii_words(s: Seq<char>, from: int)
    requires
        all_ascii(s),
        0 <= from,
    ensures
        each_ascii(words_from(s, from)),
    decreases s.len() - from,
{
    if from < s.len() {
        if white_space(s[from]) {
            lemma_ascii_words(s, from + 1);
        } else {
            lemma_word_end(s, from + 1);
            let end = word_end(s, from + 1);
            lemma_ascii_words(s, end);
            let all = words_from(s, from);
            let rest = words_from(s, end);
            assert(all =~= seq![s.subrange(from, end)] + rest);
            assert forall|i: int| 0 <= i < all.len() implies all_ascii(#[trigger] all[i]) by {
                if i > 0 {
                    assert(all[i] == rest[i - 1]);
                }
            }
        }
    }
}

/// The words of an ASCII text are ASCII texts.
pub proof fn words_of_ascii_are_ascii(s: Seq<char>)
    requires
        all_ascii(s),
    ensures
        each_ascii(words(s)),
{
    lemma_ascii_words(s, 0);
}

/// ASCII texts are joined to an ASCII text, and may be made small before or after.
pub proof fn joining_keeps_ascii(list: Seq<Seq<char>>, separator: Seq<char>)
    requires
        each_ascii(list),
        all_ascii(separator),
    ensures
        all_ascii(joined(list, separator)),
        ascii_lowered(joined(list, separator)) == joined(
            list.map_values(|s: Seq<char>| ascii_lowered(s)),
            ascii_lowered(separator),
        ),
    decreases list.len(),
{
    let low = list.map_values(|s: Seq<char>| ascii_lowered(s));
    if list.len() > 0 {
        let before = list.drop_last();
        joining_keeps_ascii(before, separator);
        assert(low.drop_last() =~= before.map_values(|s: Seq<char>| ascii_lowered(s)));
    }
    assert(ascii_lowered(joined(list, separator)) =~= joined(low, ascii_lowered(separator)));
}

/// What stands last comes last where texts are put one after the other.
pub proof fn lemma_flatten_new(n: nat, f: spec_fn(int) -> Seq<char>)
    ensures
        Seq::new(0, f).flatten() == Seq::<char>::empty(),
        Seq::new(n + 1, f).flatten() == Seq::new(n, f).flatten() + f(n as int),
{
    assert(Seq::new(0, f) =~= Seq::empty());
    assert(Seq::new(n + 1, f) =~= Seq::new(n, f).push(f(n as int)));
    Seq::new(n, f).lemma_flatten_push(f(n as int));
}

proof fn lemma_end_after(first: Seq<char>, second: Seq<char>, from: int)
    requires
        0 <= from <= second.len(),
    ensures
        word_end(first + second, first.len() + from) == first.len() + word_end(second, from),
    decreases second.len() - from,
{
    if from < second.len() {
        assert((first + second)[first.len() + from] == second[from]);
        lemma_end_after(first, second, from + 1);
    }
}

proof fn lemma_words_after(first: Seq<char>, second: Seq<char>, from: int)
    requires
        0 <= from <= second.len(),
    ensures
        words_from(first + second, first.len() + from) == words_from(second, from),
    decreases second.len() - from,
{
    let all = first + second;
    if from < second.len() {
        assert(all[first.len() + from] == second[from]);
        if white_space(second[from]) {
            lemma_words_after(first, second, from + 1);
        } else {
            lemma_end_after(first, second, from + 1);
            lemma_word_end(second, from + 1);
            let end = word_end(second, from + 1);
            lemma_words_after(first, second, end);
            assert(all.subrange(first.len() + from, first.len() + end) =~= second.subrange(
                from,
                end,
            ));
        }
    }
}

proof fn lemma_end_before(first: Seq<char>, second: Seq<char>, from: int)
    requires
        0 <= from <= first.len(),
        second.len() == 0 || white_space(second[0]),
    ensures
        word_end(first + second, from) == word_end(first, from),
    decreases first.len() - from,
{
    if from < first.len() {
        assert((first + second)[from] == first[from]);
        lemma_end_before(first, second, from + 1);
    } else if second.len() > 0 {
        assert((first + second)[from] == second[0]);
    }
}

proof fn lemma_words_before(first: Seq<char>, second: Seq<char>, from: int)
    requires
        0 <= from <= first.len(),
        second.len() == 0 || white_space(second[0]),
    ensures
        words_from(first + second, from) == words_from(first, from) + words(second),
    decreases first.len() - from,
{
    let all = first + second;
    if from == first.len() {
        lemma_words_after(first, second, 0);
        assert(words_from(first, from) + words(second) =~= words(second));
    } else {
        assert(all[from] == first[from]);
        if white_space(first[from]) {
            lemma_words_before(first, second, from + 1);
        } else {
            lemma_end_before(first, second, from + 1);
            lemma_word_end(first, from + 1);
            let end = word_end(first, from + 1);
            lemma_words_before(first, second, end);
            assert(all.subrange(from, end) =~= first.subrange(from, end));
            assert(words_from(all, from) =~= words_from(first, from) + words(second));
        }
    }
}

/// White space parts words: those of a text are those before it, and then those after it.
pub proof fn white_space_parts_words(first: Seq<char>, c: char, second: Seq<char>)
    requires
        white_space(c),
    ensures
        words(first.push(c) + second) == words(first) + words(second),
{
    let rest = seq![c] + second;
    assert(first.push(c) + second =~= first + rest);
    lemma_words_before(first, rest, 0);
    lemma_words_after(seq![c], second, 0);
    assert(words_from(rest, 0) == words_from(rest, 1));
}

/// A text without white space is one word, and an empty one has none.
pub proof fn unbroken_text_is_one_word(s: Seq<char>)
    requires
        forall|i: int| 0 <= i < s.len() ==> !white_space(#[trigger] s[i]),
    ensures
        s.len() > 0 ==> words(s) == seq![s],
        s.len() == 0 ==> words(s) == Seq::<Seq<char>>::empty(),
{
    if s.len() > 0 {
        lemma_word_end(s, 1);
        assert(word_end(s, 1) == s.len());
        assert(s.subrange(0, s.len() as int) =~= s);
        assert(words_from(s, s.len() as int) =~= Seq::empty());
        assert(words(s) =~= seq![s]);
    }
}

/// Texts are joined with the separator between neighbours and nowhere else.
pub proof fn joining_splits(first: Seq<Seq<char>>, second: Seq<Seq<char>>, separator: Seq<char>)
    ensures
        second.len() == 0 ==> joined(first + second, separator) == joined(first, separator),
        first.len() == 0 ==> joined(first + second, separator) == joined(second, separator),
        first.len() > 0 && second.len() > 0 ==> joined(first + second, separator) == joined(
            first,
            separator,
        ) + separator + joined(second, separator),
        first.len() == 1 ==> joined(first, separator) == first[0],
    decreases second.len(),
{
    let all = first + second;
    if second.len() == 0 {
        assert(all =~= first);
    } else if first.len() == 0 {
        assert(all =~= second);
    } else {
        joining_splits(first, second.drop_last(), separator);
        assert(all.drop_last() =~= first + second.drop_last());
        assert(joined(all, separator) =~= joined(first, separator) + separator + joined(
            second,
            separator,
        ));
    }
}

/// The small letter of an ASCII capital stands 32 places behind it; all else is kept.
pub proof fn small_letters_stand_behind_capitals(c: char)
    ensures
        'A' <= c <= 'Z' ==> ascii_lower(c) as u32 == c as u32 + 32,
        !('A' <= c <= 'Z') ==> ascii_lower(c) == c,
{
}

/// A number other than zero is not written with a leading zero.
pub proof fn decimals_have_no_leading_zero(n: nat)
    ensures
        n > 0 ==> decimal(n)[0] != '0',
        decimal(n).len() > 0,
    decreases n,
{
    if n >= 10 {
        decimals_have_no_leading_zero(n / 10);
    }
}

/// A character at the end of a text goes on with the last word, or begins a word of its own behind
/// white space; white space at the end adds no word.
pub proof fn lemma_words_push(s: Seq<char>, c: char)
    ensures
        white_space(c) ==> words(s.push(c)) == words(s),
        !white_space(c) && (s.len() == 0 || white_space(s.last())) ==> words(s.push(c)) == words(
            s,
        ).push(seq![c]),
        !white_space(c) && s.len() > 0 && !white_space(s.last()) ==> words(s).len() > 0 && words(
            s.push(c),
        ) == words(s).drop_last().push(words(s).last().push(c)),
{
    if white_space(c) {
        white_space_parts_words(s, c, Seq::empty());
        assert(s.push(c) + Seq::<char>::empty() =~= s.push(c));
        assert(words(s) + words(Seq::empty()) =~= words(s));
    } else if s.len() == 0 || white_space(s.last()) {
        let one = seq![c];
        unbroken_text_is_one_word(one);
        if s.len() > 0 {
            let rest = s.drop_last();
            white_space_parts_words(rest, s.last(), one);
            white_space_parts_words(rest, s.last(), Seq::empty());
            assert(rest.push(s.last()) + one =~= s.push(c));
            assert(rest.push(s.last()) + Seq::<char>::empty() =~= s);
            assert(words(rest) + words(Seq::empty()) =~= words(rest));
        } else {
            assert(s.push(c) =~= one);
        }
        assert(words(s.push(c)) =~= words(s).push(one));
    } else {
        let at = last_word_at(s);
        lemma_last_word_at(s);
        let before = s.take(at);
        let word = s.skip(at);
        let longer = word.push(c);
        assert(s =~= before + word);
        assert(s.push(c) =~= before + longer);
        unbroken_text_is_one_word(word);
        unbroken_text_is_one_word(longer);
        if at > 0 {
            let front = before.drop_last();
            assert(before =~= front.push(before.last()));
            white_space_parts_words(front, before.last(), word);
            white_space_parts_words(front, before.last(), longer);
        } else {
            assert(before + word =~= word);
            assert(before + longer =~= longer);
        }
        assert(words(s.push(c)) =~= words(s).drop_last().push(words(s).last().push(c)));
    }
}

spec fn last_word_at(s: Seq<char>) -> int
    decreases s.len(),
{
    if s.len() == 0 || white_space(s.last()) {
        s.len() as int
    } else {
        last_word_at(s.drop_last())
    }
}

proof fn lemma_last_word_at(s: Seq<char>)
    ensures
        0 <= last_word_at(s) <= s.len(),
        last_word_at(s) > 0 ==> white_space(s[last_word_at(s) - 1]),
        forall|i: int| last_word_at(s) <= i < s.len() ==> !white_space(#[trigger] s[i]),
        s.len() > 0 && !white_space(s.last()) ==> last_word_at(s) < s.len(),
    decreases s.len(),
{
    if s.len() > 0 && !white_space(s.last()) {
        lemma_last_word_at(s.drop_last());
        assert forall|i: int| last_word_at(s) <= i < s.len() implies !white_space(
            #[trigger] s[i],
        ) by {
            if i < s.len() - 1 {
                assert(s.drop_last()[i] == s[i]);
            }
        }
    }
}

/// A word is not empty.
pub proof fn words_are_not_empty(s: Seq<char>, k: int)
    requires
        0 <= k < words(s).len(),
    ensures
        words(s)[k].len() > 0,
{
    lemma_words_from(s, 0, k);
}

/// The characters of a word are characters of the text, and none of them is white space.
pub proof fn words_come_from_the_text(s: Seq<char>, k: int)
    requires
        0 <= k < words(s).len(),
    ensures
        forall|i: int|
            0 <= i < words(s)[k].len() ==> s.contains(#[trigger] words(s)[k][i]) && !white_space(
                words(s)[k][i],
            ),
{
    lemma_words_from(s, 0, k);
}

proof fn lemma_words_from(s: Seq<char>, from: int, k: int)
    requires
        0 <= from,
        0 <= k < words_from(s, from).len(),
    ensures
        words_from(s, from)[k].len() > 0,
        forall|i: int|
            0 <= i < words_from(s, from)[k].len() ==> s.contains(
                #[trigger] words_from(s, from)[k][i],
            ) && !white_space(words_from(s, from)[k][i]),
    decreases s.len() - from,
{
    if white_space(s[from]) {
        lemma_words_from(s, from + 1, k);
    } else {
        lemma_word_end(s, from + 1);
        let end = word_end(s, from + 1);
        let all = words_from(s, from);
        if k > 0 {
            lemma_words_from(s, end, k - 1);
            assert(all[k] == words_from(s, end)[k - 1]);
        } else {
            assert(all[0] == s.subrange(from, end));
            assert forall|i: int| 0 <= i < all[0].len() implies s.contains(#[trigger] all[0][i])
                && !white_space(all[0][i]) by {
                assert(s[from + i] == all[0][i]);
            }
        }
    }
}

proof fn lemma_lowered_words(s: Seq<char>, from: int)
    requires
        0 <= from <= s.len(),
    ensures
        word_end(ascii_lowered(s), from) == word_end(s, from),
        words_from(ascii_lowered(s), from) == words_from(s, from).map_values(
            |word: Seq<char>| ascii_lowered(word),
        ),
    decreases s.len() - from,
{
    let low = ascii_lowered(s);
    let f = |word: Seq<char>| ascii_lowered(word);
    if from < s.len() {
        assert(low[from] == ascii_lower(s[from]));
        assert(white_space(low[from]) == white_space(s[from]));
        lemma_lowered_words(s, from + 1);
        if !white_space(s[from]) {
            lemma_word_end(s, from + 1);
            let end = word_end(s, from + 1);
            lemma_lowered_words(s, end);
            assert(low.subrange(from, end) =~= ascii_lowered(s.subrange(from, end)));
            assert(words_from(low, from) =~= words_from(s, from).map_values(f));
        }
    } else {
        assert(words_from(low, from) =~= words_from(s, from).map_values(f));
    }
}

/// The words of an ASCII text in lower case are its words in lower case.
pub proof fn lowering_keeps_words(s: Seq<char>)
    requires
        all_ascii(s),
    ensures
        words(in_lower_case(s)) == words(s).map_values(|word: Seq<char>| ascii_lowered(word)),
{
    lemma_lowered_words(s, 0);
}

/// A text begins with another if that other, followed by what is left, makes the text.
pub proof fn texts_begin_with_their_beginning(prefix: Seq<char>, rest: Seq<char>, s: Seq<char>)
    ensures
        begins_with(prefix + rest, prefix),
        begins_with(s, prefix) ==> s.len() >= prefix.len() && s == prefix + s.skip(
            prefix.len() as int,
        ),
{
    assert((prefix + rest).take(prefix.len() as int) =~= prefix);
    if begins_with(s, prefix) {
        assert(s =~= s.take(prefix.len() as int) + s.skip(prefix.len() as int));
    }
}

/// Capital letters are made small one by one.
pub proof fn letters_are_made_small_one_by_one(first: Seq<char>, c: char, second: Seq<char>)
    ensures
        ascii_lowered(first.push(c) + second) == ascii_lowered(first).push(ascii_lower(c))
            + ascii_lowered(second),
        ascii_lowered(Seq::empty()) == Seq::<char>::empty(),
{
    assert(ascii_lowered(first.push(c) + second) =~= ascii_lowered(first).push(ascii_lower(c))
        + ascii_lowered(second));
    assert(ascii_lowered(Seq::empty()) =~= Seq::<char>::empty());
}

} // verus!

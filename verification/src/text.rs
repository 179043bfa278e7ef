//! Operations on text for the reading of names and command lines.

use vstd::prelude::*;

verus! {

/// Whether `char::is_whitespace` holds of a character: whether it has the
/// Unicode property `White_Space`.
pub uninterp spec fn white_space(c: char) -> bool;

/// Calls `char::is_whitespace`. The result is named [`white_space`];
/// nothing more is claimed of it.
#[verifier::external_body]
pub(crate) fn is_whitespace(c: char) -> (white: bool)
    ensures
        white == white_space(c),
{
    c.is_whitespace()
}

/// The text that `str::to_lowercase` makes of a text.
pub uninterp spec fn lowercased(text: Seq<char>) -> Seq<char>;

/// Calls `str::to_lowercase`. The result is named [`lowercased`]; nothing
/// more is claimed of it.
#[verifier::external_body]
pub(crate) fn to_lowercase(text: &str) -> (lower: String)
    ensures
        lower@ == lowercased(text@),
{
    text.to_lowercase()
}

/// The characters of a text.
pub fn chars_of(text: &str) -> (chars: Vec<char>)
    ensures
        chars@ == text@,
{
    let mut chars: Vec<char> = Vec::new();
    let n = text.unicode_len();
    let mut i: usize = 0;
    while i < n
        invariant
            i <= n == text@.len(),
            chars@ == text@.take(i as int),
        decreases n - i,
    {
        chars.push(text.get_char(i));
        i += 1;
    }
    chars
}

/// Whether two texts are the same.
pub fn same_text(a: &str, b: &str) -> (same: bool)
    ensures
        same == (a@ == b@),
{
    a.to_owned() == b.to_owned()
}

/// The text without the white space it begins with.
pub open spec fn without_leading_space(text: Seq<char>) -> Seq<char>
    decreases text.len(),
{
    if text.len() > 0 && white_space(text.first()) {
        without_leading_space(text.drop_first())
    } else {
        text
    }
}

/// The text without the white space it ends with.
pub open spec fn without_trailing_space(text: Seq<char>) -> Seq<char>
    decreases text.len(),
{
    if text.len() > 0 && white_space(text.last()) {
        without_trailing_space(text.drop_last())
    } else {
        text
    }
}

/// The text without the white space at its beginning and at its end.
pub open spec fn trimmed(text: Seq<char>) -> Seq<char> {
    without_trailing_space(without_leading_space(text))
}

/// Removes the white space at the beginning and at the end of a text.
pub fn trim(text: &str) -> (inner: &str)
    ensures
        inner@ == trimmed(text@),
{
    let chars = chars_of(text);
    let n = chars.len();
    let mut from: usize = 0;
    proof {
        assert(text@.skip(0) =~= text@);
    }
    while from < n && is_whitespace(chars[from])
        invariant
            from <= n == text@.len(),
            chars@ == text@,
            without_leading_space(text@) == without_leading_space(text@.skip(from as int)),
        decreases n - from,
    {
        proof {
            assert(text@.skip(from as int).drop_first() =~= text@.skip(from + 1));
        }
        from += 1;
    }
    let ghost front = text@.skip(from as int);
    let mut to: usize = n;
    while to > from && is_whitespace(chars[to - 1])
        invariant
            from <= to <= n == text@.len(),
            chars@ == text@,
            without_trailing_space(front) == without_trailing_space(
                text@.subrange(from as int, to as int),
            ),
        decreases to,
    {
        proof {
            let part = text@.subrange(from as int, to as int);
            assert(part.drop_last() =~= text@.subrange(from as int, to - 1));
        }
        to -= 1;
    }
    text.substring_char(from, to)
}

/// The length of the word that a line begins with: the number of
/// characters before its first white space.
pub open spec fn word_len(line: Seq<char>) -> nat
    decreases line.len(),
{
    if line.len() == 0 || white_space(line.first()) {
        0
    } else {
        1 + word_len(line.drop_first())
    }
}

/// The words of a line: its parts between white space, in order. No word is
/// empty.
pub open spec fn words_of(line: Seq<char>) -> Seq<Seq<char>>
    decreases line.len(),
    via words_of_decreases
{
    if line.len() == 0 {
        Seq::empty()
    } else if white_space(line.first()) {
        words_of(line.drop_first())
    } else {
        seq![line.take(word_len(line) as int)] + words_of(line.skip(word_len(line) as int))
    }
}

#[via_fn]
proof fn words_of_decreases(line: Seq<char>) {
    lemma_word_len_bound(line);
}

/// A word is no longer than the line it begins.
pub proof fn lemma_word_len_bound(line: Seq<char>)
    ensures
        word_len(line) <= line.len(),
        line.len() > 0 && !white_space(line.first()) ==> word_len(line) > 0,
    decreases line.len(),
{
    if line.len() > 0 && !white_space(line.first()) {
        lemma_word_len_bound(line.drop_first());
    }
}

/// Splits a line into its words.
pub fn split_whitespace(line: &str) -> (words: Vec<String>)
    ensures
        words.deep_view() == words_of(line@),
{
    let chars = chars_of(line);
    let n = chars.len();
    let mut words: Vec<String> = Vec::new();
    let mut i: usize = 0;
    proof {
        assert(line@.skip(0) =~= line@);
    }
    while i < n
        invariant
            i <= n == line@.len(),
            chars@ == line@,
            words_of(line@) == words.deep_view() + words_of(line@.skip(i as int)),
        decreases n - i,
    {
        let ghost rest = line@.skip(i as int);
        proof {
            assert(rest.drop_first() =~= line@.skip(i + 1));
        }
        if is_whitespace(chars[i]) {
            i += 1;
        } else {
            let mut j: usize = i + 1;
            while j < n && !is_whitespace(chars[j])
                invariant
                    i < j <= n == line@.len(),
                    chars@ == line@,
                    word_len(rest) == (j - i) + word_len(line@.skip(j as int)),
                decreases n - j,
            {
                proof {
                    assert(line@.skip(j as int).drop_first() =~= line@.skip(j + 1));
                }
                j += 1;
            }
            proof {
                assert(rest.take(j - i) =~= line@.subrange(i as int, j as int));
                assert(rest.skip(j - i) =~= line@.skip(j as int));
            }
            let word = line.substring_char(i, j).to_owned();
            words.push(word);
            i = j;
        }
    }
    words
}

/// A decimal digit.
pub open spec fn is_digit(c: char) -> bool {
    '0' <= c <= '9'
}

/// The number that a sequence of decimal digits writes.
pub open spec fn decimal_value(digits: Seq<char>) -> nat
    decreases digits.len(),
{
    if digits.len() == 0 {
        0
    } else {
        decimal_value(digits.drop_last()) * 10 + (digits.last() as nat - '0' as nat) as nat
    }
}

/// The word without the plus sign it may begin with.
pub open spec fn without_sign(word: Seq<char>) -> Seq<char> {
    if word.len() > 0 && word.first() == '+' {
        word.drop_first()
    } else {
        word
    }
}

/// The number that a word writes: the word must consist of decimal digits,
/// at least one, after at most one plus sign, and the number must fit in
/// `u64`. Anything else, such as an empty word, a minus sign, white space or
/// a number too large, writes no number.
pub open spec fn parsed_u64(word: Seq<char>) -> Option<u64> {
    let digits = without_sign(word);
    if digits.len() > 0 && (forall|i: int| 0 <= i < digits.len() ==> is_digit(digits[i]))
        && decimal_value(digits) <= u64::MAX {
        Some(decimal_value(digits) as u64)
    } else {
        None
    }
}

/// More digits write no smaller a number.
pub proof fn lemma_decimal_value_grows(digits: Seq<char>, k: int)
    requires
        0 <= k <= digits.len(),
        forall|i: int| 0 <= i < digits.len() ==> is_digit(digits[i]),
    ensures
        decimal_value(digits.take(k)) <= decimal_value(digits),
    decreases digits.len() - k,
{
    if k < digits.len() {
        lemma_decimal_value_grows(digits, k + 1);
        assert(digits.take(k + 1).drop_last() =~= digits.take(k));
    } else {
        assert(digits.take(k) =~= digits);
    }
}

/// Reads the number that a word writes.
pub fn parse_u64(word: &str) -> (number: Option<u64>)
    ensures
        number == parsed_u64(word@),
{
    let chars = chars_of(word);
    let n = chars.len();
    let start: usize = if n > 0 && chars[0] == '+' { 1 } else { 0 };
    let ghost digits = without_sign(word@);
    if start == n {
        return None;
    }
    let mut value: u64 = 0;
    let mut i: usize = start;
    while i < n
        invariant
            start <= i <= n == word@.len(),
            chars@ == word@,
            digits == word@.skip(start as int),
            digits == without_sign(word@),
            forall|k: int| 0 <= k < i - start ==> is_digit(digits[k]),
            value == decimal_value(digits.take(i - start)),
        decreases n - i,
    {
        let c = chars[i];
        proof {
            assert(digits[i - start] == c);
            assert(digits.take(i - start + 1).drop_last() =~= digits.take(i - start));
        }
        if !('0' <= c && c <= '9') {
            return None;
        }
        let digit = (c as u32 - '0' as u32) as u64;
        if value > (u64::MAX - digit) / 10 {
            proof {
                if forall|k: int| 0 <= k < digits.len() ==> is_digit(digits[k]) {
                    lemma_decimal_value_grows(digits, i - start + 1);
                }
            }
            return None;
        }
        value = value * 10 + digit;
        i += 1;
    }
    proof {
        assert(digits.take(n - start) =~= digits);
    }
    Some(value)
}

/// The words from `from` up to, not including, `to`, with a space between
/// each two.
pub open spec fn joined(words: Seq<Seq<char>>, from: int, to: int) -> Seq<char>
    decreases to - from,
{
    if from >= to {
        Seq::empty()
    } else if from + 1 == to {
        words[from]
    } else {
        joined(words, from, to - 1) + " "@ + words[to - 1]
    }
}

/// Joins the words from `from` up to, not including, `to` with single
/// spaces.
pub fn join_words(words: &Vec<String>, from: usize, to: usize) -> (line: String)
    requires
        from <= to <= words.len(),
    ensures
        line@ == joined(words.deep_view(), from as int, to as int),
{
    let mut line = String::new();
    let mut i = from;
    while i < to
        invariant
            from <= i <= to <= words.len(),
            line@ == joined(words.deep_view(), from as int, i as int),
        decreases to - i,
    {
        if i > from {
            line.append(" ");
        }
        line.append(words[i].as_str());
        i += 1;
    }
    line
}

/// A single or a double quote.
pub open spec fn is_quote(c: char) -> bool {
    c == '\'' || c == '"'
}

/// The text without the quotes it begins with.
pub open spec fn without_leading_quotes(text: Seq<char>) -> Seq<char>
    decreases text.len(),
{
    if text.len() > 0 && is_quote(text.first()) {
        without_leading_quotes(text.drop_first())
    } else {
        text
    }
}

/// The text without the quotes it ends with.
pub open spec fn without_trailing_quotes(text: Seq<char>) -> Seq<char>
    decreases text.len(),
{
    if text.len() > 0 && is_quote(text.last()) {
        without_trailing_quotes(text.drop_last())
    } else {
        text
    }
}

/// The text without the quotes around it: all single and double quotes at
/// its beginning and at its end are removed, those inside it stay.
pub open spec fn unquoted(text: Seq<char>) -> Seq<char> {
    without_trailing_quotes(without_leading_quotes(text))
}

/// Removes the single and double quotes around a text.
pub fn strip_quotes(text: &str) -> (inner: &str)
    ensures
        inner@ == unquoted(text@),
{
    let chars = chars_of(text);
    let n = chars.len();
    let mut from: usize = 0;
    proof {
        assert(text@.skip(0) =~= text@);
    }
    while from < n && (chars[from] == '\'' || chars[from] == '"')
        invariant
            from <= n == text@.len(),
            chars@ == text@,
            without_leading_quotes(text@) == without_leading_quotes(text@.skip(from as int)),
        decreases n - from,
    {
        proof {
            assert(text@.skip(from as int).drop_first() =~= text@.skip(from + 1));
        }
        from += 1;
    }
    let ghost front = text@.skip(from as int);
    let mut to: usize = n;
    while to > from && (chars[to - 1] == '\'' || chars[to - 1] == '"')
        invariant
            from <= to <= n == text@.len(),
            chars@ == text@,
            without_trailing_quotes(front) == without_trailing_quotes(
                text@.subrange(from as int, to as int),
            ),
        decreases to,
    {
        proof {
            let part = text@.subrange(from as int, to as int);
            assert(part.drop_last() =~= text@.subrange(from as int, to - 1));
        }
        to -= 1;
    }
    text.substring_char(from, to)
}

} // verus!

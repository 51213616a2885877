//! Splitting text into index terms.
//!
//! A term is a run of decimal digits, a run of letters folded to ASCII upper
//! case, or a single character of any other kind. Whitespace separates terms
//! and is dropped.
use vstd::prelude::*;

verus! {

/// Whether `c` is a Unicode `White_Space` character.
pub open spec fn is_space(c: char) -> bool {
    ('\u{9}' <= c && c <= '\u{d}') || c == ' ' || c == '\u{85}' || c == '\u{a0}'
        || c == '\u{1680}' || ('\u{2000}' <= c && c <= '\u{200a}') || c == '\u{2028}'
        || c == '\u{2029}' || c == '\u{202f}' || c == '\u{205f}' || c == '\u{3000}'
}

/// Whether `c` is one of the ten ASCII decimal digits.
pub open spec fn is_digit(c: char) -> bool {
    '0' <= c && c <= '9'
}

/// Whether `c` is an ASCII letter.
pub open spec fn is_ascii_letter(c: char) -> bool {
    ('a' <= c && c <= 'z') || ('A' <= c && c <= 'Z')
}

/// What `char::is_alphabetic` answers for `c`.
pub uninterp spec fn alphabetic(c: char) -> bool;

/// Whether `c` is a letter: an ASCII letter, or a non-ASCII alphabetic character.
pub open spec fn is_letter(c: char) -> bool {
    if (c as u32) < 128 {
        is_ascii_letter(c)
    } else {
        alphabetic(c)
    }
}

/// Whether `c` continues a run of the given class (letters or digits).
pub open spec fn in_class(c: char, letters: bool) -> bool {
    if letters {
        is_letter(c) && !is_space(c)
    } else {
        is_digit(c)
    }
}

/// `c` folded to ASCII upper case.
pub open spec fn upper(c: char) -> char {
    if 'a' <= c && c <= 'z' {
        ((c as u32) - 32) as char
    } else {
        c
    }
}

/// `s` with every character folded to ASCII upper case.
pub open spec fn upper_seq(s: Seq<char>) -> Seq<char> {
    s.map_values(|c: char| upper(c))
}

/// The end of the run of class `letters` that starts at `i`.
pub open spec fn run_end(s: Seq<char>, i: int, letters: bool) -> int
    decreases s.len() - i,
{
    if 0 <= i < s.len() && in_class(s[i], letters) {
        run_end(s, i + 1, letters)
    } else {
        i
    }
}

/// The end of the term that starts at the non-space character `s[i]`.
pub open spec fn term_end(s: Seq<char>, i: int) -> int {
    if is_digit(s[i]) {
        run_end(s, i + 1, false)
    } else if is_letter(s[i]) {
        run_end(s, i + 1, true)
    } else {
        i + 1
    }
}

/// The terms of `s` from position `i` on.
pub open spec fn lex_from(s: Seq<char>, i: int) -> Seq<Seq<char>>
    decreases s.len() - i
    via lex_from_decreases
{
    if i < 0 || i >= s.len() {
        seq![]
    } else if is_space(s[i]) {
        lex_from(s, i + 1)
    } else {
        let j = term_end(s, i);
        seq![upper_seq(s.subrange(i, j))] + lex_from(s, j)
    }
}

/// The terms of `s`, in order.
pub open spec fn lex(s: Seq<char>) -> Seq<Seq<char>> {
    lex_from(s, 0)
}

/// The characters of `s` from `i` on that are not whitespace, folded to upper case.
pub open spec fn visible_from(s: Seq<char>, i: int) -> Seq<char>
    decreases s.len() - i,
{
    if i < 0 || i >= s.len() {
        seq![]
    } else if is_space(s[i]) {
        visible_from(s, i + 1)
    } else {
        seq![upper(s[i])] + visible_from(s, i + 1)
    }
}

pub proof fn lemma_run_end_bounds(s: Seq<char>, i: int, letters: bool)
    requires
        0 <= i <= s.len(),
    ensures
        i <= run_end(s, i, letters) <= s.len(),
        forall|k: int| i <= k < run_end(s, i, letters) ==> in_class(#[trigger] s[k], letters),
    decreases s.len() - i,
{
    if i < s.len() && in_class(s[i], letters) {
        lemma_run_end_bounds(s, i + 1, letters);
    }
}

pub proof fn lemma_term_end_bounds(s: Seq<char>, i: int)
    requires
        0 <= i < s.len(),
    ensures
        i < term_end(s, i) <= s.len(),
{
    lemma_run_end_bounds(s, i + 1, false);
    lemma_run_end_bounds(s, i + 1, true);
}

#[via_fn]
proof fn lex_from_decreases(s: Seq<char>, i: int) {
    if 0 <= i < s.len() {
        lemma_term_end_bounds(s, i);
    }
}

/// Relies on `char::is_alphabetic`: whether `c` has the Unicode `Alphabetic` property.
#[verifier::external_body]
fn char_is_alphabetic(c: char) -> (r: bool)
    ensures
        r == alphabetic(c),
{
    c.is_alphabetic()
}

/// Relies on `String`'s `FromIterator<char>`: the string holds the characters in order.
#[verifier::external_body]
pub(crate) fn string_of_chars(cs: &[char]) -> (r: String)
    ensures
        r@ == cs@,
{
    cs.iter().collect()
}

pub fn is_whitespace(c: char) -> (r: bool)
    ensures
        r == is_space(c),
{
    ('\u{9}' <= c && c <= '\u{d}') || c == ' ' || c == '\u{85}' || c == '\u{a0}'
        || c == '\u{1680}' || ('\u{2000}' <= c && c <= '\u{200a}') || c == '\u{2028}'
        || c == '\u{2029}' || c == '\u{202f}' || c == '\u{205f}' || c == '\u{3000}'
}

pub fn is_letter_char(c: char) -> (r: bool)
    ensures
        r == is_letter(c),
{
    if 'a' <= c && c <= 'z' || 'A' <= c && c <= 'Z' {
        true
    } else if (c as u32) < 128 {
        false
    } else {
        char_is_alphabetic(c)
    }
}

pub fn to_upper(c: char) -> (r: char)
    ensures
        r == upper(c),
{
    if 'a' <= c && c <= 'z' {
        ((c as u8) - 32) as char
    } else {
        c
    }
}


pub fn is_digit_char(c: char) -> (r: bool)
    ensures
        r == is_digit(c),
{
    '0' <= c && c <= '9'
}

fn in_class_char(c: char, letters: bool) -> (r: bool)
    ensures
        r == in_class(c, letters),
{
    if letters {
        is_letter_char(c) && !is_whitespace(c)
    } else {
        is_digit_char(c)
    }
}

/// The end of the term that starts at `content[i]`, which is not whitespace.
fn find_term_end(content: &[char], i: usize) -> (j: usize)
    requires
        i < content@.len(),
        !is_space(content@[i as int]),
    ensures
        j == term_end(content@, i as int),
{
    let c = content[i];
    let digits = is_digit_char(c);
    if digits || is_letter_char(c) {
        let letters = !digits;
        let mut j: usize = i + 1;
        while j < content.len() && in_class_char(content[j], letters)
            invariant
                i + 1 <= j <= content@.len(),
                run_end(content@, j as int, letters) == run_end(content@, i + 1, letters),
            decreases content@.len() - j,
        {
            j = j + 1;
        }
        j
    } else {
        i + 1
    }
}

/// The terms of `content`, in order: runs of digits, runs of letters folded to
/// upper case, and single characters of other kinds; whitespace is dropped.
pub fn tokenize(content: &[char]) -> (r: Vec<String>)
    ensures
        r@.map_values(|t: String| t@) == lex(content@),
{
    let mut out: Vec<String> = Vec::new();
    let mut i: usize = 0;
    while i < content.len()
        invariant
            i <= content@.len(),
            lex(content@) == out@.map_values(|t: String| t@) + lex_from(content@, i as int),
        decreases content@.len() - i,
    {
        let c = content[i];
        if is_whitespace(c) {
            i = i + 1;
        } else {
            let j = find_term_end(content, i);
            proof {
                lemma_term_end_bounds(content@, i as int);
            }
            let mut term: Vec<char> = Vec::new();
            let mut k: usize = i;
            while k < j
                invariant
                    i <= k <= j <= content@.len(),
                    term@ == upper_seq(content@.subrange(i as int, k as int)),
                decreases j - k,
            {
                term.push(to_upper(content[k]));
                k = k + 1;
                assert(term@ =~= upper_seq(content@.subrange(i as int, k as int)));
            }
            let t = string_of_chars(term.as_slice());
            let ghost before = out@.map_values(|t: String| t@);
            out.push(t);
            assert(out@.map_values(|t: String| t@) =~= before.push(t@));
            assert(lex_from(content@, i as int) == seq![t@] + lex_from(content@, j as int));
            assert(before.push(t@) + lex_from(content@, j as int) =~= before + (seq![t@]
                + lex_from(content@, j as int)));
            i = j;
        }
    }
    assert(lex_from(content@, i as int) =~= seq![]);
    assert(out@.map_values(|t: String| t@) + seq![] =~= out@.map_values(|t: String| t@));
    out
}

proof fn lemma_visible_run(s: Seq<char>, i: int, j: int)
    requires
        0 <= i <= j <= s.len(),
        forall|k: int| i <= k < j ==> !is_space(#[trigger] s[k]),
    ensures
        visible_from(s, i) == upper_seq(s.subrange(i, j)) + visible_from(s, j),
    decreases j - i,
{
    if i < j {
        lemma_visible_run(s, i + 1, j);
        assert(upper_seq(s.subrange(i, j)) =~= seq![upper(s[i])] + upper_seq(
            s.subrange(i + 1, j),
        ));
        assert(visible_from(s, i) =~= upper_seq(s.subrange(i, j)) + visible_from(s, j));
    } else {
        assert(upper_seq(s.subrange(i, j)) =~= seq![]);
        assert(visible_from(s, i) =~= upper_seq(s.subrange(i, j)) + visible_from(s, j));
    }
}

proof fn lemma_lex_from_covers(s: Seq<char>, i: int)
    requires
        0 <= i <= s.len(),
    ensures
        lex_from(s, i).flatten() == visible_from(s, i),
    decreases s.len() - i,
{
    if i < s.len() {
        if is_space(s[i]) {
            lemma_lex_from_covers(s, i + 1);
        } else {
            let j = term_end(s, i);
            lemma_term_end_bounds(s, i);
            lemma_run_end_bounds(s, i + 1, false);
            lemma_run_end_bounds(s, i + 1, true);
            lemma_lex_from_covers(s, j);
            lemma_visible_run(s, i, j);
            let t = upper_seq(s.subrange(i, j));
            let rest = lex_from(s, j);
            assert((seq![t] + rest).drop_first() =~= rest);
            assert((seq![t] + rest).flatten() == t + rest.flatten());
        }
    } else {
        assert(lex_from(s, i) =~= seq![]);
    }
}

/// Every character of `s` but whitespace lands in exactly one term, in order:
/// the terms, joined, are the non-whitespace characters of `s` folded to upper case.
pub proof fn lemma_tokens_cover_input(s: Seq<char>)
    ensures
        lex(s).flatten() == visible_from(s, 0),
{
    lemma_lex_from_covers(s, 0);
}

proof fn lemma_upper_char(c: char)
    ensures
        is_space(upper(c)) == is_space(c),
        is_digit(upper(c)) == is_digit(c),
        is_letter(upper(c)) == is_letter(c),
        upper(upper(c)) == upper(c),
{
}

proof fn lemma_run_end_upper(s: Seq<char>, i: int, letters: bool)
    requires
        0 <= i <= s.len(),
    ensures
        run_end(upper_seq(s), i, letters) == run_end(s, i, letters),
    decreases s.len() - i,
{
    if i < s.len() {
        lemma_upper_char(s[i]);
        lemma_run_end_upper(s, i + 1, letters);
    }
}

proof fn lemma_lex_from_upper(s: Seq<char>, i: int)
    requires
        0 <= i <= s.len(),
    ensures
        lex_from(upper_seq(s), i) == lex_from(s, i),
    decreases s.len() - i,
{
    let u = upper_seq(s);
    if i < s.len() {
        lemma_upper_char(s[i]);
        if is_space(s[i]) {
            lemma_lex_from_upper(s, i + 1);
        } else {
            lemma_run_end_upper(s, i + 1, false);
            lemma_run_end_upper(s, i + 1, true);
            let j = term_end(s, i);
            lemma_term_end_bounds(s, i);
            assert(term_end(u, i) == j);
            lemma_lex_from_upper(s, j);
            assert forall|k: int| 0 <= k < j - i implies #[trigger] upper_seq(u.subrange(i, j))[k]
                == upper_seq(s.subrange(i, j))[k] by {
                lemma_upper_char(s[i + k]);
            }
            assert(upper_seq(u.subrange(i, j)) =~= upper_seq(s.subrange(i, j)));
        }
    }
}

/// Folding the input to upper case first changes none of its terms.
pub proof fn lemma_tokens_ignore_case(s: Seq<char>)
    ensures
        lex(upper_seq(s)) == lex(s),
{
    lemma_lex_from_upper(s, 0);
}

} // verus!

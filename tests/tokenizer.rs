use local_search::lexer::{is_letter_char, is_whitespace, to_upper, tokenize};

fn chars(s: &str) -> Vec<char> {
    s.chars().collect()
}

fn terms(s: &str) -> Vec<String> {
    tokenize(&chars(s))
}

#[test]
fn letters_are_folded_to_upper_case() {
    assert_eq!(terms("the Quick brown"), vec!["THE", "QUICK", "BROWN"]);
}

#[test]
fn digits_form_their_own_terms() {
    assert_eq!(terms("abc123def 42"), vec!["ABC", "123", "DEF", "42"]);
}

#[test]
fn other_characters_are_single_terms() {
    assert_eq!(terms("a+b, c!"), vec!["A", "+", "B", ",", "C", "!"]);
}

#[test]
fn whitespace_only_gives_no_terms() {
    assert!(terms("").is_empty());
    assert!(terms("   \t\n  ").is_empty());
}

#[test]
fn non_ascii_letters_join_a_run() {
    assert_eq!(terms("café au lait"), vec!["CAFé", "AU", "LAIT"]);
}

#[test]
fn unicode_spaces_separate_terms() {
    assert_eq!(terms("a\u{00a0}b\u{3000}c"), vec!["A", "B", "C"]);
}

#[test]
fn terms_cover_every_visible_character() {
    let input = " Hello, world 2024! ";
    let joined: String = terms(input).concat();
    let visible: String = input.chars().filter(|c| !c.is_whitespace()).map(|c| c.to_ascii_uppercase()).collect();
    assert_eq!(joined, visible);
}

#[test]
fn upper_casing_the_input_changes_no_term() {
    let input = "Mixed CASE text, with 3 numbers";
    assert_eq!(terms(input), terms(&input.to_ascii_uppercase()));
}

#[test]
fn tokenizing_twice_gives_the_same_terms() {
    let input = "same input, same terms";
    assert_eq!(terms(input), terms(input));
}

#[test]
fn character_classes() {
    assert!(is_whitespace(' '));
    assert!(is_whitespace('\u{2028}'));
    assert!(!is_whitespace('x'));
    assert!(is_letter_char('z'));
    assert!(is_letter_char('é'));
    assert!(!is_letter_char('1'));
    assert_eq!(to_upper('q'), 'Q');
    assert_eq!(to_upper('Q'), 'Q');
    assert_eq!(to_upper('é'), 'é');
}

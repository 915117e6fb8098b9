use fasttextaug::doc::Doc;
use fasttextaug::token::{ChangeLog, Token, TokenHandler, TokenType};

fn handlers_of(doc: &Doc) -> Vec<&TokenHandler> {
    (0..doc.len()).map(|i| doc.handler(i)).collect()
}

fn check_tokenize(input: &str, expected: Vec<TokenHandler>, words: usize, words_and_symbols: usize) {
    let input_str = String::from(input);
    assert_eq!(Doc::tokenize(&input_str), expected);
    let doc = Doc::new(&input_str);
    let expected_refs: Vec<&TokenHandler> = expected.iter().collect();
    assert_eq!(handlers_of(&doc), expected_refs);
    assert_eq!(doc.get_word_tokens_with_indexes(false).len(), words);
    assert_eq!(doc.get_word_tokens_with_indexes(true).len(), words_and_symbols);
}

fn w(s: &str) -> TokenHandler {
    TokenHandler::new(TokenType::WordToken, String::from(s))
}

fn sp(s: &str) -> TokenHandler {
    TokenHandler::new(TokenType::SpaceToken, String::from(s))
}

fn sy(s: &str) -> TokenHandler {
    TokenHandler::new(TokenType::SpecSymbolToken, String::from(s))
}

#[test]
fn test_tokenize() {
    check_tokenize(
        "My example sentence?!. ",
        vec![w("My"), sp(" "), w("example"), sp(" "), w("sentence"), sy("?"), sy("!"), sy("."), sp(" ")],
        3,
        6,
    );
}

#[test]
fn test_tokenize_cyrillic() {
    check_tokenize(
        "Пр0веряем раб0ту с кирилицей! .",
        vec![
            w("Пр0веряем"),
            sp(" "),
            w("раб0ту"),
            sp(" "),
            w("с"),
            sp(" "),
            w("кирилицей"),
            sy("!"),
            sp(" "),
            sy("."),
        ],
        4,
        6,
    );
}

#[test]
fn test_tokenize_one_more() {
    check_tokenize("Create tokens", vec![w("Create"), sp(" "), w("tokens")], 2, 2);
}

#[test]
fn test_tokenize_one_more_cyrillic() {
    check_tokenize("Делаем токены", vec![w("Делаем"), sp(" "), w("токены")], 2, 2);
}

#[test]
fn test_tokenize_one_word() {
    check_tokenize("example", vec![w("example")], 1, 1);
}

#[test]
fn test_tokenize_only_spec() {
    check_tokenize("!@#", vec![sy("!"), sy("@"), sy("#")], 0, 3);
}

#[test]
fn test_tokenize_spaces() {
    check_tokenize("   ", vec![sp(" "), sp(" "), sp(" ")], 0, 0);
}

#[test]
fn test_tokenize_empty() {
    check_tokenize("", vec![], 0, 0);
}

#[test]
fn test_tokenize_tab_and_newline_are_spaces() {
    check_tokenize("a\tb\n", vec![w("a"), sp("\t"), w("b"), sp("\n")], 2, 2);
}

#[test]
fn test_concatenate_tokens() {
    let input_handlers = vec![w("My"), sp(" "), w("example"), sp(" "), w("sentence"), sy("?"), sy("!"), sy("."), sp(" ")];
    let result = Doc::from_handlers(input_handlers).get_augmented_string();
    assert_eq!(result, String::from("My example sentence?!. "));
}

#[test]
fn test_concatenate_one_token() {
    assert_eq!(Doc::from_handlers(vec![w("example")]).get_augmented_string(), String::from("example"));
}

#[test]
fn test_concatenate_one_space_token() {
    assert_eq!(Doc::from_handlers(vec![sp(" ")]).get_augmented_string(), String::from(" "));
}

#[test]
fn test_concatenate_zero_token() {
    assert_eq!(Doc::from_handlers(vec![sp("")]).get_augmented_string(), String::from(""));
}

#[test]
fn test_concatenate_empty_vec() {
    assert_eq!(Doc::from_handlers(vec![]).get_augmented_string(), String::from(""));
}

#[test]
fn test_concatenate_tokens_cyrillic() {
    let input_handlers = vec![w("Этот"), sp(" "), w("пр1мер"), sp(" "), w("раб0тает"), sy("?"), sy("!")];
    let result = Doc::from_handlers(input_handlers).get_augmented_string();
    assert_eq!(result, String::from("Этот пр1мер раб0тает?!"));
}

#[test]
fn test_dont_add_change_in_token_handler() {
    let doc = Doc::new(&String::from("Test example!"));
    assert_eq!(doc.get_changed_count(), 0);
    assert_eq!(doc.get_augmented_string(), String::from("Test example!"))
}

#[test]
fn test_round_trip_of_original_tokens() {
    for input in ["", "a", "Hello, world!  ", "Пр0веряем раб0ту\tс кирилицей!", "!!..  x1y2"] {
        let doc = Doc::new(&String::from(input));
        let joined: String = doc.get_original_tokens().iter().map(|t| t.token().as_str()).collect();
        assert_eq!(joined, input);
    }
}

#[test]
fn test_swap_by_index_and_out_of_range() {
    let mut doc = Doc::new(&String::from("ab cd"));
    doc.perform_swap_by_idx(0, 2);
    assert_eq!(doc.get_augmented_string(), "cd ab");
    doc.perform_swap_by_idx(0, 7);
    assert_eq!(doc.get_augmented_string(), "cd ab");
    assert_eq!(doc.get_word_indexes(false), vec![0, 2]);
    assert_eq!(doc.get_word_tokens_count(true), 2);
}

#[test]
fn test_change_and_reset() {
    let mut doc = Doc::new(&String::from("ab cd!"));
    doc.change_token(2, TokenType::WordToken, String::from("xyz"));
    doc.set_change_count(1);
    assert_eq!(doc.get_augmented_string(), "ab xyz!");
    assert_eq!(doc.get_changed_count(), 1);
    doc.set_to_original();
    assert_eq!(doc.get_augmented_string(), "ab cd!");
    assert_eq!(doc.get_changed_count(), 0);
}

#[test]
fn test_char_len_en() {
    let token = Token::new(TokenType::WordToken, String::from("hello"));
    assert_eq!(token.utf8_len(), 5);
    assert_eq!(token.byte_len(), 5);
}

#[test]
fn test_char_len_ru() {
    let token = Token::new(TokenType::WordToken, String::from("привет"));
    assert_eq!(token.utf8_len(), 6);
    assert_eq!(token.byte_len(), 12);
}

#[test]
fn test_token_handler_on_create() {
    let th = TokenHandler::new(TokenType::WordToken, String::from("old"));
    assert!(!th.is_changed());
    assert_eq!(th.get_latest().token(), "old");
}

#[test]
fn test_token_handler_on_change() {
    let mut th = TokenHandler::new(TokenType::WordToken, String::from("old"));
    th.change(TokenType::WordToken, String::from("new"));
    assert!(th.is_changed());
    assert_eq!(th.get_latest().token(), "new");
    th.set_to_original();
    assert_eq!(th.get_latest().token(), "old");
}

#[test]
fn test_change_log_on_create() {
    let log = ChangeLog::new(TokenType::WordToken, String::from("old"), None);
    assert!(!log.is_changed());
    assert_eq!(log.get_logs().len(), 0);
    assert_eq!(log.get_latest().token(), "old");
}

#[test]
fn test_change_log_on_change() {
    let mut log = ChangeLog::new(TokenType::WordToken, String::from("old"), None);
    log.add_change(TokenType::WordToken, String::from("new"), 1);
    assert!(log.is_changed());
    assert_eq!(log.get_logs().len(), 1);
    assert_eq!(log.get_latest().token(), "new");
}

use ripparallel::command::{parse_command, pre_parse_command, CommandIterator};
use ripparallel::tokenize::Token;

fn lit(s: &str) -> Token {
    Token::Literal(s.to_string())
}

#[test]
fn template_with_one_slot() {
    assert_eq!(
        Token::get_tokens("echo {}".to_string(), false),
        vec![lit("echo "), Token::Substitute]
    );
}

#[test]
fn literal_around_slots() {
    assert_eq!(
        Token::get_tokens("a{}b{x}c".to_string(), false),
        vec![lit("a"), Token::Substitute, lit("b"), Token::Substitute, lit("c")]
    );
}

#[test]
fn unclosed_bracket_is_literal() {
    assert_eq!(
        Token::get_tokens("echo {abc".to_string(), false),
        vec![lit("echo "), lit("{abc")]
    );
    assert_eq!(Token::get_tokens("{".to_string(), false), vec![lit("{")]);
}

#[test]
fn empty_template_has_no_tokens() {
    assert_eq!(Token::get_tokens(String::new(), false), Vec::<Token>::new());
    assert_eq!(Token::get_tokens(String::new(), true), Vec::<Token>::new());
}

#[test]
fn nul_character_ends_the_template() {
    assert_eq!(Token::get_tokens("ab\0cd".to_string(), false), vec![lit("ab")]);
}

#[test]
fn non_ascii_text_is_kept_whole() {
    assert_eq!(
        Token::get_tokens("é{}ü".to_string(), false),
        vec![lit("é"), Token::Substitute, lit("ü")]
    );
}

#[test]
fn quotes_close_and_reopen_around_later_slots() {
    assert_eq!(
        Token::get_tokens("a {} b {} c".to_string(), true),
        vec![lit("a "), Token::Substitute, lit(" b '"), lit("' c")]
    );
    assert_eq!(
        Token::get_tokens("echo {} x".to_string(), true),
        vec![lit("echo "), Token::Substitute, lit(" x")]
    );
}

#[test]
fn quotes_keep_a_literal_already_quoted() {
    assert_eq!(
        Token::get_tokens("a {} b'{}".to_string(), true),
        vec![lit("a "), Token::Substitute, lit(" b'")]
    );
}

#[test]
fn command_iterator_joins_words_with_spaces() {
    let words = vec!["ab".to_string(), "".to_string(), "c".to_string()];
    let mut it = CommandIterator::from_vec(&words);
    let mut out = String::new();
    while let Some(c) = it.next() {
        out.push(c);
    }
    assert_eq!(out, "ab  c");

    let one = vec!["xyz".to_string()];
    let mut it = CommandIterator::from_vec(&one);
    assert_eq!(it.next(), Some('x'));
    assert_eq!(it.next(), Some('y'));
    assert_eq!(it.next(), Some('z'));
    assert_eq!(it.next(), None);

    let none: Vec<String> = Vec::new();
    assert_eq!(CommandIterator::from_vec(&none).next(), None);
}

#[test]
fn template_without_slot_gets_one_at_the_end() {
    assert_eq!(
        pre_parse_command(&vec!["echo".to_string(), "hi".to_string()], false),
        vec![lit("echo hi "), Token::Substitute]
    );
    assert_eq!(pre_parse_command(&Vec::new(), false), vec![Token::Substitute]);
}

#[test]
fn template_with_slot_is_kept() {
    assert_eq!(
        pre_parse_command(&vec!["echo".to_string(), "{}".to_string(), "!".to_string()], false),
        vec![lit("echo "), Token::Substitute, lit(" !")]
    );
    assert_eq!(pre_parse_command(&vec!["{}".to_string()], false), vec![Token::Substitute]);
}

#[test]
fn command_fills_every_slot() {
    let tokens = vec![lit("cp "), Token::Substitute, lit(" "), Token::Substitute, lit(".bak")];
    assert_eq!(parse_command(&tokens, "f".to_string()), "cp f f.bak");
}

#[test]
fn command_without_slot_appends_the_line() {
    assert_eq!(parse_command(&vec![lit("ls")], "dir".to_string()), "ls dir");
    assert_eq!(parse_command(&Vec::new(), "x".to_string()), " x");
}

use scanner::CharacterStream;
use scanner::KeywordType;
use scanner::Scanner;
use scanner::Token;

#[test]
fn stream_reads_characters_in_order() {
    let mut cs = CharacterStream::new("ab");
    assert!(!cs.is_eof());
    assert!(cs.check_bounds());
    assert_eq!(cs.current_char(), 'a');
    assert_eq!(cs.next_char(), Some('b'));
    cs.advance_by(1);
    assert_eq!(cs.current_char(), 'b');
    assert_eq!(cs.next_char(), None);
    cs.advance_by(1);
    assert!(cs.is_eof());
    assert!(!cs.check_bounds());
}

#[test]
fn stream_on_empty_text_starts_at_end() {
    let cs = CharacterStream::new("");
    assert!(cs.is_eof());
    assert!(!cs.check_bounds());
    assert_eq!(cs.next_char(), None);
}

#[test]
fn stream_skips_maximal_whitespace_run() {
    let mut cs = CharacterStream::new(" \t\n\r x ");
    cs.skip_whitespace();
    assert_eq!(cs.current_char(), 'x');
    cs.advance_by(1);
    cs.skip_whitespace();
    assert!(cs.is_eof());
}

#[test]
fn skip_whitespace_leaves_non_whitespace_alone() {
    let mut cs = CharacterStream::new("y z");
    cs.skip_whitespace();
    assert_eq!(cs.current_char(), 'y');
}

#[test]
fn next_token_walks_the_sequence_once() {
    let mut scanner = Scanner::new("int x");
    assert_eq!(
        scanner.next_token(),
        Some(&Token::Keyword(KeywordType::Int))
    );
    assert_eq!(scanner.next_token(), Some(&Token::Id("x".to_string())));
    assert_eq!(scanner.next_token(), Some(&Token::Eof));
    assert_eq!(scanner.next_token(), None);
    assert_eq!(scanner.next_token(), None);
}

#[test]
fn tokens_and_next_token_agree() {
    let mut scanner = Scanner::new("a = 1;");
    let all: Vec<Token> = scanner.tokens().to_vec();
    let mut walked: Vec<Token> = Vec::new();
    while let Some(token) = scanner.next_token() {
        walked.push(token.clone());
    }
    assert_eq!(walked, all);
}

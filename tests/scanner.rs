use turtle_lexer::error::Error;
use turtle_lexer::keywords::lookup_keyword;
use turtle_lexer::scanner::{scan, Scanner};
use turtle_lexer::token::{Token, TokenType};

fn summary(tokens: &[Token]) -> Vec<(TokenType, String, u32, u32)> {
    tokens
        .iter()
        .map(|t| (t.token_type(), t.lexeme().to_string(), t.line(), t.column()))
        .collect()
}

fn error_summary(errors: &[Error]) -> Vec<(String, u32, u32)> {
    errors
        .iter()
        .map(|e| (e.get_message(), e.get_line(), e.get_column()))
        .collect()
}

fn tok(kind: TokenType, lexeme: &str, line: u32, column: u32) -> (TokenType, String, u32, u32) {
    (kind, lexeme.to_string(), line, column)
}

#[test]
fn test1() {
    let input = String::from("PenDown\nForward \"100 ");
    let mut scanner = Scanner::new(input.clone());
    scanner.scan();
    assert_eq!(
        summary(scanner.tokens()),
        vec![
            tok(TokenType::PenDown, "PenDown", 1, 1),
            tok(TokenType::Forward, "Forward", 2, 1),
            tok(TokenType::Value, "\"100", 2, 9),
        ]
    );
    assert!(!scanner.has_errors());
}

#[test]
fn ignores_comments() {
    let input = String::from("PenDown\n//hello world\nForward \"100");
    let mut scanner = Scanner::new(input.clone());
    scanner.scan();
    assert_eq!(
        summary(scanner.tokens()),
        vec![
            tok(TokenType::PenDown, "PenDown", 1, 1),
            tok(TokenType::Forward, "Forward", 3, 1),
            tok(TokenType::Value, "\"100", 3, 9),
        ]
    );
    assert!(scanner.errors().is_empty());
}

#[test]
fn newline_moves_to_next_line() {
    let (tokens, errors) = scan(String::from("PenDown\nForward \"100"));
    assert_eq!(
        summary(&tokens),
        vec![
            tok(TokenType::PenDown, "PenDown", 1, 1),
            tok(TokenType::Forward, "Forward", 2, 1),
            tok(TokenType::Value, "\"100", 2, 9),
        ]
    );
    assert!(errors.is_empty());
}

#[test]
fn unknown_keyword_is_reported_and_scanning_goes_on() {
    let (tokens, errors) = scan(String::from("Zzz Forward \"1"));
    assert_eq!(
        error_summary(&errors),
        vec![(String::from("keyword doesn't exist: Zzz"), 1, 1)]
    );
    assert_eq!(
        summary(&tokens),
        vec![
            tok(TokenType::Forward, "Forward", 1, 5),
            tok(TokenType::Value, "\"1", 1, 13),
        ]
    );
}

#[test]
fn identifier_keeps_its_colon() {
    let (tokens, errors) = scan(String::from(":count"));
    assert_eq!(summary(&tokens), vec![tok(TokenType::Identifier, ":count", 1, 1)]);
    assert!(errors.is_empty());
}

#[test]
fn two_scanners_agree() {
    let source = "Make :x \"5\nIf :x EQ \"5 # Zzz\n// note\nForward + - * / \"3";
    let mut first = Scanner::new(String::from(source));
    first.scan();
    let mut second = Scanner::new(String::from(source));
    second.scan();
    assert_eq!(summary(first.tokens()), summary(second.tokens()));
    assert_eq!(error_summary(first.errors()), error_summary(second.errors()));
    assert_eq!(first.tokens().len(), 13);
    assert_eq!(first.errors().len(), 2);
}

#[test]
fn scanning_again_gives_the_same_result() {
    let mut scanner = Scanner::new(String::from("PenUp ? Back"));
    scanner.scan();
    let once = (summary(scanner.tokens()), error_summary(scanner.errors()));
    scanner.scan();
    assert_eq!(once, (summary(scanner.tokens()), error_summary(scanner.errors())));
}

#[test]
fn keywords_separated_by_spaces() {
    let words = [
        "PenUp", "PenDown", "Forward", "Back", "Left", "Right", "SetPenColour", "Turn",
        "SetHeading", "SetX", "SetY", "Make", "AddAssign", "XCor", "YCor", "Heading", "Colour",
        "If", "While", "EQ", "NE", "GT", "LT", "AND", "OR",
    ];
    let (tokens, errors) = scan(words.join(" "));
    assert!(errors.is_empty());
    assert_eq!(tokens.len(), words.len());
    let mut column = 1u32;
    for (token, word) in tokens.iter().zip(words.iter()) {
        assert_eq!(token.lexeme(), *word);
        assert_eq!(Some(token.token_type()), lookup_keyword(word));
        assert_eq!(token.line(), 1);
        assert_eq!(token.column(), column);
        column += word.len() as u32 + 1;
    }
    assert_eq!(tokens[19].token_type(), TokenType::Eq);
    assert_eq!(tokens[24].token_type(), TokenType::Or);
}

#[test]
fn spans_follow_source_order() {
    let source = "Forward \"10\n:a+:b -- SetX\"4";
    let (tokens, _errors) = scan(String::from(source));
    let chars: Vec<char> = source.chars().collect();
    let mut offset = 0usize;
    for token in &tokens {
        let lexeme: Vec<char> = token.lexeme().chars().collect();
        assert!(!lexeme.is_empty());
        let found = (offset..chars.len())
            .find(|&i| chars[i..].starts_with(&lexeme))
            .expect("lexeme not found after the previous one");
        offset = found + lexeme.len();
    }
    assert_eq!(
        summary(&tokens),
        vec![
            tok(TokenType::Forward, "Forward", 1, 1),
            tok(TokenType::Value, "\"10", 1, 9),
            tok(TokenType::Identifier, ":a+:b", 2, 1),
            tok(TokenType::Minus, "-", 2, 7),
            tok(TokenType::Minus, "-", 2, 8),
        ]
    );
}

#[test]
fn run_ends_only_at_space_or_newline() {
    let (tokens, errors) = scan(String::from("SetX\"4"));
    assert!(tokens.is_empty());
    assert_eq!(
        error_summary(&errors),
        vec![(String::from("keyword doesn't exist: SetX\"4"), 1, 1)]
    );
}

#[test]
fn operators_are_single_characters() {
    let (tokens, errors) = scan(String::from("+-* /"));
    assert!(errors.is_empty());
    assert_eq!(
        summary(&tokens),
        vec![
            tok(TokenType::Plus, "+", 1, 1),
            tok(TokenType::Minus, "-", 1, 2),
            tok(TokenType::Star, "*", 1, 3),
            tok(TokenType::Slash, "/", 1, 5),
        ]
    );
}

#[test]
fn slash_at_end_of_input() {
    let (tokens, errors) = scan(String::from("Turn /"));
    assert!(errors.is_empty());
    assert_eq!(
        summary(&tokens),
        vec![tok(TokenType::Turn, "Turn", 1, 1), tok(TokenType::Slash, "/", 1, 6)]
    );
}

#[test]
fn comment_at_end_of_input() {
    let (tokens, errors) = scan(String::from("Left // to the end"));
    assert!(errors.is_empty());
    assert_eq!(summary(&tokens), vec![tok(TokenType::Left, "Left", 1, 1)]);
}

#[test]
fn comment_keeps_columns_on_its_line() {
    let (tokens, _) = scan(String::from("//c\n\n  Right"));
    assert_eq!(summary(&tokens), vec![tok(TokenType::Right, "Right", 3, 3)]);
}

#[test]
fn unrecognized_character_is_reported() {
    let (tokens, errors) = scan(String::from("Back # 7"));
    assert_eq!(summary(&tokens), vec![tok(TokenType::Back, "Back", 1, 1)]);
    assert_eq!(
        error_summary(&errors),
        vec![
            (String::from("unrecognized character: #"), 1, 6),
            (String::from("unrecognized character: 7"), 1, 8),
        ]
    );
}

#[test]
fn non_ascii_character_is_reported() {
    let (tokens, errors) = scan(String::from("é Back"));
    assert_eq!(summary(&tokens), vec![tok(TokenType::Back, "Back", 1, 3)]);
    assert_eq!(
        error_summary(&errors),
        vec![(String::from("unrecognized character: é"), 1, 1)]
    );
}

#[test]
fn keywords_are_case_sensitive() {
    let (tokens, errors) = scan(String::from("penup PENUP PenUp"));
    assert_eq!(summary(&tokens), vec![tok(TokenType::PenUp, "PenUp", 1, 13)]);
    assert_eq!(
        error_summary(&errors),
        vec![
            (String::from("keyword doesn't exist: penup"), 1, 1),
            (String::from("keyword doesn't exist: PENUP"), 1, 7),
        ]
    );
}

#[test]
fn empty_input_gives_nothing() {
    let (tokens, errors) = scan(String::new());
    assert!(tokens.is_empty());
    assert!(errors.is_empty());
}

#[test]
fn last_lexeme_without_delimiter() {
    let (tokens, errors) = scan(String::from("SetY :y"));
    assert!(errors.is_empty());
    assert_eq!(
        summary(&tokens),
        vec![tok(TokenType::SetY, "SetY", 1, 1), tok(TokenType::Identifier, ":y", 1, 6)]
    );
}

#[test]
fn lone_quote_is_a_value() {
    let (tokens, _) = scan(String::from("\"\n:"));
    assert_eq!(
        summary(&tokens),
        vec![tok(TokenType::Value, "\"", 1, 1), tok(TokenType::Identifier, ":", 2, 1)]
    );
}

#[test]
fn is_alphabet_accepts_ascii_letters_only() {
    assert!(Scanner::is_alphabet('a'));
    assert!(Scanner::is_alphabet('Z'));
    assert!(!Scanner::is_alphabet('1'));
    assert!(!Scanner::is_alphabet('é'));
    assert!(!Scanner::is_alphabet('_'));
}

#[test]
fn keyword_lookup_is_exact() {
    assert_eq!(lookup_keyword("While"), Some(TokenType::While));
    assert_eq!(lookup_keyword("AND"), Some(TokenType::And));
    assert_eq!(lookup_keyword("And"), None);
    assert_eq!(lookup_keyword("Whil"), None);
    assert_eq!(lookup_keyword(""), None);
}

#[test]
fn error_accessors() {
    let e = Error::new(String::from("msg"), (4, 9));
    assert_eq!(e.get_line(), 4);
    assert_eq!(e.get_column(), 9);
    assert_eq!(e.get_location(), (4, 9));
    assert_eq!(e.get_message(), "msg");
}

#[test]
fn token_positions_match_their_offsets() {
    let source = "PenUp\n  :a \"7 // c\n\nSetX +";
    let (tokens, errors) = scan(String::from(source));
    assert!(errors.is_empty());
    let chars: Vec<char> = source.chars().collect();
    let mut offset = 0usize;
    for token in &tokens {
        let lexeme: Vec<char> = token.lexeme().chars().collect();
        let found = (offset..chars.len())
            .find(|&i| chars[i..].starts_with(&lexeme))
            .expect("lexeme not found after the previous one");
        let line = 1 + chars[..found].iter().filter(|&&c| c == '\n').count() as u32;
        let line_start = chars[..found]
            .iter()
            .rposition(|&c| c == '\n')
            .map_or(0, |i| i + 1);
        let column = (found - line_start) as u32 + 1;
        assert_eq!((token.line(), token.column()), (line, column));
        offset = found + lexeme.len();
    }
    assert_eq!(tokens.len(), 5);
}

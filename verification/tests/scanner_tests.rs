use expr_compiler::chars::{is_alpha, is_digit};
use expr_compiler::scanner::{Error, ErrorKind, Scanner};
use expr_compiler::token::{Token, TokenKind};

fn scan(source: &str) -> Vec<Result<Token<'_>, Error>> {
    Scanner::new(source).scan()
}

fn tokens(source: &str) -> Vec<Token<'_>> {
    scan(source).into_iter().map(|result| result.expect("a token")).collect()
}

fn kinds(source: &str) -> Vec<TokenKind<'_>> {
    tokens(source).into_iter().map(|token| token.kind).collect()
}

fn is_blank(ch: char) -> bool {
    ch == ' ' || ch == '\r' || ch == '\t' || ch == '\n'
}

/// Walks `source` along the results of its scan: blanks, then the text of
/// each result, and returns the offset reached.
fn walk(source: &str) -> usize {
    let mut at = 0;
    for result in scan(source) {
        let blanks: usize =
            source[at..].chars().take_while(|ch| is_blank(*ch)).map(|ch| ch.len_utf8()).sum();
        at += blanks;
        let text = match &result {
            Ok(token) => token.span,
            Err(error) if error.kind == ErrorKind::UnexpectedCharacter => error.msg.as_str(),
            Err(_) => "",
        };
        assert!(source[at..].starts_with(text));
        if result.is_ok() {
            assert!(!text.is_empty());
        }
        at += text.len();
    }
    at
}

#[test]
fn empty_source_has_no_results() {
    assert!(scan("").is_empty());
}

#[test]
fn scans_structural_punctuation() {
    assert_eq!(
        kinds("(){},;$"),
        vec![
            TokenKind::LParen,
            TokenKind::RParen,
            TokenKind::LBrace,
            TokenKind::RBrace,
            TokenKind::Comma,
            TokenKind::Semicolon,
            TokenKind::Dollar,
        ]
    );
}

#[test]
fn scans_operators_and_their_compound_forms() {
    assert_eq!(
        kinds("- -= + += / /= * *= ! != = == < <= > >="),
        vec![
            TokenKind::Minus,
            TokenKind::MinusEqual,
            TokenKind::Plus,
            TokenKind::PlusEqual,
            TokenKind::Slash,
            TokenKind::DivideEqual,
            TokenKind::Star,
            TokenKind::MultiplyEqual,
            TokenKind::Bang,
            TokenKind::BangEqual,
            TokenKind::Equal,
            TokenKind::EqualEqual,
            TokenKind::Less,
            TokenKind::LessEqual,
            TokenKind::Greater,
            TokenKind::GreaterEqual,
        ]
    );
}

#[test]
fn compound_operator_takes_only_one_equal_sign() {
    assert_eq!(kinds("==="), vec![TokenKind::EqualEqual, TokenKind::Equal]);
    assert_eq!(kinds("<=="), vec![TokenKind::LessEqual, TokenKind::Equal]);
    assert_eq!(kinds("+ ="), vec![TokenKind::Plus, TokenKind::Equal]);
}

#[test]
fn operator_at_end_of_source_is_single() {
    assert_eq!(tokens("!"), vec![Token::new(TokenKind::Bang, 1, 1, "!")]);
}

#[test]
fn scans_numbers_with_their_text() {
    assert_eq!(
        tokens("12 3.25 007"),
        vec![
            Token::new(TokenKind::Number("12"), 1, 1, "12"),
            Token::new(TokenKind::Number("3.25"), 1, 4, "3.25"),
            Token::new(TokenKind::Number("007"), 1, 9, "007"),
        ]
    );
}

#[test]
fn number_text_reads_as_the_float_it_denotes() {
    let tokens = tokens("3.25");
    match tokens[0].kind {
        TokenKind::Number(text) => assert_eq!(text.parse::<f64>(), Ok(3.25)),
        other => panic!("not a number: {:?}", other),
    }
}

#[test]
fn number_takes_a_dot_only_with_digits_behind_it() {
    let results = scan("1.");
    assert_eq!(results.len(), 2);
    assert_eq!(results[0].as_ref().unwrap(), &Token::new(TokenKind::Number("1"), 1, 1, "1"));
    let error = results[1].as_ref().unwrap_err();
    assert_eq!(error.kind, ErrorKind::UnexpectedCharacter);
    assert_eq!(error.msg, ".");

    let results = scan("1.x");
    assert_eq!(results.len(), 3);
    assert_eq!(results[0].as_ref().unwrap().kind, TokenKind::Number("1"));
    assert_eq!(results[1].as_ref().unwrap_err().kind, ErrorKind::UnexpectedCharacter);
    assert_eq!(results[2].as_ref().unwrap().kind, TokenKind::Ident("x"));
}

#[test]
fn number_has_one_fraction_at_most() {
    let results = scan("1.2.3");
    assert_eq!(results.len(), 3);
    assert_eq!(results[0].as_ref().unwrap().kind, TokenKind::Number("1.2"));
    assert_eq!(results[1].as_ref().unwrap_err().msg, ".");
    assert_eq!(results[2].as_ref().unwrap().kind, TokenKind::Number("3"));
}

#[test]
fn leading_dot_is_no_number() {
    let results = scan(".5");
    assert_eq!(results.len(), 2);
    assert_eq!(results[0].as_ref().unwrap_err().kind, ErrorKind::UnexpectedCharacter);
    assert_eq!(results[1].as_ref().unwrap().kind, TokenKind::Number("5"));
}

#[test]
fn number_has_no_exponent() {
    assert_eq!(kinds("1e5"), vec![TokenKind::Number("1"), TokenKind::Ident("e5")]);
    assert_eq!(
        kinds("2.5e-3"),
        vec![
            TokenKind::Number("2.5"),
            TokenKind::Ident("e"),
            TokenKind::Minus,
            TokenKind::Number("3"),
        ]
    );
}

#[test]
fn number_ends_before_a_letter() {
    assert_eq!(kinds("12ab"), vec![TokenKind::Number("12"), TokenKind::Ident("ab")]);
}

#[test]
fn scans_identifiers() {
    assert_eq!(
        kinds("x _y a1_b2 __"),
        vec![
            TokenKind::Ident("x"),
            TokenKind::Ident("_y"),
            TokenKind::Ident("a1_b2"),
            TokenKind::Ident("__"),
        ]
    );
}

#[test]
fn folds_keywords_by_exact_match() {
    assert_eq!(
        kinds("else false if true"),
        vec![TokenKind::Else, TokenKind::False, TokenKind::If, TokenKind::True]
    );
    assert_eq!(
        kinds("elsee iff True fals tru"),
        vec![
            TokenKind::Ident("elsee"),
            TokenKind::Ident("iff"),
            TokenKind::Ident("True"),
            TokenKind::Ident("fals"),
            TokenKind::Ident("tru"),
        ]
    );
}

#[test]
fn ident_folds_keywords() {
    assert_eq!(TokenKind::ident("else"), TokenKind::Else);
    assert_eq!(TokenKind::ident("false"), TokenKind::False);
    assert_eq!(TokenKind::ident("if"), TokenKind::If);
    assert_eq!(TokenKind::ident("true"), TokenKind::True);
    assert_eq!(TokenKind::ident("truth"), TokenKind::Ident("truth"));
    assert_eq!(TokenKind::ident(""), TokenKind::Ident(""));
}

#[test]
fn token_kinds_compare_by_variant_and_text() {
    assert_eq!(TokenKind::Ident("a"), TokenKind::Ident("a"));
    assert_ne!(TokenKind::Ident("a"), TokenKind::Ident("b"));
    assert_ne!(TokenKind::Ident("1"), TokenKind::Number("1"));
    assert_eq!(TokenKind::Number("1"), TokenKind::Number("1"));
    assert_ne!(TokenKind::Number("1"), TokenKind::Number("2"));
    assert_ne!(TokenKind::Plus, TokenKind::PlusEqual);
    assert_eq!(TokenKind::If, TokenKind::If);
}

#[test]
fn token_new_keeps_its_fields() {
    let token = Token::new(TokenKind::Ident("abc"), 3, 7, "abc");
    assert_eq!(token.kind, TokenKind::Ident("abc"));
    assert_eq!(token.line, 3);
    assert_eq!(token.col, 7);
    assert_eq!(token.span, "abc");
}

#[test]
fn letters_are_alphabetic_characters_and_underscore() {
    assert!(is_alpha('a'));
    assert!(is_alpha('Z'));
    assert!(is_alpha('_'));
    assert!(is_alpha('é'));
    assert!(is_alpha('λ'));
    assert!(!is_alpha('1'));
    assert!(!is_alpha('$'));
    assert!(!is_alpha(' '));
}

#[test]
fn digits_are_the_ten_decimal_digits() {
    assert!(is_digit('0'));
    assert!(is_digit('9'));
    assert!(!is_digit('a'));
    assert!(!is_digit('/'));
    assert!(!is_digit(':'));
    assert!(!is_digit('٣'));
}

#[test]
fn identifiers_may_hold_letters_of_any_script() {
    assert_eq!(
        tokens("été + λ1"),
        vec![
            Token::new(TokenKind::Ident("été"), 1, 1, "été"),
            Token::new(TokenKind::Plus, 1, 5, "+"),
            Token::new(TokenKind::Ident("λ1"), 1, 7, "λ1"),
        ]
    );
}

#[test]
fn positions_start_at_one_and_count_characters() {
    assert_eq!(
        tokens("ab + 12"),
        vec![
            Token::new(TokenKind::Ident("ab"), 1, 1, "ab"),
            Token::new(TokenKind::Plus, 1, 4, "+"),
            Token::new(TokenKind::Number("12"), 1, 6, "12"),
        ]
    );
}

#[test]
fn newline_starts_the_next_line_at_column_one() {
    assert_eq!(
        tokens("a\nb\n\n  c"),
        vec![
            Token::new(TokenKind::Ident("a"), 1, 1, "a"),
            Token::new(TokenKind::Ident("b"), 2, 1, "b"),
            Token::new(TokenKind::Ident("c"), 4, 3, "c"),
        ]
    );
}

#[test]
fn tab_adds_four_columns_whatever_the_column() {
    assert_eq!(tokens("\tx")[0].col, 5);
    assert_eq!(tokens("a\tx")[1].col, 6);
    assert_eq!(tokens("ab\tx")[1].col, 7);
    assert_eq!(tokens("abc\tx")[1].col, 8);
    assert_eq!(tokens("abcd\tx")[1].col, 9);
    assert_eq!(tokens("\t\tx")[0].col, 9);
    assert_eq!(tokens(" \t \tx")[0].col, 11);
}

#[test]
fn carriage_return_moves_neither_line_nor_column() {
    assert_eq!(
        tokens("a\r\nb \r c"),
        vec![
            Token::new(TokenKind::Ident("a"), 1, 1, "a"),
            Token::new(TokenKind::Ident("b"), 2, 1, "b"),
            Token::new(TokenKind::Ident("c"), 2, 4, "c"),
        ]
    );
}

#[test]
fn unexpected_character_carries_the_character_and_the_position_behind_it() {
    let results = scan("a @ b");
    assert_eq!(results.len(), 3);
    assert_eq!(results[0].as_ref().unwrap(), &Token::new(TokenKind::Ident("a"), 1, 1, "a"));
    let error = results[1].as_ref().unwrap_err();
    assert_eq!(error.kind, ErrorKind::UnexpectedCharacter);
    assert_eq!(error.msg, "@");
    assert_eq!((error.line, error.col), (1, 4));
    assert_eq!(results[2].as_ref().unwrap(), &Token::new(TokenKind::Ident("b"), 1, 5, "b"));
}

#[test]
fn every_lexical_error_is_reported() {
    let results = scan("# 1 \" 2 ~");
    let errors: Vec<&str> = results
        .iter()
        .filter_map(|result| result.as_ref().err())
        .map(|error| error.msg.as_str())
        .collect();
    assert_eq!(errors, vec!["#", "\"", "~"]);
    let found: Vec<TokenKind> =
        results.iter().filter_map(|result| result.as_ref().ok()).map(|token| token.kind).collect();
    assert_eq!(found, vec![TokenKind::Number("1"), TokenKind::Number("2")]);
}

#[test]
fn trailing_blank_gives_eof_error() {
    let results = scan("1 ");
    assert_eq!(results.len(), 2);
    assert_eq!(results[0].as_ref().unwrap(), &Token::new(TokenKind::Number("1"), 1, 1, "1"));
    let error = results[1].as_ref().unwrap_err();
    assert_eq!(error.kind, ErrorKind::UnexpectedEof);
    assert_eq!(error.msg, "unexpected eof");
    assert_eq!((error.line, error.col), (1, 3));
}

#[test]
fn blank_source_gives_one_eof_error() {
    let results = scan(" \n\t");
    assert_eq!(results.len(), 1);
    let error = results[0].as_ref().unwrap_err();
    assert_eq!(error.kind, ErrorKind::UnexpectedEof);
    assert_eq!((error.line, error.col), (2, 5));
}

#[test]
fn scan_token_reads_one_lexeme_at_a_time() {
    let mut scanner = Scanner::new(" a +");
    assert_eq!(scanner.scan_token().unwrap(), Token::new(TokenKind::Ident("a"), 1, 2, "a"));
    assert_eq!(scanner.scan_token().unwrap(), Token::new(TokenKind::Plus, 1, 4, "+"));
    let error = scanner.scan_token().unwrap_err();
    assert_eq!(error.kind, ErrorKind::UnexpectedEof);
    assert_eq!((error.line, error.col), (1, 5));
    let again = scanner.scan_token().unwrap_err();
    assert_eq!(again.kind, ErrorKind::UnexpectedEof);
    assert!(scanner.scan().is_empty());
}

#[test]
fn scan_goes_on_from_where_scan_token_stopped() {
    let mut scanner = Scanner::new("a b c");
    scanner.scan_token().unwrap();
    let rest: Vec<TokenKind> =
        scanner.scan().into_iter().map(|result| result.unwrap().kind).collect();
    assert_eq!(rest, vec![TokenKind::Ident("b"), TokenKind::Ident("c")]);
}

#[test]
fn error_new_keeps_its_fields() {
    let error = Error::new(ErrorKind::UnterminatedString, "open".to_owned(), 2, 9);
    assert_eq!(error.kind, ErrorKind::UnterminatedString);
    assert_eq!(error.msg, "open");
    assert_eq!((error.line, error.col), (2, 9));
}

#[test]
fn scanning_twice_gives_the_same_results() {
    let source = "5 + 5 * 10 / $a > a($b = if (true) 13 else { $c = 10; $c }) @\n\tx";
    let first = scan(source);
    let second = scan(source);
    assert_eq!(first.len(), second.len());
    for (one, other) in first.iter().zip(second.iter()) {
        match (one, other) {
            (Ok(a), Ok(b)) => assert_eq!(a, b),
            (Err(a), Err(b)) => {
                assert_eq!(a.kind, b.kind);
                assert_eq!(a.msg, b.msg);
                assert_eq!((a.line, a.col), (b.line, b.col));
            }
            _ => panic!("a token on one side, an error on the other"),
        }
    }
}

#[test]
fn span_is_the_source_text_at_the_token_position() {
    let source = "if (été >= 10.5) {\n\t$x += _y1;\r\n}";
    let lines: Vec<&str> = source.split('\n').collect();
    for token in tokens(source) {
        let line = lines[token.line as usize - 1];
        let mut col = 1;
        let mut rest = line;
        while col < token.col {
            let ch = rest.chars().next().unwrap();
            col += match ch {
                '\t' => 4,
                '\r' => 0,
                _ => 1,
            };
            rest = &rest[ch.len_utf8()..];
        }
        assert_eq!(col, token.col);
        assert!(rest.starts_with(token.span));
    }
}

#[test]
fn spans_and_blanks_cover_the_source() {
    for source in [
        "",
        "1",
        "  1  +  2  ",
        "5 + 5 * 10 / $a > a($b = if (true) 13 else { $c = 10; $c })",
        "if (été >= 10.5) {\n\t$x += _y1;\r\n}",
        "\n\n\t",
    ] {
        assert_eq!(walk(source), source.len());
    }
}

#[test]
fn unexpected_characters_fill_the_gaps_in_the_cover() {
    for source in ["@", "a # b", "1.", "1..2", "~~~ x"] {
        assert_eq!(walk(source), source.len());
    }
}

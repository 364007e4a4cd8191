use lib::scanner::models::{ScannerPosition, Token, TokenKind};
use lib::scanner::{advance, advance_on_match, is_at_end, peek, peek_next, scan_token, scan_tokens};
use lib::scanner::float_text::is_float_text;

fn kinds(source: &str) -> Vec<TokenKind> {
    scan_tokens(source).unwrap().iter().map(|t| t.token.kind()).collect()
}

#[test]
fn scans_a_declaration() {
    assert_eq!(
        kinds("var x = 10;"),
        vec![
            TokenKind::Var,
            TokenKind::Identifier,
            TokenKind::Equal,
            TokenKind::NumLiteral,
            TokenKind::Semicolon,
            TokenKind::Eof
        ]
    );
}

#[test]
fn scans_operators_and_comments() {
    assert_eq!(
        kinds("!= == <= >= < > ! = / // a comment\n"),
        vec![
            TokenKind::BangEqual,
            TokenKind::EqualEqual,
            TokenKind::LessEqual,
            TokenKind::GreaterEqual,
            TokenKind::Less,
            TokenKind::Greater,
            TokenKind::Bang,
            TokenKind::Equal,
            TokenKind::Slash,
            TokenKind::Eof
        ]
    );
}

#[test]
fn keeps_lexemes_and_lines() {
    let tokens = scan_tokens("\"a\nb\" 12.5 foo\nwhile").unwrap();
    assert_eq!(tokens.len(), 5);
    assert_eq!(tokens[0].token.lexeme(), "\"a\nb\"");
    assert_eq!(tokens[0].line, 2);
    assert_eq!(tokens[1].token.lexeme(), "12.5");
    assert_eq!(tokens[2].token.lexeme(), "foo");
    assert_eq!(tokens[3].token.kind(), TokenKind::While);
    assert_eq!(tokens[3].line, 3);
    assert_eq!(tokens[4].token.kind(), TokenKind::Eof);
}

#[test]
fn number_without_fraction_digits_stops_at_dot() {
    assert_eq!(kinds("12."), vec![TokenKind::NumLiteral, TokenKind::Dot, TokenKind::Eof]);
}

#[test]
fn empty_source_is_just_eof() {
    assert_eq!(kinds(""), vec![TokenKind::Eof]);
}

#[test]
fn unterminated_string() {
    let e = scan_tokens("\"abc").unwrap_err();
    assert_eq!(e.render(), "[line 1] Error: Unterminated string.");
}

#[test]
fn unexpected_character() {
    let e = scan_tokens("\n@").unwrap_err();
    assert_eq!(e.render(), "[line 2] Error: Unexpected character.");
}

#[test]
fn words_and_keywords() {
    assert!(matches!(Token::try_from_word("and"), Some(Token::And)));
    assert!(Token::try_from_word("andy").is_none());
    for w in ["and", "class", "else", "false", "fun", "for", "if", "nil", "or", "print", "return", "super", "this", "true", "var", "while"] {
        assert_eq!(Token::try_from_word(w).unwrap().lexeme(), w);
    }
    assert_eq!(Token::Eof.tpe(), "EOF");
}

#[test]
fn position_helpers() {
    let src: Vec<char> = "ab=".chars().collect();
    let p = ScannerPosition { start: 0, current: 0, line: 1 };
    assert!(!is_at_end(0, 3));
    assert!(is_at_end(3, 3));
    assert_eq!(peek(&p, &src), 'a');
    assert_eq!(peek_next(&p, &src), 'b');
    let (q, c) = advance(&p, &src);
    assert_eq!(c, 'a');
    assert_eq!(q.current, 1);
    let q2 = q.next_pos();
    assert_eq!(q2.current, 2);
    let (q3, matched) = advance_on_match(q2, &src, '=');
    assert!(matched);
    assert_eq!(q3.current, 3);
    assert_eq!(peek(&q3, &src), '\0');
    assert_eq!(q3.next_line().line, 2);
    assert_eq!(q3.at_start().start, 3);
}

#[test]
fn token_listing() {
    let tokens = scan_tokens("var s = \"hi\"; 3 print").unwrap();
    let listed: Vec<Option<String>> = tokens.iter().map(|t| t.token.render()).collect();
    assert_eq!(
        listed,
        vec![
            Some("VAR var null".to_string()),
            Some("IDENTIFIER s null".to_string()),
            Some("EQUAL = null".to_string()),
            Some("STRING \"hi\" hi".to_string()),
            Some("SEMICOLON ; null".to_string()),
            None,
            Some("PRINT print null".to_string()),
            Some("EOF  null".to_string()),
        ]
    );
}

#[test]
fn exactly_one_eof_at_the_end() {
    for src in ["", "print 1;", "// only a comment", "\"s\" 1.25 and or\n\n{ }"] {
        let k = kinds(src);
        assert_eq!(k.last(), Some(&TokenKind::Eof));
        assert_eq!(k.iter().filter(|x| **x == TokenKind::Eof).count(), 1);
    }
}

#[test]
fn scan_token_from_any_line() {
    let source: Vec<char> = "a\n@".chars().collect();
    let pos = ScannerPosition { start: 2, current: 2, line: 40 };
    let e = scan_token(&pos, &source).unwrap_err();
    assert_eq!(e.render(), "[line 40] Error: Unexpected character.");
    let pos = ScannerPosition { start: 1, current: 1, line: 9 };
    let (q, t) = scan_token(&pos, &source).unwrap();
    assert_eq!(q.line, 10);
    assert_eq!(q.current, 2);
    assert!(t.is_none());
}

#[test]
fn scan_token_from_an_earlier_start() {
    let source: Vec<char> = "a1 -12 print".chars().collect();
    let pos = ScannerPosition { start: 0, current: 1, line: 3 };
    let e = scan_token(&pos, &source).unwrap_err();
    assert_eq!(e.render(), "[line 3] Error: invalid float literal");
    let pos = ScannerPosition { start: 3, current: 4, line: 1 };
    let (q, t) = scan_token(&pos, &source).unwrap();
    assert_eq!(q.current, 6);
    assert_eq!(q.start, 3);
    assert!(matches!(t.unwrap().token, Token::NumLiteral { lexeme } if lexeme == "-12"));
    let pos = ScannerPosition { start: 7, current: 8, line: 1 };
    let (_, t) = scan_token(&pos, &source).unwrap();
    assert!(matches!(t.unwrap().token, Token::Print));
}

#[test]
fn float_texts() {
    let yes = ["1", "1e5", "1E+5", "-2.5", ".5", "5.", "inf", "-Infinity", "NaN", "+0.0e-3"];
    let no = ["", ".", "e5", "1e", "+-1", "1.2.3", "in", "1_0", "infinit"];
    for s in yes {
        let cs: Vec<char> = s.chars().collect();
        assert!(is_float_text(&cs), "{}", s);
        assert!(s.parse::<f64>().is_ok());
    }
    for s in no {
        let cs: Vec<char> = s.chars().collect();
        assert!(!is_float_text(&cs), "{}", s);
        assert!(s.parse::<f64>().is_err());
    }
}

use xscript::lexer::{LexError, Lexer};
use xscript::token::{Symbol, TokenKind};

fn lex_all(src: &str) -> Vec<TokenKind> {
    let mut lexer = Lexer::new_from_string(src.to_string());
    let mut kinds = Vec::new();
    while let Ok(tok) = lexer.read_token() {
        kinds.push(tok.kind);
    }
    kinds
}

fn first_kind(src: &str) -> TokenKind {
    let mut lexer = Lexer::new_from_string(src.to_string());
    lexer.read_token().unwrap().kind
}

#[test]
fn text_symbols() {
    let src = "() {} [] , ; : . -> ++ -- \n             + - * / % ! ~ << >> < \n             <= > >= == != & | ^ && || \n             ? = += -= *= /= %= <<= \n             >>= &= |= ^= &&= ||= #";
    let mut lexer = Lexer::new_from_string(src.to_string());
    assert_eq!(
        lexer.read_token().unwrap().kind,
        TokenKind::Symbol(Symbol::OpeningParen)
    );
    assert_eq!(
        lexer.read_token().unwrap().kind,
        TokenKind::Symbol(Symbol::ClosingParen)
    );
    assert_eq!(
        lexer.read_token().unwrap().kind,
        TokenKind::Symbol(Symbol::OpeningBrace)
    );
    assert_eq!(
        lexer.read_token().unwrap().kind,
        TokenKind::Symbol(Symbol::ClosingBrace)
    );
    assert_eq!(
        lexer.read_token().unwrap().kind,
        TokenKind::Symbol(Symbol::OpeningBoxBracket)
    );
    assert_eq!(
        lexer.read_token().unwrap().kind,
        TokenKind::Symbol(Symbol::ClosingBoxBracket)
    );
    assert_eq!(
        lexer.read_token().unwrap().kind,
        TokenKind::Symbol(Symbol::Comma)
    );
    assert_eq!(
        lexer.read_token().unwrap().kind,
        TokenKind::Symbol(Symbol::Semicolon)
    );
    assert_eq!(
        lexer.read_token().unwrap().kind,
        TokenKind::Symbol(Symbol::Colon)
    );
    assert_eq!(
        lexer.read_token().unwrap().kind,
        TokenKind::Symbol(Symbol::Point)
    );
    assert_eq!(
        lexer.read_token().unwrap().kind,
        TokenKind::Symbol(Symbol::Arrow)
    );
    assert_eq!(
        lexer.read_token().unwrap().kind,
        TokenKind::Symbol(Symbol::Inc)
    );
    assert_eq!(
        lexer.read_token().unwrap().kind,
        TokenKind::Symbol(Symbol::Dec)
    );
    assert_eq!(lexer.read_token().unwrap().kind, TokenKind::Newline);
    assert_eq!(
        lexer.read_token().unwrap().kind,
        TokenKind::Symbol(Symbol::Add)
    );
    assert_eq!(
        lexer.read_token().unwrap().kind,
        TokenKind::Symbol(Symbol::Sub)
    );
    assert_eq!(
        lexer.read_token().unwrap().kind,
        TokenKind::Symbol(Symbol::Asterisk)
    );
    assert_eq!(
        lexer.read_token().unwrap().kind,
        TokenKind::Symbol(Symbol::Div)
    );
    assert_eq!(
        lexer.read_token().unwrap().kind,
        TokenKind::Symbol(Symbol::Mod)
    );
    assert_eq!(
        lexer.read_token().unwrap().kind,
        TokenKind::Symbol(Symbol::Not)
    );
    assert_eq!(
        lexer.read_token().unwrap().kind,
        TokenKind::Symbol(Symbol::BitwiseNot)
    );
    assert_eq!(
        lexer.read_token().unwrap().kind,
        TokenKind::Symbol(Symbol::Shl)
    );
    assert_eq!(
        lexer.read_token().unwrap().kind,
        TokenKind::Symbol(Symbol::Shr)
    );
    assert_eq!(
        lexer.read_token().unwrap().kind,
        TokenKind::Symbol(Symbol::Lt)
    );
    assert_eq!(lexer.read_token().unwrap().kind, TokenKind::Newline);
    assert_eq!(
        lexer.read_token().unwrap().kind,
        TokenKind::Symbol(Symbol::Le)
    );
    assert_eq!(
        lexer.read_token().unwrap().kind,
        TokenKind::Symbol(Symbol::Gt)
    );
    assert_eq!(
        lexer.read_token().unwrap().kind,
        TokenKind::Symbol(Symbol::Ge)
    );
    assert_eq!(
        lexer.read_token().unwrap().kind,
        TokenKind::Symbol(Symbol::Eq)
    );
    assert_eq!(
        lexer.read_token().unwrap().kind,
        TokenKind::Symbol(Symbol::Ne)
    );
    assert_eq!(
        lexer.read_token().unwrap().kind,
        TokenKind::Symbol(Symbol::And)
    );
    assert_eq!(
        lexer.read_token().unwrap().kind,
        TokenKind::Symbol(Symbol::Or)
    );
    assert_eq!(
        lexer.read_token().unwrap().kind,
        TokenKind::Symbol(Symbol::Xor)
    );
    assert_eq!(
        lexer.read_token().unwrap().kind,
        TokenKind::Symbol(Symbol::LAnd)
    );
    assert_eq!(
        lexer.read_token().unwrap().kind,
        TokenKind::Symbol(Symbol::LOr)
    );
    assert_eq!(lexer.read_token().unwrap().kind, TokenKind::Newline);
    assert_eq!(
        lexer.read_token().unwrap().kind,
        TokenKind::Symbol(Symbol::Question)
    );
    assert_eq!(
        lexer.read_token().unwrap().kind,
        TokenKind::Symbol(Symbol::Assign)
    );
    assert_eq!(
        lexer.read_token().unwrap().kind,
        TokenKind::Symbol(Symbol::AssignAdd)
    );
    assert_eq!(
        lexer.read_token().unwrap().kind,
        TokenKind::Symbol(Symbol::AssignSub)
    );
    assert_eq!(
        lexer.read_token().unwrap().kind,
        TokenKind::Symbol(Symbol::AssignMul)
    );
    assert_eq!(
        lexer.read_token().unwrap().kind,
        TokenKind::Symbol(Symbol::AssignDiv)
    );
    assert_eq!(
        lexer.read_token().unwrap().kind,
        TokenKind::Symbol(Symbol::AssignMod)
    );
    assert_eq!(
        lexer.read_token().unwrap().kind,
        TokenKind::Symbol(Symbol::AssignShl)
    );
    assert_eq!(lexer.read_token().unwrap().kind, TokenKind::Newline);
    assert_eq!(
        lexer.read_token().unwrap().kind,
        TokenKind::Symbol(Symbol::AssignShr)
    );
    assert_eq!(
        lexer.read_token().unwrap().kind,
        TokenKind::Symbol(Symbol::AssignAnd)
    );
    assert_eq!(
        lexer.read_token().unwrap().kind,
        TokenKind::Symbol(Symbol::AssignOr)
    );
    assert_eq!(
        lexer.read_token().unwrap().kind,
        TokenKind::Symbol(Symbol::AssignXor)
    );
    assert_eq!(
        lexer.read_token().unwrap().kind,
        TokenKind::Symbol(Symbol::AssignLAnd)
    );
    assert_eq!(
        lexer.read_token().unwrap().kind,
        TokenKind::Symbol(Symbol::AssignLOr)
    );
    assert_eq!(
        lexer.read_token().unwrap().kind,
        TokenKind::Symbol(Symbol::Hash)
    );
}

#[test]
fn int_literal_radixes() {
    assert_eq!(first_kind("0x1F\n"), TokenKind::Int(31));
    assert_eq!(first_kind("017\n"), TokenKind::Int(15));
    assert_eq!(first_kind("0b101\n"), TokenKind::Int(5));
    assert_eq!(first_kind("12345\n"), TokenKind::Int(12345));
    assert_eq!(first_kind("0\n"), TokenKind::Int(0));
    assert_eq!(first_kind("0xdead\n"), TokenKind::Int(0xdead));
}

#[test]
fn int_literal_skips_out_of_range_digits() {
    // characters outside the base's digit set are silently skipped
    assert_eq!(first_kind("0x1G2\n"), TokenKind::Int(0x12));
    assert_eq!(first_kind("019\n"), TokenKind::Int(1));
    assert_eq!(first_kind("0b102\n"), TokenKind::Int(2));
}

#[test]
fn underscore_ends_a_number() {
    // an underscore is no numeric character: it starts a trailing identifier
    let kinds = lex_all("1_2\n");
    assert_eq!(
        kinds,
        vec![
            TokenKind::Int(1),
            TokenKind::Identifier("_2".to_string()),
            TokenKind::Newline,
        ]
    );
}

#[test]
fn int_literal_wraps_on_overflow() {
    let digits = "99999999999999999999";
    let mut expected: i64 = 0;
    for c in digits.chars() {
        expected = expected
            .wrapping_mul(10)
            .wrapping_add(c.to_digit(10).unwrap() as i64);
    }
    assert_eq!(first_kind(&format!("{}\n", digits)), TokenKind::Int(expected));
}

#[test]
fn float_literal_signed_exponents() {
    match first_kind("1e-5\n") {
        TokenKind::Float(text) => {
            assert_eq!(text, "1e-5");
            assert_eq!(text.parse::<f64>().unwrap(), "1e-5".parse::<f64>().unwrap());
        }
        other => panic!("expected a float token, got {:?}", other),
    }
    match first_kind("2.5E+3\n") {
        TokenKind::Float(text) => {
            assert_eq!(text, "2.5E+3");
            assert_eq!(text.parse::<f64>().unwrap(), 2500.0);
        }
        other => panic!("expected a float token, got {:?}", other),
    }
}

#[test]
fn float_literal_trims_suffix() {
    match first_kind("1.5f\n") {
        TokenKind::Float(text) => {
            assert_eq!(text, "1.5");
            assert_eq!(text.parse::<f64>().unwrap(), 1.5);
        }
        other => panic!("expected a float token, got {:?}", other),
    }
    match first_kind("3.25\n") {
        TokenKind::Float(text) => assert_eq!(text.parse::<f64>().unwrap(), 3.25),
        other => panic!("expected a float token, got {:?}", other),
    }
}

#[test]
fn hex_digits_are_not_exponent_markers() {
    // `E` inside a hex literal does not select the float path
    assert_eq!(first_kind("0x1E\n"), TokenKind::Int(30));
}

#[test]
fn identifiers_and_strings() {
    assert_eq!(
        first_kind("foo_1 \n"),
        TokenKind::Identifier("foo_1".to_string())
    );
    assert_eq!(first_kind("\"hi\"\n"), TokenKind::Str("hi".to_string()));
    assert_eq!(first_kind("\"\"\n"), TokenKind::Str(String::new()));
    assert_eq!(first_kind("\nx"), TokenKind::Newline);
}

#[test]
fn newline_after_spaces_is_a_token() {
    // a newline is a statement separator, not whitespace: a whitespace run
    // ends at it and it is returned as its own token
    let kinds = lex_all("x \n y\n");
    assert_eq!(
        kinds,
        vec![
            TokenKind::Identifier("x".to_string()),
            TokenKind::Newline,
            TokenKind::Identifier("y".to_string()),
            TokenKind::Newline,
        ]
    );
}

#[test]
fn unterminated_string_fails() {
    let mut lexer = Lexer::new_from_string("\"abc".to_string());
    match lexer.read_token() {
        Err(LexError::UnterminatedString(_)) => {}
        other => panic!("expected an unterminated string error, got {:?}", other),
    }
}

#[test]
fn scan_to_end_of_input_fails() {
    let mut lexer = Lexer::new_from_string("abc".to_string());
    match lexer.read_token() {
        Err(LexError::UnexpectedEndOfInput(_)) => {}
        other => panic!("expected an end-of-input error, got {:?}", other),
    }
    let mut empty = Lexer::new_from_string(String::new());
    match empty.read_token() {
        Err(LexError::UnexpectedEndOfInput(_)) => {}
        other => panic!("expected an end-of-input error, got {:?}", other),
    }
}

#[test]
fn token_ranges_are_half_open() {
    let mut lexer = Lexer::new_from_string("ab 12\n".to_string());
    let a = lexer.read_token().unwrap();
    assert_eq!((a.range.start, a.range.end), (0, 2));
    let b = lexer.read_token().unwrap();
    assert_eq!((b.range.start, b.range.end), (3, 5));
}

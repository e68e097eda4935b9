use frontend::lexer::{Lexer, LexerErr, TokenKind};
use frontend::results::Loc;

fn kinds(code: &str) -> Vec<TokenKind> {
    let mut lexer = Lexer::new();
    let tokens = lexer.tokenize(code).unwrap();
    tokens.iter().map(|tk| tk.kind.clone()).collect()
}

#[test]
fn tokenize_single_char() {
    let code: String = "(){},.-+%/*=!<>\n".into();
    let tk_kind = kinds(&code);

    assert_eq!(
        tk_kind,
        vec![
            TokenKind::OpenParen,
            TokenKind::CloseParen,
            TokenKind::OpenBrace,
            TokenKind::CloseBrace,
            TokenKind::Comma,
            TokenKind::Dot,
            TokenKind::Minus,
            TokenKind::Plus,
            TokenKind::Modulo,
            TokenKind::Slash,
            TokenKind::Star,
            TokenKind::Equal,
            TokenKind::Bang,
            TokenKind::Less,
            TokenKind::Greater,
            TokenKind::NewLine,
            TokenKind::Eof,
        ]
    );
}

#[test]
fn tokenize_double_char() {
    let code: String = "!= <= >= == ..".into();
    let tk_kind = kinds(&code);

    assert_eq!(
        tk_kind,
        vec![
            TokenKind::BangEqual,
            TokenKind::LessEqual,
            TokenKind::GreaterEqual,
            TokenKind::EqualEqual,
            TokenKind::DotDot,
            TokenKind::Eof,
        ]
    );
}

#[test]
fn tokenize_string() {
    let code: String = "\"hello world!\"".into();
    let tk_kind = kinds(&code);

    assert_eq!(tk_kind, vec![TokenKind::String, TokenKind::Eof]);
}

#[test]
fn tokenize_number() {
    let code: String = "12 25. 26.345".into();
    let mut lexer = Lexer::new();
    let tokens = lexer.tokenize(&code).unwrap();

    let tk_type: Vec<TokenKind> = tokens.iter().map(|tk| tk.kind.clone()).collect();
    let tk_value: Vec<String> = tokens.iter().map(|tk| tk.value.clone()).collect();

    assert_eq!(
        tk_type,
        vec![TokenKind::Int, TokenKind::Real, TokenKind::Real, TokenKind::Eof]
    );

    assert_eq!(
        tk_value,
        vec![
            "12".to_string(),
            "25.".to_string(),
            "26.345".to_string(),
            "eof".to_string()
        ]
    );
}

#[test]
fn tokenize_range() {
    let code: String = "2..5".into();
    let tk_type = kinds(&code);

    assert_eq!(
        tk_type,
        vec![TokenKind::Int, TokenKind::DotDot, TokenKind::Int, TokenKind::Eof]
    );
}

#[test]
fn number_errors() {
    let code: String = "12.5.".into();
    let mut lexer = Lexer::new();
    let tokens = lexer.tokenize(&code);

    assert!(matches!(
        tokens.err().unwrap()[0].err,
        LexerErr::NoSpaceAfterNumber(..)
    ));

    let code: String = "12.534.45".into();
    let mut lexer = Lexer::new();
    let tokens = lexer.tokenize(&code);

    assert!(matches!(
        tokens.err().unwrap()[0].err,
        LexerErr::NoSpaceAfterNumber(..)
    ));

    let code: String = "12.a".into();
    let mut lexer = Lexer::new();
    let tokens = lexer.tokenize(&code);

    assert!(matches!(
        tokens.err().unwrap()[0].err,
        LexerErr::NonNumericDecimal(..)
    ));
}

#[test]
fn string_errors() {
    let code: String = "\"foo".into();
    let mut lexer = Lexer::new();
    let tokens = lexer.tokenize(&code);

    assert!(matches!(
        tokens.err().unwrap()[0].err,
        LexerErr::StringNeverClosed
    ));
}

#[test]
fn lexer_location() {
    let code: String = "\n12345.43\n\"foo bar\"\nfor while\n\nbreak 45+7".into();
    let mut lexer = Lexer::new();
    let tokens = lexer.tokenize(&code).unwrap();

    let tk_loc: Vec<&Loc> = tokens.iter().map(|tk| &tk.loc).collect();

    assert_eq!(
        tk_loc,
        vec![
            &Loc::new(0, 1),
            &Loc::new(1, 9),
            &Loc::new(9, 10),
            &Loc::new(10, 19),
            &Loc::new(19, 20),
            &Loc::new(20, 23),
            &Loc::new(24, 29),
            &Loc::new(29, 30),
            &Loc::new(30, 31),
            &Loc::new(31, 36),
            &Loc::new(37, 39),
            &Loc::new(39, 40),
            &Loc::new(40, 41),
            &Loc::new(41, 42),
        ]
    );
}

#[test]
fn tokenize_empty() {
    let code: String = "".into();
    let mut lexer = Lexer::new();
    let tokens = lexer.tokenize(&code).unwrap();

    assert_eq!(tokens.len(), 1);
    assert_eq!(tokens[0].kind, TokenKind::Eof);
    assert_eq!(tokens[0].value, "eof".to_string());
    assert_eq!(tokens[0].loc, Loc::new(0, 1));
}

#[test]
fn tokenize_keywords() {
    let code: String =
        "var const true false struct self fn return if else and or for while in null print other"
            .into();
    let tk_kind = kinds(&code);

    assert_eq!(
        tk_kind,
        vec![
            TokenKind::Var,
            TokenKind::Const,
            TokenKind::True,
            TokenKind::False,
            TokenKind::Struct,
            TokenKind::SelfKw,
            TokenKind::Fn,
            TokenKind::Return,
            TokenKind::If,
            TokenKind::Else,
            TokenKind::And,
            TokenKind::Or,
            TokenKind::For,
            TokenKind::While,
            TokenKind::In,
            TokenKind::Null,
            TokenKind::Print,
            TokenKind::Identifier,
            TokenKind::Eof,
        ]
    );
}

#[test]
fn tokenize_comment() {
    let code: String = "12 // all of this is skipped .. 5\n7".into();
    let mut lexer = Lexer::new();
    let tokens = lexer.tokenize(&code).unwrap();

    let tk_kind: Vec<TokenKind> = tokens.iter().map(|tk| tk.kind.clone()).collect();
    assert_eq!(
        tk_kind,
        vec![TokenKind::Int, TokenKind::NewLine, TokenKind::Int, TokenKind::Eof]
    );
}

#[test]
fn tokenize_real_trailing_dot() {
    let code: String = "25.".into();
    let mut lexer = Lexer::new();
    let tokens = lexer.tokenize(&code).unwrap();

    assert_eq!(tokens[0].kind, TokenKind::Real);
    assert_eq!(tokens[0].value, "25.".to_string());
}

#[test]
fn unexpected_token_error() {
    let code: String = "var a = @".into();
    let mut lexer = Lexer::new();
    let errs = lexer.tokenize(&code).err().unwrap();

    assert_eq!(errs.len(), 1);
    assert!(matches!(errs[0].err, LexerErr::UnexpectedToken('@')));
    assert_eq!(errs[0].loc, Loc::new(8, 9));
}

#[test]
fn string_with_newline_inside() {
    let code: String = "\"ab\ncd\"".into();
    let mut lexer = Lexer::new();
    let tokens = lexer.tokenize(&code).unwrap();

    let tk_kind: Vec<TokenKind> = tokens.iter().map(|tk| tk.kind.clone()).collect();
    assert_eq!(
        tk_kind,
        vec![TokenKind::NewLine, TokenKind::String, TokenKind::Eof]
    );
    assert_eq!(tokens[1].value, "ab\ncd".to_string());
    assert_eq!(tokens[1].loc, Loc::new(0, 7));
}

#[test]
fn range_token_text_is_the_two_dots() {
    let code: String = "2..5".into();
    let mut lexer = Lexer::new();
    let tokens = lexer.tokenize(&code).unwrap();

    assert_eq!(tokens[1].kind, TokenKind::DotDot);
    assert_eq!(tokens[1].value, "..".to_string());
    assert_eq!(tokens[1].loc, Loc::new(0, 3));

    let code: String = "..".into();
    let mut lexer = Lexer::new();
    let tokens = lexer.tokenize(&code).unwrap();
    assert_eq!(tokens[0].kind, TokenKind::DotDot);
    assert_eq!(tokens[0].value, "..".to_string());
    assert_eq!(tokens[0].loc, Loc::new(0, 2));
}

#[test]
fn string_never_closed_span_ends_at_input_end() {
    let code: String = "\"fo o".into();
    let mut lexer = Lexer::new();
    let errs = lexer.tokenize(&code).err().unwrap();

    assert_eq!(errs.len(), 1);
    assert!(matches!(errs[0].err, LexerErr::StringNeverClosed));
    assert_eq!(errs[0].loc, Loc::new(0, 5));
}

use lory::ast::{Literal, TokenKind};
use lory::lexer::{tokenize, Error, Lexer, Token};
use lory::span::Span;

fn kinds(source: &str) -> Vec<TokenKind> {
    tokenize(source)
        .into_iter()
        .map(|r| match r {
            Ok(t) => t.kind,
            Err(e) => panic!("unexpected lexer error {:?}", e),
        })
        .collect()
}

fn spans(source: &str) -> Vec<(usize, usize)> {
    tokenize(source)
        .into_iter()
        .map(|r| match r {
            Ok(t) => (t.span.start, t.span.end),
            Err(e) => panic!("unexpected lexer error {:?}", e),
        })
        .collect()
}

fn ident(s: &str) -> TokenKind {
    TokenKind::Identifier { ident: s.to_string() }
}

fn number(s: &str) -> TokenKind {
    TokenKind::Lit(Literal::Number(s.to_string()))
}

fn string(s: &str) -> TokenKind {
    TokenKind::Lit(Literal::String { string: s.to_string() })
}

#[test]
fn identifiers() {
    let source = "andy formless fo _ _123 _abc ab123\n\
                  abcdefghijklmnopqrstuvwxyzABCDEFGHIJKLMNOPQRSTUVWXYZ1234567890_\n";
    assert_eq!(
        kinds(source),
        vec![
            ident("andy"),
            ident("formless"),
            ident("fo"),
            ident("_"),
            ident("_123"),
            ident("_abc"),
            ident("ab123"),
            ident("abcdefghijklmnopqrstuvwxyzABCDEFGHIJKLMNOPQRSTUVWXYZ1234567890_"),
        ]
    );
}

#[test]
fn keywords() {
    let source = "and class else false for fun if nil or print return super this true var while";
    assert_eq!(
        kinds(source),
        vec![
            TokenKind::And,
            TokenKind::Class,
            TokenKind::Else,
            TokenKind::Lit(Literal::False),
            TokenKind::For,
            TokenKind::Fun,
            TokenKind::If,
            TokenKind::Lit(Literal::Nil),
            TokenKind::Or,
            TokenKind::Print,
            TokenKind::Return,
            TokenKind::Super,
            TokenKind::This,
            TokenKind::Lit(Literal::True),
            TokenKind::Var,
            TokenKind::While,
        ]
    );
}

#[test]
fn numbers() {
    let source = "123\n123.456\n.456\n123.";
    assert_eq!(
        kinds(source),
        vec![
            number("123"),
            number("123.456"),
            TokenKind::Dot,
            number("456"),
            number("123"),
            TokenKind::Dot,
        ]
    );
    assert_eq!(spans(source), vec![(0, 3), (4, 11), (12, 13), (13, 16), (17, 20), (20, 21)]);
}

#[test]
fn punctuators() {
    let source = "(){};,+-*!===<=>=!=<>/.[]";
    assert_eq!(
        kinds(source),
        vec![
            TokenKind::LeftParen,
            TokenKind::RightParen,
            TokenKind::LeftBrace,
            TokenKind::RightBrace,
            TokenKind::Semicolon,
            TokenKind::Comma,
            TokenKind::Plus,
            TokenKind::Minus,
            TokenKind::Star,
            TokenKind::BangEqual,
            TokenKind::EqualEqual,
            TokenKind::LessEqual,
            TokenKind::GreaterEqual,
            TokenKind::BangEqual,
            TokenKind::Less,
            TokenKind::Greater,
            TokenKind::Slash,
            TokenKind::Dot,
            TokenKind::LeftBracket,
            TokenKind::RightBracket,
        ]
    );
}

#[test]
fn strings() {
    let source = "\"\"\n\"string\"";
    assert_eq!(kinds(source), vec![string(""), string("string")]);
    assert_eq!(spans(source), vec![(0, 2), (3, 11)]);
}

#[test]
fn whitespace() {
    let source = "space    tabs\t\t\t\tnewlines\n\n\n\nend\r\n";
    assert_eq!(kinds(source), vec![ident("space"), ident("tabs"), ident("newlines"), ident("end")]);
    assert_eq!(spans(source), vec![(0, 5), (9, 13), (17, 25), (29, 32)]);
}

#[test]
fn comments() {
    let source = "// comment\n1 // another / * \"x\n// last";
    assert_eq!(kinds(source), vec![number("1")]);
    assert_eq!(spans(source), vec![(11, 12)]);
}

#[test]
fn unexpectedchar() {
    let tokens = tokenize("foo(a | b);");
    assert_eq!(tokens.len(), 7);
    assert!(matches!(&tokens[0], Ok(Token { kind: TokenKind::Identifier { ident }, .. }) if ident == "foo"));
    assert!(matches!(&tokens[1], Ok(Token { kind: TokenKind::LeftParen, .. })));
    assert!(matches!(&tokens[2], Ok(Token { kind: TokenKind::Identifier { ident }, .. }) if ident == "a"));
    assert_eq!(tokens[3], Err(Error::UnexpectedCharacter));
    assert!(matches!(&tokens[4], Ok(Token { kind: TokenKind::Identifier { ident }, span }) if ident == "b" && *span == Span::new(8, 9)));
    assert!(matches!(&tokens[5], Ok(Token { kind: TokenKind::RightParen, .. })));
    assert!(matches!(&tokens[6], Ok(Token { kind: TokenKind::Semicolon, .. })));
}

#[test]
fn blank_input_has_no_tokens() {
    assert!(tokenize("   // comment\n  ").is_empty());
    assert!(tokenize("").is_empty());
    assert!(tokenize("//").is_empty());
    assert!(tokenize("\t\u{a0}\u{3000}\n// a\n// b").is_empty());
}

#[test]
fn two_character_operators_are_one_token() {
    assert_eq!(kinds("=="), vec![TokenKind::EqualEqual]);
    assert_eq!(kinds("!="), vec![TokenKind::BangEqual]);
    assert_eq!(kinds("<="), vec![TokenKind::LessEqual]);
    assert_eq!(kinds(">="), vec![TokenKind::GreaterEqual]);
    assert_eq!(spans("=="), vec![(0, 2)]);
    assert_eq!(kinds("= ="), vec![TokenKind::Equal, TokenKind::Equal]);
    assert_eq!(kinds("==="), vec![TokenKind::EqualEqual, TokenKind::Equal]);
}

#[test]
fn number_and_dot() {
    let tokens = kinds("1.");
    assert_eq!(tokens, vec![number("1"), TokenKind::Dot]);
    match &tokens[0] {
        TokenKind::Lit(Literal::Number(text)) => assert_eq!(text.parse::<f64>().unwrap(), 1.0),
        other => panic!("not a number: {:?}", other),
    }
    let tokens = kinds("1.5");
    assert_eq!(tokens, vec![number("1.5")]);
    match &tokens[0] {
        TokenKind::Lit(Literal::Number(text)) => assert_eq!(text.parse::<f64>().unwrap(), 1.5),
        other => panic!("not a number: {:?}", other),
    }
    assert_eq!(kinds("1.2.3"), vec![number("1.2"), TokenKind::Dot, number("3")]);
    assert_eq!(kinds("7.a"), vec![number("7"), TokenKind::Dot, ident("a")]);
}

#[test]
fn unterminated_string() {
    assert_eq!(tokenize("\"abc"), vec![Err(Error::UnterminatedString { pos: 0 })]);
    let tokens = tokenize("x \"abc");
    assert_eq!(tokens.len(), 2);
    assert_eq!(tokens[1], Err(Error::UnterminatedString { pos: 2 }));
    assert_eq!(tokenize("é\"").last(), Some(&Err(Error::UnterminatedString { pos: 2 })));
}

#[test]
fn unknown_character() {
    assert_eq!(tokenize("@"), vec![Err(Error::UnexpectedCharacter)]);
    assert_eq!(tokenize("#").len(), 1);
}

#[test]
fn keyword_prefix_stays_identifier() {
    assert_eq!(kinds("classroom"), vec![ident("classroom")]);
    assert_eq!(kinds("class"), vec![TokenKind::Class]);
    assert_eq!(kinds("orchid iffy nil_"), vec![ident("orchid"), ident("iffy"), ident("nil_")]);
}

#[test]
fn spans_count_bytes() {
    let source = "\"é\" x";
    assert_eq!(kinds(source), vec![string("é"), ident("x")]);
    assert_eq!(spans(source), vec![(0, 4), (5, 6)]);
    assert_eq!(spans("a\u{a0}b"), vec![(0, 1), (3, 4)]);
    assert_eq!(spans("\"😀\"+"), vec![(0, 6), (6, 7)]);
    let tokens = tokenize("é a");
    assert_eq!(tokens[0], Err(Error::UnexpectedCharacter));
    assert!(matches!(&tokens[1], Ok(Token { span, .. }) if *span == Span::new(3, 4)));
}

#[test]
fn lexer_cursor() {
    let mut lexer = Lexer::new("aé");
    assert_eq!(lexer.first(), Some('a'));
    assert_eq!(lexer.second(), Some('é'));
    assert_eq!(lexer.pos(), 0);
    assert_eq!(lexer.advance(), Some('a'));
    assert_eq!(lexer.pos(), 1);
    assert_eq!(lexer.second(), None);
    assert_eq!(lexer.advance(), Some('é'));
    assert_eq!(lexer.pos(), 3);
    assert_eq!(lexer.first(), None);
    assert_eq!(lexer.advance(), None);
}

#[test]
fn next_token_ends_with_none() {
    let mut lexer = Lexer::new(" x @ ");
    assert!(matches!(lexer.next_token(), Some(Ok(Token { kind: TokenKind::Identifier { .. }, .. }))));
    assert_eq!(lexer.next_token(), Some(Err(Error::UnexpectedCharacter)));
    assert_eq!(lexer.next_token(), None);
    let mut lexer = Lexer::new("");
    assert!(matches!(lexer.advance_token(), Ok(Token { kind: TokenKind::Eof, .. })));
}

#[test]
fn error_messages() {
    assert_eq!(Error::UnterminatedString { pos: 3 }.message(), "string not terminated");
    assert_eq!(Error::UnexpectedCharacter.message(), "unexpected character");
}

#[test]
fn cursor_stops_at_token_end() {
    let mut lexer = Lexer::new("// a / b\n/ 2");
    let t = lexer.advance_token().unwrap();
    assert_eq!(t.kind, TokenKind::Slash);
    assert_eq!(t.span, Span::new(9, 10));
    assert_eq!(lexer.pos(), 10);

    let mut lexer = Lexer::new("\"ab\"  x");
    assert_eq!(lexer.advance_token().unwrap().span, Span::new(0, 4));
    assert_eq!(lexer.pos(), 4);

    let mut lexer = Lexer::new("12.5.x ");
    assert_eq!(lexer.advance_token().unwrap().kind, number("12.5"));
    assert_eq!(lexer.pos(), 4);

    let mut lexer = Lexer::new(" \"abc ");
    assert_eq!(lexer.advance_token(), Err(Error::UnterminatedString { pos: 1 }));
    assert_eq!(lexer.pos(), 6);

    let mut lexer = Lexer::new("é x");
    assert_eq!(lexer.advance_token(), Err(Error::UnexpectedCharacter));
    assert_eq!(lexer.pos(), 2);

    let mut lexer = Lexer::new("  // c");
    assert!(matches!(lexer.advance_token(), Ok(Token { kind: TokenKind::Eof, .. })));
    assert_eq!(lexer.pos(), 6);
}

use ocean::{Lexer, TokenKind};

#[test]
fn test_simple_command() {
    let mut lexer = Lexer::new("اطبع مرحبا");
    let tokens = lexer.tokenize();

    assert_eq!(tokens.len(), 3); // Word, Word, Eof
    assert!(matches!(&tokens[0].kind, TokenKind::Word(s) if s == "اطبع"));
    assert!(matches!(&tokens[1].kind, TokenKind::Word(s) if s == "مرحبا"));
    assert!(matches!(tokens[2].kind, TokenKind::Eof));
}

#[test]
fn test_quoted_string() {
    let mut lexer = Lexer::new("اطبع \"مرحبا بالعالم\"");
    let tokens = lexer.tokenize();

    assert_eq!(tokens.len(), 3);
    assert!(matches!(&tokens[0].kind, TokenKind::Word(s) if s == "اطبع"));
    assert!(matches!(&tokens[1].kind, TokenKind::Quoted(s) if s == "مرحبا بالعالم"));
}

#[test]
fn test_arabic_quotes() {
    let mut lexer = Lexer::new("اطبع «نص عربي»");
    let tokens = lexer.tokenize();

    assert_eq!(tokens.len(), 3);
    assert!(matches!(&tokens[1].kind, TokenKind::Quoted(s) if s == "نص عربي"));
}

#[test]
fn test_pipe_operator() {
    let mut lexer = Lexer::new("اقرأ ملف | ابحث كلمة");
    let tokens = lexer.tokenize();

    assert!(tokens.iter().any(|t| matches!(t.kind, TokenKind::Pipe)));
}

#[test]
fn test_redirect_operators() {
    let mut lexer = Lexer::new("اطبع نص > ملف");
    let tokens = lexer.tokenize();

    assert!(tokens.iter().any(|t| matches!(t.kind, TokenKind::RedirectOut)));
}

#[test]
fn test_append_operator() {
    let mut lexer = Lexer::new("اطبع نص >> ملف");
    let tokens = lexer.tokenize();

    assert!(tokens.iter().any(|t| matches!(t.kind, TokenKind::Append)));
}

#[test]
fn test_and_operator() {
    let mut lexer = Lexer::new("انشئ مجلد && انتقل مجلد");
    let tokens = lexer.tokenize();

    assert!(tokens.iter().any(|t| matches!(t.kind, TokenKind::And)));
}

#[test]
fn test_or_operator() {
    let mut lexer = Lexer::new("اقرأ ملف || اطبع خطأ");
    let tokens = lexer.tokenize();

    assert!(tokens.iter().any(|t| matches!(t.kind, TokenKind::Or)));
}

#[test]
fn test_background_operator() {
    let mut lexer = Lexer::new("sleep 10 &");
    let tokens = lexer.tokenize();

    assert!(tokens.iter().any(|t| matches!(t.kind, TokenKind::Background)));
}

#[test]
fn test_semicolon() {
    let mut lexer = Lexer::new("اطبع أ ; اطبع ب");
    let tokens = lexer.tokenize();

    assert!(tokens.iter().any(|t| matches!(t.kind, TokenKind::Semicolon)));
}

#[test]
fn test_escape_sequences() {
    let mut lexer = Lexer::new(r#"اطبع "سطر1\nسطر2""#);
    let tokens = lexer.tokenize();

    assert!(matches!(&tokens[1].kind, TokenKind::Quoted(s) if s == "سطر1\nسطر2"));
}

#[test]
fn test_comment() {
    let mut lexer = Lexer::new("اطبع مرحبا # هذا تعليق");
    let tokens = lexer.tokenize();

    // Only Word, Word, Eof: the comment contributes no token.
    assert_eq!(tokens.len(), 3);
}

#[test]
fn test_mixed_arabic_english() {
    let mut lexer = Lexer::new("ls -la | grep test");
    let tokens = lexer.tokenize();

    assert!(matches!(&tokens[0].kind, TokenKind::Word(s) if s == "ls"));
    assert!(matches!(&tokens[1].kind, TokenKind::Word(s) if s == "-la"));
    assert!(matches!(tokens[2].kind, TokenKind::Pipe));
}

#[test]
fn test_arabic_semicolon() {
    let mut lexer = Lexer::new("اطبع أ ؛ اطبع ب");
    let tokens = lexer.tokenize();

    assert!(tokens.iter().any(|t| matches!(t.kind, TokenKind::Semicolon)));
}

#[test]
fn test_unterminated_quote_is_error_token() {
    let mut lexer = Lexer::new("echo \"abc");
    let tokens = lexer.tokenize();

    assert!(matches!(&tokens[0].kind, TokenKind::Word(s) if s == "echo"));
    assert!(
        matches!(&tokens[1].kind, TokenKind::Error(m) if m == "نص غير مكتمل / Unterminated string")
    );
}

#[test]
fn test_unterminated_escape_is_error_token() {
    let mut lexer = Lexer::new("echo \"abc\\");
    let tokens = lexer.tokenize();

    assert!(tokens.iter().any(
        |t| matches!(&t.kind, TokenKind::Error(m) if m == "تسلسل هروب غير مكتمل / Unterminated escape"),
    ));
}

#[test]
fn test_quoted_internal_whitespace_preserved() {
    // One argument token with the internal whitespace exactly as typed.
    let mut lexer = Lexer::new("echo \"a b  c\"");
    let tokens = lexer.tokenize();

    assert_eq!(tokens.len(), 3);
    assert!(matches!(&tokens[1].kind, TokenKind::Quoted(s) if s == "a b  c"));
}

#[test]
fn test_spans_and_positions() {
    let mut lexer = Lexer::new("ls -la");
    let tokens = lexer.tokenize();

    assert_eq!(tokens[0].span.start, 0);
    assert_eq!(tokens[0].span.end, 2);
    assert_eq!(tokens[0].span.line, 1);
    assert_eq!(tokens[0].span.column, 1);
    assert_eq!(tokens[1].span.column, 4);
    assert_eq!(tokens[0].lexeme, "ls");
    assert_eq!(tokens[1].lexeme, "-la");
}

#[test]
fn test_nfc_normalization_applies() {
    // An e followed by a combining acute accent normalizes to one
    // composed character; the lexer would keep two characters if the
    // input were taken as given.
    let mut lexer = Lexer::new("e\u{0301}");
    let tokens = lexer.tokenize();

    match &tokens[0].kind {
        TokenKind::Word(s) => assert_eq!(s, "\u{00e9}"),
        other => panic!("expected a word, got {:?}", other),
    }
}

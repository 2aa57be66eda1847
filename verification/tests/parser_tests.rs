use ocean::{Command, Lexer, ParseError, Parser, RedirectKind};

fn parse(input: &str) -> Result<Command, ParseError> {
    let mut lexer = Lexer::new(input);
    let tokens = lexer.tokenize();
    let mut parser = Parser::new(tokens);
    parser.parse()
}

#[test]
fn mod_test_simple_command() {
    let cmd = parse("اطبع مرحبا").unwrap();
    match cmd {
        Command::Simple { name, args, .. } => {
            assert_eq!(name, "اطبع");
            assert_eq!(args, vec!["مرحبا"]);
        },
        _ => panic!("Expected simple command"),
    }
}

#[test]
fn test_command_with_multiple_args() {
    let cmd = parse("انسخ ملف1 ملف2").unwrap();
    match cmd {
        Command::Simple { name, args, .. } => {
            assert_eq!(name, "انسخ");
            assert_eq!(args, vec!["ملف1", "ملف2"]);
        },
        _ => panic!("Expected simple command"),
    }
}

#[test]
fn test_pipeline() {
    let cmd = parse("اقرأ ملف | ابحث نص").unwrap();
    match cmd {
        Command::Pipeline(cmds) => {
            assert_eq!(cmds.len(), 2);
        },
        _ => panic!("Expected pipeline"),
    }
}

#[test]
fn test_redirect_out() {
    let cmd = parse("اطبع نص > output.txt").unwrap();
    match cmd {
        Command::Simple { redirects, .. } => {
            assert_eq!(redirects.len(), 1);
            assert_eq!(redirects[0].kind, RedirectKind::Out);
            assert_eq!(redirects[0].target, "output.txt");
        },
        _ => panic!("Expected simple command with redirect"),
    }
}

#[test]
fn test_redirect_in() {
    let cmd = parse("اقرأ < input.txt").unwrap();
    match cmd {
        Command::Simple { redirects, .. } => {
            assert_eq!(redirects.len(), 1);
            assert_eq!(redirects[0].kind, RedirectKind::In);
        },
        _ => panic!("Expected simple command with redirect"),
    }
}

#[test]
fn test_append() {
    let cmd = parse("اطبع نص >> log.txt").unwrap();
    match cmd {
        Command::Simple { redirects, .. } => {
            assert_eq!(redirects.len(), 1);
            assert_eq!(redirects[0].kind, RedirectKind::Append);
        },
        _ => panic!("Expected simple command with append"),
    }
}

#[test]
fn mod_test_and_operator() {
    let cmd = parse("انشئ مجلد && انتقل مجلد").unwrap();
    assert!(matches!(cmd, Command::And(_, _)));
}

#[test]
fn mod_test_or_operator() {
    let cmd = parse("اقرأ ملف || اطبع خطأ").unwrap();
    assert!(matches!(cmd, Command::Or(_, _)));
}

#[test]
fn test_sequence() {
    let cmd = parse("اطبع أ ; اطبع ب").unwrap();
    match cmd {
        Command::Sequence(cmds) => {
            assert_eq!(cmds.len(), 2);
        },
        _ => panic!("Expected sequence"),
    }
}

#[test]
fn test_background() {
    let cmd = parse("sleep 10 &").unwrap();
    assert!(matches!(cmd, Command::Background(_)));
}

#[test]
fn test_quoted_args() {
    let cmd = parse(r#"اطبع "مرحبا بالعالم""#).unwrap();
    match cmd {
        Command::Simple { args, .. } => {
            assert_eq!(args, vec!["مرحبا بالعالم"]);
        },
        _ => panic!("Expected simple command"),
    }
}

#[test]
fn test_complex_pipeline() {
    let cmd = parse("اقرأ ملف | ابحث كلمة | اعرض > output.txt").unwrap();
    match cmd {
        Command::Pipeline(cmds) => {
            assert_eq!(cmds.len(), 3);
            // The last stage carries the redirect.
            if let Command::Simple { redirects, .. } = &cmds[2] {
                assert_eq!(redirects.len(), 1);
            }
        },
        _ => panic!("Expected pipeline"),
    }
}

#[test]
fn test_empty_input() {
    let cmd = parse("").unwrap();
    assert!(matches!(cmd, Command::Empty));
}

#[test]
fn test_and_or_left_associative() {
    // a && b || c parses as ((a && b) || c): equal precedence, left
    // to right.
    let cmd = parse("a && b || c").unwrap();
    match cmd {
        Command::Or(left, right) => {
            assert!(matches!(*left, Command::And(_, _)));
            match *right {
                Command::Simple { name, .. } => assert_eq!(name, "c"),
                _ => panic!("Expected simple command on the right"),
            }
        },
        _ => panic!("Expected an or chain at the top"),
    }
}

#[test]
fn test_longer_chain_left_associative() {
    // a && b && c || d parses as (((a && b) && c) || d).
    let cmd = parse("a && b && c || d").unwrap();
    match cmd {
        Command::Or(left, _) => match *left {
            Command::And(inner, _) => assert!(matches!(*inner, Command::And(_, _))),
            _ => panic!("Expected a nested and chain"),
        },
        _ => panic!("Expected an or chain at the top"),
    }
}

#[test]
fn test_trailing_tokens_are_an_error() {
    let err = parse("اطبع مرحبا > ").unwrap_err();
    assert!(err.message.contains("Expected word"));
    assert_eq!(err.line, 1);
}

#[test]
fn test_missing_command_is_an_error() {
    let err = parse("| اطبع").unwrap_err();
    assert!(err.message.contains("Expected word"));
}

#[test]
fn test_words_roundtrip_through_text() {
    // Parsing a plain command line and serializing the tree again
    // reproduces it exactly.
    let cmd = parse("name arg1 arg2").unwrap();
    assert_eq!(cmd.to_text(), "name arg1 arg2");
}

#[test]
fn test_empty_redirect_target_rejected() {
    // A redirect must name a real path: an empty quoted target is a
    // positioned syntax error, as the data model's invariant asks.
    let err = parse("اطبع نص > \"\"").unwrap_err();
    assert!(err.message.contains("Expected non-empty redirect target"));
    let err = parse("اقرأ < ''").unwrap_err();
    assert!(err.message.contains("Expected non-empty redirect target"));
}

#[test]
fn test_parse_error_rendering() {
    let err = parse("| x").unwrap_err();
    let text = err.to_text();
    assert!(text.contains("Parse error [1:1]:"));
    assert!(text.contains("Expected word"));
}

#[test]
fn test_session_continues_after_lex_error() {
    // An unterminated quote fails this line only; the next line
    // parses as usual.
    let err = parse("echo \"abc");
    assert!(err.is_err());
    let cmd = parse("echo abc").unwrap();
    match cmd {
        Command::Simple { name, .. } => assert_eq!(name, "echo"),
        _ => panic!("Expected simple command"),
    }
}

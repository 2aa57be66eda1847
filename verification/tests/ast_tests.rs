use ocean::{Command, Redirect, RedirectKind};

#[test]
fn test_simple_command_display() {
    let cmd = Command::Simple {
        name: "اطبع".to_string(),
        args: vec!["مرحبا".to_string()],
        redirects: vec![],
    };
    assert_eq!(cmd.to_text(), "اطبع مرحبا");
}

#[test]
fn test_redirect_display() {
    let cmd = Command::Simple {
        name: "اطبع".to_string(),
        args: vec!["نص".to_string()],
        redirects: vec![Redirect::new(RedirectKind::Out, "output.txt".to_string())],
    };
    assert_eq!(cmd.to_text(), "اطبع نص > output.txt");
}

#[test]
fn test_pipeline_display() {
    let cmd = Command::Pipeline(vec![
        Command::Simple {
            name: "اقرأ".to_string(),
            args: vec!["ملف".to_string()],
            redirects: vec![],
        },
        Command::Simple {
            name: "ابحث".to_string(),
            args: vec!["كلمة".to_string()],
            redirects: vec![],
        },
    ]);
    assert_eq!(cmd.to_text(), "اقرأ ملف | ابحث كلمة");
}

#[test]
fn test_chain_display() {
    let cmd = Command::Or(
        Box::new(Command::And(
            Box::new(Command::Simple {
                name: "a".to_string(),
                args: vec![],
                redirects: vec![],
            }),
            Box::new(Command::Simple {
                name: "b".to_string(),
                args: vec![],
                redirects: vec![],
            }),
        )),
        Box::new(Command::Simple { name: "c".to_string(), args: vec![], redirects: vec![] }),
    );
    assert_eq!(cmd.to_text(), "a && b || c");
}

#[test]
fn test_background_and_empty_display() {
    let cmd = Command::Background(Box::new(Command::Simple {
        name: "sleep".to_string(),
        args: vec!["10".to_string()],
        redirects: vec![],
    }));
    assert_eq!(cmd.to_text(), "sleep 10 &");
    assert_eq!(Command::Empty.to_text(), "");
}

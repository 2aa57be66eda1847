use ocean::{builtin_of, Builtin, ChownPlan, LnPlan, OwnerRef};
use ocean::builtins::{echo_text, format_match, format_match_with_file, parse_u32_radix,
    search_text, version_text, chown_plan, ln_plan};
use ocean::text::{int_text, join_with, nat_text, split_lines};

#[test]
fn test_builtin_aliases() {
    assert_eq!(builtin_of("echo"), Some(Builtin::Echo));
    assert_eq!(builtin_of("اطبع"), Some(Builtin::Echo));
    assert_eq!(builtin_of("exit"), Some(Builtin::Exit));
    assert_eq!(builtin_of("خروج"), Some(Builtin::Exit));
    assert_eq!(builtin_of("quit"), Some(Builtin::Exit));
    assert_eq!(builtin_of("grep"), Some(Builtin::Search));
    assert_eq!(builtin_of("ابحث"), Some(Builtin::Search));
    assert_eq!(builtin_of("ls"), Some(Builtin::Ls));
    assert_eq!(builtin_of("dir"), Some(Builtin::Ls));
    assert_eq!(builtin_of("?"), Some(Builtin::Help));
    assert_eq!(builtin_of("nosuch"), None);
    assert_eq!(builtin_of("Echo"), None);
}

#[test]
fn test_echo_text_forms() {
    let args = vec!["a".to_string(), "b".to_string()];
    assert_eq!(echo_text(&args, None), "a b\n");
    let empty: Vec<String> = vec![];
    let piped = "through".to_string();
    assert_eq!(echo_text(&empty, Some(&piped)), "through");
    assert_eq!(echo_text(&empty, None), "");
}

#[test]
fn test_search_text_filters_lines() {
    let input = "alpha\nbeta\ngamma\nalps\n";
    assert_eq!(search_text("al", input), "alpha\nalps\n");
    assert_eq!(search_text("zz", input), "");
    assert_eq!(search_text("beta", "beta"), "beta\n");
}

#[test]
fn test_split_and_join() {
    let lines = split_lines("a\nb\r\nc");
    assert_eq!(lines, vec!["a".to_string(), "b".to_string(), "c".to_string()]);
    let lines = split_lines("tail\n");
    assert_eq!(lines, vec!["tail".to_string()]);
    assert!(split_lines("").is_empty());
    let parts = vec!["x".to_string(), "y".to_string(), "z".to_string()];
    assert_eq!(join_with(&parts, " | "), "x | y | z");
}

#[test]
fn test_number_rendering() {
    assert_eq!(nat_text(0), "0");
    assert_eq!(nat_text(7), "7");
    assert_eq!(nat_text(4095), "4095");
    assert_eq!(int_text(-128), "-128");
    assert_eq!(int_text(755), "755");
}

#[test]
fn test_parse_u32_radix() {
    assert_eq!(parse_u32_radix("755", 8), Some(0o755));
    assert_eq!(parse_u32_radix("+755", 8), Some(0o755));
    assert_eq!(parse_u32_radix("778", 8), None);
    assert_eq!(parse_u32_radix("", 8), None);
    assert_eq!(parse_u32_radix("1000", 10), Some(1000));
    assert_eq!(parse_u32_radix("4294967295", 10), Some(u32::MAX));
    assert_eq!(parse_u32_radix("4294967296", 10), None);
    assert_eq!(parse_u32_radix("12a", 10), None);
}

#[test]
fn test_chown_plan_forms() {
    let args = vec!["1000:users".to_string(), "file.txt".to_string()];
    match chown_plan(&args) {
        ChownPlan::Plan { user, group, target } => {
            assert!(matches!(user, Some(OwnerRef::Numeric(1000))));
            assert!(matches!(group, Some(OwnerRef::Named(g)) if g == "users"));
            assert_eq!(target, "file.txt");
        },
        _ => panic!("expected a plan"),
    }
    let args = vec![":staff".to_string(), "f".to_string()];
    match chown_plan(&args) {
        ChownPlan::Plan { user, group, .. } => {
            assert!(user.is_none());
            assert!(matches!(group, Some(OwnerRef::Named(g)) if g == "staff"));
        },
        _ => panic!("expected a plan"),
    }
    let args = vec!["root".to_string()];
    assert!(matches!(chown_plan(&args), ChownPlan::Usage));
}

#[test]
fn test_ln_plan_forms() {
    let args = vec!["-s".to_string(), "src".to_string(), "dst".to_string()];
    match ln_plan(&args) {
        LnPlan::Link { symbolic, source, target } => {
            assert!(symbolic);
            assert_eq!(source, "src");
            assert_eq!(target, "dst");
        },
        _ => panic!("expected a link plan"),
    }
    let args = vec!["a".to_string(), "b".to_string()];
    match ln_plan(&args) {
        LnPlan::Link { symbolic, .. } => assert!(!symbolic),
        _ => panic!("expected a link plan"),
    }
    let args = vec!["-s".to_string(), "only".to_string()];
    assert!(matches!(ln_plan(&args), LnPlan::Usage));
}

#[test]
fn test_search_match_formatting() {
    assert_eq!(format_match(3, "hit"), "3:hit\n");
    assert_eq!(format_match_with_file("f.txt", 12, "hit"), "f.txt:12:hit\n");
}

#[test]
fn test_version_text_mentions_project() {
    let v = version_text();
    assert!(v.contains("Ocean"));
    assert!(v.contains("Tarqeem"));
}

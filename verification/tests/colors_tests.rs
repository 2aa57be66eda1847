use ocean::{colored_error, colored_prompt, colored_success, colorize_entry, colorize_entry_full,
    format_entry, list_text, Candidate, EntryInfo, OceanCompleter, OceanHelper};

#[test]
fn test_colored_prompt() {
    let prompt = colored_prompt("محيط", "~/test");
    assert!(!prompt.is_empty());
    assert!(prompt.contains("[") && prompt.contains("]"));
}

#[test]
fn test_colorize_directory() {
    let result = colorize_entry("mydir", true, false);
    assert!(result.contains("mydir"));
    assert!(result.ends_with('/') || result.contains('/'));
}

#[test]
fn test_colorize_entry_kinds() {
    assert!(colorize_entry("run", false, true).contains("run"));
    assert_eq!(colorize_entry("plain.txt", false, false), "plain.txt");
    assert!(colorize_entry_full("link", false, false, true).contains("link"));
    assert!(format_entry("locked", false, false, false, true).contains("locked"));
    assert!(colored_error("bad").contains("bad"));
    assert!(colored_success("good").contains("good"));
}

#[test]
fn test_list_text_sorts_and_joins() {
    let entries = vec![
        EntryInfo {
            name: "zeta.txt".to_string(),
            is_dir: false,
            is_exec: false,
            is_symlink: false,
            readonly: false,
        },
        EntryInfo {
            name: "alpha.txt".to_string(),
            is_dir: false,
            is_exec: false,
            is_symlink: false,
            readonly: false,
        },
    ];
    // Plain files under a color-free test harness: the listing is the
    // names, sorted, one per line.
    assert_eq!(list_text(&entries), "alpha.txt\nzeta.txt\n");
}

#[test]
fn test_command_completion() {
    let completer = OceanCompleter::new();
    let matches: Vec<Candidate> = completer.complete_command("ec");
    assert!(matches.iter().any(|p| p.replacement == "echo"));
}

#[test]
fn test_arabic_command_completion() {
    let completer = OceanCompleter::new();
    let matches = completer.complete_command("اط");
    assert!(matches.iter().any(|p| p.replacement == "اطبع"));
}

#[test]
fn test_empty_command_completion() {
    let completer = OceanCompleter::new();
    let matches = completer.complete_command("");
    // Every command matches: 18 pairs, Arabic and English names.
    assert!(matches.len() >= 18);
}

#[test]
fn test_uppercase_completion_lowercases() {
    // English names match the lowercased partial; a completer that
    // skipped lowercasing would find nothing for "EC".
    let completer = OceanCompleter::new();
    let matches = completer.complete_command("EC");
    assert!(matches.iter().any(|p| p.replacement == "echo"));
}

#[test]
fn test_helper_holds_completer() {
    let helper = OceanHelper::new();
    let matches = helper.completer().complete_command("pw");
    assert!(matches.iter().any(|p| p.replacement == "pwd"));
}

use ocean::{contains_arabic, display_width, format_rtl, get_terminal_width, is_arabic_char,
    shape_arabic, shape_if_arabic};

#[test]
fn test_contains_arabic() {
    assert!(contains_arabic("محيط"));
    assert!(contains_arabic("Hello محيط World"));
    assert!(!contains_arabic("Hello World"));
    assert!(!contains_arabic("12345"));
    assert!(!contains_arabic(""));
}

#[test]
fn test_shape_arabic_empty() {
    assert_eq!(shape_arabic(""), "");
}

#[test]
fn test_shape_arabic_english() {
    // English text passes through unchanged (or minimally changed).
    let result = shape_arabic("Hello");
    assert!(result.contains("Hello") || result == "Hello");
}

#[test]
fn test_shape_if_arabic_optimization() {
    // English text comes back as is.
    assert_eq!(shape_if_arabic("Hello"), "Hello");

    // Arabic text is processed.
    let arabic = "محيط";
    let shaped = shape_if_arabic(arabic);
    assert!(!shaped.is_empty());
}

#[test]
fn test_shaping_changes_connected_letters() {
    // Connected Arabic letters move to their contextual presentation
    // forms; text handed back unchanged would fail this.
    let shaped = shape_arabic("محيط");
    assert_ne!(shaped, "محيط");
}

#[test]
fn test_joiner_text_passes_through_unshaped() {
    // A zero-width joiner before a lam-alef ligature is the reshaper's
    // worst case; such text is deliberately passed through unshaped.
    let tricky = "\u{200d}\u{644}\u{627}";
    assert_eq!(shape_arabic(tricky), tricky);
    assert_eq!(shape_if_arabic(tricky), tricky);
}

#[test]
fn test_is_arabic_char() {
    assert!(is_arabic_char('م'));
    assert!(is_arabic_char('ح'));
    assert!(is_arabic_char('ي'));
    assert!(is_arabic_char('ط'));
    assert!(!is_arabic_char('H'));
    assert!(!is_arabic_char('1'));
}

#[test]
fn test_display_width() {
    // ASCII characters have width 1.
    assert_eq!(display_width("Hello"), 5);
    // Arabic characters typically have width 1.
    assert!(display_width("محيط") > 0);
}

#[test]
fn test_get_terminal_width() {
    let width = get_terminal_width();
    assert!(width >= 80 || width > 0);
}

#[test]
fn test_right_align_to_exact() {
    assert_eq!(ocean::right_align_to("abc", 5), "  abc");
    assert_eq!(ocean::right_align_to("abcdef", 3), "abcdef");
    assert_eq!(ocean::right_align_to("abc", 3), "abc");
}

#[test]
fn test_format_rtl_with_padding() {
    let text = "Test";
    let formatted = format_rtl(text, true);
    // With padding the result is at least as long as the input text.
    assert!(formatted.len() >= text.len());
}

#[test]
fn test_format_rtl_without_padding() {
    let text = "Test";
    let formatted = format_rtl(text, false);
    // Without padding, just shaped; English stays the same.
    assert_eq!(formatted, text);
}

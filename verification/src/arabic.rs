//! Arabic text handling for terminal display: letter shaping to
//! connected forms, detection of Arabic characters, display width, and
//! right alignment for terminals without right-to-left support.

use vstd::prelude::*;

use arabic_reshaper::arabic_reshape;
use crossterm::terminal;
use unicode_width::UnicodeWidthStr;
use vstd::string::StrSliceExecFns;

use crate::text::push_char;

verus! {

/// What `arabic_reshaper` returns for a character sequence: the same
/// text with each Arabic letter in its contextual (initial, medial,
/// final or isolated) form. The result depends on the characters alone.
pub uninterp spec fn shaped_of(s: Seq<char>) -> Seq<char>;

/// Whether the text is free of the zero-width joiner U+200D.
pub open spec fn no_zwj(s: Seq<char>) -> bool {
    forall|i: int| 0 <= i < s.len() ==> #[trigger] s[i] != '\u{200d}'
}

/// Relies on `arabic_reshaper::arabic_reshape`: reshapes Arabic letters
/// to their connected forms. Text holding a zero-width joiner is kept
/// out: the crate drops joiner entries from its shaping buffer but
/// computes ligature offsets over text that still holds them, and
/// indexes the buffer out of bounds when a joiner precedes a lam-alef
/// ligature.
#[verifier::external_body]
fn reshape(text: &str) -> (r: String)
    requires
        no_zwj(text@),
    ensures
        r@ == shaped_of(text@),
{
    arabic_reshape(text)
}

/// Whether the text holds a zero-width joiner.
#[verifier::loop_isolation(false)]
fn contains_zwj(text: &str) -> (r: bool)
    ensures
        r == !no_zwj(text@),
{
    let n = text.unicode_len();
    let mut i: usize = 0;
    while i < n
        invariant
            i <= n,
            n == text@.len(),
            forall|j: int| 0 <= j < i ==> #[trigger] text@[j] != '\u{200d}',
        decreases n - i,
    {
        if text.get_char(i) == '\u{200d}' {
            return true;
        }
        i = i + 1;
    }
    false
}

/// What `unicode_width` returns for a character sequence: its display
/// width in terminal columns. The result depends on the characters
/// alone.
pub uninterp spec fn display_width_of(s: Seq<char>) -> nat;

/// Relies on `unicode_width::UnicodeWidthStr::width`: the display width
/// of the text in terminal columns.
#[verifier::external_body]
pub fn display_width(text: &str) -> (r: usize)
    ensures
        r == display_width_of(text@),
{
    UnicodeWidthStr::width(text)
}

/// Relies on `crossterm::terminal::size`: the current terminal width in
/// columns, or 80 when it cannot be read. The value depends on the
/// terminal, so only its range is stated: a column count is a `u16`.
#[verifier::external_body]
pub fn get_terminal_width() -> (r: usize)
    ensures
        r <= u16::MAX as usize,
{
    terminal::size().map(|(w, _)| w as usize).unwrap_or(80)
}

/// The shaped text: empty text stays empty, text holding a zero-width
/// joiner passes through unshaped, anything else is reshaped.
pub open spec fn spec_shape_arabic(s: Seq<char>) -> Seq<char> {
    if s.len() == 0 {
        Seq::empty()
    } else if !no_zwj(s) {
        s
    } else {
        shaped_of(s)
    }
}

/// Reshapes Arabic letters to their connected contextual forms; text
/// without Arabic letters passes through the reshaper unchanged in
/// practice, and empty text is returned as is. Text holding a
/// zero-width joiner is deliberately passed through unshaped, since
/// the reshaper cannot take it.
pub fn shape_arabic(text: &str) -> (r: String)
    ensures
        r@ == spec_shape_arabic(text@),
{
    if text.is_empty() {
        return String::new();
    }
    if contains_zwj(text) {
        return text.to_owned();
    }
    reshape(text)
}

/// Whether the character lies in one of the Arabic Unicode blocks.
pub open spec fn spec_is_arabic_char(c: char) -> bool {
    ('\u{0600}' <= c <= '\u{06FF}') || ('\u{0750}' <= c <= '\u{077F}') || ('\u{08A0}' <= c
        <= '\u{08FF}') || ('\u{FB50}' <= c <= '\u{FDFF}') || ('\u{FE70}' <= c <= '\u{FEFF}')
}

/// Whether the character is Arabic.
pub fn is_arabic_char(c: char) -> (r: bool)
    ensures
        r == spec_is_arabic_char(c),
{
    matches!(c,
        '\u{0600}'..='\u{06FF}'
        | '\u{0750}'..='\u{077F}'
        | '\u{08A0}'..='\u{08FF}'
        | '\u{FB50}'..='\u{FDFF}'
        | '\u{FE70}'..='\u{FEFF}')
}

/// Whether the text holds at least one Arabic character.
pub open spec fn spec_contains_arabic(s: Seq<char>) -> bool {
    exists|i: int| 0 <= i < s.len() && spec_is_arabic_char(#[trigger] s[i])
}

/// Whether the text holds any Arabic character.
#[verifier::loop_isolation(false)]
pub fn contains_arabic(text: &str) -> (r: bool)
    ensures
        r == spec_contains_arabic(text@),
{
    let n = text.unicode_len();
    let mut i: usize = 0;
    while i < n
        invariant
            i <= n,
            n == text@.len(),
            forall|j: int| 0 <= j < i ==> !spec_is_arabic_char(#[trigger] text@[j]),
        decreases n - i,
    {
        if is_arabic_char(text.get_char(i)) {
            return true;
        }
        i = i + 1;
    }
    false
}

/// The shaped text when it holds Arabic characters, the text unchanged
/// otherwise.
pub open spec fn spec_shape_if_arabic(s: Seq<char>) -> Seq<char> {
    if spec_contains_arabic(s) {
        spec_shape_arabic(s)
    } else {
        s
    }
}

/// Applies Arabic shaping only when the text holds Arabic characters,
/// so plain text is passed through untouched.
pub fn shape_if_arabic(text: &str) -> (r: String)
    ensures
        r@ == spec_shape_if_arabic(text@),
{
    if contains_arabic(text) {
        shape_arabic(text)
    } else {
        text.to_owned()
    }
}

/// A run of spaces of the given length.
pub open spec fn spec_spaces(n: int) -> Seq<char> {
    Seq::new(if n >= 0 {
        n as nat
    } else {
        0
    }, |i: int| ' ')
}

/// Builds a run of spaces.
#[verifier::loop_isolation(false)]
fn spaces(n: usize) -> (r: String)
    ensures
        r@ == spec_spaces(n as int),
{
    let mut r = String::new();
    let mut i: usize = 0;
    while i < n
        invariant
            i <= n,
            r@ == spec_spaces(i as int),
        decreases n - i,
    {
        push_char(&mut r, ' ');
        proof {
            assert(spec_spaces(i + 1) =~= spec_spaces(i as int).push(' '));
        }
        i = i + 1;
    }
    r
}

/// The text pushed to the right edge of a display `w` columns wide:
/// text at least that wide comes back unchanged, anything narrower is
/// preceded by exactly enough spaces to end at the edge.
pub open spec fn spec_right_align_to(s: Seq<char>, w: int) -> Seq<char> {
    if display_width_of(s) >= w {
        s
    } else {
        spec_spaces(w - display_width_of(s)) + s
    }
}

/// Whether a rendering is the text right-aligned to some terminal
/// width; which width depends on the terminal at the moment of the
/// call, so only its range — a `u16` column count — is fixed.
pub open spec fn spec_right_aligned(s: Seq<char>, r: Seq<char>) -> bool {
    exists|w: int| 0 <= w <= u16::MAX && r == #[trigger] spec_right_align_to(s, w)
}

/// Right-aligns the text to the given width by left padding.
pub fn right_align_to(text: &str, width: usize) -> (r: String)
    ensures
        r@ == spec_right_align_to(text@, width as int),
{
    let text_width = display_width(text);
    if text_width >= width {
        return text.to_owned();
    }
    let padding = width - text_width;
    let mut r = spaces(padding);
    crate::text::append_str(&mut r, text);
    r
}

/// Right-aligns the text to the terminal's current width, for
/// terminals without right-to-left support; text at least as wide as
/// the terminal is returned unchanged.
pub fn right_align(text: &str) -> (r: String)
    ensures
        spec_right_aligned(text@, r@),
{
    let term_width = get_terminal_width();
    let r = right_align_to(text, term_width);
    proof {
        assert(r@ == spec_right_align_to(text@, term_width as int));
    }
    r
}

/// Shapes the text and, when padding is asked for, right-aligns it to
/// the terminal's current width.
pub fn format_rtl(text: &str, use_padding: bool) -> (r: String)
    ensures
        !use_padding ==> r@ == spec_shape_arabic(text@),
        use_padding ==> spec_right_aligned(spec_shape_arabic(text@), r@),
{
    let shaped = shape_arabic(text);
    if use_padding {
        right_align(shaped.as_str())
    } else {
        shaped
    }
}

/// Renders one output line: shaped, and right-aligned when padding is
/// on and the line holds Arabic text.
pub fn render_line(text: &str, use_padding: bool) -> (r: String)
    ensures
        ({
            let shaped = spec_shape_if_arabic(text@);
            if use_padding && spec_contains_arabic(shaped) {
                spec_right_aligned(shaped, r@)
            } else {
                r@ == shaped
            }
        }),
{
    let shaped = shape_if_arabic(text);
    if use_padding && contains_arabic(shaped.as_str()) {
        right_align(shaped.as_str())
    } else {
        shaped
    }
}

} // verus!

//! Color formatting for terminal output, over the `colored` crate.
//!
//! `colored` decides at run time whether the terminal takes color, so
//! each styling call returns either the plain text or the text between
//! one ANSI style prefix and the reset sequence. The contracts state
//! both outcomes, for text that holds no escape character of its own
//! (an embedded reset would be rewritten by the crate).

use vstd::prelude::*;

use colored::Colorize;

use crate::text::append_str;
use crate::text::join_with;
use crate::text::lex_le;
use crate::text::push_char;
use crate::text::sort_texts;
use crate::text::spec_join_with;
use crate::text::texts_view;

verus! {

/// Whether the text is free of the ANSI escape character.
pub open spec fn spec_no_esc(s: Seq<char>) -> bool {
    forall|i: int| 0 <= i < s.len() ==> #[trigger] s[i] != '\u{1b}'
}

/// Whether `r` is `s` styled with the given ANSI prefix: either plain,
/// or wrapped between the prefix and the reset sequence.
pub open spec fn spec_styled(prefix: Seq<char>, s: Seq<char>, r: Seq<char>) -> bool {
    r == s || r == prefix + s + "\u{1b}[0m"@
}

/// Relies on `colored::Colorize::cyan` and `bold`: bold cyan, prefix
/// `ESC[1;36m`, when colors are on.
#[verifier::external_body]
fn paint_bold_cyan(s: &str) -> (r: String)
    ensures
        spec_no_esc(s@) ==> spec_styled("\u{1b}[1;36m"@, s@, r@),
{
    s.cyan().bold().to_string()
}

/// Relies on `colored::Colorize::blue`: blue, prefix `ESC[34m`, when
/// colors are on.
#[verifier::external_body]
fn paint_blue(s: &str) -> (r: String)
    ensures
        spec_no_esc(s@) ==> spec_styled("\u{1b}[34m"@, s@, r@),
{
    s.blue().to_string()
}

/// Relies on `colored::Colorize::blue` and `bold`: bold blue, prefix
/// `ESC[1;34m`, when colors are on.
#[verifier::external_body]
fn paint_bold_blue(s: &str) -> (r: String)
    ensures
        spec_no_esc(s@) ==> spec_styled("\u{1b}[1;34m"@, s@, r@),
{
    s.blue().bold().to_string()
}

/// Relies on `colored::Colorize::green` and `bold`: bold green, prefix
/// `ESC[1;32m`, when colors are on.
#[verifier::external_body]
fn paint_bold_green(s: &str) -> (r: String)
    ensures
        spec_no_esc(s@) ==> spec_styled("\u{1b}[1;32m"@, s@, r@),
{
    s.green().bold().to_string()
}

/// Relies on `colored::Colorize::red`: red, prefix `ESC[31m`, when
/// colors are on.
#[verifier::external_body]
fn paint_red(s: &str) -> (r: String)
    ensures
        spec_no_esc(s@) ==> spec_styled("\u{1b}[31m"@, s@, r@),
{
    s.red().to_string()
}

/// Relies on `colored::Colorize::green`: green, prefix `ESC[32m`, when
/// colors are on.
#[verifier::external_body]
fn paint_green(s: &str) -> (r: String)
    ensures
        spec_no_esc(s@) ==> spec_styled("\u{1b}[32m"@, s@, r@),
{
    s.green().to_string()
}

/// Relies on `colored::Colorize::magenta`: magenta, prefix `ESC[35m`,
/// when colors are on.
#[verifier::external_body]
fn paint_magenta(s: &str) -> (r: String)
    ensures
        spec_no_esc(s@) ==> spec_styled("\u{1b}[35m"@, s@, r@),
{
    s.magenta().to_string()
}

/// The shell prompt: the shell's name in bold cyan, the working
/// directory in blue between brackets, and a `> ` mark.
pub fn colored_prompt(shell_name: &str, cwd: &str) -> (r: String)
    ensures
        spec_no_esc(shell_name@) && spec_no_esc(cwd@) ==> exists|a: Seq<char>, b: Seq<char>|
            spec_styled("\u{1b}[1;36m"@, shell_name@, a) && spec_styled("\u{1b}[34m"@, cwd@, b)
                && r@ == a + " ["@ + b + "]> "@,
{
    let styled_name = paint_bold_cyan(shell_name);
    let styled_cwd = paint_blue(cwd);
    let mut r = String::new();
    append_str(&mut r, styled_name.as_str());
    append_str(&mut r, " [");
    append_str(&mut r, styled_cwd.as_str());
    append_str(&mut r, "]> ");
    proof {
        assert(r@ =~= styled_name@ + " ["@ + styled_cwd@ + "]> "@);
    }
    r
}

/// An error message, in red when colors are on.
pub fn colored_error(msg: &str) -> (r: String)
    ensures
        spec_no_esc(msg@) ==> spec_styled("\u{1b}[31m"@, msg@, r@),
{
    paint_red(msg)
}

/// A success message, in green when colors are on.
pub fn colored_success(msg: &str) -> (r: String)
    ensures
        spec_no_esc(msg@) ==> spec_styled("\u{1b}[32m"@, msg@, r@),
{
    paint_green(msg)
}

/// A directory listing entry: directories in bold blue with a trailing
/// slash, executables in bold green, anything else plain.
pub fn colorize_entry(name: &str, is_dir: bool, is_exec: bool) -> (r: String)
    ensures
        spec_no_esc(name@) ==> ({
            if is_dir {
                exists|a: Seq<char>|
                    spec_styled("\u{1b}[1;34m"@, name@, a) && r@ == a + "/"@
            } else if is_exec {
                spec_styled("\u{1b}[1;32m"@, name@, r@)
            } else {
                r@ == name@
            }
        }),
{
    if is_dir {
        let mut r = paint_bold_blue(name);
        append_str(&mut r, "/");
        r
    } else if is_exec {
        paint_bold_green(name)
    } else {
        name.to_owned()
    }
}

/// A directory listing entry with symbolic links shown in magenta.
pub fn colorize_entry_full(name: &str, is_dir: bool, is_exec: bool, is_symlink: bool) -> (r:
    String)
    ensures
        spec_no_esc(name@) ==> ({
            if is_symlink {
                spec_styled("\u{1b}[35m"@, name@, r@)
            } else if is_dir {
                exists|a: Seq<char>|
                    spec_styled("\u{1b}[1;34m"@, name@, a) && r@ == a + "/"@
            } else if is_exec {
                spec_styled("\u{1b}[1;32m"@, name@, r@)
            } else {
                r@ == name@
            }
        }),
{
    if is_symlink {
        paint_magenta(name)
    } else if is_dir {
        let mut r = paint_bold_blue(name);
        append_str(&mut r, "/");
        r
    } else if is_exec {
        paint_bold_green(name)
    } else {
        name.to_owned()
    }
}

/// A listing entry as the file list shows it: symbolic links in
/// magenta, directories in bold blue with a slash, executables in bold
/// green, read-only files in red, anything else plain.
pub fn format_entry(name: &str, is_dir: bool, is_exec: bool, is_symlink: bool, readonly: bool) -> (
    r: String)
    ensures
        spec_no_esc(name@) ==> ({
            if is_symlink {
                spec_styled("\u{1b}[35m"@, name@, r@)
            } else if is_dir {
                exists|a: Seq<char>|
                    spec_styled("\u{1b}[1;34m"@, name@, a) && r@ == a + "/"@
            } else if is_exec {
                spec_styled("\u{1b}[1;32m"@, name@, r@)
            } else if readonly {
                spec_styled("\u{1b}[31m"@, name@, r@)
            } else {
                r@ == name@
            }
        }),
{
    if is_symlink {
        paint_magenta(name)
    } else if is_dir {
        let mut r = paint_bold_blue(name);
        append_str(&mut r, "/");
        r
    } else if is_exec {
        paint_bold_green(name)
    } else if readonly {
        paint_red(name)
    } else {
        name.to_owned()
    }
}

/// One directory entry as the listing sees it: the name and the file
/// kind flags read from its metadata.
#[derive(Debug, Clone, PartialEq)]
pub struct EntryInfo {
    pub name: String,
    pub is_dir: bool,
    pub is_exec: bool,
    pub is_symlink: bool,
    pub readonly: bool,
}

/// Mathematical image of an `EntryInfo`.
pub struct EntryInfoV {
    pub name: Seq<char>,
    pub is_dir: bool,
    pub is_exec: bool,
    pub is_symlink: bool,
    pub readonly: bool,
}

impl View for EntryInfo {
    type V = EntryInfoV;

    open spec fn view(&self) -> EntryInfoV {
        EntryInfoV {
            name: self.name@,
            is_dir: self.is_dir,
            is_exec: self.is_exec,
            is_symlink: self.is_symlink,
            readonly: self.readonly,
        }
    }
}

/// What a decorated listing entry may read as, for a name free of
/// escape characters: exactly `format_entry`'s cases.
pub open spec fn spec_entry_text(e: EntryInfoV, t: Seq<char>) -> bool {
    spec_no_esc(e.name) ==> ({
        if e.is_symlink {
            spec_styled("\u{1b}[35m"@, e.name, t)
        } else if e.is_dir {
            exists|a: Seq<char>| spec_styled("\u{1b}[1;34m"@, e.name, a) && t == a + "/"@
        } else if e.is_exec {
            spec_styled("\u{1b}[1;32m"@, e.name, t)
        } else if e.readonly {
            spec_styled("\u{1b}[31m"@, e.name, t)
        } else {
            t == e.name
        }
    })
}

/// The listing text for a directory's entries: each entry decorated as
/// `format_entry` shows it, the decorated lines sorted into
/// code-point order, joined by newlines with a final newline.
#[verifier::loop_isolation(false)]
pub fn list_text(entries: &Vec<EntryInfo>) -> (r: String)
    ensures
        exists|decorated: Seq<Seq<char>>, items: Seq<Seq<char>>|
            {
                &&& #[trigger] decorated.to_multiset() == #[trigger] items.to_multiset()
                &&& decorated.len() == entries@.len()
                &&& (forall|i: int|
                    0 <= i < entries@.len() ==> spec_entry_text(
                        entries@[i]@,
                        #[trigger] decorated[i],
                    ))
                &&& (forall|i: int, j: int|
                    0 <= i < j < items.len() ==> lex_le(#[trigger] items[i], #[trigger] items[j]))
                &&& r@ == spec_join_with(items, "\n"@).push('\n')
            },
{
    let mut decorated: Vec<String> = Vec::new();
    let mut i: usize = 0;
    while i < entries.len()
        invariant
            i <= entries@.len(),
            decorated@.len() == i,
            forall|k: int|
                0 <= k < i ==> spec_entry_text(entries@[k]@, #[trigger] texts_view(decorated@)[k]),
        decreases entries@.len() - i,
    {
        let e = &entries[i];
        let line = format_entry(
            e.name.as_str(),
            e.is_dir,
            e.is_exec,
            e.is_symlink,
            e.readonly,
        );
        let ghost prev = decorated@;
        decorated.push(line);
        proof {
            assert(forall|k: int|
                0 <= k < prev.len() ==> #[trigger] texts_view(decorated@)[k] == texts_view(
                    prev,
                )[k]);
        }
        i = i + 1;
    }
    let ghost dec_v = texts_view(decorated@);
    sort_texts(&mut decorated);
    let ghost items_v = texts_view(decorated@);
    let mut r = join_with(&decorated, "\n");
    push_char(&mut r, '\n');
    proof {
        assert(dec_v.to_multiset() == items_v.to_multiset());
    }
    r
}

} // verus!

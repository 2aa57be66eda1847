//! The parser: recursive descent over one line's token sequence,
//! producing a single command tree or a positioned syntax error.
//!
//! Grammar, loosest first; `;`, `&&`/`||` (equal precedence) and `|`
//! all associate to the left, and a list of one member collapses to the
//! bare member:
//!
//! ```text
//! line      = sequence
//! sequence  = and_or (';' and_or)*
//! and_or    = pipeline (('&&' | '||') pipeline)*
//! pipeline  = simple ('|' simple)*
//! simple    = WORD (WORD | redirect)* ['&']
//! redirect  = ('>' | '>>' | '<') WORD
//! WORD      = bare-word-token | quoted-string-token
//! ```
//!
//! The executable parser is verified against the recursive functions
//! `spec_parse_*`, which define the grammar once over token views.

use vstd::prelude::*;

use crate::ast::{Command, CommandV, Redirect, RedirectKind, RedirectV};
use crate::lexer::token_views;
use crate::text::append_str;
use crate::token::{Token, TokenKind, TokenKindV, TokenV};

verus! {

/// A positioned syntax error: the diagnostic text and the 1-indexed
/// line and column of the offending token.
#[derive(Debug, Clone)]
pub struct ParseError {
    pub message: String,
    pub line: usize,
    pub column: usize,
}

/// Mathematical image of a `ParseError`.
pub struct ParseErrorV {
    pub message: Seq<char>,
    pub line: int,
    pub column: int,
}

impl View for ParseError {
    type V = ParseErrorV;

    open spec fn view(&self) -> ParseErrorV {
        ParseErrorV { message: self.message@, line: self.line as int, column: self.column as int }
    }
}

impl ParseError {
    pub fn new(message: String, line: usize, column: usize) -> (e: ParseError)
        ensures
            e@ == (ParseErrorV { message: message@, line: line as int, column: column as int }),
    {
        ParseError { message, line, column }
    }
}

impl ParseError {
    /// The rendered diagnostic: one bilingual line carrying the
    /// position and the message.
    pub fn to_text(&self) -> (r: String)
        ensures
            r@ == "خطأ نحوي / Parse error ["@ + crate::text::spec_nat_text(self.line as int)
                + ":"@ + crate::text::spec_nat_text(self.column as int) + "]: "@ + self.message@,
    {
        let mut r = String::new();
        append_str(&mut r, "خطأ نحوي / Parse error [");
        let line_text = crate::text::nat_text(self.line as u64);
        append_str(&mut r, line_text.as_str());
        append_str(&mut r, ":");
        let col_text = crate::text::nat_text(self.column as u64);
        append_str(&mut r, col_text.as_str());
        append_str(&mut r, "]: ");
        append_str(&mut r, self.message.as_str());
        r
    }
}

/// Result type for parsing.
pub type ParseResult<T> = Result<T, ParseError>;

/// The diagnostic text for a token kind, used in error messages.
pub open spec fn spec_kind_text(k: TokenKindV) -> Seq<char> {
    match k {
        TokenKindV::Word(s) => "Word("@ + s + ")"@,
        TokenKindV::Quoted(s) => "String(\""@ + s + "\")"@,
        TokenKindV::Pipe => "|"@,
        TokenKindV::RedirectOut => ">"@,
        TokenKindV::RedirectIn => "<"@,
        TokenKindV::Append => ">>"@,
        TokenKindV::And => "&&"@,
        TokenKindV::Or => "||"@,
        TokenKindV::Semicolon => ";"@,
        TokenKindV::Background => "&"@,
        TokenKindV::Newline => "\\n"@,
        TokenKindV::Eof => "EOF"@,
        TokenKindV::Error(m) => "Error: "@ + m,
    }
}

/// The diagnostic text for a token kind.
pub fn token_kind_text(k: &TokenKind) -> (r: String)
    ensures
        r@ == spec_kind_text(k@),
{
    match k {
        TokenKind::Word(s) => {
            let mut r = String::new();
            append_str(&mut r, "Word(");
            append_str(&mut r, s.as_str());
            append_str(&mut r, ")");
            r
        },
        TokenKind::Quoted(s) => {
            let mut r = String::new();
            append_str(&mut r, "String(\"");
            append_str(&mut r, s.as_str());
            append_str(&mut r, "\")");
            r
        },
        TokenKind::Pipe => "|".to_owned(),
        TokenKind::RedirectOut => ">".to_owned(),
        TokenKind::RedirectIn => "<".to_owned(),
        TokenKind::Append => ">>".to_owned(),
        TokenKind::And => "&&".to_owned(),
        TokenKind::Or => "||".to_owned(),
        TokenKind::Semicolon => ";".to_owned(),
        TokenKind::Background => "&".to_owned(),
        TokenKind::Newline => "\\n".to_owned(),
        TokenKind::Eof => "EOF".to_owned(),
        TokenKind::Error(m) => {
            let mut r = String::new();
            append_str(&mut r, "Error: ");
            append_str(&mut r, m.as_str());
            r
        },
    }
}

/// The outcome of one parsing step: a value and the position after it,
/// or a positioned error.
pub enum Parsed<T> {
    Done { val: T, next: int },
    Fail { err: ParseErrorV },
}

/// The error for a token that cannot start or continue a word.
pub open spec fn expected_word_err(t: TokenV) -> ParseErrorV {
    ParseErrorV {
        message: "متوقع كلمة / Expected word, got: "@ + spec_kind_text(t.kind),
        line: t.span.line,
        column: t.span.column,
    }
}

/// The error for a token that is not a redirect operator.
pub open spec fn expected_redirect_err(t: TokenV) -> ParseErrorV {
    ParseErrorV {
        message: "متوقع عامل إعادة توجيه / Expected redirect operator"@,
        line: t.span.line,
        column: t.span.column,
    }
}

/// The error for a redirect whose target word is empty.
pub open spec fn empty_target_err(t: TokenV) -> ParseErrorV {
    ParseErrorV {
        message: "متوقع اسم هدف غير فارغ / Expected non-empty redirect target"@,
        line: t.span.line,
        column: t.span.column,
    }
}

/// The error for input left over after a complete parse.
pub open spec fn unexpected_token_err(t: TokenV) -> ParseErrorV {
    ParseErrorV {
        message: "رمز غير متوقع / Unexpected token: "@ + spec_kind_text(t.kind),
        line: t.span.line,
        column: t.span.column,
    }
}

/// Whether the position is at the end: on the `Eof` token.
pub open spec fn spec_at_end(toks: Seq<TokenV>, pos: int) -> bool {
    !(0 <= pos < toks.len()) || toks[pos].kind is Eof
}

/// Position after any newline tokens.
pub open spec fn spec_skip_newlines(toks: Seq<TokenV>, pos: int) -> int
    decreases toks.len() - pos,
{
    if 0 <= pos < toks.len() && toks[pos].kind is Newline {
        spec_skip_newlines(toks, pos + 1)
    } else {
        pos
    }
}

/// A word: a bare word or a quoted string, interchangeable as a
/// command name, argument or redirect target.
pub open spec fn spec_expect_word(toks: Seq<TokenV>, pos: int) -> Parsed<Seq<char>> {
    if !(0 <= pos < toks.len()) {
        Parsed::Fail { err: expected_word_err(toks[pos]) }
    } else {
        match toks[pos].kind {
            TokenKindV::Word(s) => Parsed::Done { val: s, next: pos + 1 },
            TokenKindV::Quoted(s) => Parsed::Done { val: s, next: pos + 1 },
            _ => Parsed::Fail { err: expected_word_err(toks[pos]) },
        }
    }
}

/// Whether the token at the position is a redirect operator.
pub open spec fn spec_is_redirect(toks: Seq<TokenV>, pos: int) -> bool {
    toks[pos].kind is RedirectOut || toks[pos].kind is RedirectIn || toks[pos].kind is Append
}

/// A redirect: its operator, then its target word, which must not be
/// empty — an empty quoted target is a positioned syntax error, so
/// that every redirect handed to the executor names a real path.
pub open spec fn spec_parse_redirect(toks: Seq<TokenV>, pos: int) -> Parsed<RedirectV> {
    let kind = match toks[pos].kind {
        TokenKindV::RedirectOut => Some(RedirectKind::Out),
        TokenKindV::RedirectIn => Some(RedirectKind::In),
        TokenKindV::Append => Some(RedirectKind::Append),
        _ => None,
    };
    match kind {
        Some(k) => match spec_expect_word(toks, pos + 1) {
            Parsed::Done { val, next } => if val.len() == 0 {
                Parsed::Fail { err: empty_target_err(toks[pos + 1]) }
            } else {
                Parsed::Done { val: RedirectV { kind: k, target: val }, next }
            },
            Parsed::Fail { err } => Parsed::Fail { err },
        },
        None => Parsed::Fail { err: expected_redirect_err(toks[pos]) },
    }
}

/// The arguments and redirects following a command name, in order,
/// until a token that is neither a word nor a redirect operator.
pub open spec fn spec_simple_items(
    toks: Seq<TokenV>,
    pos: int,
    args: Seq<Seq<char>>,
    redirects: Seq<RedirectV>,
) -> Parsed<(Seq<Seq<char>>, Seq<RedirectV>)>
    decreases toks.len() - pos,
        via spec_simple_items_dec
{
    if !(0 <= pos < toks.len()) {
        Parsed::Done { val: (args, redirects), next: pos }
    } else if spec_is_redirect(toks, pos) {
        match spec_parse_redirect(toks, pos) {
            Parsed::Done { val, next } => spec_simple_items(toks, next, args, redirects.push(val)),
            Parsed::Fail { err } => Parsed::Fail { err },
        }
    } else {
        match toks[pos].kind {
            TokenKindV::Word(s) => spec_simple_items(toks, pos + 1, args.push(s), redirects),
            TokenKindV::Quoted(s) => spec_simple_items(toks, pos + 1, args.push(s), redirects),
            _ => Parsed::Done { val: (args, redirects), next: pos },
        }
    }
}

#[via_fn]
proof fn spec_simple_items_dec(
    toks: Seq<TokenV>,
    pos: int,
    args: Seq<Seq<char>>,
    redirects: Seq<RedirectV>,
) {
}

/// A simple command: a word naming it, then arguments and redirects,
/// then an optional background mark.
pub open spec fn spec_parse_simple(toks: Seq<TokenV>, pos: int) -> Parsed<CommandV> {
    match spec_expect_word(toks, pos) {
        Parsed::Done { val: name, next } => match spec_simple_items(
            toks,
            next,
            Seq::empty(),
            Seq::empty(),
        ) {
            Parsed::Done { val: items, next: next2 } => {
                let cmd = CommandV::Simple { name, args: items.0, redirects: items.1 };
                if 0 <= next2 < toks.len() && toks[next2].kind is Background {
                    Parsed::Done { val: CommandV::Background(Box::new(cmd)), next: next2 + 1 }
                } else {
                    Parsed::Done { val: cmd, next: next2 }
                }
            },
            Parsed::Fail { err } => Parsed::Fail { err },
        },
        Parsed::Fail { err } => Parsed::Fail { err },
    }
}

/// The members of a pipeline after the first, across `|` tokens.
pub open spec fn spec_pipe_rest(toks: Seq<TokenV>, pos: int, acc: Seq<CommandV>) -> Parsed<
    CommandV,
>
    decreases toks.len() - pos,
        via spec_pipe_rest_dec
{
    if 0 <= pos < toks.len() && toks[pos].kind is Pipe {
        let p2 = spec_skip_newlines(toks, pos + 1);
        match spec_parse_simple(toks, p2) {
            Parsed::Done { val, next } => spec_pipe_rest(toks, next, acc.push(val)),
            Parsed::Fail { err } => Parsed::Fail { err },
        }
    } else {
        if acc.len() == 1 {
            Parsed::Done { val: acc[0], next: pos }
        } else {
            Parsed::Done { val: CommandV::Pipeline(acc), next: pos }
        }
    }
}

#[via_fn]
proof fn spec_pipe_rest_dec(toks: Seq<TokenV>, pos: int, acc: Seq<CommandV>) {
    if 0 <= pos < toks.len() && toks[pos].kind is Pipe {
        lemma_skip_newlines_bounds(toks, pos + 1);
        lemma_parse_simple_bounds(toks, spec_skip_newlines(toks, pos + 1));
    }
}

/// A pipeline: simple commands joined by `|`; a single member stands
/// bare.
pub open spec fn spec_parse_pipeline(toks: Seq<TokenV>, pos: int) -> Parsed<CommandV> {
    match spec_parse_simple(toks, pos) {
        Parsed::Done { val, next } => spec_pipe_rest(toks, next, seq![val]),
        Parsed::Fail { err } => Parsed::Fail { err },
    }
}

/// The `&&`/`||` chain after the first pipeline: equal precedence,
/// folded to the left.
pub open spec fn spec_and_or_rest(toks: Seq<TokenV>, pos: int, left: CommandV) -> Parsed<CommandV>
    decreases toks.len() - pos,
        via spec_and_or_rest_dec
{
    if 0 <= pos < toks.len() && toks[pos].kind is And {
        let p2 = spec_skip_newlines(toks, pos + 1);
        match spec_parse_pipeline(toks, p2) {
            Parsed::Done { val, next } => spec_and_or_rest(
                toks,
                next,
                CommandV::And(Box::new(left), Box::new(val)),
            ),
            Parsed::Fail { err } => Parsed::Fail { err },
        }
    } else if 0 <= pos < toks.len() && toks[pos].kind is Or {
        let p2 = spec_skip_newlines(toks, pos + 1);
        match spec_parse_pipeline(toks, p2) {
            Parsed::Done { val, next } => spec_and_or_rest(
                toks,
                next,
                CommandV::Or(Box::new(left), Box::new(val)),
            ),
            Parsed::Fail { err } => Parsed::Fail { err },
        }
    } else {
        Parsed::Done { val: left, next: pos }
    }
}

#[via_fn]
proof fn spec_and_or_rest_dec(toks: Seq<TokenV>, pos: int, left: CommandV) {
    if 0 <= pos < toks.len() && (toks[pos].kind is And || toks[pos].kind is Or) {
        lemma_skip_newlines_bounds(toks, pos + 1);
        lemma_parse_pipeline_bounds(toks, spec_skip_newlines(toks, pos + 1));
    }
}

/// An and-or chain: pipelines joined by `&&` or `||`.
pub open spec fn spec_parse_and_or(toks: Seq<TokenV>, pos: int) -> Parsed<CommandV> {
    match spec_parse_pipeline(toks, pos) {
        Parsed::Done { val, next } => spec_and_or_rest(toks, next, val),
        Parsed::Fail { err } => Parsed::Fail { err },
    }
}

/// The members of a sequence after those in `acc`, across `;` tokens; a
/// trailing `;` before the end of input is allowed.
pub open spec fn spec_seq_rest(toks: Seq<TokenV>, pos: int, acc: Seq<CommandV>) -> Parsed<CommandV>
    decreases toks.len() - pos,
        via spec_seq_rest_dec
{
    if 0 <= pos < toks.len() && toks[pos].kind is Semicolon {
        let p2 = spec_skip_newlines(toks, pos + 1);
        if spec_at_end(toks, p2) {
            spec_collapse_seq(acc, p2)
        } else {
            match spec_parse_and_or(toks, p2) {
                Parsed::Done { val, next } => spec_seq_rest(toks, next, acc.push(val)),
                Parsed::Fail { err } => Parsed::Fail { err },
            }
        }
    } else {
        spec_collapse_seq(acc, pos)
    }
}

/// A member list collapses to the bare member when it has one element.
pub open spec fn spec_collapse_seq(acc: Seq<CommandV>, pos: int) -> Parsed<CommandV> {
    if acc.len() == 1 {
        Parsed::Done { val: acc[0], next: pos }
    } else {
        Parsed::Done { val: CommandV::Sequence(acc), next: pos }
    }
}

#[via_fn]
proof fn spec_seq_rest_dec(toks: Seq<TokenV>, pos: int, acc: Seq<CommandV>) {
    if 0 <= pos < toks.len() && toks[pos].kind is Semicolon {
        lemma_skip_newlines_bounds(toks, pos + 1);
        let p2 = spec_skip_newlines(toks, pos + 1);
        if !spec_at_end(toks, p2) {
            lemma_parse_and_or_bounds(toks, p2);
        }
    }
}

/// A sequence: and-or chains joined by `;`.
pub open spec fn spec_parse_sequence(toks: Seq<TokenV>, pos: int) -> Parsed<CommandV> {
    match spec_parse_and_or(toks, pos) {
        Parsed::Done { val, next } => spec_seq_rest(toks, next, seq![val]),
        Parsed::Fail { err } => Parsed::Fail { err },
    }
}

/// One whole line: leading newlines are skipped; an empty line is the
/// empty command; any non-`Eof` token after a complete parse is an
/// error.
pub open spec fn spec_parse(toks: Seq<TokenV>) -> Result<CommandV, ParseErrorV> {
    let pos = spec_skip_newlines(toks, 0);
    if spec_at_end(toks, pos) {
        Ok(CommandV::Empty)
    } else {
        match spec_parse_sequence(toks, pos) {
            Parsed::Done { val, next } => {
                let p2 = spec_skip_newlines(toks, next);
                if spec_at_end(toks, p2) {
                    Ok(val)
                } else {
                    Err(unexpected_token_err(toks[p2]))
                }
            },
            Parsed::Fail { err } => Err(err),
        }
    }
}

pub proof fn lemma_skip_newlines_bounds(toks: Seq<TokenV>, pos: int)
    ensures
        pos <= spec_skip_newlines(toks, pos),
        pos <= toks.len() ==> spec_skip_newlines(toks, pos) <= toks.len(),
    decreases toks.len() - pos,
{
    if 0 <= pos < toks.len() && toks[pos].kind is Newline {
        lemma_skip_newlines_bounds(toks, pos + 1);
    }
}

/// The final token is `Eof`, as the lexer guarantees.
pub open spec fn wf_toks(toks: Seq<TokenV>) -> bool {
    toks.len() >= 1 && toks[toks.len() - 1].kind is Eof
}

pub proof fn lemma_expect_word_bounds(toks: Seq<TokenV>, pos: int)
    ensures
        ({
            match spec_expect_word(toks, pos) {
                Parsed::Done { next, .. } => pos < next <= toks.len() && next == pos + 1,
                Parsed::Fail { .. } => true,
            }
        }),
{
}

pub proof fn lemma_parse_redirect_bounds(toks: Seq<TokenV>, pos: int)
    ensures
        ({
            match spec_parse_redirect(toks, pos) {
                Parsed::Done { next, .. } => pos < next <= toks.len(),
                Parsed::Fail { .. } => true,
            }
        }),
{
    lemma_expect_word_bounds(toks, pos + 1);
}

pub proof fn lemma_simple_items_bounds(
    toks: Seq<TokenV>,
    pos: int,
    args: Seq<Seq<char>>,
    redirects: Seq<RedirectV>,
)
    requires
        pos <= toks.len(),
    ensures
        ({
            match spec_simple_items(toks, pos, args, redirects) {
                Parsed::Done { next, .. } => pos <= next <= toks.len(),
                Parsed::Fail { .. } => true,
            }
        }),
    decreases toks.len() - pos,
{
    if 0 <= pos < toks.len() {
        if spec_is_redirect(toks, pos) {
            lemma_parse_redirect_bounds(toks, pos);
            match spec_parse_redirect(toks, pos) {
                Parsed::Done { val, next } => {
                    lemma_simple_items_bounds(toks, next, args, redirects.push(val));
                },
                Parsed::Fail { .. } => {},
            }
        } else {
            match toks[pos].kind {
                TokenKindV::Word(s) => {
                    lemma_simple_items_bounds(toks, pos + 1, args.push(s), redirects);
                },
                TokenKindV::Quoted(s) => {
                    lemma_simple_items_bounds(toks, pos + 1, args.push(s), redirects);
                },
                _ => {},
            }
        }
    }
}

pub proof fn lemma_parse_simple_bounds(toks: Seq<TokenV>, pos: int)
    requires
        pos <= toks.len(),
    ensures
        ({
            match spec_parse_simple(toks, pos) {
                Parsed::Done { next, .. } => pos < next <= toks.len(),
                Parsed::Fail { .. } => true,
            }
        }),
{
    lemma_expect_word_bounds(toks, pos);
    match spec_expect_word(toks, pos) {
        Parsed::Done { val: _, next } => {
            lemma_simple_items_bounds(toks, next, Seq::empty(), Seq::empty());
        },
        Parsed::Fail { .. } => {},
    }
}

pub proof fn lemma_pipe_rest_bounds(toks: Seq<TokenV>, pos: int, acc: Seq<CommandV>)
    requires
        pos <= toks.len(),
    ensures
        ({
            match spec_pipe_rest(toks, pos, acc) {
                Parsed::Done { next, .. } => pos <= next <= toks.len(),
                Parsed::Fail { .. } => true,
            }
        }),
    decreases toks.len() - pos,
{
    if 0 <= pos < toks.len() && toks[pos].kind is Pipe {
        lemma_skip_newlines_bounds(toks, pos + 1);
        let p2 = spec_skip_newlines(toks, pos + 1);
        lemma_parse_simple_bounds(toks, p2);
        match spec_parse_simple(toks, p2) {
            Parsed::Done { val, next } => {
                lemma_pipe_rest_bounds(toks, next, acc.push(val));
            },
            Parsed::Fail { .. } => {},
        }
    }
}

pub proof fn lemma_parse_pipeline_bounds(toks: Seq<TokenV>, pos: int)
    requires
        pos <= toks.len(),
    ensures
        ({
            match spec_parse_pipeline(toks, pos) {
                Parsed::Done { next, .. } => pos < next <= toks.len(),
                Parsed::Fail { .. } => true,
            }
        }),
{
    lemma_parse_simple_bounds(toks, pos);
    match spec_parse_simple(toks, pos) {
        Parsed::Done { val, next } => {
            lemma_pipe_rest_bounds(toks, next, seq![val]);
        },
        Parsed::Fail { .. } => {},
    }
}

pub proof fn lemma_and_or_rest_bounds(toks: Seq<TokenV>, pos: int, left: CommandV)
    requires
        pos <= toks.len(),
    ensures
        ({
            match spec_and_or_rest(toks, pos, left) {
                Parsed::Done { next, .. } => pos <= next <= toks.len(),
                Parsed::Fail { .. } => true,
            }
        }),
    decreases toks.len() - pos,
{
    if 0 <= pos < toks.len() && (toks[pos].kind is And || toks[pos].kind is Or) {
        lemma_skip_newlines_bounds(toks, pos + 1);
        let p2 = spec_skip_newlines(toks, pos + 1);
        lemma_parse_pipeline_bounds(toks, p2);
        match spec_parse_pipeline(toks, p2) {
            Parsed::Done { val, next } => {
                if toks[pos].kind is And {
                    lemma_and_or_rest_bounds(
                        toks,
                        next,
                        CommandV::And(Box::new(left), Box::new(val)),
                    );
                } else {
                    lemma_and_or_rest_bounds(
                        toks,
                        next,
                        CommandV::Or(Box::new(left), Box::new(val)),
                    );
                }
            },
            Parsed::Fail { .. } => {},
        }
    }
}

pub proof fn lemma_parse_and_or_bounds(toks: Seq<TokenV>, pos: int)
    requires
        pos <= toks.len(),
    ensures
        ({
            match spec_parse_and_or(toks, pos) {
                Parsed::Done { next, .. } => pos < next <= toks.len(),
                Parsed::Fail { .. } => true,
            }
        }),
{
    lemma_parse_pipeline_bounds(toks, pos);
    match spec_parse_pipeline(toks, pos) {
        Parsed::Done { val, next } => {
            lemma_and_or_rest_bounds(toks, next, val);
        },
        Parsed::Fail { .. } => {},
    }
}

proof fn lemma_simple_items_wf(
    toks: Seq<TokenV>,
    pos: int,
    args: Seq<Seq<char>>,
    redirects: Seq<RedirectV>,
)
    requires
        pos <= toks.len(),
        crate::ast::wf_redirects(redirects),
    ensures
        ({
            match spec_simple_items(toks, pos, args, redirects) {
                Parsed::Done { val, .. } => crate::ast::wf_redirects(val.1),
                Parsed::Fail { .. } => true,
            }
        }),
    decreases toks.len() - pos,
{
    if 0 <= pos < toks.len() {
        if spec_is_redirect(toks, pos) {
            lemma_parse_redirect_bounds(toks, pos);
            match spec_parse_redirect(toks, pos) {
                Parsed::Done { val, next } => {
                    assert(val.target.len() > 0);
                    assert(crate::ast::wf_redirects(redirects.push(val)));
                    lemma_simple_items_wf(toks, next, args, redirects.push(val));
                },
                Parsed::Fail { .. } => {},
            }
        } else {
            match toks[pos].kind {
                TokenKindV::Word(w) => {
                    lemma_simple_items_wf(toks, pos + 1, args.push(w), redirects);
                },
                TokenKindV::Quoted(w) => {
                    lemma_simple_items_wf(toks, pos + 1, args.push(w), redirects);
                },
                _ => {},
            }
        }
    }
}

proof fn lemma_parse_simple_wf(toks: Seq<TokenV>, pos: int)
    requires
        pos <= toks.len(),
    ensures
        ({
            match spec_parse_simple(toks, pos) {
                Parsed::Done { val, .. } => crate::ast::wf_cmd(val),
                Parsed::Fail { .. } => true,
            }
        }),
{
    lemma_expect_word_bounds(toks, pos);
    match spec_expect_word(toks, pos) {
        Parsed::Done { val: name, next } => {
            lemma_simple_items_wf(toks, next, Seq::empty(), Seq::empty());
            match spec_simple_items(toks, next, Seq::empty(), Seq::empty()) {
                Parsed::Done { val: items, next: next2 } => {
                    let simple = CommandV::Simple {
                        name,
                        args: items.0,
                        redirects: items.1,
                    };
                    assert(crate::ast::wf_cmd(simple));
                    assert(crate::ast::wf_cmd(CommandV::Background(Box::new(simple))));
                },
                Parsed::Fail { .. } => {},
            }
        },
        Parsed::Fail { .. } => {},
    }
}

proof fn lemma_pipe_rest_wf(toks: Seq<TokenV>, pos: int, acc: Seq<CommandV>)
    requires
        pos <= toks.len(),
        acc.len() >= 1,
        crate::ast::wf_cmds(acc),
    ensures
        ({
            match spec_pipe_rest(toks, pos, acc) {
                Parsed::Done { val, .. } => crate::ast::wf_cmd(val),
                Parsed::Fail { .. } => true,
            }
        }),
    decreases toks.len() - pos,
{
    if 0 <= pos < toks.len() && toks[pos].kind is Pipe {
        lemma_skip_newlines_bounds(toks, pos + 1);
        let p2 = spec_skip_newlines(toks, pos + 1);
        lemma_parse_simple_bounds(toks, p2);
        lemma_parse_simple_wf(toks, p2);
        match spec_parse_simple(toks, p2) {
            Parsed::Done { val, next } => {
                assert(acc.push(val).drop_last() =~= acc);
                lemma_pipe_rest_wf(toks, next, acc.push(val));
            },
            Parsed::Fail { .. } => {},
        }
    } else {
        if acc.len() == 1 {
            assert(acc.last() == acc[0]);
        }
    }
}

proof fn lemma_parse_pipeline_wf(toks: Seq<TokenV>, pos: int)
    requires
        pos <= toks.len(),
    ensures
        ({
            match spec_parse_pipeline(toks, pos) {
                Parsed::Done { val, .. } => crate::ast::wf_cmd(val),
                Parsed::Fail { .. } => true,
            }
        }),
{
    lemma_parse_simple_bounds(toks, pos);
    lemma_parse_simple_wf(toks, pos);
    match spec_parse_simple(toks, pos) {
        Parsed::Done { val, next } => {
            assert(seq![val].drop_last() =~= Seq::<CommandV>::empty());
            assert(crate::ast::wf_cmds(Seq::<CommandV>::empty()));
            assert(crate::ast::wf_cmds(seq![val]));
            lemma_pipe_rest_wf(toks, next, seq![val]);
        },
        Parsed::Fail { .. } => {},
    }
}

proof fn lemma_and_or_rest_wf(toks: Seq<TokenV>, pos: int, left: CommandV)
    requires
        pos <= toks.len(),
        crate::ast::wf_cmd(left),
    ensures
        ({
            match spec_and_or_rest(toks, pos, left) {
                Parsed::Done { val, .. } => crate::ast::wf_cmd(val),
                Parsed::Fail { .. } => true,
            }
        }),
    decreases toks.len() - pos,
{
    if 0 <= pos < toks.len() && (toks[pos].kind is And || toks[pos].kind is Or) {
        lemma_skip_newlines_bounds(toks, pos + 1);
        let p2 = spec_skip_newlines(toks, pos + 1);
        lemma_parse_pipeline_bounds(toks, p2);
        lemma_parse_pipeline_wf(toks, p2);
        match spec_parse_pipeline(toks, p2) {
            Parsed::Done { val, next } => {
                if toks[pos].kind is And {
                    lemma_and_or_rest_wf(toks, next, CommandV::And(Box::new(left), Box::new(val)));
                } else {
                    lemma_and_or_rest_wf(toks, next, CommandV::Or(Box::new(left), Box::new(val)));
                }
            },
            Parsed::Fail { .. } => {},
        }
    }
}

proof fn lemma_parse_and_or_wf(toks: Seq<TokenV>, pos: int)
    requires
        pos <= toks.len(),
    ensures
        ({
            match spec_parse_and_or(toks, pos) {
                Parsed::Done { val, .. } => crate::ast::wf_cmd(val),
                Parsed::Fail { .. } => true,
            }
        }),
{
    lemma_parse_pipeline_bounds(toks, pos);
    lemma_parse_pipeline_wf(toks, pos);
    match spec_parse_pipeline(toks, pos) {
        Parsed::Done { val, next } => {
            lemma_and_or_rest_wf(toks, next, val);
        },
        Parsed::Fail { .. } => {},
    }
}

proof fn lemma_seq_rest_wf(toks: Seq<TokenV>, pos: int, acc: Seq<CommandV>)
    requires
        pos <= toks.len(),
        acc.len() >= 1,
        crate::ast::wf_cmds(acc),
    ensures
        ({
            match spec_seq_rest(toks, pos, acc) {
                Parsed::Done { val, .. } => crate::ast::wf_cmd(val),
                Parsed::Fail { .. } => true,
            }
        }),
    decreases toks.len() - pos,
{
    if acc.len() == 1 {
        assert(acc.last() == acc[0]);
    }
    if 0 <= pos < toks.len() && toks[pos].kind is Semicolon {
        lemma_skip_newlines_bounds(toks, pos + 1);
        let p2 = spec_skip_newlines(toks, pos + 1);
        if !spec_at_end(toks, p2) {
            lemma_parse_and_or_bounds(toks, p2);
            lemma_parse_and_or_wf(toks, p2);
            match spec_parse_and_or(toks, p2) {
                Parsed::Done { val, next } => {
                    assert(acc.push(val).drop_last() =~= acc);
                    lemma_seq_rest_wf(toks, next, acc.push(val));
                },
                Parsed::Fail { .. } => {},
            }
        }
    }
}

/// What the parser hands the executor is structurally sound, as the
/// data model requires: in every tree it accepts, pipeline and
/// sequence lists hold at least two members, chain and background
/// nodes wrap fully-formed sub-commands, and every redirect target is
/// a non-empty path.
pub proof fn lemma_parse_wf(toks: Seq<TokenV>)
    ensures
        ({
            match spec_parse(toks) {
                Ok(c) => crate::ast::wf_cmd(c),
                Err(_) => true,
            }
        }),
{
    lemma_skip_newlines_bounds(toks, 0);
    let pos = spec_skip_newlines(toks, 0);
    if !spec_at_end(toks, pos) {
        lemma_parse_and_or_bounds(toks, pos);
        lemma_parse_and_or_wf(toks, pos);
        match spec_parse_and_or(toks, pos) {
            Parsed::Done { val, next } => {
                assert(seq![val].drop_last() =~= Seq::<CommandV>::empty());
                assert(crate::ast::wf_cmds(Seq::<CommandV>::empty()));
                assert(crate::ast::wf_cmds(seq![val]));
                lemma_seq_rest_wf(toks, next, seq![val]);
            },
            Parsed::Fail { .. } => {},
        }
    }
}

/// Parses one line's token sequence into a command tree.
pub struct Parser {
    tokens: Vec<Token>,
    position: usize,
}

impl Parser {
    /// The token views being parsed.
    pub closed spec fn toks(&self) -> Seq<TokenV> {
        token_views(self.tokens@)
    }

    /// The current position.
    pub closed spec fn at(&self) -> int {
        self.position as int
    }

    /// The token sequence is `Eof`-terminated, as the lexer leaves it,
    /// and the position stays inside it.
    pub closed spec fn wf(&self) -> bool {
        wf_toks(self.toks()) && self.position < self.tokens@.len()
    }

    /// Builds a parser over one line's tokens, which end with `Eof` as
    /// the lexer guarantees.
    pub fn new(tokens: Vec<Token>) -> (p: Parser)
        requires
            tokens@.len() >= 1,
            token_views(tokens@)[tokens@.len() - 1].kind is Eof,
        ensures
            p.wf(),
            p.toks() == token_views(tokens@),
            p.at() == 0,
    {
        Parser { tokens, position: 0 }
    }

    /// Parses the entire input into one command, or reports the first
    /// syntax error; tokens left over after a complete parse are an
    /// error. Every tree it accepts satisfies the data model's
    /// structural invariants (`wf_cmd`): multi-member lists, fully
    /// formed chain nodes, and non-empty redirect targets.
    pub fn parse(&mut self) -> (r: ParseResult<Command>)
        requires
            old(self).wf(),
            old(self).at() == 0,
        ensures
            final(self).wf(),
            ({
                let sp = spec_parse(old(self).toks());
                match r {
                    Ok(cmd) => sp == Ok::<CommandV, ParseErrorV>(cmd@),
                    Err(e) => sp == Err::<CommandV, ParseErrorV>(e@),
                }
            }),
            r matches Ok(cmd) ==> crate::ast::wf_cmd(cmd@),
    {
        proof {
            lemma_parse_wf(self.toks());
        }
        self.skip_newlines();

        if self.is_at_end() {
            return Ok(Command::Empty);
        }
        let cmd = match self.parse_sequence() {
            Ok(c) => c,
            Err(e) => {
                return Err(e);
            },
        };
        self.skip_newlines();

        if !self.is_at_end() {
            let token = self.peek();
            let mut message = String::new();
            append_str(&mut message, "رمز غير متوقع / Unexpected token: ");
            let kind_text = token_kind_text(&token.kind);
            let line = token.span.line;
            let column = token.span.column;
            append_str(&mut message, kind_text.as_str());
            return Err(ParseError::new(message, line, column));
        }
        Ok(cmd)
    }

    /// Parses a `;`-separated sequence; one member stands bare.
    fn parse_sequence(&mut self) -> (r: ParseResult<Command>)
        requires
            old(self).wf(),
        ensures
            final(self).wf(),
            final(self).toks() == old(self).toks(),
            ({
                match spec_parse_sequence(old(self).toks(), old(self).at()) {
                    Parsed::Done { val, next } => r is Ok && r->Ok_0@ == val && final(self).at()
                        == next,
                    Parsed::Fail { err } => r is Err && r->Err_0@ == err,
                }
            }),
    {
        let ghost toks = self.toks();
        let ghost pos0 = self.at();
        let first = match self.parse_and_or() {
            Ok(c) => c,
            Err(e) => {
                return Err(e);
            },
        };
        let mut commands: Vec<Command> = Vec::new();
        commands.push(first);
        proof {
            crate::ast::lemma_view_cmds(commands@);
            assert(crate::ast::view_cmds(commands@) =~= seq![commands@[0]@]);
        }
        loop
            invariant_except_break
                self.wf(),
                self.toks() == toks,
                toks == old(self).toks(),
                pos0 == old(self).at(),
                0 <= self.at() < toks.len(),
                commands@.len() >= 1,
                spec_seq_rest(toks, self.at(), crate::ast::view_cmds(commands@))
                    == spec_parse_sequence(toks, pos0),
            ensures
                self.wf(),
                self.toks() == toks,
                ({
                    match spec_parse_sequence(toks, pos0) {
                        Parsed::Done { val, next } => commands@.len() >= 1 && spec_collapse_seq(
                            crate::ast::view_cmds(commands@),
                            self.at(),
                        ) == spec_parse_sequence(toks, pos0),
                        Parsed::Fail { .. } => false,
                    }
                }),
            decreases toks.len() - self.at(),
        {
            if !self.check_semicolon() {
                proof {
                    crate::ast::lemma_view_cmds(commands@);
                }
                break ;
            }
            let ghost pos_b = self.at();
            self.advance();
            self.skip_newlines();
            proof {
                lemma_skip_newlines_bounds(toks, pos_b + 1);
            }
            if self.is_at_end() {
                proof {
                    crate::ast::lemma_view_cmds(commands@);
                }
                break ;
            }
            let ghost pos_here = self.at();
            let c = match self.parse_and_or() {
                Ok(c) => c,
                Err(e) => {
                    return Err(e);
                },
            };
            let ghost prev = commands@;
            commands.push(c);
            proof {
                lemma_parse_and_or_bounds(toks, pos_here);
                crate::ast::lemma_view_cmds(prev);
                crate::ast::lemma_view_cmds(commands@);
                assert(crate::ast::view_cmds(commands@) =~= crate::ast::view_cmds(prev).push(
                    c@,
                ));
            }
        }
        let ghost accv = crate::ast::view_cmds(commands@);
        proof {
            crate::ast::lemma_view_cmds(commands@);
        }
        if commands.len() == 1 {
            let c = commands.pop().unwrap();
            proof {
                assert(c@ == accv[0]);
            }
            Ok(c)
        } else {
            Ok(Command::Sequence(commands))
        }
    }

    /// Parses an and-or chain: `&&` and `||` at one precedence, folded
    /// to the left.
    fn parse_and_or(&mut self) -> (r: ParseResult<Command>)
        requires
            old(self).wf(),
        ensures
            final(self).wf(),
            final(self).toks() == old(self).toks(),
            ({
                match spec_parse_and_or(old(self).toks(), old(self).at()) {
                    Parsed::Done { val, next } => r is Ok && r->Ok_0@ == val && final(self).at()
                        == next,
                    Parsed::Fail { err } => r is Err && r->Err_0@ == err,
                }
            }),
    {
        let ghost toks = self.toks();
        let ghost pos0 = self.at();
        let mut left = match self.parse_pipeline() {
            Ok(c) => c,
            Err(e) => {
                return Err(e);
            },
        };
        loop
            invariant_except_break
                self.wf(),
                self.toks() == toks,
                toks == old(self).toks(),
                pos0 == old(self).at(),
                0 <= self.at() < toks.len(),
                spec_and_or_rest(toks, self.at(), left@) == spec_parse_and_or(toks, pos0),
            ensures
                self.wf(),
                self.toks() == toks,
                ({
                    match spec_parse_and_or(toks, pos0) {
                        Parsed::Done { val, next } => left@ == val && self.at() == next,
                        Parsed::Fail { .. } => false,
                    }
                }),
            decreases toks.len() - self.at(),
        {
            let is_and = self.check_and();
            let is_or = self.check_or();
            if !is_and && !is_or {
                break ;
            }
            let ghost pos_b = self.at();
            self.advance();
            self.skip_newlines();
            proof {
                lemma_skip_newlines_bounds(toks, pos_b + 1);
            }
            let ghost pos_here = self.at();
            let right = match self.parse_pipeline() {
                Ok(c) => c,
                Err(e) => {
                    return Err(e);
                },
            };
            proof {
                lemma_parse_pipeline_bounds(toks, pos_here);
            }
            if is_and {
                left = Command::And(Box::new(left), Box::new(right));
            } else {
                left = Command::Or(Box::new(left), Box::new(right));
            }
        }
        Ok(left)
    }

    /// Parses a pipeline of simple commands joined by `|`.
    fn parse_pipeline(&mut self) -> (r: ParseResult<Command>)
        requires
            old(self).wf(),
        ensures
            final(self).wf(),
            final(self).toks() == old(self).toks(),
            ({
                match spec_parse_pipeline(old(self).toks(), old(self).at()) {
                    Parsed::Done { val, next } => r is Ok && r->Ok_0@ == val && final(self).at()
                        == next,
                    Parsed::Fail { err } => r is Err && r->Err_0@ == err,
                }
            }),
    {
        let ghost toks = self.toks();
        let ghost pos0 = self.at();
        let first = match self.parse_simple_command() {
            Ok(c) => c,
            Err(e) => {
                return Err(e);
            },
        };
        let mut commands: Vec<Command> = Vec::new();
        commands.push(first);
        proof {
            crate::ast::lemma_view_cmds(commands@);
            assert(crate::ast::view_cmds(commands@) =~= seq![commands@[0]@]);
        }
        loop
            invariant_except_break
                self.wf(),
                self.toks() == toks,
                toks == old(self).toks(),
                pos0 == old(self).at(),
                0 <= self.at() < toks.len(),
                commands@.len() >= 1,
                spec_pipe_rest(toks, self.at(), crate::ast::view_cmds(commands@))
                    == spec_parse_pipeline(toks, pos0),
            ensures
                self.wf(),
                self.toks() == toks,
                ({
                    match spec_parse_pipeline(toks, pos0) {
                        Parsed::Done { val, next } => commands@.len() >= 1 && self.at() == next && (
                        if commands@.len() == 1 {
                            val == commands@[0]@
                        } else {
                            val == CommandV::Pipeline(crate::ast::view_cmds(commands@))
                        }),
                        Parsed::Fail { .. } => false,
                    }
                }),
            decreases toks.len() - self.at(),
        {
            if !self.check_pipe() {
                proof {
                    crate::ast::lemma_view_cmds(commands@);
                }
                break ;
            }
            let ghost pos_b = self.at();
            self.advance();
            self.skip_newlines();
            proof {
                lemma_skip_newlines_bounds(toks, pos_b + 1);
            }
            let ghost pos_here = self.at();
            let c = match self.parse_simple_command() {
                Ok(c) => c,
                Err(e) => {
                    return Err(e);
                },
            };
            let ghost prev = commands@;
            commands.push(c);
            proof {
                lemma_parse_simple_bounds(toks, pos_here);
                crate::ast::lemma_view_cmds(prev);
                crate::ast::lemma_view_cmds(commands@);
                assert(crate::ast::view_cmds(commands@) =~= crate::ast::view_cmds(prev).push(
                    c@,
                ));
            }
        }
        let ghost accv = crate::ast::view_cmds(commands@);
        proof {
            crate::ast::lemma_view_cmds(commands@);
        }
        if commands.len() == 1 {
            let c = commands.pop().unwrap();
            proof {
                assert(c@ == accv[0]);
            }
            Ok(c)
        } else {
            Ok(Command::Pipeline(commands))
        }
    }

    /// Parses one simple command: its name, then words and redirects in
    /// any order, then an optional trailing `&`.
    fn parse_simple_command(&mut self) -> (r: ParseResult<Command>)
        requires
            old(self).wf(),
        ensures
            final(self).wf(),
            final(self).toks() == old(self).toks(),
            ({
                match spec_parse_simple(old(self).toks(), old(self).at()) {
                    Parsed::Done { val, next } => r is Ok && r->Ok_0@ == val && final(self).at()
                        == next,
                    Parsed::Fail { err } => r is Err && r->Err_0@ == err,
                }
            }),
    {
        let ghost toks = self.toks();
        let ghost pos0 = self.at();
        let name = match self.expect_word() {
            Ok(w) => w,
            Err(e) => {
                return Err(e);
            },
        };
        let ghost pos1 = self.at();
        let mut args: Vec<String> = Vec::new();
        let mut redirects: Vec<Redirect> = Vec::new();
        proof {
            assert(args.deep_view() =~= Seq::<Seq<char>>::empty());
            assert(Seq::new(redirects@.len(), |k: int| redirects@[k]@) =~= Seq::<
                RedirectV,
            >::empty());
        }
        loop
            invariant_except_break
                self.wf(),
                self.toks() == toks,
                toks == old(self).toks(),
                pos0 == old(self).at(),
                spec_expect_word(toks, pos0) == (Parsed::Done { val: name@, next: pos1 }),
                0 <= self.at() < toks.len(),
                spec_simple_items(
                    toks,
                    self.at(),
                    args.deep_view(),
                    Seq::new(redirects@.len(), |k: int| redirects@[k]@),
                ) == spec_simple_items(toks, pos1, Seq::empty(), Seq::empty()),
            ensures
                self.wf(),
                self.toks() == toks,
                ({
                    match spec_simple_items(toks, pos1, Seq::empty(), Seq::empty()) {
                        Parsed::Done { val, next } => self.at() == next && val.0 == args.deep_view()
                            && val.1 == Seq::new(redirects@.len(), |k: int| redirects@[k]@),
                        Parsed::Fail { .. } => false,
                    }
                }),
            decreases toks.len() - self.at(),
        {
            let ghost pos_here = self.at();
            let ghost args_here = args.deep_view();
            let ghost rv_here = Seq::new(redirects@.len(), |k: int| redirects@[k]@);
            if self.check_redirect() {
                let rd = match self.parse_redirect() {
                    Ok(rd) => rd,
                    Err(e) => {
                        return Err(e);
                    },
                };
                let ghost prev = redirects@;
                redirects.push(rd);
                proof {
                    lemma_parse_redirect_bounds(toks, pos_here);
                    assert(Seq::new(redirects@.len(), |k: int| redirects@[k]@) =~= rv_here.push(
                        rd@,
                    ));
                }
            } else {
                let w = match self.try_word() {
                    Some(w) => w,
                    None => {
                        break ;
                    },
                };
                let ghost prev = args.deep_view();
                args.push(w);
                proof {
                    assert(args.deep_view() =~= prev.push(args@[args@.len() - 1]@));
                }
            }
        }
        let ghost name_v = name@;
        let mut cmd = Command::Simple { name, args, redirects };
        proof {
            match spec_simple_items(toks, pos1, Seq::empty(), Seq::empty()) {
                Parsed::Done { val: items, next: n2 } => {
                    assert(cmd@ =~~= (CommandV::Simple {
                        name: name_v,
                        args: items.0,
                        redirects: items.1,
                    }));
                },
                Parsed::Fail { .. } => {},
            }
        }
        if self.check_background() {
            self.advance();
            cmd = Command::Background(Box::new(cmd));
        }
        Ok(cmd)
    }

    /// Parses one redirection: the operator, then the non-empty target
    /// word.
    fn parse_redirect(&mut self) -> (r: ParseResult<Redirect>)
        requires
            old(self).wf(),
        ensures
            final(self).wf(),
            final(self).toks() == old(self).toks(),
            ({
                match spec_parse_redirect(old(self).toks(), old(self).at()) {
                    Parsed::Done { val, next } => r is Ok && r->Ok_0@ == val && final(self).at()
                        == next,
                    Parsed::Fail { err } => r is Err && r->Err_0@ == err,
                }
            }),
    {
        let kind = match &self.peek().kind {
            TokenKind::RedirectOut => RedirectKind::Out,
            TokenKind::RedirectIn => RedirectKind::In,
            TokenKind::Append => RedirectKind::Append,
            _ => {
                let token = self.peek();
                let line = token.span.line;
                let column = token.span.column;
                let mut message = String::new();
                append_str(&mut message, "متوقع عامل إعادة توجيه / Expected redirect operator");
                return Err(ParseError::new(message, line, column));
            },
        };
        self.advance();
        let (target_line, target_column) = {
            let t = self.peek();
            (t.span.line, t.span.column)
        };
        let target = match self.expect_word() {
            Ok(w) => w,
            Err(e) => {
                return Err(e);
            },
        };
        if target.as_str().is_empty() {
            let mut message = String::new();
            append_str(&mut message, "متوقع اسم هدف غير فارغ / Expected non-empty redirect target");
            return Err(ParseError::new(message, target_line, target_column));
        }
        Ok(Redirect::new(kind, target))
    }

    /// Whether the current token is a redirect operator.
    fn check_redirect(&self) -> (r: bool)
        requires
            self.wf(),
        ensures
            r == spec_is_redirect(self.toks(), self.at()),
    {
        matches!(
            self.peek().kind,
            TokenKind::RedirectOut | TokenKind::RedirectIn | TokenKind::Append
        )
    }

    /// Consumes a word or quoted string, or reports what stood in its
    /// place.
    fn expect_word(&mut self) -> (r: ParseResult<String>)
        requires
            old(self).wf(),
        ensures
            final(self).wf(),
            final(self).toks() == old(self).toks(),
            ({
                match spec_expect_word(old(self).toks(), old(self).at()) {
                    Parsed::Done { val, next } => r is Ok && r->Ok_0@ == val && final(self).at()
                        == next,
                    Parsed::Fail { err } => r is Err && r->Err_0@ == err,
                }
            }),
    {
        let word: Option<String> = match &self.peek().kind {
            TokenKind::Word(s) => Some(s.clone()),
            TokenKind::Quoted(s) => Some(s.clone()),
            _ => None,
        };
        match word {
            Some(s) => {
                self.advance();
                Ok(s)
            },
            None => {
                let token = self.peek();
                let line = token.span.line;
                let column = token.span.column;
                let kind_text = token_kind_text(&token.kind);
                let mut message = String::new();
                append_str(&mut message, "متوقع كلمة / Expected word, got: ");
                append_str(&mut message, kind_text.as_str());
                Err(ParseError::new(message, line, column))
            },
        }
    }

    /// Consumes a word or quoted string when one is next.
    fn try_word(&mut self) -> (r: Option<String>)
        requires
            old(self).wf(),
        ensures
            final(self).wf(),
            final(self).toks() == old(self).toks(),
            ({
                match old(self).toks()[old(self).at()].kind {
                    TokenKindV::Word(s) => r is Some && r->0@ == s && final(self).at() == old(
                        self,
                    ).at() + 1,
                    TokenKindV::Quoted(s) => r is Some && r->0@ == s && final(self).at() == old(
                        self,
                    ).at() + 1,
                    _ => r is None && *final(self) == *old(self),
                }
            }),
    {
        let word: Option<String> = match &self.peek().kind {
            TokenKind::Word(s) => Some(s.clone()),
            TokenKind::Quoted(s) => Some(s.clone()),
            _ => None,
        };
        match word {
            Some(s) => {
                self.advance();
                Some(s)
            },
            None => None,
        }
    }

    /// Skips newline tokens: a chain may continue on a following line
    /// after `;`, `&&`, `||` or `|`.
    fn skip_newlines(&mut self)
        requires
            old(self).wf(),
        ensures
            final(self).wf(),
            final(self).toks() == old(self).toks(),
            final(self).at() == spec_skip_newlines(old(self).toks(), old(self).at()),
    {
        let ghost toks = self.toks();
        let ghost pos0 = self.at();
        loop
            invariant_except_break
                self.wf(),
                self.toks() == toks,
                spec_skip_newlines(toks, self.at()) == spec_skip_newlines(toks, pos0),
            ensures
                self.wf(),
                self.toks() == toks,
                self.at() == spec_skip_newlines(toks, pos0),
            decreases toks.len() - self.at(),
        {
            if !matches!(self.peek().kind, TokenKind::Newline) {
                break ;
            }
            self.advance();
        }
    }

    /// Whether the current token is `;` (the check fails at `Eof`).
    fn check_semicolon(&self) -> (r: bool)
        requires
            self.wf(),
        ensures
            r == (self.toks()[self.at()].kind is Semicolon),
    {
        matches!(self.peek().kind, TokenKind::Semicolon)
    }

    /// Whether the current token is `&&`.
    fn check_and(&self) -> (r: bool)
        requires
            self.wf(),
        ensures
            r == (self.toks()[self.at()].kind is And),
    {
        matches!(self.peek().kind, TokenKind::And)
    }

    /// Whether the current token is `||`.
    fn check_or(&self) -> (r: bool)
        requires
            self.wf(),
        ensures
            r == (self.toks()[self.at()].kind is Or),
    {
        matches!(self.peek().kind, TokenKind::Or)
    }

    /// Whether the current token is `|`.
    fn check_pipe(&self) -> (r: bool)
        requires
            self.wf(),
        ensures
            r == (self.toks()[self.at()].kind is Pipe),
    {
        matches!(self.peek().kind, TokenKind::Pipe)
    }

    /// Whether the current token is a single `&`.
    fn check_background(&self) -> (r: bool)
        requires
            self.wf(),
        ensures
            r == (self.toks()[self.at()].kind is Background),
    {
        matches!(self.peek().kind, TokenKind::Background)
    }

    /// The current token.
    fn peek(&self) -> (t: &Token)
        requires
            self.wf(),
        ensures
            t@ == self.toks()[self.at()],
    {
        let i = if self.position < self.tokens.len() {
            self.position
        } else {
            self.tokens.len() - 1
        };
        &self.tokens[i]
    }

    /// Steps past the current token, staying on `Eof` at the end.
    fn advance(&mut self) -> (t: &Token)
        requires
            old(self).wf(),
        ensures
            final(self).wf(),
            final(self).toks() == old(self).toks(),
            final(self).at() == if old(self).toks()[old(self).at()].kind is Eof {
                old(self).at()
            } else {
                old(self).at() + 1
            },
    {
        let n = self.tokens.len();
        if !self.is_at_end() {
            proof {
                assert(self.at() != self.tokens@.len() - 1);
                assert(self.position < n);
            }
            self.position = self.position + 1;
        }
        self.previous()
    }

    /// The token before the current one.
    fn previous(&self) -> (t: &Token)
        requires
            self.wf(),
        ensures
            t@ == self.toks()[if self.at() > 0 {
                self.at() - 1
            } else {
                0
            }],
    {
        let i = if self.position > 0 {
            self.position - 1
        } else {
            0
        };
        &self.tokens[i]
    }

    /// Whether the current token is `Eof`.
    fn is_at_end(&self) -> (r: bool)
        requires
            self.wf(),
        ensures
            r == spec_at_end(self.toks(), self.at()),
    {
        matches!(self.peek().kind, TokenKind::Eof)
    }
}

proof fn lemma_word_items(
    toks: Seq<TokenV>,
    ws: Seq<Seq<char>>,
    j: int,
    args: Seq<Seq<char>>,
    redirects: Seq<RedirectV>,
)
    requires
        1 <= j <= ws.len(),
        toks.len() == ws.len() + 1,
        forall|i: int| 0 <= i < ws.len() ==> (#[trigger] toks[i].kind) == TokenKindV::Word(ws[i]),
        toks[ws.len() as int].kind is Eof,
    ensures
        spec_simple_items(toks, j, args, redirects) == (Parsed::Done {
            val: (args + ws.skip(j), redirects),
            next: ws.len() as int,
        }),
    decreases ws.len() - j,
{
    if j == ws.len() {
        assert(toks[j].kind is Eof);
        assert(spec_simple_items(toks, j, args, redirects) == (Parsed::Done {
            val: (args, redirects),
            next: j,
        }));
        assert(args + ws.skip(j) =~= args);
    } else {
        assert(toks[j].kind == TokenKindV::Word(ws[j]));
        lemma_word_items(toks, ws, j + 1, args.push(ws[j]), redirects);
        assert(args.push(ws[j]) + ws.skip(j + 1) =~= args + ws.skip(j));
    }
}

/// A line of bare words parses to one simple command: the first word
/// names it, the rest are its arguments in order, and it carries no
/// redirects.
pub proof fn lemma_words_parse(toks: Seq<TokenV>, ws: Seq<Seq<char>>)
    requires
        ws.len() >= 1,
        toks.len() == ws.len() + 1,
        forall|i: int| 0 <= i < ws.len() ==> (#[trigger] toks[i].kind) == TokenKindV::Word(ws[i]),
        toks[ws.len() as int].kind is Eof,
    ensures
        spec_parse(toks) == Ok::<CommandV, ParseErrorV>(
            CommandV::Simple { name: ws[0], args: ws.drop_first(), redirects: Seq::empty() },
        ),
{
    let l = ws.len() as int;
    assert(toks[0].kind == TokenKindV::Word(ws[0]));
    assert(spec_skip_newlines(toks, 0) == 0);
    assert(spec_expect_word(toks, 0) == (Parsed::Done { val: ws[0], next: 1int }));
    lemma_word_items(toks, ws, 1, Seq::empty(), Seq::empty());
    assert(Seq::<Seq<char>>::empty() + ws.skip(1) =~= ws.drop_first());
    let simple = CommandV::Simple { name: ws[0], args: ws.drop_first(), redirects: Seq::empty() };
    assert(toks[l].kind is Eof);
    assert(spec_parse_simple(toks, 0) == (Parsed::Done { val: simple, next: l }));
    assert(spec_pipe_rest(toks, l, seq![simple]) == (Parsed::Done { val: simple, next: l }));
    assert(spec_parse_pipeline(toks, 0) == (Parsed::Done { val: simple, next: l }));
    assert(spec_and_or_rest(toks, l, simple) == (Parsed::Done { val: simple, next: l }));
    assert(spec_parse_and_or(toks, 0) == (Parsed::Done { val: simple, next: l }));
    assert(spec_seq_rest(toks, l, seq![simple]) == (Parsed::Done { val: simple, next: l }));
    assert(spec_parse_sequence(toks, 0) == (Parsed::Done { val: simple, next: l }));
    assert(spec_skip_newlines(toks, l) == l);
    assert(spec_at_end(toks, l));
}

/// Parsing a line of bare words and serializing the tree again gives
/// back exactly the words joined by single spaces: the round trip over
/// a plain command reproduces its text.
pub proof fn lemma_words_roundtrip(toks: Seq<TokenV>, ws: Seq<Seq<char>>)
    requires
        ws.len() >= 1,
        toks.len() == ws.len() + 1,
        forall|i: int| 0 <= i < ws.len() ==> (#[trigger] toks[i].kind) == TokenKindV::Word(ws[i]),
        toks[ws.len() as int].kind is Eof,
    ensures
        ({
            let simple = CommandV::Simple {
                name: ws[0],
                args: ws.drop_first(),
                redirects: Seq::empty(),
            };
            spec_parse(toks) == Ok::<CommandV, ParseErrorV>(simple)
                && crate::ast::spec_cmd_text(simple) == crate::text::spec_join_with(ws, " "@)
        }),
{
    lemma_words_parse(toks, ws);
    crate::ast::lemma_words_text(ws);
}

/// `a && b || c` parses as the left-associative chain `((a && b) || c)`:
/// the `&&` and `||` operators share one precedence level and fold to
/// the left, whichever of the two each of them is.
pub proof fn lemma_and_or_left_assoc(
    toks: Seq<TokenV>,
    a: Seq<char>,
    b: Seq<char>,
    c: Seq<char>,
    op1_and: bool,
    op2_and: bool,
)
    requires
        toks.len() == 6,
        toks[0].kind == TokenKindV::Word(a),
        toks[1].kind == (if op1_and {
            TokenKindV::And
        } else {
            TokenKindV::Or
        }),
        toks[2].kind == TokenKindV::Word(b),
        toks[3].kind == (if op2_and {
            TokenKindV::And
        } else {
            TokenKindV::Or
        }),
        toks[4].kind == TokenKindV::Word(c),
        toks[5].kind is Eof,
    ensures
        ({
            let sa = CommandV::Simple { name: a, args: Seq::empty(), redirects: Seq::empty() };
            let sb = CommandV::Simple { name: b, args: Seq::empty(), redirects: Seq::empty() };
            let sc = CommandV::Simple { name: c, args: Seq::empty(), redirects: Seq::empty() };
            let inner = if op1_and {
                CommandV::And(Box::new(sa), Box::new(sb))
            } else {
                CommandV::Or(Box::new(sa), Box::new(sb))
            };
            let whole = if op2_and {
                CommandV::And(Box::new(inner), Box::new(sc))
            } else {
                CommandV::Or(Box::new(inner), Box::new(sc))
            };
            spec_parse(toks) == Ok::<CommandV, ParseErrorV>(whole)
        }),
{
    let sa = CommandV::Simple { name: a, args: Seq::empty(), redirects: Seq::empty() };
    let sb = CommandV::Simple { name: b, args: Seq::empty(), redirects: Seq::empty() };
    let sc = CommandV::Simple { name: c, args: Seq::empty(), redirects: Seq::empty() };
    let inner = if op1_and {
        CommandV::And(Box::new(sa), Box::new(sb))
    } else {
        CommandV::Or(Box::new(sa), Box::new(sb))
    };
    let whole = if op2_and {
        CommandV::And(Box::new(inner), Box::new(sc))
    } else {
        CommandV::Or(Box::new(inner), Box::new(sc))
    };
    assert(spec_skip_newlines(toks, 0) == 0);
    assert(spec_expect_word(toks, 0) == (Parsed::Done { val: a, next: 1int }));
    assert(spec_simple_items(toks, 1, Seq::empty(), Seq::empty()) == (Parsed::Done {
        val: (Seq::<Seq<char>>::empty(), Seq::<RedirectV>::empty()),
        next: 1int,
    }));
    assert(spec_parse_simple(toks, 0) == (Parsed::Done { val: sa, next: 1int }));
    assert(spec_pipe_rest(toks, 1, seq![sa]) == (Parsed::Done { val: sa, next: 1int }));
    assert(spec_parse_pipeline(toks, 0) == (Parsed::Done { val: sa, next: 1int }));
    assert(spec_skip_newlines(toks, 2) == 2);
    assert(spec_expect_word(toks, 2) == (Parsed::Done { val: b, next: 3int }));
    assert(spec_simple_items(toks, 3, Seq::empty(), Seq::empty()) == (Parsed::Done {
        val: (Seq::<Seq<char>>::empty(), Seq::<RedirectV>::empty()),
        next: 3int,
    }));
    assert(spec_parse_simple(toks, 2) == (Parsed::Done { val: sb, next: 3int }));
    assert(spec_pipe_rest(toks, 3, seq![sb]) == (Parsed::Done { val: sb, next: 3int }));
    assert(spec_parse_pipeline(toks, 2) == (Parsed::Done { val: sb, next: 3int }));
    assert(spec_skip_newlines(toks, 4) == 4);
    assert(spec_expect_word(toks, 4) == (Parsed::Done { val: c, next: 5int }));
    assert(spec_simple_items(toks, 5, Seq::empty(), Seq::empty()) == (Parsed::Done {
        val: (Seq::<Seq<char>>::empty(), Seq::<RedirectV>::empty()),
        next: 5int,
    }));
    assert(spec_parse_simple(toks, 4) == (Parsed::Done { val: sc, next: 5int }));
    assert(spec_pipe_rest(toks, 5, seq![sc]) == (Parsed::Done { val: sc, next: 5int }));
    assert(spec_parse_pipeline(toks, 4) == (Parsed::Done { val: sc, next: 5int }));
    assert(spec_and_or_rest(toks, 5, whole) == (Parsed::Done { val: whole, next: 5int }));
    assert(spec_and_or_rest(toks, 3, inner) == (Parsed::Done { val: whole, next: 5int }));
    assert(spec_and_or_rest(toks, 1, sa) == (Parsed::Done { val: whole, next: 5int }));
    assert(spec_parse_and_or(toks, 0) == (Parsed::Done { val: whole, next: 5int }));
    assert(spec_seq_rest(toks, 5, seq![whole]) == (Parsed::Done { val: whole, next: 5int }));
    assert(spec_parse_sequence(toks, 0) == (Parsed::Done { val: whole, next: 5int }));
    assert(spec_skip_newlines(toks, 5) == 5);
    assert(spec_at_end(toks, 5));
}

/// The full round trip on a plain command line: a line that is bare
/// words joined by single spaces tokenizes to those words, parses to
/// one simple command, and serializes back to the line exactly.
pub proof fn lemma_line_roundtrip(s: Seq<char>, ws: Seq<Seq<char>>)
    requires
        ws.len() >= 1,
        forall|i: int| 0 <= i < ws.len() ==> (#[trigger] ws[i]).len() >= 1,
        forall|i: int, j: int|
            0 <= i < ws.len() && 0 <= j < ws[i].len() ==> crate::lexer::spec_is_word_char(
                #[trigger] ws[i][j],
            ),
        s == crate::text::spec_join_with(ws, " "@),
    ensures
        ({
            let ts = crate::lexer::spec_tokens(
                s,
                crate::lexer::ScanState { pos: 0, line: 1, col: 1 },
            );
            let simple = CommandV::Simple {
                name: ws[0],
                args: ws.drop_first(),
                redirects: Seq::empty(),
            };
            spec_parse(ts) == Ok::<CommandV, ParseErrorV>(simple) && crate::ast::spec_cmd_text(
                simple,
            ) == s
        }),
{
    let st0 = crate::lexer::ScanState { pos: 0, line: 1, col: 1 };
    assert(s.subrange(0, s.len() as int) =~= crate::arabic::spec_spaces(0)
        + crate::text::spec_join_with(ws, " "@));
    crate::lexer::lemma_tokens_of_words(s, st0, ws, 0);
    let ts = crate::lexer::spec_tokens(s, st0);
    lemma_words_roundtrip(ts, ws);
}

/// A single bare word as a command.
pub open spec fn spec_word_cmd(w: Seq<char>) -> CommandV {
    CommandV::Simple { name: w, args: Seq::empty(), redirects: Seq::empty() }
}

/// An and-or chain folded to the left: the first word's command, then
/// each operator applied in token order — `true` standing for `&&` and
/// `false` for `||`.
pub open spec fn spec_fold_chain(words: Seq<Seq<char>>, ops: Seq<bool>) -> CommandV
    decreases ops,
{
    if ops.len() == 0 {
        spec_word_cmd(words[0])
    } else {
        let left = spec_fold_chain(words.drop_last(), ops.drop_last());
        let right = spec_word_cmd(words.last());
        if ops.last() {
            CommandV::And(Box::new(left), Box::new(right))
        } else {
            CommandV::Or(Box::new(left), Box::new(right))
        }
    }
}

/// Whether the token sequence is a chain `w0 OP1 w1 OP2 ... OPn wn`
/// followed by the end of input, with each operator `&&` or `||`.
pub open spec fn spec_chain_tokens(
    toks: Seq<TokenV>,
    words: Seq<Seq<char>>,
    ops: Seq<bool>,
) -> bool {
    &&& words.len() == ops.len() + 1
    &&& toks.len() == 2 * words.len()
    &&& forall|i: int|
        0 <= i < words.len() ==> toks[2 * i].kind == TokenKindV::Word(#[trigger] words[i])
    &&& forall|i: int|
        0 <= i < ops.len() ==> toks[2 * i + 1].kind == (if #[trigger] ops[i] {
            TokenKindV::And
        } else {
            TokenKindV::Or
        })
    &&& toks[toks.len() - 1].kind is Eof
}

proof fn lemma_chain_pipeline_at(toks: Seq<TokenV>, words: Seq<Seq<char>>, ops: Seq<bool>, k: int)
    requires
        spec_chain_tokens(toks, words, ops),
        0 <= k < words.len(),
    ensures
        spec_parse_pipeline(toks, 2 * k) == (Parsed::Done {
            val: spec_word_cmd(words[k]),
            next: 2 * k + 1,
        }),
{
    assert(toks[2 * k].kind == TokenKindV::Word(words[k]));
    if k < ops.len() {
        assert(toks[2 * k + 1].kind == (if ops[k] {
            TokenKindV::And
        } else {
            TokenKindV::Or
        }));
    } else {
        assert(2 * k + 1 == toks.len() - 1);
    }
    assert(spec_expect_word(toks, 2 * k) == (Parsed::Done { val: words[k], next: 2 * k + 1 }));
    assert(spec_simple_items(toks, 2 * k + 1, Seq::empty(), Seq::empty()) == (Parsed::Done {
        val: (Seq::<Seq<char>>::empty(), Seq::<RedirectV>::empty()),
        next: 2 * k + 1,
    }));
    assert(spec_parse_simple(toks, 2 * k) == (Parsed::Done {
        val: spec_word_cmd(words[k]),
        next: 2 * k + 1,
    }));
    assert(spec_pipe_rest(toks, 2 * k + 1, seq![spec_word_cmd(words[k])]) == (Parsed::Done {
        val: spec_word_cmd(words[k]),
        next: 2 * k + 1,
    }));
}

proof fn lemma_chain_rest(toks: Seq<TokenV>, words: Seq<Seq<char>>, ops: Seq<bool>, k: int)
    requires
        spec_chain_tokens(toks, words, ops),
        0 <= k <= ops.len(),
    ensures
        spec_and_or_rest(toks, 2 * k + 1, spec_fold_chain(words.take(k + 1), ops.take(k))) == (
        Parsed::Done { val: spec_fold_chain(words, ops), next: 2 * (ops.len() as int) + 1 }),
    decreases ops.len() - k,
{
    let n = ops.len() as int;
    let acc = spec_fold_chain(words.take(k + 1), ops.take(k));
    if k == n {
        assert(2 * k + 1 == toks.len() - 1);
        assert(toks[2 * k + 1].kind is Eof);
        assert(words.take(k + 1) =~= words);
        assert(ops.take(k) =~= ops);
        assert(spec_and_or_rest(toks, 2 * k + 1, acc) == (Parsed::Done {
            val: acc,
            next: 2 * k + 1,
        }));
    } else {
        assert(toks[2 * k + 1].kind == (if ops[k] {
            TokenKindV::And
        } else {
            TokenKindV::Or
        }));
        assert(toks[2 * (k + 1)].kind == TokenKindV::Word(words[k + 1]));
        assert(spec_skip_newlines(toks, 2 * k + 2) == 2 * k + 2);
        lemma_chain_pipeline_at(toks, words, ops, k + 1);
        let right = spec_word_cmd(words[k + 1]);
        let acc2 = if ops[k] {
            CommandV::And(Box::new(acc), Box::new(right))
        } else {
            CommandV::Or(Box::new(acc), Box::new(right))
        };
        assert(words.take(k + 2).drop_last() =~= words.take(k + 1));
        assert(ops.take(k + 1).drop_last() =~= ops.take(k));
        assert(words.take(k + 2).last() == words[k + 1]);
        assert(ops.take(k + 1).last() == ops[k]);
        assert(spec_fold_chain(words.take(k + 2), ops.take(k + 1)) == acc2);
        lemma_chain_rest(toks, words, ops, k + 1);
        assert(spec_and_or_rest(toks, 2 * k + 1, acc) == spec_and_or_rest(
            toks,
            2 * (k + 1) + 1,
            acc2,
        ));
    }
}

/// One step of an and-or chain, for arbitrary pipeline operands: an
/// `&&` or `||` at the cursor folds the pipeline parsed after it onto
/// the left operand and continues — the chain is a left fold in token
/// order, with no precedence distinction between the two operators.
pub proof fn lemma_and_or_step(toks: Seq<TokenV>, pos: int, left: CommandV)
    requires
        0 <= pos < toks.len(),
        toks[pos].kind is And || toks[pos].kind is Or,
    ensures
        ({
            let p2 = spec_skip_newlines(toks, pos + 1);
            match spec_parse_pipeline(toks, p2) {
                Parsed::Done { val, next } => spec_and_or_rest(toks, pos, left)
                    == spec_and_or_rest(
                    toks,
                    next,
                    if toks[pos].kind is And {
                        CommandV::And(Box::new(left), Box::new(val))
                    } else {
                        CommandV::Or(Box::new(left), Box::new(val))
                    },
                ),
                Parsed::Fail { err } => spec_and_or_rest(toks, pos, left) == (
                Parsed::<CommandV>::Fail { err }),
            }
        }),
{
}

/// A chain of words joined by `&&` and `||`, of any length and any
/// mixture of the two operators, parses as the left-nested fold in
/// token order: the operators share one precedence level and associate
/// to the left.
pub proof fn lemma_chain_left_assoc(toks: Seq<TokenV>, words: Seq<Seq<char>>, ops: Seq<bool>)
    requires
        spec_chain_tokens(toks, words, ops),
    ensures
        spec_parse(toks) == Ok::<CommandV, ParseErrorV>(spec_fold_chain(words, ops)),
{
    let n = ops.len() as int;
    assert(toks[0].kind == TokenKindV::Word(words[0]));
    assert(spec_skip_newlines(toks, 0) == 0);
    lemma_chain_pipeline_at(toks, words, ops, 0);
    assert(words.take(1).len() == 1);
    assert(words.take(1)[0] == words[0]);
    assert(ops.take(0).len() == 0);
    assert(spec_fold_chain(words.take(1), ops.take(0)) == spec_word_cmd(words[0]));
    lemma_chain_rest(toks, words, ops, 0);
    let whole = spec_fold_chain(words, ops);
    assert(spec_parse_and_or(toks, 0) == (Parsed::Done { val: whole, next: 2 * n + 1 }));
    assert(toks[2 * n + 1].kind is Eof);
    assert(seq![whole].drop_last() =~= Seq::<CommandV>::empty());
    assert(spec_seq_rest(toks, 2 * n + 1, seq![whole]) == (Parsed::Done {
        val: whole,
        next: 2 * n + 1,
    }));
    assert(spec_parse_sequence(toks, 0) == (Parsed::Done { val: whole, next: 2 * n + 1 }));
    assert(spec_skip_newlines(toks, 2 * n + 1) == 2 * n + 1);
    assert(spec_at_end(toks, 2 * n + 1));
}

} // verus!

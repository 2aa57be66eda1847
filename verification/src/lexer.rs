//! The lexer: turns one line of text into an EOF-terminated token
//! sequence, with quoting, escapes, comments and one- or two-character
//! operators, for words of any script.
//!
//! The executable scanner is verified against the recursive functions
//! `spec_next_token` / `spec_tokens`, which define tokenization once and
//! for all over the normalized character sequence.

use vstd::prelude::*;

use unicode_normalization::UnicodeNormalization;

use crate::text::push_char;
use crate::text::collect_range;
use crate::token::{Span, SpanV, Token, TokenKind, TokenKindV, TokenV};

verus! {

/// What `unicode_normalization` returns for a character sequence: its
/// Unicode Normalization Form C. The result depends on the characters
/// alone.
pub uninterp spec fn nfc_of(s: Seq<char>) -> Seq<char>;

/// Relies on `unicode_normalization::UnicodeNormalization::nfc`: the NFC
/// normalization of the text, as characters. A `String` never holds more
/// than `isize::MAX` bytes, so the character count stays below
/// `usize::MAX`.
#[verifier::external_body]
fn nfc_chars(source: &str) -> (r: Vec<char>)
    ensures
        r@ == nfc_of(source@),
        r@.len() < usize::MAX,
{
    source.nfc().collect::<String>().chars().collect()
}

/// The scanner's cursor: a position in the character sequence plus the
/// 1-indexed line and column used for diagnostics.
pub struct ScanState {
    pub pos: int,
    pub line: int,
    pub col: int,
}

/// One cursor step: consuming a newline moves to the next line's first
/// column, anything else moves one column right.
pub open spec fn spec_adv(s: Seq<char>, st: ScanState) -> ScanState {
    if s[st.pos] == '\n' {
        ScanState { pos: st.pos + 1, line: st.line + 1, col: 1 }
    } else {
        ScanState { pos: st.pos + 1, line: st.line, col: st.col + 1 }
    }
}

/// Characters that may stand inside an unquoted word: anything except
/// whitespace, operators, quotes, the comment mark and the Arabic
/// semicolon.
pub open spec fn spec_is_word_char(c: char) -> bool {
    !(c == ' ' || c == '\t' || c == '\n' || c == '\r' || c == '|' || c == '&' || c == '>' || c
        == '<' || c == ';' || c == '"' || c == '\'' || c == '«' || c == '»' || c == '#' || c
        == '\u{061B}')
}

/// The closing character matching an opening quote.
pub open spec fn spec_closing(opening: char) -> char {
    if opening == '«' {
        '»'
    } else {
        opening
    }
}

/// What a backslash escape inside a quoted string resolves to; an
/// unrecognized target stands for itself.
pub open spec fn spec_escape(c: char) -> char {
    if c == 'n' {
        '\n'
    } else if c == 'r' {
        '\r'
    } else if c == 't' {
        '\t'
    } else if c == '\\' {
        '\\'
    } else if c == '"' {
        '"'
    } else if c == '\'' {
        '\''
    } else if c == '0' {
        '\0'
    } else {
        c
    }
}

/// The diagnostic for a quote left open at the end of the line.
pub open spec fn unterminated_msg() -> Seq<char> {
    "نص غير مكتمل / Unterminated string"@
}

/// The diagnostic for a backslash with nothing after it.
pub open spec fn unterminated_escape_msg() -> Seq<char> {
    "تسلسل هروب غير مكتمل / Unterminated escape"@
}

/// Cursor after skipping horizontal whitespace (never a newline).
pub open spec fn spec_skip_ws(s: Seq<char>, st: ScanState) -> ScanState
    decreases s.len() - st.pos,
{
    if st.pos < s.len() && (s[st.pos] == ' ' || s[st.pos] == '\t' || s[st.pos] == '\r') {
        spec_skip_ws(s, ScanState { pos: st.pos + 1, line: st.line, col: st.col + 1 })
    } else {
        st
    }
}

/// Cursor after skipping to the end of the line, for comments; the
/// newline itself is not consumed.
pub open spec fn spec_skip_line(s: Seq<char>, st: ScanState) -> ScanState
    decreases s.len() - st.pos,
{
    if st.pos < s.len() && s[st.pos] != '\n' {
        spec_skip_line(s, ScanState { pos: st.pos + 1, line: st.line, col: st.col + 1 })
    } else {
        st
    }
}

/// End position of the maximal run of word characters starting at `pos`.
pub open spec fn spec_scan_word(s: Seq<char>, pos: int) -> int
    decreases s.len() - pos,
{
    if pos < s.len() && spec_is_word_char(s[pos]) {
        spec_scan_word(s, pos + 1)
    } else {
        pos
    }
}

/// Outcome of scanning a quoted string from just after its opening
/// quote: the resolved value and the cursor after the closing quote, or
/// a diagnostic and the cursor where scanning stopped.
#[verifier::ext_equal]
pub enum StrScan {
    Done { value: Seq<char>, st: ScanState },
    Fail { msg: Seq<char>, st: ScanState },
}

/// Scanning a quoted string: stops at the closing character; a newline
/// or the end of input fails; a backslash consumes one escape target.
pub open spec fn spec_scan_string(s: Seq<char>, st: ScanState, closing: char) -> StrScan
    decreases s.len() - st.pos,
{
    if st.pos >= s.len() {
        StrScan::Fail { msg: unterminated_msg(), st }
    } else if s[st.pos] == closing {
        StrScan::Done { value: Seq::empty(), st: spec_adv(s, st) }
    } else if s[st.pos] == '\n' {
        StrScan::Fail { msg: unterminated_msg(), st }
    } else if s[st.pos] == '\\' {
        let st1 = spec_adv(s, st);
        if st1.pos >= s.len() {
            StrScan::Fail { msg: unterminated_escape_msg(), st: st1 }
        } else {
            let c = spec_escape(s[st1.pos]);
            match spec_scan_string(s, spec_adv(s, st1), closing) {
                StrScan::Done { value, st } => StrScan::Done { value: seq![c] + value, st },
                f => f,
            }
        }
    } else {
        let c = s[st.pos];
        match spec_scan_string(s, spec_adv(s, st), closing) {
            StrScan::Done { value, st } => StrScan::Done { value: seq![c] + value, st },
            f => f,
        }
    }
}

/// The token built from the text between `start` and the cursor.
pub open spec fn spec_token_at(
    s: Seq<char>,
    kind: TokenKindV,
    start: int,
    start_col: int,
    st: ScanState,
) -> TokenV {
    TokenV {
        kind,
        span: SpanV { start, end: st.pos, line: st.line, column: start_col },
        lexeme: s.subrange(start, st.pos),
    }
}

/// The next token from the cursor on, and the cursor after it:
/// whitespace is skipped, operators take one- or two-character
/// lookahead, a comment runs to the end of the line, quotes are scanned
/// as strings, and anything else is a word.
pub open spec fn spec_next_token(s: Seq<char>, st0: ScanState) -> (TokenV, ScanState)
    decreases s.len() - st0.pos,
        via spec_next_token_dec
{
    let st = spec_skip_ws(s, st0);
    if st.pos >= s.len() {
        (spec_token_at(s, TokenKindV::Eof, st.pos, st.col, st), st)
    } else {
        let c = s[st.pos];
        let st1 = spec_adv(s, st);
        if c == '\n' {
            (spec_token_at(s, TokenKindV::Newline, st.pos, st.col, st1), st1)
        } else if c == '"' || c == '\'' || c == '«' {
            match spec_scan_string(s, st1, spec_closing(c)) {
                StrScan::Done { value, st: st2 } => (
                    spec_token_at(s, TokenKindV::Quoted(value), st.pos, st.col, st2),
                    st2,
                ),
                StrScan::Fail { msg, st: st2 } => (
                    spec_token_at(s, TokenKindV::Error(msg), st.pos, st.col, st2),
                    st2,
                ),
            }
        } else if c == '|' {
            if st1.pos < s.len() && s[st1.pos] == '|' {
                let st2 = ScanState { pos: st1.pos + 1, line: st1.line, col: st1.col + 1 };
                (spec_token_at(s, TokenKindV::Or, st.pos, st.col, st2), st2)
            } else {
                (spec_token_at(s, TokenKindV::Pipe, st.pos, st.col, st1), st1)
            }
        } else if c == '&' {
            if st1.pos < s.len() && s[st1.pos] == '&' {
                let st2 = ScanState { pos: st1.pos + 1, line: st1.line, col: st1.col + 1 };
                (spec_token_at(s, TokenKindV::And, st.pos, st.col, st2), st2)
            } else {
                (spec_token_at(s, TokenKindV::Background, st.pos, st.col, st1), st1)
            }
        } else if c == '>' {
            if st1.pos < s.len() && s[st1.pos] == '>' {
                let st2 = ScanState { pos: st1.pos + 1, line: st1.line, col: st1.col + 1 };
                (spec_token_at(s, TokenKindV::Append, st.pos, st.col, st2), st2)
            } else {
                (spec_token_at(s, TokenKindV::RedirectOut, st.pos, st.col, st1), st1)
            }
        } else if c == '<' {
            (spec_token_at(s, TokenKindV::RedirectIn, st.pos, st.col, st1), st1)
        } else if c == ';' || c == '\u{061B}' {
            (spec_token_at(s, TokenKindV::Semicolon, st.pos, st.col, st1), st1)
        } else if c == '#' {
            spec_next_token(s, spec_skip_line(s, st1))
        } else {
            let end = spec_scan_word(s, st1.pos);
            let st2 = ScanState { pos: end, line: st.line, col: st.col + (end - st.pos) };
            (spec_token_at(s, TokenKindV::Word(s.subrange(st.pos, end)), st.pos, st.col, st2), st2)
        }
    }
}

#[via_fn]
proof fn spec_next_token_dec(s: Seq<char>, st0: ScanState) {
    let st = spec_skip_ws(s, st0);
    lemma_skip_ws_bounds(s, st0);
    if st.pos < s.len() && s[st.pos] == '#' {
        let st1 = spec_adv(s, st);
        lemma_skip_line_bounds(s, st1);
    }
}

/// The whole token sequence from the cursor on: tokens up to and
/// including the final `Eof`.
pub open spec fn spec_tokens(s: Seq<char>, st: ScanState) -> Seq<TokenV>
    decreases s.len() - st.pos,
        via spec_tokens_dec
{
    let (t, st2) = spec_next_token(s, st);
    if t.kind is Eof {
        seq![t]
    } else {
        seq![t] + spec_tokens(s, st2)
    }
}

#[via_fn]
proof fn spec_tokens_dec(s: Seq<char>, st: ScanState) {
    if st.pos <= s.len() {
        lemma_next_token_bounds(s, st);
    }
}

/// The view of an executable token vector.
pub open spec fn token_views(v: Seq<Token>) -> Seq<TokenV> {
    Seq::new(v.len(), |i: int| v[i]@)
}

pub proof fn lemma_skip_ws_bounds(s: Seq<char>, st: ScanState)
    ensures
        st.pos <= spec_skip_ws(s, st).pos,
        st.pos <= s.len() ==> spec_skip_ws(s, st).pos <= s.len(),
        spec_skip_ws(s, st).line == st.line,
    decreases s.len() - st.pos,
{
    if st.pos < s.len() && (s[st.pos] == ' ' || s[st.pos] == '\t' || s[st.pos] == '\r') {
        lemma_skip_ws_bounds(s, ScanState { pos: st.pos + 1, line: st.line, col: st.col + 1 });
    }
}

pub proof fn lemma_skip_line_bounds(s: Seq<char>, st: ScanState)
    ensures
        st.pos <= spec_skip_line(s, st).pos,
        st.pos <= s.len() ==> spec_skip_line(s, st).pos <= s.len(),
    decreases s.len() - st.pos,
{
    if st.pos < s.len() && s[st.pos] != '\n' {
        lemma_skip_line_bounds(s, ScanState { pos: st.pos + 1, line: st.line, col: st.col + 1 });
    }
}

pub proof fn lemma_scan_word_bounds(s: Seq<char>, pos: int)
    ensures
        pos <= spec_scan_word(s, pos),
        pos <= s.len() ==> spec_scan_word(s, pos) <= s.len(),
    decreases s.len() - pos,
{
    if pos < s.len() && spec_is_word_char(s[pos]) {
        lemma_scan_word_bounds(s, pos + 1);
    }
}

pub proof fn lemma_scan_string_bounds(s: Seq<char>, st: ScanState, closing: char)
    requires
        st.pos <= s.len(),
    ensures
        ({
            let r = spec_scan_string(s, st, closing);
            match r {
                StrScan::Done { st: st2, .. } => st.pos < st2.pos <= s.len(),
                StrScan::Fail { st: st2, .. } => st.pos <= st2.pos <= s.len(),
            }
        }),
    decreases s.len() - st.pos,
{
    if st.pos >= s.len() {
    } else if s[st.pos] == closing {
    } else if s[st.pos] == '\n' {
    } else if s[st.pos] == '\\' {
        let st1 = spec_adv(s, st);
        if st1.pos < s.len() {
            lemma_scan_string_bounds(s, spec_adv(s, st1), closing);
        }
    } else {
        lemma_scan_string_bounds(s, spec_adv(s, st), closing);
    }
}

pub proof fn lemma_next_token_bounds(s: Seq<char>, st: ScanState)
    requires
        st.pos <= s.len(),
    ensures
        ({
            let (t, st2) = spec_next_token(s, st);
            st.pos <= st2.pos <= s.len() && (!(t.kind is Eof) ==> st.pos < st2.pos)
        }),
    decreases s.len() - st.pos,
{
    let st1 = spec_skip_ws(s, st);
    lemma_skip_ws_bounds(s, st);
    if st1.pos < s.len() {
        let c = s[st1.pos];
        let sta = spec_adv(s, st1);
        if c == '"' || c == '\'' || c == '«' {
            lemma_scan_string_bounds(s, sta, spec_closing(c));
        } else if c == '#' {
            lemma_skip_line_bounds(s, sta);
            lemma_next_token_bounds(s, spec_skip_line(s, sta));
        } else {
            lemma_scan_word_bounds(s, sta.pos);
        }
    }
}

/// Tokenizes one line of input. The text is normalized to NFC once, and
/// a single pass with a position, line and column cursor emits tokens; a
/// lexer instance is not reused across lines.
pub struct Lexer {
    source: Vec<char>,
    position: usize,
    token_start: usize,
    line: usize,
    column: usize,
    token_start_column: usize,
}

impl Lexer {
    /// The normalized characters being scanned.
    pub closed spec fn src(&self) -> Seq<char> {
        self.source@
    }

    /// The current cursor.
    pub closed spec fn cursor(&self) -> ScanState {
        ScanState { pos: self.position as int, line: self.line as int, col: self.column as int }
    }

    /// Start position of the token being built.
    pub closed spec fn start_mark(&self) -> int {
        self.token_start as int
    }

    /// Column at the start of the token being built.
    pub closed spec fn start_col_mark(&self) -> int {
        self.token_start_column as int
    }

    /// The cursor stays inside the source, and lines and columns stay
    /// 1-indexed and small enough that stepping them cannot overflow.
    pub closed spec fn wf(&self) -> bool {
        &&& self.source@.len() < usize::MAX
        &&& self.position <= self.source@.len()
        &&& 1 <= self.line <= self.position + 1
        &&& 1 <= self.column <= self.position + 1
        &&& self.token_start <= self.position
        &&& 1 <= self.token_start_column <= self.token_start + 1
    }

    /// Builds a lexer over the NFC normalization of the given text, with
    /// the cursor at the first character of the first line.
    pub fn new(source: &str) -> (l: Lexer)
        ensures
            l.wf(),
            l.src() == nfc_of(source@),
            l.cursor() == (ScanState { pos: 0, line: 1, col: 1 }),
    {
        let chars = nfc_chars(source);
        Lexer {
            source: chars,
            position: 0,
            token_start: 0,
            line: 1,
            column: 1,
            token_start_column: 1,
        }
    }

    /// Emits the whole token sequence for the line, ending with `Eof`.
#[verifier::loop_isolation(false)]
    pub fn tokenize(&mut self) -> (tokens: Vec<Token>)
        requires
            old(self).wf(),
        ensures
            final(self).wf(),
            final(self).src() == old(self).src(),
            token_views(tokens@) == spec_tokens(old(self).src(), old(self).cursor()),
    {
        let ghost s0 = self.src();
        let ghost st0 = self.cursor();
        let mut tokens: Vec<Token> = Vec::new();
        let mut done = false;
        proof {
            assert(token_views(tokens@) + spec_tokens(s0, st0) =~= spec_tokens(s0, st0));
        }
        while !done
            invariant
                self.wf(),
                self.src() == s0,
                self.cursor().pos <= s0.len(),
                !done ==> spec_tokens(s0, st0) == token_views(tokens@) + spec_tokens(
                    s0,
                    self.cursor(),
                ),
                done ==> token_views(tokens@) == spec_tokens(s0, st0),
            decreases s0.len() - self.cursor().pos, (if done {
                0int
            } else {
                1int
            }),
        {
            let ghost st_here = self.cursor();
            let ghost prev = tokens@;
            proof {
                lemma_next_token_bounds(s0, st_here);
            }
            let token = self.next_token();
            let is_eof = matches!(token.kind, TokenKind::Eof);
            tokens.push(token);
            proof {
                let (tv, st2) = spec_next_token(s0, st_here);
                assert(token@ == tv);
                assert(is_eof <==> tv.kind is Eof) by {
                    match token.kind {
                        TokenKind::Eof => {},
                        _ => {},
                    }
                }
                assert(token_views(tokens@) =~= token_views(prev) + seq![tv]);
                if is_eof {
                    assert(spec_tokens(s0, st_here) == seq![tv]);
                    assert(token_views(prev) + seq![tv] =~= token_views(prev) + spec_tokens(
                        s0,
                        st_here,
                    ));
                    assert(token_views(tokens@) == spec_tokens(s0, st0));
                } else {
                    assert(spec_tokens(s0, st_here) == seq![tv] + spec_tokens(s0, st2));
                    assert(token_views(prev) + (seq![tv] + spec_tokens(s0, st2)) =~= (token_views(
                        prev,
                    ) + seq![tv]) + spec_tokens(s0, st2));
                    assert(spec_tokens(s0, st0) == token_views(tokens@) + spec_tokens(s0, st2));
                }
            }
            if is_eof {
                done = true;
            }
        }
                tokens
    }

    /// Emits the next token and leaves the cursor after it.
    pub fn next_token(&mut self) -> (t: Token)
        requires
            old(self).wf(),
        ensures
            final(self).wf(),
            final(self).src() == old(self).src(),
            ({
                let (tv, st2) = spec_next_token(old(self).src(), old(self).cursor());
                t@ == tv && final(self).cursor() == st2
            }),
        decreases old(self).src().len() - old(self).cursor().pos,
    {
        self.skip_whitespace();
        self.token_start = self.position;
        self.token_start_column = self.column;

        if self.is_at_end() {
            return self.make_token(TokenKind::Eof);
        }
        let c = self.advance();
        match c {
            '\n' => self.make_token(TokenKind::Newline),
            '"' | '\'' => self.scan_string(c),
            '«' => self.scan_string('«'),
            '|' => {
                if self.match_char('|') {
                    self.make_token(TokenKind::Or)
                } else {
                    self.make_token(TokenKind::Pipe)
                }
            },
            '&' => {
                if self.match_char('&') {
                    self.make_token(TokenKind::And)
                } else {
                    self.make_token(TokenKind::Background)
                }
            },
            '>' => {
                if self.match_char('>') {
                    self.make_token(TokenKind::Append)
                } else {
                    self.make_token(TokenKind::RedirectOut)
                }
            },
            '<' => self.make_token(TokenKind::RedirectIn),
            ';' => self.make_token(TokenKind::Semicolon),
            '\u{061B}' => self.make_token(TokenKind::Semicolon),
            '#' => {
                let ghost stc = self.cursor();
                self.skip_line();
                proof {
                    lemma_skip_ws_bounds(old(self).src(), old(self).cursor());
                    lemma_skip_line_bounds(old(self).src(), stc);
                }
                self.next_token()
            },
            _ => self.scan_word(c),
        }
    }

    /// Scans the rest of an unquoted word whose first character was just
    /// consumed.
#[verifier::loop_isolation(false)]
    fn scan_word(&mut self, first: char) -> (t: Token)
        requires
            old(self).wf(),
            old(self).start_mark() + 1 == old(self).cursor().pos,
            old(self).start_col_mark() + 1 == old(self).cursor().col,
        ensures
            final(self).wf(),
            final(self).src() == old(self).src(),
            ({
                let s = old(self).src();
                let end = spec_scan_word(s, old(self).cursor().pos);
                let st2 = ScanState {
                    pos: end,
                    line: old(self).cursor().line,
                    col: old(self).start_col_mark() + (end - old(self).start_mark()),
                };
                t@ == spec_token_at(
                    s,
                    TokenKindV::Word(s.subrange(old(self).start_mark(), end)),
                    old(self).start_mark(),
                    old(self).start_col_mark(),
                    st2,
                ) && final(self).cursor() == st2
            }),
    {
        let ghost s = self.src();
        let ghost pos0 = self.cursor().pos;
        while !self.is_at_end() && self.is_word_char(self.peek())
            invariant
                self.wf(),
                self.src() == s,
                self.start_mark() == old(self).start_mark(),
                self.start_col_mark() == old(self).start_col_mark(),
                pos0 <= self.cursor().pos <= s.len(),
                self.cursor().line == old(self).cursor().line,
                self.cursor().col - self.cursor().pos == old(self).cursor().col - pos0,
                spec_scan_word(s, self.cursor().pos) == spec_scan_word(s, pos0),
            decreases s.len() - self.cursor().pos,
        {
            self.advance();
        }
        let value = collect_range(&self.source, self.token_start, self.position);
        self.make_token(TokenKind::Word(value))
    }

    /// Scans a quoted string whose opening quote was just consumed, up
    /// to the matching closing character, resolving escapes; a newline
    /// or the end of the line before the closing quote is an error
    /// token.
#[verifier::loop_isolation(false)]
    fn scan_string(&mut self, opening: char) -> (t: Token)
        requires
            old(self).wf(),
            old(self).start_mark() < old(self).cursor().pos,
        ensures
            final(self).wf(),
            final(self).src() == old(self).src(),
            ({
                let s = old(self).src();
                match spec_scan_string(s, old(self).cursor(), spec_closing(opening)) {
                    StrScan::Done { value, st: st2 } => t@ == spec_token_at(
                        s,
                        TokenKindV::Quoted(value),
                        old(self).start_mark(),
                        old(self).start_col_mark(),
                        st2,
                    ) && final(self).cursor() == st2,
                    StrScan::Fail { msg, st: st2 } => t@ == spec_token_at(
                        s,
                        TokenKindV::Error(msg),
                        old(self).start_mark(),
                        old(self).start_col_mark(),
                        st2,
                    ) && final(self).cursor() == st2,
                }
            }),
    {
        let closing = if opening == '«' {
            '»'
        } else {
            opening
        };
        let ghost s = self.src();
        let ghost st_enter = self.cursor();
        let mut value = String::new();
        proof {
            match spec_scan_string(s, st_enter, closing) {
                StrScan::Done { value: v, st } => {
                    assert(value@ + v =~= v);
                },
                StrScan::Fail { .. } => {},
            }
        }
        while !self.is_at_end() && self.peek() != closing
            invariant
                self.wf(),
                self.src() == s,
                closing == spec_closing(opening),
                self.start_mark() == old(self).start_mark(),
                self.start_col_mark() == old(self).start_col_mark(),
                st_enter.pos <= self.cursor().pos <= s.len(),
                ({
                    match spec_scan_string(s, self.cursor(), closing) {
                        StrScan::Done { value: v, st } => spec_scan_string(s, st_enter, closing)
                            == (StrScan::Done { value: value@ + v, st }),
                        StrScan::Fail { msg, st } => spec_scan_string(s, st_enter, closing) == (
                        StrScan::Fail { msg, st }),
                    }
                }),
            decreases s.len() - self.cursor().pos,
        {
            if self.peek() == '\n' {
                return self.make_error("نص غير مكتمل / Unterminated string");
            }
            let ghost st_a = self.cursor();
            let ghost val_a = value@;
            if self.peek() == '\\' {
                self.advance();
                if self.is_at_end() {
                    return self.make_error("تسلسل هروب غير مكتمل / Unterminated escape");
                }
                let escaped = self.advance();
                let resolved = escape_char(escaped);
                push_char(&mut value, resolved);
                proof {
                    match spec_scan_string(s, self.cursor(), closing) {
                        StrScan::Done { value: v, st } => {
                            assert(spec_scan_string(s, st_a, closing) == (StrScan::Done {
                                value: seq![resolved] + v,
                                st,
                            }));
                            assert(val_a + (seq![resolved] + v) =~= value@ + v);
                        },
                        StrScan::Fail { .. } => {},
                    }
                }
            } else {
                let ch = self.advance();
                push_char(&mut value, ch);
                proof {
                    match spec_scan_string(s, self.cursor(), closing) {
                        StrScan::Done { value: v, st } => {
                            assert(spec_scan_string(s, st_a, closing) == (StrScan::Done {
                                value: seq![ch] + v,
                                st,
                            }));
                            assert(val_a + (seq![ch] + v) =~= value@ + v);
                        },
                        StrScan::Fail { .. } => {},
                    }
                }
            }
        }
        if self.is_at_end() {
            return self.make_error("نص غير مكتمل / Unterminated string");
        }
        proof {
            match spec_scan_string(s, self.cursor(), closing) {
                StrScan::Done { value: v, st } => {
                    assert(value@ + v =~= value@);
                },
                StrScan::Fail { .. } => {},
            }
        }
        self.advance();
        self.make_token(TokenKind::Quoted(value))
    }

    /// Whether the character may stand inside an unquoted word.
    fn is_word_char(&self, c: char) -> (r: bool)
        ensures
            r == spec_is_word_char(c),
    {
        !matches!(c,
            ' ' | '\t' | '\n' | '\r'
            | '|' | '&' | '>' | '<' | ';'
            | '"' | '\'' | '«' | '»'
            | '#'
            | '\u{061B}')
    }

    /// Whether the character is an Arabic letter.
    #[allow(dead_code)]
    fn is_arabic_letter(&self, c: char) -> (r: bool)
        ensures
            r == spec_is_arabic_letter(c),
    {
        matches!(c,
            '\u{0621}'..='\u{063A}'
            | '\u{0641}'..='\u{064A}'
            | '\u{066E}'..='\u{066F}'
            | '\u{0671}'..='\u{06D3}'
            | '\u{06D5}'
            | '\u{06E5}'..='\u{06E6}'
            | '\u{06EE}'..='\u{06EF}'
            | '\u{06FA}'..='\u{06FC}'
            | '\u{06FF}'
            | '\u{0750}'..='\u{077F}'
            | '\u{08A0}'..='\u{08FF}'
            | '\u{FB50}'..='\u{FDFF}'
            | '\u{FE70}'..='\u{FEFF}')
    }

    /// Whether the character is an Arabic-Indic digit.
    #[allow(dead_code)]
    fn is_arabic_digit(&self, c: char) -> (r: bool)
        ensures
            r == ('٠' <= c <= '٩'),
    {
        matches!(c, '٠'..='٩')
    }

    /// Skips horizontal whitespace; newlines stay significant.
#[verifier::loop_isolation(false)]
    fn skip_whitespace(&mut self)
        requires
            old(self).wf(),
        ensures
            final(self).wf(),
            final(self).src() == old(self).src(),
            final(self).start_mark() == old(self).start_mark(),
            final(self).start_col_mark() == old(self).start_col_mark(),
            final(self).cursor() == spec_skip_ws(old(self).src(), old(self).cursor()),
    {
        let ghost s = self.src();
        let ghost st0 = self.cursor();
        while !self.is_at_end() && (self.peek() == ' ' || self.peek() == '\t' || self.peek()
            == '\r')
            invariant
                self.wf(),
                self.src() == s,
                self.start_mark() == old(self).start_mark(),
                self.start_col_mark() == old(self).start_col_mark(),
                spec_skip_ws(s, self.cursor()) == spec_skip_ws(s, st0),
            decreases s.len() - self.cursor().pos,
        {
            self.advance();
        }
    }

    /// Skips to the end of the line, leaving the newline unconsumed.
#[verifier::loop_isolation(false)]
    fn skip_line(&mut self)
        requires
            old(self).wf(),
        ensures
            final(self).wf(),
            final(self).src() == old(self).src(),
            final(self).start_mark() == old(self).start_mark(),
            final(self).start_col_mark() == old(self).start_col_mark(),
            final(self).cursor() == spec_skip_line(old(self).src(), old(self).cursor()),
    {
        let ghost s = self.src();
        let ghost st0 = self.cursor();
        while !self.is_at_end() && self.peek() != '\n'
            invariant
                self.wf(),
                self.src() == s,
                self.start_mark() == old(self).start_mark(),
                self.start_col_mark() == old(self).start_col_mark(),
                spec_skip_line(s, self.cursor()) == spec_skip_line(s, st0),
            decreases s.len() - self.cursor().pos,
        {
            self.advance();
        }
    }

    /// Whether the cursor is past the last character.
    fn is_at_end(&self) -> (r: bool)
        ensures
            r == (self.cursor().pos >= self.src().len()),
    {
        self.position >= self.source.len()
    }

    /// The character under the cursor, or NUL at the end.
    fn peek(&self) -> (c: char)
        ensures
            c == if self.cursor().pos >= self.src().len() {
                '\0'
            } else {
                self.src()[self.cursor().pos]
            },
    {
        if self.is_at_end() {
            '\0'
        } else {
            self.source[self.position]
        }
    }

    /// Consumes and returns the character under the cursor, stepping the
    /// line and column counters.
    fn advance(&mut self) -> (c: char)
        requires
            old(self).wf(),
            old(self).cursor().pos < old(self).src().len(),
        ensures
            final(self).wf(),
            final(self).src() == old(self).src(),
            final(self).start_mark() == old(self).start_mark(),
            final(self).start_col_mark() == old(self).start_col_mark(),
            c == old(self).src()[old(self).cursor().pos],
            final(self).cursor() == spec_adv(old(self).src(), old(self).cursor()),
    {
        let c = self.source[self.position];
        self.position = self.position + 1;
        if c == '\n' {
            self.line = self.line + 1;
            self.column = 1;
        } else {
            self.column = self.column + 1;
        }
        c
    }

    /// Consumes the character under the cursor when it is the expected
    /// one; used for the two-character operators, so it never sees a
    /// newline.
    fn match_char(&mut self, expected: char) -> (r: bool)
        requires
            old(self).wf(),
            expected != '\n',
        ensures
            final(self).wf(),
            final(self).src() == old(self).src(),
            final(self).start_mark() == old(self).start_mark(),
            final(self).start_col_mark() == old(self).start_col_mark(),
            r == (old(self).cursor().pos < old(self).src().len() && old(self).src()[old(
                self,
            ).cursor().pos] == expected),
            final(self).cursor() == if r {
                ScanState {
                    pos: old(self).cursor().pos + 1,
                    line: old(self).cursor().line,
                    col: old(self).cursor().col + 1,
                }
            } else {
                old(self).cursor()
            },
    {
        if self.is_at_end() || self.source[self.position] != expected {
            false
        } else {
            self.position = self.position + 1;
            self.column = self.column + 1;
            true
        }
    }

    /// Builds a token of the given kind out of the text between the
    /// token start mark and the cursor.
    fn make_token(&self, kind: TokenKind) -> (t: Token)
        requires
            self.wf(),
            self.start_mark() <= self.cursor().pos,
        ensures
            t@ == spec_token_at(
                self.src(),
                kind@,
                self.start_mark(),
                self.start_col_mark(),
                self.cursor(),
            ),
    {
        let lexeme = collect_range(&self.source, self.token_start, self.position);
        Token::new(
            kind,
            Span::new(self.token_start, self.position, self.line, self.token_start_column),
            lexeme,
        )
    }

    /// Builds an error token carrying the given diagnostic.
    fn make_error(&self, message: &str) -> (t: Token)
        requires
            self.wf(),
            self.start_mark() <= self.cursor().pos,
        ensures
            t@ == spec_token_at(
                self.src(),
                TokenKindV::Error(message@),
                self.start_mark(),
                self.start_col_mark(),
                self.cursor(),
            ),
    {
        let lexeme = collect_range(&self.source, self.token_start, self.position);
        Token::new(
            TokenKind::Error(message.to_owned()),
            Span::new(self.token_start, self.position, self.line, self.token_start_column),
            lexeme,
        )
    }
}

/// Whether the character is an Arabic letter, by Unicode block.
pub open spec fn spec_is_arabic_letter(c: char) -> bool {
    ('\u{0621}' <= c <= '\u{063A}') || ('\u{0641}' <= c <= '\u{064A}') || ('\u{066E}' <= c
        <= '\u{066F}') || ('\u{0671}' <= c <= '\u{06D3}') || (c == '\u{06D5}') || ('\u{06E5}' <= c
        <= '\u{06E6}') || ('\u{06EE}' <= c <= '\u{06EF}') || ('\u{06FA}' <= c <= '\u{06FC}') || (c
        == '\u{06FF}') || ('\u{0750}' <= c <= '\u{077F}') || ('\u{08A0}' <= c <= '\u{08FF}') || (
    '\u{FB50}' <= c <= '\u{FDFF}') || ('\u{FE70}' <= c <= '\u{FEFF}')
}

/// The executable form of `spec_escape`.
fn escape_char(c: char) -> (r: char)
    ensures
        r == spec_escape(c),
{
    match c {
        'n' => '\n',
        'r' => '\r',
        't' => '\t',
        '\\' => '\\',
        '"' => '"',
        '\'' => '\'',
        '0' => '\0',
        _ => c,
    }
}

/// A quote with plain content is one token with that content exactly:
/// up to the closing character, text free of quotes, escapes and
/// newlines is taken as it stands, internal whitespace included.
pub proof fn lemma_quote_plain_content(s: Seq<char>, st: ScanState, closing: char, end: int)
    requires
        0 <= st.pos <= end < s.len(),
        closing != '\n',
        s[end] == closing,
        forall|j: int| st.pos <= j < end ==> #[trigger] s[j] != closing && s[j] != '\n' && s[j]
            != '\\',
    ensures
        spec_scan_string(s, st, closing) == (StrScan::Done {
            value: s.subrange(st.pos, end),
            st: ScanState {
                pos: end + 1,
                line: st.line,
                col: st.col + (end + 1 - st.pos),
            },
        }),
    decreases end - st.pos,
{
    if st.pos == end {
        assert(s.subrange(st.pos, end) =~= Seq::empty());
    } else {
        let st1 = spec_adv(s, st);
        lemma_quote_plain_content(s, st1, closing, end);
        assert(s.subrange(st.pos, end) =~= seq![s[st.pos]] + s.subrange(st.pos + 1, end));
    }
}

/// A quote that never closes before the end of the line is an error:
/// with no closing character, newline or backslash ahead, scanning
/// fails with the unterminated-string diagnostic.
pub proof fn lemma_unterminated_quote(s: Seq<char>, st: ScanState, closing: char)
    requires
        0 <= st.pos,
        forall|j: int|
            st.pos <= j < s.len() ==> #[trigger] s[j] != closing && s[j] != '\n' && s[j] != '\\',
    ensures
        spec_scan_string(s, st, closing) matches StrScan::Fail { msg, .. } && msg
            == unterminated_msg(),
    decreases s.len() - st.pos,
{
    if st.pos < s.len() {
        lemma_unterminated_quote(s, spec_adv(s, st), closing);
    }
}

proof fn lemma_scan_word_stops(s: Seq<char>, p: int, q: int)
    requires
        0 <= p <= q <= s.len(),
        forall|j: int| p <= j < q ==> spec_is_word_char(#[trigger] s[j]),
        q == s.len() || !spec_is_word_char(s[q]),
    ensures
        spec_scan_word(s, p) == q,
    decreases q - p,
{
    if p < q {
        lemma_scan_word_stops(s, p + 1, q);
    }
}

/// Tokenizing a line that is words joined by single spaces — with an
/// optional leading space — yields exactly one word token per word, in
/// order, and then the end-of-input token.
pub proof fn lemma_tokens_of_words(s: Seq<char>, st: ScanState, ws: Seq<Seq<char>>, lead: int)
    requires
        0 <= st.pos,
        0 <= lead <= 1,
        ws.len() >= 1,
        forall|i: int| 0 <= i < ws.len() ==> (#[trigger] ws[i]).len() >= 1,
        forall|i: int, j: int|
            0 <= i < ws.len() && 0 <= j < ws[i].len() ==> spec_is_word_char(#[trigger] ws[i][j]),
        st.pos + lead <= s.len(),
        s.subrange(st.pos, s.len() as int) == crate::arabic::spec_spaces(lead)
            + crate::text::spec_join_with(ws, " "@),
    ensures
        ({
            let ts = spec_tokens(s, st);
            ts.len() == ws.len() + 1 && (forall|i: int|
                0 <= i < ws.len() ==> (#[trigger] ts[i]).kind == TokenKindV::Word(ws[i]))
                && ts[ws.len() as int].kind is Eof
        }),
    decreases ws.len(),
{
    reveal_strlit(" ");
    assert(" "@ =~= seq![' ']);
    let rest = s.subrange(st.pos, s.len() as int);
    let join = crate::text::spec_join_with(ws, " "@);
    let start = st.pos + lead;
    let l0 = ws[0].len() as int;
    if ws.len() == 1 {
        assert(join == ws[0]);
    } else {
        crate::text::lemma_join_front(ws, " "@);
        assert(join.len() == l0 + 1 + crate::text::spec_join_with(ws.drop_first(), " "@).len());
    }
    assert(rest.len() == lead + join.len());
    assert(join.len() >= l0);
    // The characters of the first word stand at the start, after the
    // optional space.
    assert forall|k: int| start <= k < start + l0 implies spec_is_word_char(#[trigger] s[k])
        && s[k] == ws[0][k - start] by {
        let j = k - start;
        assert(rest[lead + j] == s[st.pos + (lead + j)]);
        assert((crate::arabic::spec_spaces(lead) + join)[lead + j] == join[j]);
        if ws.len() > 1 {
            assert((ws[0] + " "@ + crate::text::spec_join_with(ws.drop_first(), " "@))[j]
                == (ws[0] + " "@)[j]);
            assert((ws[0] + " "@)[j] == ws[0][j]);
        }
        assert(s[k] == ws[0][j]);
    }
    if lead == 1 {
        assert(s[st.pos] == ' ') by {
            assert(rest[0] == s[st.pos + 0]);
            assert((crate::arabic::spec_spaces(1) + join)[0] == ' ');
        }
        assert(spec_skip_ws(s, st) == spec_skip_ws(
            s,
            ScanState { pos: st.pos + 1, line: st.line, col: st.col + 1 },
        ));
    }
    assert(spec_is_word_char(s[start]));
    let stw = spec_skip_ws(s, st);
    assert(stw.pos == start);
    let st1 = spec_adv(s, stw);
    assert(st1.pos == start + 1);
    if ws.len() == 1 {
        // The single word runs to the end of the line.
        assert(s.len() == start + l0);
        lemma_scan_word_stops(s, start + 1, start + l0);
        let (t0, st2) = spec_next_token(s, st);
        assert(t0.kind == TokenKindV::Word(s.subrange(start, start + l0)));
        assert(s.subrange(start, start + l0) =~= ws[0]);
        assert(st2.pos == s.len());
        let (te, ste) = spec_next_token(s, st2);
        assert(spec_skip_ws(s, st2) == st2);
        assert(te.kind is Eof);
        assert(spec_tokens(s, st2) == seq![te]);
        assert(spec_tokens(s, st) == seq![t0] + seq![te]);
        assert(spec_tokens(s, st).len() == 2);
        assert(spec_tokens(s, st)[0] == t0);
        assert(spec_tokens(s, st)[1] == te);
    } else {
        // The first word ends at a space, and the rest of the line is
        // the remaining words behind that space.
        assert(s[start + l0] == ' ') by {
            assert(rest[lead + l0] == s[start + l0]);
            assert((crate::arabic::spec_spaces(lead) + join)[lead + l0] == join[l0]);
            assert((ws[0] + " "@ + crate::text::spec_join_with(ws.drop_first(), " "@))[l0]
                == " "@[0]);
        }
        assert(start + l0 < s.len());
        lemma_scan_word_stops(s, start + 1, start + l0);
        let (t0, st2) = spec_next_token(s, st);
        assert(t0.kind == TokenKindV::Word(s.subrange(start, start + l0)));
        assert(s.subrange(start, start + l0) =~= ws[0]);
        assert(st2.pos == start + l0);
        assert(s.subrange(st2.pos, s.len() as int) =~= crate::arabic::spec_spaces(1)
            + crate::text::spec_join_with(ws.drop_first(), " "@)) by {
            assert forall|j: int| 0 <= j < s.len() - st2.pos implies s.subrange(
                st2.pos,
                s.len() as int,
            )[j] == (crate::arabic::spec_spaces(1) + crate::text::spec_join_with(
                ws.drop_first(),
                " "@,
            ))[j] by {
                assert(s.subrange(st2.pos, s.len() as int)[j] == rest[lead + l0 + j]);
                assert((crate::arabic::spec_spaces(lead) + join)[lead + l0 + j] == join[l0 + j]);
                assert((ws[0] + " "@ + crate::text::spec_join_with(ws.drop_first(), " "@))[l0 + j]
                    == (crate::arabic::spec_spaces(1) + crate::text::spec_join_with(
                    ws.drop_first(),
                    " "@,
                ))[j]);
            }
        }
        lemma_tokens_of_words(s, st2, ws.drop_first(), 1);
        let ts2 = spec_tokens(s, st2);
        assert(spec_tokens(s, st) == seq![t0] + ts2);
        let ts = spec_tokens(s, st);
        assert(ts.len() == ws.len() + 1);
        assert forall|i: int| 0 <= i < ws.len() implies (#[trigger] ts[i]).kind
            == TokenKindV::Word(ws[i]) by {
            if i == 0 {
            } else {
                assert(ts[i] == ts2[i - 1]);
                assert(ws.drop_first()[i - 1] == ws[i]);
            }
        }
        assert(ts[ws.len() as int] == ts2[ws.len() - 1]);
    }
}

} // verus!

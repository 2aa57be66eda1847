//! A small shell front end: a multi-script lexer, a recursive-descent
//! parser, and a tree-walking executor for pipelines, redirection and
//! conditional chaining.

pub mod text;
pub mod token;
pub mod lexer;
pub mod ast;
pub mod parser;
pub mod arabic;
pub mod colors;
pub mod completer;
pub mod builtins;
pub mod executor;

pub use token::{Span, Token, TokenKind};
pub use lexer::Lexer;
pub use ast::{Command, Redirect, RedirectKind};
pub use parser::{ParseError, ParseResult, Parser};
pub use arabic::{contains_arabic, display_width, format_rtl, get_terminal_width, is_arabic_char,
    right_align, right_align_to, shape_arabic, shape_if_arabic};
pub use builtins::{builtin_of, Builtin, ChownPlan, LnPlan, OwnerRef};
pub use executor::{execute_builtin, CommandResult, Executor, Host, PipelineExecutor, SpawnReply,
    WriteError};
pub use completer::{Candidate, OceanCompleter, OceanHelper};
pub use colors::{colored_error, colored_prompt, colored_success, colorize_entry,
    colorize_entry_full, format_entry, list_text, EntryInfo};

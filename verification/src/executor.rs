//! The executor: walks a command tree and drives the built-in catalog
//! or external processes, with pipeline data flow, short-circuit
//! control flow, and file redirection.
//!
//! All machine effects — reading and writing redirect targets, running
//! the effectful builtins, spawning processes, printing — go through
//! the [`Host`] trait, which promises nothing. The executor is
//! verified against the recursive evaluator `eval_cmd`, which defines,
//! for every possible sequence of host replies, the result, the
//! requests made, and the final exit code; `execute` returns exactly
//! `eval_cmd`'s outcome for the reply sequence its host produced.

use vstd::prelude::*;

use crate::arabic::render_line;
use crate::ast::{Command, CommandV, Redirect, RedirectV};
use crate::ast::view_cmds;
use crate::ast::lemma_view_cmds;
use crate::builtins::{Builtin, builtin_of, echo_text, search_text, version_text};
use crate::builtins::{spec_builtin_of, spec_echo_text, spec_ln_plan, spec_parse_u32,
    spec_search_text, spec_version_text, LnPlanV};
use crate::builtins::{ln_plan, parse_u32_radix, LnPlan};
use crate::text::{append_str, opt_text, opt_text_ref, split_lines, texts_view};

verus! {

/// The outcome of running one command.
#[derive(Debug, Clone, PartialEq)]
pub enum CommandResult {
    /// The command produced this output text.
    Success(String),
    /// The command failed with this message.
    Error(String),
    /// The session should end with this exit code.
    Exit(i32),
    /// The command produced no output.
    Nothing,
}

/// Mathematical image of a `CommandResult`.
#[verifier::ext_equal]
pub enum CResultV {
    Success(Seq<char>),
    Error(Seq<char>),
    Exit(int),
    Nothing,
}

impl View for CommandResult {
    type V = CResultV;

    open spec fn view(&self) -> CResultV {
        match self {
            CommandResult::Success(s) => CResultV::Success(s@),
            CommandResult::Error(s) => CResultV::Error(s@),
            CommandResult::Exit(c) => CResultV::Exit(*c as int),
            CommandResult::Nothing => CResultV::Nothing,
        }
    }
}

/// Whether a result counts as success: output or no output, but not an
/// error and not an exit request.
pub open spec fn is_success_v(r: CResultV) -> bool {
    r is Success || r is Nothing
}

impl CommandResult {
    /// Whether the result counts as success for `&&` and `||`:
    /// `Success` and `Nothing` do, `Error` and `Exit` do not.
    pub fn is_success(&self) -> (r: bool)
        ensures
            r == is_success_v(self@),
    {
        matches!(self, CommandResult::Success(_) | CommandResult::Nothing)
    }

    /// Whether the result asks to end the session.
    pub fn is_exit(&self) -> (r: bool)
        ensures
            r == (self@ is Exit),
    {
        matches!(self, CommandResult::Exit(_))
    }

    /// The output text, when there is one.
    pub fn output(&self) -> (r: Option<&str>)
        ensures
            match r {
                Some(s) => self@ is Success && s@ == self@->Success_0,
                None => !(self@ is Success),
            },
    {
        match self {
            CommandResult::Success(s) => Some(s.as_str()),
            _ => None,
        }
    }
}

/// What spawning an external process came to.
#[derive(Debug, Clone, PartialEq)]
pub enum SpawnReply {
    /// The process could not be started; the system's error text.
    NotFound(String),
    /// The process started but could not be waited for.
    WaitFailed(String),
    /// The process ran to completion: its exit code, if it exited
    /// normally, and its captured output and error streams.
    Completed { code: Option<i32>, stdout: String, stderr: String },
}

/// Mathematical image of a `SpawnReply`.
pub enum SpawnReplyV {
    NotFound(Seq<char>),
    WaitFailed(Seq<char>),
    Completed { code: Option<int>, stdout: Seq<char>, stderr: Seq<char> },
}

impl View for SpawnReply {
    type V = SpawnReplyV;

    open spec fn view(&self) -> SpawnReplyV {
        match self {
            SpawnReply::NotFound(e) => SpawnReplyV::NotFound(e@),
            SpawnReply::WaitFailed(e) => SpawnReplyV::WaitFailed(e@),
            SpawnReply::Completed { code, stdout, stderr } => SpawnReplyV::Completed {
                code: match code {
                    Some(c) => Some(*c as int),
                    None => None,
                },
                stdout: stdout@,
                stderr: stderr@,
            },
        }
    }
}

/// Why writing a redirect target failed.
#[derive(Debug, Clone, PartialEq)]
pub enum WriteError {
    /// The target could not be opened; the system's error text.
    Open(String),
    /// The target could not be written; the system's error text.
    Write(String),
}

/// Mathematical image of a `WriteError`.
pub enum WriteErrorV {
    Open(Seq<char>),
    Write(Seq<char>),
}

impl View for WriteError {
    type V = WriteErrorV;

    open spec fn view(&self) -> WriteErrorV {
        match self {
            WriteError::Open(e) => WriteErrorV::Open(e@),
            WriteError::Write(e) => WriteErrorV::Write(e@),
        }
    }
}

/// The executor's collaborator for everything that touches the
/// machine: redirect files, the effectful builtins, external
/// processes, and the screen. Nothing is promised of it; the executor
/// is verified for every reply it may give.
pub trait Host {
    /// Reads a redirect source fully; `Err` carries the system's error
    /// text.
    fn read_file(&mut self, target: &str) -> Result<String, String>;

    /// Writes or appends output to a redirect target.
    fn write_file(&mut self, target: &str, append: bool, text: &str) -> Result<(), WriteError>;

    /// Runs a built-in operation that touches the machine.
    fn run_builtin(&mut self, b: Builtin, args: &Vec<String>, input: Option<String>)
        -> CommandResult;

    /// Spawns an external process, feeding it the input, and collects
    /// what became of it.
    fn spawn(&mut self, name: &str, args: &Vec<String>, input: Option<String>) -> SpawnReply;

    /// Shows one line of pipeline output.
    fn print_line(&mut self, text: &str);

    /// Tells the user that background execution is not supported.
    fn warn_background(&mut self);
}

/// One reply from the host, as the evaluator models it.
pub enum ReplyV {
    Read(Result<Seq<char>, Seq<char>>),
    Ran(CResultV),
    Spawned(SpawnReplyV),
    Wrote(Result<(), WriteErrorV>),
}

/// One request to the host, as the evaluator records it. A `Print`
/// request carries a pipeline's accumulated output as it stands before
/// display rendering: the executor shows that text line by line, each
/// line shaped and aligned by `render_line` first.
#[verifier::ext_equal]
pub enum RequestV {
    Read { target: Seq<char> },
    RunBuiltin { b: Builtin, args: Seq<Seq<char>>, input: Option<Seq<char>> },
    Spawn { name: Seq<char>, args: Seq<Seq<char>>, input: Option<Seq<char>> },
    Write { target: Seq<char>, append: bool, text: Seq<char> },
    Print { text: Seq<char> },
    Warn,
}

/// The outcome of evaluating a command against a reply sequence: the
/// result, the next unconsumed reply, the requests made in order, and
/// the exit code recorded by the last dispatch or spawn, if any.
#[verifier::ext_equal]
pub struct EvalOut {
    pub result: CResultV,
    pub next: int,
    pub reqs: Seq<RequestV>,
    pub code: Option<int>,
}

/// The reply at position `k`, read as a file read.
pub open spec fn reply_read(o: Seq<ReplyV>, k: int) -> Result<Seq<char>, Seq<char>> {
    if 0 <= k < o.len() {
        match o[k] {
            ReplyV::Read(r) => r,
            _ => vstd::pervasive::arbitrary(),
        }
    } else {
        vstd::pervasive::arbitrary()
    }
}

/// The reply at position `k`, read as a builtin run.
pub open spec fn reply_ran(o: Seq<ReplyV>, k: int) -> CResultV {
    if 0 <= k < o.len() {
        match o[k] {
            ReplyV::Ran(r) => r,
            _ => vstd::pervasive::arbitrary(),
        }
    } else {
        vstd::pervasive::arbitrary()
    }
}

/// The reply at position `k`, read as a spawn outcome.
pub open spec fn reply_spawned(o: Seq<ReplyV>, k: int) -> SpawnReplyV {
    if 0 <= k < o.len() {
        match o[k] {
            ReplyV::Spawned(r) => r,
            _ => vstd::pervasive::arbitrary(),
        }
    } else {
        vstd::pervasive::arbitrary()
    }
}

/// The reply at position `k`, read as a write outcome.
pub open spec fn reply_wrote(o: Seq<ReplyV>, k: int) -> Result<(), WriteErrorV> {
    if 0 <= k < o.len() {
        match o[k] {
            ReplyV::Wrote(r) => r,
            _ => vstd::pervasive::arbitrary(),
        }
    } else {
        vstd::pervasive::arbitrary()
    }
}

/// The diagnostic for a redirect source that could not be read.
pub open spec fn read_err_msg(target: Seq<char>, e: Seq<char>) -> Seq<char> {
    "خطأ: لا يمكن قراءة '"@ + target + "' - "@ + e + " / Error: Cannot read '"@ + target + "' - "@
        + e
}

/// The diagnostic for a command that could not be started.
pub open spec fn not_found_msg(name: Seq<char>, e: Seq<char>) -> Seq<char> {
    "خطأ: الأمر '"@ + name + "' غير موجود - "@ + e + " / Error: Command '"@ + name
        + "' not found - "@ + e
}

/// The diagnostic for a process that could not be waited for.
pub open spec fn wait_err_msg(e: Seq<char>) -> Seq<char> {
    "خطأ: فشل في انتظار الأمر - "@ + e + " / Error: Failed to wait for command - "@ + e
}

/// The diagnostic for a process that exited with a non-zero code and
/// no error text.
pub open spec fn exit_code_msg(c: int) -> Seq<char> {
    "الأمر انتهى برمز: "@ + crate::text::spec_int_text(c) + " / Command exited with code: "@
        + crate::text::spec_int_text(c)
}

/// The diagnostic for a redirect target that could not be opened.
pub open spec fn open_err_msg(target: Seq<char>, e: Seq<char>) -> Seq<char> {
    "خطأ: لا يمكن فتح '"@ + target + "' - "@ + e + " / Error: Cannot open '"@ + target + "' - "@
        + e
}

/// The diagnostic for a redirect target that could not be written.
pub open spec fn write_err_msg(target: Seq<char>, e: Seq<char>) -> Seq<char> {
    "خطأ: لا يمكن الكتابة إلى '"@ + target + "' - "@ + e + " / Error: Cannot write to '"@ + target
        + "' - "@ + e
}

/// What a spawn outcome yields: a failure to start is an error with a
/// not-found code; a failure to wait is an error with code 1; a clean
/// zero exit is success carrying standard output; a non-zero exit is
/// an error carrying standard error, or a generic message when it was
/// empty.
pub open spec fn spec_classify_spawn(name: Seq<char>, r: SpawnReplyV) -> (CResultV, int) {
    match r {
        SpawnReplyV::NotFound(e) => (CResultV::Error(not_found_msg(name, e)), 127),
        SpawnReplyV::WaitFailed(e) => (CResultV::Error(wait_err_msg(e)), 1),
        SpawnReplyV::Completed { code, stdout, stderr } => {
            let c: int = match code {
                Some(c) => c,
                None => 1,
            };
            if code == Some(0int) {
                (CResultV::Success(stdout), 0)
            } else if stderr.len() > 0 {
                (CResultV::Error(stderr), c)
            } else {
                (CResultV::Error(exit_code_msg(c)), c)
            }
        },
    }
}

/// Whether a builtin, on these arguments and input, computes its
/// result without touching the machine: the always-pure builtins, the
/// piped forms of cat and search, and every usage-error case.
pub open spec fn spec_is_pure(b: Builtin, args: Seq<Seq<char>>, input: Option<Seq<char>>) -> bool {
    match b {
        Builtin::Exit => true,
        Builtin::Echo => true,
        Builtin::Version => true,
        Builtin::Cat => args.len() == 0,
        Builtin::Search => args.len() == 0 || input is Some || args.len() == 1,
        Builtin::Mkdir => args.len() == 0,
        Builtin::Touch => args.len() == 0,
        Builtin::Rm => args.len() == 0,
        Builtin::Cp => args.len() < 2,
        Builtin::Mv => args.len() < 2,
        Builtin::Chmod => args.len() < 2 || spec_parse_u32(args[0], 8) is None,
        Builtin::Chown => args.len() < 2,
        Builtin::Ln => spec_ln_plan(args) is Usage,
        _ => false,
    }
}

/// What a pure builtin returns; the exit command always yields
/// `Exit(0)`.
pub open spec fn spec_run_pure(b: Builtin, args: Seq<Seq<char>>, input: Option<Seq<char>>)
    -> CResultV {
    match b {
        Builtin::Exit => CResultV::Exit(0),
        Builtin::Echo => CResultV::Success(spec_echo_text(args, input)),
        Builtin::Version => CResultV::Success(spec_version_text()),
        Builtin::Cat => match input {
            Some(i) => CResultV::Success(i),
            None => CResultV::Error(cat_usage()),
        },
        Builtin::Search => if args.len() == 0 {
            CResultV::Error(search_usage())
        } else {
            match input {
                Some(i) => CResultV::Success(spec_search_text(args[0], i)),
                None => CResultV::Error(search_pipe_usage()),
            }
        },
        Builtin::Mkdir => CResultV::Error(mkdir_usage()),
        Builtin::Touch => CResultV::Error(touch_usage()),
        Builtin::Rm => CResultV::Error(rm_usage()),
        Builtin::Cp => CResultV::Error(cp_usage()),
        Builtin::Mv => CResultV::Error(mv_usage()),
        Builtin::Chmod => if args.len() < 2 {
            CResultV::Error(chmod_usage())
        } else {
            CResultV::Error(chmod_invalid_msg(args[0]))
        },
        Builtin::Chown => CResultV::Error(chown_usage()),
        Builtin::Ln => CResultV::Error(ln_usage()),
        _ => CResultV::Nothing,
    }
}

pub open spec fn cat_usage() -> Seq<char> {
    "خطأ: يرجى تحديد ملف للقراءة\nالاستخدام: اقرأ <اسم_الملف>\nError: Please specify a file\nUsage: cat <filename>"@
}

pub open spec fn search_usage() -> Seq<char> {
    "خطأ: يرجى تحديد نص للبحث\nالاستخدام: ابحث <نمط> [ملف...]\nError: Please specify search pattern\nUsage: grep <pattern> [file...]"@
}

pub open spec fn search_pipe_usage() -> Seq<char> {
    "خطأ: يرجى تحديد ملف للبحث فيه أو استخدام الأنبوب\nError: Please specify a file to search or use pipe"@
}

pub open spec fn mkdir_usage() -> Seq<char> {
    "خطأ: يرجى تحديد اسم المجلد\nالاستخدام: انشئ <اسم_المجلد>\nError: Please specify directory name\nUsage: mkdir <dirname>"@
}

pub open spec fn touch_usage() -> Seq<char> {
    "خطأ: يرجى تحديد اسم الملف\nالاستخدام: المس <اسم_الملف>\nError: Please specify filename\nUsage: touch <filename>"@
}

pub open spec fn rm_usage() -> Seq<char> {
    "خطأ: يرجى تحديد ملف للحذف\nالاستخدام: احذف <اسم_الملف>\nError: Please specify file to delete\nUsage: rm <filename>"@
}

pub open spec fn cp_usage() -> Seq<char> {
    "خطأ: يرجى تحديد المصدر والوجهة\nالاستخدام: انسخ <مصدر> <وجهة>\nError: Please specify source and destination\nUsage: cp <source> <dest>"@
}

pub open spec fn mv_usage() -> Seq<char> {
    "خطأ: يرجى تحديد المصدر والوجهة\nالاستخدام: انقل <مصدر> <وجهة>\nError: Please specify source and destination\nUsage: mv <source> <dest>"@
}

pub open spec fn chmod_usage() -> Seq<char> {
    "خطأ: يرجى تحديد الصلاحيات والملف\nالاستخدام: صلاحيات <وضع> <ملف>\nError: Please specify mode and file\nUsage: chmod <mode> <file>"@
}

pub open spec fn chmod_invalid_msg(m: Seq<char>) -> Seq<char> {
    "خطأ: صلاحيات غير صالحة '"@ + m
        + "' - استخدم صيغة ثمانية (مثل 755)\nError: Invalid mode '"@ + m
        + "' - use octal format (e.g., 755)"@
}

pub open spec fn chown_usage() -> Seq<char> {
    "خطأ: يرجى تحديد المالك والملف\nالاستخدام: مالك مستخدم[:مجموعة] ملف\nError: Please specify owner and file\nUsage: chown user[:group] file"@
}

pub open spec fn ln_usage() -> Seq<char> {
    "خطأ: يرجى تحديد المصدر والهدف\nالاستخدام: رابط [-s|-ر] مصدر هدف\nError: Please specify source and target\nUsage: ln [-s] source target"@
}

/// The first input redirect's target, if any: with several input
/// redirects, the first one wins.
pub open spec fn spec_first_in(rs: Seq<RedirectV>, j: int) -> Option<Seq<char>>
    decreases rs.len() - j,
{
    if !(0 <= j < rs.len()) {
        None
    } else if rs[j].kind is In {
        Some(rs[j].target)
    } else {
        spec_first_in(rs, j + 1)
    }
}

/// The first output or append redirect, if any, with whether it
/// appends: with several, the first one wins.
pub open spec fn spec_first_out(rs: Seq<RedirectV>, j: int) -> Option<(Seq<char>, bool)>
    decreases rs.len() - j,
{
    if !(0 <= j < rs.len()) {
        None
    } else if rs[j].kind is Out {
        Some((rs[j].target, false))
    } else if rs[j].kind is Append {
        Some((rs[j].target, true))
    } else {
        spec_first_out(rs, j + 1)
    }
}

/// The dispatch step alone: the result of the builtin or spawned
/// process, the exit code it records, and the next unconsumed reply.
pub open spec fn spec_dispatch(
    name: Seq<char>,
    args: Seq<Seq<char>>,
    inp: Option<Seq<char>>,
    o: Seq<ReplyV>,
    k: int,
) -> (CResultV, int, int) {
    match spec_builtin_of(name) {
        Some(b) => {
            if spec_is_pure(b, args, inp) {
                let r = spec_run_pure(b, args, inp);
                (r, if is_success_v(r) {
                    0int
                } else {
                    1int
                }, k)
            } else {
                let r = reply_ran(o, k);
                (r, if is_success_v(r) {
                    0int
                } else {
                    1int
                }, k + 1)
            }
        },
        None => {
            let sr = reply_spawned(o, k);
            let (r, c) = spec_classify_spawn(name, sr);
            (r, c, k + 1)
        },
    }
}

/// The request the dispatch step makes, if it needs the host.
pub open spec fn spec_dispatch_reqs(
    name: Seq<char>,
    args: Seq<Seq<char>>,
    inp: Option<Seq<char>>,
) -> Seq<RequestV> {
    match spec_builtin_of(name) {
        Some(b) => {
            if spec_is_pure(b, args, inp) {
                Seq::empty()
            } else {
                seq![RequestV::RunBuiltin { b, args, input: inp }]
            }
        },
        None => seq![RequestV::Spawn { name, args, input: inp }],
    }
}

/// The run and output-redirect steps of one simple command, after its
/// input has been resolved.
pub open spec fn eval_run(
    name: Seq<char>,
    args: Seq<Seq<char>>,
    out_r: Option<(Seq<char>, bool)>,
    inp: Option<Seq<char>>,
    o: Seq<ReplyV>,
    k: int,
    reqs0: Seq<RequestV>,
) -> EvalOut {
    let (res, code, k1) = spec_dispatch(name, args, inp, o, k);
    let reqs1 = reqs0 + spec_dispatch_reqs(name, args, inp);
    match out_r {
        Some((target, append)) => match res {
            CResultV::Success(text) => {
                let w = reply_wrote(o, k1);
                let reqs2 = reqs1 + seq![RequestV::Write { target, append, text }];
                match w {
                    Ok(u) => EvalOut {
                        result: CResultV::Nothing,
                        next: k1 + 1,
                        reqs: reqs2,
                        code: Some(code),
                    },
                    Err(WriteErrorV::Open(e)) => EvalOut {
                        result: CResultV::Error(open_err_msg(target, e)),
                        next: k1 + 1,
                        reqs: reqs2,
                        code: Some(code),
                    },
                    Err(WriteErrorV::Write(e)) => EvalOut {
                        result: CResultV::Error(write_err_msg(target, e)),
                        next: k1 + 1,
                        reqs: reqs2,
                        code: Some(code),
                    },
                }
            },
            _ => EvalOut { result: res, next: k1, reqs: reqs1, code: Some(code) },
        },
        None => EvalOut { result: res, next: k1, reqs: reqs1, code: Some(code) },
    }
}

/// One simple command: an input redirect overrides piped input and its
/// read failure is an error before anything runs; then the dispatch;
/// then a success's text goes to the output redirect, if one is there.
pub open spec fn eval_simple(
    name: Seq<char>,
    args: Seq<Seq<char>>,
    redirects: Seq<RedirectV>,
    input: Option<Seq<char>>,
    o: Seq<ReplyV>,
    k: int,
) -> EvalOut {
    let in_r = spec_first_in(redirects, 0);
    let out_r = spec_first_out(redirects, 0);
    match in_r {
        Some(target) => {
            let rd = reply_read(o, k);
            let reqs0 = seq![RequestV::Read { target }];
            match rd {
                Err(e) => EvalOut {
                    result: CResultV::Error(read_err_msg(target, e)),
                    next: k + 1,
                    reqs: reqs0,
                    code: None,
                },
                Ok(content) => eval_run(name, args, out_r, Some(content), o, k + 1, reqs0),
            }
        },
        None => eval_run(name, args, out_r, input, o, k, Seq::empty()),
    }
}

/// A later exit code wins; where nothing later ran, the earlier one
/// stands.
pub open spec fn code_join(a: Option<int>, b: Option<int>) -> Option<int> {
    match b {
        Some(x) => Some(x),
        None => a,
    }
}

/// The exit code after an evaluation, given the code before it.
pub open spec fn code_after(c: Option<int>, prev: int) -> int {
    match c {
        Some(x) => x,
        None => prev,
    }
}

/// Chains a first stage's bookkeeping onto the rest's outcome.
pub open spec fn chain_out(r1: EvalOut, rest: EvalOut) -> EvalOut {
    EvalOut {
        result: rest.result,
        next: rest.next,
        reqs: r1.reqs + rest.reqs,
        code: code_join(r1.code, rest.code),
    }
}

/// The evaluator: what a command tree comes to against a sequence of
/// host replies, consumed left to right from position `k`.
pub open spec fn eval_cmd(c: CommandV, input: Option<Seq<char>>, o: Seq<ReplyV>, k: int) -> EvalOut
    decreases c,
{
    match c {
        CommandV::Empty => EvalOut {
            result: CResultV::Nothing,
            next: k,
            reqs: Seq::empty(),
            code: None,
        },
        CommandV::Simple { name, args, redirects } => eval_simple(name, args, redirects, input, o, k),
        CommandV::Pipeline(cmds) => eval_pipe(cmds, None, o, k),
        CommandV::And(l, r) => {
            let r1 = eval_cmd(*l, None, o, k);
            if is_success_v(r1.result) {
                chain_out(r1, eval_cmd(*r, None, o, r1.next))
            } else {
                r1
            }
        },
        CommandV::Or(l, r) => {
            let r1 = eval_cmd(*l, None, o, k);
            if !is_success_v(r1.result) {
                chain_out(r1, eval_cmd(*r, None, o, r1.next))
            } else {
                r1
            }
        },
        CommandV::Sequence(cmds) => eval_seq(cmds, o, k),
        CommandV::Background(inner) => {
            let r1 = eval_cmd(*inner, None, o, k);
            EvalOut {
                result: r1.result,
                next: r1.next,
                reqs: seq![RequestV::Warn] + r1.reqs,
                code: r1.code,
            }
        },
    }
}

/// Pipeline stages, left to right: a stage's output becomes the next
/// stage's input, a stage with no output passes none on, and an error
/// or exit ends the pipeline at once, untouched. After the last stage
/// any accumulated output is emitted — the `Print` request records the
/// raw text, which the executor renders line by line — and the
/// pipeline reports no output of its own.
pub open spec fn eval_pipe(
    cmds: Seq<CommandV>,
    inp: Option<Seq<char>>,
    o: Seq<ReplyV>,
    k: int,
) -> EvalOut
    decreases cmds,
{
    if cmds.len() == 0 {
        match inp {
            Some(text) => EvalOut {
                result: CResultV::Nothing,
                next: k,
                reqs: seq![RequestV::Print { text }],
                code: None,
            },
            None => EvalOut { result: CResultV::Nothing, next: k, reqs: Seq::empty(), code: None },
        }
    } else {
        let r1 = eval_cmd(cmds[0], inp, o, k);
        match r1.result {
            CResultV::Success(out) => chain_out(
                r1,
                eval_pipe(cmds.drop_first(), Some(out), o, r1.next),
            ),
            CResultV::Nothing => chain_out(r1, eval_pipe(cmds.drop_first(), None, o, r1.next)),
            _ => r1,
        }
    }
}

/// Sequence members in order: an exit request propagates at once; an
/// error does not stop the sequence; the last member's result is the
/// sequence's.
pub open spec fn eval_seq(cmds: Seq<CommandV>, o: Seq<ReplyV>, k: int) -> EvalOut
    decreases cmds,
{
    if cmds.len() == 0 {
        EvalOut { result: CResultV::Nothing, next: k, reqs: Seq::empty(), code: None }
    } else {
        let r1 = eval_cmd(cmds[0], None, o, k);
        if r1.result is Exit {
            r1
        } else if cmds.len() == 1 {
            r1
        } else {
            chain_out(r1, eval_seq(cmds.drop_first(), o, r1.next))
        }
    }
}

/// An evaluation never consumes replies before its starting position.
pub proof fn lemma_eval_next_ge(c: CommandV, input: Option<Seq<char>>, o: Seq<ReplyV>, k: int)
    ensures
        eval_cmd(c, input, o, k).next >= k,
    decreases c,
{
    match c {
        CommandV::Empty => {},
        CommandV::Simple { .. } => {},
        CommandV::Pipeline(cmds) => {
            lemma_eval_pipe_next_ge(cmds, None, o, k);
        },
        CommandV::And(l, r) => {
            lemma_eval_next_ge(*l, None, o, k);
            let r1 = eval_cmd(*l, None, o, k);
            if is_success_v(r1.result) {
                lemma_eval_next_ge(*r, None, o, r1.next);
            }
        },
        CommandV::Or(l, r) => {
            lemma_eval_next_ge(*l, None, o, k);
            let r1 = eval_cmd(*l, None, o, k);
            if !is_success_v(r1.result) {
                lemma_eval_next_ge(*r, None, o, r1.next);
            }
        },
        CommandV::Sequence(cmds) => {
            lemma_eval_seq_next_ge(cmds, o, k);
        },
        CommandV::Background(inner) => {
            lemma_eval_next_ge(*inner, None, o, k);
        },
    }
}

pub proof fn lemma_eval_pipe_next_ge(
    cmds: Seq<CommandV>,
    inp: Option<Seq<char>>,
    o: Seq<ReplyV>,
    k: int,
)
    ensures
        eval_pipe(cmds, inp, o, k).next >= k,
    decreases cmds,
{
    if cmds.len() > 0 {
        lemma_eval_next_ge(cmds[0], inp, o, k);
        let r1 = eval_cmd(cmds[0], inp, o, k);
        match r1.result {
            CResultV::Success(out) => {
                lemma_eval_pipe_next_ge(cmds.drop_first(), Some(out), o, r1.next);
            },
            CResultV::Nothing => {
                lemma_eval_pipe_next_ge(cmds.drop_first(), None, o, r1.next);
            },
            _ => {},
        }
    }
}

pub proof fn lemma_eval_seq_next_ge(cmds: Seq<CommandV>, o: Seq<ReplyV>, k: int)
    ensures
        eval_seq(cmds, o, k).next >= k,
    decreases cmds,
{
    if cmds.len() > 0 {
        lemma_eval_next_ge(cmds[0], None, o, k);
        let r1 = eval_cmd(cmds[0], None, o, k);
        if !(r1.result is Exit) && cmds.len() > 1 {
            lemma_eval_seq_next_ge(cmds.drop_first(), o, r1.next);
        }
    }
}

/// Replies beyond what an evaluation consumes do not change it: the
/// evaluation against an extended reply sequence is the same.
pub proof fn lemma_eval_frame(
    c: CommandV,
    input: Option<Seq<char>>,
    o: Seq<ReplyV>,
    ext: Seq<ReplyV>,
    k: int,
)
    requires
        0 <= k,
        eval_cmd(c, input, o, k).next <= o.len(),
    ensures
        eval_cmd(c, input, o + ext, k) == eval_cmd(c, input, o, k),
    decreases c,
{
    let oe = o + ext;
    assert(forall|j: int| 0 <= j < o.len() ==> oe[j] == #[trigger] o[j]);
    match c {
        CommandV::Empty => {},
        CommandV::Simple { .. } => {},
        CommandV::Pipeline(cmds) => {
            lemma_eval_pipe_frame(cmds, None, o, ext, k);
        },
        CommandV::And(l, r) => {
            lemma_eval_next_ge(*l, None, o, k);
            let r1 = eval_cmd(*l, None, o, k);
            if is_success_v(r1.result) {
                lemma_eval_next_ge(*r, None, o, r1.next);
                lemma_eval_frame(*l, None, o, ext, k);
                lemma_eval_frame(*r, None, o, ext, r1.next);
            } else {
                lemma_eval_frame(*l, None, o, ext, k);
            }
        },
        CommandV::Or(l, r) => {
            lemma_eval_next_ge(*l, None, o, k);
            let r1 = eval_cmd(*l, None, o, k);
            if !is_success_v(r1.result) {
                lemma_eval_next_ge(*r, None, o, r1.next);
                lemma_eval_frame(*l, None, o, ext, k);
                lemma_eval_frame(*r, None, o, ext, r1.next);
            } else {
                lemma_eval_frame(*l, None, o, ext, k);
            }
        },
        CommandV::Sequence(cmds) => {
            lemma_eval_seq_frame(cmds, o, ext, k);
        },
        CommandV::Background(inner) => {
            lemma_eval_frame(*inner, None, o, ext, k);
        },
    }
}

pub proof fn lemma_eval_pipe_frame(
    cmds: Seq<CommandV>,
    inp: Option<Seq<char>>,
    o: Seq<ReplyV>,
    ext: Seq<ReplyV>,
    k: int,
)
    requires
        0 <= k,
        eval_pipe(cmds, inp, o, k).next <= o.len(),
    ensures
        eval_pipe(cmds, inp, o + ext, k) == eval_pipe(cmds, inp, o, k),
    decreases cmds,
{
    if cmds.len() > 0 {
        lemma_eval_next_ge(cmds[0], inp, o, k);
        let r1 = eval_cmd(cmds[0], inp, o, k);
        match r1.result {
            CResultV::Success(out) => {
                lemma_eval_pipe_next_ge(cmds.drop_first(), Some(out), o, r1.next);
                lemma_eval_frame(cmds[0], inp, o, ext, k);
                lemma_eval_pipe_frame(cmds.drop_first(), Some(out), o, ext, r1.next);
            },
            CResultV::Nothing => {
                lemma_eval_pipe_next_ge(cmds.drop_first(), None, o, r1.next);
                lemma_eval_frame(cmds[0], inp, o, ext, k);
                lemma_eval_pipe_frame(cmds.drop_first(), None, o, ext, r1.next);
            },
            _ => {
                lemma_eval_frame(cmds[0], inp, o, ext, k);
            },
        }
    }
}

pub proof fn lemma_eval_seq_frame(cmds: Seq<CommandV>, o: Seq<ReplyV>, ext: Seq<ReplyV>, k: int)
    requires
        0 <= k,
        eval_seq(cmds, o, k).next <= o.len(),
    ensures
        eval_seq(cmds, o + ext, k) == eval_seq(cmds, o, k),
    decreases cmds,
{
    if cmds.len() > 0 {
        lemma_eval_next_ge(cmds[0], None, o, k);
        let r1 = eval_cmd(cmds[0], None, o, k);
        if r1.result is Exit || cmds.len() == 1 {
            lemma_eval_frame(cmds[0], None, o, ext, k);
        } else {
            lemma_eval_seq_next_ge(cmds.drop_first(), o, r1.next);
            lemma_eval_frame(cmds[0], None, o, ext, k);
            lemma_eval_seq_frame(cmds.drop_first(), o, ext, r1.next);
        }
    }
}

/// Whether an execution run is described by the evaluator: against the
/// reply sequence `o` the command's evaluation consumed exactly `o`,
/// produced `r`, and took the exit code from `lec0` to `lec1`.
pub open spec fn spec_executed(
    cmd: CommandV,
    input: Option<Seq<char>>,
    o: Seq<ReplyV>,
    r: CResultV,
    lec0: int,
    lec1: int,
) -> bool {
    let ev = eval_cmd(cmd, input, o, 0);
    r == ev.result && ev.next == o.len() && lec1 == code_after(ev.code, lec0)
}

/// Walks command trees and tracks the last exit code; the
/// right-to-left padding flag is handed to output rendering.
pub struct Executor {
    pub last_exit_code: i32,
    pub use_rtl_padding: bool,
}

impl Default for Executor {
    /// A fresh executor without right-to-left padding.
    fn default() -> (e: Executor)
        ensures
            e.last_exit_code == 0,
            !e.use_rtl_padding,
    {
        Executor::new(false)
    }
}

impl Executor {
    /// A fresh executor: no command has run, so the last exit code is
    /// zero.
    pub fn new(use_rtl_padding: bool) -> (e: Executor)
        ensures
            e.last_exit_code == 0,
            e.use_rtl_padding == use_rtl_padding,
    {
        Executor { last_exit_code: 0, use_rtl_padding }
    }

    /// Runs one command tree with no piped input: the result, the
    /// requests made of the host, and the exit code are exactly what
    /// the evaluator gives for the replies the host produced.
    pub fn execute<H: Host>(&mut self, cmd: Command, host: &mut H) -> (r: CommandResult)
        ensures
            final(self).use_rtl_padding == old(self).use_rtl_padding,
            exists|o: Seq<ReplyV>|
                #[trigger] spec_executed(
                    cmd@,
                    None,
                    o,
                    r@,
                    old(self).last_exit_code as int,
                    final(self).last_exit_code as int,
                ),
    {
        self.execute_with_input(cmd, None, host)
    }

    /// Runs one command tree with optional piped input.
    pub fn execute_with_input<H: Host>(
        &mut self,
        cmd: Command,
        input: Option<String>,
        host: &mut H,
    ) -> (r: CommandResult)
        ensures
            final(self).use_rtl_padding == old(self).use_rtl_padding,
            exists|o: Seq<ReplyV>|
                #[trigger] spec_executed(
                    cmd@,
                    opt_text(input),
                    o,
                    r@,
                    old(self).last_exit_code as int,
                    final(self).last_exit_code as int,
                ),
    {
        let ghost input_v = opt_text(input);
        let (r, Ghost(o)) = self.run_cmd(cmd, input, host, Ghost(Seq::empty()));
        proof {
            assert(o.skip(0) =~= o);
            assert(spec_executed(
                cmd@,
                input_v,
                o,
                r@,
                old(self).last_exit_code as int,
                self.last_exit_code as int,
            ));
        }
        r
    }

    /// Runs one command, extending the ghost reply record: the
    /// evaluation of the command at the old record's end against the
    /// new record matches the run exactly.
    fn run_cmd<H: Host>(
        &mut self,
        cmd: Command,
        input: Option<String>,
        host: &mut H,
        Ghost(pre): Ghost<Seq<ReplyV>>,
    ) -> (rr: (CommandResult, Ghost<Seq<ReplyV>>))
        ensures
            ({
                let o = rr.1@;
                let ev = eval_cmd(cmd@, opt_text(input), o, pre.len() as int);
                &&& o.len() >= pre.len()
                &&& o.take(pre.len() as int) == pre
                &&& rr.0@ == ev.result
                &&& ev.next == o.len()
                &&& final(self).last_exit_code as int == code_after(
                    ev.code,
                    old(self).last_exit_code as int,
                )
                &&& final(self).use_rtl_padding == old(self).use_rtl_padding
            }),
        decreases cmd,
    {
        proof {
            assert(pre.take(pre.len() as int) =~= pre);
        }
        match cmd {
            Command::Empty => (CommandResult::Nothing, Ghost(pre)),
            Command::Simple { name, args, redirects } => self.run_simple(
                name,
                args,
                redirects,
                input,
                host,
                Ghost(pre),
            ),
            Command::Pipeline(cmds) => {
                proof {
                    vstd::std_specs::vec::axiom_vec_decreases_to_view::<Command>(cmds);
                }
                self.run_pipe(cmds, None, host, Ghost(pre))
            },
            Command::And(l, r) => {
                let (r1, Ghost(o1)) = self.run_cmd(*l, None, host, Ghost(pre));
                if r1.is_success() {
                    let (r2, Ghost(o2)) = self.run_cmd(*r, None, host, Ghost(o1));
                    proof {
                        lemma_eval_frame(
                            (*l)@,
                            None,
                            o1,
                            o2.skip(o1.len() as int),
                            pre.len() as int,
                        );
                        assert(o1 + o2.skip(o1.len() as int) =~= o2);
                        assert(o2.take(pre.len() as int) =~= pre);
                    }
                    (r2, Ghost(o2))
                } else {
                    (r1, Ghost(o1))
                }
            },
            Command::Or(l, r) => {
                let (r1, Ghost(o1)) = self.run_cmd(*l, None, host, Ghost(pre));
                if !r1.is_success() {
                    let (r2, Ghost(o2)) = self.run_cmd(*r, None, host, Ghost(o1));
                    proof {
                        lemma_eval_frame(
                            (*l)@,
                            None,
                            o1,
                            o2.skip(o1.len() as int),
                            pre.len() as int,
                        );
                        assert(o1 + o2.skip(o1.len() as int) =~= o2);
                        assert(o2.take(pre.len() as int) =~= pre);
                    }
                    (r2, Ghost(o2))
                } else {
                    (r1, Ghost(o1))
                }
            },
            Command::Sequence(cmds) => {
                proof {
                    vstd::std_specs::vec::axiom_vec_decreases_to_view::<Command>(cmds);
                }
                self.run_seq(cmds, host, Ghost(pre))
            },
            Command::Background(inner) => {
                host.warn_background();
                let (r1, Ghost(o1)) = self.run_cmd(*inner, None, host, Ghost(pre));
                (r1, Ghost(o1))
            },
        }
    }

    /// Runs the stages of a pipeline, threading each stage's output
    /// into the next, and emits the final output line by line.
    fn run_pipe<H: Host>(
        &mut self,
        cmds: Vec<Command>,
        inp: Option<String>,
        host: &mut H,
        Ghost(pre): Ghost<Seq<ReplyV>>,
    ) -> (rr: (CommandResult, Ghost<Seq<ReplyV>>))
        ensures
            ({
                let o = rr.1@;
                let ev = eval_pipe(view_cmds(cmds@), opt_text(inp), o, pre.len() as int);
                &&& o.len() >= pre.len()
                &&& o.take(pre.len() as int) == pre
                &&& rr.0@ == ev.result
                &&& ev.next == o.len()
                &&& final(self).last_exit_code as int == code_after(
                    ev.code,
                    old(self).last_exit_code as int,
                )
                &&& final(self).use_rtl_padding == old(self).use_rtl_padding
            }),
        decreases cmds@,
    {
        proof {
            assert(pre.take(pre.len() as int) =~= pre);
            lemma_view_cmds(cmds@);
        }
        let mut cmds = cmds;
        if cmds.len() == 0 {
            match inp {
                Some(output) => {
                    self.emit_output(output.as_str(), host);
                    (CommandResult::Nothing, Ghost(pre))
                },
                None => (CommandResult::Nothing, Ghost(pre)),
            }
        } else {
            let ghost vs = view_cmds(cmds@);
            let c = cmds.remove(0);
            proof {
                lemma_view_cmds(cmds@);
                assert(view_cmds(cmds@) =~= vs.drop_first());
                vstd::seq::axiom_seq_len_decreases::<CommandV>(vs, vs.drop_first());
            }
            let ghost inp_v = opt_text(inp);
            let (r1, Ghost(o1)) = self.run_cmd(c, inp, host, Ghost(pre));
            match r1 {
                CommandResult::Success(out) => {
                    let (r2, Ghost(o2)) = self.run_pipe(cmds, Some(out), host, Ghost(o1));
                    proof {
                        lemma_eval_frame(c@, inp_v, o1, o2.skip(o1.len() as int), pre.len() as int);
                        assert(o1 + o2.skip(o1.len() as int) =~= o2);
                        assert(o2.take(pre.len() as int) =~= pre);
                    }
                    (r2, Ghost(o2))
                },
                CommandResult::Nothing => {
                    let (r2, Ghost(o2)) = self.run_pipe(cmds, None, host, Ghost(o1));
                    proof {
                        lemma_eval_frame(c@, inp_v, o1, o2.skip(o1.len() as int), pre.len() as int);
                        assert(o1 + o2.skip(o1.len() as int) =~= o2);
                        assert(o2.take(pre.len() as int) =~= pre);
                    }
                    (r2, Ghost(o2))
                },
                other => (other, Ghost(o1)),
            }
        }
    }

    /// Runs sequence members in order; an exit request stops the
    /// sequence at once.
    fn run_seq<H: Host>(
        &mut self,
        cmds: Vec<Command>,
        host: &mut H,
        Ghost(pre): Ghost<Seq<ReplyV>>,
    ) -> (rr: (CommandResult, Ghost<Seq<ReplyV>>))
        ensures
            ({
                let o = rr.1@;
                let ev = eval_seq(view_cmds(cmds@), o, pre.len() as int);
                &&& o.len() >= pre.len()
                &&& o.take(pre.len() as int) == pre
                &&& rr.0@ == ev.result
                &&& ev.next == o.len()
                &&& final(self).last_exit_code as int == code_after(
                    ev.code,
                    old(self).last_exit_code as int,
                )
                &&& final(self).use_rtl_padding == old(self).use_rtl_padding
            }),
        decreases cmds@,
    {
        proof {
            assert(pre.take(pre.len() as int) =~= pre);
            lemma_view_cmds(cmds@);
        }
        let mut cmds = cmds;
        if cmds.len() == 0 {
            (CommandResult::Nothing, Ghost(pre))
        } else {
            let ghost vs = view_cmds(cmds@);
            let c = cmds.remove(0);
            proof {
                lemma_view_cmds(cmds@);
                assert(view_cmds(cmds@) =~= vs.drop_first());
                vstd::seq::axiom_seq_len_decreases::<CommandV>(vs, vs.drop_first());
            }
            let (r1, Ghost(o1)) = self.run_cmd(c, None, host, Ghost(pre));
            if r1.is_exit() {
                (r1, Ghost(o1))
            } else if cmds.len() == 0 {
                (r1, Ghost(o1))
            } else {
                let (r2, Ghost(o2)) = self.run_seq(cmds, host, Ghost(o1));
                proof {
                    lemma_eval_frame(c@, None, o1, o2.skip(o1.len() as int), pre.len() as int);
                    assert(o1 + o2.skip(o1.len() as int) =~= o2);
                    assert(o2.take(pre.len() as int) =~= pre);
                }
                (r2, Ghost(o2))
            }
        }
    }

    /// Shows pipeline output, one rendered line at a time.
    fn emit_output<H: Host>(&mut self, output: &str, host: &mut H)
        ensures
            *final(self) == *old(self),
    {
        let lines = split_lines(output);
        let mut i: usize = 0;
        while i < lines.len()
            invariant
                *self == *old(self),
            decreases lines@.len() - i,
        {
            let rendered = render_line(lines[i].as_str(), self.use_rtl_padding);
            host.print_line(rendered.as_str());
            i = i + 1;
        }
    }

    /// Runs one simple command: resolves its input, dispatches it, and
    /// honors its output redirect.
    #[verifier::rlimit(60)]
    fn run_simple<H: Host>(
        &mut self,
        name: String,
        args: Vec<String>,
        redirects: Vec<Redirect>,
        input: Option<String>,
        host: &mut H,
        Ghost(pre): Ghost<Seq<ReplyV>>,
    ) -> (rr: (CommandResult, Ghost<Seq<ReplyV>>))
        ensures
            ({
                let o = rr.1@;
                let rv = Seq::new(redirects@.len(), |i: int| redirects@[i]@);
                let ev = eval_simple(
                    name@,
                    args.deep_view(),
                    rv,
                    opt_text(input),
                    o,
                    pre.len() as int,
                );
                &&& o.len() >= pre.len()
                &&& o.take(pre.len() as int) == pre
                &&& rr.0@ == ev.result
                &&& ev.next == o.len()
                &&& final(self).last_exit_code as int == code_after(
                    ev.code,
                    old(self).last_exit_code as int,
                )
                &&& final(self).use_rtl_padding == old(self).use_rtl_padding
            }),
    {
        proof {
            assert(pre.take(pre.len() as int) =~= pre);
        }
        let ghost rv = Seq::new(redirects@.len(), |i: int| redirects@[i]@);
        let in_target = first_in_target(&redirects);
        let out_redirect = first_out_target(&redirects);

        let resolved: Option<String>;
        let ghost o0: Seq<ReplyV>;
        match in_target {
            Some(target) => {
                let rd = host.read_file(target.as_str());
                proof {
                    o0 = pre.push(
                        ReplyV::Read(
                            match rd {
                                Ok(ref c) => Ok(c@),
                                Err(ref e) => Err(e@),
                            },
                        ),
                    );
                    assert(o0.take(pre.len() as int) =~= pre);
                }
                match rd {
                    Ok(content) => {
                        resolved = Some(content);
                    },
                    Err(e) => {
                        let msg = read_err_text(target.as_str(), e.as_str());
                        return (CommandResult::Error(msg), Ghost(o0));
                    },
                }
            },
            None => {
                resolved = input;
                proof {
                    o0 = pre;
                }
            },
        }

        let ghost resolved_v = opt_text(resolved);
        proof {
            assert(texts_view(args@) =~= args.deep_view());
        }
        let b = builtin_of(name.as_str());
        let res: CommandResult;
        let ghost o1: Seq<ReplyV>;
        match b {
            Some(b) => {
                let resolved_ref: Option<&String> = match &resolved {
                    Some(s) => Some(s),
                    None => None,
                };
                proof {
                    assert(opt_text_ref(resolved_ref) == resolved_v);
                }
                if is_pure_builtin(b, &args, resolved_ref) {
                    res = run_pure_builtin(b, &args, resolved_ref);
                    proof {
                        o1 = o0;
                    }
                } else {
                    res = host.run_builtin(b, &args, resolved);
                    proof {
                        o1 = o0.push(ReplyV::Ran(res@));
                    }
                }
                self.last_exit_code = if res.is_success() {
                    0
                } else {
                    1
                };
            },
            None => {
                let sr = host.spawn(name.as_str(), &args, resolved);
                proof {
                    o1 = o0.push(ReplyV::Spawned(sr@));
                }
                let (r, code) = classify_spawn(name.as_str(), sr);
                res = r;
                self.last_exit_code = code;
            },
        }
        proof {
            assert(o1.take(pre.len() as int) =~= pre);
        }

        match out_redirect {
            Some((target, append)) => {
                match res {
                    CommandResult::Success(text) => {
                        let w = host.write_file(target.as_str(), append, text.as_str());
                        let ghost o2 = o1.push(
                            ReplyV::Wrote(
                                match w {
                                    Ok(_) => Ok(()),
                                    Err(ref e) => Err(e@),
                                },
                            ),
                        );
                        proof {
                            assert(o2.take(pre.len() as int) =~= pre);
                        }
                        match w {
                            Ok(_) => (CommandResult::Nothing, Ghost(o2)),
                            Err(WriteError::Open(e)) => {
                                let msg = open_err_text(target.as_str(), e.as_str());
                                (CommandResult::Error(msg), Ghost(o2))
                            },
                            Err(WriteError::Write(e)) => {
                                let msg = write_err_text(target.as_str(), e.as_str());
                                (CommandResult::Error(msg), Ghost(o2))
                            },
                        }
                    },
                    other => (other, Ghost(o1)),
                }
            },
            None => (res, Ghost(o1)),
        }
    }
}

/// The first input redirect's target.
fn first_in_target(redirects: &Vec<Redirect>) -> (r: Option<String>)
    ensures
        ({
            let rv = Seq::new(redirects@.len(), |i: int| redirects@[i]@);
            match r {
                Some(t) => spec_first_in(rv, 0) == Some(t@),
                None => spec_first_in(rv, 0) is None,
            }
        }),
{
    let ghost rv = Seq::new(redirects@.len(), |i: int| redirects@[i]@);
    let mut j: usize = 0;
    while j < redirects.len()
        invariant
            j <= redirects@.len(),
            rv == Seq::new(redirects@.len(), |i: int| redirects@[i]@),
            spec_first_in(rv, j as int) == spec_first_in(rv, 0),
        decreases redirects@.len() - j,
    {
        if matches!(redirects[j].kind, crate::ast::RedirectKind::In) {
            return Some(redirects[j].target.clone());
        }
        j = j + 1;
    }
    None
}

/// The first output or append redirect's target, with whether it
/// appends.
fn first_out_target(redirects: &Vec<Redirect>) -> (r: Option<(String, bool)>)
    ensures
        ({
            let rv = Seq::new(redirects@.len(), |i: int| redirects@[i]@);
            match r {
                Some(t) => spec_first_out(rv, 0) == Some((t.0@, t.1)),
                None => spec_first_out(rv, 0) is None,
            }
        }),
{
    let ghost rv = Seq::new(redirects@.len(), |i: int| redirects@[i]@);
    let mut j: usize = 0;
    while j < redirects.len()
        invariant
            j <= redirects@.len(),
            rv == Seq::new(redirects@.len(), |i: int| redirects@[i]@),
            spec_first_out(rv, j as int) == spec_first_out(rv, 0),
        decreases redirects@.len() - j,
    {
        if matches!(redirects[j].kind, crate::ast::RedirectKind::Out) {
            return Some((redirects[j].target.clone(), false));
        }
        if matches!(redirects[j].kind, crate::ast::RedirectKind::Append) {
            return Some((redirects[j].target.clone(), true));
        }
        j = j + 1;
    }
    None
}

/// Whether the builtin call is computed here rather than handed to the
/// host.
fn is_pure_builtin(b: Builtin, args: &Vec<String>, input: Option<&String>) -> (r: bool)
    ensures
        r == spec_is_pure(b, texts_view(args@), opt_text_ref(input)),
{
    match b {
        Builtin::Exit => true,
        Builtin::Echo => true,
        Builtin::Version => true,
        Builtin::Cat => args.len() == 0,
        Builtin::Search => args.len() == 0 || input.is_some() || args.len() == 1,
        Builtin::Mkdir => args.len() == 0,
        Builtin::Touch => args.len() == 0,
        Builtin::Rm => args.len() == 0,
        Builtin::Cp => args.len() < 2,
        Builtin::Mv => args.len() < 2,
        Builtin::Chmod => args.len() < 2 || parse_u32_radix(args[0].as_str(), 8).is_none(),
        Builtin::Chown => args.len() < 2,
        Builtin::Ln => matches!(ln_plan(args), LnPlan::Usage),
        _ => false,
    }
}

/// Runs a pure builtin call.
fn run_pure_builtin(b: Builtin, args: &Vec<String>, input: Option<&String>) -> (r: CommandResult)
    requires
        spec_is_pure(b, texts_view(args@), opt_text_ref(input)),
    ensures
        r@ == spec_run_pure(b, texts_view(args@), opt_text_ref(input)),
{
    match b {
        Builtin::Exit => CommandResult::Exit(0),
        Builtin::Echo => CommandResult::Success(echo_text(args, input)),
        Builtin::Version => CommandResult::Success(version_text()),
        Builtin::Cat => match input {
            Some(i) => CommandResult::Success((*i).clone()),
            None => CommandResult::Error(
                "خطأ: يرجى تحديد ملف للقراءة\nالاستخدام: اقرأ <اسم_الملف>\nError: Please specify a file\nUsage: cat <filename>".to_owned(),
            ),
        },
        Builtin::Search => {
            if args.len() == 0 {
                CommandResult::Error(
                    "خطأ: يرجى تحديد نص للبحث\nالاستخدام: ابحث <نمط> [ملف...]\nError: Please specify search pattern\nUsage: grep <pattern> [file...]".to_owned(),
                )
            } else {
                match input {
                    Some(i) => CommandResult::Success(search_text(args[0].as_str(), i.as_str())),
                    None => CommandResult::Error(
                        "خطأ: يرجى تحديد ملف للبحث فيه أو استخدام الأنبوب\nError: Please specify a file to search or use pipe".to_owned(),
                    ),
                }
            }
        },
        Builtin::Mkdir => CommandResult::Error(
            "خطأ: يرجى تحديد اسم المجلد\nالاستخدام: انشئ <اسم_المجلد>\nError: Please specify directory name\nUsage: mkdir <dirname>".to_owned(),
        ),
        Builtin::Touch => CommandResult::Error(
            "خطأ: يرجى تحديد اسم الملف\nالاستخدام: المس <اسم_الملف>\nError: Please specify filename\nUsage: touch <filename>".to_owned(),
        ),
        Builtin::Rm => CommandResult::Error(
            "خطأ: يرجى تحديد ملف للحذف\nالاستخدام: احذف <اسم_الملف>\nError: Please specify file to delete\nUsage: rm <filename>".to_owned(),
        ),
        Builtin::Cp => CommandResult::Error(
            "خطأ: يرجى تحديد المصدر والوجهة\nالاستخدام: انسخ <مصدر> <وجهة>\nError: Please specify source and destination\nUsage: cp <source> <dest>".to_owned(),
        ),
        Builtin::Mv => CommandResult::Error(
            "خطأ: يرجى تحديد المصدر والوجهة\nالاستخدام: انقل <مصدر> <وجهة>\nError: Please specify source and destination\nUsage: mv <source> <dest>".to_owned(),
        ),
        Builtin::Chmod => {
            if args.len() < 2 {
                CommandResult::Error(
                    "خطأ: يرجى تحديد الصلاحيات والملف\nالاستخدام: صلاحيات <وضع> <ملف>\nError: Please specify mode and file\nUsage: chmod <mode> <file>".to_owned(),
                )
            } else {
                let mut m = String::new();
                append_str(&mut m, "خطأ: صلاحيات غير صالحة '");
                append_str(&mut m, args[0].as_str());
                append_str(&mut m, "' - استخدم صيغة ثمانية (مثل 755)\nError: Invalid mode '");
                append_str(&mut m, args[0].as_str());
                append_str(&mut m, "' - use octal format (e.g., 755)");
                CommandResult::Error(m)
            }
        },
        Builtin::Chown => CommandResult::Error(
            "خطأ: يرجى تحديد المالك والملف\nالاستخدام: مالك مستخدم[:مجموعة] ملف\nError: Please specify owner and file\nUsage: chown user[:group] file".to_owned(),
        ),
        Builtin::Ln => CommandResult::Error(
            "خطأ: يرجى تحديد المصدر والهدف\nالاستخدام: رابط [-s|-ر] مصدر هدف\nError: Please specify source and target\nUsage: ln [-s] source target".to_owned(),
        ),
        _ => CommandResult::Nothing,
    }
}

/// Interprets what spawning came to and the exit code it records.
fn classify_spawn(name: &str, sr: SpawnReply) -> (r: (CommandResult, i32))
    ensures
        ({
            let (res, code) = spec_classify_spawn(name@, sr@);
            r.0@ == res && r.1 as int == code
        }),
{
    match sr {
        SpawnReply::NotFound(e) => {
            let mut m = String::new();
            append_str(&mut m, "خطأ: الأمر '");
            append_str(&mut m, name);
            append_str(&mut m, "' غير موجود - ");
            append_str(&mut m, e.as_str());
            append_str(&mut m, " / Error: Command '");
            append_str(&mut m, name);
            append_str(&mut m, "' not found - ");
            append_str(&mut m, e.as_str());
            (CommandResult::Error(m), 127)
        },
        SpawnReply::WaitFailed(e) => {
            let mut m = String::new();
            append_str(&mut m, "خطأ: فشل في انتظار الأمر - ");
            append_str(&mut m, e.as_str());
            append_str(&mut m, " / Error: Failed to wait for command - ");
            append_str(&mut m, e.as_str());
            (CommandResult::Error(m), 1)
        },
        SpawnReply::Completed { code, stdout, stderr } => {
            let c: i32 = match code {
                Some(c) => c,
                None => 1,
            };
            if matches!(code, Some(0)) {
                (CommandResult::Success(stdout), 0)
            } else if !stderr.as_str().is_empty() {
                (CommandResult::Error(stderr), c)
            } else {
                let n = crate::text::int_text(c as i64);
                let mut m = String::new();
                append_str(&mut m, "الأمر انتهى برمز: ");
                append_str(&mut m, n.as_str());
                append_str(&mut m, " / Command exited with code: ");
                append_str(&mut m, n.as_str());
                (CommandResult::Error(m), c)
            }
        },
    }
}

/// The redirect-read failure text.
fn read_err_text(target: &str, e: &str) -> (r: String)
    ensures
        r@ == read_err_msg(target@, e@),
{
    let mut m = String::new();
    append_str(&mut m, "خطأ: لا يمكن قراءة '");
    append_str(&mut m, target);
    append_str(&mut m, "' - ");
    append_str(&mut m, e);
    append_str(&mut m, " / Error: Cannot read '");
    append_str(&mut m, target);
    append_str(&mut m, "' - ");
    append_str(&mut m, e);
    m
}

/// The redirect-open failure text.
fn open_err_text(target: &str, e: &str) -> (r: String)
    ensures
        r@ == open_err_msg(target@, e@),
{
    let mut m = String::new();
    append_str(&mut m, "خطأ: لا يمكن فتح '");
    append_str(&mut m, target);
    append_str(&mut m, "' - ");
    append_str(&mut m, e);
    append_str(&mut m, " / Error: Cannot open '");
    append_str(&mut m, target);
    append_str(&mut m, "' - ");
    append_str(&mut m, e);
    m
}

/// The redirect-write failure text.
fn write_err_text(target: &str, e: &str) -> (r: String)
    ensures
        r@ == write_err_msg(target@, e@),
{
    let mut m = String::new();
    append_str(&mut m, "خطأ: لا يمكن الكتابة إلى '");
    append_str(&mut m, target);
    append_str(&mut m, "' - ");
    append_str(&mut m, e);
    append_str(&mut m, " / Error: Cannot write to '");
    append_str(&mut m, target);
    append_str(&mut m, "' - ");
    append_str(&mut m, e);
    m
}

/// Dispatches one command to the built-in catalog: the calling
/// contract of the dispatch collaborator. `None` means the name is no
/// builtin, and tells the executor to fall back to an external
/// process. A pure builtin's result is pinned exactly; an effectful
/// one's comes from the host, which promises nothing.
pub fn execute_builtin<H: Host>(
    host: &mut H,
    name: &str,
    args: &Vec<String>,
    input: Option<String>,
) -> (r: Option<CommandResult>)
    ensures
        ({
            match spec_builtin_of(name@) {
                Some(b) => r is Some && (spec_is_pure(b, texts_view(args@), opt_text(input))
                    ==> r->0@ == spec_run_pure(b, texts_view(args@), opt_text(input))),
                None => r is None,
            }
        }),
{
    match builtin_of(name) {
        Some(b) => {
            let input_ref: Option<&String> = match &input {
                Some(s) => Some(s),
                None => None,
            };
            proof {
                assert(opt_text_ref(input_ref) == opt_text(input));
            }
            if is_pure_builtin(b, args, input_ref) {
                Some(run_pure_builtin(b, args, input_ref))
            } else {
                Some(host.run_builtin(b, args, input))
            }
        },
        None => None,
    }
}

/// Runs a whole pipeline through an executor it owns.
pub struct PipelineExecutor {
    executor: Executor,
}

impl PipelineExecutor {
    /// The exit code the held executor last recorded.
    pub closed spec fn last_exit_code(&self) -> int {
        self.executor.last_exit_code as int
    }

    /// Wraps an executor.
    pub fn new(executor: Executor) -> (p: PipelineExecutor)
        ensures
            p.last_exit_code() == executor.last_exit_code as int,
    {
        PipelineExecutor { executor }
    }

    /// Runs the commands as one pipeline.
    pub fn execute<H: Host>(&mut self, commands: Vec<Command>, host: &mut H) -> (r: CommandResult)
        ensures
            exists|o: Seq<ReplyV>|
                #[trigger] spec_executed(
                    CommandV::Pipeline(view_cmds(commands@)),
                    None,
                    o,
                    r@,
                    old(self).last_exit_code(),
                    final(self).last_exit_code(),
                ),
    {
        let ghost vs = view_cmds(commands@);
        let cmd = Command::Pipeline(commands);
        let ghost cmdv = cmd@;
        let r = self.executor.execute(cmd, host);
        proof {
            let o = choose|o: Seq<ReplyV>|
                #[trigger] spec_executed(
                    cmdv,
                    None,
                    o,
                    r@,
                    old(self).last_exit_code(),
                    self.last_exit_code(),
                );
            assert(spec_executed(
                CommandV::Pipeline(view_cmds(commands@)),
                None,
                o,
                r@,
                old(self).last_exit_code(),
                self.last_exit_code(),
            ));
        }
        r
    }
}

/// Running `left && right`: when `left` counts as success the chain's
/// result is `right`'s, run after it; when it does not, the chain's
/// result is `left`'s and no request is made for `right` at all.
pub proof fn lemma_and_short_circuit(l: CommandV, r: CommandV, o: Seq<ReplyV>, k: int)
    ensures
        ({
            let r1 = eval_cmd(l, None, o, k);
            let whole = eval_cmd(CommandV::And(Box::new(l), Box::new(r)), None, o, k);
            if is_success_v(r1.result) {
                let r2 = eval_cmd(r, None, o, r1.next);
                whole.result == r2.result && whole.reqs == r1.reqs + r2.reqs
            } else {
                whole == r1
            }
        }),
{
}

/// Running `left || right`: when `left` fails the chain's result is
/// `right`'s, run after it; when `left` counts as success, the chain's
/// result is `left`'s and no request is made for `right` at all.
pub proof fn lemma_or_short_circuit(l: CommandV, r: CommandV, o: Seq<ReplyV>, k: int)
    ensures
        ({
            let r1 = eval_cmd(l, None, o, k);
            let whole = eval_cmd(CommandV::Or(Box::new(l), Box::new(r)), None, o, k);
            if !is_success_v(r1.result) {
                let r2 = eval_cmd(r, None, o, r1.next);
                whole.result == r2.result && whole.reqs == r1.reqs + r2.reqs
            } else {
                whole == r1
            }
        }),
{
}

/// A failing stage ends a pipeline at once: when the first remaining
/// stage yields an error or an exit request, the pipeline's outcome is
/// exactly that stage's — no request is made for any later stage.
pub proof fn lemma_pipeline_error_stops(
    cmds: Seq<CommandV>,
    inp: Option<Seq<char>>,
    o: Seq<ReplyV>,
    k: int,
)
    requires
        cmds.len() > 0,
        eval_cmd(cmds[0], inp, o, k).result is Error || eval_cmd(cmds[0], inp, o, k).result is Exit,
    ensures
        eval_pipe(cmds, inp, o, k) == eval_cmd(cmds[0], inp, o, k),
{
}

/// In a three-stage pipeline whose first stage succeeds, an error from
/// the second stage is the pipeline's result, and the third stage is
/// never asked for: the requests are exactly those of the first two
/// stages.
pub proof fn lemma_pipeline_second_error(
    c1: CommandV,
    c2: CommandV,
    c3: CommandV,
    o: Seq<ReplyV>,
    k: int,
)
    requires
        ({
            let r1 = eval_cmd(c1, None, o, k);
            let inp2 = match r1.result {
                CResultV::Success(out) => Some(out),
                _ => Option::<Seq<char>>::None,
            };
            is_success_v(r1.result) && eval_cmd(c2, inp2, o, r1.next).result is Error
        }),
    ensures
        ({
            let r1 = eval_cmd(c1, None, o, k);
            let inp2 = match r1.result {
                CResultV::Success(out) => Some(out),
                _ => Option::<Seq<char>>::None,
            };
            let r2 = eval_cmd(c2, inp2, o, r1.next);
            let whole = eval_pipe(seq![c1, c2, c3], None, o, k);
            whole.result == r2.result && whole.reqs == r1.reqs + r2.reqs
        }),
{
    let cs = seq![c1, c2, c3];
    let r1 = eval_cmd(c1, None, o, k);
    assert(cs[0] == c1);
    assert(cs.drop_first() =~= seq![c2, c3]);
    assert(cs.drop_first()[0] == c2);
    assert(cs.drop_first().drop_first() =~= seq![c3]);
    let inp2 = match r1.result {
        CResultV::Success(out) => Some(out),
        _ => Option::<Seq<char>>::None,
    };
    let r2 = eval_cmd(c2, inp2, o, r1.next);
    assert(eval_pipe(cs.drop_first(), inp2, o, r1.next) == r2);
}

/// What output redirection writes: when the command's run succeeds
/// under an output redirect and the write goes through, the command
/// reports no output of its own, and the one write request carries the
/// success text to the redirect's target, truncating for `>` and
/// appending for `>>`.
pub proof fn lemma_redirect_write_request(
    name: Seq<char>,
    args: Seq<Seq<char>>,
    out_r: Option<(Seq<char>, bool)>,
    inp: Option<Seq<char>>,
    o: Seq<ReplyV>,
    k: int,
    reqs0: Seq<RequestV>,
)
    requires
        out_r is Some,
        spec_dispatch(name, args, inp, o, k).0 is Success,
        reply_wrote(o, spec_dispatch(name, args, inp, o, k).2) is Ok,
    ensures
        ({
            let ev = eval_run(name, args, out_r, inp, o, k, reqs0);
            let text = spec_dispatch(name, args, inp, o, k).0->Success_0;
            let (target, append) = out_r->0;
            ev.result == CResultV::Nothing && ev.reqs.len() > 0 && ev.reqs.last() == (
            RequestV::Write { target, append, text })
        }),
{
}

/// Output redirection never writes an error: every write request an
/// evaluation makes carries the text of a `Success` result of the
/// command's own run — an `Error` result is never written to the
/// target.
pub proof fn lemma_error_never_written(
    name: Seq<char>,
    args: Seq<Seq<char>>,
    redirects: Seq<RedirectV>,
    input: Option<Seq<char>>,
    o: Seq<ReplyV>,
    k: int,
)
    ensures
        ({
            let ev = eval_simple(name, args, redirects, input, o, k);
            forall|i: int|
                0 <= i < ev.reqs.len() && (#[trigger] ev.reqs[i]) is Write ==> exists|text: Seq<char>, k1: int|
                    ev.reqs[i]->Write_text == text && spec_dispatch(name, args, opt_or_read(input, redirects, o, k), o, k1).0
                        == CResultV::Success(text)
        }),
{
    let in_r = spec_first_in(redirects, 0);
    let out_r = spec_first_out(redirects, 0);
    match in_r {
        Some(target) => {
            let rd = reply_read(o, k);
            match rd {
                Err(e) => {},
                Ok(content) => {
                    lemma_run_write_is_success(name, args, out_r, Some(content), o, k + 1, seq![
                        RequestV::Read { target },
                    ], input, redirects, k);
                },
            }
        },
        None => {
            lemma_run_write_is_success(
                name,
                args,
                out_r,
                input,
                o,
                k,
                Seq::empty(),
                input,
                redirects,
                k,
            );
        },
    }
}

/// The input a simple command's run actually sees: the first input
/// redirect's content when one is present and readable, the piped
/// input otherwise.
pub open spec fn opt_or_read(
    input: Option<Seq<char>>,
    redirects: Seq<RedirectV>,
    o: Seq<ReplyV>,
    k: int,
) -> Option<Seq<char>> {
    match spec_first_in(redirects, 0) {
        Some(_) => match reply_read(o, k) {
            Ok(content) => Some(content),
            Err(_) => input,
        },
        None => input,
    }
}

proof fn lemma_run_write_is_success(
    name: Seq<char>,
    args: Seq<Seq<char>>,
    out_r: Option<(Seq<char>, bool)>,
    inp: Option<Seq<char>>,
    o: Seq<ReplyV>,
    k: int,
    reqs0: Seq<RequestV>,
    input: Option<Seq<char>>,
    redirects: Seq<RedirectV>,
    k0: int,
)
    requires
        forall|i: int| 0 <= i < reqs0.len() ==> !((#[trigger] reqs0[i]) is Write),
        inp == opt_or_read(input, redirects, o, k0),
    ensures
        ({
            let ev = eval_run(name, args, out_r, inp, o, k, reqs0);
            forall|i: int|
                0 <= i < ev.reqs.len() && (#[trigger] ev.reqs[i]) is Write ==> exists|text: Seq<char>, k1: int|
                    ev.reqs[i]->Write_text == text && spec_dispatch(name, args, opt_or_read(input, redirects, o, k0), o, k1).0
                        == CResultV::Success(text)
        }),
{
    let (res, code, k1) = spec_dispatch(name, args, inp, o, k);
    let reqs1 = reqs0 + spec_dispatch_reqs(name, args, inp);
    assert(forall|i: int| 0 <= i < reqs1.len() ==> !((#[trigger] reqs1[i]) is Write));
    match out_r {
        Some((target, append)) => {
            match res {
                CResultV::Success(text) => {
                    let ev = eval_run(name, args, out_r, inp, o, k, reqs0);
                    let reqs2 = reqs1 + seq![RequestV::Write { target, append, text }];
                    assert(ev.reqs == reqs2);
                    assert forall|i: int|
                        0 <= i < ev.reqs.len() && (#[trigger] ev.reqs[i]) is Write implies exists|
                        text2: Seq<char>,
                        kx: int,
                    |
                        ev.reqs[i]->Write_text == text2 && spec_dispatch(name, args, opt_or_read(input, redirects, o, k0), o, kx).0
                            == CResultV::Success(text2) by {
                        assert(i == reqs1.len());
                        assert(ev.reqs[i]->Write_text == text);
                        assert(spec_dispatch(name, args, inp, o, k).0 == CResultV::Success(text));
                    }
                },
                _ => {},
            }
        },
        None => {},
    }
}

/// An exit command always yields `Exit(0)`: a name denotes the
/// session-ending builtin exactly when it is one of the three exit
/// aliases — no other recognized name collides with it — and
/// dispatching such a name, whatever its arguments, its input and the
/// host's replies, yields exactly `Exit(0)`.
pub proof fn lemma_exit_command(
    name: Seq<char>,
    args: Seq<Seq<char>>,
    inp: Option<Seq<char>>,
    o: Seq<ReplyV>,
    k: int,
)
    ensures
        spec_builtin_of(name) == Some(Builtin::Exit) <==> (name == "خروج"@ || name == "exit"@
            || name == "quit"@),
        spec_builtin_of(name) == Some(Builtin::Exit) ==> spec_dispatch(name, args, inp, o, k).0
            == CResultV::Exit(0),
{
    crate::builtins::lemma_exit_alias_unique(name);
}

} // verus!

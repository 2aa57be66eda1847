use std::collections::HashMap;

use ocean::{Builtin, Command, CommandResult, Executor, Host, Lexer, Parser, PipelineExecutor,
    SpawnReply, WriteError};

/// A host over an in-memory file table, with scripted replies for
/// spawned commands and effectful builtins, recording every call.
struct TestHost {
    files: HashMap<String, String>,
    spawn_replies: HashMap<String, SpawnReply>,
    builtin_replies: Vec<CommandResult>,
    spawned: Vec<String>,
    builtins_run: Vec<Builtin>,
    printed: Vec<String>,
    warnings: usize,
}

impl TestHost {
    fn new() -> TestHost {
        TestHost {
            files: HashMap::new(),
            spawn_replies: HashMap::new(),
            builtin_replies: Vec::new(),
            spawned: Vec::new(),
            builtins_run: Vec::new(),
            printed: Vec::new(),
            warnings: 0,
        }
    }
}

impl Host for TestHost {
    fn read_file(&mut self, target: &str) -> Result<String, String> {
        match self.files.get(target) {
            Some(content) => Ok(content.clone()),
            None => Err("No such file".to_string()),
        }
    }

    fn write_file(&mut self, target: &str, append: bool, text: &str) -> Result<(), WriteError> {
        if append {
            let entry = self.files.entry(target.to_string()).or_default();
            entry.push_str(text);
        } else {
            self.files.insert(target.to_string(), text.to_string());
        }
        Ok(())
    }

    fn run_builtin(
        &mut self,
        b: Builtin,
        _args: &Vec<String>,
        _input: Option<String>,
    ) -> CommandResult {
        self.builtins_run.push(b);
        if self.builtin_replies.is_empty() {
            CommandResult::Nothing
        } else {
            self.builtin_replies.remove(0)
        }
    }

    fn spawn(&mut self, name: &str, _args: &Vec<String>, _input: Option<String>) -> SpawnReply {
        self.spawned.push(name.to_string());
        match self.spawn_replies.get(name) {
            Some(r) => r.clone(),
            None => SpawnReply::NotFound("mocked".to_string()),
        }
    }

    fn print_line(&mut self, text: &str) {
        self.printed.push(text.to_string());
    }

    fn warn_background(&mut self) {
        self.warnings += 1;
    }
}

fn parse(input: &str) -> Command {
    let mut lexer = Lexer::new(input);
    let tokens = lexer.tokenize();
    let mut parser = Parser::new(tokens);
    parser.parse().unwrap()
}

fn completed(code: i32, stdout: &str, stderr: &str) -> SpawnReply {
    SpawnReply::Completed {
        code: Some(code),
        stdout: stdout.to_string(),
        stderr: stderr.to_string(),
    }
}

#[test]
fn test_exit_builtin_yields_exit_zero() {
    let mut host = TestHost::new();
    let mut ex = Executor::new(false);
    let r = ex.execute(parse("exit"), &mut host);
    assert!(matches!(r, CommandResult::Exit(0)));
    let r = ex.execute(parse("خروج"), &mut host);
    assert!(matches!(r, CommandResult::Exit(0)));
    let r = ex.execute(parse("quit now"), &mut host);
    assert!(matches!(r, CommandResult::Exit(0)));
    // No spawn and no effectful builtin ran for any of these.
    assert!(host.spawned.is_empty());
    assert!(host.builtins_run.is_empty());
}

#[test]
fn test_echo_success() {
    let mut host = TestHost::new();
    let mut ex = Executor::new(false);
    let r = ex.execute(parse("echo مرحبا بالعالم"), &mut host);
    match r {
        CommandResult::Success(s) => assert_eq!(s, "مرحبا بالعالم\n"),
        other => panic!("expected success, got {:?}", other),
    }
    assert_eq!(ex.last_exit_code, 0);
}

#[test]
fn test_pipeline_error_short_circuits() {
    // cmd1 | cmd2 | cmd3: when cmd2 yields an error, cmd3 is never
    // invoked and the pipeline's result is cmd2's error.
    let mut host = TestHost::new();
    host.spawn_replies.insert("cmd1".to_string(), completed(0, "out1", ""));
    host.spawn_replies.insert("cmd2".to_string(), completed(1, "", "boom"));
    host.spawn_replies.insert("cmd3".to_string(), completed(0, "out3", ""));
    let mut ex = Executor::new(false);
    let r = ex.execute(parse("cmd1 | cmd2 | cmd3"), &mut host);
    match r {
        CommandResult::Error(e) => assert_eq!(e, "boom"),
        other => panic!("expected the second stage's error, got {:?}", other),
    }
    assert_eq!(host.spawned, vec!["cmd1".to_string(), "cmd2".to_string()]);
    assert_eq!(ex.last_exit_code, 1);
}

#[test]
fn test_pipeline_feeds_output_and_emits() {
    let mut host = TestHost::new();
    host.spawn_replies.insert("produce".to_string(), completed(0, "alpha\nbeta\n", ""));
    let mut ex = Executor::new(false);
    // The piped text reaches the search builtin, which keeps matching
    // lines; the pipeline emits the final output and reports nothing.
    let r = ex.execute(parse("produce | grep al"), &mut host);
    assert!(matches!(r, CommandResult::Nothing));
    assert_eq!(host.printed, vec!["alpha".to_string()]);
}

#[test]
fn test_and_runs_right_only_on_success() {
    // mkdir X && cd X: when mkdir succeeds, cd runs.
    let mut host = TestHost::new();
    host.builtin_replies.push(CommandResult::Nothing);
    host.builtin_replies.push(CommandResult::Nothing);
    let mut ex = Executor::new(false);
    let r = ex.execute(parse("mkdir X && cd X"), &mut host);
    assert!(matches!(r, CommandResult::Nothing));
    assert_eq!(host.builtins_run, vec![Builtin::Mkdir, Builtin::Cd]);
}

#[test]
fn test_and_skips_right_on_failure() {
    // mkdir X && cd X: when mkdir fails, cd never runs and the
    // chain's result is the mkdir failure.
    let mut host = TestHost::new();
    host.builtin_replies.push(CommandResult::Error("mkdir failed".to_string()));
    let mut ex = Executor::new(false);
    let r = ex.execute(parse("mkdir X && cd X"), &mut host);
    match r {
        CommandResult::Error(e) => assert_eq!(e, "mkdir failed"),
        other => panic!("expected the mkdir failure, got {:?}", other),
    }
    assert_eq!(host.builtins_run, vec![Builtin::Mkdir]);
}

#[test]
fn test_or_runs_right_only_on_failure() {
    let mut host = TestHost::new();
    host.spawn_replies.insert("good".to_string(), completed(0, "fine", ""));
    host.spawn_replies.insert("fallback".to_string(), completed(0, "plan b", ""));
    let mut ex = Executor::new(false);
    let r = ex.execute(parse("good || fallback"), &mut host);
    match r {
        CommandResult::Success(s) => assert_eq!(s, "fine"),
        other => panic!("expected the left result, got {:?}", other),
    }
    assert_eq!(host.spawned, vec!["good".to_string()]);
}

#[test]
fn test_redirect_out_then_append() {
    // echo text > out.file, then echo text2 >> out.file: the target
    // holds both lines.
    let mut host = TestHost::new();
    let mut ex = Executor::new(false);
    let r = ex.execute(parse("echo text > out.file"), &mut host);
    assert!(matches!(r, CommandResult::Nothing));
    let r = ex.execute(parse("echo text2 >> out.file"), &mut host);
    assert!(matches!(r, CommandResult::Nothing));
    assert_eq!(host.files.get("out.file").unwrap(), "text\ntext2\n");
}

#[test]
fn test_redirect_in_overrides_pipe() {
    let mut host = TestHost::new();
    host.files.insert("notes.txt".to_string(), "from the file".to_string());
    host.spawn_replies.insert("produce".to_string(), completed(0, "piped text", ""));
    let mut ex = Executor::new(false);
    // cat with an input redirect and no arguments passes the file's
    // content through, whatever was piped in.
    let r = ex.execute(parse("produce | cat < notes.txt"), &mut host);
    assert!(matches!(r, CommandResult::Nothing));
    assert_eq!(host.printed, vec!["from the file".to_string()]);
}

#[test]
fn test_redirect_in_read_failure() {
    let mut host = TestHost::new();
    let mut ex = Executor::new(false);
    let r = ex.execute(parse("cat < missing.txt"), &mut host);
    match r {
        CommandResult::Error(e) => {
            assert!(e.contains("missing.txt"));
            assert!(e.contains("Cannot read"));
        },
        other => panic!("expected a read error, got {:?}", other),
    }
}

#[test]
fn test_error_is_not_written_to_redirect() {
    let mut host = TestHost::new();
    host.spawn_replies.insert("broken".to_string(), completed(1, "", "oops"));
    let mut ex = Executor::new(false);
    let r = ex.execute(parse("broken > out.file"), &mut host);
    assert!(matches!(r, CommandResult::Error(_)));
    assert!(host.files.get("out.file").is_none());
}

#[test]
fn test_sequence_continues_after_error_and_stops_on_exit() {
    let mut host = TestHost::new();
    host.spawn_replies.insert("bad".to_string(), completed(1, "", "no"));
    host.spawn_replies.insert("after".to_string(), completed(0, "ok", ""));
    let mut ex = Executor::new(false);
    let r = ex.execute(parse("bad ; after"), &mut host);
    match r {
        CommandResult::Success(s) => assert_eq!(s, "ok"),
        other => panic!("expected the last member's result, got {:?}", other),
    }
    // An exit request ends the sequence at once.
    let r = ex.execute(parse("exit ; after"), &mut host);
    assert!(matches!(r, CommandResult::Exit(0)));
    assert_eq!(host.spawned, vec!["bad".to_string(), "after".to_string()]);
}

#[test]
fn test_background_warns_and_runs() {
    let mut host = TestHost::new();
    host.spawn_replies.insert("job".to_string(), completed(0, "done", ""));
    let mut ex = Executor::new(false);
    let r = ex.execute(parse("job 10 &"), &mut host);
    match r {
        CommandResult::Success(s) => assert_eq!(s, "done"),
        other => panic!("expected the job's result, got {:?}", other),
    }
    assert_eq!(host.warnings, 1);
}

#[test]
fn test_spawn_not_found_sets_127() {
    let mut host = TestHost::new();
    let mut ex = Executor::new(false);
    let r = ex.execute(parse("nosuch"), &mut host);
    match r {
        CommandResult::Error(e) => {
            assert!(e.contains("nosuch"));
            assert!(e.contains("not found"));
        },
        other => panic!("expected a not-found error, got {:?}", other),
    }
    assert_eq!(ex.last_exit_code, 127);
}

#[test]
fn test_nonzero_exit_without_stderr_reports_code() {
    let mut host = TestHost::new();
    host.spawn_replies.insert("silent".to_string(), completed(3, "", ""));
    let mut ex = Executor::new(false);
    let r = ex.execute(parse("silent"), &mut host);
    match r {
        CommandResult::Error(e) => {
            assert!(e.contains("3"));
            assert!(e.contains("exited with code"));
        },
        other => panic!("expected a coded error, got {:?}", other),
    }
    assert_eq!(ex.last_exit_code, 3);
}

#[test]
fn test_result_queries() {
    assert!(CommandResult::Success("x".to_string()).is_success());
    assert!(CommandResult::Nothing.is_success());
    assert!(!CommandResult::Error("e".to_string()).is_success());
    assert!(!CommandResult::Exit(0).is_success());
    assert!(CommandResult::Exit(1).is_exit());
    assert_eq!(CommandResult::Success("x".to_string()).output(), Some("x"));
    assert_eq!(CommandResult::Nothing.output(), None);
}

#[test]
fn test_pipeline_executor_wraps() {
    let mut host = TestHost::new();
    host.spawn_replies.insert("one".to_string(), completed(0, "1\n", ""));
    let mut pe = PipelineExecutor::new(Executor::new(false));
    let cmds = vec![parse("one"), parse("grep 1")];
    let r = pe.execute(cmds, &mut host);
    assert!(matches!(r, CommandResult::Nothing));
    assert_eq!(host.printed, vec!["1".to_string()]);
}

#[test]
fn test_empty_command_does_nothing() {
    let mut host = TestHost::new();
    let mut ex = Executor::new(false);
    let r = ex.execute(parse(""), &mut host);
    assert!(matches!(r, CommandResult::Nothing));
    assert_eq!(ex.last_exit_code, 0);
}

#[test]
fn test_echo_quoted_argument_kept_whole() {
    // echo "a b  c" passes its one argument through with the internal
    // whitespace exactly as quoted.
    let mut host = TestHost::new();
    let mut ex = Executor::new(false);
    let r = ex.execute(parse("echo \"a b  c\""), &mut host);
    match r {
        CommandResult::Success(s) => assert_eq!(s, "a b  c\n"),
        other => panic!("expected success, got {:?}", other),
    }
}

#[test]
fn test_pipeline_emits_joiner_text() {
    // Pipeline output holding a zero-width joiner is rendered without
    // reshaping, and reaches the display unharmed.
    let tricky = "\u{200d}\u{644}\u{627}";
    let mut host = TestHost::new();
    host.spawn_replies.insert(
        "emit".to_string(),
        completed(0, &format!("{}\n", tricky), ""),
    );
    let mut ex = Executor::new(true);
    let r = ex.execute(parse("emit | cat"), &mut host);
    assert!(matches!(r, CommandResult::Nothing));
    assert_eq!(host.printed.len(), 1);
    assert!(host.printed[0].ends_with(tricky));
}

#[test]
fn test_usage_errors_are_pure() {
    let mut host = TestHost::new();
    let mut ex = Executor::new(false);
    let r = ex.execute(parse("mkdir"), &mut host);
    match r {
        CommandResult::Error(e) => assert!(e.contains("mkdir <dirname>")),
        other => panic!("expected a usage error, got {:?}", other),
    }
    let r = ex.execute(parse("chmod abc file"), &mut host);
    match r {
        CommandResult::Error(e) => assert!(e.contains("Invalid mode 'abc'")),
        other => panic!("expected an invalid-mode error, got {:?}", other),
    }
    assert!(host.builtins_run.is_empty());
    assert_eq!(ex.last_exit_code, 1);
}

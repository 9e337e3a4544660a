//! Routing and reporting for tool invocations.
//!
//! A recognized tool call is routed to the shell or to the
//! code-scaffolding command line; instructions that are plainly simple
//! shell commands are redirected to the shell even when the model asked
//! for scaffolding. Directory changes are intercepted and never spawn a
//! process. Process outcomes (exit status and captured output) are turned
//! into the exact user-facing strings; no failure escapes as an error.

use vstd::prelude::*;
use crate::parser::{ToolCall, ToolName};
use crate::text::{
    append_bytes, ascii_bytes, bytes_eq, dec_int, format_i32, lit_bytes, matches_at, seq_views,
    slice_range, starts_with, to_lower, to_lower_spec, trim, trim_spec,
};

verus! {

/// The fixed verbs that are always plain shell commands.
pub open spec fn simple_verbs() -> Seq<Seq<u8>> {
    seq![
        ascii_bytes("date"@),
        ascii_bytes("ls"@),
        ascii_bytes("pwd"@),
        ascii_bytes("cat"@),
        ascii_bytes("find"@),
        ascii_bytes("uptime"@),
    ]
}

/// The fixed verbs, as byte vectors.
pub fn simple_verb_list() -> (r: Vec<Vec<u8>>)
    ensures
        seq_views(r@) == simple_verbs(),
{
    let mut r: Vec<Vec<u8>> = Vec::new();
    proof {
        reveal_strlit("date");
        reveal_strlit("ls");
        reveal_strlit("pwd");
        reveal_strlit("cat");
        reveal_strlit("find");
        reveal_strlit("uptime");
    }
    let s0 = "date";
    assert(s0.is_ascii());
    r.push(lit_bytes(s0));
    let s1 = "ls";
    assert(s1.is_ascii());
    r.push(lit_bytes(s1));
    let s2 = "pwd";
    assert(s2.is_ascii());
    r.push(lit_bytes(s2));
    let s3 = "cat";
    assert(s3.is_ascii());
    r.push(lit_bytes(s3));
    let s4 = "find";
    assert(s4.is_ascii());
    r.push(lit_bytes(s4));
    let s5 = "uptime";
    assert(s5.is_ascii());
    r.push(lit_bytes(s5));
    proof {
        assert(seq_views(r@) =~= simple_verbs());
    }
    r
}

/// The command, lower-cased and trimmed, is the verb itself or the verb
/// followed by a space.
pub open spec fn verb_matches(lower: Seq<u8>, verb: Seq<u8>) -> bool {
    lower == verb || matches_at(lower, verb + seq![32u8], 0)
}

/// The instruction is (or begins as) one of the fixed simple shell
/// verbs, case-insensitively.
pub open spec fn is_simple_shell(cmd: Seq<u8>) -> bool {
    exists|k: int|
        0 <= k < simple_verbs().len() && verb_matches(
            to_lower_spec(trim_spec(cmd)),
            simple_verbs()[k],
        )
}

/// Whether a scaffolding instruction should be redirected to the shell.
pub fn should_redirect(cmd: &Vec<u8>) -> (r: bool)
    ensures
        r == is_simple_shell(cmd@),
{
    let trimmed = trim(cmd);
    let lower = to_lower(&trimmed);
    let verbs = simple_verb_list();
    let n = verbs.len();
    let mut k: usize = 0;
    while k < n
        invariant
            0 <= k <= n,
            n == verbs@.len(),
            seq_views(verbs@) == simple_verbs(),
            lower@ == to_lower_spec(trim_spec(cmd@)),
            forall|j: int| 0 <= j < k ==> !verb_matches(lower@, simple_verbs()[j]),
        decreases n - k,
    {
        proof {
            assert(verbs@[k as int]@ == simple_verbs()[k as int]);
        }
        if bytes_eq(&lower, &verbs[k]) {
            return true;
        }
        let mut with_space = slice_range(&verbs[k], 0, verbs[k].len());
        with_space.push(32);
        proof {
            assert(with_space@ =~= simple_verbs()[k as int] + seq![32u8]);
        }
        if starts_with(&lower, &with_space) {
            return true;
        }
        k = k + 1;
    }
    false
}

/// A tool invocation after the redirect heuristic.
pub enum RoutedTool {
    /// Run the command through the system shell.
    Shell(Vec<u8>),
    /// Hand the instruction to the code-scaffolding command line.
    Codex(Vec<u8>),
}

/// Which executions end up at the shell: every shell-tool call, and
/// every scaffolding call whose instruction is a simple shell verb.
pub open spec fn routes_to_shell(name: ToolName, cmd: Seq<u8>) -> bool {
    name is ShellTask || is_simple_shell(cmd)
}

/// Route a tool call, redirecting simple shell verbs away from the
/// scaffolding tool.
pub fn route_tool(call: ToolCall) -> (r: RoutedTool)
    ensures
        routes_to_shell(call.name, call.command@) ==> (r matches RoutedTool::Shell(c) && c@
            == call.command@),
        !routes_to_shell(call.name, call.command@) ==> (r matches RoutedTool::Codex(c) && c@
            == call.command@),
{
    match call.name {
        ToolName::ShellTask => RoutedTool::Shell(call.command),
        ToolName::CodexCliTask => {
            if should_redirect(&call.command) {
                RoutedTool::Shell(call.command)
            } else {
                RoutedTool::Codex(call.command)
            }
        },
    }
}

/// Law: the redirect heuristic erases the difference between the two
/// tools on simple shell commands. A command recognized as a simple
/// shell verb routes to the shell, with the command unchanged, whichever
/// tool the model named; the shell execution, and so its result, is the
/// same one either way.
pub proof fn lemma_redirect_matches_shell(name: ToolName, cmd: Seq<u8>)
    requires
        is_simple_shell(cmd),
    ensures
        routes_to_shell(name, cmd),
        routes_to_shell(ToolName::ShellTask, cmd) == routes_to_shell(ToolName::CodexCliTask, cmd),
{
}

/// The prefix that marks a directory change.
pub open spec fn cd_prefix() -> Seq<u8> {
    ascii_bytes("cd "@)
}

/// A path is absolute when it begins with the root separator.
pub open spec fn is_absolute_path(p: Seq<u8>) -> bool {
    p.len() > 0 && p[0] == 47
}

/// What a shell command asks for, decided before any process is spawned.
pub enum ShellPlan {
    /// The command was empty; answer with the fixed message.
    NoCommand,
    /// A directory change: update the persisted working directory to
    /// `target` and spawn nothing. When `anchored` is false the target
    /// is relative and still needs the caller's current directory.
    ChangeDir { target: Vec<u8>, anchored: bool },
    /// Run the trimmed command line through the system shell.
    Run { line: Vec<u8> },
}

/// Decide what a shell command does: nothing, a directory change
/// resolved against the persisted working directory, or a process run.
pub fn plan_shell(command: &Vec<u8>, cwd: Option<&Vec<u8>>) -> (r: ShellPlan)
    ensures
        ({
            let t = trim_spec(command@);
            if t.len() == 0 {
                r is NoCommand
            } else if matches_at(t, cd_prefix(), 0) {
                let arg = t.skip(cd_prefix().len() as int);
                if is_absolute_path(arg) {
                    r matches ShellPlan::ChangeDir { target, anchored } && target@ == arg
                        && anchored
                } else {
                    match cwd {
                        Some(c) => r matches ShellPlan::ChangeDir { target, anchored } && target@
                            == c@ + seq![47u8] + arg && anchored,
                        None => r matches ShellPlan::ChangeDir { target, anchored } && target@
                            == arg && !anchored,
                    }
                }
            } else {
                r matches ShellPlan::Run { line } && line@ == t
            }
        }),
{
    let t = trim(command);
    let n = t.len();
    if n == 0 {
        return ShellPlan::NoCommand;
    }
    let prefix = {
        let s = "cd ";
        proof {
            reveal_strlit("cd ");
        }
        assert(s.is_ascii());
        lit_bytes(s)
    };
    proof {
        assert(cd_prefix().len() == 3);
    }
    if starts_with(&t, &prefix) {
        let arg = slice_range(&t, 3, n);
        proof {
            assert(arg@ =~= trim_spec(command@).skip(cd_prefix().len() as int));
        }
        if arg.len() > 0 && arg[0] == 47 {
            ShellPlan::ChangeDir { target: arg, anchored: true }
        } else {
            match cwd {
                Some(c) => {
                    let mut target = slice_range(c, 0, c.len());
                    target.push(47);
                    append_bytes(&mut target, &arg);
                    proof {
                        assert(target@ =~= c@ + seq![47u8] + arg@);
                    }
                    ShellPlan::ChangeDir { target, anchored: true }
                },
                None => ShellPlan::ChangeDir { target: arg, anchored: false },
            }
        }
    } else {
        ShellPlan::Run { line: t }
    }
}

/// The answer for an empty shell command.
pub open spec fn no_command_message() -> Seq<u8> {
    ascii_bytes("No command provided."@)
}

/// The empty-command answer, as bytes.
pub fn no_command_message_bytes() -> (r: Vec<u8>)
    ensures
        r@ == no_command_message(),
{
    let s = "No command provided.";
    proof {
        reveal_strlit("No command provided.");
    }
    assert(s.is_ascii());
    lit_bytes(s)
}

/// The answer for an empty scaffolding instruction.
pub open spec fn no_instruction_message() -> Seq<u8> {
    ascii_bytes("No Codex instruction provided."@)
}

/// The empty-instruction answer, as bytes.
pub fn no_instruction_message_bytes() -> (r: Vec<u8>)
    ensures
        r@ == no_instruction_message(),
{
    let s = "No Codex instruction provided.";
    proof {
        reveal_strlit("No Codex instruction provided.");
    }
    assert(s.is_ascii());
    lit_bytes(s)
}

/// The answer when the scaffolding tool exceeds its wall-clock budget.
pub open spec fn codex_timeout_message() -> Seq<u8> {
    ascii_bytes(
        "Codex CLI timed out. Please try again with a simpler or more specific instruction."@,
    )
}

/// The timeout answer, as bytes.
pub fn codex_timeout_message_bytes() -> (r: Vec<u8>)
    ensures
        r@ == codex_timeout_message(),
{
    let s = "Codex CLI timed out. Please try again with a simpler or more specific instruction.";
    proof {
        reveal_strlit(
            "Codex CLI timed out. Please try again with a simpler or more specific instruction.",
        );
    }
    assert(s.is_ascii());
    lit_bytes(s)
}

/// The exit code reported for a process, `-1` when none is known.
pub open spec fn exit_code_of(code: Option<i32>) -> int {
    match code {
        Some(c) => c as int,
        None => -1,
    }
}

/// The user-facing report for a finished process: `head` names the
/// program. Non-zero exits surface the code and any error text; a silent
/// success gets the fixed `quiet` message; otherwise standard output
/// wins over standard error.
pub open spec fn report_spec(
    head: Seq<u8>,
    quiet: Seq<u8>,
    success: bool,
    code: int,
    out: Seq<u8>,
    err: Seq<u8>,
) -> Seq<u8> {
    let so = trim_spec(out);
    let se = trim_spec(err);
    if !success {
        if se.len() > 0 {
            head + ascii_bytes(" exited with "@) + dec_int(code) + ascii_bytes(": "@) + se
        } else {
            head + ascii_bytes(" exited with "@) + dec_int(code) + ascii_bytes(
                " and produced no output."@,
            )
        }
    } else if so.len() > 0 {
        so
    } else if se.len() > 0 {
        se
    } else {
        quiet
    }
}

/// Shared builder for process reports.
fn build_report(
    head: &str,
    quiet: &str,
    success: bool,
    code: Option<i32>,
    stdout: &Vec<u8>,
    stderr: &Vec<u8>,
) -> (r: Vec<u8>)
    requires
        head.is_ascii(),
        quiet.is_ascii(),
    ensures
        r@ == report_spec(
            ascii_bytes(head@),
            ascii_bytes(quiet@),
            success,
            exit_code_of(code),
            stdout@,
            stderr@,
        ),
{
    let so = trim(stdout);
    let se = trim(stderr);
    if !success {
        let c: i32 = match code {
            Some(x) => x,
            None => -1,
        };
        let mut r = lit_bytes(head);
        let mid = {
            let s = " exited with ";
            proof {
                reveal_strlit(" exited with ");
            }
            assert(s.is_ascii());
            lit_bytes(s)
        };
        append_bytes(&mut r, &mid);
        let digits = format_i32(c);
        append_bytes(&mut r, &digits);
        if se.len() > 0 {
            let sep = {
                let s = ": ";
                proof {
                    reveal_strlit(": ");
                }
                assert(s.is_ascii());
                lit_bytes(s)
            };
            append_bytes(&mut r, &sep);
            append_bytes(&mut r, &se);
            proof {
                assert(r@ =~= ascii_bytes(head@) + ascii_bytes(" exited with "@) + dec_int(
                    exit_code_of(code),
                ) + ascii_bytes(": "@) + trim_spec(stderr@));
            }
        } else {
            let tail = {
                let s = " and produced no output.";
                proof {
                    reveal_strlit(" and produced no output.");
                }
                assert(s.is_ascii());
                lit_bytes(s)
            };
            append_bytes(&mut r, &tail);
            proof {
                assert(r@ =~= ascii_bytes(head@) + ascii_bytes(" exited with "@) + dec_int(
                    exit_code_of(code),
                ) + ascii_bytes(" and produced no output."@));
            }
        }
        r
    } else if so.len() > 0 {
        so
    } else if se.len() > 0 {
        se
    } else {
        lit_bytes(quiet)
    }
}

/// The report for a shell command's outcome.
pub fn shell_report(success: bool, code: Option<i32>, stdout: &Vec<u8>, stderr: &Vec<u8>) -> (r:
    Vec<u8>)
    ensures
        r@ == report_spec(
            ascii_bytes("Command"@),
            ascii_bytes("Command ran successfully with no output."@),
            success,
            exit_code_of(code),
            stdout@,
            stderr@,
        ),
{
    let head = "Command";
    let quiet = "Command ran successfully with no output.";
    proof {
        reveal_strlit("Command");
        reveal_strlit("Command ran successfully with no output.");
    }
    assert(head.is_ascii());
    assert(quiet.is_ascii());
    build_report(head, quiet, success, code, stdout, stderr)
}

/// The report for the scaffolding tool's outcome.
pub fn codex_report(success: bool, code: Option<i32>, stdout: &Vec<u8>, stderr: &Vec<u8>) -> (r:
    Vec<u8>)
    ensures
        r@ == report_spec(
            ascii_bytes("Codex CLI"@),
            ascii_bytes("Codex ran successfully with no output."@),
            success,
            exit_code_of(code),
            stdout@,
            stderr@,
        ),
{
    let head = "Codex CLI";
    let quiet = "Codex ran successfully with no output.";
    proof {
        reveal_strlit("Codex CLI");
        reveal_strlit("Codex ran successfully with no output.");
    }
    assert(head.is_ascii());
    assert(quiet.is_ascii());
    build_report(head, quiet, success, code, stdout, stderr)
}

/// The answer for a directory change: confirmation when the target
/// exists, the fixed complaint otherwise.
pub open spec fn cd_report_spec(found: bool, path: Seq<u8>) -> Seq<u8> {
    if found {
        ascii_bytes("Changed directory to "@) + path
    } else {
        ascii_bytes("Directory not found: "@) + path
    }
}

/// The answer for a directory change, as bytes.
pub fn cd_report(found: bool, path: &Vec<u8>) -> (r: Vec<u8>)
    ensures
        r@ == cd_report_spec(found, path@),
{
    let mut r = if found {
        let s = "Changed directory to ";
        proof {
            reveal_strlit("Changed directory to ");
        }
        assert(s.is_ascii());
        lit_bytes(s)
    } else {
        let s = "Directory not found: ";
        proof {
            reveal_strlit("Directory not found: ");
        }
        assert(s.is_ascii());
        lit_bytes(s)
    };
    append_bytes(&mut r, path);
    r
}

/// The instruction with every double quote escaped by a backslash.
pub open spec fn escape_quotes_spec(s: Seq<u8>) -> Seq<u8>
    decreases s.len(),
{
    if s.len() == 0 {
        Seq::empty()
    } else if s[0] == 34 {
        seq![92u8, 34u8] + escape_quotes_spec(s.drop_first())
    } else {
        seq![s[0]] + escape_quotes_spec(s.drop_first())
    }
}

/// Copy of `v` with every double quote escaped.
pub fn escape_quotes(v: &Vec<u8>) -> (r: Vec<u8>)
    ensures
        r@ == escape_quotes_spec(v@),
{
    let n = v.len();
    let mut r: Vec<u8> = Vec::new();
    let mut i: usize = 0;
    proof {
        assert(v@.subrange(0, n as int) =~= v@);
        assert(Seq::<u8>::empty() + escape_quotes_spec(v@) =~= escape_quotes_spec(v@));
    }
    while i < n
        invariant
            0 <= i <= n,
            n == v@.len(),
            escape_quotes_spec(v@) == r@ + escape_quotes_spec(v@.subrange(i as int, n as int)),
        decreases n - i,
    {
        proof {
            let rest = v@.subrange(i as int, n as int);
            assert(rest.len() > 0 && rest[0] == v@[i as int]);
            assert(rest.drop_first() =~= v@.subrange(i + 1, n as int));
            if v@[i as int] == 34 {
                assert(escape_quotes_spec(rest) == seq![92u8, 34u8] + escape_quotes_spec(
                    rest.drop_first(),
                ));
                assert(r@ + (seq![92u8, 34u8] + escape_quotes_spec(rest.drop_first())) =~= (r@
                    + seq![92u8, 34u8]) + escape_quotes_spec(rest.drop_first()));
                assert(r@.push(92u8).push(34u8) =~= r@ + seq![92u8, 34u8]);
            } else {
                assert(escape_quotes_spec(rest) == seq![rest[0]] + escape_quotes_spec(
                    rest.drop_first(),
                ));
                assert(r@ + (seq![rest[0]] + escape_quotes_spec(rest.drop_first())) =~= r@.push(
                    rest[0],
                ) + escape_quotes_spec(rest.drop_first()));
            }
        }
        let b = v[i];
        if b == 34 {
            r.push(92);
            r.push(34);
        } else {
            r.push(b);
        }
        i = i + 1;
    }
    proof {
        assert(v@.subrange(n as int, n as int) =~= Seq::<u8>::empty());
        assert(r@ + Seq::<u8>::empty() =~= r@);
    }
    r
}

/// The full command line handed to the shell for a scaffolding run: the
/// fixed invocation with the trimmed instruction quoted and escaped.
pub open spec fn codex_command_spec(instr: Seq<u8>) -> Seq<u8> {
    ascii_bytes("codex --dangerously-bypass-approvals-and-sandbox \""@) + escape_quotes_spec(
        trim_spec(instr),
    ) + seq![34u8]
}

/// What a scaffolding instruction asks for.
pub enum CodexPlan {
    /// The instruction was empty; answer with the fixed message.
    NoInstruction,
    /// Run this command line through the system shell.
    Run { line: Vec<u8> },
}

/// Decide what a scaffolding instruction does: nothing when empty, else
/// a run of the quoted command line.
pub fn plan_codex(instruction: &Vec<u8>) -> (r: CodexPlan)
    ensures
        trim_spec(instruction@).len() == 0 ==> r is NoInstruction,
        trim_spec(instruction@).len() > 0 ==> (r matches CodexPlan::Run { line } && line@
            == codex_command_spec(instruction@)),
{
    let t = trim(instruction);
    if t.len() == 0 {
        return CodexPlan::NoInstruction;
    }
    let mut line = {
        let s = "codex --dangerously-bypass-approvals-and-sandbox \"";
        proof {
            reveal_strlit("codex --dangerously-bypass-approvals-and-sandbox \"");
        }
        assert(s.is_ascii());
        lit_bytes(s)
    };
    let escaped = escape_quotes(&t);
    append_bytes(&mut line, &escaped);
    line.push(34);
    proof {
        assert(line@ =~= codex_command_spec(instruction@));
    }
    CodexPlan::Run { line }
}

} // verus!

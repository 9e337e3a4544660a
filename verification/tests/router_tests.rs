use jarvis::parser::{ToolCall, ToolName};
use jarvis::router::{
    cd_report, codex_report, plan_codex, plan_shell, route_tool, shell_report, should_redirect,
    CodexPlan, RoutedTool, ShellPlan,
};

fn bytes(s: &str) -> Vec<u8> {
    s.as_bytes().to_vec()
}

#[test]
fn date_is_redirected_to_the_shell() {
    let routed = route_tool(ToolCall { name: ToolName::CodexCliTask, command: bytes("date") });
    let direct = route_tool(ToolCall { name: ToolName::ShellTask, command: bytes("date") });
    let via_codex = match routed {
        RoutedTool::Shell(c) => c,
        RoutedTool::Codex(_) => panic!("date was not redirected"),
    };
    let via_shell = match direct {
        RoutedTool::Shell(c) => c,
        RoutedTool::Codex(_) => panic!("shell task left the shell"),
    };
    assert_eq!(via_codex, via_shell);
}

#[test]
fn simple_verb_with_arguments_is_redirected() {
    assert!(should_redirect(&bytes("ls -la /tmp")));
    assert!(should_redirect(&bytes("  CAT notes.txt ")));
    assert!(should_redirect(&bytes("uptime")));
}

#[test]
fn verb_prefixes_of_longer_words_are_not_redirected() {
    assert!(!should_redirect(&bytes("catalog the files")));
    assert!(!should_redirect(&bytes("lsblk")));
    assert!(!should_redirect(&bytes("update the readme")));
}

#[test]
fn scaffolding_instruction_stays_with_codex() {
    let routed = route_tool(ToolCall {
        name: ToolName::CodexCliTask,
        command: bytes("write a parser module"),
    });
    match routed {
        RoutedTool::Codex(c) => assert_eq!(c, bytes("write a parser module")),
        RoutedTool::Shell(_) => panic!("instruction was wrongly redirected"),
    }
}

#[test]
fn empty_shell_command_is_a_no_op() {
    assert!(matches!(plan_shell(&bytes("   "), None), ShellPlan::NoCommand));
}

#[test]
fn absolute_cd_keeps_the_path() {
    match plan_shell(&bytes("cd /var/log"), Some(&bytes("/home/u"))) {
        ShellPlan::ChangeDir { target, anchored } => {
            assert_eq!(target, bytes("/var/log"));
            assert!(anchored);
        }
        _ => panic!("expected a directory change"),
    }
}

#[test]
fn relative_cd_joins_the_persisted_directory() {
    match plan_shell(&bytes("cd src"), Some(&bytes("/home/u"))) {
        ShellPlan::ChangeDir { target, anchored } => {
            assert_eq!(target, bytes("/home/u/src"));
            assert!(anchored);
        }
        _ => panic!("expected a directory change"),
    }
}

#[test]
fn relative_cd_without_persisted_directory_is_unanchored() {
    match plan_shell(&bytes("cd src"), None) {
        ShellPlan::ChangeDir { target, anchored } => {
            assert_eq!(target, bytes("src"));
            assert!(!anchored);
        }
        _ => panic!("expected a directory change"),
    }
}

#[test]
fn ordinary_command_runs_trimmed() {
    match plan_shell(&bytes("  echo hi  "), None) {
        ShellPlan::Run { line } => assert_eq!(line, bytes("echo hi")),
        _ => panic!("expected a run"),
    }
}

#[test]
fn cd_reports_use_the_fixed_wording() {
    assert_eq!(
        cd_report(true, &bytes("/srv")),
        bytes("Changed directory to /srv")
    );
    assert_eq!(
        cd_report(false, &bytes("/nope")),
        bytes("Directory not found: /nope")
    );
}

#[test]
fn failed_shell_run_reports_code_and_stderr() {
    let r = shell_report(false, Some(2), &bytes(""), &bytes("  boom \n"));
    assert_eq!(r, bytes("Command exited with 2: boom"));
}

#[test]
fn failed_shell_run_without_stderr_reports_code_only() {
    let r = shell_report(false, None, &bytes("ignored?"), &bytes("  "));
    assert_eq!(r, bytes("Command exited with -1 and produced no output."));
}

#[test]
fn failed_shell_run_renders_larger_codes() {
    let r = shell_report(false, Some(127), &bytes(""), &bytes("sh: nope: not found"));
    assert_eq!(r, bytes("Command exited with 127: sh: nope: not found"));
}

#[test]
fn successful_run_prefers_stdout() {
    let r = shell_report(true, Some(0), &bytes(" out \n"), &bytes("err"));
    assert_eq!(r, bytes("out"));
}

#[test]
fn successful_run_falls_back_to_stderr() {
    let r = shell_report(true, Some(0), &bytes("  "), &bytes(" warn "));
    assert_eq!(r, bytes("warn"));
}

#[test]
fn silent_success_reports_the_fixed_message() {
    let r = shell_report(true, Some(0), &bytes(""), &bytes(""));
    assert_eq!(r, bytes("Command ran successfully with no output."));
}

#[test]
fn codex_reports_name_the_cli() {
    let r = codex_report(false, Some(3), &bytes(""), &bytes("bad"));
    assert_eq!(r, bytes("Codex CLI exited with 3: bad"));
    let quiet = codex_report(true, Some(0), &bytes(""), &bytes(""));
    assert_eq!(quiet, bytes("Codex ran successfully with no output."));
}

#[test]
fn codex_command_line_quotes_and_escapes() {
    match plan_codex(&bytes("  say \"hi\" twice ")) {
        CodexPlan::Run { line } => assert_eq!(
            line,
            bytes("codex --dangerously-bypass-approvals-and-sandbox \"say \\\"hi\\\" twice\"")
        ),
        CodexPlan::NoInstruction => panic!("expected a run"),
    }
}

#[test]
fn empty_codex_instruction_is_a_no_op() {
    assert!(matches!(plan_codex(&bytes(" \n")), CodexPlan::NoInstruction));
}

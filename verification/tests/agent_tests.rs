use jarvis::agent::{
    build_prompt, decide_reply, ensure_spoken, model_timeout_message_bytes, ReplyAction,
};

fn bytes(s: &str) -> Vec<u8> {
    s.as_bytes().to_vec()
}

#[test]
fn prompt_wraps_the_command_between_the_fixed_markers() {
    let p = String::from_utf8(build_prompt(&bytes("list files"))).unwrap();
    assert!(p.starts_with("You are Jarvis, a helpful AI assistant.\n"));
    assert!(p.ends_with("\n\nUser: list files\nAssistant:"));
    assert!(p.contains("{\"tool\": \"tool_name\", \"arguments\": {\"command\": \"...\"}}"));
}

#[test]
fn plain_reply_is_spoken() {
    let d = decide_reply(&bytes("It is sunny."));
    match d.action {
        ReplyAction::Speak(m) => assert_eq!(m, bytes("It is sunny.")),
        _ => panic!("expected speech"),
    }
    assert!(d.hidden.is_none());
}

#[test]
fn shell_tool_reply_runs_the_shell() {
    let d = decide_reply(&bytes("{\"tool\":\"shell_task\",\"arguments\":{\"command\":\"pwd\"}}"));
    match d.action {
        ReplyAction::RunShell(c) => assert_eq!(c, bytes("pwd")),
        _ => panic!("expected a shell run"),
    }
}

#[test]
fn scaffolding_reply_with_simple_verb_is_redirected() {
    let d = decide_reply(&bytes(
        "{\"tool\":\"codex_cli_task\",\"arguments\":{\"command\":\"date\"}}",
    ));
    match d.action {
        ReplyAction::RunShell(c) => assert_eq!(c, bytes("date")),
        _ => panic!("expected the redirect to the shell"),
    }
}

#[test]
fn scaffolding_reply_keeps_real_instructions() {
    let d = decide_reply(&bytes(
        "{\"tool\":\"codex_cli_task\",\"arguments\":{\"command\":\"build a todo app\"}}",
    ));
    match d.action {
        ReplyAction::RunCodex(c) => assert_eq!(c, bytes("build a todo app")),
        _ => panic!("expected a scaffolding run"),
    }
}

#[test]
fn hidden_reasoning_reaches_the_side_channel() {
    let d = decide_reply(&bytes("<think>weighing options</think> fine"));
    assert_eq!(d.hidden, Some(bytes("weighing options")));
}

#[test]
fn blank_reply_is_replaced_before_speaking() {
    assert_eq!(
        ensure_spoken(bytes("  \n ")),
        bytes("I'm sorry, I didn't understand. Please try again.")
    );
    assert_eq!(ensure_spoken(bytes("fine")), bytes("fine"));
}

#[test]
fn model_timeout_has_the_fixed_wording() {
    assert_eq!(
        model_timeout_message_bytes(),
        bytes("The request to the language model timed out. Please try again.")
    );
}

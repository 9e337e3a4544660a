//! One conversational turn against the language model.
//!
//! The model receives a fixed system prompt followed by the user's
//! command; its raw reply is parsed and either routed to a tool or
//! spoken. The backend call itself, with its wall-clock timeout, happens
//! outside; this module builds the exact prompt, decides what a raw
//! reply asks for, and supplies the fixed fallback strings so that the
//! assistant never goes silent on a turn that reaches the speaking
//! stage.

use vstd::prelude::*;
use crate::parser::{cleaned_of, parse, speak_guard_spec, tool_call_spec, Outcome, think_text_spec};
use crate::router::{route_tool, routes_to_shell, RoutedTool};
use crate::text::{append_bytes, ascii_bytes, lit_bytes, trim, trim_spec};

verus! {

/// The fixed system prompt describing the two tools.
pub open spec fn system_prompt() -> Seq<u8> {
    ascii_bytes(
        "You are Jarvis, a helpful AI assistant.\nUse `shell_task` for raw shell commands like 'ls', 'pwd', 'cat', 'date' or 'find'.\nUse `codex_cli_task` only for writing or scaffolding code via the Codex CLI, not for running system commands.\nWhen you need to call a tool, respond with **only** a JSON object of the form:\n{\"tool\": \"tool_name\", \"arguments\": {\"command\": \"...\"}}\nDo not include any other text, tags or explanations around the JSON (no `<think>` tags).\nIf no tool is required, answer briefly in plain sentences. Do not use Markdown formatting,\ncode blocks, backticks or other special markup in your answers; just write the sentence(s)."@,
    )
}

/// The prompt for one turn: the system prompt, then the user's command,
/// then the cue for the assistant's answer.
pub open spec fn prompt_spec(user: Seq<u8>) -> Seq<u8> {
    system_prompt() + ascii_bytes("\n\nUser: "@) + user + ascii_bytes("\nAssistant:"@)
}

/// Build the exact prompt sent to the language model.
pub fn build_prompt(user_input: &Vec<u8>) -> (r: Vec<u8>)
    ensures
        r@ == prompt_spec(user_input@),
{
    let head =
        "You are Jarvis, a helpful AI assistant.\nUse `shell_task` for raw shell commands like 'ls', 'pwd', 'cat', 'date' or 'find'.\nUse `codex_cli_task` only for writing or scaffolding code via the Codex CLI, not for running system commands.\nWhen you need to call a tool, respond with **only** a JSON object of the form:\n{\"tool\": \"tool_name\", \"arguments\": {\"command\": \"...\"}}\nDo not include any other text, tags or explanations around the JSON (no `<think>` tags).\nIf no tool is required, answer briefly in plain sentences. Do not use Markdown formatting,\ncode blocks, backticks or other special markup in your answers; just write the sentence(s).";
    proof {
        reveal_strlit(
            "You are Jarvis, a helpful AI assistant.\nUse `shell_task` for raw shell commands like 'ls', 'pwd', 'cat', 'date' or 'find'.\nUse `codex_cli_task` only for writing or scaffolding code via the Codex CLI, not for running system commands.\nWhen you need to call a tool, respond with **only** a JSON object of the form:\n{\"tool\": \"tool_name\", \"arguments\": {\"command\": \"...\"}}\nDo not include any other text, tags or explanations around the JSON (no `<think>` tags).\nIf no tool is required, answer briefly in plain sentences. Do not use Markdown formatting,\ncode blocks, backticks or other special markup in your answers; just write the sentence(s).",
        );
    }
    assert(head.is_ascii());
    let mut r = lit_bytes(head);
    let mid = {
        let s = "\n\nUser: ";
        proof {
            reveal_strlit("\n\nUser: ");
        }
        assert(s.is_ascii());
        lit_bytes(s)
    };
    append_bytes(&mut r, &mid);
    append_bytes(&mut r, user_input);
    let tail = {
        let s = "\nAssistant:";
        proof {
            reveal_strlit("\nAssistant:");
        }
        assert(s.is_ascii());
        lit_bytes(s)
    };
    append_bytes(&mut r, &tail);
    proof {
        assert(r@ =~= prompt_spec(user_input@));
    }
    r
}

/// The answer when the language model exceeds its wall-clock budget.
pub open spec fn model_timeout_message() -> Seq<u8> {
    ascii_bytes("The request to the language model timed out. Please try again."@)
}

/// The model-timeout answer, as bytes.
pub fn model_timeout_message_bytes() -> (r: Vec<u8>)
    ensures
        r@ == model_timeout_message(),
{
    let s = "The request to the language model timed out. Please try again.";
    proof {
        reveal_strlit("The request to the language model timed out. Please try again.");
    }
    assert(s.is_ascii());
    lit_bytes(s)
}

/// What one raw model reply asks the orchestrator to do.
pub enum ReplyAction {
    /// Speak this text.
    Speak(Vec<u8>),
    /// Run this command through the shell path.
    RunShell(Vec<u8>),
    /// Hand this instruction to the code-scaffolding tool.
    RunCodex(Vec<u8>),
}

/// A decision on a raw reply, with hidden reasoning for the side
/// channel.
pub struct ReplyDecision {
    /// What to do.
    pub action: ReplyAction,
    /// Text removed from between the reasoning markers, if any.
    pub hidden: Option<Vec<u8>>,
}

/// Decide what a raw model reply asks for: parse it, then route any
/// tool call through the redirect heuristic.
pub fn decide_reply(raw: &Vec<u8>) -> (r: ReplyDecision)
    ensures
        ({
            let e = cleaned_of(raw@);
            match tool_call_spec(e) {
                Some(p) => if routes_to_shell(p.0, p.1) {
                    r.action matches ReplyAction::RunShell(c) && c@ == p.1
                } else {
                    r.action matches ReplyAction::RunCodex(c) && c@ == p.1
                },
                None => r.action matches ReplyAction::Speak(m) && m@ == speak_guard_spec(e),
            }
        }),
        match think_text_spec(trim_spec(raw@)) {
            Some(t) => r.hidden matches Some(h) && h@ == t,
            None => r.hidden is None,
        },
{
    let p = parse(raw);
    match p.outcome {
        Outcome::Speak(m) => ReplyDecision { action: ReplyAction::Speak(m), hidden: p.hidden },
        Outcome::Tool(tc) => {
            match route_tool(tc) {
                RoutedTool::Shell(c) => ReplyDecision {
                    action: ReplyAction::RunShell(c),
                    hidden: p.hidden,
                },
                RoutedTool::Codex(c) => ReplyDecision {
                    action: ReplyAction::RunCodex(c),
                    hidden: p.hidden,
                },
            }
        },
    }
}

/// The fallback spoken when a turn would otherwise produce silence.
pub open spec fn blank_reply_message() -> Seq<u8> {
    ascii_bytes("I'm sorry, I didn't understand. Please try again."@)
}

/// The silence fallback, as bytes.
pub fn blank_reply_message_bytes() -> (r: Vec<u8>)
    ensures
        r@ == blank_reply_message(),
{
    let s = "I'm sorry, I didn't understand. Please try again.";
    proof {
        reveal_strlit("I'm sorry, I didn't understand. Please try again.");
    }
    assert(s.is_ascii());
    lit_bytes(s)
}

/// The text actually spoken for a turn's reply: the reply itself, or
/// the fixed fallback when it is blank.
pub open spec fn spoken_reply_spec(reply: Seq<u8>) -> Seq<u8> {
    if trim_spec(reply).len() == 0 {
        blank_reply_message()
    } else {
        reply
    }
}

/// Replace a blank reply by the fixed fallback, so that dead air is
/// impossible on a turn that reaches the speaking stage.
pub fn ensure_spoken(reply: Vec<u8>) -> (r: Vec<u8>)
    ensures
        r@ == spoken_reply_spec(reply@),
{
    let t = trim(&reply);
    if t.len() == 0 {
        blank_reply_message_bytes()
    } else {
        reply
    }
}

} // verus!

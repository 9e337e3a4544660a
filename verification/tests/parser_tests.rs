use jarvis::parser::{parse, Outcome, ToolName};

fn bytes(s: &str) -> Vec<u8> {
    s.as_bytes().to_vec()
}

fn parse_speak(s: &str) -> String {
    let p = parse(&bytes(s));
    match p.outcome {
        Outcome::Speak(m) => String::from_utf8(m).unwrap(),
        Outcome::Tool(_) => panic!("expected a spoken outcome"),
    }
}

#[test]
fn plain_answer_passes_through() {
    assert_eq!(parse_speak("The time is noon."), "The time is noon.");
}

#[test]
fn trims_whitespace() {
    assert_eq!(parse_speak("  hello there \n"), "hello there");
}

#[test]
fn embedded_tool_call_with_stray_braces_round_trips() {
    let raw = "Thinking {a bit} about it... \
               {\"tool\":\"shell_task\",\"arguments\":{\"command\":\"ls\"}} done";
    let p = parse(&bytes(raw));
    match p.outcome {
        Outcome::Tool(tc) => {
            assert!(matches!(tc.name, ToolName::ShellTask));
            assert_eq!(tc.command, b"ls".to_vec());
        }
        Outcome::Speak(_) => panic!("expected a tool call"),
    }
}

#[test]
fn nested_braces_inside_arguments_are_balanced() {
    let raw = "{\"tool\":\"codex_cli_task\",\"arguments\":{\"command\":\"make {x}\"}}";
    let p = parse(&bytes(raw));
    match p.outcome {
        Outcome::Tool(tc) => {
            assert!(matches!(tc.name, ToolName::CodexCliTask));
            assert_eq!(tc.command, b"make {x}".to_vec());
        }
        Outcome::Speak(_) => panic!("expected a tool call"),
    }
}

#[test]
fn unknown_tool_name_falls_through_to_speech() {
    let raw = "{\"tool\":\"paint_task\",\"arguments\":{\"command\":\"red\"}}";
    let p = parse(&bytes(raw));
    assert!(matches!(p.outcome, Outcome::Speak(_)));
}

#[test]
fn malformed_json_falls_through_to_speech() {
    let raw = "oops {\"tool\": \"shell_task\", \"arguments\": {\"command\" \"ls\"}} end";
    let p = parse(&bytes(raw));
    assert!(matches!(p.outcome, Outcome::Speak(_)));
}

#[test]
fn long_reply_yields_clarification_verbatim() {
    let raw = "a".repeat(400);
    assert_eq!(
        parse_speak(&raw),
        "I'm sorry, I didn't quite understand. Please try again with a simpler command."
    );
}

#[test]
fn many_words_yield_clarification() {
    let raw = vec!["w"; 60].join(" ");
    assert_eq!(
        parse_speak(&raw),
        "I'm sorry, I didn't quite understand. Please try again with a simpler command."
    );
}

#[test]
fn empty_reply_yields_fixed_message() {
    assert_eq!(
        parse_speak("   \n  "),
        "I didn't catch that. Could you repeat your command?"
    );
}

#[test]
fn think_block_is_removed_and_captured() {
    let p = parse(&bytes("<think> plotting </think>  The answer is four."));
    match p.outcome {
        Outcome::Speak(m) => assert_eq!(m, b"The answer is four.".to_vec()),
        Outcome::Tool(_) => panic!("expected speech"),
    }
    assert_eq!(p.hidden, Some(b"plotting".to_vec()));
}

#[test]
fn text_before_think_block_is_dropped() {
    let p = parse(&bytes("preamble <think>x</think> kept"));
    match p.outcome {
        Outcome::Speak(m) => assert_eq!(m, b"kept".to_vec()),
        Outcome::Tool(_) => panic!("expected speech"),
    }
}

#[test]
fn unpaired_think_marker_is_left_alone() {
    assert_eq!(parse_speak("<think> no close here"), "<think> no close here");
}

#[test]
fn fenced_block_is_dropped() {
    let raw = "Look:\n```\necho hi\n```\nDone.";
    assert_eq!(parse_speak(raw), "Look:\nDone.");
}

#[test]
fn inline_backticks_are_deleted() {
    assert_eq!(parse_speak("use `ls` now"), "use ls now");
}

#[test]
fn fence_stripping_applies_only_when_fences_occur() {
    assert_eq!(parse_speak("line one\nline two"), "line one\nline two");
}

#[test]
fn reparsing_spoken_output_is_identity() {
    let inputs = [
        "plain words",
        " padded `code` and ```\nfence\n``` text",
        "<think>hidden</think> spoken part",
    ];
    for raw in inputs {
        let first = parse_speak(raw);
        let second = parse_speak(&first);
        assert_eq!(second, first);
    }
}

#[test]
fn tool_call_survives_surrounding_markdown() {
    let raw = "```json\nignored\n```\n{\"tool\":\"shell_task\",\"arguments\":{\"command\":\"pwd\"}}";
    let p = parse(&bytes(raw));
    match p.outcome {
        Outcome::Tool(tc) => {
            assert!(matches!(tc.name, ToolName::ShellTask));
            assert_eq!(tc.command, b"pwd".to_vec());
        }
        Outcome::Speak(_) => panic!("expected a tool call"),
    }
}

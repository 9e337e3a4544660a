use jarvis::convo::{
    idle_step, listen_step, phases_after_speaking, speak_race, strip_noise_words, IdleStep,
    ListenStep, Phase, SpeakOutcome,
};

fn bytes(s: &str) -> Vec<u8> {
    s.as_bytes().to_vec()
}

#[test]
fn leading_noise_word_is_stripped() {
    assert_eq!(strip_noise_words(&bytes("the jarvis")), bytes("jarvis"));
}

#[test]
fn lone_noise_word_strips_to_empty() {
    assert_eq!(strip_noise_words(&bytes("the")), bytes(""));
}

#[test]
fn interior_noise_words_are_kept() {
    assert_eq!(
        strip_noise_words(&bytes("um read the file uh")),
        bytes("read the file")
    );
}

#[test]
fn noise_stripping_ignores_case() {
    assert_eq!(strip_noise_words(&bytes("The UM jarvis A")), bytes("jarvis"));
}

#[test]
fn whitespace_is_normalized_between_words() {
    assert_eq!(strip_noise_words(&bytes("  open   the door ")), bytes("open the door"));
}

#[test]
fn wake_phrase_after_noise_wakes() {
    match idle_step(&bytes("the jarvis"), &bytes("jarvis")) {
        IdleStep::Wake { heard } => assert_eq!(heard, bytes("jarvis")),
        IdleStep::Stay => panic!("wake phrase missed"),
    }
}

#[test]
fn lone_noise_word_never_wakes() {
    assert!(matches!(idle_step(&bytes("the"), &bytes("jarvis")), IdleStep::Stay));
}

#[test]
fn wake_phrase_matching_is_case_insensitive() {
    assert!(matches!(
        idle_step(&bytes("hey JARVIS please"), &bytes("jarvis")),
        IdleStep::Wake { .. }
    ));
}

#[test]
fn unrelated_speech_does_not_wake() {
    assert!(matches!(idle_step(&bytes("hello world"), &bytes("jarvis")), IdleStep::Stay));
}

#[test]
fn silence_within_window_keeps_listening() {
    assert!(matches!(listen_step(&bytes("  "), 10_000, 30_000), ListenStep::StayQuiet));
}

#[test]
fn silence_past_the_window_goes_idle() {
    assert!(matches!(listen_step(&bytes(""), 30_001, 30_000), ListenStep::TimeoutIdle));
}

#[test]
fn sleep_phrase_ends_the_conversation() {
    assert!(matches!(listen_step(&bytes("shadow please"), 5, 30_000), ListenStep::Sleep));
}

#[test]
fn command_is_cleaned_and_forwarded() {
    match listen_step(&bytes(" the list my files "), 5, 30_000) {
        ListenStep::Command { text } => assert_eq!(text, bytes("list my files")),
        _ => panic!("expected a command"),
    }
}

#[test]
fn noise_only_transcript_refreshes_but_does_nothing() {
    let step = listen_step(&bytes("uh"), 5, 30_000);
    assert!(matches!(step, ListenStep::Noise));
    assert!(step.refreshes_timer());
}

#[test]
fn quiet_rounds_do_not_refresh_the_timer() {
    let step = listen_step(&bytes(""), 5, 30_000);
    assert!(!step.refreshes_timer());
}

#[test]
fn early_cancel_wins_the_race() {
    match speak_race(5_000, Some(150), 200) {
        SpeakOutcome::Canceled { at_ms } => {
            assert_eq!(at_ms, 200);
            assert!(at_ms < 5_000);
        }
        SpeakOutcome::Completed { .. } => panic!("cancellation lost a race it should win"),
    }
}

#[test]
fn cancel_at_start_is_seen_at_the_first_tick() {
    match speak_race(5_000, Some(0), 200) {
        SpeakOutcome::Canceled { at_ms } => assert_eq!(at_ms, 0),
        SpeakOutcome::Completed { .. } => panic!("immediate cancellation missed"),
    }
}

#[test]
fn late_cancel_lets_playback_finish() {
    match speak_race(300, Some(400), 200) {
        SpeakOutcome::Completed { at_ms } => assert_eq!(at_ms, 300),
        SpeakOutcome::Canceled { .. } => panic!("playback should have finished first"),
    }
}

#[test]
fn no_signal_means_natural_completion() {
    assert!(matches!(speak_race(1_000, None, 200), SpeakOutcome::Completed { at_ms: 1_000 }));
}

#[test]
fn canceled_playback_passes_through_canceled_then_listening() {
    let phases = phases_after_speaking(true);
    assert_eq!(phases, vec![Phase::Canceled, Phase::Listening]);
}

#[test]
fn normal_playback_returns_to_listening() {
    let phases = phases_after_speaking(false);
    assert_eq!(phases, vec![Phase::Listening]);
}

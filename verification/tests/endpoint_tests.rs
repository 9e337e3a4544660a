use jarvis::endpoint::{capture_from_chunks, has_speech, CaptureState, EndpointConfig, TimedChunk};

fn chunk(at_ms: u64, samples: &[i16]) -> TimedChunk {
    TimedChunk { at_ms, samples: samples.to_vec() }
}

#[test]
fn threshold_is_strict_and_two_sided() {
    assert!(!has_speech(&vec![500, -500, 0], 500));
    assert!(has_speech(&vec![501], 500));
    assert!(has_speech(&vec![-501], 500));
    assert!(has_speech(&vec![i16::MIN], 500));
    assert!(has_speech(&vec![i16::MAX], 500));
    assert!(!has_speech(&vec![], 500));
}

#[test]
fn silent_capture_runs_to_the_full_window_and_is_empty() {
    let cfg = EndpointConfig::with_window(5_000);
    let chunks = vec![
        chunk(100, &[10, -20, 300]),
        chunk(1_500, &[0, 0]),
        chunk(4_900, &[499, -499]),
    ];
    let (utterance, ended_at) = capture_from_chunks(&chunks, &cfg);
    assert!(utterance.is_empty());
    assert_eq!(ended_at, 5_000);
}

#[test]
fn speech_then_silence_stops_before_the_window() {
    let cfg = EndpointConfig::with_window(10_000);
    let chunks = vec![
        chunk(200, &[1_000, -1_000]),
        chunk(900, &[2_000]),
        chunk(1_800, &[0, 0]),
        chunk(9_000, &[0]),
    ];
    let (utterance, ended_at) = capture_from_chunks(&chunks, &cfg);
    assert_eq!(ended_at, 1_800);
    assert!(ended_at < 10_000);
    assert_eq!(utterance, vec![1_000, -1_000, 2_000, 0, 0]);
}

#[test]
fn no_early_stop_before_the_minimum_capture_time() {
    let cfg = EndpointConfig::with_window(10_000);
    let chunks = vec![chunk(50, &[5_000]), chunk(950, &[0])];
    let (utterance, ended_at) = capture_from_chunks(&chunks, &cfg);
    assert_eq!(ended_at, 10_000);
    assert_eq!(utterance, vec![5_000, 0]);
}

#[test]
fn silence_shorter_than_the_timeout_keeps_capturing() {
    let cfg = EndpointConfig::with_window(10_000);
    let chunks = vec![chunk(600, &[5_000]), chunk(1_200, &[0]), chunk(1_700, &[5_000])];
    let (_, ended_at) = capture_from_chunks(&chunks, &cfg);
    assert_eq!(ended_at, 10_000);
}

#[test]
fn partial_utterance_is_kept_on_early_stop() {
    let cfg = EndpointConfig::with_window(10_000);
    let chunks = vec![chunk(500, &[9_999]), chunk(2_000, &[1, 2, 3])];
    let (utterance, ended_at) = capture_from_chunks(&chunks, &cfg);
    assert_eq!(ended_at, 2_000);
    assert_eq!(utterance, vec![9_999, 1, 2, 3]);
}

#[test]
fn incremental_state_matches_the_whole_run() {
    let cfg = EndpointConfig::with_window(10_000);
    let mut state = CaptureState::new();
    state.observe_chunk(200, &vec![1_000], &cfg);
    assert!(!state.should_stop(200, &cfg));
    state.observe_chunk(1_800, &vec![0, 0], &cfg);
    assert!(state.should_stop(1_800, &cfg));
    let utterance = state.finish();
    assert_eq!(utterance, vec![1_000, 0, 0]);
}

#[test]
fn capture_without_speech_finishes_empty() {
    let cfg = EndpointConfig::with_window(10_000);
    let mut state = CaptureState::new();
    state.observe_chunk(100, &vec![3, -4], &cfg);
    assert!(state.finish().is_empty());
}

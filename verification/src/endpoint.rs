//! Silence-based endpointing of audio capture.
//!
//! Capture collects chunks of mono samples arriving on a clock. Speech is
//! detected when any sample's magnitude exceeds a fixed threshold; the
//! capture stops early once speech has started, the minimum capture time
//! has passed, and a full silence window has elapsed since the last
//! speech. Otherwise it stops when the maximum window elapses. A capture
//! in which no sample ever crossed the threshold yields the empty
//! utterance; every other capture keeps all samples collected so far,
//! however it stopped.

use vstd::prelude::*;

verus! {

/// The tunables of the endpointing algorithm.
pub struct EndpointConfig {
    /// Magnitudes above this count as speech.
    pub silence_threshold: i16,
    /// Silence this long after speech ends the capture.
    pub silence_timeout_ms: u64,
    /// No early stop before this much of the window has passed.
    pub min_capture_ms: u64,
    /// The capture never runs longer than this.
    pub max_duration_ms: u64,
}

impl EndpointConfig {
    /// A meaningful configuration has a non-negative threshold.
    pub open spec fn wf(self) -> bool {
        self.silence_threshold >= 0
    }

    /// The fixed endpointing parameters, for a window of the given
    /// length.
    pub fn with_window(max_duration_ms: u64) -> (r: EndpointConfig)
        ensures
            r.silence_threshold == 500,
            r.silence_timeout_ms == 800,
            r.min_capture_ms == 1000,
            r.max_duration_ms == max_duration_ms,
            r.wf(),
    {
        EndpointConfig {
            silence_threshold: 500,
            silence_timeout_ms: 800,
            min_capture_ms: 1000,
            max_duration_ms,
        }
    }
}

/// The sample's magnitude exceeds the threshold.
pub open spec fn exceeds(sample: i16, threshold: i16) -> bool {
    sample > threshold || -(sample as int) > threshold
}

/// Some sample in the chunk counts as speech.
pub open spec fn chunk_has_speech(chunk: Seq<i16>, threshold: i16) -> bool {
    exists|i: int| 0 <= i < chunk.len() && exceeds(chunk[i], threshold)
}

/// Whether any sample in the chunk exceeds the threshold.
pub fn has_speech(chunk: &Vec<i16>, threshold: i16) -> (r: bool)
    requires
        threshold >= 0,
    ensures
        r == chunk_has_speech(chunk@, threshold),
{
    let n = chunk.len();
    let mut i: usize = 0;
    while i < n
        invariant
            0 <= i <= n,
            n == chunk@.len(),
            threshold >= 0,
            forall|j: int| 0 <= j < i ==> !exceeds(chunk@[j], threshold),
        decreases n - i,
    {
        let s = chunk[i];
        if s > threshold || s < -threshold {
            return true;
        }
        i = i + 1;
    }
    false
}

/// The early-stop condition: speech has started, the minimum capture
/// time has passed, and the last speech is a full silence window old.
pub open spec fn stop_now(
    speech_started: bool,
    last_speech_ms: u64,
    elapsed_ms: u64,
    cfg: EndpointConfig,
) -> bool {
    speech_started && elapsed_ms > cfg.min_capture_ms && elapsed_ms - last_speech_ms
        > cfg.silence_timeout_ms
}

/// The running state of one capture window.
pub struct CaptureState {
    /// All samples collected so far, in arrival order.
    pub samples: Vec<i16>,
    /// Whether any sample has crossed the threshold yet.
    pub speech_started: bool,
    /// When the last speech chunk arrived, relative to capture start.
    pub last_speech_ms: u64,
}

impl CaptureState {
    /// A fresh capture: nothing collected, no speech yet.
    pub fn new() -> (r: CaptureState)
        ensures
            r.samples@ == Seq::<i16>::empty(),
            !r.speech_started,
            r.last_speech_ms == 0,
    {
        CaptureState { samples: Vec::new(), speech_started: false, last_speech_ms: 0 }
    }

    /// Record one arriving chunk: append its samples, and refresh the
    /// speech marks when it carries speech.
    pub fn observe_chunk(&mut self, elapsed_ms: u64, chunk: &Vec<i16>, cfg: &EndpointConfig)
        requires
            old(self).samples@.len() + chunk@.len() <= usize::MAX,
            cfg.wf(),
        ensures
            final(self).samples@ == old(self).samples@ + chunk@,
            final(self).speech_started == (old(self).speech_started || chunk_has_speech(
                chunk@,
                cfg.silence_threshold,
            )),
            final(self).last_speech_ms == if chunk_has_speech(chunk@, cfg.silence_threshold) {
                elapsed_ms
            } else {
                old(self).last_speech_ms
            },
    {
        let n = chunk.len();
        let mut i: usize = 0;
        while i < n
            invariant
                0 <= i <= n,
                n == chunk@.len(),
                self.samples@ == old(self).samples@ + chunk@.subrange(0, i as int),
                self.speech_started == old(self).speech_started,
                self.last_speech_ms == old(self).last_speech_ms,
            decreases n - i,
        {
            let s = chunk[i];
            self.samples.push(s);
            proof {
                assert((old(self).samples@ + chunk@.subrange(0, i as int)).push(chunk@[i as int])
                    =~= old(self).samples@ + chunk@.subrange(0, i + 1));
            }
            i = i + 1;
        }
        proof {
            assert(chunk@.subrange(0, n as int) =~= chunk@);
        }
        if has_speech(chunk, cfg.silence_threshold) {
            self.speech_started = true;
            self.last_speech_ms = elapsed_ms;
        }
    }

    /// Whether the capture should end now, before the window runs out.
    pub fn should_stop(&self, elapsed_ms: u64, cfg: &EndpointConfig) -> (r: bool)
        ensures
            r == stop_now(self.speech_started, self.last_speech_ms, elapsed_ms, *cfg),
    {
        self.speech_started && elapsed_ms > cfg.min_capture_ms && (elapsed_ms as u128)
            > (cfg.silence_timeout_ms as u128) + (self.last_speech_ms as u128)
    }

    /// The captured utterance: empty when no sample ever crossed the
    /// threshold, all collected samples otherwise.
    pub fn finish(self) -> (r: Vec<i16>)
        ensures
            self.speech_started ==> r@ == self.samples@,
            !self.speech_started ==> r@ == Seq::<i16>::empty(),
    {
        if self.speech_started {
            self.samples
        } else {
            Vec::new()
        }
    }
}

/// A chunk of samples together with its arrival time, relative to the
/// start of the capture.
pub struct TimedChunk {
    /// When the chunk arrived.
    pub at_ms: u64,
    /// The mono samples it carried.
    pub samples: Vec<i16>,
}

/// The rest of a capture run, from chunk `i` with the given state: the
/// resulting utterance and the time at which the capture returns.
pub open spec fn run_from(
    chunks: Seq<TimedChunk>,
    i: int,
    started: bool,
    last_ms: u64,
    collected: Seq<i16>,
    cfg: EndpointConfig,
) -> (Seq<i16>, u64)
    decreases chunks.len() - i,
{
    if i < 0 || i >= chunks.len() {
        (
            if started {
                collected
            } else {
                Seq::empty()
            },
            cfg.max_duration_ms,
        )
    } else {
        let sp = chunk_has_speech(chunks[i].samples@, cfg.silence_threshold);
        let started2 = started || sp;
        let last2 = if sp {
            chunks[i].at_ms
        } else {
            last_ms
        };
        let collected2 = collected + chunks[i].samples@;
        if stop_now(started2, last2, chunks[i].at_ms, cfg) {
            (collected2, chunks[i].at_ms)
        } else {
            run_from(chunks, i + 1, started2, last2, collected2, cfg)
        }
    }
}

/// A whole capture run over the given timed chunks.
pub open spec fn capture_run(chunks: Seq<TimedChunk>, cfg: EndpointConfig) -> (Seq<i16>, u64) {
    run_from(chunks, 0, false, 0, Seq::empty(), cfg)
}

/// The number of samples carried by all chunks together.
pub open spec fn total_samples(chunks: Seq<TimedChunk>) -> int
    decreases chunks.len(),
{
    if chunks.len() == 0 {
        0
    } else {
        chunks[0].samples@.len() + total_samples(chunks.drop_first())
    }
}

/// Run the endpointing algorithm over a finished sequence of timed
/// chunks: the utterance and the return time.
pub fn capture_from_chunks(chunks: &Vec<TimedChunk>, cfg: &EndpointConfig) -> (r: (Vec<i16>, u64))
    requires
        cfg.wf(),
        total_samples(chunks@) <= usize::MAX,
    ensures
        r.0@ == capture_run(chunks@, *cfg).0,
        r.1 == capture_run(chunks@, *cfg).1,
{
    let n = chunks.len();
    let mut state = CaptureState::new();
    let mut i: usize = 0;
    proof {
        assert(state.samples@ =~= Seq::<i16>::empty());
        assert(chunks@.skip(0) =~= chunks@);
    }
    while i < n
        invariant
            0 <= i <= n,
            n == chunks@.len(),
            cfg.wf(),
            state.samples@.len() + total_samples(chunks@.skip(i as int)) <= usize::MAX,
            capture_run(chunks@, *cfg) == run_from(
                chunks@,
                i as int,
                state.speech_started,
                state.last_speech_ms,
                state.samples@,
                *cfg,
            ),
        decreases n - i,
    {
        let at = chunks[i].at_ms;
        proof {
            let rest = chunks@.skip(i as int);
            assert(rest.len() > 0 && rest[0] == chunks@[i as int]);
            assert(rest.drop_first() =~= chunks@.skip(i + 1));
            assert(total_samples(rest) == chunks@[i as int].samples@.len() + total_samples(
                chunks@.skip(i + 1),
            ));
            lemma_total_samples_nonneg(chunks@.skip(i + 1));
        }
        state.observe_chunk(at, &chunks[i].samples, cfg);
        if state.should_stop(at, cfg) {
            proof {
                assert(state.speech_started);
            }
            return (state.samples, at);
        }
        i = i + 1;
    }
    (state.finish(), cfg.max_duration_ms)
}

proof fn lemma_total_samples_nonneg(chunks: Seq<TimedChunk>)
    ensures
        total_samples(chunks) >= 0,
    decreases chunks.len(),
{
    if chunks.len() > 0 {
        lemma_total_samples_nonneg(chunks.drop_first());
    }
}

/// Law: a capture in which no chunk ever carries speech runs to the
/// full window and yields the empty utterance.
pub proof fn lemma_silent_capture(chunks: Seq<TimedChunk>, cfg: EndpointConfig)
    requires
        forall|i: int|
            0 <= i < chunks.len() ==> !chunk_has_speech(
                #[trigger] chunks[i].samples@,
                cfg.silence_threshold,
            ),
    ensures
        capture_run(chunks, cfg).0 == Seq::<i16>::empty(),
        capture_run(chunks, cfg).1 == cfg.max_duration_ms,
{
    lemma_silent_run(chunks, cfg, 0, 0, Seq::empty());
}

proof fn lemma_silent_run(
    chunks: Seq<TimedChunk>,
    cfg: EndpointConfig,
    i: int,
    last_ms: u64,
    collected: Seq<i16>,
)
    requires
        forall|j: int|
            0 <= j < chunks.len() ==> !chunk_has_speech(
                #[trigger] chunks[j].samples@,
                cfg.silence_threshold,
            ),
    ensures
        run_from(chunks, i, false, last_ms, collected, cfg) == (
            Seq::<i16>::empty(),
            cfg.max_duration_ms,
        ),
    decreases chunks.len() - i,
{
    if 0 <= i < chunks.len() {
        lemma_silent_run(chunks, cfg, i + 1, last_ms, collected + chunks[i].samples@);
    }
}

/// Law: once speech has been heard, a speechless chunk arriving after
/// the minimum capture time, a full silence window after every speech
/// chunk before it, ends the capture at its own arrival time at the
/// latest — strictly before the maximum duration.
pub proof fn lemma_silence_endpoints_early(chunks: Seq<TimedChunk>, cfg: EndpointConfig, k: int)
    requires
        0 <= k < chunks.len(),
        forall|a: int, b: int| 0 <= a <= b <= k ==> chunks[a].at_ms <= chunks[b].at_ms,
        exists|j: int|
            0 <= j <= k && chunk_has_speech(#[trigger] chunks[j].samples@, cfg.silence_threshold),
        forall|l: int|
            0 <= l <= k && chunk_has_speech(#[trigger] chunks[l].samples@, cfg.silence_threshold)
                ==> chunks[k].at_ms - chunks[l].at_ms > cfg.silence_timeout_ms,
        chunks[k].at_ms > cfg.min_capture_ms,
        chunks[k].at_ms < cfg.max_duration_ms,
    ensures
        capture_run(chunks, cfg).1 <= chunks[k].at_ms,
        capture_run(chunks, cfg).1 < cfg.max_duration_ms,
{
    lemma_early_run(chunks, cfg, k, 0, false, 0, Seq::empty());
}

proof fn lemma_early_run(
    chunks: Seq<TimedChunk>,
    cfg: EndpointConfig,
    k: int,
    i: int,
    started: bool,
    last_ms: u64,
    collected: Seq<i16>,
)
    requires
        0 <= i <= k < chunks.len(),
        forall|a: int, b: int| 0 <= a <= b <= k ==> chunks[a].at_ms <= chunks[b].at_ms,
        started || exists|j: int|
            i <= j <= k && chunk_has_speech(#[trigger] chunks[j].samples@, cfg.silence_threshold),
        started ==> exists|l: int|
            0 <= l < i && chunk_has_speech(#[trigger] chunks[l].samples@, cfg.silence_threshold)
                && last_ms == chunks[l].at_ms,
        forall|l: int|
            0 <= l <= k && chunk_has_speech(#[trigger] chunks[l].samples@, cfg.silence_threshold)
                ==> chunks[k].at_ms - chunks[l].at_ms > cfg.silence_timeout_ms,
        chunks[k].at_ms > cfg.min_capture_ms,
    ensures
        run_from(chunks, i, started, last_ms, collected, cfg).1 <= chunks[k].at_ms,
    decreases chunks.len() - i,
{
    let sp = chunk_has_speech(chunks[i].samples@, cfg.silence_threshold);
    let started2 = started || sp;
    let last2 = if sp {
        chunks[i].at_ms
    } else {
        last_ms
    };
    let collected2 = collected + chunks[i].samples@;
    if stop_now(started2, last2, chunks[i].at_ms, cfg) {
        assert(chunks[i].at_ms <= chunks[k].at_ms);
    } else {
        if i == k {
            assert(!sp) by {
                if sp {
                    assert(chunks[k].at_ms - chunks[k].at_ms > cfg.silence_timeout_ms);
                }
            }
            assert(started);
            let l = choose|l: int|
                0 <= l < i && chunk_has_speech(
                    #[trigger] chunks[l].samples@,
                    cfg.silence_threshold,
                ) && last_ms == chunks[l].at_ms;
            assert(chunks[k].at_ms - chunks[l].at_ms > cfg.silence_timeout_ms);
            assert(stop_now(started2, last2, chunks[i].at_ms, cfg));
            assert(false);
        } else {
            if !started2 {
                let j = choose|j: int|
                    i <= j <= k && chunk_has_speech(
                        #[trigger] chunks[j].samples@,
                        cfg.silence_threshold,
                    );
                assert(j != i);
                assert(i + 1 <= j <= k);
            }
            lemma_early_run(chunks, cfg, k, i + 1, started2, last2, collected2);
        }
    }
}

} // verus!

//! The conversation state machine.
//!
//! The assistant is `Idle` until a short capture's transcript contains the
//! wake phrase, `Listening` while a conversation is active, `Speaking`
//! during playback, and transiently `Canceled` when an external signal
//! interrupts playback. Decisions are taken here on plain transcripts and
//! clock readings; capture, recognition and playback happen outside.
//!
//! Single noise tokens are stripped from the ends of a transcript before
//! any phrase detection, so that a lone misheard "the" can neither wake
//! the assistant nor count as a command.

use vstd::prelude::*;
use crate::text::{
    ascii_bytes, bytes_eq, contains_seq, find_first, join_words, join_with_spaces, lit_bytes,
    matches_at, seq_views, slice_range, split_words, to_lower, to_lower_spec, trim, trim_spec,
    words_spec,
};

verus! {

/// The single tokens treated as recognizer noise.
pub open spec fn noise_words() -> Seq<Seq<u8>> {
    seq![ascii_bytes("the"@), ascii_bytes("uh"@), ascii_bytes("um"@), ascii_bytes("a"@)]
}

/// A word that lower-cases to one of the noise tokens.
pub open spec fn is_noise_word(w: Seq<u8>) -> bool {
    exists|k: int| 0 <= k < noise_words().len() && to_lower_spec(w) == noise_words()[k]
}

/// Whether this word is recognizer noise.
fn word_is_noise(w: &Vec<u8>) -> (r: bool)
    ensures
        r == is_noise_word(w@),
{
    let lower = to_lower(w);
    proof {
        reveal_strlit("the");
        reveal_strlit("uh");
        reveal_strlit("um");
        reveal_strlit("a");
    }
    let s0 = "the";
    assert(s0.is_ascii());
    let n0 = lit_bytes(s0);
    if bytes_eq(&lower, &n0) {
        proof {
            assert(to_lower_spec(w@) == noise_words()[0]);
        }
        return true;
    }
    let s1 = "uh";
    assert(s1.is_ascii());
    let n1 = lit_bytes(s1);
    if bytes_eq(&lower, &n1) {
        proof {
            assert(to_lower_spec(w@) == noise_words()[1]);
        }
        return true;
    }
    let s2 = "um";
    assert(s2.is_ascii());
    let n2 = lit_bytes(s2);
    if bytes_eq(&lower, &n2) {
        proof {
            assert(to_lower_spec(w@) == noise_words()[2]);
        }
        return true;
    }
    let s3 = "a";
    assert(s3.is_ascii());
    let n3 = lit_bytes(s3);
    if bytes_eq(&lower, &n3) {
        proof {
            assert(to_lower_spec(w@) == noise_words()[3]);
        }
        return true;
    }
    proof {
        if is_noise_word(w@) {
            let k = choose|k: int|
                0 <= k < noise_words().len() && to_lower_spec(w@) == noise_words()[k];
            assert(k == 0 || k == 1 || k == 2 || k == 3);
        }
    }
    false
}

/// The words with leading noise tokens removed.
pub open spec fn drop_leading_noise(ws: Seq<Seq<u8>>) -> Seq<Seq<u8>>
    decreases ws.len(),
{
    if ws.len() > 0 && is_noise_word(ws[0]) {
        drop_leading_noise(ws.drop_first())
    } else {
        ws
    }
}

/// The words with trailing noise tokens removed.
pub open spec fn drop_trailing_noise(ws: Seq<Seq<u8>>) -> Seq<Seq<u8>>
    decreases ws.len(),
{
    if ws.len() > 0 && is_noise_word(ws.last()) {
        drop_trailing_noise(ws.drop_last())
    } else {
        ws
    }
}

proof fn lemma_drop_leading_skip(ws: Seq<Seq<u8>>, lo: int)
    requires
        0 <= lo <= ws.len(),
        forall|k: int| 0 <= k < lo ==> is_noise_word(ws[k]),
    ensures
        drop_leading_noise(ws) == drop_leading_noise(ws.subrange(lo, ws.len() as int)),
    decreases lo,
{
    if lo == 0 {
        assert(ws.subrange(0, ws.len() as int) =~= ws);
    } else {
        assert(is_noise_word(ws[0]));
        assert(ws.drop_first() =~= ws.subrange(1, ws.len() as int));
        let t = ws.subrange(1, ws.len() as int);
        lemma_drop_leading_skip(t, lo - 1);
        assert(t.subrange(lo - 1, t.len() as int) =~= ws.subrange(lo, ws.len() as int));
    }
}

proof fn lemma_drop_trailing_chop(ws: Seq<Seq<u8>>, hi: int)
    requires
        0 <= hi <= ws.len(),
        forall|k: int| hi <= k < ws.len() ==> is_noise_word(ws[k]),
    ensures
        drop_trailing_noise(ws) == drop_trailing_noise(ws.subrange(0, hi)),
    decreases ws.len() - hi,
{
    if hi == ws.len() {
        assert(ws.subrange(0, ws.len() as int) =~= ws);
    } else {
        assert(is_noise_word(ws.last()));
        assert(ws.drop_last() =~= ws.subrange(0, ws.len() - 1));
        lemma_drop_trailing_chop(ws.subrange(0, ws.len() - 1), hi);
        assert(ws.subrange(0, ws.len() - 1).subrange(0, hi) =~= ws.subrange(0, hi));
    }
}

/// The transcript with single noise tokens stripped from both ends and
/// the remaining words joined by single spaces.
pub open spec fn strip_noise_spec(s: Seq<u8>) -> Seq<u8> {
    join_words(drop_trailing_noise(drop_leading_noise(words_spec(s))))
}

/// Strip leading and trailing single-token noise words from a
/// transcript. Interior tokens are never touched.
pub fn strip_noise_words(text: &Vec<u8>) -> (r: Vec<u8>)
    ensures
        r@ == strip_noise_spec(text@),
{
    let words = split_words(text);
    let n = words.len();
    let mut lo: usize = 0;
    while lo < n && word_is_noise(&words[lo])
        invariant
            0 <= lo <= n,
            n == words@.len(),
            forall|k: int| 0 <= k < lo ==> is_noise_word(seq_views(words@)[k]),
        decreases n - lo,
    {
        lo = lo + 1;
    }
    let mut hi: usize = n;
    while hi > lo && word_is_noise(&words[hi - 1])
        invariant
            lo <= hi <= n,
            n == words@.len(),
            forall|k: int| hi <= k < n ==> is_noise_word(seq_views(words@)[k]),
        decreases hi,
    {
        hi = hi - 1;
    }
    proof {
        let all = seq_views(words@);
        lemma_drop_leading_skip(all, lo as int);
        let t = all.subrange(lo as int, n as int);
        assert(drop_leading_noise(t) == t);
        lemma_drop_trailing_chop(t, hi - lo);
        assert(t.subrange(0, hi - lo) =~= all.subrange(lo as int, hi as int));
        assert(drop_trailing_noise(all.subrange(lo as int, hi as int)) == all.subrange(
            lo as int,
            hi as int,
        ));
    }
    let mut kept: Vec<Vec<u8>> = Vec::new();
    let mut i: usize = lo;
    while i < hi
        invariant
            lo <= i <= hi <= n,
            n == words@.len(),
            seq_views(kept@) == seq_views(words@).subrange(lo as int, i as int),
        decreases hi - i,
    {
        let w = slice_range(&words[i], 0, words[i].len());
        proof {
            let all = seq_views(words@);
            assert(w@ =~= all[i as int]);
            assert(seq_views(kept@.push(w)) =~= seq_views(kept@).push(w@));
            assert(all.subrange(lo as int, i as int).push(all[i as int]) =~= all.subrange(
                lo as int,
                i + 1,
            ));
        }
        kept.push(w);
        i = i + 1;
    }
    join_with_spaces(&kept)
}

/// Case-insensitive containment of `needle` in `hay`.
pub open spec fn contains_ci(hay: Seq<u8>, needle: Seq<u8>) -> bool {
    contains_seq(to_lower_spec(hay), to_lower_spec(needle))
}

/// Whether `needle` occurs in `hay`, ignoring ASCII case.
pub fn contains_phrase(hay: &Vec<u8>, needle: &Vec<u8>) -> (r: bool)
    ensures
        r == contains_ci(hay@, needle@),
{
    let h = to_lower(hay);
    let m = to_lower(needle);
    match find_first(&h, &m) {
        Some(i) => {
            proof {
                assert(matches_at(h@, m@, i as int));
            }
            true
        },
        None => false,
    }
}

/// The conversation phases.
#[derive(Clone, Copy, PartialEq, Eq, Structural, Debug)]
pub enum Phase {
    /// Waiting for the wake phrase.
    Idle,
    /// Conversation active, awaiting a command.
    Listening,
    /// Playback in progress.
    Speaking,
    /// Playback interrupted; returns to `Listening` at once.
    Canceled,
}

/// An idle transcript wakes the assistant when, after trimming and
/// noise stripping, something remains and it contains the wake phrase,
/// case-insensitively.
pub open spec fn wakes(transcript: Seq<u8>, wake: Seq<u8>) -> bool {
    trim_spec(transcript).len() > 0 && strip_noise_spec(trim_spec(transcript)).len() > 0
        && contains_ci(strip_noise_spec(trim_spec(transcript)), wake)
}

/// The decision taken on a transcript heard while idle.
pub enum IdleStep {
    /// Wake up: acknowledge, record the cleaned transcript as heard,
    /// and move to `Listening`.
    Wake { heard: Vec<u8> },
    /// Keep waiting.
    Stay,
}

/// Decide whether an idle-mode transcript wakes the assistant.
pub fn idle_step(transcript: &Vec<u8>, wake_phrase: &Vec<u8>) -> (r: IdleStep)
    ensures
        wakes(transcript@, wake_phrase@) ==> (r matches IdleStep::Wake { heard } && heard@
            == strip_noise_spec(trim_spec(transcript@))),
        !wakes(transcript@, wake_phrase@) ==> r is Stay,
{
    let trimmed = trim(transcript);
    if trimmed.len() == 0 {
        return IdleStep::Stay;
    }
    let cleaned = strip_noise_words(&trimmed);
    if cleaned.len() == 0 {
        return IdleStep::Stay;
    }
    if contains_phrase(&cleaned, wake_phrase) {
        IdleStep::Wake { heard: cleaned }
    } else {
        IdleStep::Stay
    }
}

/// Law: a transcript whose words are all noise tokens strips to the
/// empty string, and therefore can never wake the assistant, whatever
/// the wake phrase is.
pub proof fn lemma_noise_only_never_wakes(s: Seq<u8>, wake: Seq<u8>)
    requires
        forall|k: int|
            0 <= k < words_spec(trim_spec(s)).len() ==> is_noise_word(
                #[trigger] words_spec(trim_spec(s))[k],
            ),
    ensures
        strip_noise_spec(trim_spec(s)) == Seq::<u8>::empty(),
        !wakes(s, wake),
{
    let ws = words_spec(trim_spec(s));
    lemma_drop_leading_skip(ws, ws.len() as int);
    assert(ws.subrange(ws.len() as int, ws.len() as int) =~= Seq::<Seq<u8>>::empty());
    assert(drop_leading_noise(ws) == Seq::<Seq<u8>>::empty());
    assert(drop_trailing_noise(Seq::<Seq<u8>>::empty()) == Seq::<Seq<u8>>::empty());
    assert(join_words(Seq::<Seq<u8>>::empty()) == Seq::<u8>::empty());
}

/// The phrase that puts the assistant back to sleep.
pub open spec fn sleep_phrase() -> Seq<u8> {
    ascii_bytes("shadow"@)
}

/// The sleep phrase, as bytes.
pub fn sleep_phrase_bytes() -> (r: Vec<u8>)
    ensures
        r@ == sleep_phrase(),
{
    let s = "shadow";
    proof {
        reveal_strlit("shadow");
    }
    assert(s.is_ascii());
    lit_bytes(s)
}

/// The decision taken on a transcript heard while listening.
pub enum ListenStep {
    /// Nothing heard and the inactivity window has passed: go idle.
    TimeoutIdle,
    /// Nothing heard, still within the window: keep listening. The
    /// interaction timer is not refreshed.
    StayQuiet,
    /// Only noise tokens: ignore, but refresh the interaction timer.
    Noise,
    /// The sleep phrase: speak the farewell and go idle.
    Sleep,
    /// A command to hand to the language model, cleaned of noise.
    Command { text: Vec<u8> },
}

impl ListenStep {
    /// Whether this round refreshes the interaction timer: any round
    /// that heard a non-empty transcript does.
    pub fn refreshes_timer(&self) -> (r: bool)
        ensures
            r == !(self is TimeoutIdle || self is StayQuiet),
    {
        match self {
            ListenStep::TimeoutIdle => false,
            ListenStep::StayQuiet => false,
            _ => true,
        }
    }
}

/// Decide what a listening-mode transcript means, given the time since
/// the last interaction and the inactivity timeout.
pub fn listen_step(transcript: &Vec<u8>, elapsed_ms: u64, timeout_ms: u64) -> (r: ListenStep)
    ensures
        ({
            let t = trim_spec(transcript@);
            let c = strip_noise_spec(t);
            if t.len() == 0 {
                if elapsed_ms > timeout_ms {
                    r is TimeoutIdle
                } else {
                    r is StayQuiet
                }
            } else if c.len() == 0 {
                r is Noise
            } else if contains_ci(c, sleep_phrase()) {
                r is Sleep
            } else {
                r matches ListenStep::Command { text } && text@ == c
            }
        }),
{
    let trimmed = trim(transcript);
    if trimmed.len() == 0 {
        if elapsed_ms > timeout_ms {
            return ListenStep::TimeoutIdle;
        }
        return ListenStep::StayQuiet;
    }
    let cleaned = strip_noise_words(&trimmed);
    if cleaned.len() == 0 {
        return ListenStep::Noise;
    }
    let sleep = sleep_phrase_bytes();
    if contains_phrase(&cleaned, &sleep) {
        return ListenStep::Sleep;
    }
    ListenStep::Command { text: cleaned }
}

/// The wake acknowledgement.
pub open spec fn wake_ack_message() -> Seq<u8> {
    ascii_bytes("Yes sir?"@)
}

/// The wake acknowledgement, as bytes.
pub fn wake_ack_message_bytes() -> (r: Vec<u8>)
    ensures
        r@ == wake_ack_message(),
{
    let s = "Yes sir?";
    proof {
        reveal_strlit("Yes sir?");
    }
    assert(s.is_ascii());
    lit_bytes(s)
}

/// The cancellation signal wins the playback race exactly when some
/// poll tick falls at or after the signal and strictly before the
/// natural end of playback. Ticks run at multiples of `poll_ms`,
/// starting immediately.
pub open spec fn race_canceled(play_done_ms: u64, cancel_at_ms: Option<u64>, poll_ms: u64) -> bool {
    match cancel_at_ms {
        None => false,
        Some(c) => exists|k: nat| #[trigger] (k * poll_ms) >= c && k * poll_ms < play_done_ms,
    }
}

/// How a round of playback ended.
pub enum SpeakOutcome {
    /// Playback ran to its natural end at this time.
    Completed { at_ms: u64 },
    /// The cancellation signal won the race at this poll tick, strictly
    /// before playback would have finished.
    Canceled { at_ms: u64 },
}

/// Resolve the race between playback completion and the periodic
/// cancellation poll: playback finishes at `play_done_ms`, the signal
/// (if any) is raised at `cancel_at_ms`, and the signal is observed at
/// the first poll tick at or after it.
pub fn speak_race(play_done_ms: u64, cancel_at_ms: Option<u64>, poll_ms: u64) -> (r: SpeakOutcome)
    requires
        poll_ms > 0,
        play_done_ms + poll_ms <= u64::MAX,
    ensures
        race_canceled(play_done_ms, cancel_at_ms, poll_ms) ==> (r matches SpeakOutcome::Canceled {
            at_ms,
        } && cancel_at_ms matches Some(c) && c <= at_ms && at_ms < play_done_ms && at_ms < c
            + poll_ms && at_ms % poll_ms == 0),
        !race_canceled(play_done_ms, cancel_at_ms, poll_ms) ==> (r
            matches SpeakOutcome::Completed { at_ms } && at_ms == play_done_ms),
{
    broadcast use vstd::arithmetic::mul::lemma_mul_inequality;

    let c = match cancel_at_ms {
        None => {
            proof {
                assert(!race_canceled(play_done_ms, cancel_at_ms, poll_ms));
            }
            return SpeakOutcome::Completed { at_ms: play_done_ms };
        },
        Some(c) => c,
    };
    let mut tick: u64 = 0;
    let ghost mut k: nat = 0;
    while tick < play_done_ms
        invariant
            poll_ms > 0,
            play_done_ms + poll_ms <= u64::MAX,
            cancel_at_ms == Some(c),
            tick == k * poll_ms,
            tick <= play_done_ms + poll_ms,
            forall|j: nat| j < k ==> #[trigger] (j * poll_ms) < c,
        decreases play_done_ms + poll_ms - tick,
    {
        if c <= tick {
            proof {
                assert(k * poll_ms >= c && k * poll_ms < play_done_ms);
                assert((k * (poll_ms as nat)) % (poll_ms as nat) == 0) by (nonlinear_arith)
                    requires
                        poll_ms > 0,
                ;
                if k == 0 {
                    assert(tick == 0);
                    assert(tick < c + poll_ms);
                } else {
                    assert(((k - 1) as nat) * poll_ms < c);
                    assert(k * poll_ms == ((k - 1) as nat) * poll_ms + poll_ms) by (nonlinear_arith)
                        requires
                            k >= 1,
                    ;
                    assert(tick < c + poll_ms);
                }
            }
            return SpeakOutcome::Canceled { at_ms: tick };
        }
        proof {
            assert(forall|j: nat| j < k + 1 ==> #[trigger] (j * poll_ms) < c) by {
                assert(k * poll_ms < c);
            }
            assert((k + 1) * poll_ms == k * poll_ms + poll_ms) by (nonlinear_arith);
            k = k + 1;
        }
        tick = tick + poll_ms;
    }
    proof {
        if race_canceled(play_done_ms, cancel_at_ms, poll_ms) {
            let j = choose|j: nat| #[trigger] (j * poll_ms) >= c && j * poll_ms < play_done_ms;
            assert(j * poll_ms < play_done_ms <= tick);
            assert(j * poll_ms < k * poll_ms);
            assert(j < k) by {
                if j >= k {
                    assert(k * poll_ms <= j * poll_ms);
                }
            }
            assert(j * poll_ms < c);
        }
    }
    SpeakOutcome::Completed { at_ms: play_done_ms }
}

/// Law: a cancellation signal raised within one poll interval of
/// playback start wins the race whenever playback itself outlasts that
/// interval: the outcome of `speak_race` is then a cancellation,
/// observed strictly before the natural end of playback.
pub proof fn lemma_early_cancel_wins(play_done_ms: u64, cancel_at_ms: u64, poll_ms: u64)
    requires
        poll_ms > 0,
        cancel_at_ms <= poll_ms,
        play_done_ms > poll_ms,
    ensures
        race_canceled(play_done_ms, Some(cancel_at_ms), poll_ms),
{
    assert(1nat * poll_ms == poll_ms) by (nonlinear_arith);
    assert((1nat * poll_ms) >= cancel_at_ms && 1nat * poll_ms < play_done_ms);
}

/// The phases traversed after playback ends: a canceled round passes
/// through `Canceled` before returning to `Listening`; a normal end
/// returns to `Listening` directly.
pub fn phases_after_speaking(was_canceled: bool) -> (r: Vec<Phase>)
    ensures
        was_canceled ==> r@ == seq![Phase::Canceled, Phase::Listening],
        !was_canceled ==> r@ == seq![Phase::Listening],
{
    let mut r: Vec<Phase> = Vec::new();
    if was_canceled {
        r.push(Phase::Canceled);
    }
    r.push(Phase::Listening);
    proof {
        if was_canceled {
            assert(r@ =~= seq![Phase::Canceled, Phase::Listening]);
        } else {
            assert(r@ =~= seq![Phase::Listening]);
        }
    }
    r
}

/// The farewell spoken on the sleep phrase.
pub open spec fn farewell_message() -> Seq<u8> {
    ascii_bytes("Going silent."@)
}

/// The farewell, as bytes.
pub fn farewell_message_bytes() -> (r: Vec<u8>)
    ensures
        r@ == farewell_message(),
{
    let s = "Going silent.";
    proof {
        reveal_strlit("Going silent.");
    }
    assert(s.is_ascii());
    lit_bytes(s)
}

} // verus!

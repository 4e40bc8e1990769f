//! The typing session: prompt, keystroke log, cursor, countdown and results.
use vstd::prelude::*;
use vstd::string::*;

use crate::keystroke::{Input, Outcome};
use crate::stats::{
    offset_of, lemma_correct_words_bound, count_correct_vec,
    accuracy_of, collect_markers, correct_markers, correct_words, count_correct,
    count_correct_words, histogram, is_histogram, is_std_dev_centi, speed_curve, speed_samples,
    std_dev_centi, steady_bucket_counts, steady_counts, wpm_of, accuracy_percent,
    words_per_minute, MAX_SAMPLES,
};

verus! {

/// Milliseconds between two ticks of the session clock.
pub const TICK_RATE_MS: i64 = 100;

/// Relies on std::time::SystemTime::now, read as milliseconds since the Unix
/// epoch (zero for a clock set before it); nothing is promised of its value.
#[verifier::external_body]
fn now_millis() -> u64 {
    match std::time::SystemTime::now().duration_since(std::time::UNIX_EPOCH) {
        Ok(d) => d.as_millis() as u64,
        Err(_) => 0,
    }
}

/// One typing test: the prompt, what has been typed against it, and the
/// results once it is over.
pub struct Thok {
    pub prompt: String,
    pub input: Vec<Input>,
    /// Instantaneous speed samples (milliseconds, thousandths of a wpm).
    pub raw_coords: Vec<(u64, u64)>,
    /// Cumulative speed samples (milliseconds, thousandths of a wpm).
    pub wpm_coords: Vec<(u64, u64)>,
    pub cursor_pos: usize,
    /// When the first keystroke came, in milliseconds since the Unix epoch.
    pub started_at: Option<u64>,
    /// Countdown of a timed session, in milliseconds.
    pub millis_remaining: Option<i64>,
    /// Length of a timed session, in seconds.
    pub number_of_secs: Option<u64>,
    pub number_of_words: usize,
    pub wpm: u64,
    pub accuracy: u64,
    /// Consistency: standard deviation of correct keystrokes per second, in
    /// hundredths.
    pub std_dev_centi: u64,
    /// Target pace in words per minute.
    pub pace: Option<u32>,
    pub death_mode: bool,
    pub tabbed: bool,
}

/// Keystrokes left after deleting a word: a trailing space goes first, then
/// every trailing keystroke up to the previous space.
pub open spec fn strip_word(keys: Seq<Input>) -> Seq<Input>
    decreases keys.len(),
{
    if keys.len() > 0 && keys.last().char != ' ' {
        strip_word(keys.drop_last())
    } else {
        keys
    }
}

/// See [`strip_word`].
pub open spec fn after_word_delete(keys: Seq<Input>) -> Seq<Input> {
    if keys.len() > 0 && keys.last().char == ' ' {
        strip_word(keys.drop_last())
    } else {
        strip_word(keys)
    }
}

/// `n - k`, or zero.
pub open spec fn sat_sub(n: nat, k: nat) -> nat {
    if n >= k {
        (n - k) as nat
    } else {
        0
    }
}

impl Thok {
    /// The cursor stays within the keystroke log.
    pub open spec fn wf(&self) -> bool {
        self.cursor_pos <= self.input@.len()
    }

    /// Whether some keystroke is incorrect.
    pub open spec fn any_incorrect(&self) -> bool {
        exists|i: int| 0 <= i < self.input@.len() && (#[trigger] self.input@[i]).outcome == Outcome::Incorrect
    }

    /// The session is over: the prompt is used up, the countdown has run
    /// out, or a mistake was made in death mode.
    pub open spec fn finished(&self) -> bool {
        ||| self.input@.len() == self.prompt@.len()
        ||| (self.millis_remaining.is_some() && self.millis_remaining.unwrap() <= 0)
        ||| (self.death_mode && self.any_incorrect())
    }

    /// A fresh session over `prompt`.
    pub fn new(
        prompt: String,
        number_of_words: usize,
        number_of_secs: Option<u64>,
        pace: Option<u32>,
        death_mode: bool,
    ) -> (t: Self)
        requires
            number_of_secs.is_some() ==> number_of_secs.unwrap() * 1000 <= i64::MAX,
        ensures
            t.wf(),
            t.prompt@ == prompt@,
            t.input@.len() == 0,
            t.raw_coords@.len() == 0,
            t.wpm_coords@.len() == 0,
            t.cursor_pos == 0,
            t.started_at.is_none(),
            t.millis_remaining == (match number_of_secs {
                Some(s) => Some((s * 1000) as i64),
                None => None,
            }),
            t.number_of_secs == number_of_secs,
            t.number_of_words == number_of_words,
            t.wpm == 0,
            t.accuracy == 0,
            t.std_dev_centi == 0,
            t.pace == pace,
            t.death_mode == death_mode,
            !t.tabbed,
    {
        let millis_remaining = match number_of_secs {
            Some(s) => Some((s * 1000) as i64),
            None => None,
        };
        Thok {
            prompt,
            input: Vec::new(),
            raw_coords: Vec::new(),
            wpm_coords: Vec::new(),
            cursor_pos: 0,
            started_at: None,
            millis_remaining,
            number_of_secs,
            number_of_words,
            wpm: 0,
            accuracy: 0,
            std_dev_centi: 0,
            pace,
            death_mode,
            tabbed: false,
        }
    }

    /// Advances the countdown of a timed session by one tick (it stops at the
    /// smallest `i64`).
    pub fn on_tick(&mut self)
        ensures
            final(self).millis_remaining == (match old(self).millis_remaining {
                Some(v) => Some(
                    if v >= i64::MIN + TICK_RATE_MS {
                        (v - TICK_RATE_MS) as i64
                    } else {
                        i64::MIN
                    },
                ),
                None => None,
            }),
            final(self).input == old(self).input,
            final(self).cursor_pos == old(self).cursor_pos,
            final(self).prompt == old(self).prompt,
            final(self).started_at == old(self).started_at,
            final(self).death_mode == old(self).death_mode,
    {
        if let Some(v) = self.millis_remaining {
            let next: i64 = if v >= i64::MIN + TICK_RATE_MS { v - TICK_RATE_MS } else { i64::MIN };
            self.millis_remaining = Some(next);
        }
    }

    /// The prompt character at position `idx`.
    pub fn get_expected_char(&self, idx: usize) -> (c: char)
        requires
            idx < self.prompt@.len(),
        ensures
            c == self.prompt@[idx as int],
    {
        self.prompt.as_str().get_char(idx)
    }

    /// Moves the cursor one place right, if it is not at the end.
    pub fn increment_cursor(&mut self)
        ensures
            final(self).cursor_pos == if old(self).cursor_pos < old(self).input@.len() {
                old(self).cursor_pos + 1
            } else {
                old(self).cursor_pos as int
            },
            final(self).input == old(self).input,
            final(self).prompt == old(self).prompt,
            final(self).started_at == old(self).started_at,
            final(self).millis_remaining == old(self).millis_remaining,
            final(self).death_mode == old(self).death_mode,
    {
        if self.cursor_pos < self.input.len() {
            self.cursor_pos = self.cursor_pos + 1;
        }
    }

    /// Moves the cursor one place left, if it is not at the start.
    pub fn decrement_cursor(&mut self)
        ensures
            final(self).cursor_pos == if old(self).cursor_pos > 0 {
                old(self).cursor_pos - 1
            } else {
                0
            },
            final(self).input == old(self).input,
            final(self).prompt == old(self).prompt,
            final(self).started_at == old(self).started_at,
            final(self).millis_remaining == old(self).millis_remaining,
            final(self).death_mode == old(self).death_mode,
    {
        if self.cursor_pos > 0 {
            self.cursor_pos = self.cursor_pos - 1;
        }
    }

    /// Deletes the keystroke before the cursor; nothing at the start.
    pub fn backspace(&mut self)
        requires
            old(self).wf(),
        ensures
            final(self).wf(),
            old(self).cursor_pos > 0 ==> final(self).input@ == old(self).input@.remove(
                old(self).cursor_pos - 1,
            ) && final(self).cursor_pos == old(self).cursor_pos - 1,
            old(self).cursor_pos == 0 ==> final(self).input == old(self).input
                && final(self).cursor_pos == 0,
            final(self).prompt == old(self).prompt,
            final(self).started_at == old(self).started_at,
            final(self).millis_remaining == old(self).millis_remaining,
            final(self).death_mode == old(self).death_mode,
    {
        if self.cursor_pos > 0 {
            self.input.remove(self.cursor_pos - 1);
            self.decrement_cursor();
        }
    }

    /// Deletes the last word: a trailing space first, then every trailing
    /// keystroke back to the previous space. Each deletion moves the cursor
    /// back one place.
    pub fn word_backspace(&mut self)
        requires
            old(self).wf(),
        ensures
            final(self).wf(),
            final(self).input@ == after_word_delete(old(self).input@),
            final(self).cursor_pos == sat_sub(
                old(self).cursor_pos as nat,
                (old(self).input@.len() - final(self).input@.len()) as nat,
            ),
            final(self).prompt == old(self).prompt,
            final(self).started_at == old(self).started_at,
            final(self).millis_remaining == old(self).millis_remaining,
            final(self).death_mode == old(self).death_mode,
    {
        let ghost orig = self.input@;
        let ghost cur = self.cursor_pos as nat;
        let n = self.input.len();
        if n > 0 && self.input[n - 1].char == ' ' {
            self.input.pop();
            self.decrement_cursor();
        }
        let ghost mid = self.input@;
        assert(after_word_delete(orig) == strip_word(mid));
        while self.input.len() > 0 && self.input[self.input.len() - 1].char != ' '
            invariant
                self.wf(),
                strip_word(self.input@) == strip_word(mid),
                self.cursor_pos == sat_sub(cur, (orig.len() - self.input@.len()) as nat),
                self.input@.len() <= orig.len(),
                self.prompt == old(self).prompt,
                self.started_at == old(self).started_at,
                self.millis_remaining == old(self).millis_remaining,
                self.death_mode == old(self).death_mode,
            decreases self.input@.len(),
        {
            assert(strip_word(self.input@) == strip_word(self.input@.drop_last()));
            self.input.pop();
            self.decrement_cursor();
        }
    }

    /// Starts the session clock now.
    pub fn start(&mut self)
        ensures
            final(self).started_at.is_some(),
            final(self).input == old(self).input,
            final(self).cursor_pos == old(self).cursor_pos,
            final(self).prompt == old(self).prompt,
            final(self).millis_remaining == old(self).millis_remaining,
            final(self).death_mode == old(self).death_mode,
    {
        self.started_at = Some(now_millis());
    }

    /// Types `c` now, see [`Thok::write_at`].
    pub fn write(&mut self, c: char)
        requires
            old(self).wf(),
            old(self).input@.len() < old(self).prompt@.len(),
        ensures
            final(self).wf(),
            exists|now: u64| #[trigger] final(self).written(old(self), c, now),
    {
        let now = now_millis();
        self.write_at(c, now);
    }

    /// The state after typing `c` at time `now` on `prev`.
    pub open spec fn written(&self, prev: &Thok, c: char, now: u64) -> bool {
        let idx = prev.input@.len();
        let outcome = if c == prev.prompt@[idx as int] {
            Outcome::Correct
        } else {
            Outcome::Incorrect
        };
        &&& self.started_at == (if idx == 0 && prev.started_at.is_none() {
            Some(now)
        } else {
            prev.started_at
        })
        &&& self.input@ == prev.input@.insert(
            prev.cursor_pos as int,
            Input { char: c, outcome, timestamp: now },
        )
        &&& self.cursor_pos == prev.cursor_pos + 1
        &&& self.prompt == prev.prompt
        &&& self.millis_remaining == prev.millis_remaining
        &&& self.death_mode == prev.death_mode
    }

    /// Types `c` at time `now` (milliseconds since the Unix epoch): the first
    /// keystroke starts the clock; the keystroke is judged against the prompt
    /// character at the position given by the number of keystrokes so far,
    /// and is inserted at the cursor, which then moves right.
    pub fn write_at(&mut self, c: char, now: u64)
        requires
            old(self).wf(),
            old(self).input@.len() < old(self).prompt@.len(),
        ensures
            final(self).wf(),
            final(self).written(old(self), c, now),
    {
        let idx = self.input.len();
        if idx == 0 && self.started_at.is_none() {
            self.started_at = Some(now);
        }
        let outcome = if c == self.get_expected_char(idx) {
            Outcome::Correct
        } else {
            Outcome::Incorrect
        };
        self.input.insert(self.cursor_pos, Input { char: c, outcome, timestamp: now });
        self.increment_cursor();
    }

    /// The results of `prev` computed at time `now`: words per minute,
    /// accuracy, the cumulative speed curve (appended to the earlier samples)
    /// and the consistency, over the histogram of correct keystrokes per
    /// second; everything else is kept.
    pub open spec fn results_of(&self, prev: &Thok, now: u64) -> bool {
        let start = prev.started_at.unwrap();
        let elapsed = offset_of(now, start);
        let keys = prev.input@;
        &&& self.wpm == wpm_of(correct_words(keys), elapsed)
        &&& self.accuracy == accuracy_of(count_correct(keys), keys.len())
        &&& exists|h: Seq<(u64, u64)>|
            #![trigger speed_samples(h)]
            {
                &&& is_histogram(h, correct_markers(keys, start, elapsed))
                &&& self.wpm_coords@ == prev.wpm_coords@ + speed_samples(h)
                &&& is_std_dev_centi(steady_counts(h), self.std_dev_centi as nat)
            }
        &&& self.input == prev.input
        &&& self.cursor_pos == prev.cursor_pos
        &&& self.prompt == prev.prompt
        &&& self.started_at == prev.started_at
        &&& self.millis_remaining == prev.millis_remaining
        &&& self.number_of_secs == prev.number_of_secs
        &&& self.number_of_words == prev.number_of_words
        &&& self.death_mode == prev.death_mode
    }

    /// Computes the results now, see [`Thok::results_of`].
    pub fn calc_results(&mut self)
        requires
            old(self).started_at.is_some(),
            old(self).input@.len() <= MAX_SAMPLES,
        ensures
            exists|now: u64| #[trigger] final(self).results_of(old(self), now),
    {
        let now = now_millis();
        self.calc_results_at(now);
    }

    /// Computes the results of a session that ended at `now` (milliseconds
    /// since the Unix epoch), see [`Thok::results_of`].
    pub fn calc_results_at(&mut self, now: u64)
        requires
            old(self).started_at.is_some(),
            old(self).input@.len() <= MAX_SAMPLES,
        ensures
            final(self).results_of(old(self), now),
    {
        let start: u64 = match self.started_at {
            Some(t) => t,
            None => 0,
        };
        let elapsed: u64 = if now >= start { now - start } else { 0 };
        let markers = collect_markers(&self.input, start, elapsed);
        let ghost ms = markers@;
        let h = histogram(markers);
        let steady = steady_bucket_counts(&h);
        assert forall|i: int| 0 <= i < steady@.len() implies steady@[i] <= MAX_SAMPLES by {
            assert(steady@[i] == h@[i].1);
        }
        self.std_dev_centi = std_dev_centi(&steady);
        let mut curve = speed_curve(&h);
        self.wpm_coords.append(&mut curve);
        let words = count_correct_words(&self.input);
        proof {
            lemma_correct_words_bound(self.input@);
        }
        assert(wpm_of(words as nat, elapsed as nat) <= u64::MAX) by (nonlinear_arith)
            requires
                words <= MAX_SAMPLES + 1,
                wpm_of(words as nat, elapsed as nat) == if elapsed == 0 {
                    0
                } else {
                    ((words * 60000 + elapsed - 1) / (elapsed as int)) as nat
                },
        {
            if elapsed > 0 {
                assert((words * 60000 + elapsed - 1) / (elapsed as int) <= words * 60000 + elapsed - 1);
            }
        }
        self.wpm = words_per_minute(words, elapsed);
        let correct = count_correct_vec(&self.input);
        self.accuracy = accuracy_percent(correct, self.input.len());
    }

    /// Position in the prompt that a typist at the target pace would have
    /// reached `now`: `round(pace / 60 * elapsed_secs / number_of_words * prompt_len)`;
    /// none without a pace, before the start, or with no words.
    pub open spec fn pace_index(&self, now: u64) -> Option<nat> {
        if self.pace.is_none() || self.started_at.is_none() || self.number_of_words == 0 {
            None
        } else {
            let n = 2 * (self.pace.unwrap() as nat) * offset_of(now, self.started_at.unwrap())
                * self.prompt@.len();
            let d = 120000 * (self.number_of_words as nat);
            Some((n + d / 2) / d)
        }
    }

    /// The pace position at `now`, see [`Thok::pace_index`].
    pub fn pace_position(&self, now: u64) -> (r: Option<u64>)
        requires
            self.prompt@.len() < 0x4000_0000,
        ensures
            r == match self.pace_index(now) {
                Some(p) => Some(if p <= u64::MAX { p as u64 } else { u64::MAX }),
                None => None,
            },
    {
        let p: u32 = match self.pace {
            Some(p) => p,
            None => return None,
        };
        let start: u64 = match self.started_at {
            Some(t) => t,
            None => return None,
        };
        if self.number_of_words == 0 {
            return None;
        }
        let elapsed: u64 = if now >= start { now - start } else { 0 };
        let len: usize = self.prompt.as_str().unicode_len();
        let a: u128 = 2 * (p as u128);
        assert(a * (elapsed as u128) < 0x2_0000_0000 * 0x1_0000_0000_0000_0000) by (nonlinear_arith)
            requires
                a < 0x2_0000_0000,
                elapsed < 0x1_0000_0000_0000_0000,
        ;
        let b: u128 = a * (elapsed as u128);
        assert(b * (len as u128) < 0x8000_0000_0000_0000_0000_0000_0000_0000) by (nonlinear_arith)
            requires
                b == a * (elapsed as u128),
                a < 0x2_0000_0000,
                elapsed < 0x1_0000_0000_0000_0000,
                len < 0x4000_0000,
        ;
        let n: u128 = b * (len as u128);
        let d: u128 = 120000 * (self.number_of_words as u128);
        let q: u128 = (n + d / 2) / d;
        if q <= u64::MAX as u128 {
            Some(q as u64)
        } else {
            Some(u64::MAX)
        }
    }

    /// Whether the first keystroke has come.
    pub fn has_started(&self) -> (r: bool)
        ensures
            r == self.started_at.is_some(),
    {
        self.started_at.is_some()
    }

    /// Whether a mistake ends the session: death mode with an incorrect
    /// keystroke.
    pub fn fatal_error(&self) -> (r: bool)
        ensures
            r == (self.death_mode && self.any_incorrect()),
    {
        if !self.death_mode {
            return false;
        }
        let mut i: usize = 0;
        while i < self.input.len()
            invariant
                self.death_mode,
                0 <= i <= self.input@.len(),
                forall|j: int| 0 <= j < i ==> (#[trigger] self.input@[j]).outcome == Outcome::Correct,
            decreases self.input@.len() - i,
        {
            if self.input[i].outcome == Outcome::Incorrect {
                assert(self.input@[i as int].outcome == Outcome::Incorrect);
                return true;
            }
            i = i + 1;
        }
        false
    }

    /// Whether the session is over, see [`Thok::finished`].
    pub fn has_finished(&self) -> (r: bool)
        ensures
            r == self.finished(),
    {
        let finished_prompt = self.input.len() == self.prompt.as_str().unicode_len();
        let out_of_time = match self.millis_remaining {
            Some(v) => v <= 0,
            None => false,
        };
        finished_prompt || out_of_time || self.fatal_error()
    }
}

} // verus!

use thokr::keystroke::{Input, Outcome};
use thokr::session::{Thok, TICK_RATE_MS};

const T0: u64 = 1_700_000_000_000;

fn typed_at(prompt: &str, typed: &str, times: &[u64]) -> Thok {
    let mut t = Thok::new(prompt.to_string(), prompt.split(' ').count(), None, None, false);
    for (c, at) in typed.chars().zip(times.iter()) {
        t.write_at(c, *at);
    }
    t
}

fn text(t: &Thok) -> String {
    t.input.iter().map(|i| i.char).collect()
}

#[test]
fn new_session_is_fresh() {
    let t = Thok::new("ab cd".to_string(), 2, Some(30), Some(40), true);
    assert_eq!(t.cursor_pos, 0);
    assert!(t.input.is_empty());
    assert_eq!(t.started_at, None);
    assert_eq!(t.millis_remaining, Some(30_000));
    assert_eq!(t.pace, Some(40));
    assert!(!t.has_started());
    assert!(!t.has_finished());
}

#[test]
fn write_starts_clock_and_judges_by_position() {
    let mut t = Thok::new("abc".to_string(), 1, None, None, false);
    t.write_at('a', T0);
    assert_eq!(t.started_at, Some(T0));
    t.write_at('x', T0 + 10);
    assert_eq!(t.started_at, Some(T0));
    assert_eq!(t.input[0].outcome, Outcome::Correct);
    assert_eq!(t.input[1].outcome, Outcome::Incorrect);
    assert_eq!(t.input[1].timestamp, T0 + 10);
    assert_eq!(t.cursor_pos, 2);
    assert_eq!(t.get_expected_char(2), 'c');
}

#[test]
fn write_with_clock_records_start() {
    let mut t = Thok::new("ab".to_string(), 1, None, None, false);
    t.write('a');
    assert!(t.has_started());
    assert!(t.started_at.unwrap() > T0);
    assert_eq!(t.input[0].timestamp, t.started_at.unwrap());
}

#[test]
fn backspace_removes_before_cursor() {
    let mut t = typed_at("abc", "ab", &[T0, T0 + 5]);
    t.backspace();
    assert_eq!(text(&t), "a");
    assert_eq!(t.cursor_pos, 1);
    t.backspace();
    t.backspace();
    assert_eq!(text(&t), "");
    assert_eq!(t.cursor_pos, 0);
}

#[test]
fn retyped_key_is_judged_by_count() {
    // After deleting in the middle, the next key is judged against the
    // prompt character at the keystroke count, not at the cursor.
    let mut t = typed_at("abc", "ab", &[T0, T0 + 5]);
    t.decrement_cursor();
    t.backspace();
    assert_eq!(text(&t), "b");
    assert_eq!(t.cursor_pos, 0);
    t.write_at('a', T0 + 9);
    assert_eq!(text(&t), "ab");
    assert_eq!(t.input[0].outcome, Outcome::Incorrect);
    assert_eq!(t.cursor_pos, 1);
}

#[test]
fn word_backspace_on_empty_is_noop() {
    let mut t = Thok::new("ab".to_string(), 1, None, None, false);
    t.word_backspace();
    assert_eq!(t.cursor_pos, 0);
    assert!(t.input.is_empty());
}

#[test]
fn word_backspace_keeps_cursor_in_range() {
    let mut t = typed_at("ab cd ef", "ab cd e", &[T0; 7]);
    t.word_backspace();
    assert_eq!(text(&t), "ab cd ");
    assert_eq!(t.cursor_pos, 6);
    t.word_backspace();
    assert_eq!(text(&t), "ab ");
    assert_eq!(t.cursor_pos, 3);
    t.word_backspace();
    assert_eq!(text(&t), "");
    assert_eq!(t.cursor_pos, 0);
}

#[test]
fn finished_when_prompt_used_up() {
    let t = typed_at("ab", "ab", &[T0, T0 + 1]);
    assert!(t.has_finished());
    let t = typed_at("abc", "ab", &[T0, T0 + 1]);
    assert!(!t.has_finished());
}

#[test]
fn finished_when_time_runs_out() {
    let mut t = Thok::new("abc".to_string(), 1, Some(1), None, false);
    let ticks = 1000 / TICK_RATE_MS;
    for _ in 0..ticks - 1 {
        t.on_tick();
    }
    assert_eq!(t.millis_remaining, Some(TICK_RATE_MS));
    assert!(!t.has_finished());
    t.on_tick();
    assert_eq!(t.millis_remaining, Some(0));
    assert!(t.has_finished());
}

#[test]
fn untimed_tick_changes_nothing() {
    let mut t = Thok::new("abc".to_string(), 1, None, None, false);
    t.on_tick();
    assert_eq!(t.millis_remaining, None);
}

#[test]
fn death_mode_ends_on_mistake() {
    let mut t = Thok::new("abc".to_string(), 1, None, None, true);
    t.write_at('a', T0);
    assert!(!t.fatal_error());
    assert!(!t.has_finished());
    t.write_at('x', T0 + 1);
    assert!(t.fatal_error());
    assert!(t.has_finished());

    let mut t = Thok::new("abc".to_string(), 1, None, None, false);
    t.write_at('x', T0);
    assert!(!t.fatal_error());
    assert!(!t.has_finished());
}

#[test]
fn increment_cursor_is_bounded() {
    let mut t = typed_at("abc", "a", &[T0]);
    t.increment_cursor();
    assert_eq!(t.cursor_pos, 1);
    t.decrement_cursor();
    t.decrement_cursor();
    assert_eq!(t.cursor_pos, 0);
}

#[test]
fn exact_wpm_after_one_and_three_seconds() {
    let mut t = typed_at("one two three", "one two three", &[T0; 13]);
    t.calc_results_at(T0 + 1000);
    assert_eq!(t.wpm, 180);
    assert_eq!(t.accuracy, 100);
    t.calc_results_at(T0 + 3000);
    assert_eq!(t.wpm, 60);
}

#[test]
fn exact_accuracy_with_two_mistakes() {
    let mut t = typed_at("one two three", "one two thrdd", &[T0; 13]);
    t.calc_results_at(T0 + 1000);
    assert_eq!(t.accuracy, 85);
    // "thrdd" is not a correct word.
    assert_eq!(t.wpm, 120);
}

#[test]
fn speed_curve_and_consistency() {
    // Correct keystrokes at 0.0 s, 0.5 s, 1.5 s, 1.7 s, 2.2 s, 3.9 s
    // over 3.95 s: buckets 1 s (2), 2 s (2), 3 s (1), 3.95 s (1).
    let times = [T0, T0 + 500, T0 + 1500, T0 + 1700, T0 + 2200, T0 + 3900];
    let mut t = typed_at("abcdef", "abcdef", &times);
    t.calc_results_at(T0 + 3950);
    assert_eq!(
        t.wpm_coords,
        vec![(1000, 24_000), (2000, 24_000), (3000, 20_000), (3950, 18_227)]
    );
    // Population deviation of [2, 2, 1] is 0.4714...
    assert_eq!(t.std_dev_centi, 47);
}

#[test]
fn single_bucket_has_zero_deviation() {
    let mut t = typed_at("abc", "abc", &[T0, T0 + 100, T0 + 200]);
    t.calc_results_at(T0 + 2500);
    assert_eq!(t.std_dev_centi, 0);
    assert_eq!(t.wpm_coords, vec![(1000, 36_000)]);
}

#[test]
fn late_keys_in_short_session_go_to_elapsed_time() {
    // Under one second no whole second has passed: only the first key is
    // put in the first second, the others at the elapsed time.
    let mut t = typed_at("abc", "abc", &[T0, T0 + 100, T0 + 200]);
    t.calc_results_at(T0 + 900);
    assert_eq!(t.wpm_coords, vec![(900, 26_666), (1000, 36_000)]);
    assert_eq!(t.std_dev_centi, 0);
}

#[test]
fn incorrect_keys_are_not_bucketed() {
    let mut t = typed_at("abc", "xbc", &[T0, T0 + 1200, T0 + 2500]);
    t.calc_results_at(T0 + 3000);
    assert_eq!(t.wpm_coords, vec![(2000, 6_000), (3000, 8_000)]);
    assert_eq!(t.accuracy, 67);
}

#[test]
fn pace_position_is_rounded() {
    let mut t = Thok::new("a".repeat(50), 10, None, Some(60), false);
    assert_eq!(t.pace_position(T0), None);
    t.write_at('a', T0);
    assert_eq!(t.pace_position(T0 + 10_000), Some(50));
    assert_eq!(t.pace_position(T0 + 1_000), Some(5));
    let u = Thok::new("abc".to_string(), 1, None, None, false);
    assert_eq!(u.pace_position(T0), None);
}

#[test]
fn keystrokes_compare_by_fields() {
    let a = Input { char: 'a', outcome: Outcome::Correct, timestamp: 1 };
    let b = a;
    assert_eq!(a, b);
    assert_ne!(a, Input { timestamp: 2, ..a });
}

#[test]
fn start_sets_clock() {
    let mut t = Thok::new("ab".to_string(), 1, None, None, false);
    t.start();
    assert!(t.has_started());
    assert!(t.started_at.unwrap() > T0);
}

#[test]
fn cursor_stays_in_log_through_edits() {
    let mut t = Thok::new("ab cd ef gh".to_string(), 4, None, None, false);
    let mut at = T0;
    for step in 0..40 {
        match step % 5 {
            0 | 1 | 2 if t.input.len() < 11 => t.write_at('a', at),
            3 => t.backspace(),
            4 if step % 3 == 0 => t.word_backspace(),
            _ => t.decrement_cursor(),
        }
        at += 7;
        assert!(t.cursor_pos <= t.input.len());
    }
}

use std::time::{SystemTime, UNIX_EPOCH};

use thokr::keystroke::{Input, Outcome};
use thokr::session::Thok;

fn now_ms() -> u64 {
    SystemTime::now().duration_since(UNIX_EPOCH).unwrap().as_millis() as u64
}

fn build_input(s: &str) -> Vec<Input> {
    s.chars()
        .map(|c| Input {
            char: c,
            outcome: Outcome::Correct,
            timestamp: now_ms(),
        })
        .collect()
}

fn build_judged_input(typed: &str, prompt: &str) -> Vec<Input> {
    typed
        .chars()
        .zip(prompt.chars())
        .map(|(c, g)| Input {
            char: c,
            outcome: if c == g { Outcome::Correct } else { Outcome::Incorrect },
            timestamp: now_ms(),
        })
        .collect()
}

fn assert_within(first: f64, second: f64, maxdelta: f64) {
    if (first - second).abs() > maxdelta {
        panic!("assert_within failed: {} is not close enough to {}", first, second);
    }
}

fn session(prompt: &str, input: Vec<Input>, cursor_pos: usize, started_at: u64, words: usize) -> Thok {
    Thok {
        prompt: prompt.to_string(),
        input,
        raw_coords: Vec::new(),
        wpm_coords: Vec::new(),
        cursor_pos,
        started_at: Some(started_at),
        millis_remaining: None,
        number_of_secs: None,
        number_of_words: words,
        wpm: 0,
        accuracy: 0,
        std_dev_centi: 0,
        pace: None,
        death_mode: false,
        tabbed: false,
    }
}

fn typed(t: &Thok) -> String {
    t.input.iter().map(|i| i.char).collect::<String>()
}

#[test]
fn test_wpm() {
    let mut thok = session("one two three", build_input("one two three"), 13, now_ms() - 1000, 3);

    thok.calc_results();
    assert_within(thok.wpm as f64, 180., 5.);

    thok.started_at = Some(now_ms() - 3000);
    thok.calc_results();
    assert_within(thok.wpm as f64, 60., 5.);
}

#[test]
fn test_accuracy() {
    let mut thok = session(
        "one two three",
        build_judged_input("one two thrdd", "one two three"),
        13,
        now_ms() - 1000,
        3,
    );

    thok.calc_results();
    assert_within(thok.accuracy as f64, 85., 5.);

    thok.input = build_input("one two three");
    thok.calc_results();
    assert_within(thok.accuracy as f64, 100., 5.);
}

#[test]
fn test_word_backspace() {
    let mut thok = session(
        "one two three four",
        build_input("one two three four"),
        18,
        now_ms() - 1000,
        4,
    );

    thok.word_backspace();
    assert_eq!(typed(&thok), "one two three ");

    thok.word_backspace();
    assert_eq!(typed(&thok), "one two ");
}

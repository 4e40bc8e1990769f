use thokr::keystroke::{Input, Outcome};
use thokr::results_log::{log_chunk_text, log_header};
use thokr::session::Thok;

const HEADER: &str = "date,num_words,num_secs,elapsed_secs,wpm,accuracy,std_dev";

fn finished(secs: Option<u64>) -> Thok {
    let mut t = Thok::new("ab".to_string(), 3, secs, None, false);
    t.input = vec![Input { char: 'a', outcome: Outcome::Correct, timestamp: 0 }];
    t.wpm = 180;
    t.accuracy = 85;
    t.std_dev_centi = 150;
    t
}

#[test]
fn header_row() {
    assert_eq!(log_header(), HEADER);
}

#[test]
fn row_formats_each_column() {
    let row = finished(Some(30)).results_row("Sun Oct 19 06:24:00 2026", 1234);
    assert_eq!(row, "Sun Oct 19 06:24:00 2026,3,30.00,1.23,180,85,1.50");
    let row = finished(None).results_row("d", 1995);
    assert_eq!(row, "d,3,,2.00,180,85,1.50");
    let row = finished(None).results_row("d", 7);
    assert_eq!(row, "d,3,,0.01,180,85,1.50");
}

#[test]
fn fresh_log_gets_header_once() {
    let mut log = String::new();
    for secs in [Some(15), None, Some(60)] {
        let row = finished(secs).results_row("Mon Jan  1 00:00:00 2024", 61_000);
        let chunk = log_chunk_text(log.is_empty(), &row);
        log.push_str(&chunk);
    }
    let lines: Vec<&str> = log.lines().collect();
    assert_eq!(lines.len(), 4);
    assert_eq!(lines[0], HEADER);
    assert_eq!(log.matches(HEADER).count(), 1);
    let columns = HEADER.split(',').count();
    for line in &lines[1..] {
        assert_eq!(line.split(',').count(), columns);
    }
    assert_eq!(lines[2], "Mon Jan  1 00:00:00 2024,3,,61.00,180,85,1.50");
}

#[test]
fn chunk_without_header() {
    assert_eq!(log_chunk_text(false, "x,y"), "x,y\n");
    assert_eq!(log_chunk_text(true, "x"), format!("{}\nx\n", HEADER));
}

//! The results log: one comma-separated row per finished session, below a
//! header row that is written once, when the log is created.
use vstd::prelude::*;
use vstd::string::*;

use crate::session::Thok;

verus! {

/// The character of a decimal digit.
pub open spec fn digit_char(d: nat) -> char {
    if d == 0 {
        '0'
    } else if d == 1 {
        '1'
    } else if d == 2 {
        '2'
    } else if d == 3 {
        '3'
    } else if d == 4 {
        '4'
    } else if d == 5 {
        '5'
    } else if d == 6 {
        '6'
    } else if d == 7 {
        '7'
    } else if d == 8 {
        '8'
    } else {
        '9'
    }
}

/// Decimal notation of `n`, without leading zeros.
pub open spec fn decimal(n: nat) -> Seq<char>
    decreases n,
{
    if n < 10 {
        seq![digit_char(n)]
    } else {
        decimal(n / 10).push(digit_char(n % 10))
    }
}

/// A count of hundredths written with two decimal places.
pub open spec fn centi_text(c: nat) -> Seq<char> {
    decimal(c / 100) + seq!['.', digit_char((c % 100) / 10), digit_char(c % 10)]
}

/// Milliseconds as hundredths of a second, rounded half up.
pub open spec fn millis_to_centi(ms: nat) -> nat {
    (ms + 5) / 10
}

/// Fields joined by commas.
pub open spec fn join_fields(f: Seq<Seq<char>>) -> Seq<char>
    decreases f.len(),
{
    if f.len() == 0 {
        seq![]
    } else if f.len() == 1 {
        f[0]
    } else {
        join_fields(f.drop_last()) + seq![','] + f.last()
    }
}

/// Number of commas in `s`.
pub open spec fn comma_count(s: Seq<char>) -> nat
    decreases s.len(),
{
    if s.len() == 0 {
        0
    } else {
        comma_count(s.drop_last()) + if s.last() == ',' {
            1nat
        } else {
            0nat
        }
    }
}

/// Number of comma-separated columns of a line.
pub open spec fn column_count(s: Seq<char>) -> nat {
    comma_count(s) + 1
}

/// The column names, in order.
pub open spec fn header_fields() -> Seq<Seq<char>> {
    seq![
        "date"@,
        "num_words"@,
        "num_secs"@,
        "elapsed_secs"@,
        "wpm"@,
        "accuracy"@,
        "std_dev"@,
    ]
}

/// The header row.
pub open spec fn header_text() -> Seq<char> {
    join_fields(header_fields())
}

/// The fields of a row: date, word count, configured duration (empty when
/// untimed), elapsed seconds, words per minute, accuracy and standard
/// deviation.
pub open spec fn row_fields(
    date: Seq<char>,
    words: nat,
    secs: Option<u64>,
    elapsed_ms: nat,
    wpm: nat,
    accuracy: nat,
    std_dev_centi: nat,
) -> Seq<Seq<char>> {
    seq![
        date,
        decimal(words),
        match secs {
            Some(s) => decimal(s as nat) + seq!['.', '0', '0'],
            None => seq![],
        },
        centi_text(millis_to_centi(elapsed_ms)),
        decimal(wpm),
        decimal(accuracy),
        centi_text(std_dev_centi),
    ]
}

/// What is appended to the log for one row: the header first when the log
/// is new, and each line ended by a newline.
pub open spec fn log_chunk(needs_header: bool, row: Seq<char>) -> Seq<char> {
    if needs_header {
        header_text() + seq!['\n'] + row + seq!['\n']
    } else {
        row + seq!['\n']
    }
}

/// The log after appending `rows` in turn to a fresh log, each with a header
/// exactly when the log was still empty.
pub open spec fn log_after(rows: Seq<Seq<char>>) -> Seq<char>
    decreases rows.len(),
{
    if rows.len() == 0 {
        seq![]
    } else {
        let prev = log_after(rows.drop_last());
        prev + log_chunk(prev.len() == 0, rows.last())
    }
}

/// Lines, each ended by a newline.
pub open spec fn lines_text(lines: Seq<Seq<char>>) -> Seq<char>
    decreases lines.len(),
{
    if lines.len() == 0 {
        seq![]
    } else {
        lines_text(lines.drop_last()) + lines.last() + seq!['\n']
    }
}

/// The text of one decimal digit.
fn digit_str(d: u64) -> (r: &'static str)
    requires
        d < 10,
    ensures
        r@ == seq![digit_char(d as nat)],
{
    if d == 0 {
        proof { reveal_strlit("0"); }
        "0"
    } else if d == 1 {
        proof { reveal_strlit("1"); }
        "1"
    } else if d == 2 {
        proof { reveal_strlit("2"); }
        "2"
    } else if d == 3 {
        proof { reveal_strlit("3"); }
        "3"
    } else if d == 4 {
        proof { reveal_strlit("4"); }
        "4"
    } else if d == 5 {
        proof { reveal_strlit("5"); }
        "5"
    } else if d == 6 {
        proof { reveal_strlit("6"); }
        "6"
    } else if d == 7 {
        proof { reveal_strlit("7"); }
        "7"
    } else if d == 8 {
        proof { reveal_strlit("8"); }
        "8"
    } else {
        proof { reveal_strlit("9"); }
        "9"
    }
}

/// Appends the decimal notation of `n`.
pub fn push_decimal(out: &mut String, n: u64)
    ensures
        final(out)@ == old(out)@ + decimal(n as nat),
    decreases n,
{
    if n < 10 {
        out.append(digit_str(n));
    } else {
        push_decimal(out, n / 10);
        out.append(digit_str(n % 10));
        assert(out@ =~= old(out)@ + decimal(n as nat));
    }
}

/// Appends a count of hundredths with two decimal places.
fn push_centi(out: &mut String, c: u64)
    ensures
        final(out)@ == old(out)@ + centi_text(c as nat),
{
    push_decimal(out, c / 100);
    proof { reveal_strlit("."); }
    out.append(".");
    out.append(digit_str((c % 100) / 10));
    out.append(digit_str(c % 10));
    assert(out@ =~= old(out)@ + centi_text(c as nat));
}

/// The views of some strings.
pub open spec fn views(f: Seq<String>) -> Seq<Seq<char>> {
    f.map_values(|s: String| s@)
}

/// Joins fields with commas, see [`join_fields`].
fn join_with_commas(fields: &Vec<String>) -> (r: String)
    ensures
        r@ == join_fields(views(fields@)),
{
    let mut r = String::from_str("");
    proof { reveal_strlit(""); reveal_strlit(","); }
    let mut i: usize = 0;
    while i < fields.len()
        invariant
            0 <= i <= fields@.len(),
            r@ == join_fields(views(fields@.subrange(0, i as int))),
        decreases fields@.len() - i,
    {
        let ghost pre = views(fields@.subrange(0, i as int));
        let ghost next = views(fields@.subrange(0, i + 1));
        assert(next.drop_last() =~= pre);
        assert(next.last() == fields@[i as int]@);
        if i > 0 {
            proof { reveal_strlit(","); }
            r.append(",");
        }
        r.append(fields[i].as_str());
        if i == 0 {
            assert(r@ =~= next[0]);
        } else {
            assert(r@ =~= join_fields(pre) + seq![','] + next.last());
        }
        i = i + 1;
    }
    assert(fields@.subrange(0, fields@.len() as int) =~= fields@);
    r
}

/// The header row, see [`header_text`].
pub fn log_header() -> (r: String)
    ensures
        r@ == header_text(),
{
    let mut f: Vec<String> = Vec::new();
    proof {
        reveal_strlit("date");
        reveal_strlit("num_words");
        reveal_strlit("num_secs");
        reveal_strlit("elapsed_secs");
        reveal_strlit("wpm");
        reveal_strlit("accuracy");
        reveal_strlit("std_dev");
    }
    f.push(String::from_str("date"));
    f.push(String::from_str("num_words"));
    f.push(String::from_str("num_secs"));
    f.push(String::from_str("elapsed_secs"));
    f.push(String::from_str("wpm"));
    f.push(String::from_str("accuracy"));
    f.push(String::from_str("std_dev"));
    assert(views(f@) =~= header_fields());
    join_with_commas(&f)
}

/// What to append to the log for `row`, see [`log_chunk`].
pub fn log_chunk_text(needs_header: bool, row: &str) -> (r: String)
    ensures
        r@ == log_chunk(needs_header, row@),
{
    proof { reveal_strlit("\n"); }
    let mut r = if needs_header {
        let mut h = log_header();
        h.append("\n");
        h
    } else {
        String::from_str("")
    };
    proof { reveal_strlit(""); }
    r.append(row);
    r.append("\n");
    r
}

impl Thok {
    /// The log row of this session, dated `date`, after `elapsed_ms`
    /// milliseconds, see [`row_fields`].
    pub fn results_row(&self, date: &str, elapsed_ms: u64) -> (r: String)
        ensures
            r@ == join_fields(
                row_fields(
                    date@,
                    self.number_of_words as nat,
                    self.number_of_secs,
                    elapsed_ms as nat,
                    self.wpm as nat,
                    self.accuracy as nat,
                    self.std_dev_centi as nat,
                ),
            ),
    {
        let mut f: Vec<String> = Vec::new();
        f.push(String::from_str(date));
        let mut words = String::from_str("");
        proof { reveal_strlit(""); }
        push_decimal(&mut words, self.number_of_words as u64);
        f.push(words);
        let mut secs = String::from_str("");
        if let Some(s) = self.number_of_secs {
            push_decimal(&mut secs, s);
            proof { reveal_strlit(".00"); }
            secs.append(".00");
            assert(secs@ =~= decimal(s as nat) + seq!['.', '0', '0']);
        }
        assert(secs@ == match self.number_of_secs {
            Some(s) => decimal(s as nat) + seq!['.', '0', '0'],
            None => Seq::<char>::empty(),
        });
        f.push(secs);
        let mut elapsed = String::from_str("");
        let centi: u64 = elapsed_ms / 10 + if elapsed_ms % 10 >= 5 { 1 } else { 0 };
        assert(centi == millis_to_centi(elapsed_ms as nat));
        push_centi(&mut elapsed, centi);
        f.push(elapsed);
        let mut wpm = String::from_str("");
        push_decimal(&mut wpm, self.wpm);
        f.push(wpm);
        let mut acc = String::from_str("");
        push_decimal(&mut acc, self.accuracy);
        f.push(acc);
        let mut sd = String::from_str("");
        push_centi(&mut sd, self.std_dev_centi);
        f.push(sd);
        assert(views(f@) =~= row_fields(
            date@,
            self.number_of_words as nat,
            self.number_of_secs,
            elapsed_ms as nat,
            self.wpm as nat,
            self.accuracy as nat,
            self.std_dev_centi as nat,
        ));
        join_with_commas(&f)
    }
}

/// Commas add up over a concatenation.
pub proof fn lemma_comma_count_concat(a: Seq<char>, b: Seq<char>)
    ensures
        comma_count(a + b) == comma_count(a) + comma_count(b),
    decreases b.len(),
{
    if b.len() > 0 {
        assert((a + b).drop_last() =~= a + b.drop_last());
        lemma_comma_count_concat(a, b.drop_last());
    } else {
        assert(a + b =~= a);
    }
}

/// A number in decimal holds no comma.
pub proof fn lemma_decimal_no_comma(n: nat)
    ensures
        comma_count(decimal(n)) == 0,
    decreases n,
{
    if n < 10 {
        lemma_no_comma(seq![digit_char(n)]);
    } else {
        lemma_decimal_no_comma(n / 10);
        lemma_no_comma(seq![digit_char(n % 10)]);
        assert(decimal(n) =~= decimal(n / 10) + seq![digit_char(n % 10)]);
        lemma_comma_count_concat(decimal(n / 10), seq![digit_char(n % 10)]);
    }
}

/// Hundredths with two decimal places hold no comma.
pub proof fn lemma_centi_no_comma(c: nat)
    ensures
        comma_count(centi_text(c)) == 0,
{
    let tail = seq!['.', digit_char((c % 100) / 10), digit_char(c % 10)];
    lemma_decimal_no_comma(c / 100);
    lemma_comma_count_concat(decimal(c / 100), tail);
    lemma_no_comma(tail);
}

/// Joining comma-free fields gives one column per field.
pub proof fn lemma_join_columns(f: Seq<Seq<char>>)
    requires
        f.len() >= 1,
        forall|i: int| 0 <= i < f.len() ==> comma_count(#[trigger] f[i]) == 0,
    ensures
        column_count(join_fields(f)) == f.len(),
    decreases f.len(),
{
    if f.len() > 1 {
        let g = f.drop_last();
        assert forall|i: int| 0 <= i < g.len() implies comma_count(#[trigger] g[i]) == 0 by {
            assert(g[i] == f[i]);
        }
        lemma_join_columns(g);
        lemma_comma_count_concat(join_fields(g), seq![',']);
        lemma_comma_count_concat(join_fields(g) + seq![','], f.last());
        assert(seq![','].drop_last() =~= Seq::<char>::empty());
        assert(comma_count(Seq::<char>::empty()) == 0);
        assert(comma_count(seq![',']) == 1);
        assert(join_fields(f) == join_fields(g) + seq![','] + f.last());
    }
}

/// The header row has seven columns.
pub proof fn lemma_header_columns()
    ensures
        column_count(header_text()) == 7,
{
    reveal_strlit("date");
    reveal_strlit("num_words");
    reveal_strlit("num_secs");
    reveal_strlit("elapsed_secs");
    reveal_strlit("wpm");
    reveal_strlit("accuracy");
    reveal_strlit("std_dev");
    let f = header_fields();
    assert forall|i: int| 0 <= i < f.len() implies comma_count(#[trigger] f[i]) == 0 by {
        let s = f[i];
        assert forall|k: int| 0 <= k < s.len() implies s[k] != ',' by {}
        lemma_no_comma(s);
    }
    lemma_join_columns(f);
}

/// A sequence without the comma character counts no comma.
pub proof fn lemma_no_comma(s: Seq<char>)
    requires
        forall|k: int| 0 <= k < s.len() ==> s[k] != ',',
    ensures
        comma_count(s) == 0,
    decreases s.len(),
{
    if s.len() > 0 {
        lemma_no_comma(s.drop_last());
    }
}

/// Every row has as many columns as the header, whatever the session's
/// figures, as long as the date holds no comma.
pub proof fn lemma_row_columns(
    date: Seq<char>,
    words: nat,
    secs: Option<u64>,
    elapsed_ms: nat,
    wpm: nat,
    accuracy: nat,
    std_dev_centi: nat,
)
    requires
        comma_count(date) == 0,
    ensures
        column_count(join_fields(row_fields(date, words, secs, elapsed_ms, wpm, accuracy, std_dev_centi)))
            == column_count(header_text()),
{
    let f = row_fields(date, words, secs, elapsed_ms, wpm, accuracy, std_dev_centi);
    lemma_decimal_no_comma(words);
    lemma_decimal_no_comma(wpm);
    lemma_decimal_no_comma(accuracy);
    lemma_centi_no_comma(millis_to_centi(elapsed_ms));
    lemma_centi_no_comma(std_dev_centi);
    if let Some(s) = secs {
        lemma_decimal_no_comma(s as nat);
        lemma_no_comma(seq!['.', '0', '0']);
        lemma_comma_count_concat(decimal(s as nat), seq!['.', '0', '0']);
    } else {
        lemma_no_comma(Seq::<char>::empty());
    }
    lemma_join_columns(f);
    lemma_header_columns();
}

/// Appending rows in turn to a fresh log writes the header exactly once, at
/// the top, followed by one line per row.
pub proof fn lemma_log_after(rows: Seq<Seq<char>>)
    requires
        rows.len() >= 1,
    ensures
        log_after(rows) == header_text() + seq!['\n'] + lines_text(rows),
    decreases rows.len(),
{
    lemma_header_columns();
    assert(header_text().len() > 0);
    let prev = rows.drop_last();
    if rows.len() == 1 {
        assert(prev.len() == 0);
        assert(lines_text(prev) =~= Seq::<char>::empty());
        assert(log_after(rows) =~= header_text() + seq!['\n'] + lines_text(rows));
    } else {
        lemma_log_after(prev);
        assert(log_after(prev).len() > 0);
        assert(log_after(rows) =~= header_text() + seq!['\n'] + lines_text(rows));
    }
}

} // verus!

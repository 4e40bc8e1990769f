//! Statistics over a finished session: time buckets, speed, accuracy and
//! consistency, all carried in integer milliseconds.
use itertools::Itertools;
use vstd::prelude::*;

use crate::keystroke::{Input, Outcome};

verus! {

/// Milliseconds in one second.
pub const MILLIS_PER_SEC: u64 = 1000;

/// Whole seconds covering `ms` milliseconds, rounded up.
pub open spec fn ceil_secs(ms: nat) -> nat {
    (ms + 999) / 1000
}

/// The second marker (in milliseconds) of a keystroke typed `offset`
/// milliseconds after the start of a session that lasted `elapsed`
/// milliseconds: an offset of zero belongs to the first second, an offset
/// whose rounded-up second fits in the whole elapsed seconds goes to that
/// second, and any later one to the raw elapsed time.
pub open spec fn bucket_marker(offset: nat, elapsed: nat) -> nat {
    if offset == 0 {
        1000
    } else if ceil_secs(offset) <= elapsed / 1000 {
        ceil_secs(offset) * 1000
    } else {
        elapsed
    }
}

/// Percentage of correct keystrokes, rounded half away from zero; zero for
/// an empty log.
pub open spec fn accuracy_of(correct: nat, total: nat) -> nat {
    if total == 0 {
        0
    } else {
        (200 * correct + total) / (2 * total)
    }
}

/// Words per minute, rounded up, for `words` correct words over `elapsed`
/// milliseconds; zero when no time has passed.
pub open spec fn wpm_of(words: nat, elapsed: nat) -> nat {
    if elapsed == 0 {
        0
    } else {
        ((words * 60000 + elapsed - 1) / (elapsed as int)) as nat
    }
}

/// The time bucket of a keystroke, see [`bucket_marker`].
pub fn bucket_marker_ms(offset_ms: u64, elapsed_ms: u64) -> (r: u64)
    ensures
        r == bucket_marker(offset_ms as nat, elapsed_ms as nat),
{
    if offset_ms == 0 {
        return MILLIS_PER_SEC;
    }
    let whole: u64 = offset_ms / MILLIS_PER_SEC;
    let ceil: u64 = if offset_ms % MILLIS_PER_SEC == 0 { whole } else { whole + 1 };
    assert(ceil as nat == ceil_secs(offset_ms as nat));
    if ceil <= elapsed_ms / MILLIS_PER_SEC {
        ceil * MILLIS_PER_SEC
    } else {
        elapsed_ms
    }
}

/// Rounded percentage of correct keystrokes among `total`.
pub fn accuracy_percent(correct: usize, total: usize) -> (r: u64)
    requires
        correct <= total,
    ensures
        r == accuracy_of(correct as nat, total as nat),
        r <= 100,
{
    if total == 0 {
        return 0;
    }
    let num: u128 = 200 * (correct as u128) + (total as u128);
    let den: u128 = 2 * (total as u128);
    assert(num <= 201 * (total as u128)) by (nonlinear_arith)
        requires
            num == 200 * (correct as u128) + (total as u128),
            correct <= total,
    ;
    assert(num / den <= 100) by (nonlinear_arith)
        requires
            num <= 201 * (total as u128),
            den == 2 * (total as u128),
            total > 0,
    ;
    (num / den) as u64
}

/// Words per minute, rounded up, for `words` correct words typed over
/// `elapsed_ms` milliseconds, saturated at the largest `u64`.
pub fn words_per_minute(words: usize, elapsed_ms: u64) -> (r: u64)
    ensures
        r == if wpm_of(words as nat, elapsed_ms as nat) <= u64::MAX {
            wpm_of(words as nat, elapsed_ms as nat)
        } else {
            u64::MAX as nat
        },
{
    if elapsed_ms == 0 {
        return 0;
    }
    let num: u128 = (words as u128) * 60000 + (elapsed_ms as u128) - 1;
    let q: u128 = num / (elapsed_ms as u128);
    assert(q <= (words as u128) * 60000 + (elapsed_ms as u128)) by (nonlinear_arith)
        requires
            q == num / (elapsed_ms as u128),
            elapsed_ms >= 1,
            num == (words as u128) * 60000 + (elapsed_ms as u128) - 1,
    ;
    if q > u64::MAX as u128 {
        u64::MAX
    } else {
        q as u64
    }
}


/// Relies on itertools::Itertools::sorted, which collects the items into a
/// `Vec` and sorts it: the same values come out, in ascending order.
#[verifier::external_body]
fn sorted_markers(v: Vec<u64>) -> (r: Vec<u64>)
    ensures
        r@.to_multiset() == v@.to_multiset(),
        forall|i: int, j: int| 0 <= i <= j < r@.len() ==> r@[i] <= r@[j],
{
    v.into_iter().sorted().collect()
}

/// Sum of the counts of a histogram.
pub open spec fn total_count(h: Seq<(u64, u64)>) -> nat
    decreases h.len(),
{
    if h.len() == 0 {
        0
    } else {
        total_count(h.drop_last()) + h.last().1 as nat
    }
}

/// `h` counts the markers of `ms`: one entry per distinct marker, in
/// strictly ascending order, each with the number of times it occurs.
pub open spec fn is_histogram(h: Seq<(u64, u64)>, ms: Seq<u64>) -> bool {
    &&& forall|i: int, j: int| 0 <= i < j < h.len() ==> h[i].0 < h[j].0
    &&& forall|i: int|
        0 <= i < h.len() ==> h[i].1 > 0 && #[trigger] h[i].1 == ms.to_multiset().count(h[i].0)
    &&& forall|k: int|
        #![trigger ms[k]]
        0 <= k < ms.len() ==> exists|i: int| #![trigger h[i]] 0 <= i < h.len() && h[i].0 == ms[k]
}

/// Counts the markers into time-ordered buckets.
pub fn histogram(markers: Vec<u64>) -> (h: Vec<(u64, u64)>)
    ensures
        is_histogram(h@, markers@),
        h@.len() <= markers@.len(),
        total_count(h@) == markers@.len(),
        forall|j: int| 0 <= j < h@.len() ==> #[trigger] h@[j].1 <= markers@.len(),
{
    let ghost orig = markers@;
    let s = sorted_markers(markers);
    proof {
        s@.to_multiset_ensures();
        orig.to_multiset_ensures();
    }
    let mut h: Vec<(u64, u64)> = Vec::new();
    let mut i: usize = 0;
    while i < s.len()
        invariant
            0 <= i <= s@.len(),
            forall|a: int, b: int| 0 <= a <= b < s@.len() ==> s@[a] <= s@[b],
            h@.len() <= i,
            i == 0 ==> h@.len() == 0,
            i > 0 ==> h@.len() > 0 && h@.last().0 == s@[i - 1],
            is_histogram(h@, s@.subrange(0, i as int)),
            forall|j: int| 0 <= j < h@.len() ==> h@[j].1 <= i,
            total_count(h@) == i,
            s@.len() == orig.len(),
        decreases s@.len() - i,
    {
        let m = s[i];
        let ghost p = s@.subrange(0, i as int);
        let ghost p2 = s@.subrange(0, i + 1);
        assert(p2 =~= p.push(m));
        proof {
            p.to_multiset_ensures();
        }
        assert(p2.to_multiset() =~= p.to_multiset().insert(m));
        let n = h.len();
        let ghost old_h = h@;
        if n > 0 && h[n - 1].0 == m {
            let last = h[n - 1];
            h.set(n - 1, (m, last.1 + 1));
            assert(h@.drop_last() =~= old_h.drop_last());
            assert forall|j: int| 0 <= j < h@.len() implies h@[j].1 > 0 && #[trigger] h@[j].1
                == p2.to_multiset().count(h@[j].0) by {
                if j < n - 1 {
                    assert(old_h[j].0 < old_h[n - 1].0);
                    assert(h@[j] == old_h[j]);
                }
            }
            assert forall|k: int| #![trigger p2[k]] 0 <= k < p2.len() implies exists|j: int|
                #![trigger h@[j]] 0 <= j < h@.len() && h@[j].0 == p2[k] by {
                if k < i {
                    assert(p[k] == p2[k]);
                    let j = choose|j: int| 0 <= j < old_h.len() && old_h[j].0 == p[k];
                    assert(h@[j].0 == p2[k]);
                } else {
                    assert(h@[n - 1].0 == p2[k]);
                }
            }
        } else {
            assert forall|k: int| 0 <= k < p.len() implies p[k] < m by {
                assert(p[k] == s@[k]);
                assert(s@[k] <= s@[i - 1]);
            }
            assert(!p.contains(m));
            h.push((m, 1));
            assert(h@.drop_last() =~= old_h);
            assert forall|j: int| 0 <= j < h@.len() implies h@[j].1 > 0 && #[trigger] h@[j].1
                == p2.to_multiset().count(h@[j].0) by {
                if j < n {
                    assert(h@[j] == old_h[j]);
                    assert(p.to_multiset().count(old_h[j].0) > 0);
                    assert(old_h[j].0 != m);
                }
            }
            assert forall|a: int, b: int| 0 <= a < b < h@.len() implies h@[a].0 < h@[b].0 by {
                if b == n {
                    if n > 0 {
                        assert(old_h[a].0 <= old_h[n - 1].0);
                    }
                }
            }
            assert forall|k: int| #![trigger p2[k]] 0 <= k < p2.len() implies exists|j: int|
                #![trigger h@[j]] 0 <= j < h@.len() && h@[j].0 == p2[k] by {
                if k < i {
                    assert(p[k] == p2[k]);
                    let j = choose|j: int| 0 <= j < old_h.len() && old_h[j].0 == p[k];
                    assert(h@[j].0 == p2[k]);
                } else {
                    assert(h@[n as int].0 == p2[k]);
                }
            }
        }
        i = i + 1;
    }
    assert(s@.subrange(0, s@.len() as int) =~= s@);
    proof {
        s@.to_multiset_ensures();
        orig.to_multiset_ensures();
        assert forall|k: int| #![trigger orig[k]] 0 <= k < orig.len() implies exists|j: int|
            #![trigger h@[j]] 0 <= j < h@.len() && h@[j].0 == orig[k] by {
            assert(orig.contains(orig[k]));
            assert(orig.to_multiset().count(orig[k]) > 0);
            assert(s@.to_multiset().count(orig[k]) > 0);
            assert(s@.contains(orig[k]));
            let t = choose|t: int| 0 <= t < s@.len() && s@[t] == orig[k];
            assert(s@[t] == orig[k]);
        }
    }
    h
}


/// Largest number of buckets, and of keystrokes in one bucket, that the
/// consistency figure is computed for (its arithmetic is carried in 128 bits).
pub const MAX_SAMPLES: u64 = 16777216;

/// Sum of the values.
pub open spec fn sum_of(c: Seq<u64>) -> nat
    decreases c.len(),
{
    if c.len() == 0 {
        0
    } else {
        sum_of(c.drop_last()) + c.last() as nat
    }
}

/// Sum of the squared values.
pub open spec fn sum_sq(c: Seq<u64>) -> nat
    decreases c.len(),
{
    if c.len() == 0 {
        0
    } else {
        sum_sq(c.drop_last()) + (c.last() as nat) * (c.last() as nat)
    }
}

/// The population variance of `c` times the square of its length.
pub open spec fn spread(c: Seq<u64>) -> int {
    c.len() * sum_sq(c) - sum_of(c) * sum_of(c)
}

/// `r` is the population standard deviation of `c` in hundredths, rounded
/// half up: `r - 1/2 <= 100 * sqrt(spread(c)) / n < r + 1/2`, squared out.
/// An empty sequence has deviation zero.
pub open spec fn is_std_dev_centi(c: Seq<u64>, r: nat) -> bool {
    let n = c.len() as int;
    let x = 40000 * spread(c);
    if n == 0 {
        r == 0
    } else {
        &&& (r == 0 || (2 * r - 1) * (2 * r - 1) * (n * n) <= x)
        &&& x < (2 * r + 1) * (2 * r + 1) * (n * n)
    }
}

/// Every value, and the length, are at most [`MAX_SAMPLES`].
pub open spec fn samples_in_range(c: Seq<u64>) -> bool {
    c.len() <= MAX_SAMPLES && forall|i: int| 0 <= i < c.len() ==> c[i] <= MAX_SAMPLES
}

/// Whether the lower edge of the rounding interval around `r` stays within
/// `x`, for a squared length `n2`.
fn within(r: u128, n2: u128, x: u128) -> (b: bool)
    requires
        r >= 1,
        n2 >= 1,
        r <= x + 2,
        x <= 0x1_0000_0000_0000_0000_0000_0000_0000,
    ensures
        b == ((2 * r - 1) * (2 * r - 1) * n2 <= x),
{
    let a: u128 = 2 * r - 1;
    match a.checked_mul(a) {
        None => {
            assert((2 * r - 1) * (2 * r - 1) * n2 > x) by (nonlinear_arith)
                requires
                    (a as int) * (a as int) > u128::MAX,
                    a == 2 * r - 1,
                    n2 >= 1,
                    x <= u128::MAX,
            ;
            false
        },
        Some(aa) => match aa.checked_mul(n2) {
            None => false,
            Some(v) => v <= x,
        },
    }
}

/// Population standard deviation of `counts`, in hundredths, rounded half up.
pub fn std_dev_centi(counts: &Vec<u64>) -> (r: u64)
    requires
        samples_in_range(counts@),
    ensures
        is_std_dev_centi(counts@, r as nat),
{
    let n: usize = counts.len();
    if n == 0 {
        return 0;
    }
    let ghost m = MAX_SAMPLES as int;
    let mut sum: u128 = 0;
    let mut sq: u128 = 0;
    let mut i: usize = 0;
    while i < n
        invariant
            n == counts@.len(),
            samples_in_range(counts@),
            0 <= i <= n,
            sum == sum_of(counts@.subrange(0, i as int)),
            sq == sum_sq(counts@.subrange(0, i as int)),
            sum <= i * m,
            sq <= i * (m * m),
            m == MAX_SAMPLES,
        decreases n - i,
    {
        let v: u64 = counts[i];
        assert(counts@[i as int] <= MAX_SAMPLES);
        assert(v <= m);
        assert(n <= m);
        assert(counts@.subrange(0, i + 1).drop_last() =~= counts@.subrange(0, i as int));
        assert(sum + v <= (i + 1) * m && (i + 1) * m <= m * m) by (nonlinear_arith)
            requires
                sum <= i * m,
                0 <= v <= m,
                i < n <= m,
        ;
        assert((v as int) * (v as int) <= m * m) by (nonlinear_arith)
            requires
                0 <= v <= m,
        ;
        assert(sq + (v as int) * (v as int) <= (i + 1) * (m * m) && (i + 1) * (m * m) <= m * (m * m)) by (nonlinear_arith)
            requires
                sq <= i * (m * m),
                (v as int) * (v as int) <= m * m,
                i < n <= m,
        ;
        sum = sum + v as u128;
        sq = sq + (v as u128) * (v as u128);
        i = i + 1;
    }
    assert(counts@.subrange(0, n as int) =~= counts@);
    let nn: u128 = n as u128;
    assert(nn * sq <= m * (m * (m * m))) by (nonlinear_arith)
        requires
            nn <= m,
            sq <= nn * (m * m),
            m > 0,
    ;
    assert(sum * sum <= m * (m * (m * m))) by (nonlinear_arith)
        requires
            sum <= nn * m,
            nn <= m,
            m > 0,
    ;
    let ns: u128 = nn * sq;
    let ss: u128 = sum * sum;
    if ns <= ss {
        // No spread: the deviation is zero.
        assert(40000 * spread(counts@) < 1 * 1 * ((n as int) * (n as int))) by (nonlinear_arith)
            requires
                spread(counts@) == (ns as int) - (ss as int),
                ns <= ss,
                n >= 1,
        ;
        return 0;
    }
    let x: u128 = 40000 * (ns - ss);
    assert(nn * nn <= m * m) by (nonlinear_arith)
        requires
            nn <= m,
    ;
    let n2: u128 = nn * nn;
    assert(n2 >= 1) by (nonlinear_arith)
        requires
            n2 == nn * nn,
            nn >= 1,
    ;
    let mut lo: u128 = 0;
    let mut hi: u128 = x + 2;
    assert((2 * hi - 1) * (2 * hi - 1) * n2 > x) by (nonlinear_arith)
        requires
            hi == x + 2,
            n2 >= 1,
    ;
    while hi - lo > 1
        invariant
            lo < hi <= x + 2,
            n2 >= 1,
            x <= 0x1_0000_0000_0000_0000_0000_0000_0000,
            lo == 0 || (2 * lo - 1) * (2 * lo - 1) * n2 <= x,
            (2 * hi - 1) * (2 * hi - 1) * n2 > x,
        decreases hi - lo,
    {
        let mid: u128 = lo + (hi - lo) / 2;
        if within(mid, n2, x) {
            lo = mid;
        } else {
            hi = mid;
        }
    }
    assert(lo < 0x1_0000_0000_0000_0000) by (nonlinear_arith)
        requires
            lo == 0 || (2 * lo - 1) * (2 * lo - 1) * n2 <= x,
            n2 >= 1,
            x <= 0x1_0000_0000_0000_0000_0000_0000_0000,
    {
        if lo >= 0x1_0000_0000_0000_0000 {
            assert((2 * lo - 1) * (2 * lo - 1) >= (2 * lo - 1) * 0x1_0000_0000_0000_0000);
            assert((2 * lo - 1) * 0x1_0000_0000_0000_0000 > x);
            assert((2 * lo - 1) * (2 * lo - 1) * n2 >= (2 * lo - 1) * (2 * lo - 1));
        }
    }
    assert(hi == lo + 1);
    assert(spread(counts@) == (ns as int) - (ss as int));
    assert(n2 == (n as int) * (n as int));
    lo as u64
}

/// Milliseconds from `start` to `ts`, zero if `ts` lies before `start`.
pub open spec fn offset_of(ts: u64, start: u64) -> nat {
    if ts >= start {
        (ts - start) as nat
    } else {
        0
    }
}

/// The time markers of the correct keystrokes of `keys`, in order, for a
/// session started at `start` that lasted `elapsed` milliseconds.
pub open spec fn correct_markers(keys: Seq<Input>, start: u64, elapsed: nat) -> Seq<u64>
    decreases keys.len(),
{
    if keys.len() == 0 {
        seq![]
    } else {
        let prev = correct_markers(keys.drop_last(), start, elapsed);
        if keys.last().outcome == Outcome::Correct {
            prev.push(bucket_marker(offset_of(keys.last().timestamp, start), elapsed) as u64)
        } else {
            prev
        }
    }
}

/// Number of correct keystrokes.
pub open spec fn count_correct(keys: Seq<Input>) -> nat
    decreases keys.len(),
{
    if keys.len() == 0 {
        0
    } else {
        count_correct(keys.drop_last()) + if keys.last().outcome == Outcome::Correct {
            1nat
        } else {
            0nat
        }
    }
}

/// Whether the piece after the last space of `keys` holds no incorrect
/// keystroke.
pub open spec fn open_piece_clean(keys: Seq<Input>) -> bool
    decreases keys.len(),
{
    keys.len() == 0 || keys.last().char == ' ' || (keys.last().outcome == Outcome::Correct
        && open_piece_clean(keys.drop_last()))
}

/// Number of pieces ended by a space that hold no incorrect keystroke.
pub open spec fn closed_clean_pieces(keys: Seq<Input>) -> nat
    decreases keys.len(),
{
    if keys.len() == 0 {
        0
    } else if keys.last().char == ' ' {
        closed_clean_pieces(keys.drop_last()) + if open_piece_clean(keys.drop_last()) {
            1nat
        } else {
            0nat
        }
    } else {
        closed_clean_pieces(keys.drop_last())
    }
}

/// Number of words typed without error: the keystrokes are split at every
/// space (empty pieces included) and a piece counts when none of its
/// keystrokes is incorrect.
pub open spec fn correct_words(keys: Seq<Input>) -> nat {
    closed_clean_pieces(keys) + if open_piece_clean(keys) {
        1nat
    } else {
        0nat
    }
}

/// Speed in thousandths of a word per minute after `total` correct
/// keystrokes at `marker` milliseconds (five keystrokes to a word); zero at
/// time zero.
pub open spec fn speed_milli(marker: nat, total: nat) -> nat {
    if marker == 0 {
        0
    } else {
        12_000_000 * total / marker
    }
}

/// The cumulative speed curve of a histogram: one sample per bucket, with
/// the speed of all correct keystrokes up to and including that bucket.
pub open spec fn speed_samples(h: Seq<(u64, u64)>) -> Seq<(u64, u64)>
    decreases h.len(),
{
    if h.len() == 0 {
        seq![]
    } else {
        speed_samples(h.drop_last()).push(
            (h.last().0, speed_milli(h.last().0 as nat, total_count(h)) as u64),
        )
    }
}

/// The bucket counts that the consistency figure is taken over: all but the
/// last (incomplete) bucket.
pub open spec fn steady_counts(h: Seq<(u64, u64)>) -> Seq<u64> {
    if h.len() == 0 {
        seq![]
    } else {
        h.drop_last().map_values(|e: (u64, u64)| e.1)
    }
}

/// The time markers of the correct keystrokes, see [`correct_markers`].
pub fn collect_markers(keys: &Vec<Input>, start: u64, elapsed_ms: u64) -> (r: Vec<u64>)
    ensures
        r@ == correct_markers(keys@, start, elapsed_ms as nat),
        r@.len() == count_correct(keys@),
        r@.len() <= keys@.len(),
{
    let mut r: Vec<u64> = Vec::new();
    let mut i: usize = 0;
    while i < keys.len()
        invariant
            0 <= i <= keys@.len(),
            r@ == correct_markers(keys@.subrange(0, i as int), start, elapsed_ms as nat),
            r@.len() == count_correct(keys@.subrange(0, i as int)),
            r@.len() <= i,
        decreases keys@.len() - i,
    {
        let k = keys[i];
        assert(keys@.subrange(0, i + 1).drop_last() =~= keys@.subrange(0, i as int));
        if k.outcome == Outcome::Correct {
            let off: u64 = if k.timestamp >= start { k.timestamp - start } else { 0 };
            r.push(bucket_marker_ms(off, elapsed_ms));
        }
        i = i + 1;
    }
    assert(keys@.subrange(0, keys@.len() as int) =~= keys@);
    r
}

/// Number of words typed without error, see [`correct_words`].
pub fn count_correct_words(keys: &Vec<Input>) -> (r: usize)
    requires
        keys@.len() < usize::MAX,
    ensures
        r == correct_words(keys@),
{
    let mut closed: usize = 0;
    let mut clean: bool = true;
    let mut i: usize = 0;
    while i < keys.len()
        invariant
            0 <= i <= keys@.len(),
            closed == closed_clean_pieces(keys@.subrange(0, i as int)),
            clean == open_piece_clean(keys@.subrange(0, i as int)),
            closed <= i,
        decreases keys@.len() - i,
    {
        let k = keys[i];
        assert(keys@.subrange(0, i + 1).drop_last() =~= keys@.subrange(0, i as int));
        if k.char == ' ' {
            if clean {
                closed = closed + 1;
            }
            clean = true;
        } else if k.outcome == Outcome::Incorrect {
            clean = false;
        }
        i = i + 1;
    }
    assert(keys@.subrange(0, keys@.len() as int) =~= keys@);
    if clean {
        closed + 1
    } else {
        closed
    }
}

/// The cumulative speed curve of a histogram, see [`speed_samples`].
pub fn speed_curve(h: &Vec<(u64, u64)>) -> (r: Vec<(u64, u64)>)
    requires
        total_count(h@) <= MAX_SAMPLES,
    ensures
        r@ == speed_samples(h@),
{
    let mut r: Vec<(u64, u64)> = Vec::new();
    let mut total: u64 = 0;
    let mut i: usize = 0;
    while i < h.len()
        invariant
            0 <= i <= h@.len(),
            total_count(h@) <= MAX_SAMPLES,
            total == total_count(h@.subrange(0, i as int)),
            r@ == speed_samples(h@.subrange(0, i as int)),
        decreases h@.len() - i,
    {
        let e = h[i];
        assert(h@.subrange(0, i + 1).drop_last() =~= h@.subrange(0, i as int));
        proof {
            lemma_total_count_prefix(h@, i + 1);
        }
        total = total + e.1;
        let speed: u64 = if e.0 == 0 { 0 } else { 12_000_000 * total / e.0 };
        r.push((e.0, speed));
        i = i + 1;
    }
    assert(h@.subrange(0, h@.len() as int) =~= h@);
    r
}

/// A prefix of a histogram counts no more than the whole.
pub proof fn lemma_total_count_prefix(h: Seq<(u64, u64)>, k: int)
    requires
        0 <= k <= h.len(),
    ensures
        total_count(h.subrange(0, k)) <= total_count(h),
    decreases h.len(),
{
    if k < h.len() {
        assert(h.drop_last().subrange(0, k) =~= h.subrange(0, k));
        lemma_total_count_prefix(h.drop_last(), k);
    } else {
        assert(h.subrange(0, k) =~= h);
    }
}

/// The counts of all buckets but the last, see [`steady_counts`].
pub fn steady_bucket_counts(h: &Vec<(u64, u64)>) -> (r: Vec<u64>)
    ensures
        r@ == steady_counts(h@),
{
    let mut r: Vec<u64> = Vec::new();
    if h.len() == 0 {
        return r;
    }
    let n: usize = h.len() - 1;
    let mut i: usize = 0;
    while i < n
        invariant
            n == h@.len() - 1,
            0 <= i <= n,
            r@ =~= h@.subrange(0, i as int).map_values(|e: (u64, u64)| e.1),
        decreases n - i,
    {
        r.push(h[i].1);
        i = i + 1;
    }
    assert(h@.drop_last() =~= h@.subrange(0, n as int));
    r
}

/// At most one more word than keystrokes.
pub proof fn lemma_correct_words_bound(keys: Seq<Input>)
    ensures
        correct_words(keys) <= keys.len() + 1,
    decreases keys.len(),
{
    if keys.len() > 0 {
        lemma_correct_words_bound(keys.drop_last());
    }
}

/// Number of correct keystrokes, see [`count_correct`].
pub fn count_correct_vec(keys: &Vec<Input>) -> (r: usize)
    ensures
        r == count_correct(keys@),
{
    let mut r: usize = 0;
    let mut i: usize = 0;
    while i < keys.len()
        invariant
            0 <= i <= keys@.len(),
            r == count_correct(keys@.subrange(0, i as int)),
            r <= i,
        decreases keys@.len() - i,
    {
        assert(keys@.subrange(0, i + 1).drop_last() =~= keys@.subrange(0, i as int));
        if keys[i].outcome == Outcome::Correct {
            r = r + 1;
        }
        i = i + 1;
    }
    assert(keys@.subrange(0, keys@.len() as int) =~= keys@);
    r
}

/// A histogram with at most one bucket has a consistency figure of exactly
/// zero: the last bucket is left out, and nothing remains.
pub proof fn lemma_flat_deviation(h: Seq<(u64, u64)>, r: nat)
    requires
        h.len() <= 1,
        is_std_dev_centi(steady_counts(h), r),
    ensures
        r == 0,
{
    if h.len() == 1 {
        assert(steady_counts(h).len() == 0);
    }
}

/// A single count has no spread: its consistency figure is zero.
pub proof fn lemma_single_count_deviation(c: Seq<u64>, r: nat)
    requires
        c.len() == 1,
        is_std_dev_centi(c, r),
    ensures
        r == 0,
{
    assert(c.drop_last().len() == 0);
    assert(sum_of(c.drop_last()) == 0);
    assert(sum_sq(c.drop_last()) == 0);
    let x = c.last() as int;
    assert(sum_of(c) == x);
    assert(sum_sq(c) == x * x);
    assert(spread(c) == 0) by (nonlinear_arith)
        requires
            spread(c) == 1 * (x * x) - x * x,
    ;
    if r > 0 {
        assert((2 * r - 1) * (2 * r - 1) * (1 * 1) > 0) by (nonlinear_arith)
            requires
                r > 0,
        ;
    }
}

/// Two strictly ascending sequences with the same elements are equal.
proof fn lemma_ascending_same_elements(a: Seq<u64>, b: Seq<u64>)
    requires
        forall|i: int, j: int| 0 <= i < j < a.len() ==> a[i] < a[j],
        forall|i: int, j: int| 0 <= i < j < b.len() ==> b[i] < b[j],
        forall|i: int| 0 <= i < a.len() ==> b.contains(#[trigger] a[i]),
        forall|j: int| 0 <= j < b.len() ==> a.contains(#[trigger] b[j]),
    ensures
        a == b,
    decreases a.len() + b.len(),
{
    if a.len() == 0 {
        if b.len() > 0 {
            assert(a.contains(b[0]));
        }
        assert(a =~= b);
    } else if b.len() == 0 {
        assert(b.contains(a[0]));
    } else {
        let x = a.last();
        let y = b.last();
        assert(b.contains(x));
        assert(a.contains(y));
        let jx = choose|j: int| 0 <= j < b.len() && b[j] == x;
        let iy = choose|i: int| 0 <= i < a.len() && a[i] == y;
        assert(x <= y) by {
            if jx < b.len() - 1 {
                assert(b[jx] < b[b.len() - 1]);
            }
        }
        assert(y <= x) by {
            if iy < a.len() - 1 {
                assert(a[iy] < a[a.len() - 1]);
            }
        }
        let a2 = a.drop_last();
        let b2 = b.drop_last();
        assert forall|i: int| 0 <= i < a2.len() implies b2.contains(#[trigger] a2[i]) by {
            assert(a[i] < x);
            assert(b.contains(a[i]));
            let j = choose|j: int| 0 <= j < b.len() && b[j] == a[i];
            assert(j != b.len() - 1);
            assert(b2[j] == a2[i]);
        }
        assert forall|j: int| 0 <= j < b2.len() implies a2.contains(#[trigger] b2[j]) by {
            assert(b[j] < y);
            assert(a.contains(b[j]));
            let i = choose|i: int| 0 <= i < a.len() && a[i] == b[j];
            assert(i != a.len() - 1);
            assert(a2[i] == b2[j]);
        }
        lemma_ascending_same_elements(a2, b2);
        assert(a =~= a2.push(x));
        assert(b =~= b2.push(y));
    }
}

/// The markers of a histogram, in order.
pub open spec fn markers_of(h: Seq<(u64, u64)>) -> Seq<u64> {
    h.map_values(|e: (u64, u64)| e.0)
}

/// A sequence of markers has one histogram only: results stated over "the"
/// histogram of the correct keystrokes are fixed by the keystrokes.
pub proof fn lemma_histogram_unique(h1: Seq<(u64, u64)>, h2: Seq<(u64, u64)>, ms: Seq<u64>)
    requires
        is_histogram(h1, ms),
        is_histogram(h2, ms),
    ensures
        h1 == h2,
{
    ms.to_multiset_ensures();
    let a = markers_of(h1);
    let b = markers_of(h2);
    assert forall|i: int| 0 <= i < a.len() implies b.contains(#[trigger] a[i]) by {
        assert(a[i] == h1[i].0);
        assert(h1[i].1 == ms.to_multiset().count(h1[i].0));
        assert(ms.contains(a[i]));
        let k = choose|k: int| 0 <= k < ms.len() && ms[k] == a[i];
        assert(ms[k] == a[i]);
        let j = choose|j: int| 0 <= j < h2.len() && h2[j].0 == ms[k];
        assert(b[j] == a[i]);
    }
    assert forall|j: int| 0 <= j < b.len() implies a.contains(#[trigger] b[j]) by {
        assert(b[j] == h2[j].0);
        assert(h2[j].1 == ms.to_multiset().count(h2[j].0));
        assert(ms.contains(b[j]));
        let k = choose|k: int| 0 <= k < ms.len() && ms[k] == b[j];
        assert(ms[k] == b[j]);
        let i = choose|i: int| 0 <= i < h1.len() && h1[i].0 == ms[k];
        assert(a[i] == b[j]);
    }
    assert forall|i: int, j: int| 0 <= i < j < a.len() implies a[i] < a[j] by {
        assert(h1[i].0 < h1[j].0);
    }
    assert forall|i: int, j: int| 0 <= i < j < b.len() implies b[i] < b[j] by {
        assert(h2[i].0 < h2[j].0);
    }
    lemma_ascending_same_elements(a, b);
    assert(h1.len() == a.len() && a.len() == b.len() && b.len() == h2.len());
    assert forall|i: int| 0 <= i < h1.len() implies h1[i] == h2[i] by {
        assert(a[i] == b[i]);
        assert(h1[i].0 == a[i]);
        assert(h2[i].0 == b[i]);
        assert(h1[i].1 == ms.to_multiset().count(h1[i].0));
        assert(h2[i].1 == ms.to_multiset().count(h2[i].0));
    }
    assert(h1 =~= h2);
}

/// Number of space keystrokes.
pub open spec fn space_count(keys: Seq<Input>) -> nat
    decreases keys.len(),
{
    if keys.len() == 0 {
        0
    } else {
        space_count(keys.drop_last()) + if keys.last().char == ' ' {
            1nat
        } else {
            0nat
        }
    }
}

/// Keystrokes without a mistake: every space-separated word counts, all
/// keystrokes count, and the speed over one second is sixty times the number
/// of words, over three seconds twenty times.
pub proof fn lemma_clean_typing(keys: Seq<Input>)
    requires
        forall|i: int| 0 <= i < keys.len() ==> (#[trigger] keys[i]).outcome == Outcome::Correct,
    ensures
        correct_words(keys) == space_count(keys) + 1,
        count_correct(keys) == keys.len(),
        keys.len() > 0 ==> accuracy_of(count_correct(keys), keys.len()) == 100,
        wpm_of(correct_words(keys), 1000) == 60 * correct_words(keys),
        wpm_of(correct_words(keys), 3000) == 20 * correct_words(keys),
    decreases keys.len(),
{
    if keys.len() > 0 {
        let prev = keys.drop_last();
        assert forall|i: int| 0 <= i < prev.len() implies (#[trigger] prev[i]).outcome
            == Outcome::Correct by {
            assert(prev[i] == keys[i]);
        }
        lemma_clean_typing(prev);
        assert(keys.last() == keys[keys.len() - 1]);
        let n = keys.len() as int;
        assert((200 * n + n) / (2 * n) == 100) by (nonlinear_arith)
            requires
                n > 0,
        ;
    }
    let w = correct_words(keys) as int;
    assert((w * 60000 + 1000 - 1) / 1000 == 60 * w) by (nonlinear_arith)
        requires
            w >= 0,
    ;
    assert((w * 60000 + 3000 - 1) / 3000 == 20 * w) by (nonlinear_arith)
        requires
            w >= 0,
    ;
}

} // verus!

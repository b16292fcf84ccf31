//! The results of a finished session: the words-per-minute trajectory, the
//! final words per minute, the accuracy and the spread of the typing speed.

use crate::tally::{
    correct_chars_per_sec, hits, is_correct, is_tally, lands_by, lands_in, lemma_filter_witness,
    lemma_none_before, lemma_second_positive, lemma_upto_step, second_of, timeline_ok, upto,
};
use crate::thok::{Input, Outcome};
use vstd::prelude::*;

verus! {

/// One point of a trajectory: a second boundary, in milliseconds since the
/// session started, and the number of correct keystrokes made up to and
/// including that second.
#[derive(Clone, Copy, Debug, PartialEq, Eq, Structural)]
pub struct Coord {
    pub millis: u64,
    pub correct: u64,
}

/// The moments of a sample of per-second counts, from which its mean and
/// standard deviation follow exactly.
#[derive(Clone, Copy, Debug, PartialEq, Eq, Structural)]
pub struct Deviation {
    /// How many counts the sample holds.
    pub samples: u64,
    /// The sum of the counts.
    pub sum: u64,
    /// The sum of the squares of the counts.
    pub sum_squares: u128,
}

/// The results of a finished session.
#[derive(Debug)]
pub struct Metrics {
    /// The words-per-minute trajectory, one point for each second in which a
    /// correct keystroke was made.
    pub wpm_coords: Vec<Coord>,
    /// The words per minute at the end of the trajectory, rounded up.
    pub wpm: u128,
    /// The percentage of logged keystrokes that were correct.
    pub accuracy: u64,
    /// The moments of the per-second counts of all seconds but the last, or
    /// `None` where fewer than two seconds hold a correct keystroke.
    pub std_dev: Option<Deviation>,
}

/// The number of correct keystrokes of `input`.
pub open spec fn correct_count(input: Seq<Input>) -> nat {
    input.filter(|i: Input| is_correct(i)).len()
}

/// The whole percentage nearest to `correct` out of `total`; a half rounds up.
pub open spec fn accuracy_percent(correct: nat, total: nat) -> nat {
    (100 * correct + total / 2) / total
}

/// The sum of `s`.
pub open spec fn sum(s: Seq<nat>) -> nat
    decreases s.len(),
{
    if s.len() == 0 {
        0
    } else {
        sum(s.drop_last()) + s.last()
    }
}

/// The sum of the squares of the items of `s`.
pub open spec fn sum_squares(s: Seq<nat>) -> nat
    decreases s.len(),
{
    if s.len() == 0 {
        0
    } else {
        sum_squares(s.drop_last()) + s.last() * s.last()
    }
}

/// The counts of `buckets`, without their seconds.
pub open spec fn counts_of(buckets: Seq<(u64, u64)>) -> Seq<nat> {
    buckets.map_values(|b: (u64, u64)| b.1 as nat)
}

/// The items of `data` as natural numbers.
pub open spec fn values(data: Seq<u64>) -> Seq<nat> {
    data.map_values(|x: u64| x as nat)
}

/// The sum of the counts of the first `n` buckets.
pub open spec fn total(buckets: Seq<(u64, u64)>, n: int) -> nat {
    sum(counts_of(buckets).take(n))
}

/// `coords` holds one point for each second under which a correct keystroke
/// of `input` is counted, in ascending order, and each point gives the number
/// of correct keystrokes counted up to and including its second.
pub open spec fn is_trajectory(
    coords: Seq<Coord>,
    input: Seq<Input>,
    started: u64,
    elapsed: nat,
) -> bool {
    &&& forall|i: int, j: int|
        0 <= i < j < coords.len() ==> (#[trigger] coords[i]).millis < (#[trigger] coords[j]).millis
    &&& forall|i: int|
        0 <= i < coords.len() ==> hits(input, started, elapsed, (#[trigger] coords[i]).millis as int)
            > 0 && coords[i].correct == upto(input, started, elapsed, coords[i].millis as int)
    &&& forall|k: int|
        0 <= k < input.len() && is_correct(#[trigger] input[k]) ==> exists|i: int|
            0 <= i < coords.len() && (#[trigger] coords[i]).millis == second_of(
                input[k],
                started,
                elapsed,
            )
}

/// The per-second counts behind a trajectory: for each point, the number of
/// correct keystrokes counted under its second.
pub open spec fn per_second(
    coords: Seq<Coord>,
    input: Seq<Input>,
    started: u64,
    elapsed: nat,
) -> Seq<nat> {
    Seq::new(coords.len(), |i: int| hits(input, started, elapsed, coords[i].millis as int))
}

/// The words per minute of a finished session: those of the last point of
/// its trajectory, and zero where the trajectory is empty.
pub open spec fn last_wpm(coords: Seq<Coord>) -> nat {
    if coords.len() == 0 {
        0
    } else {
        coords.last().wpm_ceil()
    }
}

/// These are the results of the log `input` of a session measured `elapsed`
/// milliseconds after it started at clock reading `started`.
pub open spec fn is_result(
    coords: Seq<Coord>,
    wpm: nat,
    accuracy: nat,
    std_dev: Option<Deviation>,
    input: Seq<Input>,
    started: u64,
    elapsed: nat,
) -> bool {
    &&& is_trajectory(coords, input, started, elapsed)
    &&& wpm == last_wpm(coords)
    &&& accuracy == accuracy_percent(correct_count(input), input.len())
    &&& std_dev is None <==> coords.len() <= 1
    &&& std_dev matches Some(d) ==> d.describes(
        per_second(coords, input, started, elapsed).drop_last(),
    )
}

impl Coord {
    /// Words per minute at this point, rounded up to a whole number: sixty
    /// seconds over the point's second, times the correct keystrokes so far,
    /// over five characters to the word.
    pub open spec fn wpm_ceil(self) -> nat {
        ((12000 * self.correct + self.millis - 1) / (self.millis as int)) as nat
    }

    /// Words per minute at this point, rounded to the nearest whole number; a
    /// half rounds up.
    pub open spec fn wpm_round(self) -> nat {
        ((12000 * self.correct + self.millis / 2) / (self.millis as int)) as nat
    }

    /// Words per minute at this point, rounded up to a whole number.
    pub fn wpm(&self) -> (wpm: u128)
        requires
            self.millis > 0,
        ensures
            wpm == self.wpm_ceil(),
    {
        (12000 * (self.correct as u128) + (self.millis as u128) - 1) / (self.millis as u128)
    }

    /// Words per minute at this point, rounded to the nearest whole number.
    pub fn wpm_rounded(&self) -> (wpm: u128)
        requires
            self.millis > 0,
        ensures
            wpm == self.wpm_round(),
    {
        (12000 * (self.correct as u128) + (self.millis as u128) / 2) / (self.millis as u128)
    }
}

impl Deviation {
    /// These are the moments of `samples`.
    pub open spec fn describes(self, samples: Seq<nat>) -> bool {
        &&& self.samples == samples.len()
        &&& self.sum == sum(samples)
        &&& self.sum_squares == sum_squares(samples)
    }

    /// The variance of the sample, times the square of its size. The standard
    /// deviation is the square root of the variance.
    pub open spec fn scaled_variance(self) -> int {
        self.samples * self.sum_squares - self.sum * self.sum
    }
}

/// The sum of a longer prefix is no smaller than that of a shorter one.
proof fn lemma_sum_grows(s: Seq<nat>, a: int, b: int)
    requires
        0 <= a <= b <= s.len(),
    ensures
        sum(s.take(a)) <= sum(s.take(b)),
    decreases b - a,
{
    if a < b {
        assert(s.take(b).drop_last() =~= s.take(b - 1));
        lemma_sum_grows(s, a, b - 1);
    }
}

/// The sum of a prefix grows by the item that follows it.
proof fn lemma_sum_step(s: Seq<nat>, i: int)
    requires
        0 <= i < s.len(),
    ensures
        sum(s.take(i + 1)) == sum(s.take(i)) + s[i],
        sum_squares(s.take(i + 1)) == sum_squares(s.take(i)) + s[i] * s[i],
{
    assert(s.take(i + 1).drop_last() =~= s.take(i));
}

/// The counts of the first `n` buckets of a tally add up to the number of
/// correct keystrokes counted up to the second of the last of them.
pub proof fn lemma_total_is_upto(
    buckets: Seq<(u64, u64)>,
    input: Seq<Input>,
    started: u64,
    elapsed: nat,
    n: int,
)
    requires
        is_tally(buckets, input, started, elapsed),
        0 < n <= buckets.len(),
    ensures
        total(buckets, n) == upto(input, started, elapsed, buckets[n - 1].0 as int),
        total(buckets, n) <= input.len(),
    decreases n,
{
    let hi = buckets[n - 1].0 as int;
    let lo = if n == 1 {
        -1
    } else {
        buckets[n - 2].0 as int
    };
    lemma_sum_step(counts_of(buckets), n - 1);
    if n == 1 {
        assert(counts_of(buckets).take(0) =~= Seq::empty());
        lemma_none_before(input, started, elapsed, -1);
    } else {
        lemma_total_is_upto(buckets, input, started, elapsed, n - 1);
    }
    assert forall|k: int| 0 <= k < input.len() && is_correct(#[trigger] input[k]) implies !(lo
        < second_of(input[k], started, elapsed) < hi) by {
        let i = choose|i: int|
            0 <= i < buckets.len() && (#[trigger] buckets[i]).0 == second_of(
                input[k],
                started,
                elapsed,
            );
        if i < n - 1 {
            if i < n - 2 {
                assert(buckets[i].0 < buckets[n - 2].0);
            }
        } else if i > n - 1 {
            assert(buckets[n - 1].0 < buckets[i].0);
        }
    }
    lemma_upto_step(input, started, elapsed, lo, hi);
    input.lemma_filter_len(lands_by(started, elapsed, hi));
}

/// The trajectory of `buckets`: one point for each bucket, at the bucket's
/// second, with the sum of the counts of the buckets up to and including it.
pub fn wpm_trajectory(buckets: &Vec<(u64, u64)>) -> (coords: Vec<Coord>)
    requires
        total(buckets@, buckets@.len() as int) <= u64::MAX,
    ensures
        coords@.len() == buckets@.len(),
        forall|i: int|
            0 <= i < coords@.len() ==> (#[trigger] coords@[i]).millis == buckets@[i].0
                && coords@[i].correct == total(buckets@, i + 1),
{
    let mut coords: Vec<Coord> = Vec::new();
    let mut so_far: u64 = 0;
    let mut i: usize = 0;
    assert(counts_of(buckets@).take(0) =~= Seq::empty());
    while i < buckets.len()
        invariant
            i <= buckets.len(),
            coords@.len() == i,
            so_far == total(buckets@, i as int),
            total(buckets@, buckets@.len() as int) <= u64::MAX,
            forall|j: int|
                0 <= j < i ==> (#[trigger] coords@[j]).millis == buckets@[j].0
                    && coords@[j].correct == total(buckets@, j + 1),
        decreases buckets.len() - i,
    {
        proof {
            lemma_sum_step(counts_of(buckets@), i as int);
            lemma_sum_grows(counts_of(buckets@), i + 1, buckets@.len() as int);
        }
        so_far = so_far + buckets[i].1;
        coords.push(Coord { millis: buckets[i].0, correct: so_far });
        i += 1;
    }
    coords
}

/// The counts of all buckets but the last.
pub fn counts_before_last(buckets: &Vec<(u64, u64)>) -> (counts: Vec<u64>)
    ensures
        buckets@.len() == 0 ==> counts@.len() == 0,
        buckets@.len() > 0 ==> values(counts@) == counts_of(buckets@).drop_last(),
{
    let mut counts: Vec<u64> = Vec::new();
    if buckets.len() == 0 {
        return counts;
    }
    let kept: usize = buckets.len() - 1;
    let mut i: usize = 0;
    while i < kept
        invariant
            i <= kept,
            kept == buckets@.len() - 1,
            counts@.len() == i,
            forall|j: int| 0 <= j < i ==> #[trigger] counts@[j] == buckets@[j].1,
        decreases kept - i,
    {
        counts.push(buckets[i].1);
        i += 1;
    }
    assert(values(counts@) =~= counts_of(buckets@).drop_last());
    counts
}

/// The moments of `data`, or `None` where `data` is empty and its standard
/// deviation is undefined.
pub fn std_deviation(data: &Vec<u64>) -> (deviation: Option<Deviation>)
    requires
        sum(values(data@)) <= u64::MAX,
    ensures
        deviation is None <==> data@.len() == 0,
        deviation matches Some(d) ==> d.describes(values(data@)),
{
    if data.len() == 0 {
        return None;
    }
    let ghost v = values(data@);
    let mut sum_so_far: u64 = 0;
    let mut squares_so_far: u128 = 0;
    let mut i: usize = 0;
    assert(v.take(0) =~= Seq::empty());
    while i < data.len()
        invariant
            i <= data.len(),
            v == values(data@),
            sum(v) <= u64::MAX,
            sum_so_far == sum(v.take(i as int)),
            squares_so_far == sum_squares(v.take(i as int)),
            squares_so_far <= sum_so_far * sum_so_far,
        decreases data.len() - i,
    {
        let x = data[i];
        proof {
            lemma_sum_step(v, i as int);
            lemma_sum_grows(v, i + 1, v.len() as int);
            assert(v.take(v.len() as int) =~= v);
            let s = sum_so_far as int;
            let q = squares_so_far as int;
            let y = x as int;
            assert(q + y * y <= (s + y) * (s + y) && (s + y) * (s + y) <= 0xffff_ffff_ffff_ffff
                * 0xffff_ffff_ffff_ffff && y * y <= (s + y) * (s + y)) by (nonlinear_arith)
                requires
                    0 <= q <= s * s,
                    0 <= y,
                    0 <= s,
                    s + y <= 0xffff_ffff_ffff_ffff,
            ;
        }
        sum_so_far = sum_so_far + x;
        squares_so_far = squares_so_far + (x as u128) * (x as u128);
        i += 1;
    }
    assert(v.take(i as int) =~= v);
    Some(Deviation { samples: data.len() as u64, sum: sum_so_far, sum_squares: squares_so_far })
}

/// The number of correct keystrokes of `input`.
pub fn count_correct(input: &Vec<Input>) -> (count: usize)
    ensures
        count == correct_count(input@),
        count <= input@.len(),
{
    let ghost p = |i: Input| is_correct(i);
    let mut count: usize = 0;
    let mut i: usize = 0;
    assert(input@.take(0) =~= Seq::empty());
    while i < input.len()
        invariant
            i <= input.len(),
            count <= i,
            count == correct_count(input@.take(i as int)),
        decreases input.len() - i,
    {
        proof {
            assert(input@.take(i + 1) =~= input@.take(i as int).push(input@[i as int]));
            input@.take(i as int).lemma_filter_len_push(|i: Input| is_correct(i), input@[i as int]);
        }
        if input[i].outcome == Outcome::Correct {
            count += 1;
        }
        i += 1;
    }
    assert(input@.take(i as int) =~= input@);
    count
}

/// The whole percentage nearest to `correct` out of `total`.
pub fn accuracy(correct: usize, total: usize) -> (percent: u64)
    requires
        0 < total,
        correct <= total,
    ensures
        percent == accuracy_percent(correct as nat, total as nat),
        percent <= 100,
{
    let percent = (100 * (correct as u128) + (total as u128) / 2) / (total as u128);
    assert(percent <= 100) by (nonlinear_arith)
        requires
            percent == (100 * correct + total / 2) / (total as int),
            0 < total,
            correct <= total,
    ;
    percent as u64
}

/// The results of the log `input` of a session that started at clock reading
/// `started` and is measured at clock reading `now`.
pub fn compute_metrics(input: &Vec<Input>, started: u64, now: u64) -> (metrics: Metrics)
    requires
        input@.len() > 0,
        timeline_ok(input@, started, now),
    ensures
        is_result(
            metrics.wpm_coords@,
            metrics.wpm as nat,
            metrics.accuracy as nat,
            metrics.std_dev,
            input@,
            started,
            (now - started) as nat,
        ),
{
    let ghost elapsed = (now - started) as nat;
    let keystrokes = input.len();
    let buckets = correct_chars_per_sec(input, started, now);
    let ghost counts = counts_of(buckets@);
    proof {
        if buckets@.len() > 0 {
            lemma_total_is_upto(buckets@, input@, started, elapsed, buckets@.len() as int);
            lemma_sum_grows(counts, buckets@.len() - 1, buckets@.len() as int);
            assert(counts.drop_last() =~= counts.take(buckets@.len() - 1));
        } else {
            assert(counts.take(0) =~= Seq::empty());
        }
    }
    let before_last = counts_before_last(&buckets);
    let std_dev = std_deviation(&before_last);
    let wpm_coords = wpm_trajectory(&buckets);
    proof {
        assert forall|i: int| 0 <= i < wpm_coords@.len() implies hits(
            input@,
            started,
            elapsed,
            (#[trigger] wpm_coords@[i]).millis as int,
        ) > 0 && wpm_coords@[i].correct == upto(
            input@,
            started,
            elapsed,
            wpm_coords@[i].millis as int,
        ) by {
            lemma_total_is_upto(buckets@, input@, started, elapsed, i + 1);
            assert(buckets@[i].1 > 0);
        }
        assert forall|k: int| 0 <= k < input@.len() && is_correct(#[trigger] input@[k]) implies
            exists|i: int|
            0 <= i < wpm_coords@.len() && (#[trigger] wpm_coords@[i]).millis == second_of(
                input@[k],
                started,
                elapsed,
            ) by {
            let i = choose|i: int|
                0 <= i < buckets@.len() && (#[trigger] buckets@[i]).0 == second_of(
                    input@[k],
                    started,
                    elapsed,
                );
            assert(wpm_coords@[i].millis == buckets@[i].0);
        }
        assert forall|i: int, j: int| 0 <= i < j < wpm_coords@.len() implies (
        #[trigger] wpm_coords@[i]).millis < (#[trigger] wpm_coords@[j]).millis by {
            assert(buckets@[i].0 < buckets@[j].0);
        }
        assert(is_trajectory(wpm_coords@, input@, started, elapsed));
        if buckets@.len() > 0 {
            assert(values(before_last@) =~= per_second(
                wpm_coords@,
                input@,
                started,
                elapsed,
            ).drop_last()) by {
                assert forall|i: int| 0 <= i < buckets@.len() - 1 implies values(
                    before_last@,
                )[i] == per_second(wpm_coords@, input@, started, elapsed).drop_last()[i] by {
                    assert(counts[i] == buckets@[i].1);
                    assert(wpm_coords@[i].millis == buckets@[i].0);
                }
            }
        }
    }
    let wpm: u128 = if wpm_coords.len() == 0 {
        0
    } else {
        let last = wpm_coords[wpm_coords.len() - 1];
        proof {
            let k = lemma_filter_witness(
                input@,
                lands_in(started, elapsed, last.millis as int),
            );
            lemma_second_positive(input@[k], started, now);
        }
        last.wpm()
    };
    let accuracy = accuracy(count_correct(input), keystrokes);
    Metrics { wpm_coords, wpm, accuracy, std_dev }
}

} // verus!

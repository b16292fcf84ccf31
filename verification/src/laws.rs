//! What holds of every session and of every result, proved from the
//! definitions in the rest of the crate.

use crate::metrics::{
    accuracy_percent, correct_count, is_trajectory, sum, sum_squares, Coord, Deviation,
};
use crate::tally::{is_correct, lands_by, lands_in, lemma_filter_witness, second_of};
use crate::thok::{Input, Outcome, Session};
use vstd::prelude::*;

verus! {

/// One call that moves the cursor or changes the log.
pub enum Event {
    /// The character `c` is typed at clock reading `now`.
    Write { c: char, now: u64 },
    Backspace,
    IncrementCursor,
    DecrementCursor,
}

/// The session `s` after the call `event`.
pub open spec fn apply(s: Session, event: Event) -> Session {
    match event {
        Event::Write { c, now } => s.write(c, now),
        Event::Backspace => s.backspace(),
        Event::IncrementCursor => s.increment_cursor(),
        Event::DecrementCursor => s.decrement_cursor(),
    }
}

/// The session `s` after the calls `events`, made in order.
pub open spec fn run(s: Session, events: Seq<Event>) -> Session
    decreases events.len(),
{
    if events.len() == 0 {
        s
    } else {
        apply(run(s, events.drop_last()), events.last())
    }
}

/// After any sequence of keystrokes, backspaces and cursor moves the cursor
/// lies within the log.
pub proof fn cursor_stays_within_the_log(s: Session, events: Seq<Event>)
    requires
        s.cursor_pos <= s.input.len(),
    ensures
        run(s, events).cursor_pos <= run(s, events).input.len(),
    decreases events.len(),
{
    if events.len() > 0 {
        cursor_stays_within_the_log(s, events.drop_last());
    }
}

/// Every call that a session accepts keeps the cursor within the log and the
/// log within the prompt.
pub proof fn transitions_keep_a_session_well_formed(s: Session, c: char, now: u64)
    requires
        s.wf(),
    ensures
        !s.has_finished() ==> s.write(c, now).wf(),
        s.backspace().wf(),
        s.increment_cursor().wf(),
        s.decrement_cursor().wf(),
        s.start(now).wf(),
        s.on_tick().wf(),
{
}

/// A backspace followed by typing the removed character again gives a log of
/// the same length, with that character at the same index, the cursor where
/// it was, and every other keystroke untouched.
pub proof fn backspace_then_rewrite_round_trips(s: Session, now: u64)
    requires
        s.wf(),
        s.cursor_pos > 0,
    ensures
        ({
            let at = s.cursor_pos - 1;
            let again = s.backspace().write(s.input[at].char, now);
            &&& again.input.len() == s.input.len()
            &&& again.cursor_pos == s.cursor_pos
            &&& again.input[at].char == s.input[at].char
            &&& forall|j: int| 0 <= j < s.input.len() && j != at ==> again.input[j] == s.input[j]
            &&& again.prompt == s.prompt
        }),
{
}

/// A session that has not finished has neither been typed to the length of
/// its prompt nor run out of time; and no call that a finished session
/// accepts makes it unfinished again.
pub proof fn finished_is_permanent(s: Session, now: u64, after: Session)
    ensures
        !s.has_finished() ==> s.input.len() != s.prompt.len() && (s.duration matches Some(d)
            ==> d > 0),
        s.has_finished() ==> s.increment_cursor().has_finished(),
        s.has_finished() ==> s.decrement_cursor().has_finished(),
        s.has_finished() ==> s.start(now).has_finished(),
        s.has_finished() && s.finalized(now, after) ==> after.has_finished(),
{
}

/// The session in which the first `n` characters of `prompt` have been typed
/// in order, the `i`-th at clock reading `times[i]`.
pub open spec fn typed(prompt: Seq<char>, duration: Option<usize>, times: Seq<u64>, n: nat) -> Session
    decreases n,
{
    if n == 0 {
        Session::fresh(prompt, duration)
    } else {
        typed(prompt, duration, times, (n - 1) as nat).write(prompt[n - 1], times[n - 1])
    }
}

/// What a keystroke does to the log and the cursor.
proof fn lemma_write(s: Session, c: char, now: u64)
    requires
        s.cursor_pos <= s.input.len(),
    ensures
        ({
            let w = s.write(c, now);
            &&& w.prompt == s.prompt
            &&& w.cursor_pos == s.cursor_pos + 1
            &&& w.input.len() == s.input.len() + 1
            &&& forall|k: int| 0 <= k < s.cursor_pos ==> w.input[k] == s.input[k]
            &&& w.input[s.cursor_pos as int].outcome == s.outcome_of(c)
            &&& w.input[s.cursor_pos as int].timestamp == now
        }),
{
}

/// Typing the first `n` characters of the prompt logs `n` keystrokes, all
/// correct, and leaves the cursor behind them.
proof fn lemma_typed(prompt: Seq<char>, duration: Option<usize>, times: Seq<u64>, n: nat)
    requires
        n <= prompt.len(),
        times.len() == prompt.len(),
    ensures
        ({
            let s = typed(prompt, duration, times, n);
            &&& s.prompt == prompt
            &&& s.cursor_pos == n
            &&& s.input.len() == n
            &&& forall|k: int| 0 <= k < n ==> is_correct(#[trigger] s.input[k])
        }),
    decreases n,
{
    if n > 0 {
        lemma_typed(prompt, duration, times, (n - 1) as nat);
        let before = typed(prompt, duration, times, (n - 1) as nat);
        lemma_write(before, prompt[n - 1], times[n - 1]);
        assert(before.outcome_of(prompt[n - 1]) == Outcome::Correct);
    }
}

/// A log of correct keystrokes only has as many correct keystrokes as it is long.
proof fn lemma_all_correct(input: Seq<Input>)
    requires
        forall|k: int| 0 <= k < input.len() ==> is_correct(#[trigger] input[k]),
    ensures
        correct_count(input) == input.len(),
    decreases input.len(),
{
    if input.len() == 0 {
        reveal(Seq::filter);
    } else {
        let rest = input.drop_last();
        assert(input =~= rest.push(input.last()));
        rest.lemma_filter_len_push(|i: Input| is_correct(i), input.last());
        lemma_all_correct(rest);
    }
}

/// Typing the whole of a prompt correctly, character by character at strictly
/// increasing clock readings, gives an accuracy of 100 and a trajectory of at
/// least one point.
pub proof fn typing_the_prompt_scores_full_marks(
    prompt: Seq<char>,
    duration: Option<usize>,
    times: Seq<u64>,
    now: u64,
    after: Session,
)
    requires
        prompt.len() >= 1,
        times.len() == prompt.len(),
        forall|i: int, j: int| 0 <= i < j < times.len() ==> times[i] < times[j],
        typed(prompt, duration, times, prompt.len()).finalized(now, after),
    ensures
        after.accuracy == 100,
        after.wpm_coords.len() >= 1,
{
    let s = typed(prompt, duration, times, prompt.len());
    lemma_typed(prompt, duration, times, prompt.len());
    lemma_all_correct(s.input);
    let n = s.input.len();
    assert((100 * n + n / 2) / n == 100) by (nonlinear_arith)
        requires
            n >= 1,
    ;
    assert(is_correct(s.input[0]));
}

/// The accuracy is the whole percentage nearest to the share of correct
/// keystrokes: it differs from a hundred times that share by at most one half.
pub proof fn accuracy_is_the_nearest_percent(correct: nat, total: nat)
    requires
        total > 0,
    ensures
        ({
            let a = accuracy_percent(correct, total);
            2 * total * a <= 200 * correct + total < 2 * total * (a + 1)
        }),
{
    let a = accuracy_percent(correct, total);
    let half = total / 2;
    assert(a * total <= 100 * correct + half < (a + 1) * total) by (nonlinear_arith)
        requires
            total > 0,
            a == (100 * correct + half) / total,
    ;
    assert(2 * total * a == 2 * (a * total) && 2 * total * (a + 1) == 2 * ((a + 1) * total))
        by (nonlinear_arith);
}

/// The words per minute of a point are twelve thousand correct keystrokes per
/// millisecond of its second, rounded up: the least whole number that is not
/// below that quotient.
pub proof fn wpm_is_rounded_up(point: Coord)
    requires
        point.millis > 0,
    ensures
        (point.wpm_ceil() - 1) * point.millis < 12000 * point.correct <= point.wpm_ceil()
            * point.millis,
{
    let w = (12000 * point.correct + point.millis - 1) / (point.millis as int);
    let m = point.millis as int;
    let c = point.correct as int;
    assert((w - 1) * m < 12000 * c <= w * m && w >= 0) by (nonlinear_arith)
        requires
            m > 0,
            c >= 0,
            w == (12000 * c + m - 1) / m,
    ;
}

/// The second of each point of one trajectory of a log is the second of some
/// point of every other trajectory of that log.
proof fn lemma_second_occurs(
    a: Seq<Coord>,
    b: Seq<Coord>,
    input: Seq<Input>,
    started: u64,
    elapsed: nat,
    m: int,
) -> (j: int)
    requires
        is_trajectory(a, input, started, elapsed),
        is_trajectory(b, input, started, elapsed),
        0 <= m < a.len(),
    ensures
        0 <= j < b.len(),
        b[j].millis == a[m].millis,
{
    let k = lemma_filter_witness(input, lands_in(started, elapsed, a[m].millis as int));
    choose|j: int|
        0 <= j < b.len() && (#[trigger] b[j]).millis == second_of(input[k], started, elapsed)
}

/// Two trajectories of one log agree on the seconds of their first `n` points.
proof fn lemma_same_seconds(
    a: Seq<Coord>,
    b: Seq<Coord>,
    input: Seq<Input>,
    started: u64,
    elapsed: nat,
    n: nat,
)
    requires
        is_trajectory(a, input, started, elapsed),
        is_trajectory(b, input, started, elapsed),
        n <= a.len(),
    ensures
        n <= b.len(),
        forall|i: int| 0 <= i < n ==> (#[trigger] a[i]).millis == b[i].millis,
    decreases n,
{
    if n > 0 {
        lemma_same_seconds(a, b, input, started, elapsed, (n - 1) as nat);
        let m = n - 1;
        let j = lemma_second_occurs(a, b, input, started, elapsed, m);
        if j < m {
            assert(a[j].millis == b[j].millis);
            assert(a[j].millis < a[m].millis);
        }
        let i = lemma_second_occurs(b, a, input, started, elapsed, m);
        if i < m {
            assert(a[i].millis == b[i].millis);
            assert(b[i].millis < b[m].millis);
        }
        if j > m {
            assert(b[m].millis < b[j].millis);
            if i > m {
                assert(a[m].millis < a[i].millis);
            }
        }
    }
}

/// A log has one trajectory only: the conditions that the results meet pin
/// every point of it.
pub proof fn trajectory_is_unique(
    a: Seq<Coord>,
    b: Seq<Coord>,
    input: Seq<Input>,
    started: u64,
    elapsed: nat,
)
    requires
        is_trajectory(a, input, started, elapsed),
        is_trajectory(b, input, started, elapsed),
    ensures
        a == b,
{
    lemma_same_seconds(a, b, input, started, elapsed, a.len());
    lemma_same_seconds(b, a, input, started, elapsed, b.len());
    assert forall|i: int| 0 <= i < a.len() implies a[i] == b[i] by {
        assert(a[i].millis == b[i].millis);
        assert(a[i].correct == b[i].correct);
    }
    assert(a =~= b);
}

/// The moments of a sample whose counts all equal `x`.
proof fn lemma_equal_counts(samples: Seq<nat>, x: nat)
    requires
        forall|i: int| 0 <= i < samples.len() ==> #[trigger] samples[i] == x,
    ensures
        sum(samples) == samples.len() * x,
        sum_squares(samples) == samples.len() * (x * x),
    decreases samples.len(),
{
    if samples.len() > 0 {
        let rest = samples.drop_last();
        lemma_equal_counts(rest, x);
        let n = rest.len() as int;
        assert((n + 1) * x == n * x + x && (n + 1) * (x * x) == n * (x * x) + x * x)
            by (nonlinear_arith);
    }
}

/// Where every second holds the same number of correct keystrokes, the
/// variance of the counts, and with it their standard deviation, is zero.
pub proof fn equal_counts_have_no_spread(d: Deviation, samples: Seq<nat>, x: nat)
    requires
        d.describes(samples),
        forall|i: int| 0 <= i < samples.len() ==> #[trigger] samples[i] == x,
    ensures
        d.scaled_variance() == 0,
{
    lemma_equal_counts(samples, x);
    let n = samples.len() as int;
    let y = x as int;
    assert(n * (n * (y * y)) - (n * y) * (n * y) == 0) by (nonlinear_arith);
}

/// Two filters that agree on every item of a log keep equally many of them.
proof fn lemma_filters_agree(
    input: Seq<Input>,
    p: spec_fn(Input) -> bool,
    q: spec_fn(Input) -> bool,
)
    requires
        forall|k: int| 0 <= k < input.len() ==> p(#[trigger] input[k]) == q(input[k]),
    ensures
        input.filter(p).len() == input.filter(q).len(),
    decreases input.len(),
{
    if input.len() == 0 {
        reveal(Seq::filter);
    } else {
        let rest = input.drop_last();
        assert(input =~= rest.push(input.last()));
        rest.lemma_filter_len_push(p, input.last());
        rest.lemma_filter_len_push(q, input.last());
        assert forall|k: int| 0 <= k < rest.len() implies p(#[trigger] rest[k]) == q(rest[k]) by {
            assert(rest[k] == input[k]);
        }
        lemma_filters_agree(rest, p, q);
    }
}

/// The last point of a trajectory counts every correct keystroke of the log,
/// and a log without a correct keystroke has an empty trajectory.
pub proof fn trajectory_ends_at_the_correct_count(
    coords: Seq<Coord>,
    input: Seq<Input>,
    started: u64,
    elapsed: nat,
)
    requires
        is_trajectory(coords, input, started, elapsed),
    ensures
        coords.len() > 0 ==> coords.last().correct == correct_count(input),
        coords.len() == 0 <==> correct_count(input) == 0,
{
    let all = |i: Input| is_correct(i);
    if coords.len() > 0 {
        let last = coords.len() - 1;
        let by_last = lands_by(started, elapsed, coords[last].millis as int);
        assert forall|k: int| 0 <= k < input.len() implies by_last(#[trigger] input[k]) == all(
            input[k],
        ) by {
            if is_correct(input[k]) {
                let i = choose|i: int|
                    0 <= i < coords.len() && (#[trigger] coords[i]).millis == second_of(
                        input[k],
                        started,
                        elapsed,
                    );
                if i < last {
                    assert(coords[i].millis < coords[last].millis);
                }
            }
        }
        lemma_filters_agree(input, by_last, all);
        let k = lemma_filter_witness(
            input,
            lands_in(started, elapsed, coords[last].millis as int),
        );
        input.lemma_filter_contains(all, k);
    } else if correct_count(input) > 0 {
        let k = lemma_filter_witness(input, all);
        assert(is_correct(input[k]));
    }
}

} // verus!

//! The per-second tally of a keystroke log: under which second each correct
//! keystroke counts, and how many count under each.

use crate::sorting::{lex_le, sorted_buckets};
use crate::thok::{Input, Outcome};
use std::collections::HashMap;
use vstd::prelude::*;
use vstd::std_specs::iter::IteratorSpec;

verus! {

broadcast use vstd::std_specs::hash::group_hash_axioms;

/// Whether the keystroke `i` matched the prompt.
pub open spec fn is_correct(i: Input) -> bool {
    i.outcome == Outcome::Correct
}

/// The least whole number of seconds that is not less than `millis` milliseconds.
pub open spec fn ceil_seconds(millis: nat) -> nat {
    (millis + 999) / 1000
}

/// The second, in milliseconds, under which a keystroke made `offset`
/// milliseconds after the start is counted, in a session measured `elapsed`
/// milliseconds after the start.
///
/// A keystroke at the very start counts under the first second. Any other
/// counts under the whole second that it completes, unless that second lies
/// past the last whole second of the session: then it counts under the
/// session's total time.
pub open spec fn bucket_of(offset: nat, elapsed: nat) -> nat {
    if offset == 0 {
        1000
    } else if ceil_seconds(offset) <= elapsed / 1000 {
        1000 * ceil_seconds(offset)
    } else {
        elapsed
    }
}

/// The second under which the keystroke `i` is counted.
pub open spec fn second_of(i: Input, started: u64, elapsed: nat) -> nat {
    bucket_of((i.timestamp - started) as nat, elapsed)
}

/// The correct keystrokes that are counted under `second`.
pub open spec fn lands_in(started: u64, elapsed: nat, second: int) -> spec_fn(Input) -> bool {
    |i: Input| is_correct(i) && second_of(i, started, elapsed) == second
}

/// The correct keystrokes that are counted under `second` or an earlier second.
pub open spec fn lands_by(started: u64, elapsed: nat, second: int) -> spec_fn(Input) -> bool {
    |i: Input| is_correct(i) && second_of(i, started, elapsed) <= second
}

/// The number of correct keystrokes of `input` that are counted under `second`.
pub open spec fn hits(input: Seq<Input>, started: u64, elapsed: nat, second: int) -> nat {
    input.filter(lands_in(started, elapsed, second)).len()
}

/// The number of correct keystrokes of `input` that are counted under
/// `second` or an earlier second.
pub open spec fn upto(input: Seq<Input>, started: u64, elapsed: nat, second: int) -> nat {
    input.filter(lands_by(started, elapsed, second)).len()
}

/// The session started no later than `now`, and every correct keystroke was
/// made between the start and `now`.
pub open spec fn timeline_ok(input: Seq<Input>, started: u64, now: u64) -> bool {
    &&& started <= now
    &&& forall|k: int|
        0 <= k < input.len() && is_correct(#[trigger] input[k]) ==> started <= input[k].timestamp
            <= now
}

/// `buckets` lists, in ascending order, each second under which a correct
/// keystroke of `input` is counted, with the number of keystrokes counted
/// under it.
pub open spec fn is_tally(
    buckets: Seq<(u64, u64)>,
    input: Seq<Input>,
    started: u64,
    elapsed: nat,
) -> bool {
    &&& forall|i: int, j: int|
        0 <= i < j < buckets.len() ==> (#[trigger] buckets[i]).0 < (#[trigger] buckets[j]).0
    &&& forall|i: int|
        0 <= i < buckets.len() ==> (#[trigger] buckets[i]).1 > 0 && buckets[i].1 == hits(
            input,
            started,
            elapsed,
            buckets[i].0 as int,
        )
    &&& forall|k: int|
        0 <= k < input.len() && is_correct(#[trigger] input[k]) ==> exists|i: int|
            0 <= i < buckets.len() && (#[trigger] buckets[i]).0 == second_of(
                input[k],
                started,
                elapsed,
            )
}

/// A keystroke made between the start and the moment of measurement is
/// counted under a second later than zero.
pub proof fn lemma_second_positive(i: Input, started: u64, now: u64)
    requires
        started <= i.timestamp <= now,
    ensures
        second_of(i, started, (now - started) as nat) > 0,
{
}

/// Where a filter keeps something, the sequence holds an item that passes it.
pub(crate) proof fn lemma_filter_witness(input: Seq<Input>, p: spec_fn(Input) -> bool) -> (k: int)
    requires
        input.filter(p).len() > 0,
    ensures
        0 <= k < input.len(),
        p(input[k]),
{
    let x = input.filter(p)[0];
    input.lemma_filter_pred(p, 0);
    assert(input.filter(p).contains(x));
    input.lemma_filter_contains_rev(p, x);
    choose|k: int| 0 <= k < input.len() && input[k] == x
}

/// A keystroke that is counted under a second is one of that second's hits.
proof fn lemma_hit(input: Seq<Input>, started: u64, elapsed: nat, k: int)
    requires
        0 <= k < input.len(),
        is_correct(input[k]),
    ensures
        hits(input, started, elapsed, second_of(input[k], started, elapsed) as int) > 0,
{
    let p = lands_in(started, elapsed, second_of(input[k], started, elapsed) as int);
    input.lemma_filter_contains(p, k);
}

/// No correct keystroke counted under `lo` or earlier: none counted up to `lo`.
pub(crate) proof fn lemma_none_before(input: Seq<Input>, started: u64, elapsed: nat, lo: int)
    requires
        forall|k: int|
            0 <= k < input.len() && is_correct(#[trigger] input[k]) ==> second_of(
                input[k],
                started,
                elapsed,
            ) > lo,
    ensures
        upto(input, started, elapsed, lo) == 0,
{
    let p = lands_by(started, elapsed, lo);
    if input.filter(p).len() > 0 {
        let k = lemma_filter_witness(input, p);
        assert(is_correct(input[k]));
    }
}

/// Where no correct keystroke is counted strictly between `lo` and `hi`, the
/// keystrokes counted up to `hi` are those counted up to `lo` and those
/// counted under `hi`.
pub(crate) proof fn lemma_upto_step(input: Seq<Input>, started: u64, elapsed: nat, lo: int, hi: int)
    requires
        lo < hi,
        forall|k: int|
            0 <= k < input.len() && is_correct(#[trigger] input[k]) ==> !(lo < second_of(
                input[k],
                started,
                elapsed,
            ) < hi),
    ensures
        upto(input, started, elapsed, hi) == upto(input, started, elapsed, lo) + hits(
            input,
            started,
            elapsed,
            hi,
        ),
    decreases input.len(),
{
    if input.len() == 0 {
        reveal(Seq::filter);
    } else {
        let rest = input.drop_last();
        let x = input.last();
        assert(input =~= rest.push(x));
        rest.lemma_filter_len_push(lands_by(started, elapsed, hi), x);
        rest.lemma_filter_len_push(lands_by(started, elapsed, lo), x);
        rest.lemma_filter_len_push(lands_in(started, elapsed, hi), x);
        assert forall|k: int| 0 <= k < rest.len() && is_correct(#[trigger] rest[k]) implies !(lo
            < second_of(rest[k], started, elapsed) < hi) by {
            assert(rest[k] == input[k]);
        }
        lemma_upto_step(rest, started, elapsed, lo, hi);
        assert(x == input[input.len() - 1]);
    }
}

/// Two sequences that hold the same items equally often hold the same items.
proof fn lemma_same_items(a: Seq<(u64, u64)>, b: Seq<(u64, u64)>)
    requires
        a.to_multiset() == b.to_multiset(),
    ensures
        forall|x: (u64, u64)| a.contains(x) <==> b.contains(x),
{
    a.to_multiset_ensures();
    b.to_multiset_ensures();
    assert forall|x: (u64, u64)| a.contains(x) <==> b.contains(x) by {
        assert(a.contains(x) <==> a.to_multiset().count(x) > 0);
        assert(b.contains(x) <==> b.to_multiset().count(x) > 0);
    }
}

/// The second under which a keystroke made `offset` milliseconds after the
/// start is counted, in a session measured `elapsed` milliseconds after the
/// start.
pub fn bucket(offset: u64, elapsed: u64) -> (second: u64)
    ensures
        second == bucket_of(offset as nat, elapsed as nat),
{
    if offset == 0 {
        1000
    } else {
        let whole: u64 = (offset - 1) / 1000 + 1;
        if whole <= elapsed / 1000 {
            whole * 1000
        } else {
            elapsed
        }
    }
}

/// Whether the session started no later than `now` and every correct
/// keystroke of `input` was made between the start and `now`.
pub fn timeline_holds(input: &Vec<Input>, started: u64, now: u64) -> (ok: bool)
    ensures
        ok == timeline_ok(input@, started, now),
{
    if started > now {
        return false;
    }
    let mut i: usize = 0;
    while i < input.len()
        invariant
            i <= input.len(),
            started <= now,
            forall|k: int|
                0 <= k < i && is_correct(#[trigger] input@[k]) ==> started <= input@[k].timestamp
                    <= now,
        decreases input.len() - i,
    {
        let entry = input[i];
        if entry.outcome == Outcome::Correct && (entry.timestamp < started || entry.timestamp
            > now) {
            return false;
        }
        i += 1;
    }
    true
}

/// The entries of `map`, each once, in the order in which the map hands them out.
fn entries_of(map: &HashMap<u64, u64>) -> (entries: Vec<(u64, u64)>)
    ensures
        forall|i: int|
            0 <= i < entries@.len() ==> map@.contains_key((#[trigger] entries@[i]).0)
                && map@[entries@[i].0] == entries@[i].1,
        forall|k: u64| map@.contains_key(k) ==> entries@.contains((k, #[trigger] map@[k])),
        entries@.no_duplicates(),
{
    let mut entries: Vec<(u64, u64)> = Vec::new();
    let ghost all = map.iter().remaining();
    for entry in it: map.iter()
        invariant
            it.seq() == all,
            entries@.len() == it.index(),
            forall|i: int| 0 <= i < entries@.len() ==> entries@[i] == (*all[i].0, *all[i].1),
    {
        let (second, count) = entry;
        entries.push((*second, *count));
    }
    assert forall|k: u64| map@.contains_key(k) implies entries@.contains((k, #[trigger] map@[k])) by {
        assert(all.contains((&k, &map@[k])));
        let i = choose|i: int| 0 <= i < all.len() && all[i] == (&k, &map@[k]);
        assert(entries@[i] == (k, map@[k]));
    }
    entries
}

/// The number of correct keystrokes of `input` counted under each second, in
/// ascending order of the seconds, for a session that started at clock
/// reading `started` and is measured at clock reading `now`.
pub fn correct_chars_per_sec(input: &Vec<Input>, started: u64, now: u64) -> (buckets: Vec<
    (u64, u64),
>)
    requires
        timeline_ok(input@, started, now),
    ensures
        is_tally(buckets@, input@, started, (now - started) as nat),
{
    let elapsed: u64 = now - started;
    let mut map: HashMap<u64, u64> = HashMap::new();
    let mut i: usize = 0;
    while i < input.len()
        invariant
            i <= input.len(),
            timeline_ok(input@, started, now),
            elapsed == now - started,
            forall|k: u64|
                map@.contains_key(k) <==> #[trigger] hits(
                    input@.take(i as int),
                    started,
                    elapsed as nat,
                    k as int,
                ) > 0,
            forall|k: u64|
                map@.contains_key(k) ==> map@[k] == #[trigger] hits(
                    input@.take(i as int),
                    started,
                    elapsed as nat,
                    k as int,
                ),
        decreases input.len() - i,
    {
        let entry = input[i];
        let ghost before = input@.take(i as int);
        proof {
            assert(input@.take(i + 1) =~= before.push(entry));
            assert forall|k: u64|
                #[trigger] hits(input@.take(i + 1), started, elapsed as nat, k as int) == hits(
                    before,
                    started,
                    elapsed as nat,
                    k as int,
                ) + (if lands_in(started, elapsed as nat, k as int)(entry) {
                    1int
                } else {
                    0int
                }) by {
                before.lemma_filter_len_push(lands_in(started, elapsed as nat, k as int), entry);
            }
            assert forall|k: u64|
                #[trigger] hits(before, started, elapsed as nat, k as int) <= i by {
                before.lemma_filter_len(lands_in(started, elapsed as nat, k as int));
            }
        }
        if entry.outcome == Outcome::Correct {
            let second = bucket(entry.timestamp - started, elapsed);
            let count: u64 = match map.get(&second) {
                Some(n) => *n,
                None => 0,
            };
            assert(count == hits(before, started, elapsed as nat, second as int));
            map.insert(second, count + 1);
        }
        i += 1;
    }
    assert(input@.take(i as int) =~= input@);
    let entries = entries_of(&map);
    let sorted = sorted_buckets(entries);
    proof {
        let e = entries@;
        let s = sorted@;
        lemma_same_items(e, s);
        e.lemma_multiset_has_no_duplicates();
        s.lemma_multiset_has_no_duplicates_conv();
        assert forall|i: int| 0 <= i < s.len() implies map@.contains_key((#[trigger] s[i]).0)
            && map@[s[i].0] == s[i].1 && s[i].1 > 0 by {
            assert(s.contains(s[i]));
            assert(e.contains(s[i]));
            assert(hits(input@, started, elapsed as nat, s[i].0 as int) > 0);
        }
        assert forall|i: int, j: int| 0 <= i < j < s.len() implies (#[trigger] s[i]).0 < (
        #[trigger] s[j]).0 by {
            assert(lex_le(s[i], s[j]));
            assert(s[i] != s[j]);
        }
        assert forall|k: int| 0 <= k < input@.len() && is_correct(#[trigger] input@[k]) implies
            exists|i: int|
            0 <= i < s.len() && (#[trigger] s[i]).0 == second_of(
                input@[k],
                started,
                elapsed as nat,
            ) by {
            lemma_hit(input@, started, elapsed as nat, k);
            let second = bucket_of((input@[k].timestamp - started) as nat, elapsed as nat);
            let key = second as u64;
            assert(hits(input@, started, elapsed as nat, key as int) > 0);
            assert(map@.contains_key(key));
            assert(e.contains((key, map@[key])));
            assert(s.contains((key, map@[key])));
            let i = choose|i: int| 0 <= i < s.len() && s[i] == (key, map@[key]);
            assert(s[i].0 == key);
        }
    }
    sorted
}

} // verus!

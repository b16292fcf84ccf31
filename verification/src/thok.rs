//! The session: prompt, keystroke log, cursor and countdown.

use crate::metrics::{compute_metrics, is_result, Coord, Deviation};
use crate::tally::{timeline_holds, timeline_ok};
use vstd::prelude::*;
use vstd::string::*;

verus! {

/// Milliseconds by which one tick shortens the countdown of a timed session.
pub const TICK_MILLIS: i128 = 100;

/// Whether a typed character matched the prompt at the position where it was typed.
#[derive(Clone, Copy, Debug, PartialEq, Eq, Structural)]
pub enum Outcome {
    Correct,
    Incorrect,
}

/// One keystroke: the character typed, how it compared with the prompt, and
/// the clock reading, in milliseconds, at which it was typed.
#[derive(Clone, Copy, Debug, PartialEq, Eq, Structural)]
pub struct Input {
    pub char: char,
    pub outcome: Outcome,
    pub timestamp: u64,
}

/// A typing session.
///
/// `duration` is the time left on the countdown, in milliseconds; it is
/// `None` for a session that ends only when the prompt has been typed.
/// `started_at` is the clock reading of the first keystroke. The result
/// fields are filled in by [`Thok::calc_results`].
#[derive(Clone, Debug)]
pub struct Thok {
    pub prompt: String,
    pub input: Vec<Input>,
    pub raw_coords: Vec<Coord>,
    pub wpm_coords: Vec<Coord>,
    pub cursor_pos: usize,
    pub started_at: Option<u64>,
    pub duration: Option<i128>,
    pub wpm: u128,
    pub accuracy: u64,
    pub std_dev: Option<Deviation>,
}

/// The mathematical model of a session, over which the contracts are stated.
#[verifier::ext_equal]
pub struct Session {
    pub prompt: Seq<char>,
    pub input: Seq<Input>,
    pub raw_coords: Seq<Coord>,
    pub wpm_coords: Seq<Coord>,
    pub cursor_pos: nat,
    pub started_at: Option<u64>,
    pub duration: Option<int>,
    pub wpm: nat,
    pub accuracy: nat,
    pub std_dev: Option<Deviation>,
}

impl Session {
    /// A session on which nothing has been typed yet; `duration` is in seconds.
    pub open spec fn fresh(prompt: Seq<char>, duration: Option<usize>) -> Session {
        Session {
            prompt,
            input: Seq::empty(),
            raw_coords: Seq::empty(),
            wpm_coords: Seq::empty(),
            cursor_pos: 0,
            started_at: None,
            duration: match duration {
                Some(d) => Some(d * 1000),
                None => None,
            },
            wpm: 0,
            accuracy: 0,
            std_dev: None,
        }
    }

    /// The cursor lies within the log, and the log is no longer than the prompt.
    pub open spec fn wf(self) -> bool {
        self.cursor_pos <= self.input.len() <= self.prompt.len()
    }

    /// A keystroke or an explicit start has set the clock reading of the start.
    pub open spec fn has_started(self) -> bool {
        self.started_at is Some
    }

    /// The prompt has been typed to its full length, or the countdown has run out.
    pub open spec fn has_finished(self) -> bool {
        self.input.len() == self.prompt.len() || (self.duration matches Some(d) && d <= 0)
    }

    /// How `c` compares with the prompt when it is typed at the cursor.
    pub open spec fn outcome_of(self, c: char) -> Outcome {
        if c == self.prompt[self.cursor_pos as int] {
            Outcome::Correct
        } else {
            Outcome::Incorrect
        }
    }

    /// The session starts at clock reading `now`.
    pub open spec fn start(self, now: u64) -> Session {
        Session { started_at: Some(now), ..self }
    }

    /// The keystroke `c` at clock reading `now`: it is logged at the cursor,
    /// the cursor moves past it, and the first keystroke starts the session.
    pub open spec fn write(self, c: char, now: u64) -> Session {
        Session {
            input: self.input.insert(
                self.cursor_pos as int,
                Input { char: c, outcome: self.outcome_of(c), timestamp: now },
            ),
            cursor_pos: self.cursor_pos + 1,
            started_at: if self.input.len() == 0 && self.started_at is None {
                Some(now)
            } else {
                self.started_at
            },
            ..self
        }
    }

    /// The keystroke before the cursor is dropped from the log, if there is one.
    pub open spec fn backspace(self) -> Session {
        if self.cursor_pos > 0 {
            Session {
                input: self.input.remove(self.cursor_pos - 1),
                cursor_pos: (self.cursor_pos - 1) as nat,
                ..self
            }
        } else {
            self
        }
    }

    /// The cursor moves one keystroke forward, unless it is at the end of the log.
    pub open spec fn increment_cursor(self) -> Session {
        if self.cursor_pos < self.input.len() {
            Session { cursor_pos: self.cursor_pos + 1, ..self }
        } else {
            self
        }
    }

    /// The cursor moves one keystroke back, unless it is at the start of the log.
    pub open spec fn decrement_cursor(self) -> Session {
        if self.cursor_pos > 0 {
            Session { cursor_pos: (self.cursor_pos - 1) as nat, ..self }
        } else {
            self
        }
    }

    /// One tick of the countdown of a timed session.
    pub open spec fn on_tick(self) -> Session {
        Session { duration: Some(self.duration.unwrap() - TICK_MILLIS), ..self }
    }

    /// The results can be computed at clock reading `now`: the session has
    /// started and finished, something was typed, and the clock did not run
    /// backwards under the correct keystrokes.
    pub open spec fn can_finalize(self, now: u64) -> bool {
        &&& self.has_finished()
        &&& self.started_at is Some
        &&& self.input.len() > 0
        &&& timeline_ok(self.input, self.started_at.unwrap(), now)
    }

    /// `after` is this session with its results filled in, as measured at
    /// clock reading `now`.
    pub open spec fn finalized(self, now: u64, after: Session) -> bool {
        &&& after == Session {
            wpm_coords: after.wpm_coords,
            wpm: after.wpm,
            accuracy: after.accuracy,
            std_dev: after.std_dev,
            ..self
        }
        &&& is_result(
            after.wpm_coords,
            after.wpm,
            after.accuracy,
            after.std_dev,
            self.input,
            self.started_at.unwrap(),
            (now - self.started_at.unwrap()) as nat,
        )
    }
}

impl View for Thok {
    type V = Session;

    open spec fn view(&self) -> Session {
        Session {
            prompt: self.prompt@,
            input: self.input@,
            raw_coords: self.raw_coords@,
            wpm_coords: self.wpm_coords@,
            cursor_pos: self.cursor_pos as nat,
            started_at: self.started_at,
            duration: match self.duration {
                Some(d) => Some(d as int),
                None => None,
            },
            wpm: self.wpm as nat,
            accuracy: self.accuracy as nat,
            std_dev: self.std_dev,
        }
    }
}

impl Thok {
    /// The cursor lies within the log, and the log is no longer than the prompt.
    pub open spec fn wf(&self) -> bool {
        self@.wf()
    }

    /// Whether the cursor lies within the log and the log is no longer than
    /// the prompt.
    pub fn is_well_formed(&self) -> (ok: bool)
        ensures
            ok == self.wf(),
    {
        self.cursor_pos <= self.input.len() && self.input.len()
            <= self.prompt.as_str().unicode_len()
    }

    /// A session on `prompt_string`, timed if `duration` gives a number of seconds.
    pub fn new(prompt_string: String, duration: Option<usize>) -> (thok: Self)
        ensures
            thok@ == Session::fresh(prompt_string@, duration),
            thok.wf(),
    {
        let duration = match duration {
            Some(d) => Some(d as i128 * 1000),
            None => None,
        };
        Self {
            prompt: prompt_string,
            input: Vec::new(),
            raw_coords: Vec::new(),
            wpm_coords: Vec::new(),
            cursor_pos: 0,
            started_at: None,
            duration,
            wpm: 0,
            accuracy: 0,
            std_dev: None,
        }
    }

    /// Takes one tick off the countdown.
    pub fn on_tick(&mut self)
        requires
            old(self).duration is Some,
            !old(self)@.has_finished(),
        ensures
            final(self)@ == old(self)@.on_tick(),
            final(self).wf() == old(self).wf(),
    {
        self.duration = Some(self.duration.unwrap() - TICK_MILLIS);
    }

    /// The character of the prompt at `idx`.
    pub fn get_expected_char(&self, idx: usize) -> (c: char)
        requires
            idx < self.prompt@.len(),
        ensures
            c == self.prompt@[idx as int],
    {
        self.prompt.as_str().get_char(idx)
    }

    /// Moves the cursor one keystroke forward, unless it is at the end of the log.
    pub fn increment_cursor(&mut self)
        ensures
            final(self)@ == old(self)@.increment_cursor(),
            old(self).wf() ==> final(self).wf(),
            final(self)@.has_finished() == old(self)@.has_finished(),
    {
        if self.cursor_pos < self.input.len() {
            self.cursor_pos += 1;
        }
    }

    /// Moves the cursor one keystroke back, unless it is at the start of the log.
    pub fn decrement_cursor(&mut self)
        ensures
            final(self)@ == old(self)@.decrement_cursor(),
            old(self).wf() ==> final(self).wf(),
            final(self)@.has_finished() == old(self)@.has_finished(),
    {
        if self.cursor_pos > 0 {
            self.cursor_pos -= 1;
        }
    }

    /// Removes the keystroke before the cursor, if there is one.
    pub fn backspace(&mut self)
        requires
            old(self).wf(),
            !old(self)@.has_finished(),
        ensures
            final(self)@ == old(self)@.backspace(),
            final(self).wf(),
    {
        if self.cursor_pos > 0 {
            self.input.remove(self.cursor_pos - 1);
            self.decrement_cursor();
        }
    }

    /// Starts the session at clock reading `now`.
    pub fn start(&mut self, now: u64)
        requires
            !old(self)@.has_started(),
        ensures
            final(self)@ == old(self)@.start(now),
            final(self).wf() == old(self).wf(),
            final(self)@.has_finished() == old(self)@.has_finished(),
    {
        self.started_at = Some(now);
    }

    /// Records the keystroke `c`, typed at clock reading `now`.
    pub fn write(&mut self, c: char, now: u64)
        requires
            old(self).wf(),
            !old(self)@.has_finished(),
        ensures
            final(self)@ == old(self)@.write(c, now),
            final(self).wf(),
    {
        if self.input.len() == 0 && self.started_at.is_none() {
            self.start(now);
        }
        let outcome = if c == self.get_expected_char(self.cursor_pos) {
            Outcome::Correct
        } else {
            Outcome::Incorrect
        };
        self.input.insert(self.cursor_pos, Input { char: c, outcome, timestamp: now });
        self.increment_cursor();
    }

    /// Whether [`Thok::calc_results`] can be called at clock reading `now`.
    pub fn can_calc_results(&self, now: u64) -> (ok: bool)
        ensures
            ok == self@.can_finalize(now),
    {
        match self.started_at {
            Some(started) => self.has_finished() && self.input.len() > 0 && timeline_holds(
                &self.input,
                started,
                now,
            ),
            None => false,
        }
    }

    /// Computes the results of the finished session, as measured at clock
    /// reading `now`, and stores them.
    pub fn calc_results(&mut self, now: u64)
        requires
            old(self)@.can_finalize(now),
        ensures
            old(self)@.finalized(now, final(self)@),
            final(self).wf() == old(self).wf(),
            final(self)@.has_finished(),
    {
        let metrics = compute_metrics(&self.input, self.started_at.unwrap(), now);
        self.wpm_coords = metrics.wpm_coords;
        self.wpm = metrics.wpm;
        self.accuracy = metrics.accuracy;
        self.std_dev = metrics.std_dev;
    }

    /// Whether a keystroke or an explicit start has started the session.
    pub fn has_started(&self) -> (started: bool)
        ensures
            started == self@.has_started(),
    {
        self.started_at.is_some()
    }

    /// Whether the prompt has been typed to its full length or the countdown
    /// has run out.
    pub fn has_finished(&self) -> (finished: bool)
        ensures
            finished == self@.has_finished(),
    {
        self.input.len() == self.prompt.as_str().unicode_len() || match self.duration {
            Some(d) => d <= 0,
            None => false,
        }
    }
}

} // verus!

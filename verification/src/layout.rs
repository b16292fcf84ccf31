//! What a screen shows of a session: the lines that the prompt takes, the
//! look of each of its characters, the countdown, and the top of the chart
//! of results.

use crate::metrics::Coord;
use crate::thok::{Outcome, Session, Thok};
use unicode_width::UnicodeWidthStr;
use vstd::prelude::*;
use vstd::string::*;

verus! {

/// Columns left free on either side of the prompt.
pub const HORIZONTAL_MARGIN: u16 = 10;

/// Lines that the countdown takes above the prompt.
pub const TIME_LEFT_LINES: u16 = 2;

/// The colour in which a character of the prompt is shown.
#[derive(Clone, Copy, Debug, PartialEq, Eq, Structural)]
pub enum Shade {
    /// Not typed yet.
    Dim,
    /// Typed, and correctly.
    Green,
    /// Typed wrongly, or shown as such.
    Red,
}

/// The look of one character of the prompt. Every character is bold.
#[derive(Clone, Copy, Debug, PartialEq, Eq, Structural)]
pub struct CharStyle {
    pub shade: Shade,
    pub underlined: bool,
}

/// The number of columns that `text` takes on a terminal, as
/// `UnicodeWidthStr::width` computes it.
pub uninterp spec fn display_width(text: Seq<char>) -> nat;

/// Calls `UnicodeWidthStr::width`.
///
/// Not proved: that the call depends on the characters of `text` alone, so
/// that its result has a name.
#[verifier::external_body]
fn width_of(text: &str) -> (width: usize)
    ensures
        width == display_width(text@),
{
    text.width()
}

/// The lines set aside for a prompt `width` columns wide where a line holds
/// `max_chars` columns: one where the prompt fits on a line, else one more
/// than the lines that it fills, and never more than 65535.
pub open spec fn lines_for(width: nat, max_chars: nat) -> nat {
    if width <= max_chars {
        1
    } else if max_chars == 0 || (width + max_chars - 1) / (max_chars as int) + 1 > 65535 {
        65535
    } else {
        ((width + max_chars - 1) / (max_chars as int) + 1) as nat
    }
}

/// The look of the character of the prompt at `idx`.
///
/// The character under the cursor is underlined. A character beyond the log
/// is dim, and so is the one under a cursor that stands at the end of the
/// log; any other is green where the keystroke logged at its index was
/// correct, and red where it was not or where the log ends at its index.
pub open spec fn style_at(s: Session, idx: int) -> CharStyle {
    let at_cursor = idx == s.cursor_pos;
    let untyped = if at_cursor {
        idx >= s.input.len()
    } else {
        idx > s.input.len()
    };
    CharStyle {
        shade: if untyped {
            Shade::Dim
        } else if idx < s.input.len() && s.input[idx].outcome == Outcome::Correct {
            Shade::Green
        } else {
            Shade::Red
        },
        underlined: at_cursor,
    }
}

/// `top` is the highest of the rounded words per minute of `coords`, and zero
/// where there are none.
pub open spec fn is_highest_wpm(top: nat, coords: Seq<Coord>) -> bool {
    &&& forall|i: int| 0 <= i < coords.len() ==> (#[trigger] coords[i]).wpm_round() <= top
    &&& coords.len() == 0 ==> top == 0
    &&& coords.len() > 0 ==> exists|i: int|
        0 <= i < coords.len() && (#[trigger] coords[i]).wpm_round() == top
}

/// The columns that a line of the prompt holds in a frame `frame_width`
/// columns wide.
pub fn max_chars_per_line(frame_width: u16) -> (max_chars: u16)
    requires
        frame_width >= 2 * HORIZONTAL_MARGIN,
    ensures
        max_chars == frame_width - 2 * HORIZONTAL_MARGIN,
{
    frame_width - HORIZONTAL_MARGIN * 2
}

/// The lines set aside for a prompt `width` columns wide where a line holds
/// `max_chars` columns.
pub fn prompt_lines(width: usize, max_chars: u16) -> (lines: u16)
    ensures
        lines == lines_for(width as nat, max_chars as nat),
{
    if width <= max_chars as usize {
        1
    } else if max_chars == 0 {
        u16::MAX
    } else {
        let filled: u128 = (width as u128 + max_chars as u128 - 1) / (max_chars as u128) + 1;
        if filled > 65535 {
            u16::MAX
        } else {
            filled as u16
        }
    }
}

/// The rows left above and below a prompt of `lines` lines in a frame
/// `height` rows high: half of what the prompt leaves free, rounded down.
pub fn vertical_margin(height: u16, lines: u16) -> (rows: u16)
    ensures
        rows == if height >= lines {
            (height - lines) / 2
        } else {
            0
        },
{
    if height >= lines {
        (height - lines) / 2
    } else {
        0
    }
}

/// The highest of the rounded words per minute of `coords`: the top of the
/// chart of results.
pub fn highest_wpm(coords: &Vec<Coord>) -> (top: u128)
    requires
        forall|i: int| 0 <= i < coords@.len() ==> (#[trigger] coords@[i]).millis > 0,
    ensures
        is_highest_wpm(top as nat, coords@),
{
    let mut top: u128 = 0;
    let mut i: usize = 0;
    while i < coords.len()
        invariant
            i <= coords.len(),
            forall|j: int| 0 <= j < coords@.len() ==> (#[trigger] coords@[j]).millis > 0,
            is_highest_wpm(top as nat, coords@.take(i as int)),
        decreases coords.len() - i,
    {
        let here = coords[i].wpm_rounded();
        let ghost before = coords@.take(i as int);
        let ghost after = coords@.take(i + 1);
        proof {
            assert forall|j: int| 0 <= j < i implies #[trigger] after[j] == before[j] by {}
            assert(after[i as int] == coords@[i as int]);
            if i > 0 && here <= top {
                let m = choose|m: int|
                    0 <= m < before.len() && (#[trigger] before[m]).wpm_round() == top;
                assert(after[m].wpm_round() == top);
            }
        }
        if here > top || i == 0 {
            top = here;
        }
        i += 1;
    }
    assert(coords@.take(i as int) =~= coords@);
    top
}

impl Thok {
    /// The lines set aside for the prompt in a frame `frame_width` columns wide.
    pub fn occupied_lines(&self, frame_width: u16) -> (lines: u16)
        requires
            frame_width >= 2 * HORIZONTAL_MARGIN,
        ensures
            lines == lines_for(
                display_width(self.prompt@),
                (frame_width - 2 * HORIZONTAL_MARGIN) as nat,
            ),
    {
        prompt_lines(width_of(self.prompt.as_str()), max_chars_per_line(frame_width))
    }

    /// The look of the character of the prompt at `idx`.
    pub fn char_style(&self, idx: usize) -> (style: CharStyle)
        ensures
            style == style_at(self@, idx as int),
    {
        let at_cursor = idx == self.cursor_pos;
        let untyped = if at_cursor {
            idx >= self.input.len()
        } else {
            idx > self.input.len()
        };
        let shade = if untyped {
            Shade::Dim
        } else if idx < self.input.len() && self.input[idx].outcome == Outcome::Correct {
            Shade::Green
        } else {
            Shade::Red
        };
        CharStyle { shade, underlined: at_cursor }
    }

    /// The look of each character of the prompt, in order.
    pub fn prompt_styles(&self) -> (styles: Vec<CharStyle>)
        ensures
            styles@.len() == self.prompt@.len(),
            forall|i: int| 0 <= i < styles@.len() ==> #[trigger] styles@[i] == style_at(self@, i),
    {
        let len = self.prompt.as_str().unicode_len();
        let mut styles: Vec<CharStyle> = Vec::new();
        let mut idx: usize = 0;
        while idx < len
            invariant
                idx <= len,
                len == self.prompt@.len(),
                styles@.len() == idx,
                forall|i: int| 0 <= i < idx ==> #[trigger] styles@[i] == style_at(self@, i),
            decreases len - idx,
        {
            styles.push(self.char_style(idx));
            idx += 1;
        }
        styles
    }

    /// The whole seconds left on the countdown, rounded down, or `None` for a
    /// session without one.
    pub fn seconds_left(&self) -> (left: Option<i128>)
        ensures
            left == match self@.duration {
                Some(d) => Some((d / 1000) as i128),
                None => None,
            },
    {
        match self.duration {
            Some(d) => if d >= 0 {
                Some(d / 1000)
            } else {
                let below: i128 = -(d + 1);
                Some(-(below / 1000) - 1)
            },
            None => None,
        }
    }
}

} // verus!

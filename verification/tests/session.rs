use thok::{Input, Outcome, Thok};

fn session(prompt: &str, duration: Option<usize>) -> Thok {
    Thok::new(String::from(prompt), duration)
}

fn chars_of(thok: &Thok) -> String {
    thok.input.iter().map(|i| i.char).collect()
}

#[test]
fn new_session_is_empty_and_not_started() {
    let thok = session("cat", None);
    assert_eq!(thok.prompt, "cat");
    assert!(thok.input.is_empty());
    assert!(thok.wpm_coords.is_empty());
    assert!(thok.raw_coords.is_empty());
    assert_eq!(thok.cursor_pos, 0);
    assert_eq!(thok.started_at, None);
    assert_eq!(thok.duration, None);
    assert_eq!(thok.wpm, 0);
    assert_eq!(thok.accuracy, 0);
    assert_eq!(thok.std_dev, None);
    assert!(!thok.has_started());
    assert!(!thok.has_finished());
    assert!(thok.is_well_formed());
}

#[test]
fn new_timed_session_counts_down_from_its_seconds() {
    let thok = session("cat", Some(30));
    assert_eq!(thok.duration, Some(30_000));
    assert_eq!(thok.seconds_left(), Some(30));
    let huge = session("cat", Some(usize::MAX));
    assert_eq!(huge.duration, Some(usize::MAX as i128 * 1000));
}

#[test]
fn empty_prompt_is_finished_at_once() {
    let thok = session("", None);
    assert!(thok.has_finished());
    assert!(!thok.can_calc_results(0));
}

#[test]
fn first_keystroke_starts_the_session() {
    let mut thok = session("cat", None);
    thok.write('c', 42);
    assert!(thok.has_started());
    assert_eq!(thok.started_at, Some(42));
    thok.write('a', 50);
    assert_eq!(thok.started_at, Some(42));
}

#[test]
fn start_is_kept_when_the_log_empties_again() {
    let mut thok = session("cat", None);
    thok.write('x', 10);
    thok.backspace();
    assert!(thok.input.is_empty());
    thok.write('c', 99);
    assert_eq!(thok.started_at, Some(10));
}

#[test]
fn explicit_start_sets_the_clock_reading() {
    let mut thok = session("cat", None);
    thok.start(7);
    assert!(thok.has_started());
    assert_eq!(thok.started_at, Some(7));
    thok.write('c', 20);
    assert_eq!(thok.started_at, Some(7));
}

#[test]
fn write_classifies_against_the_prompt_at_the_cursor() {
    let mut thok = session("cat", None);
    thok.write('c', 1);
    thok.write('x', 2);
    assert_eq!(
        thok.input,
        vec![
            Input { char: 'c', outcome: Outcome::Correct, timestamp: 1 },
            Input { char: 'x', outcome: Outcome::Incorrect, timestamp: 2 },
        ]
    );
    assert_eq!(thok.cursor_pos, 2);
}

#[test]
fn write_inserts_at_the_cursor() {
    let mut thok = session("catch", None);
    thok.write('c', 1);
    thok.write('t', 2);
    thok.decrement_cursor();
    assert_eq!(thok.cursor_pos, 1);
    thok.write('a', 3);
    assert_eq!(chars_of(&thok), "cat");
    assert_eq!(thok.input[1].outcome, Outcome::Correct);
    assert_eq!(thok.input[1].timestamp, 3);
    assert_eq!(thok.cursor_pos, 2);
    thok.decrement_cursor();
    thok.decrement_cursor();
    thok.write('a', 4);
    assert_eq!(chars_of(&thok), "acat");
    assert_eq!(thok.input[0].outcome, Outcome::Incorrect);
    assert_eq!(thok.cursor_pos, 1);
}

#[test]
fn backspace_at_the_start_does_nothing() {
    let mut thok = session("cat", None);
    thok.backspace();
    assert!(thok.input.is_empty());
    assert_eq!(thok.cursor_pos, 0);
    thok.write('c', 1);
    thok.decrement_cursor();
    thok.backspace();
    assert_eq!(chars_of(&thok), "c");
    assert_eq!(thok.cursor_pos, 0);
}

#[test]
fn backspace_removes_the_keystroke_before_the_cursor() {
    let mut thok = session("catch", None);
    thok.write('c', 1);
    thok.write('a', 2);
    thok.write('t', 3);
    thok.decrement_cursor();
    thok.backspace();
    assert_eq!(chars_of(&thok), "ct");
    assert_eq!(thok.cursor_pos, 1);
    assert_eq!(thok.input[1].timestamp, 3);
}

#[test]
fn backspace_then_rewrite_round_trips() {
    let mut thok = session("catch", None);
    thok.write('c', 1);
    thok.write('a', 2);
    thok.write('t', 3);
    let before = thok.input.clone();
    let cursor = thok.cursor_pos;
    thok.backspace();
    thok.write('t', 9);
    assert_eq!(thok.input.len(), before.len());
    assert_eq!(thok.cursor_pos, cursor);
    assert_eq!(thok.input[cursor - 1].char, 't');
    assert_eq!(thok.input[..cursor - 1], before[..cursor - 1]);
}

#[test]
fn cursor_moves_stay_within_the_log() {
    let mut thok = session("cat", None);
    thok.increment_cursor();
    assert_eq!(thok.cursor_pos, 0);
    thok.decrement_cursor();
    assert_eq!(thok.cursor_pos, 0);
    thok.write('c', 1);
    thok.write('a', 2);
    thok.increment_cursor();
    assert_eq!(thok.cursor_pos, 2);
    thok.decrement_cursor();
    thok.decrement_cursor();
    thok.decrement_cursor();
    assert_eq!(thok.cursor_pos, 0);
    thok.increment_cursor();
    assert_eq!(thok.cursor_pos, 1);
    assert_eq!(chars_of(&thok), "ca");
    assert!(thok.is_well_formed());
}

#[test]
fn cursor_is_within_the_log_after_every_call() {
    let mut thok = session("the quick brown fox", None);
    let script = "wwbwlbbwrwwlllwbrrrwwbbbbbbbwwwlwrwb";
    let mut now = 0;
    for step in script.chars() {
        now += 10;
        match step {
            'w' => {
                if !thok.has_finished() {
                    thok.write('q', now);
                }
            }
            'b' => thok.backspace(),
            'l' => thok.decrement_cursor(),
            _ => thok.increment_cursor(),
        }
        assert!(thok.cursor_pos <= thok.input.len());
        assert!(thok.is_well_formed());
    }
}

#[test]
fn get_expected_char_reads_the_prompt_by_character() {
    let thok = session("pequeño", None);
    assert_eq!(thok.get_expected_char(0), 'p');
    assert_eq!(thok.get_expected_char(5), 'ñ');
    assert_eq!(thok.get_expected_char(6), 'o');
}

#[test]
fn prompt_length_is_counted_in_characters() {
    let mut thok = session("ñu", None);
    thok.write('ñ', 1);
    assert!(!thok.has_finished());
    thok.write('u', 2);
    assert!(thok.has_finished());
    assert_eq!(thok.input[0].outcome, Outcome::Correct);
}

#[test]
fn untimed_session_finishes_when_the_prompt_is_typed() {
    let mut thok = session("cat", None);
    assert!(!thok.has_finished());
    thok.write('c', 0);
    assert!(!thok.has_finished());
    thok.write('x', 1);
    assert!(!thok.has_finished());
    thok.write('t', 2);
    assert!(thok.has_finished());
    thok.decrement_cursor();
    assert!(thok.has_finished());
    thok.increment_cursor();
    assert!(thok.has_finished());
    thok.calc_results(5);
    assert!(thok.has_finished());
}

#[test]
fn timed_session_finishes_when_the_countdown_runs_out() {
    let mut thok = session("a long prompt", Some(1));
    thok.write('a', 0);
    for tick in 0..10 {
        assert!(!thok.has_finished(), "finished after {} ticks", tick);
        thok.on_tick();
    }
    assert_eq!(thok.duration, Some(0));
    assert!(thok.has_finished());
    assert_eq!(chars_of(&thok), "a");
}

#[test]
fn on_tick_takes_a_tenth_of_a_second() {
    let mut thok = session("cat", Some(2));
    thok.on_tick();
    assert_eq!(thok.duration, Some(1_900));
    thok.on_tick();
    thok.on_tick();
    assert_eq!(thok.duration, Some(1_700));
    assert_eq!(thok.seconds_left(), Some(1));
    assert!(thok.input.is_empty());
    assert_eq!(thok.cursor_pos, 0);
}

#[test]
fn timed_session_also_finishes_when_the_prompt_is_typed() {
    let mut thok = session("ab", Some(60));
    thok.write('a', 0);
    thok.on_tick();
    thok.write('b', 100);
    assert!(thok.has_finished());
    assert_eq!(thok.duration, Some(59_900));
}

#[test]
fn results_cannot_be_computed_before_the_end() {
    let mut thok = session("cat", None);
    assert!(!thok.can_calc_results(10));
    thok.write('c', 0);
    thok.write('a', 1);
    assert!(!thok.can_calc_results(10));
    thok.write('t', 2);
    assert!(thok.can_calc_results(2));
    assert!(thok.can_calc_results(10));
}

#[test]
fn results_need_a_clock_that_did_not_run_backwards() {
    let mut thok = session("cat", None);
    thok.write('c', 100);
    thok.write('a', 200);
    thok.write('t', 300);
    assert!(!thok.can_calc_results(299));
    assert!(!thok.can_calc_results(50));
    assert!(thok.can_calc_results(300));

    let mut early = session("cat", None);
    early.write('c', 100);
    early.write('a', 90);
    early.write('t', 300);
    assert!(!early.can_calc_results(300));

    let mut wrong_key_early = session("cat", None);
    wrong_key_early.write('c', 100);
    wrong_key_early.write('x', 90);
    wrong_key_early.write('t', 300);
    assert!(wrong_key_early.can_calc_results(300));
}

use rager::commands::{Command, Mode, State};
use rager::error::PagerError;
use rager::input::Input;
use rager::searcher::SearchMatch;
use rager::source::StdinCursor;
use rager::util::ScreenGeometry;

fn numbered_lines(count: usize) -> Vec<u8> {
    let mut bytes = Vec::new();
    let mut i = 1;
    while i <= count {
        bytes.extend_from_slice(format!("line {}\n", i).as_bytes());
        i += 1;
    }
    bytes
}

fn state_over(bytes: Vec<u8>) -> State<StdinCursor> {
    State::new(StdinCursor::new(bytes))
}

const SCREEN: ScreenGeometry = ScreenGeometry { width: 80, height: 10 };

#[test]
fn new_state_is_in_normal_mode() {
    let state = state_over(numbered_lines(3));
    assert_eq!(state.mode(), Mode::Normal);
    assert!(!state.quit());
    assert_eq!(state.current_offset(), 0);
    assert!(state.matches().is_empty());
    assert_eq!(state.command_line_text(), ":");
}

#[test]
fn normal_keys_name_commands() {
    let mut state = state_over(Vec::new());
    assert_eq!(state.command(&Input::Char('q')), Command::Quit);
    assert_eq!(state.command(&Input::Ctrl('d')), Command::DownHalfScreen);
    assert_eq!(state.command(&Input::Ctrl('u')), Command::UpHalfScreen);
    assert_eq!(state.command(&Input::Ctrl('f')), Command::DownOneScreen);
    assert_eq!(state.command(&Input::Ctrl('b')), Command::UpOneScreen);
    assert_eq!(state.command(&Input::Char('j')), Command::DownOneLine);
    assert_eq!(state.command(&Input::Char('k')), Command::UpOneLine);
    assert_eq!(state.command(&Input::Char('g')), Command::JumpBeginning);
    assert_eq!(state.command(&Input::Char('G')), Command::JumpEnd);
    assert_eq!(state.command(&Input::Char('p')), Command::JumpPercent(0));
    assert_eq!(state.command(&Input::Char('x')), Command::NoOp);
    assert_eq!(state.command(&Input::Ctrl('x')), Command::NoOp);
    assert_eq!(state.command(&Input::Ctrl('q')), Command::NoOp);
    assert_eq!(state.command(&Input::Char('d')), Command::NoOp);
    assert_eq!(state.command(&Input::Other), Command::NoOp);
    assert_eq!(state.command(&Input::Num(7)), Command::NoOp);
    assert_eq!(state.mode(), Mode::Normal);
}

#[test]
fn digits_then_p_give_the_percentage() {
    let mut state = state_over(Vec::new());
    assert_eq!(state.command(&Input::Num(2)), Command::NoOp);
    assert_eq!(state.command(&Input::Num(5)), Command::NoOp);
    assert_eq!(state.command_line_text(), ":25");
    assert_eq!(state.command(&Input::Char('p')), Command::JumpPercent(25));
    assert_eq!(state.command_line_text(), ":");
    assert_eq!(state.command(&Input::Char('p')), Command::JumpPercent(0));
}

#[test]
fn digits_then_p_jump_to_the_percentage_of_the_file() {
    let mut bytes = Vec::new();
    let mut i = 0;
    while i < 101 {
        bytes.extend_from_slice(b"123456789\n");
        i += 1;
    }
    let mut state = state_over(bytes);
    assert_eq!(state.update(&Input::Num(2), SCREEN), Ok(()));
    assert_eq!(state.update(&Input::Num(5), SCREEN), Ok(()));
    assert_eq!(state.current_offset(), 0);
    assert_eq!(state.update(&Input::Char('p'), SCREEN), Ok(()));
    assert_eq!(state.current_offset(), 250);
    assert_eq!(state.update(&Input::Char('p'), SCREEN), Ok(()));
    assert_eq!(state.current_offset(), 0);
}

#[test]
fn a_command_clears_the_prefix() {
    let mut state = state_over(Vec::new());
    state.command(&Input::Num(4));
    state.command(&Input::Num(2));
    assert_eq!(state.command(&Input::Char('x')), Command::NoOp);
    assert_eq!(state.command_line_text(), ":42");
    assert_eq!(state.command(&Input::Char('j')), Command::DownOneLine);
    assert_eq!(state.command_line_text(), ":");
    assert_eq!(state.command(&Input::Char('p')), Command::JumpPercent(0));
}

#[test]
fn prefix_reads_most_significant_digit_first() {
    let mut state = state_over(Vec::new());
    state.command(&Input::Num(0));
    assert_eq!(state.command_line_text(), ":");
    state.command(&Input::Num(1));
    state.command(&Input::Num(0));
    state.command(&Input::Num(7));
    assert_eq!(state.command_line_text(), ":107");
    assert_eq!(state.command(&Input::Char('p')), Command::JumpPercent(107));
}

#[test]
fn prefix_stops_at_the_largest_number() {
    let mut state = state_over(Vec::new());
    let mut i = 0;
    while i < 25 {
        state.command(&Input::Num(9));
        i += 1;
    }
    assert_eq!(state.command_line_text(), ":18446744073709551615");
    assert_eq!(state.command(&Input::Char('p')), Command::JumpPercent(u64::MAX));
}

#[test]
fn search_mode_round_trip() {
    let mut state = state_over(Vec::new());
    assert_eq!(state.command(&Input::Char('/')), Command::NoOp);
    assert_eq!(state.mode(), Mode::Search);
    assert_eq!(state.command_line_text(), "/");
    assert_eq!(state.command(&Input::Char('a')), Command::NoOp);
    assert_eq!(state.command(&Input::Char('b')), Command::NoOp);
    assert_eq!(state.command(&Input::Char('c')), Command::NoOp);
    assert_eq!(
        state.command(&Input::Char('\n')),
        Command::Search("abc".to_string())
    );
    assert_eq!(state.mode(), Mode::Normal);
    assert_eq!(state.command(&Input::Char('/')), Command::NoOp);
    assert_eq!(
        state.command(&Input::Char('\n')),
        Command::Search(String::new())
    );
}

#[test]
fn search_mode_takes_command_keys_as_text() {
    let mut state = state_over(Vec::new());
    state.command(&Input::Char('/'));
    assert_eq!(state.command(&Input::Char('q')), Command::NoOp);
    assert_eq!(state.command(&Input::Char('/')), Command::NoOp);
    assert_eq!(state.command(&Input::Ctrl('d')), Command::NoOp);
    assert_eq!(state.command(&Input::Num(3)), Command::NoOp);
    assert_eq!(state.command(&Input::Other), Command::NoOp);
    assert_eq!(state.mode(), Mode::Search);
    assert_eq!(
        state.command(&Input::Char('\n')),
        Command::Search("q/".to_string())
    );
}

#[test]
fn control_c_leaves_search_mode_and_drops_the_text() {
    let mut state = state_over(Vec::new());
    state.command(&Input::Char('/'));
    state.command(&Input::Char('a'));
    assert_eq!(state.command(&Input::Ctrl('c')), Command::NoOp);
    assert_eq!(state.mode(), Mode::Normal);
    state.command(&Input::Char('/'));
    state.command(&Input::Char('b'));
    assert_eq!(
        state.command(&Input::Char('\n')),
        Command::Search("b".to_string())
    );
}

#[test]
fn prefix_is_kept_over_a_dropped_search_and_cleared_by_one_sent() {
    let mut state = state_over(Vec::new());
    state.command(&Input::Num(3));
    state.command(&Input::Char('/'));
    state.command(&Input::Ctrl('c'));
    assert_eq!(state.command_line_text(), ":3");
    state.command(&Input::Char('/'));
    state.command(&Input::Char('\n'));
    assert_eq!(state.command_line_text(), ":");
}

#[test]
fn screen_keys_move_by_screens() {
    let mut state = state_over(numbered_lines(100));
    assert_eq!(state.update(&Input::Ctrl('f'), SCREEN), Ok(()));
    assert_eq!(state.current_offset(), 71);
    assert_eq!(state.update(&Input::Ctrl('b'), SCREEN), Ok(()));
    assert_eq!(state.current_offset(), 0);
}

#[test]
fn line_and_half_screen_keys_move() {
    let mut state = state_over(numbered_lines(100));
    assert_eq!(state.update(&Input::Char('j'), SCREEN), Ok(()));
    assert_eq!(state.current_offset(), 7);
    assert_eq!(state.update(&Input::Ctrl('d'), SCREEN), Ok(()));
    assert_eq!(state.current_offset(), 42);
    assert_eq!(state.update(&Input::Char('k'), SCREEN), Ok(()));
    assert_eq!(state.current_offset(), 35);
    assert_eq!(state.update(&Input::Ctrl('u'), SCREEN), Ok(()));
    assert_eq!(state.current_offset(), 0);
}

#[test]
fn jump_keys_move() {
    let mut state = state_over(numbered_lines(100));
    assert_eq!(state.update(&Input::Char('G'), SCREEN), Ok(()));
    assert_eq!(state.current_offset(), 719);
    assert_eq!(state.update(&Input::Char('g'), SCREEN), Ok(()));
    assert_eq!(state.current_offset(), 0);
}

#[test]
fn down_at_the_end_is_no_error() {
    let mut state = state_over(numbered_lines(100));
    let one = ScreenGeometry { width: 80, height: 1 };
    assert_eq!(state.update(&Input::Char('G'), one), Ok(()));
    assert_eq!(state.current_offset(), 792);
    assert_eq!(state.update(&Input::Char('j'), one), Ok(()));
    assert_eq!(state.current_offset(), 792);
    assert_eq!(state.update(&Input::Ctrl('d'), SCREEN), Ok(()));
    assert_eq!(state.update(&Input::Ctrl('f'), SCREEN), Ok(()));
    assert_eq!(state.current_offset(), 792);
}

#[test]
fn quit_key_sets_quit() {
    let mut state = state_over(numbered_lines(3));
    assert_eq!(state.update(&Input::Char('x'), SCREEN), Ok(()));
    assert!(!state.quit());
    assert_eq!(state.update(&Input::Char('q'), SCREEN), Ok(()));
    assert!(state.quit());
    assert_eq!(state.update(&Input::Char('j'), SCREEN), Ok(()));
    assert!(state.quit());
}

#[test]
fn enter_runs_the_search() {
    let mut state = state_over(numbered_lines(100));
    state.update(&Input::Ctrl('f'), SCREEN).unwrap();
    for c in "/line 9".chars() {
        assert_eq!(state.update(&Input::Char(c), SCREEN), Ok(()));
    }
    assert!(state.matches().is_empty());
    assert_eq!(state.update(&Input::Char('\n'), SCREEN), Ok(()));
    assert_eq!(state.mode(), Mode::Normal);
    assert_eq!(state.current_offset(), 71);
    assert_eq!(state.matches().len(), 11);
    assert_eq!(state.matches()[0], SearchMatch { offset: 56, length: 6 });
    assert_eq!(state.matches()[1], SearchMatch { offset: 703, length: 6 });
}

#[test]
fn invalid_pattern_returns_to_normal_mode() {
    let mut state = state_over(numbered_lines(100));
    for c in "/line 1\n".chars() {
        state.update(&Input::Char(c), SCREEN).unwrap();
    }
    assert_eq!(state.matches().len(), 12);
    for c in "/(".chars() {
        assert_eq!(state.update(&Input::Char(c), SCREEN), Ok(()));
    }
    assert_eq!(
        state.update(&Input::Char('\n'), SCREEN),
        Err(PagerError::InvalidPattern)
    );
    assert_eq!(state.mode(), Mode::Normal);
    assert_eq!(state.matches().len(), 12);
    assert_eq!(state.update(&Input::Char('/'), SCREEN), Ok(()));
    assert_eq!(
        state.command(&Input::Char('\n')),
        Command::Search(String::new())
    );
}

#[test]
fn state_page_reads_at_the_cursor() {
    let mut state = state_over(numbered_lines(100));
    state.update(&Input::Char('j'), SCREEN).unwrap();
    let narrow = ScreenGeometry { width: 2, height: 1 };
    assert_eq!(state.page(narrow), Ok((7, b"line 2\nl".to_vec())));
    assert_eq!(state.current_offset(), 7);
}

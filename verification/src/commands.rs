//! From key events to commands, and from commands to moves of the cursor.
//!
//! In normal mode a key names a command, and digits typed before it make up
//! a number for it. In search mode the keys make up the search expression
//! until Enter sends it off or Control-C drops it.

use vstd::prelude::*;
use crate::error::PagerError;
use crate::input::Input;
use crate::reader::{
    down_outcome, jump_end_outcome, jump_percentage_outcome, lands, up_outcome, BiBufReader,
    Search,
};
use crate::searcher::{search_outcome, SearchMatch};
use crate::source::{readable, ByteSource};
use crate::util::ScreenGeometry;

verus! {

/// What the pager is asked to do.
#[derive(Debug, PartialEq, Eq)]
pub enum Command {
    UpOneLine,
    UpHalfScreen,
    UpOneScreen,
    DownOneLine,
    DownHalfScreen,
    DownOneScreen,
    JumpBeginning,
    JumpEnd,
    JumpPercent(u64),
    Search(String),
    Quit,
    NoOp,
}

/// A command, with the text of a search as a sequence of characters.
pub enum CommandView {
    UpOneLine,
    UpHalfScreen,
    UpOneScreen,
    DownOneLine,
    DownHalfScreen,
    DownOneScreen,
    JumpBeginning,
    JumpEnd,
    JumpPercent(u64),
    Search(Seq<char>),
    Quit,
    NoOp,
}

impl View for Command {
    type V = CommandView;

    open spec fn view(&self) -> CommandView {
        match self {
            Command::UpOneLine => CommandView::UpOneLine,
            Command::UpHalfScreen => CommandView::UpHalfScreen,
            Command::UpOneScreen => CommandView::UpOneScreen,
            Command::DownOneLine => CommandView::DownOneLine,
            Command::DownHalfScreen => CommandView::DownHalfScreen,
            Command::DownOneScreen => CommandView::DownOneScreen,
            Command::JumpBeginning => CommandView::JumpBeginning,
            Command::JumpEnd => CommandView::JumpEnd,
            Command::JumpPercent(percent) => CommandView::JumpPercent(*percent),
            Command::Search(text) => CommandView::Search(text@),
            Command::Quit => CommandView::Quit,
            Command::NoOp => CommandView::NoOp,
        }
    }
}

/// Which meaning the keys have.
#[derive(Debug, Clone, Copy, PartialEq, Eq, Structural)]
pub enum Mode {
    Normal,
    Search,
}

/// What the keys typed so far have left behind.
pub struct Keys {
    /// The mode.
    pub mode: Mode,
    /// The digits typed since the last command, the first typed first.
    pub prefix: Seq<u32>,
    /// The search expression typed so far.
    pub query: Seq<char>,
}

/// The number that `digits` spell in base 10, the first digit counting most.
pub open spec fn prefix_value(digits: Seq<u32>) -> nat
    decreases digits.len(),
{
    if digits.len() == 0 {
        0
    } else {
        prefix_value(digits.drop_last()) * 10 + digits.last() as nat
    }
}

/// The number that `digits` spell, as far as a `u64` can hold it.
pub open spec fn prefix_total(digits: Seq<u32>) -> u64 {
    if prefix_value(digits) <= u64::MAX {
        prefix_value(digits) as u64
    } else {
        u64::MAX
    }
}

/// The command that a key names in normal mode, the digits typed before it
/// spelling `total`.
pub open spec fn normal_key(input: Input, total: u64) -> CommandView {
    match input {
        Input::Char(c) => if c == 'q' {
            CommandView::Quit
        } else if c == 'j' {
            CommandView::DownOneLine
        } else if c == 'k' {
            CommandView::UpOneLine
        } else if c == 'g' {
            CommandView::JumpBeginning
        } else if c == 'G' {
            CommandView::JumpEnd
        } else if c == 'p' {
            CommandView::JumpPercent(total)
        } else {
            CommandView::NoOp
        },
        Input::Ctrl(c) => if c == 'd' {
            CommandView::DownHalfScreen
        } else if c == 'u' {
            CommandView::UpHalfScreen
        } else if c == 'f' {
            CommandView::DownOneScreen
        } else if c == 'b' {
            CommandView::UpOneScreen
        } else {
            CommandView::NoOp
        },
        _ => CommandView::NoOp,
    }
}

/// What a key does in normal mode: `/` opens search mode, a digit joins the
/// prefix, and a key that names a command gives it and clears the prefix.
pub open spec fn normal_step(keys: Keys, input: Input) -> (Keys, CommandView) {
    let command = normal_key(input, prefix_total(keys.prefix));
    if input == Input::Char('/') {
        (Keys { mode: Mode::Search, ..keys }, CommandView::NoOp)
    } else if input is Num {
        (Keys { prefix: keys.prefix.push(input->Num_0), ..keys }, CommandView::NoOp)
    } else if command is NoOp {
        (keys, CommandView::NoOp)
    } else {
        (Keys { prefix: Seq::empty(), ..keys }, command)
    }
}

/// What a key does in search mode: Control-C drops the expression, Enter
/// sends it off, and both lead back to normal mode; any other character
/// joins the expression.
pub open spec fn search_step(keys: Keys, input: Input) -> (Keys, CommandView) {
    match input {
        Input::Ctrl(c) => if c == 'c' {
            (Keys { mode: Mode::Normal, query: Seq::empty(), ..keys }, CommandView::NoOp)
        } else {
            (keys, CommandView::NoOp)
        },
        Input::Char(c) => if c == '\n' {
            (
                Keys { mode: Mode::Normal, prefix: Seq::empty(), query: Seq::empty() },
                CommandView::Search(keys.query),
            )
        } else {
            (Keys { query: keys.query.push(c), ..keys }, CommandView::NoOp)
        },
        _ => (keys, CommandView::NoOp),
    }
}

/// What a key does.
pub open spec fn step(keys: Keys, input: Input) -> (Keys, CommandView) {
    match keys.mode {
        Mode::Normal => normal_step(keys, input),
        Mode::Search => search_step(keys, input),
    }
}

/// The character for the digit `d`.
pub open spec fn digit_char(d: nat) -> char {
    if d == 0 {
        '0'
    } else if d == 1 {
        '1'
    } else if d == 2 {
        '2'
    } else if d == 3 {
        '3'
    } else if d == 4 {
        '4'
    } else if d == 5 {
        '5'
    } else if d == 6 {
        '6'
    } else if d == 7 {
        '7'
    } else if d == 8 {
        '8'
    } else {
        '9'
    }
}

/// `n` written in base 10.
pub open spec fn decimal_digits(n: nat) -> Seq<char>
    decreases n,
{
    if n < 10 {
        seq![digit_char(n)]
    } else {
        decimal_digits(n / 10).push(digit_char(n % 10))
    }
}

/// The text of the command line: `:` and the prefix, where it spells more
/// than 0, in normal mode; `/` in search mode.
pub open spec fn command_line(keys: Keys) -> Seq<char> {
    match keys.mode {
        Mode::Normal => if prefix_total(keys.prefix) == 0 {
            seq![':']
        } else {
            seq![':'] + decimal_digits(prefix_total(keys.prefix) as nat)
        },
        Mode::Search => seq!['/'],
    }
}

/// A move down that finds nothing left to read counts as done, the cursor
/// staying where it is.
pub open spec fn recovered(outcome: Result<int, PagerError>, cursor: int) -> Result<
    int,
    PagerError,
> {
    if outcome == Err::<int, PagerError>(PagerError::EndOfInput) {
        Ok(cursor)
    } else {
        outcome
    }
}

/// Where a command leaves the cursor.
pub open spec fn move_outcome(
    command: CommandView,
    content: Seq<u8>,
    cursor: int,
    screen: ScreenGeometry,
) -> Result<int, PagerError> {
    match command {
        CommandView::UpOneLine => up_outcome(content, cursor, 1, screen),
        CommandView::UpHalfScreen => up_outcome(
            content,
            cursor,
            (screen.height / 2) as nat,
            screen,
        ),
        CommandView::UpOneScreen => up_outcome(content, cursor, screen.height as nat, screen),
        CommandView::DownOneLine => recovered(down_outcome(content, cursor, 1, screen), cursor),
        CommandView::DownHalfScreen => recovered(
            down_outcome(content, cursor, (screen.height / 2) as nat, screen),
            cursor,
        ),
        CommandView::DownOneScreen => recovered(
            down_outcome(content, cursor, screen.height as nat, screen),
            cursor,
        ),
        CommandView::JumpBeginning => jump_percentage_outcome(content, 0, screen),
        CommandView::JumpEnd => jump_end_outcome(content, screen),
        CommandView::JumpPercent(percent) => jump_percentage_outcome(content, percent, screen),
        CommandView::Search(_) => Ok(cursor),
        CommandView::Quit => Ok(cursor),
        CommandView::NoOp => Ok(cursor),
    }
}

/// How a command ends: a move as `move_outcome` says, and a search with
/// the cursor where it was, unless its expression is refused.
pub open spec fn update_outcome(
    command: CommandView,
    content: Seq<u8>,
    cursor: int,
    screen: ScreenGeometry,
) -> Result<int, PagerError> {
    match command {
        CommandView::Search(pattern) => match search_outcome(pattern, content) {
            Ok(_) => Ok(cursor),
            Err(e) => Err(e),
        },
        _ => move_outcome(command, content, cursor, screen),
    }
}

/// `String::push` appends one character.
pub assume_specification[ String::push ](text: &mut String, ch: char)
    ensures
        final(text)@ == old(text)@.push(ch),
;

/// Gives the character for the digit `d`.
fn digit(d: u64) -> (c: char)
    requires
        d < 10,
    ensures
        c == digit_char(d as nat),
{
    if d == 0 {
        '0'
    } else if d == 1 {
        '1'
    } else if d == 2 {
        '2'
    } else if d == 3 {
        '3'
    } else if d == 4 {
        '4'
    } else if d == 5 {
        '5'
    } else if d == 6 {
        '6'
    } else if d == 7 {
        '7'
    } else if d == 8 {
        '8'
    } else {
        '9'
    }
}

/// Appends `n`, written in base 10, to `text`.
fn push_decimal(text: &mut String, n: u64)
    ensures
        final(text)@ == old(text)@ + decimal_digits(n as nat),
    decreases n,
{
    if n >= 10 {
        push_decimal(text, n / 10);
    }
    text.push(digit(n % 10));
    assert(text@ =~= old(text)@ + decimal_digits(n as nat));
}

/// Lets a move down that found nothing left to read count as done.
fn recover(r: Result<(), PagerError>) -> (recovered: Result<(), PagerError>)
    ensures
        recovered == if r == Err::<(), PagerError>(PagerError::EndOfInput) {
            Ok::<(), PagerError>(())
        } else {
            r
        },
{
    match r {
        Err(PagerError::EndOfInput) => Ok(()),
        other => other,
    }
}

/// The pager's state: the reader, the mode and what was typed so far.
pub struct State<R> {
    reader: BiBufReader<R>,
    quit: bool,
    found: Vec<SearchMatch>,
    mode: Mode,
    buf: Vec<u32>,
    search_buf: String,
}

impl<R: ByteSource> State<R> {
    /// The mode, the prefix and the search expression.
    pub closed spec fn keys(&self) -> Keys {
        Keys { mode: self.mode, prefix: self.buf@, query: self.search_buf@ }
    }

    /// What the last search that succeeded found.
    pub closed spec fn found(&self) -> Seq<SearchMatch> {
        self.found@
    }

    /// The navigation engine over the input.
    pub closed spec fn engine(&self) -> BiBufReader<R> {
        self.reader
    }

    /// Whether the user asked to leave.
    pub closed spec fn has_quit(&self) -> bool {
        self.quit
    }

    /// What holds of the state between calls.
    pub open spec fn wf(&self) -> bool {
        self.engine().wf()
    }

    /// Starts in normal mode at the top of `source`, with nothing typed
    /// and nothing found.
    pub fn new(source: R) -> (state: State<R>)
        requires
            source.model() matches Some(model) ==> model.valid(),
        ensures
            state.wf(),
            state.engine().cursor() == 0,
            state.engine().modelled() == source.model() is Some,
            source.model() matches Some(model) ==> state.engine().content() == model.content,
            !state.has_quit(),
            state.found() == Seq::<SearchMatch>::empty(),
            state.keys() == (Keys {
                mode: Mode::Normal,
                prefix: Seq::empty(),
                query: Seq::empty(),
            }),
    {
        State {
            reader: BiBufReader::new(source),
            quit: false,
            found: Vec::new(),
            mode: Mode::Normal,
            buf: Vec::new(),
            search_buf: String::new(),
        }
    }

    /// Whether the user asked to leave.
    pub fn quit(&self) -> (quit: bool)
        ensures
            quit == self.has_quit(),
    {
        self.quit
    }

    /// The offset of the top of the page.
    pub fn current_offset(&self) -> (offset: u64)
        ensures
            offset == self.engine().cursor(),
    {
        self.reader.current_offset()
    }

    /// The mode.
    pub fn mode(&self) -> (mode: Mode)
        ensures
            mode == self.keys().mode,
    {
        self.mode
    }

    /// What the last search that succeeded found.
    pub fn matches(&self) -> (found: &Vec<SearchMatch>)
        ensures
            found@ == self.found(),
    {
        &self.found
    }

    /// Adds a digit to the prefix.
    fn add_number(&mut self, n: u32)
        ensures
            final(self).keys() == (Keys {
                prefix: old(self).keys().prefix.push(n),
                ..old(self).keys()
            }),
            final(self).engine() == old(self).engine(),
            final(self).has_quit() == old(self).has_quit(),
            final(self).found() == old(self).found(),
    {
        self.buf.push(n);
    }

    /// The number that the prefix spells, or the largest `u64` where it
    /// spells more.
    fn total_number(&self) -> (total: u64)
        ensures
            total == prefix_total(self.keys().prefix),
    {
        let mut total: u64 = 0;
        let mut i: usize = 0;
        while i < self.buf.len()
            invariant
                i <= self.buf@.len(),
                total == prefix_total(self.buf@.take(i as int)),
            decreases self.buf@.len() - i,
        {
            let wide: u128 = (total as u128) * 10 + (self.buf[i] as u128);
            proof {
                let shorter = self.buf@.take(i as int);
                let longer = self.buf@.take(i + 1);
                assert(longer.drop_last() =~= shorter);
                assert(longer.last() == self.buf@[i as int]);
                assert(prefix_value(longer) == prefix_value(shorter) * 10 + self.buf@[i as int]);
            }
            total = if wide > u64::MAX as u128 {
                u64::MAX
            } else {
                wide as u64
            };
            i += 1;
        }
        assert(self.buf@.take(i as int) =~= self.buf@);
        total
    }

    /// Reads a key in normal mode.
    fn normal_command(&mut self, input: &Input) -> (command: Command)
        requires
            old(self).keys().mode == Mode::Normal,
        ensures
            (final(self).keys(), command@) == normal_step(old(self).keys(), *input),
            final(self).engine() == old(self).engine(),
            final(self).has_quit() == old(self).has_quit(),
            final(self).found() == old(self).found(),
    {
        let command = match *input {
            Input::Char(c) => {
                if c == 'q' {
                    Command::Quit
                } else if c == 'j' {
                    Command::DownOneLine
                } else if c == 'k' {
                    Command::UpOneLine
                } else if c == 'g' {
                    Command::JumpBeginning
                } else if c == 'G' {
                    Command::JumpEnd
                } else if c == 'p' {
                    Command::JumpPercent(self.total_number())
                } else if c == '/' {
                    self.mode = Mode::Search;
                    Command::NoOp
                } else {
                    Command::NoOp
                }
            },
            Input::Ctrl(c) => {
                if c == 'd' {
                    Command::DownHalfScreen
                } else if c == 'u' {
                    Command::UpHalfScreen
                } else if c == 'f' {
                    Command::DownOneScreen
                } else if c == 'b' {
                    Command::UpOneScreen
                } else {
                    Command::NoOp
                }
            },
            Input::Num(n) => {
                self.add_number(n);
                Command::NoOp
            },
            Input::Other => Command::NoOp,
        };
        match command {
            Command::NoOp => {},
            _ => {
                self.buf.clear();
            },
        }
        command
    }

    /// Reads a key in search mode.
    fn search_command(&mut self, input: &Input) -> (command: Command)
        requires
            old(self).keys().mode == Mode::Search,
        ensures
            (final(self).keys(), command@) == search_step(old(self).keys(), *input),
            final(self).engine() == old(self).engine(),
            final(self).has_quit() == old(self).has_quit(),
            final(self).found() == old(self).found(),
    {
        match *input {
            Input::Ctrl(c) => {
                if c == 'c' {
                    self.mode = Mode::Normal;
                    self.search_buf = String::new();
                }
                Command::NoOp
            },
            Input::Char(c) => {
                if c == '\n' {
                    let text = self.search_buf.clone();
                    self.mode = Mode::Normal;
                    self.search_buf = String::new();
                    self.buf.clear();
                    Command::Search(text)
                } else {
                    self.search_buf.push(c);
                    Command::NoOp
                }
            },
            _ => Command::NoOp,
        }
    }

    /// Reads a key: gives the command that it names and takes note of
    /// what it leaves behind.
    pub fn command(&mut self, input: &Input) -> (command: Command)
        ensures
            (final(self).keys(), command@) == step(old(self).keys(), *input),
            final(self).engine() == old(self).engine(),
            final(self).has_quit() == old(self).has_quit(),
            final(self).found() == old(self).found(),
    {
        match self.mode {
            Mode::Normal => self.normal_command(input),
            Mode::Search => self.search_command(input),
        }
    }

    /// Searches the input for `pattern` and keeps what is found.
    fn do_search(&mut self, pattern: &str) -> (r: Result<(), PagerError>)
        requires
            old(self).wf(),
        ensures
            final(self).wf(),
            final(self).keys() == old(self).keys(),
            final(self).has_quit() == old(self).has_quit(),
            final(self).engine().modelled() == old(self).engine().modelled(),
            final(self).engine().cursor() == old(self).engine().cursor(),
            r is Err ==> final(self).found() == old(self).found(),
            old(self).engine().modelled() ==> {
                &&& final(self).engine().content() == old(self).engine().content()
                &&& match r {
                    Ok(_) => search_outcome(pattern@, old(self).engine().content()) == Ok::<
                        Seq<SearchMatch>,
                        PagerError,
                    >(final(self).found()),
                    Err(e) => search_outcome(pattern@, old(self).engine().content()) == Err::<
                        Seq<SearchMatch>,
                        PagerError,
                    >(e),
                }
            },
    {
        match self.reader.search(pattern) {
            Ok(found) => {
                self.found = found;
                Ok(())
            },
            Err(e) => Err(e),
        }
    }

    /// Reads a key and carries out the command that it names.
    ///
    /// A move leaves the cursor where `move_outcome` says, a search leaves
    /// it alone and keeps what it found, and `q` sets `quit`. Whatever fails
    /// leaves the cursor and the matches as they were; the key is still taken
    /// note of.
    pub fn update(&mut self, input: &Input, screen: ScreenGeometry) -> (r: Result<
        (),
        PagerError,
    >)
        requires
            old(self).wf(),
        ensures
            final(self).wf(),
            final(self).engine().modelled() == old(self).engine().modelled(),
            final(self).keys() == step(old(self).keys(), *input).0,
            final(self).has_quit() == (old(self).has_quit() || step(
                old(self).keys(),
                *input,
            ).1 is Quit),
            r is Err ==> final(self).engine().cursor() == old(self).engine().cursor(),
            r is Err || !(step(old(self).keys(), *input).1 is Search) ==> final(self).found()
                == old(self).found(),
            old(self).engine().modelled() ==> {
                &&& final(self).engine().content() == old(self).engine().content()
                &&& lands(
                    r,
                    old(self).engine().cursor(),
                    final(self).engine().cursor(),
                    update_outcome(
                        step(old(self).keys(), *input).1,
                        old(self).engine().content(),
                        old(self).engine().cursor(),
                        screen,
                    ),
                )
                &&& r is Ok ==> (step(old(self).keys(), *input).1 matches CommandView::Search(
                    pattern,
                ) ==> search_outcome(pattern, old(self).engine().content()) == Ok::<
                    Seq<SearchMatch>,
                    PagerError,
                >(final(self).found()))
            },
    {
        let command = self.command(input);
        match command {
            Command::UpOneLine => self.reader.up_n_lines(1, screen),
            Command::DownOneLine => recover(self.reader.down_n_lines(1, screen)),
            Command::DownHalfScreen => recover(
                self.reader.down_n_lines(screen.screen_height_half() as usize, screen),
            ),
            Command::UpHalfScreen => self.reader.up_n_lines(
                screen.screen_height_half() as usize,
                screen,
            ),
            Command::DownOneScreen => recover(
                self.reader.down_n_lines(screen.height as usize, screen),
            ),
            Command::UpOneScreen => self.reader.up_n_lines(screen.height as usize, screen),
            Command::JumpBeginning => self.reader.jump_percentage(0, screen),
            Command::JumpEnd => self.reader.jump_end(screen),
            Command::JumpPercent(percent) => self.reader.jump_percentage(percent, screen),
            Command::Search(pattern) => self.do_search(pattern.as_str()),
            Command::Quit => {
                self.quit = true;
                Ok(())
            },
            Command::NoOp => Ok(()),
        }
    }

    /// Reads the page at the cursor for the screen.
    pub fn page(&mut self, screen: ScreenGeometry) -> (r: Result<(u64, Vec<u8>), PagerError>)
        requires
            old(self).wf(),
        ensures
            final(self).wf(),
            final(self).keys() == old(self).keys(),
            final(self).has_quit() == old(self).has_quit(),
            final(self).found() == old(self).found(),
            final(self).engine().modelled() == old(self).engine().modelled(),
            final(self).engine().cursor() == old(self).engine().cursor(),
            r matches Ok((offset, _)) ==> offset == old(self).engine().cursor(),
            old(self).engine().modelled() ==> {
                &&& final(self).engine().content() == old(self).engine().content()
                &&& match r {
                    Ok((_, bytes)) => bytes@ == readable(
                        old(self).engine().content(),
                        old(self).engine().cursor(),
                        screen.page_bytes(),
                    ),
                    Err(_) => false,
                }
            },
    {
        self.reader.page(screen)
    }

    /// Gives the text of the command line.
    pub fn command_line_text(&self) -> (text: String)
        ensures
            text@ == command_line(self.keys()),
    {
        let mut text = String::new();
        match self.mode {
            Mode::Normal => {
                text.push(':');
                let total = self.total_number();
                if total != 0 {
                    push_decimal(&mut text, total);
                }
            },
            Mode::Search => {
                text.push('/');
            },
        }
        assert(text@ =~= command_line(self.keys()));
        text
    }
}

} // verus!

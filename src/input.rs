//! What key presses, mouse events and palette commands ask the editor to do.

use crate::colour_string::{cells_of, grapheme_clusters, Colour, ColourString, Info, Style, RED};
use crate::cursor::Direction;
use crate::window::{is_whitespace, white_space};
use vstd::prelude::*;
use vstd::string::*;

verus! {

/// A key press, as far as the editor tells keys apart.
#[derive(Clone, Copy, Debug, PartialEq, Eq, Structural)]
pub enum Key {
    Char(char),
    Backspace,
    Enter,
    Esc,
    Up,
    Down,
    Left,
    Right,
    Other,
}

/// Which pane a cursor movement goes to.
#[derive(Clone, Copy, Debug, PartialEq, Eq, Structural)]
pub enum Target {
    FileExplorer,
    Home,
    File,
}

/// What a key press asks the editor to do.
#[derive(Clone, Copy, Debug, PartialEq, Eq, Structural)]
pub enum Action {
    /// Append a character to the command being typed.
    TypeCommand(char),
    /// Delete the command's last character; close the palette if it empties.
    EraseCommand,
    /// Close the palette and run the command.
    RunCommand,
    /// Close the palette and forget the command.
    CancelCommand,
    /// Insert a character at the file cursor.
    InsertChar(char),
    /// Delete the character before the file cursor.
    Backspace,
    /// Split the line at the file cursor.
    NewLine,
    /// Leave insert mode.
    LeaveInsert,
    /// Open the command palette.
    OpenPalette,
    /// Show or hide the file explorer.
    ToggleExplorer,
    /// Give the file explorer the keyboard, or take it back.
    ToggleExplorerFocus,
    /// Enter insert mode.
    EnterInsert,
    NextTab,
    PreviousTab,
    CloseTab,
    /// Act on the file explorer's selected entry.
    OpenSelected,
    /// Move a pane's cursor one step.
    Move(Target, Direction),
    /// Move a pane's cursor to a column and row; in the file explorer, also
    /// act on the entry there.
    Click(Target, u16, u16),
    Nothing,
}

/// The pane that gets the terminal cursor.
#[derive(Clone, Copy, Debug, PartialEq, Eq, Structural)]
pub enum Focus {
    Home,
    Editor { insert: bool },
    FileExplorer,
    CommandPalette,
}

/// Which pane gets the terminal cursor: the command palette, else the
/// selected file explorer, else the current file, else the home screen.
pub open spec fn focus_spec(palette_enabled: bool, explorer_selected: bool, has_files: bool, insert: bool) -> Focus {
    if palette_enabled {
        Focus::CommandPalette
    } else if explorer_selected {
        Focus::FileExplorer
    } else if has_files {
        Focus::Editor { insert }
    } else {
        Focus::Home
    }
}

pub fn focus(palette_enabled: bool, explorer_selected: bool, has_files: bool, insert: bool) -> (r: Focus)
    ensures
        r == focus_spec(palette_enabled, explorer_selected, has_files, insert),
{
    if palette_enabled {
        Focus::CommandPalette
    } else if explorer_selected {
        Focus::FileExplorer
    } else if has_files {
        Focus::Editor { insert }
    } else {
        Focus::Home
    }
}

/// The direction a movement key stands for: arrows, or `w`, `a`, `s`, `d`.
pub open spec fn direction_of(key: Key) -> Option<Direction> {
    match key {
        Key::Up | Key::Char('w') => Some(Direction::Up),
        Key::Down | Key::Char('s') => Some(Direction::Down),
        Key::Left | Key::Char('a') => Some(Direction::Left),
        Key::Right | Key::Char('d') => Some(Direction::Right),
        _ => None,
    }
}

/// What a key press (without modifiers, or with shift) asks for.
pub open spec fn action_spec(
    palette_enabled: bool,
    has_files: bool,
    insert: bool,
    explorer_selected: bool,
    key: Key,
) -> Action {
    if palette_enabled {
        match key {
            Key::Char(c) => Action::TypeCommand(c),
            Key::Backspace => Action::EraseCommand,
            Key::Enter => Action::RunCommand,
            Key::Esc => Action::CancelCommand,
            _ => Action::Nothing,
        }
    } else if has_files && insert {
        match key {
            Key::Char(c) => Action::InsertChar(c),
            Key::Backspace => Action::Backspace,
            Key::Enter => Action::NewLine,
            Key::Esc => Action::LeaveInsert,
            _ => Action::Nothing,
        }
    } else {
        match key {
            Key::Char(':') => Action::OpenPalette,
            Key::Char('c') => Action::ToggleExplorer,
            Key::Char('C') => Action::ToggleExplorerFocus,
            Key::Char('i') => Action::EnterInsert,
            Key::Char('n') => Action::NextTab,
            Key::Char('b') => Action::PreviousTab,
            Key::Char('x') => Action::CloseTab,
            Key::Enter => Action::OpenSelected,
            _ => match direction_of(key) {
                Some(d) => Action::Move(
                    if explorer_selected {
                        Target::FileExplorer
                    } else if !has_files {
                        Target::Home
                    } else {
                        Target::File
                    },
                    d,
                ),
                None => Action::Nothing,
            },
        }
    }
}

/// What a key press asks for, given which panes are open.
pub fn action_for_key(palette_enabled: bool, has_files: bool, insert: bool, explorer_selected: bool, key: Key) -> (r:
    Action)
    ensures
        r == action_spec(palette_enabled, has_files, insert, explorer_selected, key),
{
    if palette_enabled {
        match key {
            Key::Char(c) => Action::TypeCommand(c),
            Key::Backspace => Action::EraseCommand,
            Key::Enter => Action::RunCommand,
            Key::Esc => Action::CancelCommand,
            _ => Action::Nothing,
        }
    } else if has_files && insert {
        match key {
            Key::Char(c) => Action::InsertChar(c),
            Key::Backspace => Action::Backspace,
            Key::Enter => Action::NewLine,
            Key::Esc => Action::LeaveInsert,
            _ => Action::Nothing,
        }
    } else {
        let direction = match key {
            Key::Up | Key::Char('w') => Some(Direction::Up),
            Key::Down | Key::Char('s') => Some(Direction::Down),
            Key::Left | Key::Char('a') => Some(Direction::Left),
            Key::Right | Key::Char('d') => Some(Direction::Right),
            _ => None,
        };
        match key {
            Key::Char(':') => Action::OpenPalette,
            Key::Char('c') => Action::ToggleExplorer,
            Key::Char('C') => Action::ToggleExplorerFocus,
            Key::Char('i') => Action::EnterInsert,
            Key::Char('n') => Action::NextTab,
            Key::Char('b') => Action::PreviousTab,
            Key::Char('x') => Action::CloseTab,
            Key::Enter => Action::OpenSelected,
            _ => match direction {
                Some(d) => Action::Move(
                    if explorer_selected {
                        Target::FileExplorer
                    } else if !has_files {
                        Target::Home
                    } else {
                        Target::File
                    },
                    d,
                ),
                None => Action::Nothing,
            },
        }
    }
}

/// A mouse event, as far as the editor tells them apart.
#[derive(Clone, Copy, Debug, PartialEq, Eq, Structural)]
pub enum Mouse {
    LeftDown(u16, u16),
    ScrollUp,
    ScrollDown,
    Other,
}

/// What a mouse event asks for: a click goes to the selected explorer, else
/// to the current file, else to the home screen; scrolling steps the file's
/// or the home screen's cursor.
pub open spec fn mouse_action_spec(explorer_selected: bool, has_files: bool, mouse: Mouse) -> Action {
    let pane = if has_files { Target::File } else { Target::Home };
    match mouse {
        Mouse::LeftDown(x, y) => Action::Click(if explorer_selected { Target::FileExplorer } else { pane }, x, y),
        Mouse::ScrollUp => Action::Move(pane, Direction::Up),
        Mouse::ScrollDown => Action::Move(pane, Direction::Down),
        Mouse::Other => Action::Nothing,
    }
}

pub fn action_for_mouse(explorer_selected: bool, has_files: bool, mouse: Mouse) -> (r: Action)
    ensures
        r == mouse_action_spec(explorer_selected, has_files, mouse),
{
    let pane = if has_files { Target::File } else { Target::Home };
    match mouse {
        Mouse::LeftDown(x, y) => Action::Click(if explorer_selected { Target::FileExplorer } else { pane }, x, y),
        Mouse::ScrollUp => Action::Move(pane, Direction::Up),
        Mouse::ScrollDown => Action::Move(pane, Direction::Down),
        Mouse::Other => Action::Nothing,
    }
}

/// The tab after `index` among `count`, wrapping round.
pub fn next_tab(index: usize, count: usize) -> (r: usize)
    requires
        index < count,
    ensures
        r == if index + 1 == count { 0 } else { index + 1 },
        r < count,
{
    if index + 1 == count {
        0
    } else {
        index + 1
    }
}

/// The tab before `index` among `count`, wrapping round.
pub fn previous_tab(index: usize, count: usize) -> (r: usize)
    requires
        index < count,
    ensures
        r == if index == 0 { count - 1 } else { index - 1 },
        r < count,
{
    if index == 0 {
        count - 1
    } else {
        index - 1
    }
}

/// The current tab once tab `index` has been closed: the one before it,
/// or the first.
pub fn tab_after_close(index: usize) -> (r: usize)
    ensures
        r == if index == 0 { 0 } else { index - 1 },
{
    if index == 0 {
        0
    } else {
        index - 1
    }
}

/// A command typed in the palette.
#[derive(Clone, Debug, PartialEq, Eq)]
pub enum Command {
    /// Nothing was typed.
    Empty,
    Quit,
    /// Open the file at the path; `None` when no path was given.
    Open(Option<String>),
    Save,
    /// A command the editor does not know, by the name typed.
    Unknown(String),
}

/// The white-space-separated words of a text, in order, as std's
/// `str::split_whitespace` gives them.
pub open spec fn words_of(s: Seq<char>) -> Seq<Seq<char>>
    decreases s.len(),
{
    if s.len() == 0 {
        Seq::empty()
    } else {
        let w = words_of(s.drop_last());
        let c = s.last();
        if white_space(c) {
            w
        } else if s.len() >= 2 && !white_space(s[s.len() - 2]) {
            w.update(w.len() - 1, w.last().push(c))
        } else {
            w.push(seq![c])
        }
    }
}

/// A text in lower case.
pub uninterp spec fn lower_of(s: Seq<char>) -> Seq<char>;

/// The white-space-separated words of a text.
fn split_words(s: &str) -> (r: Vec<String>)
    ensures
        r@.map_values(|w: String| w@) == words_of(s@),
{
    let cs = crate::colour_string::chars_of(s);
    let n = cs.len();
    let mut done: Vec<String> = Vec::new();
    let mut cur = String::new();
    let mut i: usize = 0;
    assert(s@.take(0) =~= Seq::<char>::empty());
    while i < n
        invariant
            cs@ == s@,
            n == s@.len(),
            i <= n,
            cur@.len() > 0 <==> (i > 0 && !white_space(s@[i - 1])),
            words_of(s@.take(i as int)) == if cur@.len() > 0 {
                done@.map_values(|w: String| w@).push(cur@)
            } else {
                done@.map_values(|w: String| w@)
            },
        decreases n - i,
    {
        let ghost prev_done = done@.map_values(|w: String| w@);
        let ghost prev_cur = cur@;
        assert(s@.take(i + 1).drop_last() =~= s@.take(i as int));
        assert(s@.take(i + 1).last() == cs@[i as int]);
        if is_whitespace(cs[i]) {
            if cur.as_str().unicode_len() > 0 {
                let word = cur;
                cur = String::new();
                done.push(word);
                assert(done@.map_values(|w: String| w@) =~= prev_done.push(prev_cur));
            }
        } else {
            let piece = s.substring_char(i, i + 1);
            assert(piece@ =~= seq![cs@[i as int]]);
            cur.append(piece);
            proof {
                let c = cs@[i as int];
                assert(cur@ =~= prev_cur.push(c));
                if prev_cur.len() > 0 {
                    assert(s@.take(i + 1)[i - 1] == s@[i - 1]);
                    assert(prev_done.push(prev_cur).update(prev_done.len() as int, prev_cur.push(c)) =~= prev_done.push(
                        cur@,
                    ));
                } else {
                    assert(cur@ =~= seq![c]);
                }
            }
        }
        i = i + 1;
    }
    assert(s@.take(n as int) =~= s@);
    if cur.as_str().unicode_len() > 0 {
        let ghost prev_done = done@.map_values(|w: String| w@);
        let ghost last = cur@;
        done.push(cur);
        assert(done@.map_values(|w: String| w@) =~= prev_done.push(last));
    }
    done
}

/// Relies on std's `str::to_lowercase`: a function of the text alone.
#[verifier::external_body]
fn lowercase(s: &str) -> (r: String)
    ensures
        r@ == lower_of(s@),
{
    s.to_lowercase()
}

/// The command a name (already in lower case) stands for, with `path` the
/// word after it.
pub open spec fn command_named(name: Seq<char>, typed: Seq<char>, path: Option<Seq<char>>) -> CommandView {
    if name == "q"@ || name == "quit"@ {
        CommandView::Quit
    } else if name == "o"@ || name == "open"@ {
        CommandView::Open(path)
    } else if name == "s"@ || name == "save"@ {
        CommandView::Save
    } else {
        CommandView::Unknown(typed)
    }
}

/// The mathematical value of a command.
pub enum CommandView {
    Empty,
    Quit,
    Open(Option<Seq<char>>),
    Save,
    Unknown(Seq<char>),
}

impl View for Command {
    type V = CommandView;

    open spec fn view(&self) -> CommandView {
        match self {
            Command::Empty => CommandView::Empty,
            Command::Quit => CommandView::Quit,
            Command::Open(p) => CommandView::Open(
                match p {
                    Some(s) => Some(s@),
                    None => None,
                },
            ),
            Command::Save => CommandView::Save,
            Command::Unknown(s) => CommandView::Unknown(s@),
        }
    }
}

/// The command for the words typed: the first word, in any case, names
/// it; an open command takes the second word as its path.
pub open spec fn command_spec(words: Seq<Seq<char>>) -> CommandView {
    if words.len() == 0 {
        CommandView::Empty
    } else {
        command_named(
            lower_of(words[0]),
            words[0],
            if words.len() > 1 { Some(words[1]) } else { None },
        )
    }
}

/// Whether a text is the given word.
fn is_word(s: &String, word: &str) -> (r: bool)
    ensures
        r == (s@ == word@),
{
    *s == String::from_str(word)
}

/// Reads a command typed in the palette.
pub fn parse_command(text: &str) -> (r: Command)
    ensures
        r@ == command_spec(words_of(text@)),
{
    let words = split_words(text);
    let ghost ws = words@.map_values(|w: String| w@);
    if words.len() == 0 {
        return Command::Empty;
    }
    let name = lowercase(words[0].as_str());
    let path = if words.len() > 1 { Some(words[1].clone()) } else { None };
    proof {
        reveal_strlit("q");
        reveal_strlit("quit");
        reveal_strlit("o");
        reveal_strlit("open");
        reveal_strlit("s");
        reveal_strlit("save");
    }
    assert(ws[0] == words@[0]@);
    if is_word(&name, "q") || is_word(&name, "quit") {
        Command::Quit
    } else if is_word(&name, "o") || is_word(&name, "open") {
        assert(words.len() > 1 ==> ws[1] == words@[1]@);
        Command::Open(path)
    } else if is_word(&name, "s") || is_word(&name, "save") {
        Command::Save
    } else {
        Command::Unknown(words[0].clone())
    }
}

pub open spec fn red_style() -> Style {
    Style { foreground: Colour::Ansi(RED), background: Colour::Reset, attributes: Seq::empty() }
}

/// `text` and then `suffix`, in red.
fn red_message(text: &String, suffix: &str) -> (r: ColourString)
    ensures
        r@ == cells_of(grapheme_clusters(text@ + suffix@), red_style()),
{
    let mut message = text.clone();
    message.append(suffix);
    let red = Info::new(Colour::Ansi(RED), Colour::Reset, Vec::new());
    assert(red@ =~= red_style());
    ColourString::new(message, Some(red))
}

/// The status output when an open command names no file.
pub fn missing_file_message(path: &String) -> (r: ColourString)
    ensures
        r@ == cells_of(grapheme_clusters(path@ + ": No such file"@), red_style()),
{
    red_message(path, ": No such file")
}

/// The status output for a command the editor does not know.
pub fn unknown_command_message(name: &String) -> (r: ColourString)
    ensures
        r@ == cells_of(grapheme_clusters(name@ + ": Command not found"@), red_style()),
{
    red_message(name, ": Command not found")
}

/// The panes' state that key and mouse decisions read and change.
#[derive(Clone, Copy, Debug, PartialEq, Eq, Structural)]
pub struct Panes {
    pub palette_enabled: bool,
    pub explorer_enabled: bool,
    pub explorer_selected: bool,
    /// Whether the current file is in insert mode.
    pub insert: bool,
    pub file_count: usize,
    pub file_index: usize,
}

/// The work an action leaves to the caller, beyond the panes' state.
#[derive(Clone, Copy, Debug, PartialEq, Eq, Structural)]
pub enum Effect {
    /// Nothing beyond the state.
    Done,
    /// Append a character to the command.
    AppendToCommand(char),
    /// Delete the command's last character.
    EraseFromCommand,
    /// Run the command, then forget it.
    RunCommand,
    /// Forget the command.
    ClearCommand,
    InsertChar(char),
    Backspace,
    NewLine,
    /// Move every file's text for the explorer pane: right when it is now
    /// shown, back left when it is now hidden.
    ShiftText(bool),
    /// Close the file at this index.
    CloseFile(usize),
    /// Act on the file explorer's selected entry.
    OpenSelected,
    Move(Target, Direction),
    /// Move a pane's cursor there; in the file explorer, then act on the
    /// entry there.
    Click(Target, u16, u16),
}

/// The panes after an action, and what is left to do; `command_len` is the
/// length of the command being typed.
pub open spec fn step_spec(s: Panes, action: Action, command_len: nat) -> (Panes, Effect) {
    let has_files = s.file_count > 0;
    match action {
        Action::TypeCommand(c) => (s, Effect::AppendToCommand(c)),
        Action::EraseCommand => (Panes { palette_enabled: command_len > 1, ..s }, Effect::EraseFromCommand),
        Action::RunCommand => (Panes { palette_enabled: false, ..s }, Effect::RunCommand),
        Action::CancelCommand => (Panes { palette_enabled: false, ..s }, Effect::ClearCommand),
        Action::InsertChar(c) => (s, Effect::InsertChar(c)),
        Action::Backspace => (s, Effect::Backspace),
        Action::NewLine => (s, Effect::NewLine),
        Action::LeaveInsert => (Panes { insert: false, ..s }, Effect::Done),
        Action::OpenPalette => (Panes { palette_enabled: true, ..s }, Effect::Done),
        Action::ToggleExplorer => if s.explorer_enabled && has_files {
            (Panes { explorer_enabled: false, explorer_selected: false, ..s }, Effect::ShiftText(false))
        } else if has_files {
            (Panes { explorer_enabled: true, ..s }, Effect::ShiftText(true))
        } else {
            (s, Effect::Done)
        },
        Action::ToggleExplorerFocus => if s.explorer_enabled {
            (Panes { explorer_selected: !s.explorer_selected, ..s }, Effect::Done)
        } else {
            (s, Effect::Done)
        },
        Action::EnterInsert => if has_files {
            (Panes { insert: true, ..s }, Effect::Done)
        } else {
            (s, Effect::Done)
        },
        Action::NextTab => if has_files {
            (
                Panes { file_index: (if s.file_index + 1 == s.file_count { 0 } else { s.file_index + 1 }) as usize, ..s },
                Effect::Done,
            )
        } else {
            (s, Effect::Done)
        },
        Action::PreviousTab => if has_files {
            (
                Panes { file_index: (if s.file_index == 0 { s.file_count - 1 } else { s.file_index - 1 }) as usize, ..s },
                Effect::Done,
            )
        } else {
            (s, Effect::Done)
        },
        Action::CloseTab => if has_files {
            (
                Panes {
                    file_count: (s.file_count - 1) as usize,
                    file_index: (if s.file_index == 0 { 0 } else { s.file_index - 1 }) as usize,
                    ..s
                },
                Effect::CloseFile(s.file_index),
            )
        } else {
            (s, Effect::Done)
        },
        Action::OpenSelected => if s.explorer_selected {
            (s, Effect::OpenSelected)
        } else {
            (s, Effect::Done)
        },
        Action::Move(t, d) => (s, Effect::Move(t, d)),
        Action::Click(t, x, y) => (s, Effect::Click(t, x, y)),
        Action::Nothing => (s, Effect::Done),
    }
}

impl Panes {
    /// The current file, if any, is one of the files.
    pub open spec fn wf(&self) -> bool {
        self.file_count == 0 || self.file_index < self.file_count
    }

    /// The pane that gets the terminal cursor.
    pub fn focus(&self) -> (r: Focus)
        ensures
            r == focus_spec(self.palette_enabled, self.explorer_selected, self.file_count > 0, self.insert),
    {
        focus(self.palette_enabled, self.explorer_selected, self.file_count > 0, self.insert)
    }

    /// The panes after an action, and what is left to do; `command_len` is
    /// the length of the command being typed.
    pub fn step(&self, action: Action, command_len: usize) -> (r: (Panes, Effect))
        requires
            self.wf(),
        ensures
            r == step_spec(*self, action, command_len as nat),
            r.0.wf(),
    {
        let s = *self;
        let has_files = s.file_count > 0;
        match action {
            Action::TypeCommand(c) => (s, Effect::AppendToCommand(c)),
            Action::EraseCommand => (Panes { palette_enabled: command_len > 1, ..s }, Effect::EraseFromCommand),
            Action::RunCommand => (Panes { palette_enabled: false, ..s }, Effect::RunCommand),
            Action::CancelCommand => (Panes { palette_enabled: false, ..s }, Effect::ClearCommand),
            Action::InsertChar(c) => (s, Effect::InsertChar(c)),
            Action::Backspace => (s, Effect::Backspace),
            Action::NewLine => (s, Effect::NewLine),
            Action::LeaveInsert => (Panes { insert: false, ..s }, Effect::Done),
            Action::OpenPalette => (Panes { palette_enabled: true, ..s }, Effect::Done),
            Action::ToggleExplorer => {
                if s.explorer_enabled && has_files {
                    (Panes { explorer_enabled: false, explorer_selected: false, ..s }, Effect::ShiftText(false))
                } else if has_files {
                    (Panes { explorer_enabled: true, ..s }, Effect::ShiftText(true))
                } else {
                    (s, Effect::Done)
                }
            },
            Action::ToggleExplorerFocus => {
                if s.explorer_enabled {
                    (Panes { explorer_selected: !s.explorer_selected, ..s }, Effect::Done)
                } else {
                    (s, Effect::Done)
                }
            },
            Action::EnterInsert => {
                if has_files {
                    (Panes { insert: true, ..s }, Effect::Done)
                } else {
                    (s, Effect::Done)
                }
            },
            Action::NextTab => {
                if has_files {
                    (Panes { file_index: next_tab(s.file_index, s.file_count), ..s }, Effect::Done)
                } else {
                    (s, Effect::Done)
                }
            },
            Action::PreviousTab => {
                if has_files {
                    (Panes { file_index: previous_tab(s.file_index, s.file_count), ..s }, Effect::Done)
                } else {
                    (s, Effect::Done)
                }
            },
            Action::CloseTab => {
                if has_files {
                    (
                        Panes { file_count: s.file_count - 1, file_index: tab_after_close(s.file_index), ..s },
                        Effect::CloseFile(s.file_index),
                    )
                } else {
                    (s, Effect::Done)
                }
            },
            Action::OpenSelected => {
                if s.explorer_selected {
                    (s, Effect::OpenSelected)
                } else {
                    (s, Effect::Done)
                }
            },
            Action::Move(t, d) => (s, Effect::Move(t, d)),
            Action::Click(t, x, y) => (s, Effect::Click(t, x, y)),
            Action::Nothing => (s, Effect::Done),
        }
    }
}

} // verus!

//! The keys of the editor and what each of them asks for.

use vstd::prelude::*;

use crate::cursor::Direction;

verus! {

/// A key of the keyboard, as far as the editor tells keys apart.
#[derive(Clone, Copy, Debug, PartialEq, Eq, Structural)]
pub enum Key {
    Char(char),
    Tab,
    Enter,
    Backspace,
    Esc,
    Up,
    Down,
    Left,
    Right,
    Other,
}

/// The modifier keys held down with a key: none, Control alone, or any
/// other set of them.
#[derive(Clone, Copy, Debug, PartialEq, Eq, Structural)]
pub enum Modifiers {
    Plain,
    Control,
    Other,
}

/// One event of the keyboard.
#[derive(Clone, Copy, Debug, PartialEq, Eq, Structural)]
pub struct KeyPress {
    /// The key.
    pub key: Key,
    /// The modifier keys held down with it.
    pub modifiers: Modifiers,
    /// Whether the key went down; it may also have come up or be
    /// repeating.
    pub pressed: bool,
}

/// What a key asks the editor to do.
#[derive(Clone, Copy, Debug, PartialEq, Eq, Structural)]
pub enum Command {
    Quit,
    Save,
    Load,
    Find,
    Move(Direction),
    Insert(char),
    NewLine,
    Delete,
    Nothing,
}

/// What a key means to a running search.
#[derive(Clone, Copy, Debug, PartialEq, Eq, Structural)]
pub enum SearchStep {
    /// The phrase has changed: search again.
    Search,
    /// Go to the next place found.
    Next,
    /// Go to the place found before.
    Previous,
    /// Nothing to do.
    Stay,
}

/// What a key means to a prompt that asks for a line of input.
#[derive(Clone, Copy, Debug, PartialEq, Eq, Structural)]
pub enum PromptStep {
    /// Give the input up and close the prompt.
    Cancel,
    /// Close the prompt with the input as it stands.
    Accept,
    /// Put the character behind the input.
    Push(char),
    /// Take the last character of the input away.
    Pop,
    /// Leave the input as it is.
    Stay,
}

/// What a key means to the question whether to quit.
#[derive(Clone, Copy, Debug, PartialEq, Eq, Structural)]
pub enum QuitStep {
    /// Quit.
    Confirm,
    /// Go back to the text.
    Cancel,
    /// Go on asking.
    Wait,
}

/// What the key event `press` asks for while the text is edited.
///
/// Control with `c`, `s`, `l` or `f` quits, saves, loads or finds, however
/// the key is reported. All else counts only when the key goes down: an
/// arrow without modifiers moves the cursor, a character or the tabulator
/// is typed, Enter breaks the row and Backspace deletes.
pub open spec fn command_of(press: KeyPress) -> Command {
    if press.modifiers == Modifiers::Control && press.key == Key::Char('c') {
        Command::Quit
    } else if press.modifiers == Modifiers::Control && press.key == Key::Char('s') {
        Command::Save
    } else if press.modifiers == Modifiers::Control && press.key == Key::Char('l') {
        Command::Load
    } else if press.modifiers == Modifiers::Control && press.key == Key::Char('f') {
        Command::Find
    } else if !press.pressed {
        Command::Nothing
    } else {
        match press.key {
            Key::Up => if press.modifiers == Modifiers::Plain {
                Command::Move(Direction::Up)
            } else {
                Command::Nothing
            },
            Key::Down => if press.modifiers == Modifiers::Plain {
                Command::Move(Direction::Down)
            } else {
                Command::Nothing
            },
            Key::Left => if press.modifiers == Modifiers::Plain {
                Command::Move(Direction::Left)
            } else {
                Command::Nothing
            },
            Key::Right => if press.modifiers == Modifiers::Plain {
                Command::Move(Direction::Right)
            } else {
                Command::Nothing
            },
            Key::Char(c) => Command::Insert(c),
            Key::Tab => Command::Insert('\t'),
            Key::Enter => Command::NewLine,
            Key::Backspace => Command::Delete,
            _ => Command::Nothing,
        }
    }
}

/// What the key `key`, which went down, means to a running search: a
/// character or Backspace has changed the phrase, right and left walk
/// through the places found.
pub open spec fn search_step_of(key: Key) -> SearchStep {
    match key {
        Key::Char(_) => SearchStep::Search,
        Key::Backspace => SearchStep::Search,
        Key::Right => SearchStep::Next,
        Key::Left => SearchStep::Previous,
        _ => SearchStep::Stay,
    }
}

/// What the key event `press` means to a prompt: Escape cancels and Enter
/// accepts, however the key is reported; a character that goes down is
/// put behind the input and Backspace that goes down takes one away.
pub open spec fn prompt_step_of(press: KeyPress) -> PromptStep {
    match press.key {
        Key::Esc => PromptStep::Cancel,
        Key::Enter => PromptStep::Accept,
        Key::Char(c) => if press.pressed {
            PromptStep::Push(c)
        } else {
            PromptStep::Stay
        },
        Key::Backspace => if press.pressed {
            PromptStep::Pop
        } else {
            PromptStep::Stay
        },
        _ => PromptStep::Stay,
    }
}

/// What the key event `press` means to the question whether to quit: only
/// a key that goes down counts, Control with `c` to confirm and Escape to
/// cancel.
pub open spec fn quit_step_of(press: KeyPress) -> QuitStep {
    if !press.pressed {
        QuitStep::Wait
    } else if press.key == Key::Char('c') && press.modifiers == Modifiers::Control {
        QuitStep::Confirm
    } else if press.key == Key::Esc {
        QuitStep::Cancel
    } else {
        QuitStep::Wait
    }
}

/// What the key event `press` asks for while the text is edited.
pub fn command(press: KeyPress) -> (asked: Command)
    ensures
        asked == command_of(press),
{
    let control = press.modifiers == Modifiers::Control;
    let plain = press.modifiers == Modifiers::Plain;
    match press.key {
        Key::Char(c) => {
            if control && c == 'c' {
                Command::Quit
            } else if control && c == 's' {
                Command::Save
            } else if control && c == 'l' {
                Command::Load
            } else if control && c == 'f' {
                Command::Find
            } else if press.pressed {
                Command::Insert(c)
            } else {
                Command::Nothing
            }
        },
        Key::Up => if plain && press.pressed {
            Command::Move(Direction::Up)
        } else {
            Command::Nothing
        },
        Key::Down => if plain && press.pressed {
            Command::Move(Direction::Down)
        } else {
            Command::Nothing
        },
        Key::Left => if plain && press.pressed {
            Command::Move(Direction::Left)
        } else {
            Command::Nothing
        },
        Key::Right => if plain && press.pressed {
            Command::Move(Direction::Right)
        } else {
            Command::Nothing
        },
        Key::Tab => if press.pressed {
            Command::Insert('\t')
        } else {
            Command::Nothing
        },
        Key::Enter => if press.pressed {
            Command::NewLine
        } else {
            Command::Nothing
        },
        Key::Backspace => if press.pressed {
            Command::Delete
        } else {
            Command::Nothing
        },
        _ => Command::Nothing,
    }
}

/// What the key event `press` means to a prompt.
pub fn prompt_step(press: KeyPress) -> (step: PromptStep)
    ensures
        step == prompt_step_of(press),
{
    match press.key {
        Key::Esc => PromptStep::Cancel,
        Key::Enter => PromptStep::Accept,
        Key::Char(c) => {
            if press.pressed {
                PromptStep::Push(c)
            } else {
                PromptStep::Stay
            }
        },
        Key::Backspace => {
            if press.pressed {
                PromptStep::Pop
            } else {
                PromptStep::Stay
            }
        },
        _ => PromptStep::Stay,
    }
}

/// What the key event `press` means to the question whether to quit.
pub fn quit_step(press: KeyPress) -> (step: QuitStep)
    ensures
        step == quit_step_of(press),
{
    if !press.pressed {
        return QuitStep::Wait;
    }
    match press.key {
        Key::Char(c) => {
            if c == 'c' && press.modifiers == Modifiers::Control {
                QuitStep::Confirm
            } else {
                QuitStep::Wait
            }
        },
        Key::Esc => QuitStep::Cancel,
        _ => QuitStep::Wait,
    }
}

/// What the key `key`, which went down, means to a running search.
pub fn search_step(key: Key) -> (step: SearchStep)
    ensures
        step == search_step_of(key),
{
    match key {
        Key::Char(_) | Key::Backspace => SearchStep::Search,
        Key::Right => SearchStep::Next,
        Key::Left => SearchStep::Previous,
        _ => SearchStep::Stay,
    }
}

} // verus!

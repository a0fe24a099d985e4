//! Keys and the commands they stand for in each editor mode.

use vstd::prelude::*;

use crate::editor::EditorMode;

verus! {

/// An arrow direction.
#[derive(Clone, Copy, Debug, PartialEq, Eq, Structural)]
pub enum Direction {
    Up,
    Down,
    Left,
    Right,
}

/// The modifier keys held with a key.
#[derive(Clone, Copy, Debug)]
pub struct Modifiers {
    pub ctrl: bool,
    pub alt: bool,
    pub shift: bool,
}

/// The keys the editor tells apart.
#[derive(Clone, Copy, Debug)]
pub enum KeyCode {
    Char(char),
    Enter,
    Esc,
    Backspace,
    Arrow(Direction),
}

/// A key press.
#[derive(Clone, Copy, Debug)]
pub struct KeyEvent {
    pub code: KeyCode,
    pub modifiers: Modifiers,
}

/// What the editor is asked to do.
#[derive(Clone, Copy, Debug)]
pub enum Command {
    InsertChar(char),
    InsertNewline,
    DeleteCharBackward,
    DeleteCharForward,
    MoveCursor(Direction, usize),
    Save,
    Quit,
    Undo,
    Redo,
    Copy,
    Paste,
    SwitchMode(EditorMode),
    // Commands of the ":" mode (in the style of vim), for typing a file
    // name and running the order, such as ":w notes.txt".
    CommandChar(char),
    CommandBackspace,
    CommandExecute,
    NoOp,
}

/// The key map. With Ctrl held, `s`, `q` and `r` save, quit and redo in
/// every mode. Otherwise in Normal mode `i` enters Insert mode, `:` the
/// command line, `u` undoes, `x` deletes forward, `y` copies the line, `p`
/// pastes, `q` quits and the arrows move; in Insert mode Esc goes back to
/// Normal, characters are typed, Enter breaks the line, Backspace deletes
/// backward and the arrows move; in Command mode Esc cancels, Enter runs
/// the line, Backspace deletes and characters are typed into the line.
/// Visual mode has no keys of its own.
pub open spec fn key_command(event: KeyEvent, mode: EditorMode) -> Command {
    if event.modifiers.ctrl && event.code == KeyCode::Char('s') {
        Command::Save
    } else if event.modifiers.ctrl && event.code == KeyCode::Char('q') {
        Command::Quit
    } else if event.modifiers.ctrl && event.code == KeyCode::Char('r') {
        Command::Redo
    } else {
        match mode {
            EditorMode::Normal => match event.code {
                KeyCode::Char('i') => Command::SwitchMode(EditorMode::Insert),
                KeyCode::Char(':') => Command::SwitchMode(EditorMode::Command),
                KeyCode::Char('u') => Command::Undo,
                KeyCode::Char('x') => Command::DeleteCharForward,
                KeyCode::Char('y') => Command::Copy,
                KeyCode::Char('p') => Command::Paste,
                KeyCode::Char('q') => Command::Quit,
                KeyCode::Arrow(d) => Command::MoveCursor(d, 1),
                _ => Command::NoOp,
            },
            EditorMode::Insert => match event.code {
                KeyCode::Esc => Command::SwitchMode(EditorMode::Normal),
                KeyCode::Char(c) => Command::InsertChar(c),
                KeyCode::Enter => Command::InsertNewline,
                KeyCode::Backspace => Command::DeleteCharBackward,
                KeyCode::Arrow(d) => Command::MoveCursor(d, 1),
            },
            EditorMode::Command => match event.code {
                KeyCode::Esc => Command::SwitchMode(EditorMode::Normal),
                KeyCode::Enter => Command::CommandExecute,
                KeyCode::Backspace => Command::CommandBackspace,
                KeyCode::Char(c) => Command::CommandChar(c),
                _ => Command::NoOp,
            },
            EditorMode::Visual => Command::NoOp,
        }
    }
}

/// Turns key presses into commands.
pub struct InputHandler;

impl InputHandler {
    pub fn new() -> (res: Self) {
        InputHandler
    }

    /// The command that `event` stands for in `mode`. The mode is an
    /// argument because Normal and Insert mode read the same keys
    /// differently.
    pub fn map_key(&self, event: KeyEvent, mode: EditorMode) -> (res: Command)
        ensures
            res == key_command(event, mode),
    {
        if event.modifiers.ctrl {
            match event.code {
                KeyCode::Char('s') => return Command::Save,
                KeyCode::Char('q') => return Command::Quit,
                KeyCode::Char('r') => return Command::Redo,
                _ => {},
            }
        }
        match mode {
            EditorMode::Normal => match event.code {
                KeyCode::Char('i') => Command::SwitchMode(EditorMode::Insert),
                KeyCode::Char(':') => Command::SwitchMode(EditorMode::Command),
                KeyCode::Char('u') => Command::Undo,
                KeyCode::Char('x') => Command::DeleteCharForward,
                KeyCode::Char('y') => Command::Copy,
                KeyCode::Char('p') => Command::Paste,
                KeyCode::Char('q') => Command::Quit,
                KeyCode::Arrow(d) => Command::MoveCursor(d, 1),
                _ => Command::NoOp,
            },
            EditorMode::Insert => match event.code {
                KeyCode::Esc => Command::SwitchMode(EditorMode::Normal),
                KeyCode::Char(c) => Command::InsertChar(c),
                KeyCode::Enter => Command::InsertNewline,
                KeyCode::Backspace => Command::DeleteCharBackward,
                KeyCode::Arrow(d) => Command::MoveCursor(d, 1),
            },
            EditorMode::Command => match event.code {
                KeyCode::Esc => Command::SwitchMode(EditorMode::Normal),
                KeyCode::Enter => Command::CommandExecute,
                KeyCode::Backspace => Command::CommandBackspace,
                KeyCode::Char(c) => Command::CommandChar(c),
                _ => Command::NoOp,
            },
            EditorMode::Visual => Command::NoOp,
        }
    }
}

} // verus!
